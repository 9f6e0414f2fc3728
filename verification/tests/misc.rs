use jr::{
    cut_frets, cut_mode, cut_positions, quote_string, scan, when_verb, AdverbImpl, Char, JError,
    Literal, MaybeUnit, MaybeVerb, Word,
};

#[test]
fn test_cut_inc_end() {
    assert_eq!(cut_frets(&[0, 3, 4, 6], true, true), vec![(0, 1), (1, 4), (4, 5), (5, 7)]);
    assert_eq!(cut_frets(&[3, 4, 6], true, true), vec![(0, 4), (4, 5), (5, 7)]);
}

#[test]
fn test_cut_exc_end() {
    assert_eq!(cut_frets(&[0, 3, 4, 6], false, true), vec![(0, 0), (1, 3), (4, 4), (5, 6)]);
    assert_eq!(cut_frets(&[3, 4, 6], false, true), vec![(0, 3), (4, 4), (5, 6)]);
}

#[test]
fn test_cut_inc_start() {
    assert_eq!(cut_frets(&[0, 3, 4, 6, 7], true, false), vec![(0, 3), (3, 4), (4, 6), (6, 7)]);
    assert_eq!(cut_frets(&[0, 3, 4, 6], true, false), vec![(0, 3), (3, 4), (4, 6)]);
}

#[test]
fn cut_exclusive_start_and_modes() {
    assert_eq!(cut_frets(&[0, 3, 4], false, false), vec![(1, 3), (4, 4)]);
    assert_eq!(Ok((true, true)), cut_mode(2));
    assert_eq!(Ok((true, false)), cut_mode(-2));
    assert_eq!(Ok((false, true)), cut_mode(1));
    assert_eq!(Ok((false, false)), cut_mode(-1));
    assert_eq!(Err(JError::DomainError), cut_mode(3));
    assert_eq!(vec![1, 3], cut_positions(&[false, true, false, true], true));
    assert_eq!(vec![0, 2, 4], cut_positions(&[true, false, true, false], false));
}

#[test]
fn maybe_unit_keeps_atoms() {
    let a = MaybeUnit::from_parse_rules(vec![5]);
    assert!(matches!(a, MaybeUnit::Atom(_)));
    assert_eq!(&[5], a.as_list());
    assert_eq!(vec![5], a.into_list());
    let l = MaybeUnit::from_parse_iter(vec![1, 2]);
    assert!(matches!(l, MaybeUnit::List(_)));
    assert_eq!(vec![1, 2], l.into_list());
    let e: MaybeUnit<i32> = MaybeUnit::from_parse_rules(vec![]);
    assert!(matches!(e, MaybeUnit::List(_)));
}

#[test]
fn chars_add_their_low_bytes() {
    let a = Char::new('a');
    assert_eq!(Char::new('\u{c2}'), a + a);
    assert_eq!(Char::new('\u{2}'), Char::new('\u{81}') + Char::new('\u{81}'));
    assert!(Char::zero().is_zero());
    assert!(!a.is_zero());
}

#[test]
fn adverb_impls_compare() {
    assert_eq!(AdverbImpl::Slash, AdverbImpl::Slash);
    assert_ne!(AdverbImpl::Slash, AdverbImpl::CurlyRt);
}

#[test]
fn quote_string_doubles_quotes() {
    assert_eq!("'it''s'", quote_string("it's"));
    assert_eq!("''", quote_string(""));
    // and the scanner reads it back
    assert_eq!(vec![Word::Noun(Literal::Chars("it's".chars().collect()))], scan(&quote_string("it's")).unwrap());
    assert_eq!(vec![Word::Noun(Literal::Char('x'))], scan(&quote_string("x")).unwrap());
}

#[test]
fn verbs_and_names_may_be_verbs() {
    let ws = scan("+ foo 1").unwrap();
    assert!(matches!(when_verb(&ws[0]), Some(MaybeVerb::Verb(_))));
    assert_eq!(Some(MaybeVerb::Name("foo".to_string())), when_verb(&ws[1]));
    assert_eq!(None, when_verb(&ws[2]));
    let w = when_verb(&ws[0]).unwrap().into_word();
    assert_eq!(ws[0], w);
}
