use jr::{
    find_do, for_parts, if_block_starts, if_step, infer_type, is_control, line_ranges, resolve_controls,
    try_parts, control_tokens, cor, scan_error, ControlError, Cor, CorBody, DefKind, IfAction, JError, Token,
};

#[test]
fn assert_lines_are_gathered() {
    let mut words = vec![Token::Assert, Token::Word(1), Token::Word(2), Token::NewLine, Token::Word(3)];
    assert_eq!(resolve_controls(&mut words), Ok(true));
    assert_eq!(words.len(), 3);
    match &words[0] {
        Token::AssertLine(v) => {
            assert_eq!(v.len(), 2);
            assert!(matches!(v[0], Token::Word(1)));
            assert!(matches!(v[1], Token::Word(2)));
        }
        _ => panic!("expected an assert line"),
    }
    assert!(matches!(words[1], Token::NewLine));
    assert!(matches!(words[2], Token::Word(3)));
}

#[test]
fn if_statements_become_blocks_between_line_breaks() {
    let mut words = vec![Token::If, Token::Word(1), Token::Do, Token::Word(2), Token::End];
    assert_eq!(resolve_controls(&mut words), Ok(true));
    assert_eq!(words.len(), 3);
    assert!(matches!(words[0], Token::NewLine));
    match &words[1] {
        Token::IfBlock(v) => {
            assert_eq!(v.len(), 3);
            assert!(matches!(v[1], Token::Do));
            assert_eq!(find_do(v, 0, v.len()), Some(1));
        }
        _ => panic!("expected an if block"),
    }
    assert!(matches!(words[2], Token::NewLine));
}

#[test]
fn open_statements_want_more_input() {
    let mut words = vec![Token::While, Token::Word(1), Token::Do];
    assert_eq!(resolve_controls(&mut words), Ok(false));
    let mut words = vec![Token::DirectDefUnknown, Token::Word(1)];
    assert_eq!(resolve_controls(&mut words), Ok(false));
}

#[test]
fn leftover_control_words_are_refused() {
    let mut words = vec![Token::Word(1), Token::End];
    assert_eq!(resolve_controls(&mut words), Err(ControlError::Unresolved));
}

#[test]
fn direct_definitions_infer_their_kind() {
    let mut words = vec![
        Token::DirectDefUnknown,
        Token::Name(String::from("x"), 0),
        Token::Word(1),
        Token::Name(String::from("y"), 1),
        Token::DirectDefEnd,
    ];
    assert_eq!(resolve_controls(&mut words), Ok(true));
    assert_eq!(words.len(), 1);
    match &words[0] {
        Token::Definition(k, v, _) => {
            assert_eq!(*k, DefKind::Dyad);
            assert_eq!(v.len(), 3);
        }
        _ => panic!("expected a definition"),
    }
    let mut words = vec![Token::DirectDef('q'), Token::Word(1), Token::DirectDefEnd];
    assert_eq!(resolve_controls(&mut words), Err(ControlError::UnsupportedDefinition('q')));
}

#[test]
fn kinds_from_names_used() {
    assert_eq!(infer_type(&vec![Token::Name(String::from("u"), 0)]), 'a');
    assert_eq!(infer_type(&vec![Token::Name(String::from("v"), 0)]), 'c');
    assert_eq!(infer_type(&vec![Token::Name(String::from("y"), 0)]), 'm');
    assert_eq!(infer_type(&vec![Token::Name(String::from("xx"), 0)]), 'm');
}

#[test]
fn control_words_and_if_blocks() {
    assert!(is_control(&Token::Else));
    assert!(!is_control(&Token::Word(0)));
    let body = vec![Token::Word(1), Token::Do, Token::Else, Token::Word(2), Token::ElseIf, Token::Word(3)];
    assert_eq!(if_block_starts(&body), vec![0, 2, 4]);
    assert_eq!(find_do(&body, 2, 6), None);
}

#[test]
fn if_statements_run_block_by_block() {
    // if. 1 do. 2 elseif. 3 do. 4 else. 5 end.  (the words inside the block)
    let def = vec![
        Token::Word(1),
        Token::Do,
        Token::Word(2),
        Token::ElseIf,
        Token::Word(3),
        Token::Do,
        Token::Word(4),
        Token::Else,
        Token::Word(5),
    ];
    assert!(matches!(if_step(&def, 0), IfAction::Test { cond: (0, 1), body: (2, 3) }));
    assert!(matches!(if_step(&def, 1), IfAction::Test { cond: (4, 5), body: (6, 7) }));
    assert!(matches!(if_step(&def, 2), IfAction::Otherwise(8, 9)));
    assert!(matches!(if_step(&def, 3), IfAction::Done));
    let no_do = vec![Token::Word(1)];
    assert!(matches!(if_step(&no_do, 0), IfAction::Fail(JError::SyntaxError)));
}

#[test]
fn lines_for_and_try_blocks() {
    let def = vec![Token::NewLine, Token::Word(1), Token::NewLine, Token::NewLine, Token::Word(2), Token::Word(3)];
    assert_eq!(line_ranges(&def), vec![(1, 2), (4, 6)]);
    let body = vec![Token::Word(1), Token::Do, Token::Word(2)];
    assert_eq!(for_parts(false, &body), Ok(((0, 1), (2, 3))));
    assert_eq!(for_parts(true, &body), Err(JError::NonceError));
    assert_eq!(for_parts(false, &vec![Token::Word(1)]), Err(JError::SyntaxError));
    let t = vec![Token::Word(1), Token::CatchD, Token::Word(2)];
    assert_eq!(try_parts(&t), Ok(((0, 1), (2, 3))));
    assert_eq!(try_parts(&vec![Token::Word(1)]), Err(JError::SyntaxError));
}

#[test]
fn explicit_definitions() {
    assert!(matches!(cor(3, CorBody::Zero), Ok((true, Cor::Suspend(3)))));
    assert!(matches!(cor(3, CorBody::Other), Err(JError::DomainError)));
    match cor(0, CorBody::Chars("abc".chars().collect())) {
        Ok((false, Cor::Noun(c))) => assert_eq!(c, vec!['a', 'b', 'c']),
        _ => panic!("expected a noun"),
    }
    assert!(matches!(cor(7, CorBody::Chars(vec!['y'])), Err(JError::NonceError)));
    match cor(3, CorBody::Chars("y + 1".chars().collect())) {
        Ok((false, Cor::Define(words, Token::Definition(k, v, _)))) => {
            assert_eq!(words.len(), 3);
            assert_eq!(k, DefKind::Monad);
            assert_eq!(v.len(), 3);
            assert!(matches!(&v[0], Token::Name(n, 0) if n == "y"));
            assert!(matches!(v[1], Token::Word(1)));
        }
        _ => panic!("expected a definition"),
    }
    match cor(4, CorBody::Chars("'ab\ncd".chars().collect())) {
        Err(JError::Legacy(m)) => assert_eq!(m, "open quote"),
        other => panic!("{:?}", other.err()),
    }
}

#[test]
fn scanned_words_as_control_tokens() {
    let words = jr::scan("x =: 1").unwrap();
    let t = control_tokens(&words);
    assert_eq!(t.len(), 3);
    assert!(matches!(&t[0], Token::Name(n, 0) if n == "x"));
    assert!(matches!(t[2], Token::Word(2)));
    assert_eq!(scan_error(jr::ScanError::IllFormedNumber), JError::IllFormedNumber);
    assert_eq!(scan_error(jr::ScanError::InvalidPrimitive), JError::Legacy("Invalid primitive".to_string()));
}

#[test]
fn words_without_controls_resolve_unchanged() {
    let mut words = vec![Token::Word(0), Token::Name("x".to_string(), 1), Token::Word(2)];
    assert_eq!(resolve_controls(&mut words), Ok(true));
    assert_eq!(words.len(), 3);
    assert!(matches!(words[0], Token::Word(0)));
    assert!(matches!(&words[1], Token::Name(n, 1) if n == "x"));
    assert!(matches!(words[2], Token::Word(2)));
}

#[test]
fn explicit_definitions_make_verbs_of_infinite_rank() {
    assert_eq!(Some((None, None, None)), DefKind::Monad.ranks());
    assert_eq!(Some((None, None, None)), DefKind::Dyad.ranks());
    assert_eq!(None, DefKind::Adverb.ranks());
    assert_eq!(None, DefKind::Conjunction.ranks());
    assert_eq!(Some(3), DefKind::Monad.cor_number());
    assert_eq!(Some(4), DefKind::Dyad.cor_number());
    assert_eq!(None, DefKind::Adverb.cor_number());
    assert_eq!(Err(JError::DomainError), DefKind::Dyad.call_check(false));
    assert_eq!(Ok(()), DefKind::Dyad.call_check(true));
    assert_eq!(Ok(()), DefKind::Monad.call_check(false));
}
