use jr::{completion, highlights, WordClass, br_box, br_box_checked, br_char, br, compute_dimension_spacing, help, hint, j_format_i64, j_format_u8, print_dimension_markings, search_help};

fn idot(n: i64) -> Vec<String> {
    (0..n).map(j_format_i64).collect()
}

#[test]
fn br_2_2() {
    let s = br(&[2, 3, 2], &idot(12));
    assert_eq!(" 0  1\n 2  3\n 4  5\n\n 6  7\n 8  9\n10 11\n", s)
}

#[test]
fn atoms_and_empties() {
    assert_eq!("5\n", br(&[], &vec!["5".to_string()]));
    assert_eq!("\n", br(&[0], &vec![]));
    assert_eq!("", br(&[2, 0], &vec![]));
    assert_eq!("1 2 3\n", br(&[3], &idot(4)[1..].to_vec()));
}

#[test]
fn negative_numbers_use_underscore() {
    assert_eq!("_5", j_format_i64(-5));
    assert_eq!("0", j_format_i64(0));
    assert_eq!("9223372036854775807", j_format_i64(i64::MAX));
    assert_eq!("255", j_format_u8(255));
    assert_eq!("_1  2\n 3 _4\n", br(&[2, 2], &vec![j_format_i64(-1), j_format_i64(2), j_format_i64(3), j_format_i64(-4)]));
}

#[test]
fn spacing_between_dimensions() {
    assert_eq!(vec![3, 6], compute_dimension_spacing(&[2, 3, 2]));
    assert_eq!(Vec::<usize>::new(), compute_dimension_spacing(&[4]));
    assert_eq!("\n", print_dimension_markings(2, &[3, 6]));
    assert_eq!("\n\n", print_dimension_markings(5, &[3, 6]));
    assert_eq!("", print_dimension_markings(0, &[3, 6]));
}

#[test]
fn help_for_primitives() {
    assert_eq!(Some("\"+\": 'conjugate' or 'plus' (0 0 0)".to_string()), help("+"));
    assert_eq!(Some("\"\\\\:\": 'grade down' or 'sort' (_ _ _)".to_string()), help("\\:"));
    assert_eq!(None, help("+/"));
    let hits = search_help("sort");
    assert_eq!(vec!["/:", "\\:"], hits.iter().map(|(n, _)| *n).collect::<Vec<_>>());
}

#[test]
fn hints_for_a_line() {
    assert!(hint("").is_none());
    assert!(hint("1 2").is_none());
    let h = hint("1 + 2").unwrap();
    assert_eq!("  \"+\": 'conjugate' or 'plus' (0 0 0)", h.display());
    let h = hint("+ - +").unwrap();
    assert_eq!("  \"+\": 'conjugate' or 'plus' (0 0 0); \"-\": 'negate' or 'minus' (0 0 0)", h.display());
}

#[test]
fn character_tables_show_rows() {
    let cs: Vec<char> = "abcdef".chars().collect();
    assert_eq!(br_char(&[2, 3], &cs), "abc\ndef\n");
    assert_eq!(br_char(&[2, 1, 3], &cs), "abc\n\ndef\n");
    let with_nul: Vec<char> = vec!['a', '\0', 'b'];
    assert_eq!(br_char(&[3], &with_nul), "ab\n");
    assert_eq!(br_char(&[], &['x']), "x\n");
    assert_eq!(br_char(&[0], &[]), "\n");
    assert_eq!(br_char(&[2, 0], &[]), "");
}

#[test]
fn boxes_are_written_one_after_another() {
    let items = vec!["a".to_string(), "bb".to_string()];
    assert_eq!(br_box(&[2], &items), "abb");
    assert_eq!(br_box_checked(&[2], &items), Some("abb".to_string()));
    assert_eq!(br_box_checked(&[], &vec!["x".to_string()]), Some("x\n".to_string()));
    assert_eq!(br_box_checked(&[0], &vec![]), Some("\n".to_string()));
}

#[test]
fn boxes_that_cannot_be_laid_out() {
    // a one-line item beside a two-line one is padded with a two-byte line
    let items = vec!["a\nb".to_string(), "c".to_string()];
    assert_eq!(br_box_checked(&[2], &items), None);
    // a line longer in bytes than its column is wide
    let items = vec!["\u{e9}".to_string()];
    assert_eq!(br_box_checked(&[1], &items), None);
    let items = vec!["ab\nc".to_string(), "de\nf".to_string()];
    assert_eq!(br_box_checked(&[2], &items), Some("ab\ncde\nf".to_string()));
}

#[test]
fn completion_offers_primitives_for_the_last_name() {
    assert_eq!(completion("1 + tal"), (4, vec!["#", "{"]));
    assert_eq!(completion("1 + 2"), (0, vec![]));
    assert_eq!(completion("'open"), (0, vec![]));
}

#[test]
fn highlighting_colours_words_last_first() {
    assert_eq!(
        highlights("+/ abc"),
        Some(vec![((3, 5), WordClass::Name), ((1, 1), WordClass::Adverb), ((0, 0), WordClass::Verb)])
    );
    // a numeric literal runs over the blanks after it
    assert_eq!(highlights("( 1 )"), Some(vec![((2, 3), WordClass::Noun)]));
}
