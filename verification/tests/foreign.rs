use jr::{arg_to_string, arg_to_string_list, Ar, os_type_code, shell_out, 
    dump_hex_words, foreign, hex_word, int_bytes, script_options, ForeignVerb, JError,
    ScriptOptionError,
};

#[test]
fn foreign_table_entries() {
    let f = foreign(1, 1).unwrap();
    assert_eq!(ForeignVerb::ReadFile, f.verb);
    assert_eq!((Some(0), None, None), f.ranks);
    assert_eq!(ForeignVerb::LoadScript(10), foreign(0, 10).unwrap().verb);
    assert_eq!(ForeignVerb::SecurityViolation("mkdir"), foreign(1, 5).unwrap().verb);
    assert_eq!(ForeignVerb::Unimplemented("time current"), foreign(6, 0).unwrap().verb);
    assert_eq!(ForeignVerb::OsType, foreign(9, 12).unwrap().verb);
}

#[test]
fn unknown_foreigns_are_refused_by_family() {
    assert_eq!("file", foreign(1, 99).unwrap_err().category);
    assert_eq!("major", foreign(4, 2).unwrap_err().category);
    assert_eq!("major", foreign(77, 0).unwrap_err().category);
    assert_eq!(JError::NonceError, foreign(8, 0).unwrap_err().error());
}

#[test]
fn script_options_from_digits() {
    assert_eq!(Ok(true), script_options(0));
    assert_eq!(Ok(false), script_options(10));
    assert_eq!(Err(ScriptOptionError::Display), script_options(1));
    assert_eq!(Err(ScriptOptionError::UnrecognisedErr), script_options(20));
    assert_eq!(Err(ScriptOptionError::FromNoun), script_options(100));
    assert_eq!(Err(ScriptOptionError::UnrecognisedSrc), script_options(200));
    assert_eq!(Err(ScriptOptionError::UnrecognisedDisplay), script_options(-5));
    assert_eq!(Err(ScriptOptionError::UnrecognisedSrc), script_options(-10));
}

#[test]
fn hex_dump_words() {
    assert_eq!(Ok(vec![0xe3, 4, 3, 1, 3, 1, 2, 3]), dump_hex_words(&[3], &[1, 2, 3]));
    assert_eq!("0100000000000000", hex_word(1));
    assert_eq!("e300000000000000", hex_word(0xe3));
    assert_eq!("ffffffffffffffff", hex_word(-1));
    assert_eq!(format!("{:016x}", 258i64.to_be()), hex_word(258));
}

#[test]
fn int_bytes_of_a_code() {
    assert_eq!(Ok(vec!['A', '\0', '\0', '\0']), int_bytes(2, 65));
    assert_eq!(Ok(vec!['A', '\0', '\0', '\0']), int_bytes(2, 321));
    assert_eq!(Err(JError::NonceError), int_bytes(3, 65));
}

#[test]
fn host_answers() {
    assert_eq!(os_type_code("linux"), 5);
    assert_eq!(os_type_code("windows"), 6);
    assert_eq!(os_type_code("macos"), -1);
    let uname: Vec<char> = "uname".chars().collect();
    assert_eq!(shell_out(Some(&uname), true), Ok("Linux".to_string()));
    assert_eq!(shell_out(Some(&uname), false), Err(JError::NonceError));
    let ls: Vec<char> = "ls".chars().collect();
    assert_eq!(shell_out(Some(&ls), true), Err(JError::NonceError));
    assert_eq!(shell_out(None, true), Err(JError::NonceError));
}

#[test]
fn boxed_string_arguments() {
    let s = |t: &str| Ar::Chars(1, t.chars().collect());
    assert_eq!(arg_to_string_list(1, &vec![s("ab"), s("c")]), Ok(vec!["ab".to_string(), "c".to_string()]));
    assert_eq!(arg_to_string_list(2, &vec![s("ab")]), Err(JError::NonceError));
    assert_eq!(arg_to_string_list(1, &vec![Ar::Chars(2, vec!['a'])]), Err(JError::NonceError));
    assert_eq!(arg_to_string_list(1, &vec![Ar::Other(0)]), Err(JError::NonceError));
    assert_eq!(arg_to_string(0, &vec![s("x")]), Ok("x".to_string()));
    assert_eq!(arg_to_string(1, &vec![s("x"), s("y")]), Err(JError::NonceError));
    assert_eq!(arg_to_string(1, &vec![]), Err(JError::NonceError));
}

#[test]
fn refused_foreigns_fail_when_used() {
    for (l, r) in [(1, 5), (2, 1)] {
        let f = foreign(l, r).unwrap();
        assert_eq!((None, None, None), f.ranks);
        assert_eq!(Some(JError::SecurityViolation), f.verb.refusal());
    }
    for (l, r) in [(1, 0), (2, 3), (3, 0), (6, 0), (7, 0), (13, 8), (128, 2)] {
        let f = foreign(l, r).unwrap();
        assert_eq!((None, None, None), f.ranks, "{l}!:{r}");
        assert_eq!(Some(JError::NonceError), f.verb.refusal(), "{l}!:{r}");
    }
    assert_eq!(None, foreign(2, 5).unwrap().verb.refusal());
}
