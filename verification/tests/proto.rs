use jr::proto::{scan, scan_litnumarray, scan_litstring, scan_word, Token};

fn chars(s: &str) -> Vec<char> {
    s.chars().collect()
}

#[test]
fn scan_num() {
    let tokens = scan("1 2 3\n").unwrap();
    println!("{:?}", tokens);
    assert_eq!(tokens, [Token::LitNumArray(String::from("1 2 3"))]);
}

#[test]
fn first_scanner_words_and_parentheses() {
    let tokens = scan("+/ (abc)\n").unwrap();
    assert_eq!(
        tokens,
        [
            Token::Verb(String::from("+/")),
            Token::LP,
            Token::Verb(String::from("abc")),
            Token::RP
        ]
    );
}

#[test]
fn first_scanner_drops_an_unfinished_word() {
    assert_eq!(scan("abc").unwrap(), []);
    assert_eq!(scan("").unwrap(), []);
}

#[test]
fn first_scanner_strings() {
    let tokens = scan("'it''s' x\n").unwrap();
    assert_eq!(tokens, [Token::LitString(String::from("it's")), Token::Verb(String::from("x"))]);
    // a line break right after a string leaves it open
    assert!(scan("'abc'\n").is_err());
    assert_eq!(scan("'abc\n").unwrap_err().message, "open quote");
}

#[test]
fn first_scanner_numbers_skip_their_terminator() {
    // the character that ends a number is skipped with it
    assert_eq!(scan("1+2 ").unwrap(), [Token::LitNumArray(String::from("1")), Token::LitNumArray(String::from("2"))]);
}

#[test]
fn first_scanner_pieces() {
    let s = chars("12 3+x");
    assert_eq!(scan_litnumarray(&s, 0).unwrap(), (4, Token::LitNumArray(String::from("12 3"))));
    let s = chars("123");
    assert_eq!(scan_litnumarray(&s, 0).unwrap(), (2, Token::LitNumArray(String::from("12"))));
    let s = chars("'ab''c' ");
    assert_eq!(scan_litstring(&s, 0).unwrap(), (6, Token::LitString(String::from("ab'c"))));
    let s = chars("name.x");
    assert_eq!(scan_word(&s, 0).unwrap(), (4, Token::Verb(String::from("name"))));
    let s = chars("name");
    assert_eq!(scan_word(&s, 0).unwrap(), (3, Token::Verb(String::from("nam"))));
}
