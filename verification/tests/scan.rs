use jr::{
    kind_before_float_demotion, primitive_adverbs, primitive_conjunctions, primitive_verbs, scan,
    scan_num_token, scan_with_locations, str_to_primitive, ArrayKind, Literal, NumTerm, ScanError,
    Word,
};
use num::bigint::BigInt;
use num::complex::Complex64;
use num::rational::BigRational;
use num::ToPrimitive;

fn chars(s: &str) -> Vec<char> {
    s.chars().collect()
}

fn numbers(w: &Word) -> Vec<NumTerm> {
    match w {
        Word::Noun(Literal::Numbers(ts)) => ts.clone(),
        other => panic!("not a numeric literal: {other:?}"),
    }
}

#[test]
fn scans_a_numeric_list_as_one_word() {
    let ws = scan("1 2 3").unwrap();
    assert_eq!(1, ws.len());
    assert_eq!(vec![NumTerm::Bool(1), NumTerm::Int(2), NumTerm::Int(3)], numbers(&ws[0]));
}

#[test]
fn numeric_terms_by_precision() {
    assert_eq!(Some(NumTerm::Bool(0)), scan_num_token(&chars("0")));
    assert_eq!(Some(NumTerm::Int(12)), scan_num_token(&chars("12")));
    assert_eq!(Some(NumTerm::Int(-5)), scan_num_token(&chars("_5")));
    assert_eq!(
        Some(NumTerm::ExtInt(chars("123123123123123123123123123123123"))),
        scan_num_token(&chars("123123123123123123123123123123123"))
    );
    assert_eq!(Some(NumTerm::Float(chars("1.5"))), scan_num_token(&chars("1.5")));
    assert_eq!(Some(NumTerm::Float(chars("1e20"))), scan_num_token(&chars("1e20")));
    assert_eq!(Some(NumTerm::Rational(chars("1"), chars("2"))), scan_num_token(&chars("1r2")));
    assert_eq!(Some(NumTerm::Complex(chars("1"), chars("2"))), scan_num_token(&chars("1j2")));
    assert_eq!(None, scan_num_token(&chars("1..2")));
    assert_eq!(None, scan_num_token(&chars("_1r2")));
    assert_eq!(None, scan_num_token(&chars("1e")));
}

/// A numeric literal alone in a sentence: the kind of its terms as scanned
/// (the kind of the array it makes, for the literals here, none of which has
/// a float or complex term standing for a whole or real number), and its
/// terms (one term is an atom).
fn litnum(s: &str) -> (ArrayKind, Vec<NumTerm>) {
    let ws = scan(s).unwrap();
    assert_eq!(1, ws.len());
    let ts = numbers(&ws[0]);
    (kind_before_float_demotion(&ts), ts)
}

/// A term's text as Rust reads numbers: J's leading `_` minus becomes `-`.
fn text(v: &[char]) -> String {
    match v.split_first() {
        Some(('_', rest)) => std::iter::once('-').chain(rest.iter().copied()).collect(),
        _ => v.iter().collect(),
    }
}

fn big_of(t: &NumTerm) -> BigInt {
    match t {
        NumTerm::Bool(b) => BigInt::from(*b),
        NumTerm::Int(i) => BigInt::from(*i),
        NumTerm::ExtInt(s) => text(s).parse().unwrap(),
        other => panic!("not an integer: {other:?}"),
    }
}

fn rat(t: &NumTerm) -> BigRational {
    match t {
        NumTerm::Rational(n, d) => {
            BigRational::new(text(n).parse().unwrap(), text(d).parse().unwrap())
        }
        other => BigRational::from_integer(big_of(other)),
    }
}

fn as_real(t: &NumTerm) -> f64 {
    match t {
        NumTerm::Float(s) => text(s).parse().unwrap(),
        NumTerm::Rational(_, _) => rat(t).to_f64().unwrap(),
        other => big_of(other).to_f64().unwrap(),
    }
}

fn cplx(t: &NumTerm) -> Complex64 {
    match t {
        NumTerm::Complex(re, im) => {
            Complex64::new(text(re).parse().unwrap(), text(im).parse().unwrap())
        }
        other => Complex64::new(as_real(other), 0.),
    }
}

fn ints(ts: &[NumTerm]) -> Vec<i64> {
    ts.iter().map(|t| big_of(t).to_i64().unwrap()).collect()
}

fn bools(ts: &[NumTerm]) -> Vec<u8> {
    ts.iter().map(|t| big_of(t).to_u8().unwrap()).collect()
}

#[test]
fn scan_litnum_homo() {
    let (k, ts) = litnum("1 2 3");
    assert_eq!(ArrayKind::Int, k, "int array");
    assert_eq!(vec![1i64, 2, 3], ints(&ts));

    let (k, ts) = litnum("1.1 2 3");
    assert_eq!(ArrayKind::Float, k, "float array");
    assert_eq!(vec![1.1, 2., 3.], ts.iter().map(as_real).collect::<Vec<f64>>());

    let (k, ts) = litnum("1 0 1");
    assert_eq!(ArrayKind::Bool, k, "bool array");
    assert_eq!(vec![1u8, 0, 1], bools(&ts));

    let (k, ts) = litnum("1j2 0j1");
    assert_eq!(ArrayKind::Complex, k, "complex array");
    assert_eq!(
        vec![Complex64::new(1., 2.), Complex64::new(0., 1.)],
        ts.iter().map(cplx).collect::<Vec<Complex64>>()
    );

    let (k, ts) = litnum("1r2 2r3");
    assert_eq!(ArrayKind::Rational, k, "rational array");
    assert_eq!(
        vec![BigRational::new(1.into(), 2.into()), BigRational::new(2.into(), 3.into())],
        ts.iter().map(rat).collect::<Vec<BigRational>>()
    );
}

#[test]
fn scan_litnum_promo() {
    let (k, ts) = litnum("1 2.5 3j2");
    assert_eq!(ArrayKind::Complex, k, "complex array");
    assert_eq!(
        vec![Complex64::new(1., 0.), Complex64::new(2.5, 0.), Complex64::new(3., 2.)],
        ts.iter().map(cplx).collect::<Vec<Complex64>>()
    );

    let (k, ts) = litnum("1 2.5 1r4");
    assert_eq!(ArrayKind::Float, k, "float array");
    assert_eq!(vec![1., 2.5, 0.25], ts.iter().map(as_real).collect::<Vec<f64>>());

    let (k, ts) = litnum("1 1r4 16");
    assert_eq!(ArrayKind::Rational, k, "rational array");
    assert_eq!(
        vec![
            BigRational::new(1.into(), 1.into()),
            BigRational::new(1.into(), 4.into()),
            BigRational::new(16.into(), 1.into())
        ],
        ts.iter().map(rat).collect::<Vec<BigRational>>()
    );

    let (k, ts) = litnum("1 4 123123123123123123123123123123123");
    assert_eq!(ArrayKind::ExtInt, k, "bigint array");
    assert_eq!(
        vec![
            BigInt::from(1),
            4.into(),
            "123123123123123123123123123123123".parse::<BigInt>().expect("valid literal")
        ],
        ts.iter().map(big_of).collect::<Vec<BigInt>>()
    );

    let (k, ts) = litnum("1 2 1");
    assert_eq!(ArrayKind::Int, k, "int array");
    assert_eq!(vec![1i64, 2, 1], ints(&ts));

    let (k, ts) = litnum("1 0 1");
    assert_eq!(ArrayKind::Bool, k, "bool array");
    assert_eq!(vec![1u8, 0, 1], bools(&ts));
}

#[test]
fn scan_litnum_atom() {
    let (k, ts) = litnum("1");
    assert_eq!((ArrayKind::Bool, 1), (k, ts.len()), "bool array");
    assert_eq!(vec![1u8], bools(&ts));

    let (k, ts) = litnum("12");
    assert_eq!((ArrayKind::Int, 1), (k, ts.len()), "int array");
    assert_eq!(vec![12i64], ints(&ts));

    let (k, ts) = litnum("1e20");
    assert_eq!((ArrayKind::Float, 1), (k, ts.len()), "float array");
    assert_eq!(1e20f64, as_real(&ts[0]));

    let (k, ts) = litnum("1j2");
    assert_eq!((ArrayKind::Complex, 1), (k, ts.len()), "complex array");
    assert_eq!(Complex64::new(1., 2.), cplx(&ts[0]));

    let (k, ts) = litnum("1r2");
    assert_eq!((ArrayKind::Rational, 1), (k, ts.len()), "rational array");
    assert_eq!(BigRational::new(1.into(), 2.into()), rat(&ts[0]));
}

#[test]
fn scan_litnum_demo() {
    let (k, ts) = litnum("1 4 4r4");
    assert_eq!(ArrayKind::ExtInt, k, "bigint array");
    assert_eq!(vec![BigInt::from(1), 4.into(), 1.into()], ts.iter().map(big_of).collect::<Vec<BigInt>>());
    // The demotion of floats (`1j0 1.0 1 0.0` to booleans) goes through
    // floating point, which is done where nouns are built, not here.
}

#[test]
fn rationals_are_kept_in_lowest_terms() {
    assert_eq!(Some(NumTerm::ExtInt(chars("1"))), scan_num_token(&chars("4r4")));
    assert_eq!(Some(NumTerm::ExtInt(chars("3"))), scan_num_token(&chars("6r2")));
    assert_eq!(Some(NumTerm::Rational(chars("1"), chars("2"))), scan_num_token(&chars("2r4")));
    assert_eq!(Some(NumTerm::ExtInt(chars("0"))), scan_num_token(&chars("0r5")));
    assert_eq!(None, scan_num_token(&chars("1r0")));
    assert_eq!(None, scan_num_token(&chars("1r0_0")));
}

#[test]
fn extended_integers_may_separate_digits() {
    let big = "123_123123123123123123123123123123";
    let (k, ts) = litnum(big);
    assert_eq!(ArrayKind::ExtInt, k);
    assert_eq!(vec!["123123123123123123123123123123123".parse::<BigInt>().unwrap()], ts.iter().map(big_of).collect::<Vec<BigInt>>());
}

#[test]
fn names_hold_digits() {
    let ws = scan("ab1 + 2").unwrap();
    assert_eq!(3, ws.len());
    assert_eq!(Word::Name("ab1".to_string()), ws[0]);
    let ws = scan("x_2y=:1").unwrap();
    assert_eq!(Word::Name("x_2y".to_string()), ws[0]);
}

#[test]
fn ill_formed_numbers_are_refused() {
    assert_eq!(Err(ScanError::IllFormedNumber), scan("1 2..3"));
}

#[test]
fn strings_and_atoms() {
    assert_eq!(vec![Word::Noun(Literal::Char('a'))], scan("'a'").unwrap());
    assert_eq!(vec![Word::Noun(Literal::Chars(chars("it's")))], scan("'it''s'").unwrap());
    assert_eq!(vec![Word::Noun(Literal::Chars(vec![]))], scan("''").unwrap());
    assert_eq!(Err(ScanError::EmptyLiteralString), scan("'"));
    assert_eq!(Err(ScanError::OpenQuote), scan("'abc\ndef'"));
}

#[test]
fn names_and_primitives() {
    let ws = scan("foo =: +/ i. 3").unwrap();
    assert_eq!(6, ws.len());
    assert_eq!(Word::Name("foo".to_string()), ws[0]);
    assert_eq!(Word::IsGlobal, ws[1]);
    assert!(matches!(&ws[2], Word::Verb(t, _) if t == "+"));
    assert!(matches!(&ws[3], Word::Adverb(t, _) if t == "/"));
    assert!(matches!(&ws[4], Word::Verb(t, _) if t == "i."));
    // `i. 3` then the number
    let ws = scan("i. 3").unwrap();
    assert_eq!(2, ws.len());
}

#[test]
fn positions_of_words() {
    let ws = scan_with_locations("(1 + 2)").unwrap();
    let pos: Vec<(usize, usize)> = ws.iter().map(|(p, _)| *p).collect();
    assert_eq!(vec![(0, 0), (1, 2), (3, 3), (5, 5), (6, 6)], pos);
}

#[test]
fn invalid_primitives_are_refused() {
    assert_eq!(Err(ScanError::InvalidPrimitive), scan("1 \u{e9} 2"));
    assert_eq!("Invalid primitive", ScanError::InvalidPrimitive.message());
}

#[test]
fn primitive_tables() {
    assert!(primitive_verbs("+").is_some());
    assert!(primitive_verbs("+/").is_none());
    assert_eq!("slash", primitive_adverbs("/").unwrap().imp);
    assert!(primitive_conjunctions("@").is_some());
    assert_eq!(Some(Word::IsLocal), str_to_primitive(&chars("=.")));
    assert_eq!(Some(Word::Noun(Literal::Chars(chars("a.")))), str_to_primitive(&chars("a.")));
    assert!(matches!(str_to_primitive(&chars("`")), Some(Word::Conjunction(_, _))));
    assert_eq!(None, str_to_primitive(&chars("+/")));
}

#[test]
fn unicode_white_space_separates_words() {
    let ws = scan("1\u{a0}+\u{3000}2").unwrap();
    assert_eq!(3, ws.len());
}

#[test]
fn words_lie_in_order() {
    let s = "x =: 1 2 3 + 'it''s' (+/) i. 4";
    let n = s.chars().count();
    let ws = scan_with_locations(s).unwrap();
    for (i, ((a, b), _)) in ws.iter().enumerate() {
        assert!(a <= b && *b < n);
        if i + 1 < ws.len() {
            assert!(*b < (ws[i + 1].0).0);
        }
    }
}
