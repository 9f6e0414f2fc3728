use jr::{parse_rule, resolve_start, Fragment, Item, JError, Kind, Parser, Rule};
use jr::Kind::{
    Adverb, Conjunction, IsGlobal, Name, Noun, Nothing, StartOfLine, Verb, LP, RP,
};

fn it(kind: Kind, handle: usize) -> Item {
    Item { kind, handle }
}

fn frag(a: Kind, b: Kind, c: Kind, d: Kind) -> Fragment {
    Fragment { w0: it(a, 0), w1: it(b, 1), w2: it(c, 2), w3: it(d, 3) }
}

#[test]
fn the_parsing_table() {
    assert_eq!(Rule::Monad0, parse_rule(&frag(StartOfLine, Verb, Noun, Nothing)));
    assert_eq!(Rule::Monad1, parse_rule(&frag(Noun, Verb, Verb, Noun)));
    assert_eq!(Rule::Dyad2, parse_rule(&frag(StartOfLine, Noun, Verb, Noun)));
    assert_eq!(Rule::Adverb3, parse_rule(&frag(LP, Verb, Adverb, Noun)));
    assert_eq!(Rule::Conj4, parse_rule(&frag(StartOfLine, Verb, Conjunction, Noun)));
    assert_eq!(Rule::Conj4Nouns, parse_rule(&frag(StartOfLine, Noun, Conjunction, Noun)));
    assert_eq!(Rule::Fork5, parse_rule(&frag(StartOfLine, Verb, Verb, Verb)));
    assert_eq!(Rule::Hook6, parse_rule(&frag(StartOfLine, Verb, Verb, RP)));
    assert_eq!(Rule::IsGlobalName, parse_rule(&frag(Name, IsGlobal, Noun, Nothing)));
    assert_eq!(Rule::Paren, parse_rule(&frag(LP, Noun, RP, Nothing)));
    assert_eq!(Rule::Shift, parse_rule(&frag(Noun, Noun, Nothing, Nothing)));
}

#[test]
fn names_are_looked_up_right_of_assignments() {
    assert_eq!(2, resolve_start(&frag(Name, IsGlobal, Name, Nothing)));
    assert_eq!(0, resolve_start(&frag(StartOfLine, Name, Verb, Noun)));
}

/// Runs a parse where every verb applied to a noun gives a new noun.
fn run(sentence: Vec<Item>) -> Result<Option<Item>, JError> {
    let mut p = Parser::new(sentence, it(Kind::StartOfLine, 99));
    let mut next = 100;
    while !p.is_converged() {
        let f = p.take_fragment();
        let r = parse_rule(&f);
        if r == Rule::Shift {
            p.shift(f);
        } else {
            next += 1;
            p.put_result(r, f, it(Kind::Noun, next));
        }
    }
    p.finish()
}

#[test]
fn a_dyad_parses_to_one_noun() {
    let r = run(vec![it(Kind::Noun, 1), it(Kind::Verb, 2), it(Kind::Noun, 3)]).unwrap();
    assert_eq!(Some(it(Kind::Noun, 101)), r);
}

#[test]
fn parentheses_vanish() {
    let r = run(vec![it(Kind::LP, 1), it(Kind::Noun, 2), it(Kind::RP, 3)]).unwrap();
    assert_eq!(Some(it(Kind::Noun, 2)), r);
}

#[test]
fn two_nouns_are_a_syntax_error() {
    assert_eq!(Err(JError::SyntaxError), run(vec![it(Kind::Noun, 1), it(Kind::Noun, 2)]));
    assert_eq!(Ok(None), run(vec![]));
}
