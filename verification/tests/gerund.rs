use jr::{agenda, untie, Ar, JError, Untied, Word};

fn spelt(s: &str) -> Ar {
    Ar::Chars(1, s.chars().collect())
}

fn boxes(items: Vec<Ar>) -> Ar {
    Ar::Boxes(vec![items.len()], items)
}

#[test]
fn primitives_are_spelt_out() {
    match untie(spelt("+")) {
        Ok(Untied::Primitive(Word::Verb(s, _))) => assert_eq!(s, "+"),
        other => panic!("{other:?}"),
    }
    assert!(matches!(untie(spelt("foo")), Err(JError::NonceError)));
    assert!(matches!(untie(Ar::Chars(2, vec!['+'])), Err(JError::NonceError)));
    assert!(matches!(untie(Ar::Other(3)), Err(JError::NonceError)));
}

#[test]
fn nouns_forks_and_conjunctions() {
    match untie(boxes(vec![spelt("0"), Ar::Other(7)])) {
        Ok(Untied::Noun(Ar::Other(7))) => {}
        other => panic!("{other:?}"),
    }
    let fork = boxes(vec![spelt("3"), boxes(vec![spelt("+"), spelt("%"), spelt("#")])]);
    match untie(fork) {
        Ok(Untied::Fork(f, g, h)) => {
            assert!(matches!(*f, Untied::Primitive(Word::Verb(..))));
            assert!(matches!(*g, Untied::Primitive(Word::Verb(..))));
            assert!(matches!(*h, Untied::Primitive(Word::Verb(..))));
        }
        other => panic!("{other:?}"),
    }
    let conj = boxes(vec![spelt("@"), boxes(vec![spelt("+"), spelt("-")])]);
    match untie(conj) {
        Ok(Untied::Conjunction(Word::Conjunction(s, _), u, v)) => {
            assert_eq!(s, "@");
            assert!(matches!(*u, Untied::Primitive(_)));
            assert!(matches!(*v, Untied::Primitive(_)));
        }
        other => panic!("{other:?}"),
    }
}

#[test]
fn ill_shaped_representations_are_refused() {
    assert!(matches!(untie(boxes(vec![spelt("2"), Ar::Other(1)])), Err(JError::NonceError)));
    assert!(matches!(untie(boxes(vec![spelt("4"), Ar::Other(1)])), Err(JError::NonceError)));
    assert!(matches!(untie(boxes(vec![spelt("0"), Ar::Other(1), Ar::Other(2)])), Err(JError::DomainError)));
    assert!(matches!(untie(boxes(vec![spelt("3"), boxes(vec![spelt("+")])])), Err(JError::DomainError)));
    assert!(matches!(untie(boxes(vec![spelt("@"), Ar::Other(1)])), Err(JError::DomainError)));
    assert!(matches!(untie(boxes(vec![spelt("+"), Ar::Other(1)])), Err(JError::NonceError)));
    // an error inside a fork comes out
    let fork = boxes(vec![spelt("3"), boxes(vec![spelt("+"), Ar::Other(0), spelt("#")])]);
    assert!(matches!(untie(fork), Err(JError::NonceError)));
}

#[test]
fn agenda_picks_a_verb() {
    let g = boxes(vec![spelt("+"), spelt("-")]);
    match agenda(g, 1) {
        Ok(Untied::Primitive(Word::Verb(s, _))) => assert_eq!(s, "-"),
        other => panic!("{other:?}"),
    }
    assert!(matches!(agenda(boxes(vec![spelt("+")]), 3), Err(JError::IndexError)));
    assert!(matches!(agenda(Ar::Boxes(vec![1, 1], vec![spelt("+")]), 0), Err(JError::NonceError)));
    assert!(matches!(agenda(spelt("+"), 0), Err(JError::DomainError)));
}
