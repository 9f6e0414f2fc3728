//! The words a J sentence is cut into.

use vstd::prelude::*;

use crate::number::{NumTerm, NumTermV};
use crate::primitives::{AdverbEntry, ConjEntry, VerbEntry};

verus! {

/// A noun written out in a sentence.
#[derive(Clone, Debug, PartialEq, Eq)]
pub enum Literal {
    /// A numeric literal: one term is an atom, several a list.
    Numbers(Vec<NumTerm>),
    /// A quoted string of exactly one character: a character atom.
    Char(char),
    /// Any other quoted string, or a spelt-out primitive noun: a character list.
    Chars(Vec<char>),
}

/// A part of speech, as the scanner finds it.
#[derive(Clone, Debug, PartialEq, Eq)]
pub enum Word {
    LP,
    RP,
    Name(String),
    IsLocal,
    IsGlobal,
    Noun(Literal),
    Verb(String, VerbEntry),
    Adverb(String, AdverbEntry),
    Conjunction(String, ConjEntry),
}

/// The mathematical reading of a [`Literal`].
pub enum LiteralV {
    Numbers(Seq<NumTermV>),
    Char(char),
    Chars(Seq<char>),
}

/// The mathematical reading of a [`Word`].
pub enum WordV {
    LP,
    RP,
    Name(Seq<char>),
    IsLocal,
    IsGlobal,
    Noun(LiteralV),
    Verb(Seq<char>, VerbEntry),
    Adverb(Seq<char>, AdverbEntry),
    Conjunction(Seq<char>, ConjEntry),
}

impl View for Literal {
    type V = LiteralV;

    open spec fn view(&self) -> LiteralV {
        match self {
            Literal::Numbers(ts) => LiteralV::Numbers(ts@.map_values(|t: NumTerm| t@)),
            Literal::Char(c) => LiteralV::Char(*c),
            Literal::Chars(cs) => LiteralV::Chars(cs@),
        }
    }
}

impl View for Word {
    type V = WordV;

    open spec fn view(&self) -> WordV {
        match self {
            Word::LP => WordV::LP,
            Word::RP => WordV::RP,
            Word::Name(s) => WordV::Name(s@),
            Word::IsLocal => WordV::IsLocal,
            Word::IsGlobal => WordV::IsGlobal,
            Word::Noun(l) => WordV::Noun(l@),
            Word::Verb(s, e) => WordV::Verb(s@, *e),
            Word::Adverb(s, e) => WordV::Adverb(s@, *e),
            Word::Conjunction(s, e) => WordV::Conjunction(s@, *e),
        }
    }
}

} // verus!
