//! The adverbs the evaluator knows by name.

use vstd::prelude::*;

verus! {

/// How an adverb is carried out.
#[derive(Clone, Copy, Debug, PartialEq, Eq, Structural)]
pub enum AdverbImpl {
    Slash,
    CurlyRt,
    NotImplemented,
}

} // verus!
