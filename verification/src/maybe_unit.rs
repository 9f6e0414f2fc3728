//! A list that remembers whether it was written as a single atom.

use vstd::prelude::*;

verus! {

/// `Vec::from` on an array: std documents that it moves the array's items,
/// in order, into a new vector.
#[verifier::external_body]
fn vec_of_array<T>(a: [T; 1]) -> (v: Vec<T>)
    ensures
        v@ == a@,
{
    Vec::from(a)
}

/// A parsed list: one item is an atom, any other number a list.
pub enum MaybeUnit<T> {
    Atom([T; 1]),
    List(Vec<T>),
}

impl<T> MaybeUnit<T> {
    /// The items, in order.
    pub open spec fn items(&self) -> Seq<T> {
        match self {
            MaybeUnit::Atom(a) => a@,
            MaybeUnit::List(v) => v@,
        }
    }

    /// One item becomes an atom; any other number of items stays a list.
    pub fn from_parse_rules(list: Vec<T>) -> (r: Self)
        ensures
            r.items() == list@,
            r is Atom <==> list@.len() == 1,
    {
        let mut list = list;
        if list.len() == 1 {
            let ghost before = list@;
            let x = list.pop().unwrap();
            let a = [x];
            assert(a@ =~= before);
            MaybeUnit::Atom(a)
        } else {
            MaybeUnit::List(list)
        }
    }

    /// As [`MaybeUnit::from_parse_rules`], from the items a parse produced.
    pub fn from_parse_iter(it: Vec<T>) -> (r: Self)
        ensures
            r.items() == it@,
            r is Atom <==> it@.len() == 1,
    {
        Self::from_parse_rules(it)
    }

    /// The items, as a slice.
    pub fn as_list(&self) -> (r: &[T])
        ensures
            r@ == self.items(),
    {
        match self {
            MaybeUnit::Atom(x) => x.as_slice(),
            MaybeUnit::List(x) => x.as_slice(),
        }
    }

    /// The items, as a vector.
    pub fn into_list(self) -> (r: Vec<T>)
        ensures
            r@ == self.items(),
    {
        match self {
            MaybeUnit::Atom(a) => vec_of_array(a),
            MaybeUnit::List(x) => x,
        }
    }
}

} // verus!
