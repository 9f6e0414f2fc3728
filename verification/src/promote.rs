//! Numeric precisions: which kind an array of mixed parts takes, and which
//! kind two numbers are brought to before arithmetic.

use vstd::prelude::*;

verus! {

/// The precisions of numbers, from the narrowest up.
#[derive(Clone, Copy, Debug, PartialEq, Eq, Structural)]
pub enum NumKind {
    Bool,
    Int,
    ExtInt,
    Rational,
    Float,
    Complex,
}

/// The kinds of array: the numeric precisions, then characters, then boxes.
#[derive(Clone, Copy, Debug, PartialEq, Eq, Structural)]
pub enum ArrayKind {
    Bool,
    Int,
    ExtInt,
    Rational,
    Float,
    Complex,
    Char,
    Box,
}

/// Where a numeric precision stands, the narrowest first.
pub open spec fn num_rank(k: NumKind) -> nat {
    match k {
        NumKind::Bool => 0,
        NumKind::Int => 1,
        NumKind::ExtInt => 2,
        NumKind::Rational => 3,
        NumKind::Float => 4,
        NumKind::Complex => 5,
    }
}

/// Where a kind of array stands in the order of priority: a box anywhere
/// makes a box array, else a character a character array, else the widest
/// numeric precision wins.
pub open spec fn kind_rank(k: ArrayKind) -> nat {
    match k {
        ArrayKind::Bool => 0,
        ArrayKind::Int => 1,
        ArrayKind::ExtInt => 2,
        ArrayKind::Rational => 3,
        ArrayKind::Float => 4,
        ArrayKind::Complex => 5,
        ArrayKind::Char => 6,
        ArrayKind::Box => 7,
    }
}

/// The kind an array made of parts of the given kinds takes: the part of
/// highest priority decides, and no parts at all make a boolean array.
pub open spec fn inferred_kind(kinds: Seq<ArrayKind>) -> ArrayKind
    decreases kinds.len(),
{
    if kinds.len() == 0 {
        ArrayKind::Bool
    } else {
        let k = inferred_kind(kinds.drop_last());
        if kind_rank(kinds.last()) > kind_rank(k) {
            kinds.last()
        } else {
            k
        }
    }
}

fn kind_rank_exec(k: ArrayKind) -> (r: u8)
    ensures
        r == kind_rank(k),
{
    match k {
        ArrayKind::Bool => 0,
        ArrayKind::Int => 1,
        ArrayKind::ExtInt => 2,
        ArrayKind::Rational => 3,
        ArrayKind::Float => 4,
        ArrayKind::Complex => 5,
        ArrayKind::Char => 6,
        ArrayKind::Box => 7,
    }
}

/// The kind an array made of parts of the given kinds takes.
pub fn infer_kind_from_boxes(parts: &[ArrayKind]) -> (r: ArrayKind)
    ensures
        r == inferred_kind(parts@),
{
    let mut k = ArrayKind::Bool;
    let mut i: usize = 0;
    while i < parts.len()
        invariant
            i <= parts@.len(),
            k == inferred_kind(parts@.take(i as int)),
        decreases parts@.len() - i,
    {
        assert(parts@.take(i + 1).drop_last() =~= parts@.take(i as int));
        if kind_rank_exec(parts[i]) > kind_rank_exec(k) {
            k = parts[i];
        }
        i += 1;
    }
    assert(parts@.take(parts@.len() as int) =~= parts@);
    k
}

/// The part of highest priority decides the kind: every part's kind stands
/// no higher than the array's, and the array's is one of the parts' (or
/// boolean, for no parts).
pub proof fn law_inferred_kind_is_highest(kinds: Seq<ArrayKind>)
    ensures
        forall|i: int| 0 <= i < kinds.len() ==> kind_rank(#[trigger] kinds[i]) <= kind_rank(inferred_kind(kinds)),
        kinds.len() == 0 ==> inferred_kind(kinds) == ArrayKind::Bool,
        kinds.len() > 0 ==> kinds.contains(inferred_kind(kinds)),
    decreases kinds.len(),
{
    if kinds.len() > 0 {
        let init = kinds.drop_last();
        law_inferred_kind_is_highest(init);
        assert forall|i: int| 0 <= i < kinds.len() implies kind_rank(#[trigger] kinds[i]) <= kind_rank(inferred_kind(kinds)) by {
            if i < kinds.len() - 1 {
                assert(kinds[i] == init[i]);
            }
        }
        if init.len() > 0 && inferred_kind(kinds) == inferred_kind(init) {
            let w = choose|w: int| 0 <= w < init.len() && init[w] == inferred_kind(init);
            assert(kinds[w] == init[w]);
        } else if inferred_kind(kinds) == kinds.last() {
            assert(kinds[kinds.len() - 1] == kinds.last());
        }
    }
}

/// The precision two numbers are brought to before arithmetic: the wider
/// of the two, except that two booleans become integers.
pub open spec fn common_kind(l: NumKind, r: NumKind) -> NumKind {
    if l == NumKind::Bool && r == NumKind::Bool {
        NumKind::Int
    } else if num_rank(l) >= num_rank(r) {
        l
    } else {
        r
    }
}

/// A pair the other way round.
pub fn flip<T>(pair: (T, T)) -> (r: (T, T))
    ensures
        r.0 == pair.1,
        r.1 == pair.0,
{
    let (b, a) = pair;
    (a, b)
}

fn num_rank_exec(k: NumKind) -> (r: u8)
    ensures
        r == num_rank(k),
{
    match k {
        NumKind::Bool => 0,
        NumKind::Int => 1,
        NumKind::ExtInt => 2,
        NumKind::Rational => 3,
        NumKind::Float => 4,
        NumKind::Complex => 5,
    }
}

/// The precisions of a pair ordered narrower first, brought to a common one.
fn promo_ordered(pair: (NumKind, NumKind)) -> (r: (NumKind, NumKind))
    requires
        num_rank(pair.0) <= num_rank(pair.1),
    ensures
        r.0 == common_kind(pair.0, pair.1),
        r.1 == common_kind(pair.0, pair.1),
{
    let (l, r) = pair;
    if l == NumKind::Bool && r == NumKind::Bool {
        (NumKind::Int, NumKind::Int)
    } else {
        (r, r)
    }
}

/// The precisions two numbers take before arithmetic on them: a pair whose
/// left is the wider is flipped, brought to a common precision, and flipped
/// back.
pub fn promo(l: NumKind, r: NumKind) -> (p: (NumKind, NumKind))
    ensures
        p.0 == common_kind(l, r),
        p.1 == common_kind(l, r),
{
    if num_rank_exec(l) > num_rank_exec(r) {
        flip(promo_ordered((r, l)))
    } else {
        promo_ordered((l, r))
    }
}

/// Promotion does not depend on the order of its operands, and both come
/// out at a precision at least as wide as either went in.
pub proof fn law_promotion_is_symmetric(l: NumKind, r: NumKind)
    ensures
        common_kind(l, r) == common_kind(r, l),
        num_rank(l) <= num_rank(common_kind(l, r)),
        num_rank(r) <= num_rank(common_kind(l, r)),
        common_kind(l, r) == l || common_kind(l, r) == r || (l == NumKind::Bool && r == NumKind::Bool),
{
}

} // verus!
