//! The cut conjunction `;.`: where the pieces of an argument start and end.

use vstd::prelude::*;

use crate::error::JError;

verus! {

/// The kind of cut `m` names: whether the frets end the pieces (`2`, `_2`)
/// or start them (`1`, `_1`), and whether the frets belong to the pieces
/// (positive) or are dropped (negative); any other `m` is a domain error.
pub open spec fn cut_mode_spec(m: i64) -> Result<(bool, bool), JError> {
    if m == 2 || m == -2 || m == 1 || m == -1 {
        Ok((m == 2 || m == -2, m == 2 || m == 1))
    } else {
        Err(JError::DomainError)
    }
}

/// The kind of cut `m` names: (frets end the pieces, frets are kept).
pub fn cut_mode(m: i64) -> (r: Result<(bool, bool), JError>)
    ensures
        r == cut_mode_spec(m),
{
    let is_end = if m == 2 || m == -2 {
        true
    } else if m == 1 || m == -1 {
        false
    } else {
        return Err(JError::DomainError);
    };
    let is_inclusive = m == 2 || m == 1;
    Ok((is_end, is_inclusive))
}

/// The `k`th piece: consecutive frets bound it.  With frets that end the
/// pieces, the first piece starts at 0 and each ends just after its fret
/// (or at it, when frets are dropped); with frets that start them, each
/// piece runs from its fret (or just after it) to the next fret.
pub open spec fn piece(frets: Seq<usize>, inclusive: bool, end: bool, k: int) -> (int, int) {
    if end {
        let s = if k == 0 { 0 } else { frets[k - 1] + 1 };
        let e = frets[k] + 1;
        if inclusive { (s, e) } else { (s, e - 1) }
    } else {
        let s = frets[k] as int;
        let e = frets[k + 1] as int;
        if inclusive { (s, e) } else { (s + 1, e) }
    }
}

/// The number of pieces the frets bound.
pub open spec fn piece_count(frets: Seq<usize>, end: bool) -> int {
    if end {
        frets.len() as int
    } else if frets.len() == 0 {
        0
    } else {
        frets.len() - 1
    }
}

/// The pieces a list is cut into at the given frets, each as the start and
/// end (exclusive) of its items.
pub fn cut_frets(frets: &[usize], is_inclusive: bool, is_end: bool) -> (r: Vec<(usize, usize)>)
    requires
        is_end ==> forall|k: int| 0 <= k < frets@.len() ==> #[trigger] frets@[k] < usize::MAX,
        !is_end && !is_inclusive ==> forall|k: int| 0 <= k < frets@.len() - 1 ==> #[trigger] frets@[k] < usize::MAX,
    ensures
        r@.len() == piece_count(frets@, is_end),
        forall|k: int| 0 <= k < r@.len() ==> (#[trigger] r@[k].0 as int, r@[k].1 as int) == piece(frets@, is_inclusive, is_end, k),
{
    let mut out: Vec<(usize, usize)> = Vec::new();
    let n = frets.len();
    if is_end {
        let mut k: usize = 0;
        while k < n
            invariant
                is_end,
                n == frets@.len(),
                k <= n,
                forall|j: int| 0 <= j < frets@.len() ==> #[trigger] frets@[j] < usize::MAX,
                out@.len() == k,
                forall|j: int| 0 <= j < k ==> (#[trigger] out@[j].0 as int, out@[j].1 as int) == piece(frets@, is_inclusive, is_end, j),
            decreases n - k,
        {
            let s = if k == 0 { 0 } else { frets[k - 1] + 1 };
            let e = frets[k] + 1;
            let ghost before = out@;
            if is_inclusive {
                out.push((s, e));
            } else {
                out.push((s, e - 1));
            }
            assert forall|j: int| 0 <= j < k + 1 implies (#[trigger] out@[j].0 as int, out@[j].1 as int) == piece(frets@, is_inclusive, is_end, j) by {
                if j < k {
                    assert(out@[j] == before[j]);
                }
            }
            k += 1;
        }
    } else if n > 0 {
        let mut k: usize = 0;
        while k + 1 < n
            invariant
                !is_end,
                n == frets@.len(),
                n > 0,
                k + 1 <= n,
                !is_inclusive ==> forall|j: int| 0 <= j < frets@.len() - 1 ==> #[trigger] frets@[j] < usize::MAX,
                out@.len() == k,
                forall|j: int| 0 <= j < k ==> (#[trigger] out@[j].0 as int, out@[j].1 as int) == piece(frets@, is_inclusive, is_end, j),
            decreases n - k,
        {
            let s = frets[k];
            let e = frets[k + 1];
            let ghost before = out@;
            if is_inclusive {
                out.push((s, e));
            } else {
                out.push((s + 1, e));
            }
            assert forall|j: int| 0 <= j < k + 1 implies (#[trigger] out@[j].0 as int, out@[j].1 as int) == piece(frets@, is_inclusive, is_end, j) by {
                if j < k {
                    assert(out@[j] == before[j]);
                }
            }
            k += 1;
        }
    }
    out
}

/// The positions at which `flags` holds.
pub open spec fn positions_spec(flags: Seq<bool>) -> Seq<usize>
    decreases flags.len(),
{
    if flags.len() == 0 {
        Seq::empty()
    } else if flags.last() {
        positions_spec(flags.drop_last()).push((flags.len() - 1) as usize)
    } else {
        positions_spec(flags.drop_last())
    }
}

/// The frets of a cut: the positions of the items that are frets, and, for
/// frets that start the pieces, the end of the list as a last fret.
pub fn cut_positions(is_fret: &[bool], is_end: bool) -> (r: Vec<usize>)
    ensures
        r@ == if is_end { positions_spec(is_fret@) } else { positions_spec(is_fret@).push(is_fret@.len() as usize) },
{
    let mut out: Vec<usize> = Vec::new();
    let mut i: usize = 0;
    assert(is_fret@.take(0) =~= Seq::<bool>::empty());
    while i < is_fret.len()
        invariant
            i <= is_fret@.len(),
            out@ == positions_spec(is_fret@.take(i as int)),
        decreases is_fret@.len() - i,
    {
        assert(is_fret@.take(i + 1).drop_last() =~= is_fret@.take(i as int));
        if is_fret[i] {
            out.push(i);
        }
        i += 1;
    }
    assert(is_fret@.take(is_fret@.len() as int) =~= is_fret@);
    if !is_end {
        out.push(is_fret.len());
    }
    out
}

} // verus!
