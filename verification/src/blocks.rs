//! Running gathered control blocks: which words are evaluated, in what
//! order, and what becomes of their results.  The caller evaluates the
//! words; the decisions are made here.

use vstd::prelude::*;

use crate::controls::{find_do, if_block_starts, if_starts, is_else_or_elseif, Token};
use crate::error::JError;

verus! {

/// The starts of an `if.` statement's blocks: the first at `0`, the others
/// in order, each at an `else.` or `elseif.` of the words.
pub proof fn lemma_if_starts(def: Seq<Token>)
    requires
        def.len() <= usize::MAX,
    ensures
        if_starts(def).len() >= 1,
        if_starts(def)[0] == 0,
        forall|k: int| 1 <= k < if_starts(def).len() ==> (#[trigger] if_starts(def)[k]) < def.len() && is_else_or_elseif(def[if_starts(def)[k] as int]),
        forall|k: int| 0 <= k < if_starts(def).len() - 1 ==> (#[trigger] if_starts(def)[k]) <= if_starts(def)[k + 1],
        forall|k: int| 1 <= k < if_starts(def).len() - 1 ==> (#[trigger] if_starts(def)[k]) < if_starts(def)[k + 1],
    decreases def.len(),
{
    if def.len() > 0 {
        let init = def.drop_last();
        lemma_if_starts(init);
        let s0 = if_starts(init);
        if is_else_or_elseif(def.last()) {
            let s = s0.push((def.len() - 1) as usize);
            assert(if_starts(def) == s);
            assert(s[s.len() - 1] == def.len() - 1);
            assert forall|k: int| 1 <= k < s.len() implies (#[trigger] s[k]) < def.len() && is_else_or_elseif(def[s[k] as int]) by {
                if k < s0.len() {
                    assert(s[k] == s0[k]);
                    assert(def[s0[k] as int] == init[s0[k] as int]);
                }
            }
            assert forall|k: int| 1 <= k < s.len() - 1 implies (#[trigger] s[k]) < s[k + 1] by {
                if k < s0.len() - 1 {
                    assert(s[k] == s0[k] && s[k + 1] == s0[k + 1]);
                } else {
                    assert(s[k] == s0[k]);
                    assert(s0[k] < init.len());
                }
            }
            assert forall|k: int| 0 <= k < s.len() - 1 implies (#[trigger] s[k]) <= s[k + 1] by {
                if k < s0.len() - 1 {
                    assert(s[k] == s0[k] && s[k + 1] == s0[k + 1]);
                } else {
                    assert(s[k] == s0[k]);
                    if k >= 1 {
                        assert(s0[k] < init.len());
                    }
                }
            }
        } else {
            assert forall|k: int| 1 <= k < s0.len() implies (#[trigger] s0[k]) < def.len() && is_else_or_elseif(def[s0[k] as int]) by {
                assert(def[s0[k] as int] == init[s0[k] as int]);
            }
        }
    }
}

/// What running an `if.` statement does next.
#[derive(Debug)]
pub enum IfAction {
    /// Evaluate the condition `cond`; when it holds, run the lines `body`
    /// (an error in them is the statement's error) and stop, else go on with
    /// the next block.
    Test { cond: (usize, usize), body: (usize, usize) },
    /// Run the lines of the `else.` block (an error in them is dropped) and
    /// stop.
    Otherwise(usize, usize),
    /// No block is left.
    Done,
    /// A block has no `do.`: a syntax error.
    Fail(JError),
}

/// The words of the `k`th block of an `if.` statement whose blocks start at
/// `starts`.
pub open spec fn block_range(def: Seq<Token>, starts: Seq<usize>, k: int) -> (int, int) {
    (starts[k] as int, if k + 1 < starts.len() { starts[k + 1] as int } else { def.len() as int })
}

/// The first `do.` from `lo` up to `hi`, if any.
pub open spec fn first_do(def: Seq<Token>, lo: int, hi: int) -> Option<int> {
    if exists|j: int| lo <= j < hi && (#[trigger] def[j]) is Do {
        Some(choose|j: int| lo <= j < hi && def[j] is Do && forall|i: int| lo <= i < j ==> !(#[trigger] def[i] is Do))
    } else {
        None
    }
}

/// What trying block `k` of an `if.` statement does: the first block is a
/// condition and body split at the first `do.`; an `elseif.` block the
/// same after its `elseif.`; an `else.` block is run as it is.
pub open spec fn if_step_spec(def: Seq<Token>, k: int) -> IfAction {
    let starts = if_starts(def);
    if k >= starts.len() {
        IfAction::Done
    } else {
        let (lo, hi) = block_range(def, starts, k);
        if k >= 1 && !(def[lo] is ElseIf) {
            IfAction::Otherwise((lo + 1) as usize, hi as usize)
        } else {
            let clo = if k == 0 { lo } else { lo + 1 };
            match first_do(def, clo, hi) {
                None => IfAction::Fail(JError::SyntaxError),
                Some(d) => IfAction::Test { cond: (clo as usize, d as usize), body: ((d + 1) as usize, hi as usize) },
            }
        }
    }
}

/// What to do at block `k` of an `if.` statement.
pub fn if_step(def: &Vec<Token>, k: usize) -> (r: IfAction)
    ensures
        r == if_step_spec(def@, k as int),
{
    let starts = if_block_starts(def);
    let n = def.len();
    proof {
        lemma_if_starts(def@);
    }
    if k >= starts.len() {
        return IfAction::Done;
    }
    let lo = starts[k];
    let hi = if k + 1 < starts.len() { starts[k + 1] } else { def.len() };
    assert(lo <= hi && (k >= 1 ==> lo < hi)) by {
        if k + 1 < starts@.len() {
            assert(starts@[k as int] <= starts@[k + 1]);
            if k >= 1 {
                assert(starts@[k as int] < starts@[k + 1]);
            }
        } else if k >= 1 {
            assert(starts@[k as int] < def@.len());
        }
    };
    let is_elseif = k >= 1 && matches!(&def[lo], Token::ElseIf);
    if k >= 1 && !is_elseif {
        assert(starts@[k as int] < def@.len());
        return IfAction::Otherwise(lo + 1, hi);
    }
    let clo = if k == 0 { lo } else { lo + 1 };
    match find_do(def, clo, hi) {
        None => {
            assert(first_do(def@, clo as int, hi as int) is None);
            IfAction::Fail(JError::SyntaxError)
        },
        Some(d) => {
            assert(def@[d as int] is Do);
            let ghost w = choose|j: int| clo <= j < hi && def@[j] is Do && forall|i: int| clo <= i < j ==> !(#[trigger] def@[i] is Do);
            assert(w == d) by {
                if w < d {
                    assert(!(def@[w] is Do));
                } else if w > d {
                    assert(!(def@[d as int] is Do));
                }
            };
            IfAction::Test { cond: (clo, d), body: (d + 1, hi) }
        },
    }
}

/// The lines of a block: the words between line breaks, empty lines left
/// out, as ranges.
pub open spec fn line_ranges_from(def: Seq<Token>, j: int, start: int) -> Seq<(usize, usize)>
    decreases def.len() - j,
{
    if j >= def.len() {
        if start < def.len() {
            seq![(start as usize, def.len() as usize)]
        } else {
            Seq::empty()
        }
    } else if def[j] is NewLine {
        (if start < j {
            seq![(start as usize, j as usize)]
        } else {
            Seq::empty()
        }) + line_ranges_from(def, j + 1, j + 1)
    } else {
        line_ranges_from(def, j + 1, start)
    }
}

/// The lines of a block, as `eval_lines` runs them in turn: the result of
/// the block is that of its last line, and an error stops it.
pub fn line_ranges(def: &[Token]) -> (r: Vec<(usize, usize)>)
    ensures
        r@ == line_ranges_from(def@, 0, 0),
{
    let mut out: Vec<(usize, usize)> = Vec::new();
    let mut start: usize = 0;
    let mut j: usize = 0;
    while j < def.len()
        invariant
            start <= j <= def@.len(),
            line_ranges_from(def@, 0, 0) == out@ + line_ranges_from(def@, j as int, start as int),
        decreases def@.len() - j,
    {
        if matches!(&def[j], Token::NewLine) {
            let ghost before = out@;
            if start < j {
                out.push((start, j));
                assert(before + (seq![(start, j)] + line_ranges_from(def@, j + 1, j + 1)) =~= out@ + line_ranges_from(def@, j + 1, j + 1));
            } else {
                assert(before + (Seq::<(usize, usize)>::empty() + line_ranges_from(def@, j + 1, j + 1)) =~= out@ + line_ranges_from(def@, j + 1, j + 1));
            }
            start = j + 1;
        }
        j += 1;
    }
    if start < def.len() {
        let ghost before = out@;
        out.push((start, def.len()));
        assert(before + seq![(start, def.len())] =~= out@);
    } else {
        assert(out@ + Seq::<(usize, usize)>::empty() =~= out@);
    }
    out
}

/// A `for.` block split at its first `do.`: the words giving the items, and
/// the body run once for each item; the result is that of the last run (or
/// an empty noun), and a `return.` in the body ends it.  `for_ijk.` is not
/// supported, and a block without `do.` is a syntax error.
pub fn for_parts(named: bool, def: &Vec<Token>) -> (r: Result<((usize, usize), (usize, usize)), JError>)
    ensures
        named ==> r == Err::<((usize, usize), (usize, usize)), JError>(JError::NonceError),
        !named ==> match first_do(def@, 0, def@.len() as int) {
            None => r == Err::<((usize, usize), (usize, usize)), JError>(JError::SyntaxError),
            Some(d) => r == Ok::<((usize, usize), (usize, usize)), JError>(((0, d as usize), ((d + 1) as usize, def@.len() as usize))),
        },
{
    if named {
        return Err(JError::NonceError);
    }
    split_at_first(def, true)
}

/// The words before and after the first `do.` (or, for `try.`, the first
/// `catch.`, `catcht.` or `catchd.`).
fn split_at_first(def: &Vec<Token>, at_do: bool) -> (r: Result<((usize, usize), (usize, usize)), JError>)
    ensures
        at_do ==> match first_do(def@, 0, def@.len() as int) {
            None => r == Err::<((usize, usize), (usize, usize)), JError>(JError::SyntaxError),
            Some(d) => r == Ok::<((usize, usize), (usize, usize)), JError>(((0, d as usize), ((d + 1) as usize, def@.len() as usize))),
        },
        !at_do ==> match first_catch(def@) {
            None => r == Err::<((usize, usize), (usize, usize)), JError>(JError::SyntaxError),
            Some(d) => r == Ok::<((usize, usize), (usize, usize)), JError>(((0, d as usize), ((d + 1) as usize, def@.len() as usize))),
        },
{
    let mut k: usize = 0;
    while k < def.len()
        invariant
            k <= def@.len(),
            at_do ==> forall|j: int| 0 <= j < k ==> !(#[trigger] def@[j] is Do),
            !at_do ==> forall|j: int| 0 <= j < k ==> !is_catch(#[trigger] def@[j]),
        decreases def@.len() - k,
    {
        let hit = if at_do {
            matches!(&def[k], Token::Do)
        } else {
            matches!(&def[k], Token::Catch | Token::CatchT | Token::CatchD)
        };
        if hit {
            proof {
                if at_do {
                    let w = choose|j: int| 0 <= j < def@.len() && def@[j] is Do && forall|i: int| 0 <= i < j ==> !(#[trigger] def@[i] is Do);
                    if w < k {
                        assert(!(def@[w] is Do));
                    } else if w > k {
                        assert(!(def@[k as int] is Do));
                    }
                } else {
                    let w = choose|j: int| 0 <= j < def@.len() && is_catch(def@[j]) && forall|i: int| 0 <= i < j ==> !is_catch(#[trigger] def@[i]);
                    if w < k {
                        assert(!is_catch(def@[w]));
                    } else if w > k {
                        assert(!is_catch(def@[k as int]));
                    }
                }
            }
            return Ok(((0, k), (k + 1, def.len())));
        }
        k += 1;
    }
    Err(JError::SyntaxError)
}

/// A word that starts the handler of a `try.` block.
pub open spec fn is_catch(t: Token) -> bool {
    t is Catch || t is CatchT || t is CatchD
}

/// The first `catch.`, `catcht.` or `catchd.` of some words, if any.
pub open spec fn first_catch(def: Seq<Token>) -> Option<int> {
    if exists|j: int| 0 <= j < def.len() && is_catch(#[trigger] def[j]) {
        Some(choose|j: int| 0 <= j < def.len() && is_catch(def[j]) && forall|i: int| 0 <= i < j ==> !is_catch(#[trigger] def[i]))
    } else {
        None
    }
}

/// A `try.` block split at its first catch word: the lines tried, and the
/// lines run instead when they fail; a block without one is a syntax error.
pub fn try_parts(def: &Vec<Token>) -> (r: Result<((usize, usize), (usize, usize)), JError>)
    ensures
        match first_catch(def@) {
            None => r == Err::<((usize, usize), (usize, usize)), JError>(JError::SyntaxError),
            Some(d) => r == Ok::<((usize, usize), (usize, usize)), JError>(((0, d as usize), ((d + 1) as usize, def@.len() as usize))),
        },
{
    split_at_first(def, false)
}

} // verus!
