//! The bookkeeping of some adverbs and conjunctions: which items each run
//! of a verb sees, which ranks `"` gives, and where `}` puts what.

use vstd::prelude::*;

use crate::error::JError;

verus! {

/// The items `0..i+1` for each `i`: the prefixes `u\` runs on, shortest
/// first.
pub open spec fn prefix_ranges(n: nat) -> Seq<(usize, usize)> {
    Seq::new(n, |i: int| (0usize, (i + 1) as usize))
}

/// The items `i..n` for each `i`: the suffixes `u\.` runs on, longest first.
pub open spec fn suffix_ranges(n: nat) -> Seq<(usize, usize)> {
    Seq::new(n, |i: int| (i as usize, n as usize))
}

/// The overlapping runs of `size` items, one starting at each item that
/// has `size - 1` more after it.
pub open spec fn window_ranges(size: nat, n: nat) -> Seq<(usize, usize)> {
    if n < size {
        Seq::empty()
    } else {
        Seq::new((n - size + 1) as nat, |i: int| (i as usize, (i + size) as usize))
    }
}

/// How many runs of `size` items `n` items make, the last one perhaps
/// shorter.
pub open spec fn chunk_count(size: nat, n: nat) -> nat {
    n / size + if n % size == 0 { 0nat } else { 1nat }
}

/// The runs of `size` items one after the other, the last one shorter
/// when `size` does not divide `n`.
pub open spec fn chunk_ranges(size: nat, n: nat) -> Seq<(usize, usize)> {
    Seq::new(
        chunk_count(size, n),
        |i: int| ((i * size) as usize, (if (i + 1) * size <= n { (i + 1) * size } else { n as int }) as usize),
    )
}

/// The runs of items `x u\ y` runs on: for a positive `x` every run of `x`
/// items, for a negative one the runs of `-x` items that do not overlap.
pub open spec fn infix_ranges(x: i64, n: nat) -> Seq<(usize, usize)> {
    if x < 0 {
        chunk_ranges((-x) as nat, n)
    } else {
        window_ranges(x as nat, n)
    }
}

/// The prefixes of `n` items, as ranges, shortest first.
pub fn prefixes(n: usize) -> (r: Vec<(usize, usize)>)
    ensures
        r@ == prefix_ranges(n as nat),
{
    let mut out: Vec<(usize, usize)> = Vec::new();
    let mut i: usize = 0;
    while i < n
        invariant
            i <= n,
            out@ == prefix_ranges(i as nat),
        decreases n - i,
    {
        out.push((0, i + 1));
        i += 1;
        assert(out@ =~= prefix_ranges(i as nat));
    }
    out
}

/// The suffixes of `n` items, as ranges, longest first.
pub fn suffixes(n: usize) -> (r: Vec<(usize, usize)>)
    ensures
        r@ == suffix_ranges(n as nat),
{
    let mut out: Vec<(usize, usize)> = Vec::new();
    let mut i: usize = 0;
    while i < n
        invariant
            i <= n,
            out@ == Seq::new(i as nat, |k: int| (k as usize, n)),
        decreases n - i,
    {
        out.push((i, n));
        i += 1;
        assert(out@ =~= Seq::new(i as nat, |k: int| (k as usize, n)));
    }
    out
}

/// The runs of `n` items that `x u\ y` applies `u` to, as ranges.  A zero
/// `x` makes runs of no items, which are refused.
pub fn infixes(x: i64, n: usize) -> (r: Vec<(usize, usize)>)
    requires
        x != 0,
        x != i64::MIN,
        -x <= usize::MAX,
        x <= usize::MAX,
    ensures
        r@ == infix_ranges(x, n as nat),
{
    let mut out: Vec<(usize, usize)> = Vec::new();
    if x < 0 {
        let size: usize = (-x) as usize;
        assert(size >= 1);
        assert(n % size != 0 ==> n / size < n) by (nonlinear_arith)
            requires size >= 1;
        let count: usize = n / size + if n % size == 0 { 0 } else { 1 };
        let mut i: usize = 0;
        while i < count
            invariant
                size >= 1,
                size == -x,
                count == chunk_count(size as nat, n as nat),
                i <= count,
                out@ == chunk_ranges(size as nat, n as nat).take(i as int),
            decreases count - i,
        {
            proof {
                lemma_chunk_count(size as int, n as int, (n / size) as int, (n % size) as int, count as int);
            }
            assert(i * size < n) by (nonlinear_arith)
                requires i < count, (count - 1) * size < n, size >= 1;
            assert((i + 1) * size == i * size + size) by (nonlinear_arith);
            let start = i * size;
            let end = if n - start >= size { start + size } else { n };
            out.push((start, end));
            i += 1;
            assert(out@ =~= chunk_ranges(size as nat, n as nat).take(i as int));
        }
        assert(chunk_ranges(size as nat, n as nat).take(i as int) =~= chunk_ranges(size as nat, n as nat));
    } else {
        let size: usize = x as usize;
        if n >= size {
            let mut i: usize = 0;
            while i <= n - size
                invariant
                    size >= 1,
                    size == x,
                    n >= size,
                    i <= n - size + 1,
                    out@ == window_ranges(size as nat, n as nat).take(i as int),
                decreases n - size + 1 - i,
            {
                out.push((i, i + size));
                i += 1;
                assert(out@ =~= window_ranges(size as nat, n as nat).take(i as int));
            }
            assert(window_ranges(size as nat, n as nat).take(i as int) =~= window_ranges(size as nat, n as nat));
        } else {
            assert(out@ =~= window_ranges(size as nat, n as nat));
        }
    }
    out
}

/// The ranks `u"n` gives `u` (monadic, left, right) from the list of one
/// to three ranks `n` (of rank `rank`): one rank is all three, two are
/// the left and right with the right one also monadic.
pub open spec fn quote_ranks_spec<T>(rank: nat, n: Seq<T>) -> Result<(T, T, T), JError> {
    if rank == 0 && n.len() == 1 {
        Ok((n[0], n[0], n[0]))
    } else if rank == 1 && n.len() == 1 {
        Ok((n[0], n[0], n[0]))
    } else if rank == 1 && n.len() == 2 {
        Ok((n[1], n[0], n[1]))
    } else if rank == 1 && n.len() == 3 {
        Ok((n[0], n[1], n[2]))
    } else {
        Err(JError::LengthError)
    }
}

/// The ranks `u"n` gives `u`; anything but one to three ranks in an atom
/// or a list is a length error.
pub fn quote_ranks<T: Copy>(rank: usize, n: &[T]) -> (r: Result<(T, T, T), JError>)
    ensures
        r == quote_ranks_spec(rank as nat, n@),
{
    if rank == 0 && n.len() == 1 {
        Ok((n[0], n[0], n[0]))
    } else if rank == 1 && n.len() == 1 {
        Ok((n[0], n[0], n[0]))
    } else if rank == 1 && n.len() == 2 {
        Ok((n[1], n[0], n[1]))
    } else if rank == 1 && n.len() == 3 {
        Ok((n[0], n[1], n[2]))
    } else {
        Err(JError::LengthError)
    }
}

/// The left argument of the rank conjunction `u"v`: a verb or a noun.
#[derive(Clone, Copy, Debug, PartialEq, Eq)]
pub enum QuoteLeft {
    Verb,
    Noun,
}

/// The right argument `v` of `u"v`, as far as the conjunction reads it: not
/// a noun; a noun with no numeric approximation; or the approximated numbers
/// of a noun of rank `rank`, with whether that noun is the atom `_`
/// (infinity).
#[derive(Clone, Debug, PartialEq)]
pub enum QuoteRight<T> {
    NotNoun,
    NotNumeric,
    Numbers { rank: usize, items: Vec<T>, infinite_atom: bool },
}

/// The verb `u"v` derives: `u` applied at the given ranks (monadic, left,
/// right), or, for a noun `u`, that noun whatever the arguments.
#[derive(Clone, Copy, Debug, PartialEq, Eq)]
pub enum QuoteVerb<T> {
    Reranked(T, T, T),
    Constant,
}

/// The ranks of the verb `u"v` derives: infinite, all three.
pub open spec fn infinite_ranks() -> (Option<u8>, Option<u8>, Option<u8>) {
    (None, None, None)
}

/// What the rank conjunction makes of `u` and `v`: a right argument that is
/// not a noun, or not numeric, is a domain error; a verb `u` takes its
/// ranks from `v` (see [`quote_ranks_spec`]); a noun `u` is a nonce error
/// unless `v` is the atom `_`.  The derived verb's own ranks are infinite.
pub open spec fn quote_spec<T>(u: QuoteLeft, v: QuoteRight<T>) -> Result<(QuoteVerb<T>, (Option<u8>, Option<u8>, Option<u8>)), JError> {
    match v {
        QuoteRight::NotNoun => Err(JError::DomainError),
        QuoteRight::NotNumeric => Err(JError::DomainError),
        QuoteRight::Numbers { rank, items, infinite_atom } => match u {
            QuoteLeft::Verb => match quote_ranks_spec(rank as nat, items@) {
                Ok((m, l, r)) => Ok((QuoteVerb::Reranked(m, l, r), infinite_ranks())),
                Err(e) => Err(e),
            },
            QuoteLeft::Noun => if infinite_atom {
                Ok((QuoteVerb::Constant, infinite_ranks()))
            } else {
                Err(JError::NonceError)
            },
        },
    }
}

/// The verb `u"v` derives, with its own (infinite) ranks, or the error the
/// rank conjunction gives.
pub fn quote<T: Copy>(u: QuoteLeft, v: &QuoteRight<T>) -> (r: Result<(QuoteVerb<T>, (Option<u8>, Option<u8>, Option<u8>)), JError>)
    ensures
        r == quote_spec(u, *v),
{
    match v {
        QuoteRight::NotNoun => Err(JError::DomainError),
        QuoteRight::NotNumeric => Err(JError::DomainError),
        QuoteRight::Numbers { rank, items, infinite_atom } => match u {
            QuoteLeft::Verb => match quote_ranks(*rank, items.as_slice()) {
                Ok((m, l, r)) => Ok((QuoteVerb::Reranked(m, l, r), (None, None, None))),
                Err(e) => Err(e),
            },
            QuoteLeft::Noun => if *infinite_atom {
                Ok((QuoteVerb::Constant, (None, None, None)))
            } else {
                Err(JError::NonceError)
            },
        },
    }
}

/// `y` with the items at the indices `u` replaced, in turn, by the items of
/// `x` (taken round again when `x` is shorter), after the first `k` of them.
pub open spec fn amended<T>(u: Seq<usize>, x: Seq<T>, y: Seq<T>, k: nat) -> Seq<T>
    decreases k,
{
    if k == 0 || x.len() == 0 {
        y
    } else {
        let prev = amended(u, x, y, (k - 1) as nat);
        prev.update(u[k - 1] as int, x[(k - 1) % (x.len() as int)])
    }
}

/// What `x u} y` makes of the items of `x` and `y`, for indices `u` of rank
/// `u_rank`: indices that are not an atom or a list are a nonce error, no
/// indices or no items of `x` a length error, an index past the items of
/// `y` an index error.
pub open spec fn amend_spec<T>(u_rank: nat, u: Seq<usize>, x: Seq<T>, y: Seq<T>) -> Result<Seq<T>, JError> {
    if u_rank > 1 {
        Err(JError::NonceError)
    } else if u.len() == 0 {
        Err(JError::LengthError)
    } else if x.len() == 0 {
        Err(JError::LengthError)
    } else if exists|i: int| 0 <= i < u.len() && u[i] >= y.len() {
        Err(JError::IndexError)
    } else {
        Ok(amended(u, x, y, u.len()))
    }
}

proof fn lemma_amended_len<T>(u: Seq<usize>, x: Seq<T>, y: Seq<T>, k: nat)
    requires
        k <= u.len(),
        forall|j: int| 0 <= j < k ==> u[j] < y.len(),
    ensures
        amended(u, x, y, k).len() == y.len(),
    decreases k,
{
    if k > 0 && x.len() > 0 {
        lemma_amended_len(u, x, y, (k - 1) as nat);
    }
}

/// The runs `x u\ y` sees for a negative `x` take every item exactly once:
/// they follow on one from another from the first item to the last, and
/// none is empty or longer than `-x`.
pub proof fn law_chunks_cover(size: nat, n: nat)
    requires
        size >= 1,
        n <= usize::MAX,
    ensures
        n > 0 ==> chunk_ranges(size, n)[0].0 == 0,
        n > 0 ==> chunk_ranges(size, n).last().1 == n,
        n == 0 ==> chunk_ranges(size, n).len() == 0,
        forall|i: int| 0 <= i < chunk_ranges(size, n).len() - 1 ==> (#[trigger] chunk_ranges(size, n)[i]).1 == chunk_ranges(size, n)[i + 1].0,
        forall|i: int| 0 <= i < chunk_ranges(size, n).len() ==> {
            let (a, b) = #[trigger] chunk_ranges(size, n)[i];
            a < b && b - a <= size
        },
{
    let c = chunk_count(size, n) as int;
    let q = (n / size) as int;
    let m = (n % size) as int;
    let s = size as int;
    let nn = n as int;
    lemma_chunk_count(s, nn, q, m, c);
    let r = chunk_ranges(size, n);
    assert(r.len() == c);
    assert forall|i: int| 0 <= i < c - 1 implies (#[trigger] r[i]).1 == r[i + 1].0 by {
        assert((i + 1) * s <= nn) by (nonlinear_arith)
            requires 0 <= i < c - 1, (c - 1) * s < nn, s >= 1;
        assert(0 <= i * s) by (nonlinear_arith)
            requires 0 <= i, s >= 1;
        assert((i + 1) * s == i * s + s) by (nonlinear_arith);
    }
    assert forall|i: int| 0 <= i < c implies {
        let (a, b) = #[trigger] r[i];
        a < b && b - a <= size
    } by {
        assert((i + 1) * s == i * s + s) by (nonlinear_arith);
        assert(i * s < nn) by (nonlinear_arith)
            requires 0 <= i < c, (c - 1) * s < nn, s >= 1;
        assert(0 <= i * s) by (nonlinear_arith)
            requires 0 <= i, s >= 1;
    }
    if n > 0 {
        assert(r[c - 1] == r.last());
        assert((c - 1 + 1) * s == c * s);
        assert(r[0].0 == 0);
    }
}

proof fn lemma_chunk_count(s: int, n: int, q: int, m: int, c: int)
    requires
        s >= 1,
        n >= 0,
        q == n / s,
        m == n % s,
        c == q + (if m == 0 { 0int } else { 1int }),
    ensures
        n == 0 ==> c == 0,
        n > 0 ==> c >= 1 && (c - 1) * s < n && c * s >= n,
{
    assert(n == q * s + m && 0 <= m < s && q >= 0) by (nonlinear_arith)
        requires s >= 1, n >= 0, q == n / s, m == n % s;
    if n == 0 {
        assert(q == 0 && m == 0) by (nonlinear_arith)
            requires n == q * s + m, 0 <= m < s, s >= 1, n == 0, q >= 0;
    } else {
        assert(c >= 1 && (c - 1) * s < n && c * s >= n) by (nonlinear_arith)
            requires c == q + (if m == 0 { 0int } else { 1int }), n == q * s + m, 0 <= m < s, s >= 1, n > 0, q >= 0;
    }
}

/// `x u} y` leaves every item of `y` whose index is not among `u` as it
/// was, and the item at the last occurrence of an index is the item of `x`
/// put there last.
pub proof fn law_amend_untouched<T>(u: Seq<usize>, x: Seq<T>, y: Seq<T>, k: nat, j: int)
    requires
        k <= u.len(),
        x.len() > 0,
        forall|i: int| 0 <= i < k ==> u[i] < y.len(),
        0 <= j < y.len(),
    ensures
        (forall|i: int| 0 <= i < k ==> u[i] != j) ==> amended(u, x, y, k)[j] == y[j],
        k > 0 && u[k - 1] == j ==> amended(u, x, y, k)[j] == x[(k - 1) % (x.len() as int)],
    decreases k,
{
    if k > 0 {
        law_amend_untouched(u, x, y, (k - 1) as nat, j);
        lemma_amended_len(u, x, y, (k - 1) as nat);
    }
}

/// `x u} y`: puts the items of `x` at the indices `u` of `y`.
pub fn amend<T: Copy>(u_rank: usize, u: &[usize], x: &[T], y: &[T]) -> (r: Result<Vec<T>, JError>)
    ensures
        match amend_spec(u_rank as nat, u@, x@, y@) {
            Ok(s) => r matches Ok(v) && v@ == s,
            Err(e) => r == Err::<Vec<T>, JError>(e),
        },
{
    if u_rank > 1 {
        return Err(JError::NonceError);
    }
    if u.len() == 0 || x.len() == 0 {
        return Err(JError::LengthError);
    }
    let mut out: Vec<T> = Vec::new();
    let mut j: usize = 0;
    while j < y.len()
        invariant
            j <= y@.len(),
            out@ == y@.take(j as int),
        decreases y@.len() - j,
    {
        out.push(y[j]);
        j += 1;
        assert(out@ =~= y@.take(j as int));
    }
    assert(y@.take(y@.len() as int) =~= y@);
    let mut i: usize = 0;
    while i < u.len()
        invariant
            x@.len() > 0,
            u@.len() > 0,
            u_rank <= 1,
            i <= u@.len(),
            forall|k: int| 0 <= k < i ==> u@[k] < y@.len(),
            out@ == amended(u@, x@, y@, i as nat),
        decreases u@.len() - i,
    {
        let k = u[i];
        proof {
            lemma_amended_len(u@, x@, y@, i as nat);
        }
        if k >= out.len() {
            assert(u@[i as int] >= y@.len());
            return Err(JError::IndexError);
        }
        out.set(k, x[i % x.len()]);
        i += 1;
    }
    Ok(out)
}

/// The modes `m b.` knows of: from -16 to 34.
pub fn bdot_mode(m: i64) -> (r: Result<i64, JError>)
    ensures
        r == (if -16 <= m <= 34 { Ok::<i64, JError>(m) } else { Err(JError::DomainError) }),
{
    if m < -16 || m > 34 {
        Err(JError::DomainError)
    } else {
        Ok(m)
    }
}

/// The right argument of `u^:v`, as far as the choice of power depends on
/// it: a verb, or a noun (whether boxed, its rank, its number of items, and
/// whether its first item is empty).
#[derive(Clone, Copy, Debug, PartialEq, Eq, Structural)]
pub enum PowerArg {
    Verb,
    Noun { boxed: bool, rank: usize, tally: usize, first_empty: bool },
}

/// How `u^:v` runs.
#[derive(Clone, Copy, Debug, PartialEq, Eq, Structural)]
pub enum PowerPlan {
    /// `u^:a:`: apply `u` until the result stops changing, keeping each.
    Converge,
    /// `u^:(v0`v1`v2)`: the powers and the arguments come from the gerund's
    /// verbs.
    Gerund,
    /// `u^:n`: apply `u` the number of times each integer of `n` says.
    Powers,
    /// `u^:v`: the powers come from applying the verb `v`.
    Dynamic,
}

/// How `u^:v` runs, for a verb `u` (`u_verb`) and the right argument `v`: a
/// boxed atom holding an empty array converges; other boxed atoms, and
/// empty boxes, are a nonce error; other boxes are a gerund; any other noun
/// gives the powers; a verb computes them; a `u` that is not a verb is a
/// domain error.
pub open spec fn power_plan_spec(u_verb: bool, v: PowerArg) -> Result<PowerPlan, JError> {
    if !u_verb {
        Err(JError::DomainError)
    } else {
        match v {
            PowerArg::Verb => Ok(PowerPlan::Dynamic),
            PowerArg::Noun { boxed, rank, tally, first_empty } => {
                if boxed && rank == 0 && first_empty {
                    Ok(PowerPlan::Converge)
                } else if boxed && (tally == 0 || rank == 0) {
                    Err(JError::NonceError)
                } else if boxed {
                    Ok(PowerPlan::Gerund)
                } else {
                    Ok(PowerPlan::Powers)
                }
            },
        }
    }
}

/// How `u^:v` runs.
pub fn power_plan(u_verb: bool, v: PowerArg) -> (r: Result<PowerPlan, JError>)
    ensures
        r == power_plan_spec(u_verb, v),
{
    if !u_verb {
        return Err(JError::DomainError);
    }
    match v {
        PowerArg::Verb => Ok(PowerPlan::Dynamic),
        PowerArg::Noun { boxed, rank, tally, first_empty } => {
            if boxed && rank == 0 && first_empty {
                Ok(PowerPlan::Converge)
            } else if boxed && (tally == 0 || rank == 0) {
                Err(JError::NonceError)
            } else if boxed {
                Ok(PowerPlan::Gerund)
            } else {
                Ok(PowerPlan::Powers)
            }
        },
    }
}

/// The verbs of a power's gerund, by whether each untied item is a verb:
/// two verbs give the power and the argument (`Ok(false)`), three also a
/// new left argument (`Ok(true)`); any other shape is a domain error.
pub fn gerund_shape(verbs: &[bool]) -> (r: Result<bool, JError>)
    ensures
        verbs@.len() == 2 && verbs@[0] && verbs@[1] ==> r == Ok::<bool, JError>(false),
        verbs@.len() == 3 && verbs@[0] && verbs@[1] && verbs@[2] ==> r == Ok::<bool, JError>(true),
        !(verbs@.len() == 2 && verbs@[0] && verbs@[1]) && !(verbs@.len() == 3 && verbs@[0] && verbs@[1] && verbs@[2])
            ==> r == Err::<bool, JError>(JError::DomainError),
{
    if verbs.len() == 2 && verbs[0] && verbs[1] {
        Ok(false)
    } else if verbs.len() == 3 && verbs[0] && verbs[1] && verbs[2] {
        Ok(true)
    } else {
        Err(JError::DomainError)
    }
}

/// How many times `u^:n` applies `u` for each power: negative powers (the
/// inverse) are not run at all.
pub fn power_counts(n: &[i64]) -> (r: Vec<u64>)
    ensures
        r@.len() == n@.len(),
        forall|i: int| 0 <= i < n@.len() ==> #[trigger] r@[i] == (if n@[i] < 0 { 0 } else { n@[i] as int }),
{
    let mut out: Vec<u64> = Vec::new();
    let mut i: usize = 0;
    while i < n.len()
        invariant
            i <= n@.len(),
            out@.len() == i,
            forall|k: int| 0 <= k < i ==> #[trigger] out@[k] == (if n@[k] < 0 { 0 } else { n@[k] as int }),
        decreases n@.len() - i,
    {
        let c: u64 = if n[i] < 0 { 0 } else { n[i] as u64 };
        out.push(c);
        i += 1;
    }
    out
}

} // verus!
