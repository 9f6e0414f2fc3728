//! Shapes, frames and cells: how the arguments of a verb are cut up and how
//! the results are put back together.

use vstd::prelude::*;

use crate::error::JError;

verus! {

/// The number of leading dimensions two frames share: the first position at
/// which they differ, or the length of the shorter one.
pub open spec fn common_prefix_len(x: Seq<usize>, y: Seq<usize>) -> nat
    decreases x.len(),
{
    if x.len() == 0 || y.len() == 0 || x[0] != y[0] {
        0
    } else {
        1 + common_prefix_len(x.drop_first(), y.drop_first())
    }
}

pub proof fn lemma_common_prefix_len(x: Seq<usize>, y: Seq<usize>)
    ensures
        common_prefix_len(x, y) <= x.len(),
        common_prefix_len(x, y) <= y.len(),
        forall|k: int| 0 <= k < common_prefix_len(x, y) ==> x[k] == y[k],
        common_prefix_len(x, y) < x.len() && common_prefix_len(x, y) < y.len() ==> x[common_prefix_len(x, y) as int] != y[common_prefix_len(x, y) as int],
    decreases x.len(),
{
    if !(x.len() == 0 || y.len() == 0 || x[0] != y[0]) {
        lemma_common_prefix_len(x.drop_first(), y.drop_first());
        assert forall|k: int| 0 <= k < common_prefix_len(x, y) implies x[k] == y[k] by {
            if k > 0 {
                assert(x.drop_first()[k - 1] == x[k]);
                assert(y.drop_first()[k - 1] == y[k]);
            }
        }
    }
}

/// The number of leading dimensions that `x` and `y` agree on.
pub fn common_dims(x: &[usize], y: &[usize]) -> (r: usize)
    ensures
        r == common_prefix_len(x@, y@),
        r <= x@.len() && r <= y@.len(),
        forall|k: int| 0 <= k < r ==> x@[k] == y@[k],
        r < x@.len() && r < y@.len() ==> x@[r as int] != y@[r as int],
{
    proof {
        lemma_common_prefix_len(x@, y@);
    }
    let mut i: usize = 0;
    while i < x.len() && i < y.len() && x[i] == y[i]
        invariant
            i <= x@.len(),
            i <= y@.len(),
            forall|k: int| 0 <= k < i ==> x@[k] == y@[k],
            common_prefix_len(x@, y@) <= x@.len(),
            common_prefix_len(x@, y@) <= y@.len(),
            forall|k: int| 0 <= k < common_prefix_len(x@, y@) ==> x@[k] == y@[k],
            common_prefix_len(x@, y@) < x@.len() && common_prefix_len(x@, y@) < y@.len()
                ==> x@[common_prefix_len(x@, y@) as int] != y@[common_prefix_len(x@, y@) as int],
        decreases x@.len() - i,
    {
        i += 1;
    }
    proof {
        let c = common_prefix_len(x@, y@);
        if c < i {
            assert(x@[c as int] == y@[c as int]);
        }
        if i < c {
            assert(x@[i as int] == y@[i as int]);
        }
    }
    i
}

/// The frame of an argument of the given shape under a verb of rank `rank`
/// (`None` for infinite rank): the leading dimensions left over once the
/// cells have taken the trailing `rank` of them.
pub open spec fn frame_spec(shape: Seq<usize>, rank: Option<u8>) -> Seq<usize> {
    match rank {
        None => Seq::empty(),
        Some(r) => if r > shape.len() {
            Seq::empty()
        } else {
            shape.take(shape.len() - r)
        },
    }
}

/// The frame of `shape` under a verb of rank `rank` (`None` is infinite).
pub fn frame_of(shape: &[usize], rank: Option<u8>) -> (r: Vec<usize>)
    ensures
        r@ == frame_spec(shape@, rank),
{
    match rank {
        None => Vec::new(),
        Some(k) => {
            let k = k as usize;
            if k > shape.len() {
                Vec::new()
            } else {
                let n = shape.len() - k;
                let mut v: Vec<usize> = Vec::new();
                let mut i: usize = 0;
                while i < n
                    invariant
                        n <= shape@.len(),
                        i <= n,
                        v@ == shape@.take(i as int),
                    decreases n - i,
                {
                    v.push(shape[i]);
                    i += 1;
                    assert(v@ =~= shape@.take(i as int));
                }
                v
            }
        },
    }
}

/// How two arguments agree: the number of leading frame dimensions they
/// share, and the frame of the result, that common frame followed by the
/// surplus of the longer frame.  Two frames that both go on past their common
/// part do not agree.
pub open spec fn agreement_spec(x_frame: Seq<usize>, y_frame: Seq<usize>) -> Result<(nat, Seq<usize>), JError> {
    let c = common_prefix_len(x_frame, y_frame);
    let xs = x_frame.skip(c as int);
    let ys = y_frame.skip(c as int);
    if xs.len() > 0 && ys.len() > 0 {
        Err(JError::LengthError)
    } else if xs.len() == 0 && ys.len() > 0 {
        Ok((c, x_frame.take(c as int) + ys))
    } else {
        Ok((c, x_frame.take(c as int) + xs))
    }
}

/// Two frames agree exactly when one of them is a prefix of the other.  The
/// frame of the result is then the longer of the two (the shorter one being
/// its prefix), and the number of leading dimensions they share is the
/// length of the shorter one; frames that do not agree are a length error.
pub proof fn law_frames_agree(x_frame: Seq<usize>, y_frame: Seq<usize>)
    ensures
        agreement_spec(x_frame, y_frame) is Ok <==> {
            ||| (x_frame.len() <= y_frame.len() && y_frame.take(x_frame.len() as int) == x_frame)
            ||| (y_frame.len() <= x_frame.len() && x_frame.take(y_frame.len() as int) == y_frame)
        },
        agreement_spec(x_frame, y_frame) matches Ok((c, f)) ==> {
            &&& f == (if x_frame.len() >= y_frame.len() { x_frame } else { y_frame })
            &&& c == (if x_frame.len() >= y_frame.len() { y_frame.len() } else { x_frame.len() })
        },
        agreement_spec(x_frame, y_frame) is Err ==> agreement_spec(x_frame, y_frame)
            == Err::<(nat, Seq<usize>), JError>(JError::LengthError),
{
    lemma_common_prefix_len(x_frame, y_frame);
    let c = common_prefix_len(x_frame, y_frame);
    let xs = x_frame.skip(c as int);
    let ys = y_frame.skip(c as int);
    if xs.len() > 0 && ys.len() > 0 {
        assert(x_frame[c as int] != y_frame[c as int]);
        if x_frame.len() <= y_frame.len() && y_frame.take(x_frame.len() as int) == x_frame {
            assert(y_frame.take(x_frame.len() as int)[c as int] == y_frame[c as int]);
        }
        if y_frame.len() <= x_frame.len() && x_frame.take(y_frame.len() as int) == y_frame {
            assert(x_frame.take(y_frame.len() as int)[c as int] == x_frame[c as int]);
        }
    } else if xs.len() == 0 {
        assert(c == x_frame.len());
        assert(y_frame.take(x_frame.len() as int) =~= x_frame);
        assert(x_frame.take(c as int) + ys =~= y_frame);
        assert(x_frame.take(c as int) + xs =~= x_frame);
        if x_frame.len() >= y_frame.len() {
            assert(x_frame =~= y_frame);
        }
    } else {
        assert(c == y_frame.len());
        assert(x_frame.take(y_frame.len() as int) =~= y_frame);
        assert(x_frame.take(c as int) + xs =~= x_frame);
    }
}

/// The agreement of two arguments of shapes `x_shape` and `y_shape` under a
/// verb of ranks `x_rank` and `y_rank`: how many leading dimensions their
/// frames share, and the frame of the result.
pub fn generate_frames(x_shape: &[usize], y_shape: &[usize], x_rank: Option<u8>, y_rank: Option<u8>) -> (r: Result<(usize, Vec<usize>), JError>)
    ensures
        r matches Ok((c, f)) ==> agreement_spec(frame_spec(x_shape@, x_rank), frame_spec(y_shape@, y_rank)) == Ok::<(nat, Seq<usize>), JError>((c as nat, f@)),
        r matches Err(e) ==> agreement_spec(frame_spec(x_shape@, x_rank), frame_spec(y_shape@, y_rank)) == Err::<(nat, Seq<usize>), JError>(e),
        r matches Ok((c, f)) ==> f@ == (if frame_spec(x_shape@, x_rank).len() >= frame_spec(y_shape@, y_rank).len() {
            frame_spec(x_shape@, x_rank)
        } else {
            frame_spec(y_shape@, y_rank)
        }),
{
    proof {
        law_frames_agree(frame_spec(x_shape@, x_rank), frame_spec(y_shape@, y_rank));
    }
    let x_frame = frame_of(x_shape, x_rank);
    let y_frame = frame_of(y_shape, y_rank);
    let c = common_dims(x_frame.as_slice(), y_frame.as_slice());
    let x_more = c < x_frame.len();
    let y_more = c < y_frame.len();
    if x_more && y_more {
        return Err(JError::LengthError);
    }
    let mut frames: Vec<usize> = Vec::new();
    let mut i: usize = 0;
    while i < c
        invariant
            c <= x_frame@.len(),
            i <= c,
            frames@ == x_frame@.take(i as int),
        decreases c - i,
    {
        frames.push(x_frame[i]);
        i += 1;
        assert(frames@ =~= x_frame@.take(i as int));
    }
    let longer = if !x_more && y_more { &y_frame } else { &x_frame };
    let ghost head = frames@;
    let mut j: usize = c;
    while j < longer.len()
        invariant
            c <= j <= longer@.len(),
            frames@ == head + longer@.subrange(c as int, j as int),
        decreases longer@.len() - j,
    {
        frames.push(longer[j]);
        j += 1;
        assert(frames@ =~= head + longer@.subrange(c as int, j as int));
    }
    assert(longer@.subrange(c as int, longer@.len() as int) =~= longer@.skip(c as int));
    Ok((c, frames))
}

/// `shape` with ones put in front of it until it has `target` dimensions.
pub open spec fn rank_extended(target: nat, shape: Seq<usize>) -> Seq<usize> {
    Seq::new((target - shape.len()) as nat, |k: int| 1usize) + shape
}

/// The shape of an array rank-extended to `target` dimensions: the same
/// trailing shape, with dimensions of length one put in front.
pub fn rank_extend_shape(target: usize, shape: &[usize]) -> (r: Vec<usize>)
    requires
        shape@.len() <= target,
    ensures
        r@ == rank_extended(target as nat, shape@),
{
    let mut v: Vec<usize> = Vec::new();
    let pad = target - shape.len();
    let mut i: usize = 0;
    while i < pad
        invariant
            i <= pad,
            v@ == Seq::new(i as nat, |k: int| 1usize),
        decreases pad - i,
    {
        v.push(1);
        i += 1;
        assert(v@ =~= Seq::new(i as nat, |k: int| 1usize));
    }
    let ghost head = v@;
    let mut j: usize = 0;
    while j < shape.len()
        invariant
            j <= shape@.len(),
            v@ == head + shape@.take(j as int),
        decreases shape@.len() - j,
    {
        v.push(shape[j]);
        j += 1;
        assert(v@ =~= head + shape@.take(j as int));
    }
    assert(shape@.take(shape@.len() as int) =~= shape@);
    v
}

/// The number of elements of an array of the given shape.
pub open spec fn shape_size(shape: Seq<usize>) -> int
    decreases shape.len(),
{
    if shape.len() == 0 {
        1
    } else {
        shape_size(shape.drop_last()) * shape.last()
    }
}

/// The product of the non-zero dimensions of a shape.
pub open spec fn nonzero_size(shape: Seq<usize>) -> int
    decreases shape.len(),
{
    if shape.len() == 0 {
        1
    } else if shape.last() == 0 {
        nonzero_size(shape.drop_last())
    } else {
        nonzero_size(shape.drop_last()) * shape.last()
    }
}

pub proof fn lemma_sizes(shape: Seq<usize>)
    ensures
        nonzero_size(shape) >= 1,
        shape_size(shape) >= 0,
        shape_size(shape) <= nonzero_size(shape),
        (exists|k: int| 0 <= k < shape.len() && shape[k] == 0) ==> shape_size(shape) == 0,
        (forall|k: int| 0 <= k < shape.len() ==> shape[k] != 0) ==> shape_size(shape) == nonzero_size(shape),
    decreases shape.len(),
{
    if shape.len() > 0 {
        let init = shape.drop_last();
        lemma_sizes(init);
        let d = shape.last();
        if d != 0 {
            assert(nonzero_size(init) * d >= nonzero_size(init)) by (nonlinear_arith)
                requires nonzero_size(init) >= 1, d >= 1;
            assert(shape_size(init) * d <= nonzero_size(init) * d) by (nonlinear_arith)
                requires shape_size(init) <= nonzero_size(init), d >= 0;
            assert(shape_size(init) * d >= 0) by (nonlinear_arith)
                requires shape_size(init) >= 0, d >= 0;
        }
        if exists|k: int| 0 <= k < shape.len() && shape[k] == 0 {
            let k = choose|k: int| 0 <= k < shape.len() && shape[k] == 0;
            if k < shape.len() - 1 {
                assert(init[k] == 0);
                assert(shape_size(init) == 0);
            } else {
                assert(d == 0);
            }
            assert(shape_size(init) * d == 0) by (nonlinear_arith)
                requires shape_size(init) == 0 || d == 0;
        }
        if forall|k: int| 0 <= k < shape.len() ==> shape[k] != 0 {
            assert forall|k: int| 0 <= k < init.len() implies init[k] != 0 by {
                assert(init[k] == shape[k]);
            }
        }
    }
}

/// The number of elements of an array of shape `dims`, refused with a limit
/// error when the product of its non-zero dimensions exceeds `isize::MAX`.
pub fn size_of_shape_checked(dims: &[usize]) -> (r: Result<usize, JError>)
    ensures
        r matches Ok(n) ==> nonzero_size(dims@) <= isize::MAX && n == shape_size(dims@),
        r matches Err(e) ==> nonzero_size(dims@) > isize::MAX && e == JError::LimitError,
{
    let mut nz: usize = 1;
    let mut size: usize = 1;
    let mut i: usize = 0;
    while i < dims.len()
        invariant
            i <= dims@.len(),
            nz == nonzero_size(dims@.take(i as int)),
            size == shape_size(dims@.take(i as int)),
            nz <= isize::MAX,
            size <= nz,
        decreases dims@.len() - i,
    {
        let d = dims[i];
        proof {
            assert(dims@.take(i + 1).drop_last() =~= dims@.take(i as int));
            lemma_sizes(dims@.take(i as int));
        }
        let ghost old_nz = nz;
        assert(size <= nz);
        if d != 0 {
            match nz.checked_mul(d) {
                None => {
                    proof {
                        lemma_nonzero_size_grows(dims@, i + 1);
                    }
                    return Err(JError::LimitError);
                },
                Some(p) => {
                    if p > isize::MAX as usize {
                        proof {
                            lemma_nonzero_size_grows(dims@, i + 1);
                        }
                        return Err(JError::LimitError);
                    }
                    nz = p;
                },
            }
        }
        assert(size * d <= nz) by (nonlinear_arith)
            requires size <= old_nz, d == 0 || nz == old_nz * d;
        size = size * d;
        i += 1;
    }
    assert(dims@.take(dims@.len() as int) =~= dims@);
    Ok(size)
}

pub proof fn lemma_nonzero_size_grows(shape: Seq<usize>, i: int)
    requires
        0 <= i <= shape.len(),
    ensures
        nonzero_size(shape.take(i)) <= nonzero_size(shape),
    decreases shape.len() - i,
{
    if i < shape.len() {
        lemma_nonzero_size_grows(shape, i + 1);
        let t = shape.take(i + 1);
        assert(t.drop_last() =~= shape.take(i));
        lemma_sizes(t.drop_last());
        let d = t.last();
        assert(nonzero_size(t.drop_last()) * d >= nonzero_size(t.drop_last()) || d == 0) by (nonlinear_arith)
            requires nonzero_size(t.drop_last()) >= 1;
    } else {
        assert(shape.take(i) =~= shape);
    }
}

pub proof fn lemma_size_front(s: Seq<usize>)
    requires
        s.len() > 0,
    ensures
        shape_size(s) == s[0] * shape_size(s.skip(1)),
    decreases s.len(),
{
    if s.len() == 1 {
        assert(s.drop_last() =~= Seq::<usize>::empty());
        assert(s.skip(1) =~= Seq::<usize>::empty());
    } else {
        lemma_size_front(s.drop_last());
        assert(s.drop_last().skip(1) =~= s.skip(1).drop_last());
        assert(s.skip(1).last() == s.last());
        let a = s[0] as int;
        let b = shape_size(s.skip(1).drop_last());
        let c = s.last() as int;
        assert((a * b) * c == a * (b * c)) by (nonlinear_arith);
    }
}

pub proof fn lemma_size_le(s: Seq<usize>, t: Seq<usize>)
    requires
        s.len() == t.len(),
        forall|k: int| 0 <= k < s.len() ==> s[k] <= t[k],
    ensures
        0 <= shape_size(s) <= shape_size(t),
    decreases s.len(),
{
    if s.len() > 0 {
        lemma_size_le(s.drop_last(), t.drop_last());
        let a = shape_size(s.drop_last());
        let b = shape_size(t.drop_last());
        let x = s.last() as int;
        let y = t.last() as int;
        assert(0 <= a * x <= b * y) by (nonlinear_arith)
            requires 0 <= a <= b, 0 <= x <= y;
    }
}

/// The size of a shape is the size of its front times the size of its back.
pub proof fn lemma_size_concat(a: Seq<usize>, b: Seq<usize>)
    ensures
        shape_size(a + b) == shape_size(a) * shape_size(b),
    decreases b.len(),
{
    if b.len() == 0 {
        assert(a + b =~= a);
    } else {
        lemma_size_concat(a, b.drop_last());
        assert((a + b).drop_last() =~= a + b.drop_last());
        assert((a + b).last() == b.last());
        let x = shape_size(a);
        let y = shape_size(b.drop_last());
        let z = b.last() as int;
        assert((x * y) * z == x * (y * z)) by (nonlinear_arith);
    }
}

/// How an array of shape `shape` is cut into cells of rank `rank` (a
/// negative rank counting the leading dimensions instead): the shape of
/// each cell and how many there are, in row-major order.  A rank beyond the
/// array's, or an empty array, makes one cell of the whole array.
pub open spec fn rank_split_spec(shape: Seq<usize>, rank: int) -> (Seq<usize>, int) {
    if rank > shape.len() || shape_size(shape) == 0 {
        (shape, 1)
    } else {
        let lead = if rank >= 0 { shape.len() - rank } else { -rank };
        (shape.skip(lead), shape_size(shape.take(lead)))
    }
}

/// The shape of the cells of rank `rank` of an array of shape `shape`, and
/// how many there are.
pub fn rank_split(shape: &[usize], rank: i16) -> (r: (Vec<usize>, usize))
    requires
        shape_size(shape@) <= usize::MAX,
        rank < 0 ==> -rank <= shape@.len(),
    ensures
        r.0@ == rank_split_spec(shape@, rank as int).0,
        r.1 == rank_split_spec(shape@, rank as int).1,
{
    let n = shape.len();
    let mut size: usize = 1;
    let mut i: usize = 0;
    let mut has_zero = false;
    while i < n
        invariant
            n == shape@.len(),
            i <= n,
            has_zero <==> exists|k: int| 0 <= k < i && shape@[k] == 0,
        decreases n - i,
    {
        if shape[i] == 0 {
            has_zero = true;
        }
        i += 1;
    }
    proof {
        lemma_sizes(shape@);
    }
    let whole = if rank >= 0 { rank as usize > n } else { false };
    if whole || has_zero {
        let mut v: Vec<usize> = Vec::new();
        let mut j: usize = 0;
        while j < n
            invariant
                n == shape@.len(),
                j <= n,
                v@ == shape@.take(j as int),
            decreases n - j,
        {
            v.push(shape[j]);
            j += 1;
            assert(v@ =~= shape@.take(j as int));
        }
        assert(shape@.take(n as int) =~= shape@);
        return (v, 1);
    }
    let lead: usize = if rank >= 0 { n - rank as usize } else { (-(rank as i32)) as usize };
    proof {
        assert(shape@ =~= shape@.take(lead as int) + shape@.skip(lead as int));
        lemma_size_concat(shape@.take(lead as int), shape@.skip(lead as int));
        lemma_sizes(shape@.take(lead as int));
        lemma_sizes(shape@.skip(lead as int));
        assert forall|k: int| 0 <= k < shape@.skip(lead as int).len() implies #[trigger] shape@.skip(lead as int)[k] != 0 by {
            assert(shape@.skip(lead as int)[k] == shape@[lead + k]);
        }
        let a = shape_size(shape@.take(lead as int));
        let b = shape_size(shape@.skip(lead as int));
        assert(a <= a * b) by (nonlinear_arith)
            requires a >= 0, b >= 1;
    }
    let mut count: usize = 1;
    let mut k: usize = 0;
    while k < lead
        invariant
            n == shape@.len(),
            lead <= n,
            k <= lead,
            count == shape_size(shape@.take(k as int)),
            shape_size(shape@.take(lead as int)) <= usize::MAX,
            forall|q: int| 0 <= q < n ==> shape@[q] != 0,
        decreases lead - k,
    {
        proof {
            assert(shape@.take(k + 1).drop_last() =~= shape@.take(k as int));
            assert(shape@.take(lead as int) =~= shape@.take(k + 1) + shape@.take(lead as int).skip(k + 1));
            lemma_size_concat(shape@.take(k + 1), shape@.take(lead as int).skip(k + 1));
            lemma_sizes(shape@.take(lead as int).skip(k + 1));
            assert forall|q: int| 0 <= q < shape@.take(lead as int).skip(k + 1).len() implies #[trigger] shape@.take(lead as int).skip(k + 1)[q] != 0 by {
                assert(shape@.take(lead as int).skip(k + 1)[q] == shape@[k + 1 + q]);
            }
            let a = shape_size(shape@.take(k + 1));
            let b = shape_size(shape@.take(lead as int).skip(k + 1));
            lemma_sizes(shape@.take(k + 1));
            assert(a <= a * b) by (nonlinear_arith)
                requires a >= 0, b >= 1;
        }
        count = count * shape[k];
        k += 1;
    }
    let mut cell: Vec<usize> = Vec::new();
    let mut j: usize = lead;
    while j < n
        invariant
            n == shape@.len(),
            lead <= j <= n,
            cell@ == shape@.subrange(lead as int, j as int),
        decreases n - j,
    {
        cell.push(shape[j]);
        j += 1;
        assert(cell@ =~= shape@.subrange(lead as int, j as int));
    }
    assert(cell@ =~= shape@.skip(lead as int));
    (cell, count)
}

/// How the cells of one argument pair with those of the other within a
/// macrocell: the lone cell of one side goes with each cell of the other
/// (and no cells on one side make no pairs).
pub open spec fn cell_pairs_spec(nx: nat, ny: nat) -> Seq<(usize, usize)> {
    let limit = if nx == 0 || ny == 0 { 0 } else if nx > ny { nx } else { ny };
    Seq::new(limit, |i: int| ((i % (nx as int)) as usize, (i % (ny as int)) as usize))
}

/// The pairs of cells a dyad is applied to, by their indices, when one side
/// has a single cell.
pub fn cell_pairs(nx: usize, ny: usize) -> (r: Vec<(usize, usize)>)
    requires
        nx == 1 || ny == 1,
    ensures
        r@ == cell_pairs_spec(nx as nat, ny as nat),
{
    let limit = if nx == 0 || ny == 0 { 0 } else if nx > ny { nx } else { ny };
    let mut out: Vec<(usize, usize)> = Vec::new();
    let mut i: usize = 0;
    while i < limit
        invariant
            nx == 1 || ny == 1,
            limit == (if nx == 0 || ny == 0 { 0 } else if nx > ny { nx } else { ny }),
            i <= limit,
            out@ == cell_pairs_spec(nx as nat, ny as nat).take(i as int),
        decreases limit - i,
    {
        out.push((i % nx, i % ny));
        i += 1;
        assert(out@ =~= cell_pairs_spec(nx as nat, ny as nat).take(i as int));
    }
    assert(out@ =~= cell_pairs_spec(nx as nat, ny as nat));
    out
}

/// `count` copies of `fill`.
pub open spec fn fills<T>(count: int, fill: T) -> Seq<T> {
    Seq::new(count as nat, |k: int| fill)
}

/// `data`, the elements of an array of shape `shape` in row-major order,
/// filled out with `fill` to the larger shape `target`: each item padded
/// in turn, then whole items of `fill` added to make up the first dimension.
pub open spec fn padded<T>(target: Seq<usize>, shape: Seq<usize>, data: Seq<T>, fill: T) -> Seq<T>
    decreases target.len(), 1nat, 0nat,
{
    if target.len() == 0 || shape.len() == 0 {
        data
    } else if target.len() == 1 {
        data.take(shape[0] as int) + fills(target[0] - shape[0], fill)
    } else {
        padded_items(target, shape, data, fill, shape[0] as nat) + fills(
            (target[0] - shape[0]) * shape_size(target.skip(1)),
            fill,
        )
    }
}

/// The first `n` items of `data` (each of shape `shape` without its first
/// dimension), each padded to `target` without its first dimension.
pub open spec fn padded_items<T>(target: Seq<usize>, shape: Seq<usize>, data: Seq<T>, fill: T, n: nat) -> Seq<T>
    decreases target.len(), 0nat, n,
{
    if n == 0 || target.len() == 0 {
        Seq::empty()
    } else {
        let c = shape_size(shape.skip(1));
        padded_items(target, shape, data, fill, (n - 1) as nat) + padded(
            target.skip(1),
            shape.skip(1),
            data.subrange((n - 1) * c, n * c),
            fill,
        )
    }
}

/// Filling out keeps the elements in step with the shape: an array of shape
/// `shape` filled out to `target` has as many elements as `target` says.
pub proof fn lemma_padded_len<T>(target: Seq<usize>, shape: Seq<usize>, data: Seq<T>, fill: T)
    requires
        fits_inside(shape, target),
        data.len() == shape_size(shape),
    ensures
        padded(target, shape, data, fill).len() == shape_size(target),
    decreases target.len(), 1nat, 0nat,
{
    if target.len() == 0 {
    } else if target.len() == 1 {
        lemma_size_front(shape);
        lemma_size_front(target);
        assert(shape.skip(1) =~= Seq::<usize>::empty());
        assert(target.skip(1) =~= Seq::<usize>::empty());
    } else {
        let x = shape_size(target.skip(1));
        lemma_padded_items_len(target, shape, data, fill, shape[0] as nat);
        lemma_size_front(target);
        lemma_sizes(target.skip(1));
        let s0 = shape[0] as int;
        let t0 = target[0] as int;
        assert(s0 * x + (t0 - s0) * x == t0 * x) by (nonlinear_arith);
        assert((t0 - s0) * x >= 0) by (nonlinear_arith)
            requires t0 >= s0, x >= 0;
    }
}

proof fn lemma_padded_items_len<T>(target: Seq<usize>, shape: Seq<usize>, data: Seq<T>, fill: T, n: nat)
    requires
        fits_inside(shape, target),
        target.len() >= 1,
        n <= shape[0],
        data.len() == shape_size(shape),
    ensures
        padded_items(target, shape, data, fill, n).len() == n * shape_size(target.skip(1)),
    decreases target.len(), 0nat, n,
{
    if n > 0 {
        lemma_padded_items_len(target, shape, data, fill, (n - 1) as nat);
        let c = shape_size(shape.skip(1));
        lemma_size_front(shape);
        lemma_sizes(shape.skip(1));
        let s0 = shape[0] as int;
        assert((n - 1) * c + c == n * c) by (nonlinear_arith);
        assert(n * c <= s0 * c) by (nonlinear_arith)
            requires n <= s0, c >= 0;
        assert(0 <= (n - 1) * c) by (nonlinear_arith)
            requires n >= 1, c >= 0;
        assert(fits_inside(shape.skip(1), target.skip(1))) by {
            assert forall|k: int| 0 <= k < shape.skip(1).len() implies #[trigger] shape.skip(1)[k] <= target.skip(1)[k] by {
                assert(shape.skip(1)[k] == shape[k + 1]);
                assert(target.skip(1)[k] == target[k + 1]);
            }
        }
        lemma_padded_len(target.skip(1), shape.skip(1), data.subrange((n - 1) * c, n * c), fill);
        assert(padded_items(target, shape, data, fill, n) == padded_items(target, shape, data, fill, (n - 1) as nat)
            + padded(target.skip(1), shape.skip(1), data.subrange((n - 1) * c, n * c), fill));
        let x = shape_size(target.skip(1));
        let prev = padded_items(target, shape, data, fill, (n - 1) as nat);
        let last = padded(target.skip(1), shape.skip(1), data.subrange((n - 1) * c, n * c), fill);
        assert(prev.len() == ((n - 1) as nat) * x);
        assert(last.len() == x);
        assert((prev + last).len() == prev.len() + last.len());
        assert(((n - 1) as nat) * x + x == n * x) by (nonlinear_arith)
            requires n >= 1;
        assert(padded_items(target, shape, data, fill, n).len() == n * x);
    } else {
        let x = shape_size(target.skip(1));
        assert(n * x == 0) by (nonlinear_arith)
            requires n == 0;
    }
}

/// Every suffix of `target` is the shape of an array whose size fits a `usize`.
pub open spec fn suffix_sizes_fit(target: Seq<usize>) -> bool {
    forall|k: int| 0 <= k <= target.len() ==> #[trigger] shape_size(target.skip(k)) <= usize::MAX
}

/// `shape` fits inside `target`, dimension by dimension.
pub open spec fn fits_inside(shape: Seq<usize>, target: Seq<usize>) -> bool {
    &&& shape.len() == target.len()
    &&& forall|k: int| 0 <= k < shape.len() ==> #[trigger] shape[k] <= target[k]
}

/// The number of elements of an array whose shape is `dims` from `from` on.
fn suffix_size(dims: &[usize], from: usize) -> (r: usize)
    requires
        from <= dims@.len(),
        suffix_sizes_fit(dims@),
    ensures
        r == shape_size(dims@.skip(from as int)),
{
    let mut k = dims.len();
    let mut acc: usize = 1;
    assert(dims@.skip(k as int) =~= Seq::<usize>::empty());
    while k > from
        invariant
            from <= k <= dims@.len(),
            suffix_sizes_fit(dims@),
            acc == shape_size(dims@.skip(k as int)),
        decreases k,
    {
        k -= 1;
        proof {
            lemma_size_front(dims@.skip(k as int));
            assert(dims@.skip(k as int).skip(1) =~= dims@.skip(k + 1));
            assert(shape_size(dims@.skip(k as int)) <= usize::MAX);
        }
        acc = dims[k] * acc;
    }
    acc
}

proof fn lemma_skip_fits(shape: Seq<usize>, target: Seq<usize>, k: int)
    requires
        fits_inside(shape, target),
        0 <= k <= shape.len(),
    ensures
        fits_inside(shape.skip(k), target.skip(k)),
        0 <= shape_size(shape.skip(k)) <= shape_size(target.skip(k)),
{
    assert forall|j: int| 0 <= j < shape.skip(k).len() implies #[trigger] shape.skip(k)[j] <= target.skip(k)[j] by {
        assert(shape.skip(k)[j] == shape[k + j]);
        assert(target.skip(k)[j] == target[k + j]);
    }
    lemma_size_le(shape.skip(k), target.skip(k));
}

proof fn lemma_suffix_fits(shape: Seq<usize>, target: Seq<usize>)
    requires
        fits_inside(shape, target),
        suffix_sizes_fit(target),
    ensures
        suffix_sizes_fit(shape),
{
    assert forall|k: int| 0 <= k <= shape.len() implies #[trigger] shape_size(shape.skip(k)) <= usize::MAX by {
        lemma_skip_fits(shape, target, k);
        assert(shape_size(target.skip(k)) <= usize::MAX);
    }
}

fn push_data<T: Copy>(out: &mut Vec<T>, data: &[T], start: usize, count: usize)
    requires
        start + count <= data@.len(),
    ensures
        final(out)@ == old(out)@ + data@.subrange(start as int, start + count),
{
    let ghost init = old(out)@;
    let dlen = data.len();
    let mut k: usize = 0;
    while k < count
        invariant
            dlen == data@.len(),
            start + count <= data@.len(),
            k <= count,
            out@ == init + data@.subrange(start as int, start + k),
        decreases count - k,
    {
        out.push(data[start + k]);
        k += 1;
        assert(out@ =~= init + data@.subrange(start as int, start + k));
    }
}

fn push_fills<T: Copy>(out: &mut Vec<T>, fill: T, count: usize)
    ensures
        final(out)@ == old(out)@ + fills(count as int, fill),
{
    let ghost init = old(out)@;
    let mut k: usize = 0;
    while k < count
        invariant
            k <= count,
            out@ == init + fills(k as int, fill),
        decreases count - k,
    {
        out.push(fill);
        k += 1;
        assert(out@ =~= init + fills(k as int, fill));
    }
}

fn push_with_shape_from<T: Copy>(
    out: &mut Vec<T>,
    target: &[usize],
    shape: &[usize],
    depth: usize,
    data: &[T],
    start: usize,
    fill: T,
)
    requires
        fits_inside(shape@, target@),
        depth < target@.len(),
        suffix_sizes_fit(target@),
        start + shape_size(shape@.skip(depth as int)) <= data@.len(),
    ensures
        final(out)@ == old(out)@ + padded(
            target@.skip(depth as int),
            shape@.skip(depth as int),
            data@.subrange(start as int, start + shape_size(shape@.skip(depth as int))),
            fill,
        ),
    decreases target@.len() - depth,
{
    let ghost init = old(out)@;
    let ghost t = target@.skip(depth as int);
    let ghost sh = shape@.skip(depth as int);
    let ghost d = data@.subrange(start as int, start + shape_size(sh));
    let tlen = target.len();
    let dlen = data.len();
    let this_dim = target[depth];
    let initial = shape[depth];
    proof {
        lemma_suffix_fits(shape@, target@);
        lemma_size_front(sh);
        lemma_size_front(t);
        lemma_skip_fits(shape@, target@, depth as int);
        lemma_skip_fits(shape@, target@, depth + 1);
        assert(sh.skip(1) =~= shape@.skip(depth + 1));
        assert(t.skip(1) =~= target@.skip(depth + 1));
        assert(shape_size(target@.skip(depth as int)) <= usize::MAX);
        assert(shape_size(target@.skip(depth + 1)) <= usize::MAX);
    }
    let c = suffix_size(shape, depth + 1);
    let per = suffix_size(target, depth + 1);
    if depth + 1 == tlen {
        proof {
            assert(shape@.skip(depth + 1) =~= Seq::<usize>::empty());
            assert(sh[0] == initial);
            assert(shape_size(sh.skip(1)) == 1);
            assert(shape_size(sh) == initial) by (nonlinear_arith)
                requires
                    shape_size(sh) == sh[0] * shape_size(sh.skip(1)),
                    sh[0] == initial,
                    shape_size(sh.skip(1)) == 1,
            ;
            assert(d.take(initial as int) =~= data@.subrange(start as int, start + initial));
        }
        push_data(out, data, start, initial);
    } else {
        let mut n: usize = 0;
        while n < initial
            invariant
                fits_inside(shape@, target@),
                tlen == target@.len(),
                dlen == data@.len(),
                depth + 1 < target@.len(),
                suffix_sizes_fit(target@),
                n <= initial,
                initial == shape@[depth as int],
                c == shape_size(shape@.skip(depth + 1)),
                sh == shape@.skip(depth as int),
                t == target@.skip(depth as int),
                shape_size(sh) == initial * c,
                sh.skip(1) == shape@.skip(depth + 1),
                t.skip(1) == target@.skip(depth + 1),
                start + shape_size(sh) <= data@.len(),
                d == data@.subrange(start as int, start + shape_size(sh)),
                out@ == init + padded_items(t, sh, d, fill, n as nat),
            decreases initial - n,
        {
            assert(n * c + c <= initial * c) by (nonlinear_arith)
                requires n < initial, c >= 0;
            let ghost before = out@;
            push_with_shape_from(out, target, shape, depth + 1, data, start + n * c, fill);
            proof {
                assert((n + 1) * c == n * c + c) by (nonlinear_arith);
                assert(d.subrange(n * c, (n + 1) * c) =~= data@.subrange(
                    start + n * c,
                    start + n * c + c,
                ));
            }
            n += 1;
            assert(out@ =~= init + padded_items(t, sh, d, fill, n as nat));
        }
    }
    assert(per * (this_dim - initial) <= per * this_dim) by (nonlinear_arith)
        requires per >= 0, initial <= this_dim;
    assert(per * this_dim == this_dim * per) by (nonlinear_arith);
    let count = per * (this_dim - initial);
    let ghost before = out@;
    push_fills(out, fill, count);
    proof {
        if depth + 1 == tlen {
            assert(t.len() == 1);
            assert(per == 1);
        } else {
            assert((this_dim - initial) * per == per * (this_dim - initial)) by (nonlinear_arith);
        }
        assert(out@ =~= init + padded(t, sh, d, fill));
    }
}

/// Appends to `out` the elements of an array of shape `shape` (its elements
/// `data`, in row-major order), filled out with `fill` to the shape `target`.
pub fn push_with_shape<T: Copy>(out: &mut Vec<T>, target: &[usize], shape: &[usize], data: &[T], fill: T)
    requires
        target@.len() > 0,
        fits_inside(shape@, target@),
        suffix_sizes_fit(target@),
        data@.len() == shape_size(shape@),
    ensures
        final(out)@ == old(out)@ + padded(target@, shape@, data@, fill),
{
    proof {
        assert(target@.skip(0) =~= target@);
        assert(shape@.skip(0) =~= shape@);
        assert(data@.subrange(0, data@.len() as int) =~= data@);
    }
    push_with_shape_from(out, target, shape, 0, data, 0, fill);
}


/// The shapes from `lo` up to `hi` of `s`.
fn sub_shape(s: &[usize], lo: usize, hi: usize) -> (v: Vec<usize>)
    requires
        lo <= hi <= s@.len(),
    ensures
        v@ == s@.subrange(lo as int, hi as int),
{
    let mut v: Vec<usize> = Vec::new();
    let mut i = lo;
    while i < hi
        invariant
            lo <= i <= hi <= s@.len(),
            v@ == s@.subrange(lo as int, i as int),
        decreases hi - i,
    {
        v.push(s[i]);
        i += 1;
        assert(v@ =~= s@.subrange(lo as int, i as int));
    }
    v
}

/// How one argument of shape `shape` is cut for a verb of rank `rank`, when
/// its rank exceeds the other argument's by `surplus`: the shape of its cells
/// and how many there are.  An infinite rank takes the whole argument as its
/// one cell; a finite one takes cells of that rank plus the surplus.
pub open spec fn cut_of(shape: Seq<usize>, rank: Option<u8>, surplus: nat) -> (Seq<usize>, int) {
    match rank {
        None => (shape, 1),
        Some(f) => rank_split_spec(shape, f + surplus),
    }
}

/// A cell rank beyond what a cell rank can be written in (an `i16`).
pub open spec fn cell_rank_too_large(rank: Option<u8>, surplus: nat) -> bool {
    rank matches Some(f) && f + surplus > i16::MAX
}

/// How a dyad of ranks `x_rank` and `y_rank` cuts arguments of shapes
/// `x_shape` and `y_shape`: the cells of each (their shape and number), the
/// common frame (the leading dimensions the two frames share, taken from
/// `x_shape`) and the surplus frame (the rest of the shape whose frame is
/// longer).  Frames are not checked for agreement here.
pub open spec fn generate_cells_spec(x_shape: Seq<usize>, y_shape: Seq<usize>, x_rank: Option<u8>, y_rank: Option<u8>)
    -> Result<((Seq<usize>, int), (Seq<usize>, int), Seq<usize>, Seq<usize>), JError>
{
    let min_rank = if x_shape.len() < y_shape.len() { x_shape.len() } else { y_shape.len() };
    let xs = (x_shape.len() - min_rank) as nat;
    let ys = (y_shape.len() - min_rank) as nat;
    let xf = frame_spec(x_shape, x_rank);
    let yf = frame_spec(y_shape, y_rank);
    let c = common_prefix_len(xf, yf);
    let surplus = if xf.len() > yf.len() { x_shape.skip(c as int) } else { y_shape.skip(c as int) };
    if cell_rank_too_large(x_rank, xs) || cell_rank_too_large(y_rank, ys) {
        Err(JError::LimitError)
    } else {
        Ok((cut_of(x_shape, x_rank, xs), cut_of(y_shape, y_rank, ys), x_shape.take(c as int), surplus))
    }
}

/// The mathematical reading of what [`generate_cells`] returns.
pub open spec fn cells_view(r: ((Vec<usize>, usize), (Vec<usize>, usize), Vec<usize>, Vec<usize>))
    -> ((Seq<usize>, int), (Seq<usize>, int), Seq<usize>, Seq<usize>)
{
    ((r.0.0@, r.0.1 as int), (r.1.0@, r.1.1 as int), r.2@, r.3@)
}

fn cut_cells(shape: &[usize], rank: Option<u8>, surplus: usize) -> (r: (Vec<usize>, usize))
    requires
        shape_size(shape@) <= usize::MAX,
        !cell_rank_too_large(rank, surplus as nat),
    ensures
        (r.0@, r.1 as int) == cut_of(shape@, rank, surplus as nat),
{
    match rank {
        None => (sub_shape(shape, 0, shape.len()), 1),
        Some(f) => {
            let k: i16 = (f as i16) + (surplus as i16);
            rank_split(shape, k)
        },
    }
}

/// How a dyad of ranks `x_rank` and `y_rank` cuts its arguments of shapes
/// `x_shape` and `y_shape`: the shape and number of the cells of each, the
/// common frame and the surplus frame.
pub fn generate_cells(x_shape: &[usize], y_shape: &[usize], x_rank: Option<u8>, y_rank: Option<u8>)
    -> (r: Result<((Vec<usize>, usize), (Vec<usize>, usize), Vec<usize>, Vec<usize>), JError>)
    requires
        shape_size(x_shape@) <= usize::MAX,
        shape_size(y_shape@) <= usize::MAX,
    ensures
        match r {
            Ok(v) => generate_cells_spec(x_shape@, y_shape@, x_rank, y_rank) == Ok::<((Seq<usize>, int), (Seq<usize>, int), Seq<usize>, Seq<usize>), JError>(cells_view(v)),
            Err(e) => generate_cells_spec(x_shape@, y_shape@, x_rank, y_rank) == Err::<((Seq<usize>, int), (Seq<usize>, int), Seq<usize>, Seq<usize>), JError>(e),
        },
{
    let min_rank = if x_shape.len() < y_shape.len() { x_shape.len() } else { y_shape.len() };
    let xs = x_shape.len() - min_rank;
    let ys = y_shape.len() - min_rank;
    let x_frame = frame_of(x_shape, x_rank);
    let y_frame = frame_of(y_shape, y_rank);
    let c = common_dims(x_frame.as_slice(), y_frame.as_slice());
    proof {
        lemma_common_prefix_len(x_frame@, y_frame@);
    }
    let x_big = match x_rank { Some(f) => xs > 32767 - (f as usize), None => false };
    let y_big = match y_rank { Some(f) => ys > 32767 - (f as usize), None => false };
    if x_big || y_big {
        return Err(JError::LimitError);
    }
    let x_cells = cut_cells(x_shape, x_rank, xs);
    let y_cells = cut_cells(y_shape, y_rank, ys);
    let common = sub_shape(x_shape, 0, c);
    let surplus = if x_frame.len() > y_frame.len() {
        sub_shape(x_shape, c, x_shape.len())
    } else {
        sub_shape(y_shape, c, y_shape.len())
    };
    assert(x_shape@.subrange(0, c as int) =~= x_shape@.take(c as int));
    assert(x_shape@.subrange(c as int, x_shape@.len() as int) =~= x_shape@.skip(c as int));
    assert(y_shape@.subrange(c as int, y_shape@.len() as int) =~= y_shape@.skip(c as int));
    Ok((x_cells, y_cells, common, surplus))
}


/// How the two arguments of a dyad of ranks `x_rank` and `y_rank`, of shapes
/// `x_shape` and `y_shape`, are cut into macrocells: the frame of the result
/// (see [`agreement_spec`]), and, for each argument, the shape of its
/// macrocells and how many there are, cutting off the dimensions of the
/// common frame.  Frames that do not agree are the error of
/// [`agreement_spec`].
pub open spec fn macrocells_spec(x_shape: Seq<usize>, y_shape: Seq<usize>, x_rank: Option<u8>, y_rank: Option<u8>)
    -> Result<(Seq<usize>, (Seq<usize>, int), (Seq<usize>, int)), JError>
{
    match agreement_spec(frame_spec(x_shape, x_rank), frame_spec(y_shape, y_rank)) {
        Err(e) => Err(e),
        Ok((c, frames)) => Ok((
            frames,
            rank_split_spec(x_shape, x_shape.len() - c),
            rank_split_spec(y_shape, y_shape.len() - c),
        )),
    }
}

/// The macrocells of the two arguments pair up one for one: as many on each
/// side.  (The one case where they do not is an empty argument, which makes
/// a single macrocell of itself, against a non-empty one.)
pub open spec fn macrocells_pair_up(x_shape: Seq<usize>, y_shape: Seq<usize>, x_rank: Option<u8>, y_rank: Option<u8>) -> bool {
    macrocells_spec(x_shape, y_shape, x_rank, y_rank) matches Ok((_, xc, yc)) ==> xc.1 == yc.1
}

/// How a dyad of ranks `x_rank` and `y_rank` cuts its arguments into
/// macrocells: the frame of the result, the shape and number of each
/// argument's macrocells, and the pairs of macrocells (by index) it is
/// applied to, in order.
pub fn macrocells(x_shape: &[usize], y_shape: &[usize], x_rank: Option<u8>, y_rank: Option<u8>)
    -> (r: Result<(Vec<usize>, (Vec<usize>, usize), (Vec<usize>, usize), Vec<(usize, usize)>), JError>)
    requires
        shape_size(x_shape@) <= usize::MAX,
        shape_size(y_shape@) <= usize::MAX,
        x_shape@.len() <= i16::MAX,
        y_shape@.len() <= i16::MAX,
        macrocells_pair_up(x_shape@, y_shape@, x_rank, y_rank),
    ensures
        match r {
            Ok((f, xc, yc, pairs)) => {
                &&& macrocells_spec(x_shape@, y_shape@, x_rank, y_rank)
                    == Ok::<(Seq<usize>, (Seq<usize>, int), (Seq<usize>, int)), JError>((f@, (xc.0@, xc.1 as int), (yc.0@, yc.1 as int)))
                &&& pairs@ == Seq::new(xc.1 as nat, |k: int| (k as usize, k as usize))
            },
            Err(e) => macrocells_spec(x_shape@, y_shape@, x_rank, y_rank)
                == Err::<(Seq<usize>, (Seq<usize>, int), (Seq<usize>, int)), JError>(e),
        },
{
    let (c, frames) = match generate_frames(x_shape, y_shape, x_rank, y_rank) {
        Ok(v) => v,
        Err(e) => return Err(e),
    };
    proof {
        let xf = frame_spec(x_shape@, x_rank);
        let yf = frame_spec(y_shape@, y_rank);
        lemma_common_prefix_len(xf, yf);
        assert(xf.len() <= x_shape@.len());
        assert(yf.len() <= y_shape@.len());
    }
    let xr: i16 = (x_shape.len() - c) as i16;
    let yr: i16 = (y_shape.len() - c) as i16;
    let xc = rank_split(x_shape, xr);
    let yc = rank_split(y_shape, yr);
    let n = xc.1;
    let mut pairs: Vec<(usize, usize)> = Vec::new();
    let mut k: usize = 0;
    while k < n
        invariant
            k <= n,
            pairs@ == Seq::new(k as nat, |j: int| (j as usize, j as usize)),
        decreases n - k,
    {
        pairs.push((k, k));
        k += 1;
        assert(pairs@ =~= Seq::new(k as nat, |j: int| (j as usize, j as usize)));
    }
    Ok((frames, xc, yc, pairs))
}


/// The frame of an argument is the front of its shape: what the cells, of
/// the verb's rank, leave of it once they have taken the trailing
/// dimensions.  An infinite rank, or one at least the argument's, leaves no
/// frame.
pub proof fn law_frame_is_front(shape: Seq<usize>, rank: Option<u8>)
    ensures
        frame_spec(shape, rank).len() <= shape.len(),
        shape.take(frame_spec(shape, rank).len() as int) == frame_spec(shape, rank),
        rank matches Some(r) ==> (r <= shape.len() ==> frame_spec(shape, rank).len() + r == shape.len()),
        (rank is None || (rank matches Some(r) && r >= shape.len())) ==> frame_spec(shape, rank).len() == 0,
{
    match rank {
        None => {},
        Some(r) => {
            if r <= shape.len() {
                assert(shape.take(shape.len() - r).len() == shape.len() - r);
                assert(shape.take((shape.len() - r) as int).take((shape.len() - r) as int) =~= shape.take((shape.len() - r) as int));
            } else {
                assert(shape.take(0) =~= Seq::<usize>::empty());
            }
        },
    }
}

/// Cutting an array into cells loses and adds nothing: the cells' shape is
/// the back of the array's shape, as many cells as the front holds, so that
/// the number of cells times the size of a cell is the array's size.  For a
/// non-empty array and a rank within its own, the cells have that rank (a
/// negative rank counting the leading dimensions instead).
pub proof fn law_cells_cover(shape: Seq<usize>, rank: int)
    requires
        rank < 0 ==> -rank <= shape.len(),
    ensures
        rank_split_spec(shape, rank).1 * shape_size(rank_split_spec(shape, rank).0) == shape_size(shape),
        rank_split_spec(shape, rank).0.len() <= shape.len(),
        shape.skip(shape.len() - rank_split_spec(shape, rank).0.len()) == rank_split_spec(shape, rank).0,
        shape_size(shape) != 0 && 0 <= rank <= shape.len() ==> rank_split_spec(shape, rank).0.len() == rank,
        shape_size(shape) != 0 && rank < 0 ==> rank_split_spec(shape, rank).0.len() == shape.len() + rank,
{
    if rank > shape.len() || shape_size(shape) == 0 {
        assert(shape.skip(0) =~= shape);
    } else {
        let lead = if rank >= 0 { shape.len() - rank } else { -rank };
        assert(shape =~= shape.take(lead) + shape.skip(lead));
        lemma_size_concat(shape.take(lead), shape.skip(lead));
        assert(shape.skip(shape.len() - shape.skip(lead).len()) =~= shape.skip(lead));
    }
}


/// A dyad's macrocells: two arguments are cut exactly when their frames
/// agree; the result frame is then the longer frame, and each argument is
/// cut, past the frame the two share (the shorter frame), into macrocells
/// that together make it up, item for item.
pub proof fn law_macrocells(x_shape: Seq<usize>, y_shape: Seq<usize>, x_rank: Option<u8>, y_rank: Option<u8>)
    ensures
        macrocells_spec(x_shape, y_shape, x_rank, y_rank) is Ok
            <==> agreement_spec(frame_spec(x_shape, x_rank), frame_spec(y_shape, y_rank)) is Ok,
        macrocells_spec(x_shape, y_shape, x_rank, y_rank) matches Ok((f, xc, yc)) ==> ({
            let xf = frame_spec(x_shape, x_rank);
            let yf = frame_spec(y_shape, y_rank);
            let shared = if xf.len() <= yf.len() { xf.len() } else { yf.len() };
            &&& f == (if xf.len() >= yf.len() { xf } else { yf })
            &&& xc.1 * shape_size(xc.0) == shape_size(x_shape)
            &&& yc.1 * shape_size(yc.0) == shape_size(y_shape)
            &&& (shape_size(x_shape) != 0 ==> xc.0 == x_shape.skip(shared as int))
            &&& (shape_size(y_shape) != 0 ==> yc.0 == y_shape.skip(shared as int))
        }),
{
    let xf = frame_spec(x_shape, x_rank);
    let yf = frame_spec(y_shape, y_rank);
    law_frames_agree(xf, yf);
    law_frame_is_front(x_shape, x_rank);
    law_frame_is_front(y_shape, y_rank);
    if let Ok((c, f)) = agreement_spec(xf, yf) {
        law_cells_cover(x_shape, x_shape.len() - c);
        law_cells_cover(y_shape, y_shape.len() - c);
    }
}


/// An argument cut for a dyad is made up exactly by its cells: the number of
/// cells times the size of a cell is the argument's size.
pub proof fn law_cut_covers(shape: Seq<usize>, rank: Option<u8>, surplus: nat)
    ensures
        cut_of(shape, rank, surplus).1 * shape_size(cut_of(shape, rank, surplus).0) == shape_size(shape),
{
    match rank {
        Some(r) => law_cells_cover(shape, r + surplus),
        None => {},
    }
}

/// The common frame two arguments are cut with is a prefix of both frames.
proof fn lemma_common_frame(x_shape: Seq<usize>, y_shape: Seq<usize>, x_rank: Option<u8>, y_rank: Option<u8>)
    ensures
        ({
            let xf = frame_spec(x_shape, x_rank);
            let yf = frame_spec(y_shape, y_rank);
            let c = common_prefix_len(xf, yf);
            &&& c <= xf.len() && c <= yf.len()
            &&& xf.take(c as int) == x_shape.take(c as int)
            &&& yf.take(c as int) == x_shape.take(c as int)
            &&& x_shape.take(c as int) + x_shape.skip(c as int) == x_shape
            &&& x_shape.take(c as int) + y_shape.skip(c as int) == y_shape
        }),
{
    let xf = frame_spec(x_shape, x_rank);
    let yf = frame_spec(y_shape, y_rank);
    law_frame_is_front(x_shape, x_rank);
    law_frame_is_front(y_shape, y_rank);
    lemma_common_prefix_len(xf, yf);
    let c = common_prefix_len(xf, yf);
    let common = x_shape.take(c as int);
    assert(xf.take(c as int) =~= common) by {
        assert forall|k: int| 0 <= k < c implies xf[k] == x_shape[k] by {
            assert(x_shape.take(xf.len() as int)[k] == x_shape[k]);
        }
    }
    assert(yf.take(c as int) =~= common) by {
        assert forall|k: int| 0 <= k < c implies yf[k] == common[k] by {
            assert(xf[k] == yf[k]);
            assert(x_shape.take(xf.len() as int)[k] == x_shape[k]);
        }
    }
    assert(common + x_shape.skip(c as int) =~= x_shape);
    assert(common + y_shape.skip(c as int) =~= y_shape) by {
        assert forall|k: int| 0 <= k < c implies common[k] == y_shape[k] by {
            assert(yf.take(c as int)[k] == yf[k]);
            assert(y_shape.take(yf.len() as int)[k] == y_shape[k]);
        }
    }
}

/// Cutting two arguments into cells: each argument's cells together make
/// it up, item for item; the common frame is a prefix of both frames; and
/// the common frame followed by the surplus frame is the whole shape of the
/// argument whose frame is the longer (the right one when neither is).
pub proof fn law_generate_cells(x_shape: Seq<usize>, y_shape: Seq<usize>, x_rank: Option<u8>, y_rank: Option<u8>)
    ensures
        generate_cells_spec(x_shape, y_shape, x_rank, y_rank) matches Ok((xc, yc, common, surplus)) ==> ({
            let xf = frame_spec(x_shape, x_rank);
            let yf = frame_spec(y_shape, y_rank);
            &&& xc.1 * shape_size(xc.0) == shape_size(x_shape)
            &&& yc.1 * shape_size(yc.0) == shape_size(y_shape)
            &&& common.len() <= xf.len() && common.len() <= yf.len()
            &&& xf.take(common.len() as int) == common
            &&& yf.take(common.len() as int) == common
            &&& common + surplus == (if xf.len() > yf.len() { x_shape } else { y_shape })
        }),
{
    let min_rank = if x_shape.len() < y_shape.len() { x_shape.len() } else { y_shape.len() };
    law_cut_covers(x_shape, x_rank, (x_shape.len() - min_rank) as nat);
    law_cut_covers(y_shape, y_rank, (y_shape.len() - min_rank) as nat);
    lemma_common_frame(x_shape, y_shape, x_rank, y_rank);
}

} // verus!
