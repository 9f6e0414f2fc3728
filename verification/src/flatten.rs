//! Putting the results of a verb's cells back together: every result is
//! rank-extended to the largest rank, filled out to the longest of each
//! dimension, and the lot laid out behind the frame.

use vstd::prelude::*;

use crate::cells::{
    fits_inside, lemma_nonzero_size_grows, lemma_padded_len, lemma_size_concat, lemma_size_front,
    lemma_sizes, nonzero_size, padded, push_with_shape, rank_extend_shape, rank_extended,
    shape_size, size_of_shape_checked, suffix_sizes_fit,
};
use crate::error::JError;

verus! {

/// The shapes of a vector of shapes.
pub open spec fn shapes_view(v: Seq<Vec<usize>>) -> Seq<Seq<usize>> {
    v.map_values(|s: Vec<usize>| s@)
}

/// The elements of a vector of arrays' elements.
pub open spec fn datas_view<T>(v: Seq<Vec<T>>) -> Seq<Seq<T>> {
    v.map_values(|d: Vec<T>| d@)
}

/// The largest number of dimensions among `shapes`.
pub open spec fn max_rank(shapes: Seq<Seq<usize>>) -> nat
    decreases shapes.len(),
{
    if shapes.len() == 0 {
        0
    } else {
        let m = max_rank(shapes.drop_last());
        if shapes.last().len() > m {
            shapes.last().len()
        } else {
            m
        }
    }
}

/// The longest `k`th dimension among the first `n` shapes.
pub open spec fn dim_max(shapes: Seq<Seq<usize>>, k: int, n: nat) -> usize
    decreases n,
{
    if n == 0 {
        0
    } else {
        let m = dim_max(shapes, k, (n - 1) as nat);
        let d = shapes[n - 1][k];
        if d > m {
            d
        } else {
            m
        }
    }
}

/// Every shape rank-extended to the largest rank.
pub open spec fn extended_shapes(shapes: Seq<Seq<usize>>) -> Seq<Seq<usize>> {
    Seq::new(shapes.len(), |i: int| rank_extended(max_rank(shapes), shapes[i]))
}

/// The shape every result is filled out to: the longest of each dimension
/// once all are rank-extended.
pub open spec fn fill_inner(shapes: Seq<Seq<usize>>) -> Seq<usize> {
    Seq::new(max_rank(shapes), |k: int| dim_max(extended_shapes(shapes), k, shapes.len()))
}

/// Whether some dimension of `s` is empty.
pub open spec fn has_zero(s: Seq<usize>) -> bool {
    exists|k: int| 0 <= k < s.len() && s[k] == 0
}

/// One result's elements, filled out to `inner` unless it has that shape.
pub open spec fn filled_item<T>(inner: Seq<usize>, ext: Seq<usize>, data: Seq<T>, fill: T) -> Seq<T> {
    if ext == inner {
        data
    } else {
        padded(inner, ext, data, fill)
    }
}

/// The first `n` results' elements, each filled out, one after the other.
pub open spec fn filled_items<T>(inner: Seq<usize>, exts: Seq<Seq<usize>>, datas: Seq<Seq<T>>, fill: T, n: nat) -> Seq<T>
    decreases n,
{
    if n == 0 {
        Seq::empty()
    } else {
        filled_items(inner, exts, datas, fill, (n - 1) as nat) + filled_item(inner, exts[n - 1], datas[n - 1], fill)
    }
}

/// The array the results make behind `frame`: its shape and its elements;
/// no results at all are a nonce error, an array too large to hold a limit
/// error, and a frame that does not hold as many results as there are a
/// length error.
pub open spec fn fill_promote_spec<T>(frame: Seq<usize>, shapes: Seq<Seq<usize>>, datas: Seq<Seq<T>>, fill: T) -> Result<(Seq<usize>, Seq<T>), JError> {
    if shapes.len() == 0 {
        Err(JError::NonceError)
    } else {
        let inner = fill_inner(shapes);
        let target = frame + inner;
        if has_zero(target) {
            Ok((target, Seq::empty()))
        } else if nonzero_size(target) > isize::MAX {
            Err(JError::LimitError)
        } else if shape_size(frame) != shapes.len() {
            Err(JError::LengthError)
        } else {
            Ok((target, filled_items(inner, extended_shapes(shapes), datas, fill, shapes.len())))
        }
    }
}

proof fn lemma_max_rank(shapes: Seq<Seq<usize>>, i: int)
    requires
        0 <= i < shapes.len(),
    ensures
        shapes[i].len() <= max_rank(shapes),
    decreases shapes.len(),
{
    if i < shapes.len() - 1 {
        lemma_max_rank(shapes.drop_last(), i);
    }
}

proof fn lemma_dim_max(shapes: Seq<Seq<usize>>, k: int, n: nat, i: int)
    requires
        0 <= i < n,
    ensures
        shapes[i][k] <= dim_max(shapes, k, n),
    decreases n,
{
    if i < n - 1 {
        lemma_dim_max(shapes, k, (n - 1) as nat, i);
    }
}

proof fn lemma_size_ones(k: nat, s: Seq<usize>)
    ensures
        shape_size(Seq::new(k, |j: int| 1usize) + s) == shape_size(s),
    decreases k,
{
    let t = Seq::new(k, |j: int| 1usize) + s;
    if k > 0 {
        assert(t.len() > 0);
        assert(t[0] == 1usize);
        lemma_size_front(t);
        assert(t.skip(1) =~= Seq::new((k - 1) as nat, |j: int| 1usize) + s);
        lemma_size_ones((k - 1) as nat, s);
    } else {
        assert(t =~= s);
    }
}

proof fn lemma_skip_size(s: Seq<usize>, j: int)
    requires
        0 <= j <= s.len(),
        forall|k: int| 0 <= k < s.len() ==> s[k] != 0,
    ensures
        0 <= shape_size(s.skip(j)) <= shape_size(s),
    decreases j,
{
    if j == 0 {
        assert(s.skip(0) =~= s);
        lemma_sizes(s);
    } else {
        lemma_skip_size(s, j - 1);
        let t = s.skip(j - 1);
        lemma_size_front(t);
        assert(t.skip(1) =~= s.skip(j));
        lemma_sizes(s.skip(j));
        let a = t[0] as int;
        let b = shape_size(t.skip(1));
        assert(b <= a * b) by (nonlinear_arith)
            requires a >= 1, b >= 0;
    }
}

proof fn lemma_filled_items_len<T>(inner: Seq<usize>, exts: Seq<Seq<usize>>, datas: Seq<Seq<T>>, fill: T, n: nat)
    requires
        n <= exts.len(),
        n <= datas.len(),
        forall|i: int| 0 <= i < n ==> fits_inside(#[trigger] exts[i], inner),
        forall|i: int| 0 <= i < n ==> (#[trigger] datas[i]).len() == shape_size(exts[i]),
    ensures
        filled_items(inner, exts, datas, fill, n).len() == n * shape_size(inner),
    decreases n,
{
    let x = shape_size(inner);
    if n == 0 {
        assert(n * x == 0) by (nonlinear_arith)
            requires n == 0;
    } else {
        lemma_filled_items_len(inner, exts, datas, fill, (n - 1) as nat);
        let e = exts[n - 1];
        let d = datas[n - 1];
        if e != inner {
            lemma_padded_len(inner, e, d, fill);
        }
        assert(filled_item(inner, e, d, fill).len() == x);
        assert(((n - 1) as nat) * x + x == n * x) by (nonlinear_arith)
            requires n >= 1;
    }
}

/// The array made of a verb's results holds as many elements as its shape
/// says.
pub proof fn law_filled_size<T>(frame: Seq<usize>, shapes: Seq<Seq<usize>>, datas: Seq<Seq<T>>, fill: T)
    requires
        datas.len() == shapes.len(),
        forall|i: int| 0 <= i < shapes.len() ==> (#[trigger] datas[i]).len() == shape_size(shapes[i]),
    ensures
        fill_promote_spec(frame, shapes, datas, fill) matches Ok((s, d)) ==> d.len() == shape_size(s),
{
    if shapes.len() > 0 {
        let inner = fill_inner(shapes);
        let target = frame + inner;
        if has_zero(target) {
            lemma_sizes(target);
        } else if nonzero_size(target) <= isize::MAX && shape_size(frame) == shapes.len() {
            let exts = extended_shapes(shapes);
            let m = max_rank(shapes);
            assert forall|i: int| 0 <= i < shapes.len() implies fits_inside(#[trigger] exts[i], inner) by {
                lemma_max_rank(shapes, i);
                assert forall|k: int| 0 <= k < exts[i].len() implies #[trigger] exts[i][k] <= inner[k] by {
                    lemma_dim_max(exts, k, shapes.len(), i);
                }
            }
            assert forall|i: int| 0 <= i < shapes.len() implies (#[trigger] datas[i]).len() == shape_size(exts[i]) by {
                lemma_max_rank(shapes, i);
                lemma_size_ones((m - shapes[i].len()) as nat, shapes[i]);
            }
            lemma_filled_items_len(inner, exts, datas, fill, shapes.len());
            lemma_size_concat(frame, inner);
        }
    }
}

fn same_dims(a: &[usize], b: &[usize]) -> (r: bool)
    ensures
        r == (a@ == b@),
{
    if a.len() != b.len() {
        return false;
    }
    let mut i: usize = 0;
    while i < a.len()
        invariant
            a@.len() == b@.len(),
            i <= a@.len(),
            forall|k: int| 0 <= k < i ==> a@[k] == b@[k],
        decreases a@.len() - i,
    {
        if a[i] != b[i] {
            return false;
        }
        i += 1;
    }
    assert(a@ =~= b@);
    true
}

fn push_all<T: Copy>(out: &mut Vec<T>, data: &[T])
    ensures
        final(out)@ == old(out)@ + data@,
{
    let ghost start = out@;
    let mut j: usize = 0;
    while j < data.len()
        invariant
            j <= data@.len(),
            out@ == start + data@.take(j as int),
        decreases data@.len() - j,
    {
        out.push(data[j]);
        j += 1;
        assert(out@ =~= start + data@.take(j as int));
    }
    assert(data@.take(data@.len() as int) =~= data@);
}

/// Lays out the results of a verb's cells behind `frame`, as one array:
/// each result (its shape and its elements in row-major order) is
/// rank-extended to the largest rank and filled out with `fill` to the
/// longest of each dimension.
pub fn fill_promote_reshape<T: Copy>(frame: &[usize], shapes: &Vec<Vec<usize>>, data: &Vec<Vec<T>>, fill: T) -> (r: Result<(Vec<usize>, Vec<T>), JError>)
    requires
        shapes@.len() == data@.len(),
        forall|i: int| 0 <= i < shapes@.len() ==> #[trigger] data@[i]@.len() == shape_size(shapes@[i]@),
    ensures
        match fill_promote_spec(frame@, shapes_view(shapes@), datas_view(data@), fill) {
            Ok((s, d)) => r matches Ok((rs, rd)) && rs@ == s && rd@ == d,
            Err(e) => r == Err::<(Vec<usize>, Vec<T>), JError>(e),
        },
{
    let ghost sv = shapes_view(shapes@);
    let n = shapes.len();
    if n == 0 {
        return Err(JError::NonceError);
    }
    // the largest rank
    let mut m: usize = 0;
    let mut i: usize = 0;
    while i < n
        invariant
            n == shapes@.len(),
            sv == shapes_view(shapes@),
            i <= n,
            m == max_rank(sv.take(i as int)),
        decreases n - i,
    {
        assert(sv.take(i + 1).drop_last() =~= sv.take(i as int));
        if shapes[i].len() > m {
            m = shapes[i].len();
        }
        i += 1;
    }
    assert(sv.take(n as int) =~= sv);
    // every shape rank-extended
    let mut exts: Vec<Vec<usize>> = Vec::new();
    let mut i: usize = 0;
    while i < n
        invariant
            n == shapes@.len(),
            sv == shapes_view(shapes@),
            m == max_rank(sv),
            i <= n,
            exts@.len() == i,
            forall|j: int| 0 <= j < i ==> (#[trigger] exts@[j])@ == extended_shapes(sv)[j],
        decreases n - i,
    {
        proof {
            lemma_max_rank(sv, i as int);
        }
        exts.push(rank_extend_shape(m, &shapes[i]));
        i += 1;
    }
    let ghost ev = extended_shapes(sv);
    assert(shapes_view(exts@) =~= ev);
    // the longest of each dimension
    let mut inner: Vec<usize> = Vec::new();
    let mut k: usize = 0;
    while k < m
        invariant
            n == exts@.len(),
            ev == shapes_view(exts@),
            ev == extended_shapes(sv),
            sv.len() == n,
            m == max_rank(sv),
            k <= m,
            inner@ == fill_inner(sv).take(k as int),
        decreases m - k,
    {
        let mut d: usize = 0;
        let mut i: usize = 0;
        while i < n
            invariant
                n == exts@.len(),
                ev == shapes_view(exts@),
                ev == extended_shapes(sv),
                m == max_rank(sv),
                sv.len() == n,
                k < m,
                i <= n,
                d == dim_max(ev, k as int, i as nat),
            decreases n - i,
        {
            assert(ev[i as int] == exts@[i as int]@);
            proof {
                lemma_max_rank(sv, i as int);
            }
            assert(ev[i as int].len() == m);
            if exts[i][k] > d {
                d = exts[i][k];
            }
            i += 1;
        }
        inner.push(d);
        k += 1;
        assert(inner@ =~= fill_inner(sv).take(k as int));
    }
    let ghost iv = fill_inner(sv);
    assert(inner@ =~= iv);
    // the whole shape
    let mut target: Vec<usize> = Vec::new();
    let mut j: usize = 0;
    while j < frame.len()
        invariant
            j <= frame@.len(),
            target@ == frame@.take(j as int),
        decreases frame@.len() - j,
    {
        target.push(frame[j]);
        j += 1;
        assert(target@ =~= frame@.take(j as int));
    }
    push_all(&mut target, &inner);
    assert(frame@.take(frame@.len() as int) =~= frame@);
    let ghost tv = frame@ + iv;
    assert(target@ =~= tv);
    let mut j: usize = 0;
    while j < target.len()
        invariant
            target@ == tv,
            tv == frame@ + fill_inner(shapes_view(shapes@)),
            shapes@.len() > 0,
            j <= tv.len(),
            forall|q: int| 0 <= q < j ==> tv[q] != 0,
        decreases tv.len() - j,
    {
        if target[j] == 0 {
            assert(has_zero(tv));
            return Ok((target, Vec::new()));
        }
        j += 1;
    }
    assert(!has_zero(tv));
    match size_of_shape_checked(&target) {
        Ok(_) => {},
        Err(e) => return Err(e),
    }
    proof {
        lemma_sizes(tv);
        assert(tv.take(frame@.len() as int) =~= frame@);
        lemma_nonzero_size_grows(tv, frame@.len() as int);
        assert forall|q: int| 0 <= q < frame@.len() implies frame@[q] != 0 by {
            assert(tv[q] == frame@[q]);
        }
        lemma_sizes(frame@);
    }
    let frame_size = match size_of_shape_checked(frame) {
        Ok(x) => x,
        Err(e) => return Err(e),
    };
    if frame_size != n {
        return Err(JError::LengthError);
    }
    proof {
        assert forall|q: int| 0 <= q <= iv.len() implies #[trigger] shape_size(iv.skip(q)) <= usize::MAX by {
            assert(iv.skip(q) =~= tv.skip(frame@.len() + q));
            lemma_skip_size(tv, frame@.len() + q);
        }
        assert(suffix_sizes_fit(iv));
    }
    let mut out: Vec<T> = Vec::new();
    let mut i: usize = 0;
    let ghost dv = datas_view(data@);
    while i < n
        invariant
            n == exts@.len(),
            n == data@.len(),
            n == sv.len(),
            sv == shapes_view(shapes@),
            dv == datas_view(data@),
            ev == shapes_view(exts@),
            ev == extended_shapes(sv),
            m == max_rank(sv),
            iv == fill_inner(sv),
            inner@ == iv,
            suffix_sizes_fit(iv),
            forall|q: int| 0 <= q < shapes@.len() ==> #[trigger] data@[q]@.len() == shape_size(shapes@[q]@),
            i <= n,
            out@ == filled_items(iv, ev, dv, fill, i as nat),
        decreases n - i,
    {
        let ghost before = out@;
        assert(ev[i as int] == exts@[i as int]@);
        assert(dv[i as int] == data@[i as int]@);
        if same_dims(&exts[i], &inner) {
            push_all(&mut out, &data[i]);
        } else {
            proof {
                lemma_max_rank(sv, i as int);
                if m == 0 {
                    assert(ev[i as int] =~= iv);
                }
                assert(sv[i as int] == shapes@[i as int]@);
                lemma_size_ones((m - sv[i as int].len()) as nat, sv[i as int]);
                assert forall|q: int| 0 <= q < ev[i as int].len() implies #[trigger] ev[i as int][q] <= iv[q] by {
                    lemma_dim_max(ev, q, n as nat, i as int);
                }
                assert(fits_inside(ev[i as int], iv));
            }
            push_with_shape(&mut out, &inner, &exts[i], &data[i], fill);
        }
        i += 1;
    }
    Ok((target, out))
}

} // verus!
