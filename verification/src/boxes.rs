//! Displaying box arrays.  Each shown item is formatted, the items are
//! measured line by line to lay them out in a grid, and, for now, written
//! one after the other; the measuring step fails on an item with a line
//! longer in bytes than its column is wide.

use vstd::prelude::*;
use vstd::utf8::encode_utf8;

use crate::cells::{lemma_sizes, shape_size};
use crate::display::{display_limit, item_rows, lemma_size_last, str_width, strings_view, width};
use crate::text::{chars_of, slice_of, string_of};

verus! {

/// The lines of `s` from `j` on, the current one having begun at `start`:
/// `s` split at each line break, empty lines kept.
pub open spec fn pieces_from(s: Seq<char>, j: int, start: int) -> Seq<Seq<char>>
    decreases s.len() - j,
{
    if j >= s.len() {
        seq![s.subrange(start, s.len() as int)]
    } else if s[j] == '\n' {
        seq![s.subrange(start, j)] + pieces_from(s, j + 1, j + 1)
    } else {
        pieces_from(s, j + 1, start)
    }
}

/// The lines of `s`, as `str::split('\n')` gives them.
pub open spec fn pieces(s: Seq<char>) -> Seq<Seq<char>> {
    pieces_from(s, 0, 0)
}

/// The length in bytes of a line, as `str::len` gives it.
pub open spec fn byte_len(p: Seq<char>) -> usize {
    encode_utf8(p).len() as usize
}

/// The widest of some lines.
pub open spec fn max_width(ps: Seq<Seq<char>>) -> nat
    decreases ps.len(),
{
    if ps.len() == 0 {
        0
    } else {
        let m = max_width(ps.drop_last());
        let w = str_width(ps.last());
        if w > m {
            w
        } else {
            m
        }
    }
}

/// The longest in bytes of some lines.
pub open spec fn max_bytes(ps: Seq<Seq<char>>) -> nat
    decreases ps.len(),
{
    if ps.len() == 0 {
        0
    } else {
        let m = max_bytes(ps.drop_last());
        let b = byte_len(ps.last()) as nat;
        if b > m {
            b
        } else {
            m
        }
    }
}

/// The height of a row of the grid: the most lines among its first `n`
/// items.
pub open spec fn row_height(row: Seq<Seq<char>>, n: int) -> nat
    decreases n,
{
    if n <= 0 {
        0
    } else {
        let m = row_height(row, n - 1);
        let h = pieces(row[n - 1]).len();
        if h > m {
            h
        } else {
            m
        }
    }
}

/// The width of column `c` of the grid: the widest line of its items in the
/// first `n` rows.
pub open spec fn col_width(rows: Seq<Seq<Seq<char>>>, c: int, n: int) -> nat
    decreases n,
{
    if n <= 0 {
        0
    } else {
        let m = col_width(rows, c, n - 1);
        let w = max_width(pieces(rows[n - 1][c]));
        if w > m {
            w
        } else {
            m
        }
    }
}

/// Every item can be padded out to its cell of the grid: no line of it is
/// longer in bytes than its column is wide, and where it is padded down
/// with blank lines (a blank and a line break, two bytes) the column is at
/// least two wide.
pub open spec fn grid_fits(rows: Seq<Seq<Seq<char>>>) -> bool {
    forall|r: int, c: int|
        0 <= r < rows.len() && 0 <= c < rows[r].len() ==> {
            let it = #[trigger] rows[r][c];
            &&& max_bytes(pieces(it)) <= col_width(rows, c, rows.len() as int)
            &&& (pieces(it).len() < row_height(rows[r], rows[r].len() as int) ==> 2 <= col_width(rows, c, rows.len() as int))
        }
}

/// The shown items, one after the other.
pub open spec fn concat_rows(rows: Seq<Seq<Seq<char>>>, n: int) -> Seq<char>
    decreases n,
{
    if n <= 0 {
        Seq::empty()
    } else {
        concat_rows(rows, n - 1) + concat_items(rows[n - 1], rows[n - 1].len() as int)
    }
}

/// The first `n` items of a row, one after the other.
pub open spec fn concat_items(row: Seq<Seq<char>>, n: int) -> Seq<char>
    decreases n,
{
    if n <= 0 {
        Seq::empty()
    } else {
        concat_items(row, n - 1) + row[n - 1]
    }
}

/// The rows of a box array shown in its display: at most the first 128
/// rows, and 128 items of each.
pub open spec fn box_rows(shape: Seq<usize>, items: Seq<Seq<char>>) -> Seq<Seq<Seq<char>>> {
    let row_len = shape.last() as int;
    let total = (items.len() as int) / row_len;
    let nrows = if total < display_limit() { total } else { display_limit() };
    let ncols = if row_len < display_limit() { row_len } else { display_limit() };
    item_rows(items, row_len, nrows, ncols)
}

/// Whether the display of a box array of the given shape, whose items are
/// formatted as `items`, can lay out its grid: an empty array or an atom
/// always can.
pub open spec fn box_display_fits(shape: Seq<usize>, items: Seq<Seq<char>>) -> bool {
    items.len() == 0 || shape.len() == 0 || grid_fits(box_rows(shape, items))
}

/// How a box array of the given shape, whose items are formatted as
/// `items`, is displayed: an empty list as an empty line, an empty table
/// as nothing, an atom's item on a line of its own, and otherwise the
/// shown items one after the other.
pub open spec fn br_box_spec(shape: Seq<usize>, items: Seq<Seq<char>>) -> Seq<char> {
    if items.len() == 0 {
        if shape.len() == 1 {
            seq!['\n']
        } else {
            Seq::empty()
        }
    } else if shape.len() == 0 {
        items[0] + seq!['\n']
    } else {
        let rows = box_rows(shape, items);
        concat_rows(rows, rows.len() as int)
    }
}

fn push_string(out: &mut Vec<char>, s: &String)
    ensures
        final(out)@ == old(out)@ + s@,
{
    let cs = chars_of(s.as_str());
    let ghost init = old(out)@;
    let mut i: usize = 0;
    while i < cs.len()
        invariant
            i <= cs@.len(),
            cs@ == s@,
            out@ == init + cs@.take(i as int),
        decreases cs@.len() - i,
    {
        out.push(cs[i]);
        i += 1;
        assert(out@ =~= init + cs@.take(i as int));
    }
    assert(cs@.take(cs@.len() as int) =~= cs@);
}

proof fn lemma_box_shape(shape: Seq<usize>, n: int)
    requires
        shape.len() > 0,
        n == shape_size(shape),
        n > 0,
    ensures
        shape.last() >= 1,
        n >= shape.last(),
        n % (shape.last() as int) == 0,
{
    lemma_sizes(shape);
    if exists|k: int| 0 <= k < shape.len() && shape[k] == 0 {
        assert(false);
    }
    lemma_size_last(shape);
}

/// Displays a box array of the given shape whose items, in row-major order,
/// have been formatted as `items`, where its grid can be laid out.
pub fn br_box(shape: &[usize], items: &Vec<String>) -> (s: String)
    requires
        items@.len() == shape_size(shape@),
        box_display_fits(shape@, strings_view(items@)),
    ensures
        s@ == br_box_spec(shape@, strings_view(items@)),
{
    let ghost iv = strings_view(items@);
    let mut out: Vec<char> = Vec::new();
    if items.len() == 0 {
        if shape.len() == 1 {
            out.push('\n');
        }
        assert(out@ =~= br_box_spec(shape@, iv));
        return string_of(out.as_slice());
    }
    if shape.len() == 0 {
        push_string(&mut out, &items[0]);
        out.push('\n');
        assert(out@ =~= br_box_spec(shape@, iv));
        return string_of(out.as_slice());
    }
    proof {
        lemma_box_shape(shape@, items@.len() as int);
    }
    let row_len = shape[shape.len() - 1];
    let total = items.len() / row_len;
    let nrows = if total < 128 { total } else { 128 };
    let ncols = if row_len < 128 { row_len } else { 128 };
    let ghost rows = box_rows(shape@, iv);
    let ilen = items.len();
    let mut r: usize = 0;
    while r < nrows
        invariant
            ilen == items@.len(),
            r <= nrows,
            nrows <= total,
            total == (items@.len() as int) / (row_len as int),
            row_len >= 1,
            ncols <= row_len,
            iv == strings_view(items@),
            rows == item_rows(iv, row_len as int, nrows as int, ncols as int),
            out@ == concat_rows(rows, r as int),
        decreases nrows - r,
    {
        assert(r * row_len + row_len <= items@.len()) by (nonlinear_arith)
            requires r < total, total == (items@.len() as int) / (row_len as int), row_len >= 1;
        let base = r * row_len;
        let ghost head = out@;
        let mut c: usize = 0;
        while c < ncols
            invariant
                ilen == items@.len(),
                c <= ncols,
                ncols <= row_len,
                base == r * row_len,
                base + row_len <= items@.len(),
                r < nrows,
                iv == strings_view(items@),
                rows == item_rows(iv, row_len as int, nrows as int, ncols as int),
                out@ == head + concat_items(rows[r as int], c as int),
            decreases ncols - c,
        {
            push_string(&mut out, &items[base + c]);
            c += 1;
        }
        r += 1;
    }
    string_of(out.as_slice())
}

/// How many lines `s` has, its widest line and its longest line in bytes.
fn item_metrics(s: &String) -> (m: (usize, usize, usize))
    requires
        s@.len() < usize::MAX,
    ensures
        m.0 == pieces(s@).len(),
        m.1 == max_width(pieces(s@)),
        m.2 == max_bytes(pieces(s@)),
{
    let cs = chars_of(s.as_str());
    let ghost sv = s@;
    let mut done: usize = 0;
    let mut w: usize = 0;
    let mut b: usize = 0;
    let ghost mut ps: Seq<Seq<char>> = Seq::empty();
    let mut start: usize = 0;
    let mut j: usize = 0;
    while j <= cs.len()
        invariant
            cs@ == sv,
            sv.len() < usize::MAX,
            start <= j <= cs@.len() + 1,
            j <= cs@.len() ==> start <= j,
            done == ps.len(),
            done <= j,
            w == max_width(ps),
            b == max_bytes(ps),
            j <= cs@.len() ==> ps + pieces_from(sv, j as int, start as int) == pieces(sv),
            j > cs@.len() ==> ps == pieces(sv),
        decreases cs@.len() + 1 - j,
    {
        if j == cs.len() || cs[j] == '\n' {
            let piece = string_of(&slice_of(&cs, start, j));
            let pw = width(piece.as_str());
            let pb = piece.as_str().len();
            proof {
                let p = sv.subrange(start as int, j as int);
                assert(ps.push(p).drop_last() =~= ps);
                if j < cs@.len() {
                    assert(ps + pieces_from(sv, j as int, start as int) =~= ps.push(p) + pieces_from(sv, j + 1, j + 1));
                } else {
                    assert(ps + pieces_from(sv, j as int, start as int) =~= ps.push(p));
                }
                ps = ps.push(p);
            }
            if pw > w {
                w = pw;
            }
            if pb > b {
                b = pb;
            }
            done += 1;
            start = j + 1;
        }
        j += 1;
    }
    (done, w, b)
}

/// The measures of the first `n` shown rows: each row's items' numbers of
/// lines (`hs`), widest lines (`ws`) and longest lines in bytes (`bs`).
pub open spec fn measured(rows: Seq<Seq<Seq<char>>>, hs: Seq<Vec<usize>>, ws: Seq<Vec<usize>>, bs: Seq<Vec<usize>>, n: int, ncols: int) -> bool {
    &&& forall|q: int| 0 <= q < n ==> (#[trigger] hs[q])@.len() == ncols
    &&& forall|q: int| 0 <= q < n ==> (#[trigger] ws[q])@.len() == ncols
    &&& forall|q: int| 0 <= q < n ==> (#[trigger] bs[q])@.len() == ncols
    &&& forall|q: int, c: int| 0 <= q < n && 0 <= c < ncols ==> #[trigger] hs[q]@[c] == pieces(rows[q][c]).len()
    &&& forall|q: int, c: int| 0 <= q < n && 0 <= c < ncols ==> #[trigger] ws[q]@[c] == max_width(pieces(rows[q][c]))
    &&& forall|q: int, c: int| 0 <= q < n && 0 <= c < ncols ==> #[trigger] bs[q]@[c] == max_bytes(pieces(rows[q][c]))
}

/// The item at row `q`, column `c` fits its cell.
pub open spec fn cell_fits(rows: Seq<Seq<Seq<char>>>, q: int, c: int) -> bool {
    let it = rows[q][c];
    &&& max_bytes(pieces(it)) <= col_width(rows, c, rows.len() as int)
    &&& (pieces(it).len() < row_height(rows[q], rows[q].len() as int) ==> 2 <= col_width(rows, c, rows.len() as int))
}

/// Displays a box array of the given shape whose items, in row-major order,
/// have been formatted as `items`; `None` where its grid cannot be laid
/// out.
pub fn br_box_checked(shape: &[usize], items: &Vec<String>) -> (s: Option<String>)
    requires
        items@.len() == shape_size(shape@),
        forall|i: int| 0 <= i < items@.len() ==> (#[trigger] items@[i])@.len() < usize::MAX,
    ensures
        s matches Some(t) ==> box_display_fits(shape@, strings_view(items@)) && t@ == br_box_spec(shape@, strings_view(items@)),
        s is None ==> !box_display_fits(shape@, strings_view(items@)),
{
    let ghost iv = strings_view(items@);
    if items.len() == 0 || shape.len() == 0 {
        return Some(br_box(shape, items));
    }
    proof {
        lemma_box_shape(shape@, items@.len() as int);
    }
    let row_len = shape[shape.len() - 1];
    let total = items.len() / row_len;
    let nrows = if total < 128 { total } else { 128 };
    let ncols = if row_len < 128 { row_len } else { 128 };
    let ghost rows = box_rows(shape@, iv);
    assert(rows == item_rows(iv, row_len as int, nrows as int, ncols as int));
    assert(nrows >= 1) by (nonlinear_arith)
        requires total == (items@.len() as int) / (row_len as int), items@.len() >= row_len, row_len >= 1, nrows == (if total < 128 { total } else { 128 });
    assert(rows.len() == nrows);
    assert(forall|q: int| 0 <= q < nrows ==> #[trigger] rows[q].len() == ncols);
    // measure every shown item
    let mut hs: Vec<Vec<usize>> = Vec::new();
    let mut ws: Vec<Vec<usize>> = Vec::new();
    let mut bs: Vec<Vec<usize>> = Vec::new();
    let ilen = items.len();
    let mut r: usize = 0;
    while r < nrows
        invariant
            ilen == items@.len(),
            r <= nrows,
            nrows <= total,
            total == (items@.len() as int) / (row_len as int),
            row_len >= 1,
            ncols <= row_len,
            iv == strings_view(items@),
            rows == item_rows(iv, row_len as int, nrows as int, ncols as int),
            forall|i: int| 0 <= i < items@.len() ==> (#[trigger] items@[i])@.len() < usize::MAX,
            hs@.len() == r,
            ws@.len() == r,
            bs@.len() == r,
            measured(rows, hs@, ws@, bs@, r as int, ncols as int),
        decreases nrows - r,
    {
        assert(r * row_len + row_len <= items@.len()) by (nonlinear_arith)
            requires r < total, total == (items@.len() as int) / (row_len as int), row_len >= 1;
        let base = r * row_len;
        let mut hr: Vec<usize> = Vec::new();
        let mut wr: Vec<usize> = Vec::new();
        let mut br: Vec<usize> = Vec::new();
        let mut c: usize = 0;
        while c < ncols
            invariant
                ilen == items@.len(),
                c <= ncols,
                ncols <= row_len,
                base == r * row_len,
                base + row_len <= items@.len(),
                r < nrows,
                iv == strings_view(items@),
                rows == item_rows(iv, row_len as int, nrows as int, ncols as int),
                forall|i: int| 0 <= i < items@.len() ==> (#[trigger] items@[i])@.len() < usize::MAX,
                hr@.len() == c,
                wr@.len() == c,
                br@.len() == c,
                forall|k: int| 0 <= k < c ==> #[trigger] hr@[k] == pieces(rows[r as int][k]).len(),
                forall|k: int| 0 <= k < c ==> #[trigger] wr@[k] == max_width(pieces(rows[r as int][k])),
                forall|k: int| 0 <= k < c ==> #[trigger] br@[k] == max_bytes(pieces(rows[r as int][k])),
            decreases ncols - c,
        {
            assert(rows[r as int][c as int] == items@[base + c]@);
            let (h, w, b) = item_metrics(&items[base + c]);
            hr.push(h);
            wr.push(w);
            br.push(b);
            c += 1;
        }
        let ghost (hs0, ws0, bs0) = (hs@, ws@, bs@);
        hs.push(hr);
        ws.push(wr);
        bs.push(br);
        r += 1;
        proof {
            assert forall|q: int, k: int| 0 <= q < r && 0 <= k < ncols implies #[trigger] hs@[q]@[k] == pieces(rows[q][k]).len() by {
                if q < r - 1 {
                    assert(hs@[q] == hs0[q]);
                }
            }
            assert forall|q: int, k: int| 0 <= q < r && 0 <= k < ncols implies #[trigger] ws@[q]@[k] == max_width(pieces(rows[q][k])) by {
                if q < r - 1 {
                    assert(ws@[q] == ws0[q]);
                }
            }
            assert forall|q: int, k: int| 0 <= q < r && 0 <= k < ncols implies #[trigger] bs@[q]@[k] == max_bytes(pieces(rows[q][k])) by {
                if q < r - 1 {
                    assert(bs@[q] == bs0[q]);
                }
            }
            assert forall|q: int| 0 <= q < r implies (#[trigger] hs@[q])@.len() == ncols by {
                if q < r - 1 {
                    assert(hs@[q] == hs0[q]);
                }
            }
            assert forall|q: int| 0 <= q < r implies (#[trigger] ws@[q])@.len() == ncols by {
                if q < r - 1 {
                    assert(ws@[q] == ws0[q]);
                }
            }
            assert forall|q: int| 0 <= q < r implies (#[trigger] bs@[q])@.len() == ncols by {
                if q < r - 1 {
                    assert(bs@[q] == bs0[q]);
                }
            }
        }
    }
    // the height of each row
    let mut heights: Vec<usize> = Vec::new();
    let mut r: usize = 0;
    while r < nrows
        invariant
            r <= nrows,
            hs@.len() == nrows,
            ws@.len() == nrows,
            bs@.len() == nrows,
            rows.len() == nrows,
            measured(rows, hs@, ws@, bs@, nrows as int, ncols as int),
            heights@.len() == r,
            forall|q: int| 0 <= q < r ==> #[trigger] heights@[q] == row_height(rows[q], ncols as int),
        decreases nrows - r,
    {
        let mut m: usize = 0;
        let mut c: usize = 0;
        assert(hs@[r as int]@.len() == ncols);
        while c < ncols
            invariant
                c <= ncols,
                r < nrows,
                hs@.len() == nrows,
                ws@.len() == nrows,
                bs@.len() == nrows,
                hs@[r as int]@.len() == ncols,
                measured(rows, hs@, ws@, bs@, nrows as int, ncols as int),
                m == row_height(rows[r as int], c as int),
            decreases ncols - c,
        {
            assert(hs@[r as int]@[c as int] == pieces(rows[r as int][c as int]).len());
            if hs[r][c] > m {
                m = hs[r][c];
            }
            c += 1;
        }
        heights.push(m);
        r += 1;
    }
    // the width of each column
    let mut widths: Vec<usize> = Vec::new();
    let mut c: usize = 0;
    while c < ncols
        invariant
            c <= ncols,
            hs@.len() == nrows,
            ws@.len() == nrows,
            bs@.len() == nrows,
            rows.len() == nrows,
            measured(rows, hs@, ws@, bs@, nrows as int, ncols as int),
            widths@.len() == c,
            forall|k: int| 0 <= k < c ==> #[trigger] widths@[k] == col_width(rows, k, nrows as int),
        decreases ncols - c,
    {
        let mut m: usize = 0;
        let mut r: usize = 0;
        while r < nrows
            invariant
                r <= nrows,
                c < ncols,
                hs@.len() == nrows,
                ws@.len() == nrows,
                bs@.len() == nrows,
                measured(rows, hs@, ws@, bs@, nrows as int, ncols as int),
                m == col_width(rows, c as int, r as int),
            decreases nrows - r,
        {
            assert(ws@[r as int]@.len() == ncols);
            assert(ws@[r as int]@[c as int] == max_width(pieces(rows[r as int][c as int])));
            if ws[r][c] > m {
                m = ws[r][c];
            }
            r += 1;
        }
        widths.push(m);
        c += 1;
    }
    // every item fits its cell
    let mut r: usize = 0;
    while r < nrows
        invariant
            r <= nrows,
            rows.len() == nrows,
            forall|q: int| 0 <= q < nrows ==> #[trigger] rows[q].len() == ncols,
            hs@.len() == nrows,
            ws@.len() == nrows,
            bs@.len() == nrows,
            heights@.len() == nrows,
            widths@.len() == ncols,
            measured(rows, hs@, ws@, bs@, nrows as int, ncols as int),
            forall|q: int| 0 <= q < nrows ==> #[trigger] heights@[q] == row_height(rows[q], ncols as int),
            forall|k: int| 0 <= k < ncols ==> #[trigger] widths@[k] == col_width(rows, k, nrows as int),
            forall|q: int, k: int| 0 <= q < r && 0 <= k < ncols ==> #[trigger] cell_fits(rows, q, k),
            rows == box_rows(shape@, iv),
            iv == strings_view(items@),
            items@.len() > 0,
            shape@.len() > 0,
        decreases nrows - r,
    {
        let mut c: usize = 0;
        while c < ncols
            invariant
                c <= ncols,
                r < nrows,
                rows.len() == nrows,
                forall|q: int| 0 <= q < nrows ==> #[trigger] rows[q].len() == ncols,
                hs@.len() == nrows,
                ws@.len() == nrows,
                bs@.len() == nrows,
                heights@.len() == nrows,
                widths@.len() == ncols,
                measured(rows, hs@, ws@, bs@, nrows as int, ncols as int),
                forall|q: int| 0 <= q < nrows ==> #[trigger] heights@[q] == row_height(rows[q], ncols as int),
                forall|k: int| 0 <= k < ncols ==> #[trigger] widths@[k] == col_width(rows, k, nrows as int),
                forall|q: int, k: int| 0 <= q < r && 0 <= k < ncols ==> #[trigger] cell_fits(rows, q, k),
                forall|k: int| 0 <= k < c ==> #[trigger] cell_fits(rows, r as int, k),
                rows == box_rows(shape@, iv),
                iv == strings_view(items@),
                items@.len() > 0,
                shape@.len() > 0,
            decreases ncols - c,
        {
            assert(hs@[r as int]@.len() == ncols && bs@[r as int]@.len() == ncols);
            assert(hs@[r as int]@[c as int] == pieces(rows[r as int][c as int]).len());
            assert(bs@[r as int]@[c as int] == max_bytes(pieces(rows[r as int][c as int])));
            assert(heights@[r as int] == row_height(rows[r as int], ncols as int));
            assert(widths@[c as int] == col_width(rows, c as int, nrows as int));
            let it_h = hs[r][c];
            let it_b = bs[r][c];
            let cw = widths[c];
            if it_b > cw || (it_h < heights[r] && cw < 2) {
                proof {
                    assert(!cell_fits(rows, r as int, c as int));
                    let it = rows[r as int][c as int];
                    assert(!grid_fits(rows));
                }
                return None;
            }
            c += 1;
        }
        r += 1;
    }
    proof {
        assert forall|q: int, k: int| 0 <= q < rows.len() && 0 <= k < rows[q].len() implies {
            let it = #[trigger] rows[q][k];
            &&& max_bytes(pieces(it)) <= col_width(rows, k, rows.len() as int)
            &&& (pieces(it).len() < row_height(rows[q], rows[q].len() as int) ==> 2 <= col_width(rows, k, rows.len() as int))
        } by {
            assert(cell_fits(rows, q, k));
        }
    }
    Some(br_box(shape, items))
}

} // verus!
