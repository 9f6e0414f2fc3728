//! Displaying arrays as J does: the cells of a table right-aligned in their
//! columns, rows of higher dimensions set apart by blank lines.

use vstd::prelude::*;

use crate::cells::{lemma_sizes, shape_size};
use crate::text::{chars_of, string_of};

verus! {

/// The product of a sequence of numbers.
pub open spec fn seq_product(s: Seq<int>) -> int
    decreases s.len(),
{
    if s.len() == 0 {
        1
    } else {
        seq_product(s.drop_last()) * s.last()
    }
}

/// The blank-line spacings for the dimensions `xs` (the shape, last
/// dimension first, without it): each dimension times the product of the
/// spacings found before it.
pub open spec fn spacing(xs: Seq<usize>) -> Seq<int>
    decreases xs.len(),
{
    if xs.len() == 0 {
        Seq::empty()
    } else {
        let acc = spacing(xs.drop_last());
        acc.push(xs.last() * seq_product(acc))
    }
}

/// The dimensions of `shape` that spacings are computed for: all but the
/// last, innermost first.
pub open spec fn spacing_dims(shape: Seq<usize>) -> Seq<usize> {
    if shape.len() == 0 {
        Seq::empty()
    } else {
        shape.reverse().skip(1)
    }
}

/// Every product computed on the way to the spacings fits a `usize`.
pub open spec fn spacing_fits(shape: Seq<usize>) -> bool {
    forall|i: int| 0 <= i <= spacing_dims(shape).len() ==> #[trigger] seq_product(spacing(spacing_dims(shape).take(i))) <= usize::MAX
}

pub proof fn lemma_spacing_len(xs: Seq<usize>)
    ensures
        spacing(xs).len() == xs.len(),
        seq_product(spacing(xs)) >= 0,
        forall|k: int| 0 <= k < xs.len() ==> #[trigger] spacing(xs)[k] >= 0,
    decreases xs.len(),
{
    if xs.len() > 0 {
        lemma_spacing_len(xs.drop_last());
        let acc = spacing(xs.drop_last());
        let x = xs.last() as int;
        let t = seq_product(acc);
        assert(x * t >= 0) by (nonlinear_arith)
            requires x >= 0, t >= 0;
        assert(t * (x * t) >= 0) by (nonlinear_arith)
            requires x >= 0, t >= 0;
        assert(acc.push(x * t).drop_last() =~= acc);
    }
}

/// How many rows apart the blank lines of each dimension come: for each
/// dimension but the last, innermost first, its length times the product of
/// the spacings before it.
pub fn compute_dimension_spacing(shape: &[usize]) -> (r: Vec<usize>)
    requires
        spacing_fits(shape@),
    ensures
        r@.map_values(|m: usize| m as int) == spacing(spacing_dims(shape@)),
{
    let ghost xs = spacing_dims(shape@);
    let mut acc: Vec<usize> = Vec::new();
    let mut t: usize = 1;
    let n = shape.len();
    if n == 0 {
        assert(xs =~= Seq::<usize>::empty());
        assert(acc@.map_values(|m: usize| m as int) =~= Seq::<int>::empty());
        return acc;
    }
    let mut j: usize = 0;
    assert(xs.take(0) =~= Seq::<usize>::empty());
    assert(acc@.map_values(|m: usize| m as int) =~= Seq::<int>::empty());
    while j + 1 < n
        invariant
            n == shape@.len(),
            n >= 1,
            xs == spacing_dims(shape@),
            xs.len() == n - 1,
            j + 1 <= n,
            spacing_fits(shape@),
            acc@.map_values(|m: usize| m as int) == spacing(xs.take(j as int)),
            t == seq_product(spacing(xs.take(j as int))),
        decreases n - j,
    {
        let x = shape[n - 2 - j];
        proof {
            assert(xs[j as int] == shape@[n - 2 - j]);
            assert(xs.take(j + 1).drop_last() =~= xs.take(j as int));
            assert(seq_product(spacing(xs.take(j + 1))) <= usize::MAX);
            lemma_spacing_len(xs.take(j as int));
            let tt = t as int;
            let xx = x as int;
            let acc_s = spacing(xs.take(j as int));
            assert(xs.take(j + 1).last() == x);
            assert(spacing(xs.take(j + 1)) == acc_s.push(xx * tt));
            assert(acc_s.push(xx * tt).drop_last() =~= acc_s);
            assert(seq_product(acc_s.push(xx * tt)) == tt * (xx * tt));
            assert(xx * tt <= tt * (xx * tt) || tt == 0) by (nonlinear_arith)
                requires tt >= 0, xx >= 0;
            assert(tt == 0 ==> xx * tt == 0) by (nonlinear_arith);
        }
        let m = x * t;
        let ghost before = acc@;
        acc.push(m);
        assert(acc@.map_values(|m: usize| m as int) =~= before.map_values(|m: usize| m as int).push(m as int));
        t = t * m;
        j += 1;
    }
    assert(xs.take(j as int) =~= xs);
    acc
}

/// The blank lines after row `rn`: one for each spacing that the number of
/// rows so far is a multiple of.
pub open spec fn markings(rn: int, multiples: Seq<usize>) -> Seq<char>
    decreases multiples.len(),
{
    if multiples.len() == 0 {
        Seq::empty()
    } else {
        markings(rn, multiples.drop_last()) + if (rn + 1) % (multiples.last() as int) == 0 {
            seq!['\n']
        } else {
            Seq::empty()
        }
    }
}

/// The blank lines that follow row `rn` of a display.
pub fn print_dimension_markings(rn: usize, multiples: &[usize]) -> (s: String)
    requires
        rn < usize::MAX,
        forall|k: int| 0 <= k < multiples@.len() ==> #[trigger] multiples@[k] > 0,
    ensures
        s@ == markings(rn as int, multiples@),
{
    let mut out: Vec<char> = Vec::new();
    let mut i: usize = 0;
    assert(multiples@.take(0) =~= Seq::<usize>::empty());
    while i < multiples.len()
        invariant
            rn < usize::MAX,
            i <= multiples@.len(),
            forall|k: int| 0 <= k < multiples@.len() ==> #[trigger] multiples@[k] > 0,
            out@ == markings(rn as int, multiples@.take(i as int)),
        decreases multiples@.len() - i,
    {
        let m = multiples[i];
        assert(multiples@.take(i + 1).drop_last() =~= multiples@.take(i as int));
        let ghost before = out@;
        if (rn + 1) % m == 0 {
            out.push('\n');
        }
        i += 1;
        assert(out@ =~= markings(rn as int, multiples@.take(i as int)));
    }
    assert(multiples@.take(multiples@.len() as int) =~= multiples@);
    string_of(out.as_slice())
}

/// The character for a decimal digit.
pub open spec fn digit_char(d: int) -> char {
    (d + ('0' as int)) as char
}

/// The decimal digits of `n`, most significant first.
pub open spec fn decimal_digits(n: nat) -> Seq<char>
    decreases n,
{
    if n < 10 {
        seq![digit_char(n as int)]
    } else {
        decimal_digits(n / 10).push(digit_char((n % 10) as int))
    }
}

/// An integer as J writes it: `_` for its minus sign.
pub open spec fn j_int(v: int) -> Seq<char> {
    if v < 0 {
        seq!['_'] + decimal_digits((-v) as nat)
    } else {
        decimal_digits(v as nat)
    }
}

fn digit_exec(d: u64) -> (c: char)
    requires
        d < 10,
    ensures
        c == digit_char(d as int),
{
    if d == 0 {
        '0'
    } else if d == 1 {
        '1'
    } else if d == 2 {
        '2'
    } else if d == 3 {
        '3'
    } else if d == 4 {
        '4'
    } else if d == 5 {
        '5'
    } else if d == 6 {
        '6'
    } else if d == 7 {
        '7'
    } else if d == 8 {
        '8'
    } else {
        '9'
    }
}

fn push_decimal(out: &mut Vec<char>, n: u64)
    ensures
        final(out)@ == old(out)@ + decimal_digits(n as nat),
{
    let ghost init = old(out)@;
    let mut q = n;
    let mut rev: Vec<char> = Vec::new();
    while q >= 10
        invariant
            decimal_digits(n as nat) == decimal_digits(q as nat) + rev@.reverse(),
        decreases q,
    {
        let ghost before = rev@;
        let d = q % 10;
        rev.push(digit_exec(d));
        assert(rev@.reverse() =~= seq![digit_char(d as int)] + before.reverse());
        assert(decimal_digits(q as nat) == decimal_digits((q / 10) as nat).push(digit_char(d as int)));
        assert(decimal_digits((q / 10) as nat).push(digit_char(d as int)) + before.reverse()
            =~= decimal_digits((q / 10) as nat) + (seq![digit_char(d as int)] + before.reverse()));
        q = q / 10;
    }
    out.push(digit_exec(q));
    let mut k = rev.len();
    let ghost head = out@;
    assert(rev@.reverse().take(0) =~= Seq::<char>::empty());
    while k > 0
        invariant
            k <= rev@.len(),
            head == init + decimal_digits(q as nat),
            out@ == head + rev@.reverse().take(rev@.len() - k),
        decreases k,
    {
        k -= 1;
        out.push(rev[k]);
        assert(rev@.reverse()[rev@.len() - k - 1] == rev@[k as int]);
        assert(out@ =~= head + rev@.reverse().take(rev@.len() - k));
    }
    assert(rev@.reverse().take(rev@.len() as int) =~= rev@.reverse());
    assert(init + decimal_digits(q as nat) + rev@.reverse() =~= init + (decimal_digits(q as nat) + rev@.reverse()));
}

/// An integer as J displays it, with `_` for its minus sign.
pub fn j_format_i64(v: i64) -> (s: String)
    requires
        v > i64::MIN,
    ensures
        s@ == j_int(v as int),
{
    let mut out: Vec<char> = Vec::new();
    if v < 0 {
        out.push('_');
        let m = (-v) as u64;
        push_decimal(&mut out, m);
        assert(out@ =~= seq!['_'] + decimal_digits(m as nat));
    } else {
        push_decimal(&mut out, v as u64);
        assert(out@ =~= decimal_digits(v as nat));
    }
    string_of(out.as_slice())
}

/// A boolean as J displays it.
pub fn j_format_u8(v: u8) -> (s: String)
    ensures
        s@ == decimal_digits(v as nat),
{
    let mut out: Vec<char> = Vec::new();
    push_decimal(&mut out, v as u64);
    assert(out@ =~= decimal_digits(v as nat));
    string_of(out.as_slice())
}

/// `n` spaces.
pub open spec fn spaces(n: int) -> Seq<char> {
    Seq::new(n as nat, |i: int| ' ')
}

/// The greater of each pair of widths, as far as both lists go.
pub open spec fn zip_max(a: Seq<usize>, b: Seq<usize>) -> Seq<usize> {
    Seq::new(
        if a.len() < b.len() { a.len() } else { b.len() },
        |i: int| if a[i] < b[i] { b[i] } else { a[i] },
    )
}

/// The width of each column: the widest of its cells, over the rows.
pub open spec fn col_widths(ws: Seq<Seq<usize>>) -> Seq<usize>
    decreases ws.len(),
{
    if ws.len() == 0 {
        Seq::empty()
    } else if ws.len() == 1 {
        ws[0]
    } else {
        zip_max(col_widths(ws.drop_last()), ws.last())
    }
}

pub proof fn lemma_col_widths(ws: Seq<Seq<usize>>, r: int, c: int)
    requires
        0 <= r < ws.len(),
        0 <= c < col_widths(ws).len(),
    ensures
        c < ws[r].len(),
        ws[r][c] <= col_widths(ws)[c],
    decreases ws.len(),
{
    if ws.len() > 1 {
        let init = ws.drop_last();
        if c < col_widths(init).len() && r < ws.len() - 1 {
            lemma_col_widths(init, r, c);
        } else if r < ws.len() - 1 {
            lemma_col_widths(init, r, c);
        }
    }
}

/// One cell of a row: padded on the left to its column's width, and set
/// off from the cell before it by a space.
pub open spec fn cell_text(item: Seq<char>, w: int, target: int, first: bool) -> Seq<char> {
    spaces(target - w) + (if first { Seq::<char>::empty() } else { seq![' '] }) + item
}

/// The first `n` cells of a row.
pub open spec fn row_text(row: Seq<Seq<char>>, ws: Seq<usize>, widths: Seq<usize>, n: int) -> Seq<char>
    decreases n,
{
    if n <= 0 {
        Seq::empty()
    } else {
        row_text(row, ws, widths, n - 1) + cell_text(row[n - 1], ws[n - 1] as int, widths[n - 1] as int, n - 1 == 0)
    }
}

/// The number of cells of a row that are shown: as many as there are both
/// cells and columns.
pub open spec fn shown(row_len: int, widths: Seq<usize>) -> int {
    if row_len < widths.len() {
        row_len
    } else {
        widths.len() as int
    }
}

/// The first `n` rows of a table, each ended by a newline and followed by
/// the blank lines of the dimensions it ends, but for the last row of all.
pub open spec fn table_text(rows: Seq<Seq<Seq<char>>>, ws: Seq<Seq<usize>>, multiples: Seq<usize>, n: int) -> Seq<char>
    decreases n,
{
    if n <= 0 {
        Seq::empty()
    } else {
        let widths = col_widths(ws);
        let r = n - 1;
        table_text(rows, ws, multiples, n - 1) + row_text(rows[r], ws[r], widths, shown(rows[r].len() as int, widths))
            + seq!['\n'] + if r == rows.len() - 1 {
            Seq::<char>::empty()
        } else {
            markings(r, multiples)
        }
    }
}

pub open spec fn strings_view(v: Seq<String>) -> Seq<Seq<char>> {
    v.map_values(|s: String| s@)
}

pub open spec fn table_view(rows: Seq<Vec<String>>) -> Seq<Seq<Seq<char>>> {
    rows.map_values(|r: Vec<String>| strings_view(r@))
}

pub open spec fn widths_view(ws: Seq<Vec<usize>>) -> Seq<Seq<usize>> {
    ws.map_values(|r: Vec<usize>| r@)
}

fn push_str_chars(out: &mut Vec<char>, s: &String)
    ensures
        final(out)@ == old(out)@ + s@,
{
    let cs = chars_of(s.as_str());
    let ghost init = old(out)@;
    let mut i: usize = 0;
    while i < cs.len()
        invariant
            i <= cs@.len(),
            cs@ == s@,
            out@ == init + cs@.take(i as int),
        decreases cs@.len() - i,
    {
        out.push(cs[i]);
        i += 1;
        assert(out@ =~= init + cs@.take(i as int));
    }
    assert(cs@.take(cs@.len() as int) =~= cs@);
}

fn column_widths(ws: &Vec<Vec<usize>>) -> (widths: Vec<usize>)
    requires
        ws@.len() > 0,
    ensures
        widths@ == col_widths(widths_view(ws@)),
{
    let ghost wv = widths_view(ws@);
    let mut widths: Vec<usize> = Vec::new();
    let mut k: usize = 0;
    let first = &ws[0];
    while k < first.len()
        invariant
            *first == ws@[0],
            k <= ws@[0]@.len(),
            wv == widths_view(ws@),
            widths@ == ws@[0]@.take(k as int),
        decreases ws@[0]@.len() - k,
    {
        widths.push(first[k]);
        k += 1;
        assert(widths@ =~= ws@[0]@.take(k as int));
    }
    assert(ws@[0]@.take(ws@[0]@.len() as int) =~= ws@[0]@);
    assert(wv.take(1) =~= seq![wv[0]]);
    let mut r: usize = 1;
    while r < ws.len()
        invariant
            1 <= r <= ws@.len(),
            wv == widths_view(ws@),
            widths@ == col_widths(wv.take(r as int)),
        decreases ws@.len() - r,
    {
        let row = &ws[r];
        let n = if widths.len() < row.len() { widths.len() } else { row.len() };
        let mut next: Vec<usize> = Vec::new();
        let mut c: usize = 0;
        while c < n
            invariant
                c <= n,
                n <= widths@.len(),
                n <= row@.len(),
                forall|j: int| 0 <= j < c ==> next@[j] == (if widths@[j] < row@[j] { row@[j] } else { widths@[j] }),
                next@.len() == c,
            decreases n - c,
        {
            let a = widths[c];
            let b = row[c];
            next.push(if a < b { b } else { a });
            c += 1;
        }
        assert(wv.take(r + 1).drop_last() =~= wv.take(r as int));
        assert(wv.take(r + 1).last() == row@);
        assert(next@ =~= zip_max(widths@, row@));
        widths = next;
        r += 1;
    }
    assert(wv.take(ws@.len() as int) =~= wv);
    widths
}

/// Lays out a table of formatted cells, given the display width of each:
/// columns right-aligned to their widest cell and separated by a space, each
/// row ended by a newline, and after each row but the last the blank lines
/// of the dimensions it ends.
pub fn br_layout(rows: &Vec<Vec<String>>, ws: &Vec<Vec<usize>>, multiples: &[usize]) -> (s: String)
    requires
        rows@.len() == ws@.len(),
        rows@.len() > 0,
        rows@.len() < usize::MAX,
        forall|r: int| 0 <= r < rows@.len() ==> #[trigger] ws@[r]@.len() == rows@[r]@.len(),
        forall|k: int| 0 <= k < multiples@.len() ==> #[trigger] multiples@[k] > 0,
    ensures
        s@ == table_text(table_view(rows@), widths_view(ws@), multiples@, rows@.len() as int),
{
    let ghost tv = table_view(rows@);
    let ghost wv = widths_view(ws@);
    let widths = column_widths(ws);
    let mut out: Vec<char> = Vec::new();
    let mut r: usize = 0;
    while r < rows.len()
        invariant
            r <= rows@.len(),
            rows@.len() == ws@.len(),
            rows@.len() < usize::MAX,
            tv == table_view(rows@),
            wv == widths_view(ws@),
            widths@ == col_widths(wv),
            forall|r: int| 0 <= r < rows@.len() ==> #[trigger] ws@[r]@.len() == rows@[r]@.len(),
            forall|k: int| 0 <= k < multiples@.len() ==> #[trigger] multiples@[k] > 0,
            out@ == table_text(tv, wv, multiples@, r as int),
        decreases rows@.len() - r,
    {
        let row = &rows[r];
        let rw = &ws[r];
        assert(tv[r as int] == strings_view(row@));
        assert(wv[r as int] == rw@);
        let n = if row.len() < widths.len() { row.len() } else { widths.len() };
        let ghost head = out@;
        let mut c: usize = 0;
        while c < n
            invariant
                c <= n,
                n == shown(row@.len() as int, widths@),
                n <= row@.len(),
                n <= widths@.len(),
                rw@.len() == row@.len(),
                widths@ == col_widths(wv),
                r < wv.len(),
                wv[r as int] == rw@,
                tv[r as int] == strings_view(row@),
                out@ == head + row_text(tv[r as int], rw@, widths@, c as int),
            decreases n - c,
        {
            proof {
                lemma_col_widths(wv, r as int, c as int);
            }
            let target = widths[c];
            let w = rw[c];
            let ghost before = out@;
            let mut k: usize = 0;
            while k < target - w
                invariant
                    k <= target - w,
                    out@ == before + spaces(k as int),
                decreases target - w - k,
            {
                out.push(' ');
                k += 1;
                assert(out@ =~= before + spaces(k as int));
            }
            if c != 0 {
                out.push(' ');
            }
            let ghost mid = out@;
            push_str_chars(&mut out, &row[c]);
            assert(out@ =~= before + cell_text(row@[c as int]@, w as int, target as int, c == 0));
            c += 1;
        }
        out.push('\n');
        if r + 1 != rows.len() {
            let m = print_dimension_markings(r, multiples);
            push_str_chars(&mut out, &m);
        }
        r += 1;
        assert(out@ =~= table_text(tv, wv, multiples@, r as int));
    }
    string_of(out.as_slice())
}

/// The number of columns a terminal gives a string, as the unicode-width
/// crate reckons it.
pub uninterp spec fn str_width(s: Seq<char>) -> nat;

/// `UnicodeWidthStr::width` of unicode-width: the displayed width of the
/// string in columns.  The contract names the result and says nothing of how
/// the crate's tables reckon it.
#[verifier::external_body]
pub(crate) fn width(s: &str) -> (w: usize)
    ensures
        w == str_width(s@),
{
    unicode_width::UnicodeWidthStr::width(s)
}

/// The most rows, and the most cells of a row, that a display shows.
pub open spec fn display_limit() -> int {
    128
}

/// The rows of an array shown in a display: the first `nrows` rows of
/// `row_len` items each, of which the first `ncols` are shown.
pub open spec fn item_rows(items: Seq<Seq<char>>, row_len: int, nrows: int, ncols: int) -> Seq<Seq<Seq<char>>> {
    Seq::new(nrows as nat, |r: int| Seq::new(ncols as nat, |c: int| items[r * row_len + c]))
}

/// The display width of each cell of each row.
pub open spec fn rows_widths(rows: Seq<Seq<Seq<char>>>) -> Seq<Seq<usize>> {
    rows.map_values(|row: Seq<Seq<char>>| row.map_values(|it: Seq<char>| str_width(it) as usize))
}

/// How J displays an array of the given shape whose items, in row-major
/// order, are formatted as `items`: an empty list as an empty line, an
/// empty table as nothing, an atom on a line of its own, and anything else
/// as a table of its rows (at most the first 128 rows, and 128 cells of
/// each), blank lines marking off the rows of each higher dimension.
pub open spec fn br_spec(shape: Seq<usize>, items: Seq<Seq<char>>) -> Seq<char> {
    if items.len() == 0 {
        if shape.len() == 1 {
            seq!['\n']
        } else {
            Seq::empty()
        }
    } else if shape.len() == 0 {
        items[0] + seq!['\n']
    } else {
        let row_len = shape.last() as int;
        let total = (items.len() as int) / row_len;
        let nrows = if total < display_limit() { total } else { display_limit() };
        let ncols = if row_len < display_limit() { row_len } else { display_limit() };
        let rows = item_rows(items, row_len, nrows, ncols);
        table_text(
            rows,
            rows_widths(rows),
            spacing(spacing_dims(shape)).map_values(|m: int| m as usize),
            nrows,
        )
    }
}

pub proof fn lemma_spacing_positive(xs: Seq<usize>)
    requires
        forall|k: int| 0 <= k < xs.len() ==> #[trigger] xs[k] >= 1,
    ensures
        seq_product(spacing(xs)) >= 1,
        forall|k: int| 0 <= k < spacing(xs).len() ==> #[trigger] spacing(xs)[k] >= 1,
    decreases xs.len(),
{
    lemma_spacing_len(xs);
    if xs.len() > 0 {
        let init = xs.drop_last();
        assert forall|k: int| 0 <= k < init.len() implies #[trigger] init[k] >= 1 by {
            assert(init[k] == xs[k]);
        }
        lemma_spacing_positive(init);
        let acc = spacing(init);
        let x = xs.last() as int;
        let t = seq_product(acc);
        assert(x * t >= 1) by (nonlinear_arith)
            requires x >= 1, t >= 1;
        assert(t * (x * t) >= 1) by (nonlinear_arith)
            requires x * t >= 1, t >= 1;
        assert(acc.push(x * t).drop_last() =~= acc);
        assert forall|k: int| 0 <= k < spacing(xs).len() implies #[trigger] spacing(xs)[k] >= 1 by {
            if k < acc.len() {
                assert(spacing(xs)[k] == acc[k]);
            }
        }
    }
}

/// Displays an array of the given shape whose items, in row-major order,
/// have been formatted as `items`.
pub fn br(shape: &[usize], items: &Vec<String>) -> (s: String)
    requires
        items@.len() == shape_size(shape@),
        spacing_fits(shape@),
    ensures
        s@ == br_spec(shape@, strings_view(items@)),
{
    let ghost iv = strings_view(items@);
    if items.len() == 0 {
        let mut out: Vec<char> = Vec::new();
        if shape.len() == 1 {
            out.push('\n');
        }
        assert(out@ =~= br_spec(shape@, iv));
        return string_of(out.as_slice());
    }
    if shape.len() == 0 {
        let mut out: Vec<char> = Vec::new();
        push_str_chars(&mut out, &items[0]);
        out.push('\n');
        assert(out@ =~= br_spec(shape@, iv));
        return string_of(out.as_slice());
    }
    proof {
        lemma_sizes(shape@);
        if exists|k: int| 0 <= k < shape@.len() && shape@[k] == 0 {
            assert(false);
        }
        lemma_size_last(shape@);
    }
    let row_len = shape[shape.len() - 1];
    let total = items.len() / row_len;
    let nrows = if total < 128 { total } else { 128 };
    let ncols = if row_len < 128 { row_len } else { 128 };
    let ghost rows_s = item_rows(iv, row_len as int, nrows as int, ncols as int);
    let mut rows: Vec<Vec<String>> = Vec::new();
    let mut ws: Vec<Vec<usize>> = Vec::new();
    let ilen = items.len();
    let mut r: usize = 0;
    while r < nrows
        invariant
            ilen == items@.len(),
            r <= nrows,
            nrows <= total,
            total == (items@.len() as int) / (row_len as int),
            row_len >= 1,
            ncols <= row_len,
            iv == strings_view(items@),
            rows_s == item_rows(iv, row_len as int, nrows as int, ncols as int),
            table_view(rows@) == rows_s.take(r as int),
            widths_view(ws@) == rows_widths(rows_s.take(r as int)),
            rows@.len() == r,
            ws@.len() == r,
            forall|j: int| 0 <= j < r ==> #[trigger] ws@[j]@.len() == rows@[j]@.len(),
        decreases nrows - r,
    {
        let mut row: Vec<String> = Vec::new();
        let mut rw: Vec<usize> = Vec::new();
        let mut c: usize = 0;
        assert(r * row_len + row_len <= items@.len()) by (nonlinear_arith)
            requires r < total, total == (items@.len() as int) / (row_len as int), row_len >= 1;
        let base = r * row_len;
        while c < ncols
            invariant
                ilen == items@.len(),
                c <= ncols,
                ncols <= row_len,
                base == r * row_len,
                base + row_len <= items@.len(),
                r < nrows,
                iv == strings_view(items@),
                rows_s == item_rows(iv, row_len as int, nrows as int, ncols as int),
                strings_view(row@) == rows_s[r as int].take(c as int),
                rw@ == rows_s[r as int].take(c as int).map_values(|it: Seq<char>| str_width(it) as usize),
                row@.len() == c,
                rw@.len() == c,
            decreases ncols - c,
        {
            let it = items[base + c].clone();
            let w = width(it.as_str());
            let ghost prev_row = row@;
            let ghost prev_rw = rw@;
            row.push(it);
            rw.push(w);
            c += 1;
            assert(strings_view(row@) =~= rows_s[r as int].take(c as int));
            assert(rw@ =~= rows_s[r as int].take(c as int).map_values(|it: Seq<char>| str_width(it) as usize));
        }
        assert(rows_s[r as int].take(ncols as int) =~= rows_s[r as int]);
        assert(rw@ =~= rows_s[r as int].map_values(|it: Seq<char>| str_width(it) as usize));
        let ghost prev_rows = rows@;
        let ghost prev_ws = ws@;
        rows.push(row);
        ws.push(rw);
        r += 1;
        assert(table_view(rows@) =~= rows_s.take(r as int));
        assert(widths_view(ws@) =~= widths_view(prev_ws).push(ws@[r - 1]@));
        assert(rows_s.take(r as int) =~= rows_s.take(r - 1).push(rows_s[r - 1]));
        assert(rows_widths(rows_s.take(r as int)) =~= rows_widths(rows_s.take(r - 1)).push(
            rows_s[r - 1].map_values(|it: Seq<char>| str_width(it) as usize),
        ));
        assert(widths_view(ws@) =~= rows_widths(rows_s.take(r as int)));
        assert forall|j: int| 0 <= j < r implies #[trigger] ws@[j]@.len() == rows@[j]@.len() by {
            if j < r - 1 {
                assert(ws@[j] == prev_ws[j] && rows@[j] == prev_rows[j]);
            }
        }
    }
    assert(rows_s.take(nrows as int) =~= rows_s);
    let multiples = compute_dimension_spacing(shape);
    proof {
        let xs = spacing_dims(shape@);
        assert forall|k: int| 0 <= k < xs.len() implies #[trigger] xs[k] >= 1 by {
            assert(xs[k] == shape@[shape@.len() - 2 - k]);
            if shape@[shape@.len() - 2 - k] == 0 {
                assert(exists|j: int| 0 <= j < shape@.len() && shape@[j] == 0);
            }
        }
        lemma_spacing_positive(xs);
        lemma_spacing_len(xs);
        assert(multiples@.map_values(|m: usize| m as int) == spacing(xs));
        assert forall|k: int| 0 <= k < multiples@.len() implies #[trigger] multiples@[k] > 0 by {
            assert(multiples@.map_values(|m: usize| m as int)[k] == multiples@[k] as int);
        }
        assert(multiples@ =~= spacing(xs).map_values(|m: int| m as usize));
    }
    assert(nrows >= 1) by (nonlinear_arith)
        requires total == (items@.len() as int) / (row_len as int), items@.len() >= row_len, row_len >= 1, nrows == (if total < 128 { total } else { 128 });
    br_layout(&rows, &ws, multiples.as_slice())
}

/// `s` without its NUL characters.
pub open spec fn drop_nuls(s: Seq<char>) -> Seq<char>
    decreases s.len(),
{
    if s.len() == 0 {
        s
    } else if s.last() == '\0' {
        drop_nuls(s.drop_last())
    } else {
        drop_nuls(s.drop_last()).push(s.last())
    }
}

/// The first `n` rows of a character table: the first `ncols` characters of
/// each row of `row_len`, NULs left out, each row ended by a newline and
/// followed by the blank lines of the dimensions it ends, but for the last.
pub open spec fn char_table(chars: Seq<char>, row_len: int, ncols: int, nrows: int, multiples: Seq<usize>, n: int) -> Seq<char>
    decreases n,
{
    if n <= 0 {
        Seq::empty()
    } else {
        let r = n - 1;
        char_table(chars, row_len, ncols, nrows, multiples, n - 1) + drop_nuls(chars.subrange(r * row_len, r * row_len + ncols))
            + seq!['\n'] + if r == nrows - 1 {
            Seq::<char>::empty()
        } else {
            markings(r, multiples)
        }
    }
}

/// How J displays a character array of the given shape: as for other
/// arrays, an empty list as an empty line, an empty table as nothing and an
/// atom on a line of its own; otherwise each row (at most the first 128, and
/// 128 characters of each) on a line of its own, with no space between the
/// characters and NULs not shown, blank lines marking off higher dimensions.
pub open spec fn br_char_spec(shape: Seq<usize>, chars: Seq<char>) -> Seq<char> {
    if chars.len() == 0 {
        if shape.len() == 1 {
            seq!['\n']
        } else {
            Seq::empty()
        }
    } else if shape.len() == 0 {
        seq![chars[0], '\n']
    } else {
        let row_len = shape.last() as int;
        let total = (chars.len() as int) / row_len;
        let nrows = if total < display_limit() { total } else { display_limit() };
        let ncols = if row_len < display_limit() { row_len } else { display_limit() };
        char_table(chars, row_len, ncols, nrows, spacing(spacing_dims(shape)).map_values(|m: int| m as usize), nrows)
    }
}

/// Displays a character array of the given shape whose characters, in
/// row-major order, are `chars`.
pub fn br_char(shape: &[usize], chars: &[char]) -> (s: String)
    requires
        chars@.len() == shape_size(shape@),
        spacing_fits(shape@),
    ensures
        s@ == br_char_spec(shape@, chars@),
{
    let mut out: Vec<char> = Vec::new();
    if chars.len() == 0 {
        if shape.len() == 1 {
            out.push('\n');
        }
        assert(out@ =~= br_char_spec(shape@, chars@));
        return string_of(out.as_slice());
    }
    if shape.len() == 0 {
        out.push(chars[0]);
        out.push('\n');
        assert(out@ =~= br_char_spec(shape@, chars@));
        return string_of(out.as_slice());
    }
    proof {
        lemma_sizes(shape@);
        if exists|k: int| 0 <= k < shape@.len() && shape@[k] == 0 {
            assert(false);
        }
        lemma_size_last(shape@);
    }
    let row_len = shape[shape.len() - 1];
    let total = chars.len() / row_len;
    let nrows = if total < 128 { total } else { 128 };
    let ncols = if row_len < 128 { row_len } else { 128 };
    let multiples = compute_dimension_spacing(shape);
    let ghost mv = spacing(spacing_dims(shape@)).map_values(|m: int| m as usize);
    proof {
        let xs = spacing_dims(shape@);
        assert forall|k: int| 0 <= k < xs.len() implies #[trigger] xs[k] >= 1 by {
            assert(xs[k] == shape@[shape@.len() - 2 - k]);
            if shape@[shape@.len() - 2 - k] == 0 {
                assert(exists|j: int| 0 <= j < shape@.len() && shape@[j] == 0);
            }
        }
        lemma_spacing_positive(xs);
        lemma_spacing_len(xs);
        assert forall|k: int| 0 <= k < multiples@.len() implies #[trigger] multiples@[k] > 0 by {
            assert(multiples@.map_values(|m: usize| m as int)[k] == multiples@[k] as int);
        }
        assert(multiples@ =~= mv);
    }
    let clen = chars.len();
    let mut r: usize = 0;
    while r < nrows
        invariant
            clen == chars@.len(),
            r <= nrows,
            nrows <= 128,
            nrows <= total,
            total == (chars@.len() as int) / (row_len as int),
            row_len >= 1,
            ncols <= row_len,
            multiples@ == mv,
            forall|k: int| 0 <= k < multiples@.len() ==> #[trigger] multiples@[k] > 0,
            out@ == char_table(chars@, row_len as int, ncols as int, nrows as int, mv, r as int),
        decreases nrows - r,
    {
        assert(r * row_len + row_len <= chars@.len()) by (nonlinear_arith)
            requires r < total, total == (chars@.len() as int) / (row_len as int), row_len >= 1;
        let base = r * row_len;
        let ghost head = out@;
        let mut c: usize = 0;
        assert(chars@.subrange(base as int, base as int) =~= Seq::<char>::empty());
        while c < ncols
            invariant
                clen == chars@.len(),
                c <= ncols,
                ncols <= row_len,
                base + row_len <= chars@.len(),
                out@ == head + drop_nuls(chars@.subrange(base as int, base + c)),
            decreases ncols - c,
        {
            let ch = chars[base + c];
            assert(chars@.subrange(base as int, base + c + 1).drop_last() =~= chars@.subrange(base as int, base + c));
            if ch != '\0' {
                out.push(ch);
            }
            c += 1;
        }
        out.push('\n');
        if r + 1 != nrows {
            let m = print_dimension_markings(r, multiples.as_slice());
            push_str_chars(&mut out, &m);
        }
        r += 1;
        assert(out@ =~= char_table(chars@, row_len as int, ncols as int, nrows as int, mv, r as int));
    }
    string_of(out.as_slice())
}

pub proof fn lemma_size_last(shape: Seq<usize>)
    requires
        shape.len() > 0,
        shape.last() >= 1,
        shape_size(shape) >= 1,
    ensures
        shape_size(shape) >= shape.last(),
        shape_size(shape) % (shape.last() as int) == 0,
{
    lemma_sizes(shape.drop_last());
    let a = shape_size(shape.drop_last());
    let b = shape.last() as int;
    assert(a >= 1) by (nonlinear_arith)
        requires a * b >= 1, a >= 0, b >= 1;
    assert(a * b >= b) by (nonlinear_arith)
        requires a >= 1, b >= 1;
    assert((a * b) % b == 0) by (nonlinear_arith)
        requires b >= 1;
}

} // verus!
