//! Numeric literals: which terms are numbers, and of which precision.

use vstd::prelude::*;

use crate::promote::{infer_kind_from_boxes, inferred_kind, ArrayKind};
use crate::text::{chars_of, slice_of, string_of};

verus! {

/// Whether `c` is a decimal digit.
pub open spec fn is_digit(c: char) -> bool {
    '0' <= c && c <= '9'
}

/// The value of the digit `c`.
pub open spec fn digit_value(c: char) -> nat {
    (c as nat - '0' as nat) as nat
}

/// Every character of `s` is a decimal digit.
pub open spec fn all_digits(s: Seq<char>) -> bool {
    forall|k: int| 0 <= k < s.len() ==> is_digit(#[trigger] s[k])
}

/// The characters a number term can hold (a numeric literal is cut out of a
/// sentence as a run of these and blanks).
pub open spec fn is_term_char(c: char) -> bool {
    is_digit(c) || c == '.' || c == '_' || c == 'e' || c == 'j' || c == 'r'
}

/// The value of a string of decimal digits, read most significant first.
pub open spec fn decimal_value(s: Seq<char>) -> nat
    decreases s.len(),
{
    if s.len() == 0 {
        0
    } else {
        decimal_value(s.drop_last()) * 10 + digit_value(s.last())
    }
}

/// The index of the first `c` in `s`, or `s.len()` when there is none.
pub open spec fn find_char(s: Seq<char>, c: char) -> nat
    decreases s.len(),
{
    if s.len() == 0 {
        0
    } else if s[0] == c {
        0
    } else {
        1 + find_char(s.drop_first(), c)
    }
}

/// `s` holds the character `c`.
pub open spec fn has_char(s: Seq<char>, c: char) -> bool {
    find_char(s, c) < s.len()
}

pub proof fn lemma_find_char(s: Seq<char>, c: char)
    ensures
        find_char(s, c) <= s.len(),
        find_char(s, c) < s.len() ==> s[find_char(s, c) as int] == c,
        forall|k: int| 0 <= k < find_char(s, c) ==> s[k] != c,
        has_char(s, c) <==> s.contains(c),
    decreases s.len(),
{
    if s.len() > 0 && s[0] != c {
        lemma_find_char(s.drop_first(), c);
        assert forall|k: int| 0 <= k < find_char(s, c) implies s[k] != c by {
            if k > 0 {
                assert(s[k] == s.drop_first()[k - 1]);
            }
        }
        if s.contains(c) {
            let w = choose|w: int| 0 <= w < s.len() && s[w] == c;
            assert(s.drop_first()[w - 1] == c);
        }
        if s.drop_first().contains(c) {
            let w = choose|w: int| 0 <= w < s.drop_first().len() && s.drop_first()[w] == c;
            assert(s[w + 1] == c);
        }
    }
    if s.len() > 0 && s[0] == c {
        assert(s.contains(c));
    }
}

/// The mantissa of a decimal float: digits with at most one point, and at
/// least one digit.
pub open spec fn mantissa_syntax(m: Seq<char>) -> bool {
    let d = find_char(m, '.');
    if d == m.len() {
        m.len() >= 1 && all_digits(m)
    } else {
        &&& all_digits(m.take(d as int))
        &&& all_digits(m.skip(d as int + 1))
        &&& m.len() >= 2
    }
}

/// Unsigned decimal float syntax, over the characters a number term can hold:
/// `Number ::= ( Digit+ | Digit+ '.' Digit* | Digit* '.' Digit+ ) ( 'e' Digit+ )?`.
/// This is the grammar the standard library's float parser documents, less
/// the signs and the spelt-out infinities and NaN, none of which a number term
/// can hold.
pub open spec fn float_syntax(s: Seq<char>) -> bool {
    let e = find_char(s, 'e');
    &&& mantissa_syntax(s.take(e as int))
    &&& (e == s.len() || (s.len() > e + 1 && all_digits(s.skip(e as int + 1))))
}

/// Unsigned big-integer syntax, over the characters a number term can hold:
/// a digit, then digits and underscores.
pub open spec fn bigint_syntax(s: Seq<char>) -> bool {
    &&& s.len() > 0
    &&& s[0] != '_'
    &&& forall|k: int| 0 <= k < s.len() ==> is_digit(#[trigger] s[k]) || s[k] == '_'
}

/// A leading `_` is J's minus sign: strip it before the magnitude is read.
pub open spec fn magnitude(s: Seq<char>) -> Seq<char> {
    if s.len() > 0 && s[0] == '_' {
        s.drop_first()
    } else {
        s
    }
}

/// `s` is negative in J's spelling.
pub open spec fn is_negative(s: Seq<char>) -> bool {
    s.len() > 0 && s[0] == '_'
}

/// The `i64` a term spells, when it is a whole number that fits.
pub open spec fn int_term_value(s: Seq<char>) -> Option<i64> {
    let m = magnitude(s);
    if m.len() > 0 && all_digits(m) && decimal_value(m) <= i64::MAX {
        if is_negative(s) {
            Some((-decimal_value(m)) as i64)
        } else {
            Some(decimal_value(m) as i64)
        }
    } else {
        None
    }
}

/// One term of a numeric literal, as scanned.  Whole numbers that fit an
/// `i64` are read; the other kinds keep the text of their parts, each of which
/// is known to be well formed.
#[derive(Clone, Debug, PartialEq, Eq)]
pub enum NumTerm {
    Bool(u8),
    Int(i64),
    ExtInt(Vec<char>),
    Rational(Vec<char>, Vec<char>),
    Float(Vec<char>),
    Complex(Vec<char>, Vec<char>),
}

/// The mathematical reading of a [`NumTerm`].
pub enum NumTermV {
    Bool(u8),
    Int(i64),
    ExtInt(Seq<char>),
    Rational(Seq<char>, Seq<char>),
    Float(Seq<char>),
    Complex(Seq<char>, Seq<char>),
}

impl View for NumTerm {
    type V = NumTermV;

    open spec fn view(&self) -> NumTermV {
        match self {
            NumTerm::Bool(b) => NumTermV::Bool(*b),
            NumTerm::Int(i) => NumTermV::Int(*i),
            NumTerm::ExtInt(s) => NumTermV::ExtInt(s@),
            NumTerm::Rational(n, d) => NumTermV::Rational(n@, d@),
            NumTerm::Float(s) => NumTermV::Float(s@),
            NumTerm::Complex(re, im) => NumTermV::Complex(re@, im@),
        }
    }
}

/// `s` spells zero: it holds no digit but `0`.
pub open spec fn spells_zero(s: Seq<char>) -> bool {
    forall|k: int| 0 <= k < s.len() ==> s[k] == '0' || s[k] == '_'
}

/// The value of a string of digits and `_` separators, the separators
/// skipped.
pub open spec fn separated_value(s: Seq<char>) -> nat
    decreases s.len(),
{
    if s.len() == 0 {
        0
    } else if s.last() == '_' {
        separated_value(s.drop_last())
    } else {
        separated_value(s.drop_last()) * 10 + digit_value(s.last())
    }
}

/// `s` is a number written the way `Display` writes a non-negative integer:
/// digits, with no leading zero but in `0` itself.
pub open spec fn canonical_decimal(s: Seq<char>) -> bool {
    &&& s.len() > 0
    &&& all_digits(s)
    &&& (s[0] == '0' ==> s.len() == 1)
}

/// `k` divides `m`.
pub open spec fn divides(k: int, m: int) -> bool {
    m % k == 0
}

/// `a` and `b` have no common divisor above one.
pub open spec fn coprime(a: int, b: int) -> bool {
    forall|k: int| #![trigger divides(k, a), divides(k, b)] 1 < k ==> !(divides(k, a) && divides(k, b))
}

/// The rational `n r d` in lowest terms with a positive denominator: the
/// decimal texts of its numerator and denominator.
pub uninterp spec fn lowest_terms(n: Seq<char>, d: Seq<char>) -> (Seq<char>, Seq<char>);

/// A rational in lowest terms brought to its lowest precision: a denominator
/// of one leaves an extended integer.
pub open spec fn demoted_rational(q: (Seq<char>, Seq<char>)) -> NumTermV {
    if q.1 == seq!['1'] {
        NumTermV::ExtInt(q.0)
    } else {
        NumTermV::Rational(q.0, q.1)
    }
}

/// What a single blank-free term of a numeric literal reads as, or `None`
/// when it is ill formed.  A `j` makes a complex number, else an `r` a
/// rational (in lowest terms, and an extended integer when its denominator
/// comes to one; a zero denominator is ill formed), else a `.` or an `e` a float; otherwise it is a whole number,
/// `0` and `1` being booleans, and one too large for an `i64` an extended
/// integer.
pub open spec fn num_term(t: Seq<char>) -> Option<NumTermV> {
    if has_char(t, 'j') {
        let k = find_char(t, 'j');
        let re = t.take(k as int);
        let im = t.skip(k as int + 1);
        if float_syntax(magnitude(re)) && float_syntax(magnitude(im)) {
            Some(NumTermV::Complex(re, im))
        } else {
            None
        }
    } else if has_char(t, 'r') {
        let k = find_char(t, 'r');
        let n = t.take(k as int);
        let d = t.skip(k as int + 1);
        if bigint_syntax(n) && bigint_syntax(d) && !spells_zero(d) {
            Some(demoted_rational(lowest_terms(n, d)))
        } else {
            None
        }
    } else if has_char(t, '.') || has_char(t, 'e') {
        if float_syntax(magnitude(t)) {
            Some(NumTermV::Float(t))
        } else {
            None
        }
    } else {
        match int_term_value(t) {
            Some(v) => if v == 0 || v == 1 {
                Some(NumTermV::Bool(v as u8))
            } else {
                Some(NumTermV::Int(v))
            },
            None => if bigint_syntax(magnitude(t)) {
                Some(NumTermV::ExtInt(t))
            } else {
                None
            },
        }
    }
}

/// `num::BigInt::from_str`, in radix 10: its source accepts an optional sign,
/// then a non-empty string that does not start with `_` and holds only digits
/// and `_` separators.  Over the characters a number term holds, none of which
/// is a sign, that is exactly [`bigint_syntax`].  The value parsed is not kept.
#[verifier::external_body]
fn bigint_parses(s: &str) -> (r: bool)
    requires
        forall|k: int| 0 <= k < s@.len() ==> is_term_char(#[trigger] s@[k]),
    ensures
        r == bigint_syntax(s@),
{
    s.parse::<num::BigInt>().is_ok()
}

pub(crate) fn find_char_exec(s: &[char], c: char) -> (r: usize)
    ensures
        r == find_char(s@, c),
{
    let mut i: usize = 0;
    assert(s@.skip(0) =~= s@);
    while i < s.len()
        invariant
            i <= s@.len(),
            find_char(s@, c) == i + find_char(s@.skip(i as int), c),
        decreases s@.len() - i,
    {
        if s[i] == c {
            return i;
        }
        assert(s@.skip(i as int).drop_first() =~= s@.skip(i + 1));
        i += 1;
    }
    i
}

fn all_digits_exec(s: &[char]) -> (r: bool)
    ensures
        r == all_digits(s@),
{
    let mut i: usize = 0;
    while i < s.len()
        invariant
            i <= s@.len(),
            all_digits(s@.take(i as int)),
        decreases s@.len() - i,
    {
        if !('0' <= s[i] && s[i] <= '9') {
            return false;
        }
        i += 1;
        assert(all_digits(s@.take(i as int))) by {
            assert forall|k: int| 0 <= k < i implies is_digit(#[trigger] s@.take(i as int)[k]) by {
                if k < i - 1 {
                    assert(s@.take(i as int)[k] == s@.take(i - 1)[k]);
                }
            }
        }
    }
    assert(s@.take(i as int) =~= s@);
    true
}

proof fn lemma_decimal_value_grows(s: Seq<char>, j: int)
    requires
        0 <= j <= s.len(),
    ensures
        decimal_value(s.take(j)) <= decimal_value(s),
    decreases s.len(),
{
    if j < s.len() {
        lemma_decimal_value_grows(s.drop_last(), j);
        assert(s.drop_last().take(j) =~= s.take(j));
    } else {
        assert(s.take(j) =~= s);
    }
}

/// The value of a non-empty string of digits, when it fits an `i64`.
fn decimal_i64(d: &[char]) -> (r: Option<i64>)
    ensures
        r == (if d@.len() > 0 && all_digits(d@) && decimal_value(d@) <= i64::MAX {
            Some(decimal_value(d@) as i64)
        } else {
            None::<i64>
        }),
{
    if d.len() == 0 {
        return None;
    }
    let mut acc: u64 = 0;
    let mut i: usize = 0;
    assert(d@.take(0) =~= Seq::<char>::empty());
    while i < d.len()
        invariant
            i <= d@.len(),
            acc == decimal_value(d@.take(i as int)),
            acc <= i64::MAX,
            all_digits(d@.take(i as int)),
        decreases d@.len() - i,
    {
        let c = d[i];
        if !('0' <= c && c <= '9') {
            assert(!is_digit(d@[i as int]));
            return None;
        }
        let dv = (c as u64) - ('0' as u64);
        assert(d@.take(i + 1).drop_last() =~= d@.take(i as int));
        assert(d@.take(i + 1).last() == c);
        assert(all_digits(d@.take(i + 1))) by {
            assert forall|k: int| 0 <= k < i + 1 implies is_digit(#[trigger] d@.take(i + 1)[k]) by {
                if k < i {
                    assert(d@.take(i + 1)[k] == d@.take(i as int)[k]);
                }
            }
        }
        if acc > (9223372036854775807u64 - dv) / 10 {
            assert(decimal_value(d@.take(i + 1)) > i64::MAX);
            proof {
                if all_digits(d@) {
                    lemma_decimal_value_grows(d@, i as int + 1);
                }
            }
            return None;
        }
        acc = acc * 10 + dv;
        i += 1;
    }
    assert(d@.take(i as int) =~= d@);
    Some(acc as i64)
}

/// `s` without J's leading minus sign.
fn magnitude_exec(s: &[char]) -> (v: Vec<char>)
    ensures
        v@ == magnitude(s@),
{
    if s.len() > 0 && s[0] == '_' {
        let v = slice_of(s, 1, s.len());
        assert(v@ =~= s@.drop_first());
        v
    } else {
        slice_of(s, 0, s.len())
    }
}

fn mantissa_syntax_exec(m: &[char]) -> (r: bool)
    ensures
        r == mantissa_syntax(m@),
{
    let d = find_char_exec(m, '.');
    proof {
        lemma_find_char(m@, '.');
    }
    if d == m.len() {
        m.len() >= 1 && all_digits_exec(m)
    } else {
        let front = slice_of(m, 0, d);
        let back = slice_of(m, d + 1, m.len());
        all_digits_exec(front.as_slice()) && all_digits_exec(back.as_slice()) && m.len() >= 2
    }
}

/// Whether the characters of `s` spell an unsigned decimal float.
fn float_syntax_exec(s: &[char]) -> (r: bool)
    ensures
        r == float_syntax(s@),
{
    let e = find_char_exec(s, 'e');
    proof {
        lemma_find_char(s@, 'e');
    }
    let m = slice_of(s, 0, e);
    if !mantissa_syntax_exec(m.as_slice()) {
        return false;
    }
    if e == s.len() {
        true
    } else {
        let x = slice_of(s, e + 1, s.len());
        s.len() > e + 1 && all_digits_exec(x.as_slice())
    }
}

fn bigint_syntax_exec(s: &[char]) -> (r: bool)
    requires
        forall|k: int| 0 <= k < s@.len() ==> is_term_char(#[trigger] s@[k]),
    ensures
        r == bigint_syntax(s@),
{
    let text = string_of(s);
    bigint_parses(text.as_str())
}

fn spells_zero_exec(s: &[char]) -> (r: bool)
    ensures
        r == spells_zero(s@),
{
    let mut i: usize = 0;
    while i < s.len()
        invariant
            i <= s@.len(),
            forall|k: int| 0 <= k < i ==> s@[k] == '0' || s@[k] == '_',
        decreases s@.len() - i,
    {
        if s[i] != '0' && s[i] != '_' {
            return false;
        }
        i += 1;
    }
    true
}

/// `num::BigRational::new` on the integers the two texts spell, with the
/// numerator and denominator of the result written back in decimal
/// (`Display` of `BigInt`).  `new` divides both by their greatest common
/// divisor and keeps the denominator positive; a fraction whose two parts
/// are equal it sets to one.  It panics on a zero denominator, which
/// `requires` leaves out.  The result is named, and what the source shows of
/// it is stated: two canonical decimals, the denominator positive, the
/// fraction equal to `n/d`, and in lowest terms.
#[verifier::external_body]
fn reduce_rational(n: &str, d: &str) -> (r: (String, String))
    requires
        bigint_syntax(n@),
        bigint_syntax(d@),
        !spells_zero(d@),
    ensures
        r@ == lowest_terms(n@, d@),
        n@ == d@ ==> r@ == (seq!['1'], seq!['1']),
        canonical_decimal(r.0@),
        canonical_decimal(r.1@),
        decimal_value(r.1@) > 0,
        separated_value(n@) * decimal_value(r.1@) == separated_value(d@) * decimal_value(r.0@),
        coprime(decimal_value(r.0@) as int, decimal_value(r.1@) as int),
{
    let q = num::BigRational::new(n.parse().expect("digits"), d.parse().expect("digits"));
    (q.numer().to_string(), q.denom().to_string())
}

/// Brings a rational in lowest terms to its lowest precision: a denominator
/// of one leaves the extended integer of its numerator.
pub fn demote_rational(numer: Vec<char>, denom: Vec<char>) -> (t: NumTerm)
    ensures
        t@ == demoted_rational((numer@, denom@)),
{
    if denom.len() == 1 && denom[0] == '1' {
        assert(denom@ =~= seq!['1']);
        NumTerm::ExtInt(numer)
    } else {
        assert(denom@ != seq!['1']) by {
            if denom@ == seq!['1'] {
                assert(denom@[0] == '1');
            }
        }
        NumTerm::Rational(numer, denom)
    }
}

/// What a single blank-free term of a numeric literal reads as.
pub fn scan_num_token(term: &[char]) -> (r: Option<NumTerm>)
    requires
        forall|k: int| 0 <= k < term@.len() ==> is_term_char(#[trigger] term@[k]),
    ensures
        r matches Some(t) ==> num_term(term@) == Some(t@),
        r is None ==> num_term(term@) is None,
{
    let n = term.len();
    let kj = find_char_exec(term, 'j');
    let kr = find_char_exec(term, 'r');
    let kp = find_char_exec(term, '.');
    let ke = find_char_exec(term, 'e');
    assert(term@.subrange(0, n as int) =~= term@);
    if kj < n {
        let re = slice_of(term, 0, kj);
        let im = slice_of(term, kj + 1, n);
        let mre = magnitude_exec(re.as_slice());
        let mim = magnitude_exec(im.as_slice());
        if float_syntax_exec(mre.as_slice()) && float_syntax_exec(mim.as_slice()) {
            Some(NumTerm::Complex(re, im))
        } else {
            None
        }
    } else if kr < n {
        let num = slice_of(term, 0, kr);
        let den = slice_of(term, kr + 1, n);
        if bigint_syntax_exec(num.as_slice()) && bigint_syntax_exec(den.as_slice())
            && !spells_zero_exec(den.as_slice()) {
            let tn = string_of(num.as_slice());
            let td = string_of(den.as_slice());
            let (qn, qd) = reduce_rational(tn.as_str(), td.as_str());
            Some(demote_rational(chars_of(qn.as_str()), chars_of(qd.as_str())))
        } else {
            None
        }
    } else if kp < n || ke < n {
        let m = magnitude_exec(term);
        if float_syntax_exec(m.as_slice()) {
            Some(NumTerm::Float(slice_of(term, 0, n)))
        } else {
            None
        }
    } else {
        let m = magnitude_exec(term);
        match decimal_i64(m.as_slice()) {
            Some(v) => {
                let v = if term.len() > 0 && term[0] == '_' {
                    -v
                } else {
                    v
                };
                assert(int_term_value(term@) == Some(v));
                if v == 0 || v == 1 {
                    Some(NumTerm::Bool(v as u8))
                } else {
                    Some(NumTerm::Int(v))
                }
            },
            None => {
                assert(int_term_value(term@) is None);
                if bigint_syntax_exec(m.as_slice()) {
                    Some(NumTerm::ExtInt(slice_of(term, 0, n)))
                } else {
                    None
                }
            },
        }
    }
}

fn copy_chars(v: &Vec<char>) -> (r: Vec<char>)
    ensures
        r@ == v@,
{
    let r = slice_of(v.as_slice(), 0, v.len());
    assert(v@.subrange(0, v@.len() as int) =~= v@);
    r
}

/// A copy of a term.
pub(crate) fn clone_term(t: &NumTerm) -> (r: NumTerm)
    ensures
        r@ == t@,
{
    match t {
        NumTerm::Bool(b) => NumTerm::Bool(*b),
        NumTerm::Int(i) => NumTerm::Int(*i),
        NumTerm::ExtInt(s) => NumTerm::ExtInt(copy_chars(s)),
        NumTerm::Rational(n, d) => NumTerm::Rational(copy_chars(n), copy_chars(d)),
        NumTerm::Float(s) => NumTerm::Float(copy_chars(s)),
        NumTerm::Complex(re, im) => NumTerm::Complex(copy_chars(re), copy_chars(im)),
    }
}

/// The kind of array a term makes on its own.
pub open spec fn term_kind(t: NumTermV) -> ArrayKind {
    match t {
        NumTermV::Bool(_) => ArrayKind::Bool,
        NumTermV::Int(_) => ArrayKind::Int,
        NumTermV::ExtInt(_) => ArrayKind::ExtInt,
        NumTermV::Rational(_, _) => ArrayKind::Rational,
        NumTermV::Float(_) => ArrayKind::Float,
        NumTermV::Complex(_, _) => ArrayKind::Complex,
    }
}

/// The kind of highest priority among the terms of a numeric literal, as
/// scanned: before a float or complex term that stands for a whole or a real
/// number is demoted (which is floating point, and done by the caller).
pub open spec fn undemoted_kind_of(ts: Seq<NumTermV>) -> ArrayKind {
    inferred_kind(ts.map_values(|t: NumTermV| term_kind(t)))
}

/// The kind of array a term makes on its own.
pub fn kind_of_term(t: &NumTerm) -> (k: ArrayKind)
    ensures
        k == term_kind(t@),
{
    match t {
        NumTerm::Bool(_) => ArrayKind::Bool,
        NumTerm::Int(_) => ArrayKind::Int,
        NumTerm::ExtInt(_) => ArrayKind::ExtInt,
        NumTerm::Rational(_, _) => ArrayKind::Rational,
        NumTerm::Float(_) => ArrayKind::Float,
        NumTerm::Complex(_, _) => ArrayKind::Complex,
    }
}

/// The kind of highest priority among the terms of a numeric literal as
/// scanned.  Booleans, integers, extended integers and rationals come out of
/// the scanner already at their lowest precision, so for a literal with no
/// float or complex term this is the kind of the array it makes.  Float and
/// complex terms are taken as they are written: bringing `1.0` down to an
/// integer or `1j0` down to a float is floating point, left to the caller.
pub fn kind_before_float_demotion(terms: &[NumTerm]) -> (k: ArrayKind)
    ensures
        k == undemoted_kind_of(terms@.map_values(|t: NumTerm| t@)),
{
    let ghost tv = terms@.map_values(|t: NumTerm| t@);
    let mut kinds: Vec<ArrayKind> = Vec::new();
    let mut i: usize = 0;
    while i < terms.len()
        invariant
            i <= terms@.len(),
            tv == terms@.map_values(|t: NumTerm| t@),
            kinds@ == tv.take(i as int).map_values(|t: NumTermV| term_kind(t)),
        decreases terms@.len() - i,
    {
        kinds.push(kind_of_term(&terms[i]));
        i += 1;
        assert(kinds@ =~= tv.take(i as int).map_values(|t: NumTermV| term_kind(t)));
    }
    assert(tv.take(i as int) =~= tv);
    infer_kind_from_boxes(kinds.as_slice())
}

} // verus!
