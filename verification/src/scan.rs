//! Cutting a J sentence into words.

use vstd::prelude::*;

use crate::number::{is_digit, is_term_char, num_term, scan_num_token, NumTerm, NumTermV};
use crate::primitives::{
    adverb_named, conjunction_named, is_noun_token, lookup_adverb, lookup_conjunction,
    lookup_verb, noun_tokens, verb_named,
};
use crate::text::{chars_of, same_chars, slice_of, string_of};
use crate::words::{Literal, LiteralV, Word, WordV};

verus! {

/// Why a sentence could not be cut into words.
#[derive(Clone, Copy, Debug, PartialEq, Eq)]
pub enum ScanError {
    /// A quote with nothing after it.
    EmptyLiteralString,
    /// A string still open at the end of a line.
    OpenQuote,
    /// Symbols that spell no primitive.
    InvalidPrimitive,
    /// A numeric literal with an ill-formed term.
    IllFormedNumber,
}

/// The message of a scanning error.
pub open spec fn scan_message(e: ScanError) -> Seq<char> {
    match e {
        ScanError::EmptyLiteralString => "Empty literal string"@,
        ScanError::OpenQuote => "open quote"@,
        ScanError::InvalidPrimitive => "Invalid primitive"@,
        ScanError::IllFormedNumber => "ill-formed number"@,
    }
}

impl ScanError {
    /// The message the interpreter reports for this error.
    pub fn message(&self) -> (m: &'static str)
        ensures
            m@ == scan_message(*self),
    {
        match self {
            ScanError::EmptyLiteralString => "Empty literal string",
            ScanError::OpenQuote => "open quote",
            ScanError::InvalidPrimitive => "Invalid primitive",
            ScanError::IllFormedNumber => "ill-formed number",
        }
    }
}

/// A blank inside a numeric literal.
pub open spec fn is_blank(c: char) -> bool {
    c == ' ' || c == '\t'
}

/// White space as `char::is_whitespace` documents it: the characters with
/// the Unicode `White_Space` property.
pub open spec fn is_space(c: char) -> bool {
    ||| ('\u{9}' <= c && c <= '\u{d}')
    ||| c == '\u{20}'
    ||| c == '\u{85}'
    ||| c == '\u{a0}'
    ||| c == '\u{1680}'
    ||| ('\u{2000}' <= c && c <= '\u{200a}')
    ||| c == '\u{2028}'
    ||| c == '\u{2029}'
    ||| c == '\u{202f}'
    ||| c == '\u{205f}'
    ||| c == '\u{3000}'
}

pub open spec fn is_letter(c: char) -> bool {
    ('a' <= c && c <= 'z') || ('A' <= c && c <= 'Z')
}

/// The characters a numeric literal is cut out of.
pub open spec fn is_literal_char(c: char) -> bool {
    is_term_char(c) || is_blank(c)
}

/// The length of the run of numeric-literal characters starting at `i`.
pub open spec fn literal_run(s: Seq<char>, i: int) -> nat
    decreases s.len() - i,
{
    if 0 <= i < s.len() && is_literal_char(s[i]) {
        1 + literal_run(s, i + 1)
    } else {
        0
    }
}

/// The first blank at or after `j`, or `end`.
pub open spec fn word_end(s: Seq<char>, j: int, end: int) -> int
    decreases end - j,
{
    if 0 <= j < end && j < s.len() && !is_blank(s[j]) {
        word_end(s, j + 1, end)
    } else {
        j
    }
}

pub proof fn lemma_word_end(s: Seq<char>, j: int, end: int)
    requires
        0 <= j <= end <= s.len(),
    ensures
        j <= word_end(s, j, end) <= end,
        j < end && !is_blank(s[j]) ==> j < word_end(s, j, end),
        word_end(s, j, end) < end ==> is_blank(s[word_end(s, j, end)]),
        forall|k: int| j <= k < word_end(s, j, end) ==> !is_blank(#[trigger] s[k]),
    decreases end - j,
{
    if j < end && !is_blank(s[j]) {
        lemma_word_end(s, j + 1, end);
    }
}

/// The terms of the numeric literal `s[j..end]`, read one by one; `None` when
/// one of them is ill formed.
pub open spec fn literal_terms(s: Seq<char>, j: int, end: int) -> Option<Seq<NumTermV>>
    decreases end - j,
{
    if !(0 <= j < end <= s.len()) {
        Some(Seq::empty())
    } else if is_blank(s[j]) {
        literal_terms(s, j + 1, end)
    } else {
        let w = word_end(s, j, end);
        proof {
            lemma_word_end(s, j, end);
        }
        match num_term(s.subrange(j, w)) {
            None => None,
            Some(t) => match literal_terms(s, w, end) {
                None => None,
                Some(rest) => Some(seq![t] + rest),
            },
        }
    }
}

/// A numeric literal starting at `i`: it runs over digits, `.`, `_`, `e`,
/// `j`, `r` and blanks, trailing blanks included; its length less one, and
/// the noun its blank-separated terms make.
pub open spec fn scan_litnum(s: Seq<char>, i: int) -> Result<(nat, WordV), ScanError> {
    let n = literal_run(s, i);
    match literal_terms(s, i, i + n) {
        Some(ts) => Ok(((n - 1) as nat, WordV::Noun(LiteralV::Numbers(ts)))),
        None => Err(ScanError::IllFormedNumber),
    }
}

/// Where a quoted string whose characters start at `j` ends: `prev` says the
/// character before `j` was a quote that is not yet known to be doubled.
pub open spec fn quote_end(s: Seq<char>, j: int, prev: bool) -> Result<int, ScanError>
    decreases s.len() - j,
{
    if !(0 <= j < s.len()) {
        Ok(s.len() - 1)
    } else if s[j] == '\'' {
        quote_end(s, j + 1, !prev)
    } else if prev {
        Ok(j - 1)
    } else if s[j] == '\n' {
        Err(ScanError::OpenQuote)
    } else {
        quote_end(s, j + 1, prev)
    }
}

/// A doubled quote inside a string stands for one quote.
pub open spec fn unquote(x: Seq<char>) -> Seq<char>
    decreases x.len(),
{
    if x.len() == 0 {
        Seq::empty()
    } else if x.len() >= 2 && x[0] == '\'' && x[1] == '\'' {
        seq!['\''] + unquote(x.skip(2))
    } else {
        seq![x[0]] + unquote(x.drop_first())
    }
}

/// A string is an atom when it is one byte long in UTF-8: a single ASCII
/// character.
pub open spec fn is_one_byte(content: Seq<char>) -> bool {
    content.len() == 1 && content[0] <= '\u{7f}'
}

/// A quoted string starting at `i`: its length less one, and its noun; a
/// string of one ASCII character is an atom.  A string still open at the end
/// of the sentence ends at its last character, which it drops.
pub open spec fn scan_litstring(s: Seq<char>, i: int) -> Result<(nat, WordV), ScanError> {
    if s.len() - i < 2 {
        Err(ScanError::EmptyLiteralString)
    } else {
        match quote_end(s, i + 1, false) {
            Err(e) => Err(e),
            Ok(e) => {
                let content = unquote(s.subrange(i + 1, e));
                Ok(
                    (
                        (e - i) as nat,
                        WordV::Noun(
                            if is_one_byte(content) {
                                LiteralV::Char(content[0])
                            } else {
                                LiteralV::Chars(content)
                            },
                        ),
                    ),
                )
            },
        }
    }
}

/// The word a spelling of symbols (and letters) stands for, if any.
pub open spec fn primitive_word(t: Seq<char>) -> Option<WordV> {
    if noun_tokens().contains(t) {
        Some(WordV::Noun(LiteralV::Chars(t)))
    } else if verb_named(t) is Some {
        Some(WordV::Verb(t, verb_named(t)->0))
    } else if adverb_named(t) is Some {
        Some(WordV::Adverb(t, adverb_named(t)->0))
    } else if conjunction_named(t) is Some {
        Some(WordV::Conjunction(t, conjunction_named(t)->0))
    } else if t == "=:"@ {
        Some(WordV::IsGlobal)
    } else if t == "=."@ {
        Some(WordV::IsLocal)
    } else {
        None
    }
}

/// A character that may stand in a name after its first letter: a letter,
/// a digit or `_`.
pub open spec fn is_name_char(c: char) -> bool {
    is_letter(c) || ('0' <= c && c <= '9') || c == '_'
}

/// Where a word starting with a letter at `i` ends, looking at `j` next, with
/// `p` the primitive its characters so far spell, if any.  Letters, digits
/// and `_` continue a name; `.` and `:` may turn it into a primitive (`i.`, `a:`),
/// and once it is one, it is the longest primitive found.
pub open spec fn name_end(s: Seq<char>, i: int, j: int, p: Option<WordV>) -> (int, Option<WordV>)
    decreases s.len() - j,
{
    if !(0 <= j < s.len()) {
        (s.len() - 1, p)
    } else if is_name_char(s[j]) {
        if p is Some {
            (j - 1, p)
        } else {
            name_end(s, i, j + 1, p)
        }
    } else if s[j] == '.' || s[j] == ':' {
        match primitive_word(s.subrange(i, j + 1)) {
            Some(w) => name_end(s, i, j + 1, Some(w)),
            None => if p is Some {
                (j - 1, p)
            } else {
                name_end(s, i, j + 1, p)
            },
        }
    } else {
        (j - 1, p)
    }
}

/// A word starting with a letter at `i`: its length less one, and either
/// the primitive it spells or a name.
pub open spec fn scan_name(s: Seq<char>, i: int) -> (nat, WordV) {
    let (e, p) = name_end(s, i, i, None);
    match p {
        Some(w) => ((e - i) as nat, w),
        None => ((e - i) as nat, WordV::Name(s.subrange(i, e + 1))),
    }
}

/// Whether `c` may follow `first` in the spelling of a primitive.
pub open spec fn may_follow(first: char, c: char) -> bool {
    if first == '{' {
        c == '{' || c == '.' || c == ':'
    } else if first == '}' {
        c == '}' || c == '.' || c == ':'
    } else {
        c == '.' || c == ':'
    }
}

/// Where a primitive whose first symbol is at `i` ends (exclusive).
pub open spec fn primitive_end(s: Seq<char>, i: int, j: int) -> int
    decreases s.len() - j,
{
    if 0 <= i && 0 <= j < s.len() && may_follow(s[i], s[j]) {
        primitive_end(s, i, j + 1)
    } else {
        j
    }
}

/// A primitive starting at `i`: one symbol, then any `.` and `:` (and, after
/// a brace, more of the same brace); its length less one, and its word.
pub open spec fn scan_primitive(s: Seq<char>, i: int) -> Result<(nat, WordV), ScanError> {
    let e = primitive_end(s, i, i + 1);
    match primitive_word(s.subrange(i, e)) {
        Some(w) => Ok(((e - i - 1) as nat, w)),
        None => Err(ScanError::InvalidPrimitive),
    }
}

pub open spec fn prepend<A>(x: A, r: Result<Seq<A>, ScanError>) -> Result<Seq<A>, ScanError> {
    match r {
        Ok(v) => Ok(seq![x] + v),
        Err(e) => Err(e),
    }
}

/// The words of `s` from `i` on, each with the positions of its first and
/// last characters.
pub open spec fn scan_from(s: Seq<char>, i: int) -> Result<Seq<((int, int), WordV)>, ScanError>
    decreases s.len() - i,
{
    if !(0 <= i < s.len()) {
        Ok(Seq::empty())
    } else {
        let c = s[i];
        if c == '(' {
            prepend(((i, i), WordV::LP), scan_from(s, i + 1))
        } else if c == ')' {
            prepend(((i, i), WordV::RP), scan_from(s, i + 1))
        } else if is_space(c) {
            scan_from(s, i + 1)
        } else if is_digit(c) || c == '_' {
            match scan_litnum(s, i) {
                Err(e) => Err(e),
                Ok((l, w)) => if i + l + 1 <= s.len() {
                    prepend(((i, i + l), w), scan_from(s, i + l + 1))
                } else {
                    Ok(seq![((i, i + l), w)])
                },
            }
        } else if c == '\'' {
            match scan_litstring(s, i) {
                Err(e) => Err(e),
                Ok((l, w)) => if i + l + 1 <= s.len() {
                    prepend(((i, i + l), w), scan_from(s, i + l + 1))
                } else {
                    Ok(seq![((i, i + l), w)])
                },
            }
        } else if is_letter(c) {
            let (l, w) = scan_name(s, i);
            if i + l + 1 <= s.len() {
                    prepend(((i, i + l), w), scan_from(s, i + l + 1))
                } else {
                    Ok(seq![((i, i + l), w)])
                }
        } else {
            match scan_primitive(s, i) {
                Err(e) => Err(e),
                Ok((l, w)) => if i + l + 1 <= s.len() {
                    prepend(((i, i + l), w), scan_from(s, i + l + 1))
                } else {
                    Ok(seq![((i, i + l), w)])
                },
            }
        }
    }
}

/// The words of the sentence `s`, with their positions.
pub open spec fn scan_spec(s: Seq<char>) -> Result<Seq<((int, int), WordV)>, ScanError> {
    scan_from(s, 0)
}

/// Words at ordered places: each from its first character to its last, at
/// or after `lo` and before `n`, each after the one before it.
pub open spec fn spans_ordered(ws: Seq<((int, int), WordV)>, lo: int, n: int) -> bool {
    &&& forall|k: int| 0 <= k < ws.len() ==> lo <= (#[trigger] ws[k]).0.0 <= ws[k].0.1 < n
    &&& forall|k: int| 0 <= k < ws.len() - 1 ==> (#[trigger] ws[k]).0.1 < ws[k + 1].0.0
}

proof fn lemma_name_end(s: Seq<char>, i: int, j: int, p: Option<WordV>)
    requires
        0 <= i < s.len(),
        i + 1 <= j,
    ensures
        i <= name_end(s, i, j, p).0 < s.len(),
    decreases s.len() - j,
{
    if 0 <= j < s.len() {
        if is_name_char(s[j]) {
            if p is None {
                lemma_name_end(s, i, j + 1, p);
            }
        } else if s[j] == '.' || s[j] == ':' {
            match primitive_word(s.subrange(i, j + 1)) {
                Some(w) => lemma_name_end(s, i, j + 1, Some(w)),
                None => if p is None {
                    lemma_name_end(s, i, j + 1, p);
                },
            }
        }
    }
}

proof fn lemma_primitive_end(s: Seq<char>, i: int, j: int)
    requires
        0 <= j <= s.len(),
    ensures
        j <= primitive_end(s, i, j) <= s.len(),
    decreases s.len() - j,
{
    if 0 <= i && 0 <= j < s.len() && may_follow(s[i], s[j]) {
        lemma_primitive_end(s, i, j + 1);
    }
}

proof fn lemma_prepend_ordered(x: ((int, int), WordV), rest: Seq<((int, int), WordV)>, lo: int, n: int)
    requires
        lo <= x.0.0 <= x.0.1 < n,
        spans_ordered(rest, x.0.1 + 1, n),
    ensures
        spans_ordered(seq![x] + rest, lo, n),
{
    let all = seq![x] + rest;
    assert forall|k: int| 0 <= k < all.len() implies lo <= (#[trigger] all[k]).0.0 <= all[k].0.1 < n by {
        if k > 0 {
            assert(all[k] == rest[k - 1]);
        }
    }
    assert forall|k: int| 0 <= k < all.len() - 1 implies (#[trigger] all[k]).0.1 < all[k + 1].0.0 by {
        assert(all[k + 1] == rest[k]);
        if k > 0 {
            assert(all[k] == rest[k - 1]);
        }
    }
}

/// The words a sentence is cut into lie in it in order: each runs from its
/// first character to its last, within the sentence, and each starts after
/// the one before it ends.
pub proof fn law_scan_positions(s: Seq<char>, i: int)
    requires
        0 <= i,
    ensures
        scan_from(s, i) matches Ok(ws) ==> spans_ordered(ws, i, s.len() as int),
    decreases s.len() - i,
{
    if i < s.len() {
        let c = s[i];
        if c == '(' || c == ')' {
            law_scan_positions(s, i + 1);
            if let Ok(rest) = scan_from(s, i + 1) {
                lemma_prepend_ordered(((i, i), if c == '(' { WordV::LP } else { WordV::RP }), rest, i, s.len() as int);
            }
        } else if is_space(c) {
            law_scan_positions(s, i + 1);
            if let Ok(rest) = scan_from(s, i + 1) {
                assert forall|k: int| 0 <= k < rest.len() implies i <= (#[trigger] rest[k]).0.0 <= rest[k].0.1 < s.len() by {}
            }
        } else {
            let r: Result<(nat, WordV), ScanError> = if is_digit(c) || c == '_' {
                scan_litnum(s, i)
            } else if c == '\'' {
                scan_litstring(s, i)
            } else if is_letter(c) {
                Ok(scan_name(s, i))
            } else {
                scan_primitive(s, i)
            };
            if is_digit(c) || c == '_' {
                lemma_literal_run(s, i);
                assert(literal_run(s, i) >= 1);
            } else if c == '\'' {
                if s.len() - i >= 2 {
                    lemma_quote_end(s, i + 1, i + 1, false);
                }
            } else if is_letter(c) {
                lemma_name_end(s, i, i + 1, None);
            } else {
                lemma_primitive_end(s, i, i + 1);
            }
            if let Ok((l, w)) = r {
                assert(i + l < s.len());
                law_scan_positions(s, i + l + 1);
                if let Ok(rest) = scan_from(s, i + l + 1) {
                    lemma_prepend_ordered(((i, i + l), w), rest, i, s.len() as int);
                }
            }
        }
    }
}

pub proof fn lemma_literal_run(s: Seq<char>, i: int)
    requires
        0 <= i <= s.len(),
    ensures
        i + literal_run(s, i) <= s.len(),
        forall|k: int| i <= k < i + literal_run(s, i) ==> is_literal_char(#[trigger] s[k]),
    decreases s.len() - i,
{
    if i < s.len() && is_literal_char(s[i]) {
        lemma_literal_run(s, i + 1);
    }
}

pub open spec fn prepend_terms(a: Seq<NumTermV>, r: Option<Seq<NumTermV>>) -> Option<Seq<NumTermV>> {
    match r {
        Some(v) => Some(a + v),
        None => None,
    }
}

pub open spec fn terms_view(v: Seq<NumTerm>) -> Seq<NumTermV> {
    v.map_values(|t: NumTerm| t@)
}

/// The option of words, read mathematically.
pub open spec fn word_opt_view(o: Option<Word>) -> Option<WordV> {
    match o {
        Some(w) => Some(w@),
        None => None,
    }
}

fn is_literal_char_exec(c: char) -> (r: bool)
    ensures
        r == is_literal_char(c),
{
    ('0' <= c && c <= '9') || c == '.' || c == '_' || c == 'e' || c == 'j' || c == 'r' || c == ' '
        || c == '\t'
}

/// Scans a numeric literal starting at `i`: its length less one, and its noun.
pub fn scan_litnumarray(s: &[char], i: usize) -> (r: Result<(usize, Word), ScanError>)
    requires
        i < s@.len(),
        is_digit(s@[i as int]) || s@[i as int] == '_',
    ensures
        r matches Ok((l, w)) ==> scan_litnum(s@, i as int) == Ok::<(nat, WordV), ScanError>((l as nat, w@)) && i + l < s@.len(),
        r matches Err(e) ==> scan_litnum(s@, i as int) == Err::<(nat, WordV), ScanError>(e),
{
    let mut n: usize = 0;
    proof {
        lemma_literal_run(s@, i as int);
    }
    let len = s.len();
    while n < len - i && is_literal_char_exec(s[i + n])
        invariant
            len == s@.len(),
            i < s@.len(),
            i + n <= s@.len(),
            literal_run(s@, i as int) == n + literal_run(s@, i + n),
        decreases s@.len() - i - n,
    {
        n += 1;
    }
    assert(literal_run(s@, i + n) == 0);
    let end = i + n;
    assert(n >= 1);
    let mut terms: Vec<NumTerm> = Vec::new();
    let mut j = i;
    assert(terms_view(terms@) =~= Seq::<NumTermV>::empty());
    while j < end
        invariant
            i <= j <= end <= s@.len(),
            end == i + literal_run(s@, i as int),
            forall|k: int| i <= k < end ==> is_literal_char(#[trigger] s@[k]),
            literal_terms(s@, i as int, end as int) == prepend_terms(
                terms_view(terms@),
                literal_terms(s@, j as int, end as int),
            ),
        decreases end - j,
    {
        if s[j] == ' ' || s[j] == '\t' {
            j += 1;
        } else {
            let mut w = j;
            while w < end && s[w] != ' ' && s[w] != '\t'
                invariant
                    j <= w <= end <= s@.len(),
                    word_end(s@, j as int, end as int) == word_end(s@, w as int, end as int),
                decreases end - w,
            {
                w += 1;
            }
            proof {
                lemma_word_end(s@, j as int, end as int);
            }
            let term = slice_of(s, j, w);
            assert forall|k: int| 0 <= k < term@.len() implies is_term_char(#[trigger] term@[k]) by {
                assert(term@[k] == s@[j + k]);
                assert(is_literal_char(s@[j + k]));
            }
            match scan_num_token(term.as_slice()) {
                None => {
                    return Err(ScanError::IllFormedNumber);
                },
                Some(t) => {
                    let ghost before = terms@;
                    terms.push(t);
                    assert(terms_view(terms@) =~= terms_view(before) + seq![t@]);
                    j = w;
                },
            }
        }
    }
    assert(terms_view(terms@) + Seq::<NumTermV>::empty() =~= terms_view(terms@));
    Ok((n - 1, Word::Noun(Literal::Numbers(terms))))
}

pub proof fn lemma_quote_end(s: Seq<char>, lo: int, j: int, prev: bool)
    requires
        0 <= lo < s.len(),
        lo <= j,
        prev ==> lo + 1 <= j,
    ensures
        quote_end(s, j, prev) matches Ok(e) ==> lo <= e < s.len(),
    decreases s.len() - j,
{
    if 0 <= j < s.len() {
        if s[j] == '\'' {
            lemma_quote_end(s, lo, j + 1, !prev);
        } else if !prev && s[j] != '\n' {
            lemma_quote_end(s, lo, j + 1, prev);
        }
    }
}

/// The characters of `s[lo..hi]` with each doubled quote read as one.
pub(crate) fn unquote_range(s: &[char], lo: usize, hi: usize) -> (out: Vec<char>)
    requires
        lo <= hi <= s@.len(),
    ensures
        out@ == unquote(s@.subrange(lo as int, hi as int)),
{
    let mut out: Vec<char> = Vec::new();
    let mut k = lo;
    assert(out@ + unquote(s@.subrange(k as int, hi as int)) =~= unquote(s@.subrange(lo as int, hi as int)));
    while k < hi
        invariant
            lo <= k <= hi <= s@.len(),
            unquote(s@.subrange(lo as int, hi as int)) == out@ + unquote(s@.subrange(k as int, hi as int)),
        decreases hi - k,
    {
        let ghost x = s@.subrange(k as int, hi as int);
        if k + 1 < hi && s[k] == '\'' && s[k + 1] == '\'' {
            assert(x.skip(2) =~= s@.subrange(k + 2, hi as int));
            out.push('\'');
            k += 2;
        } else {
            assert(x.drop_first() =~= s@.subrange(k + 1, hi as int));
            out.push(s[k]);
            k += 1;
        }
    }
    assert(unquote(s@.subrange(hi as int, hi as int)) =~= Seq::<char>::empty());
    assert(out@ + Seq::<char>::empty() =~= out@);
    out
}

/// Scans a quoted string starting at `i`: its length less one, and its noun.
pub fn scan_litstring_at(s: &[char], i: usize) -> (r: Result<(usize, Word), ScanError>)
    requires
        i < s@.len(),
        s@[i as int] == '\'',
    ensures
        r matches Ok((l, w)) ==> scan_litstring(s@, i as int) == Ok::<(nat, WordV), ScanError>((l as nat, w@)) && i + l < s@.len(),
        r matches Err(e) ==> scan_litstring(s@, i as int) == Err::<(nat, WordV), ScanError>(e),
{
    if s.len() - i < 2 {
        return Err(ScanError::EmptyLiteralString);
    }
    let mut j = i + 1;
    let mut prev = false;
    let mut e: usize = 0;
    loop
        invariant
            i + 2 <= s@.len(),
            i + 1 <= j <= s@.len(),
            prev ==> i + 2 <= j,
            quote_end(s@, i + 1, false) == quote_end(s@, j as int, prev),
        ensures
            quote_end(s@, i + 1, false) == Ok::<int, ScanError>(e as int),
        decreases s@.len() - j,
    {
        if j >= s.len() {
            e = s.len() - 1;
            break;
        }
        let c = s[j];
        if c == '\'' {
            prev = !prev;
        } else if prev {
            e = j - 1;
            break;
        } else if c == '\n' {
            return Err(ScanError::OpenQuote);
        }
        j += 1;
    }
    proof {
        lemma_quote_end(s@, i + 1, i + 1, false);
    }
    let out = unquote_range(s, i + 1, e);
    let l = e - i;
    if out.len() == 1 && out[0] <= '\u{7f}' {
        Ok((l, Word::Noun(Literal::Char(out[0]))))
    } else {
        Ok((l, Word::Noun(Literal::Chars(out))))
    }
}

/// The word a spelling of symbols (and letters) stands for, if any.
pub fn str_to_primitive(t: &[char]) -> (r: Option<Word>)
    ensures
        word_opt_view(r) == primitive_word(t@),
{
    if is_noun_token(t) {
        assert(t@.subrange(0, t@.len() as int) =~= t@);
        return Some(Word::Noun(Literal::Chars(slice_of(t, 0, t.len()))));
    }
    if let Some(e) = lookup_verb(t) {
        return Some(Word::Verb(string_of(t), e));
    }
    if let Some(e) = lookup_adverb(t) {
        return Some(Word::Adverb(string_of(t), e));
    }
    if let Some(e) = lookup_conjunction(t) {
        return Some(Word::Conjunction(string_of(t), e));
    }
    let g = chars_of("=:");
    if same_chars(g.as_slice(), t) {
        return Some(Word::IsGlobal);
    }
    let l = chars_of("=.");
    if same_chars(l.as_slice(), t) {
        return Some(Word::IsLocal);
    }
    None
}

fn is_letter_exec(c: char) -> (r: bool)
    ensures
        r == is_letter(c),
{
    ('a' <= c && c <= 'z') || ('A' <= c && c <= 'Z')
}

fn is_space_exec(c: char) -> (r: bool)
    ensures
        r == is_space(c),
{
    ('\u{9}' <= c && c <= '\u{d}') || c == '\u{20}' || c == '\u{85}' || c == '\u{a0}' || c
        == '\u{1680}' || ('\u{2000}' <= c && c <= '\u{200a}') || c == '\u{2028}' || c
        == '\u{2029}' || c == '\u{202f}' || c == '\u{205f}' || c == '\u{3000}'
}

fn may_follow_exec(first: char, c: char) -> (r: bool)
    ensures
        r == may_follow(first, c),
{
    if first == '{' {
        c == '{' || c == '.' || c == ':'
    } else if first == '}' {
        c == '}' || c == '.' || c == ':'
    } else {
        c == '.' || c == ':'
    }
}

/// Scans a word starting with a letter at `i`: its length less one, and
/// either the primitive it spells (`i.`, `a:`, `NB.`) or a name.
pub fn scan_name_at(s: &[char], i: usize) -> (r: (usize, Word))
    requires
        i < s@.len(),
        is_letter(s@[i as int]),
    ensures
        scan_name(s@, i as int) == (r.0 as nat, r.1@),
        i + r.0 < s@.len(),
{
    let mut j = i;
    let mut p: Option<Word> = None;
    let mut e: usize = 0;
    loop
        invariant
            i < s@.len(),
            is_letter(s@[i as int]),
            i <= j <= s@.len(),
            j == i ==> p is None,
            name_end(s@, i as int, i as int, None) == name_end(
                s@,
                i as int,
                j as int,
                word_opt_view(p),
            ),
        ensures
            i <= e < s@.len(),
            name_end(s@, i as int, i as int, None) == (e as int, word_opt_view(p)),
        decreases s@.len() - j,
    {
        if j >= s.len() {
            e = s.len() - 1;
            break;
        }
        let c = s[j];
        if is_letter_exec(c) || ('0' <= c && c <= '9') || c == '_' {
            if p.is_some() {
                e = j - 1;
                break;
            }
        } else if c == '.' || c == ':' {
            let t = slice_of(s, i, j + 1);
            match str_to_primitive(t.as_slice()) {
                Some(w) => {
                    p = Some(w);
                },
                None => {
                    if p.is_some() {
                        e = j - 1;
                        break;
                    }
                },
            }
        } else {
            e = j - 1;
            break;
        }
        j += 1;
    }
    match p {
        Some(w) => (e - i, w),
        None => {
            let n = s.len();
            assert(e < n);
            let v = slice_of(s, i, e + 1);
            (e - i, Word::Name(string_of(v.as_slice())))
        },
    }
}

/// Scans a primitive whose first symbol is at `i`: its length less one, and
/// its word.
pub fn scan_primitive_at(s: &[char], i: usize) -> (r: Result<(usize, Word), ScanError>)
    requires
        i < s@.len(),
    ensures
        r matches Ok((l, w)) ==> scan_primitive(s@, i as int) == Ok::<(nat, WordV), ScanError>(
            (l as nat, w@),
        ) && i + l < s@.len(),
        r matches Err(e) ==> scan_primitive(s@, i as int) == Err::<(nat, WordV), ScanError>(e),
{
    let first = s[i];
    let mut j = i + 1;
    while j < s.len() && may_follow_exec(first, s[j])
        invariant
            i < j <= s@.len(),
            first == s@[i as int],
            primitive_end(s@, i as int, i + 1) == primitive_end(s@, i as int, j as int),
        decreases s@.len() - j,
    {
        j += 1;
    }
    let t = slice_of(s, i, j);
    match str_to_primitive(t.as_slice()) {
        Some(w) => Ok((j - i - 1, w)),
        None => Err(ScanError::InvalidPrimitive),
    }
}

/// The words found so far, followed by what the rest of the sentence gives.
pub open spec fn join<A>(done: Seq<A>, rest: Result<Seq<A>, ScanError>) -> Result<Seq<A>, ScanError> {
    match rest {
        Ok(v) => Ok(done + v),
        Err(e) => Err(e),
    }
}

pub proof fn lemma_join_prepend<A>(done: Seq<A>, x: A, rest: Result<Seq<A>, ScanError>)
    ensures
        join(done, prepend(x, rest)) == join(done.push(x), rest),
{
    if let Ok(v) = rest {
        assert(done + (seq![x] + v) =~= done.push(x) + v);
    }
}

/// Positions and words, read mathematically.
pub open spec fn located_view(v: Seq<((usize, usize), Word)>) -> Seq<((int, int), WordV)> {
    v.map_values(|x: ((usize, usize), Word)| ((x.0.0 as int, x.0.1 as int), x.1@))
}

/// Cuts a sentence into words, each with the positions of its first and last
/// characters.
pub fn scan_with_locations(sentence: &str) -> (r: Result<Vec<((usize, usize), Word)>, ScanError>)
    ensures
        r matches Ok(v) ==> scan_spec(sentence@) == Ok::<Seq<((int, int), WordV)>, ScanError>(
            located_view(v@),
        ),
        r matches Err(e) ==> scan_spec(sentence@) == Err::<Seq<((int, int), WordV)>, ScanError>(e),
{
    let chars = chars_of(sentence);
    let s = chars.as_slice();
    let mut words: Vec<((usize, usize), Word)> = Vec::new();
    let mut i: usize = 0;
    assert(located_view(words@) =~= Seq::<((int, int), WordV)>::empty());
    while i < s.len()
        invariant
            s@ == sentence@,
            i <= s@.len(),
            scan_spec(s@) == join(located_view(words@), scan_from(s@, i as int)),
        decreases s@.len() - i,
    {
        let c = s[i];
        let ghost before = words@;
        if c == '(' || c == ')' {
            let w = if c == '(' { Word::LP } else { Word::RP };
            proof {
                lemma_join_prepend(located_view(before), ((i as int, i as int), w@), scan_from(s@, i + 1));
            }
            words.push(((i, i), w));
            assert(located_view(words@) =~= located_view(before).push(((i as int, i as int), w@)));
            i += 1;
        } else if is_space_exec(c) {
            i += 1;
        } else {
            let step = if ('0' <= c && c <= '9') || c == '_' {
                scan_litnumarray(s, i)
            } else if c == '\'' {
                scan_litstring_at(s, i)
            } else if is_letter_exec(c) {
                Ok(scan_name_at(s, i))
            } else {
                scan_primitive_at(s, i)
            };
            match step {
                Err(e) => {
                    return Err(e);
                },
                Ok((l, w)) => {
                    proof {
                        lemma_join_prepend(
                            located_view(before),
                            ((i as int, i + l), w@),
                            scan_from(s@, i + l + 1),
                        );
                    }
                    words.push(((i, i + l), w));
                    assert(located_view(words@) =~= located_view(before).push(((i as int, i + l), w@)));
                    i = i + l + 1;
                },
            }
        }
    }
    assert(located_view(words@) + Seq::<((int, int), WordV)>::empty() =~= located_view(words@));
    Ok(words)
}

/// The words of a scan, without their positions.
pub open spec fn words_only(v: Seq<((int, int), WordV)>) -> Seq<WordV> {
    v.map_values(|x: ((int, int), WordV)| x.1)
}

/// Cuts a sentence into words.
pub fn scan(sentence: &str) -> (r: Result<Vec<Word>, ScanError>)
    ensures
        r matches Ok(v) ==> scan_spec(sentence@) matches Ok(ws) && v@.map_values(|w: Word| w@)
            == words_only(ws),
        r matches Err(e) ==> scan_spec(sentence@) == Err::<Seq<((int, int), WordV)>, ScanError>(e),
{
    let located = match scan_with_locations(sentence) {
        Ok(v) => v,
        Err(e) => {
            return Err(e);
        },
    };
    let ghost all = located@;
    let mut out: Vec<Word> = Vec::new();
    for x in it: located.into_iter()
        invariant
            it.seq() == all,
            out@.map_values(|w: Word| w@) == words_only(located_view(all.take(it.index() as int))),
    {
        let ghost before = out@;
        let ghost k = it.index() as int;
        assert(x == all[k]);
        let ghost xv = ((x.0.0 as int, x.0.1 as int), x.1@);
        let (_, w) = x;
        assert(w@ == xv.1);
        out.push(w);
        assert(all.take(k + 1) =~= all.take(k).push(x));
        assert(located_view(all.take(k + 1)) =~= located_view(all.take(k)).push(xv));
        assert(words_only(located_view(all.take(k)).push(xv)) =~= words_only(
            located_view(all.take(k)),
        ).push(xv.1));
        assert(out@.map_values(|w: Word| w@) =~= before.map_values(|w: Word| w@).push(w@));
    }
    assert(all.take(all.len() as int) =~= all);
    Ok(out)
}

} // verus!
