//! The first scanner of the interpreter's command line: it cuts a line into
//! parentheses, runs of other symbols, numeric literals and strings.

use vstd::prelude::*;

use crate::scan::{unquote, unquote_range};
use crate::text::{chars_of, slice_of, string_of};

verus! {

/// A word of the first scanner.
#[derive(Clone, Debug, PartialEq, Eq)]
pub enum Token {
    LP,
    RP,
    Verb(String),
    LitNumArray(String),
    LitString(String),
}

/// A line the first scanner refuses, with why.
#[derive(Clone, Debug, PartialEq, Eq)]
pub struct ParseError {
    pub message: String,
}

/// A [`Token`] read mathematically.
pub enum TokenV {
    LP,
    RP,
    Verb(Seq<char>),
    LitNumArray(Seq<char>),
    LitString(Seq<char>),
}

impl View for Token {
    type V = TokenV;

    open spec fn view(&self) -> TokenV {
        match self {
            Token::LP => TokenV::LP,
            Token::RP => TokenV::RP,
            Token::Verb(s) => TokenV::Verb(s@),
            Token::LitNumArray(s) => TokenV::LitNumArray(s@),
            Token::LitString(s) => TokenV::LitString(s@),
        }
    }
}

/// The characters a numeric literal runs over.
pub open spec fn is_num_char(c: char) -> bool {
    ('0' <= c && c <= '9') || c == '.' || c == 'e' || c == 'j' || c == 'r' || c == ' ' || c == '\t'
}

/// The first position from `j` on whose character ends a numeric literal,
/// or the length.
pub open spec fn num_stop(s: Seq<char>, j: int) -> int
    decreases s.len() - j,
{
    if j >= s.len() || !is_num_char(s[j]) {
        j
    } else {
        num_stop(s, j + 1)
    }
}

/// A numeric literal starting at `i`: how many characters to skip after
/// the first, and its text.  It stops before the first character that
/// cannot continue it, or before the last character of the line.
pub open spec fn proto_litnum(s: Seq<char>, i: int) -> (int, Seq<char>) {
    let k = num_stop(s, i);
    let l = if k < s.len() { k - i } else { s.len() - 1 - i };
    (l, s.subrange(i, i + l))
}

/// Where a string starting at `i` ends, looking at `j` next with `lead`
/// saying the character before was a quote not yet known to be doubled;
/// `Err` for a line break, `Ok` of the last position it takes.
pub open spec fn proto_string_end(s: Seq<char>, j: int, lead: bool) -> Result<int, ()>
    decreases s.len() - j,
{
    if j >= s.len() {
        Ok(s.len() - 1)
    } else if s[j] == '\'' {
        proto_string_end(s, j + 1, !lead)
    } else if s[j] == '\n' {
        Err(())
    } else if lead {
        Ok(j - 1)
    } else {
        proto_string_end(s, j + 1, lead)
    }
}

/// A string starting at `i`: how many characters to skip after the quote,
/// and its text with doubled quotes undone; `Err` for a line break in it.
pub open spec fn proto_litstring(s: Seq<char>, i: int) -> Result<(int, Seq<char>), ()> {
    match proto_string_end(s, i + 1, false) {
        Err(()) => Err(()),
        Ok(e) => Ok((e - i, unquote(s.subrange(i + 1, e)))),
    }
}

/// The rest of a line from `i` on, after `skip` more characters are
/// skipped, with the word of other symbols begun at `ws` (if any) and
/// running to `we`: its tokens, `Some(Err)` for an open quote, `None` where
/// the scanner cannot go on (a quote as the line's last character).
pub open spec fn proto_from(s: Seq<char>, i: int, skip: int, ws: Option<int>, we: int) -> Option<Result<Seq<TokenV>, ()>>
    decreases s.len() - i,
{
    if i < 0 || i >= s.len() {
        Some(Ok(Seq::empty()))
    } else if skip > 0 {
        proto_from(s, i + 1, skip - 1, ws, we)
    } else {
        let c = s[i];
        if '0' <= c && c <= '9' {
            let (l, t) = proto_litnum(s, i);
            prepend_token(TokenV::LitNumArray(t), proto_from(s, i + 1, l, ws, we))
        } else if c == '\'' {
            if i + 1 >= s.len() {
                None
            } else {
                match proto_litstring(s, i) {
                    Err(()) => Some(Err(())),
                    Ok((l, t)) => prepend_token(TokenV::LitString(t), proto_from(s, i + 1, l, ws, we)),
                }
            }
        } else if c == '(' || c == ')' || c == ' ' || c == '\t' || c == '\n' {
            let closed = match ws {
                Some(st) => seq![TokenV::Verb(s.subrange(st, we + 1))],
                None => Seq::empty(),
            };
            let new = if c == '(' {
                seq![TokenV::LP]
            } else if c == ')' {
                seq![TokenV::RP]
            } else {
                Seq::empty()
            };
            prepend_all(closed + new, proto_from(s, i + 1, 0, None, 0))
        } else {
            match ws {
                Some(st) => proto_from(s, i + 1, 0, Some(st), i),
                None => proto_from(s, i + 1, 0, Some(i), i),
            }
        }
    }
}

pub open spec fn prepend_token(t: TokenV, r: Option<Result<Seq<TokenV>, ()>>) -> Option<Result<Seq<TokenV>, ()>> {
    prepend_all(seq![t], r)
}

pub open spec fn prepend_all(ts: Seq<TokenV>, r: Option<Result<Seq<TokenV>, ()>>) -> Option<Result<Seq<TokenV>, ()>> {
    match r {
        Some(Ok(v)) => Some(Ok(ts + v)),
        other => other,
    }
}

/// The tokens of a line; a word of symbols not ended by a blank or a
/// parenthesis before the line ends is not kept.
pub open spec fn proto_scan(s: Seq<char>) -> Option<Result<Seq<TokenV>, ()>> {
    proto_from(s, 0, 0, None, 0)
}

/// The characters that end a word of the first scanner.
pub open spec fn is_word_stop(c: char) -> bool {
    c == '(' || c == ')' || c == '`' || c == '.' || c == ':' || c == ';' || c == ' ' || c == '\t' || c == '\n'
}

/// The first position from `j` on whose character ends a word, or the
/// length.
pub open spec fn word_stop(s: Seq<char>, j: int) -> int
    decreases s.len() - j,
{
    if j >= s.len() || is_word_stop(s[j]) {
        j
    } else {
        word_stop(s, j + 1)
    }
}

/// A word starting at `i`: it stops before the first character that ends
/// it, or before the last character of the line.
pub open spec fn proto_word(s: Seq<char>, i: int) -> (int, Seq<char>) {
    let k = word_stop(s, i);
    let l = if k < s.len() { k - i } else { s.len() - 1 - i };
    (l, s.subrange(i, i + l))
}

/// The tokens of a vector, read mathematically.
pub open spec fn tokens_view(v: Seq<Token>) -> Seq<TokenV> {
    v.map_values(|t: Token| t@)
}

/// An optional position read as an integer.
pub open spec fn int_opt(o: Option<usize>) -> Option<int> {
    match o {
        Some(x) => Some(x as int),
        None => None,
    }
}

proof fn lemma_num_stop(s: Seq<char>, j: int)
    requires
        0 <= j <= s.len(),
    ensures
        j <= num_stop(s, j) <= s.len(),
    decreases s.len() - j,
{
    if j < s.len() && is_num_char(s[j]) {
        lemma_num_stop(s, j + 1);
    }
}

proof fn lemma_word_stop(s: Seq<char>, j: int)
    requires
        0 <= j <= s.len(),
    ensures
        j <= word_stop(s, j) <= s.len(),
    decreases s.len() - j,
{
    if j < s.len() && !is_word_stop(s[j]) {
        lemma_word_stop(s, j + 1);
    }
}

proof fn lemma_string_end(s: Seq<char>, lo: int, j: int, lead: bool)
    requires
        0 <= lo < s.len(),
        lo <= j,
        lead ==> lo + 1 <= j,
    ensures
        proto_string_end(s, j, lead) matches Ok(e) ==> lo <= e < s.len(),
    decreases s.len() - j,
{
    if j < s.len() {
        if s[j] == '\'' {
            lemma_string_end(s, lo, j + 1, !lead);
        } else if s[j] != '\n' && !lead {
            lemma_string_end(s, lo, j + 1, lead);
        }
    }
}

proof fn lemma_prepend_all(a: Seq<TokenV>, b: Seq<TokenV>, r: Option<Result<Seq<TokenV>, ()>>)
    ensures
        prepend_all(a, prepend_all(b, r)) == prepend_all(a + b, r),
{
    match r {
        Some(Ok(v)) => {
            assert(a + (b + v) =~= (a + b) + v);
        },
        _ => {},
    }
}

fn num_char(c: char) -> (b: bool)
    ensures
        b == is_num_char(c),
{
    ('0' <= c && c <= '9') || c == '.' || c == 'e' || c == 'j' || c == 'r' || c == ' ' || c == '\t'
}

fn word_stop_char(c: char) -> (b: bool)
    ensures
        b == is_word_stop(c),
{
    c == '(' || c == ')' || c == '`' || c == '.' || c == ':' || c == ';' || c == ' ' || c == '\t' || c == '\n'
}

/// Reads a numeric literal starting at `i`: how many characters to skip
/// after the first, and the literal's text.
pub fn scan_litnumarray(s: &[char], i: usize) -> (r: Result<(usize, Token), ParseError>)
    requires
        i < s@.len(),
    ensures
        r matches Ok((l, t)) && l == proto_litnum(s@, i as int).0 && t@ == TokenV::LitNumArray(proto_litnum(s@, i as int).1),
        i + proto_litnum(s@, i as int).0 < s@.len(),
{
    let mut j = i;
    while j < s.len() && num_char(s[j])
        invariant
            i <= j <= s@.len(),
            num_stop(s@, i as int) == num_stop(s@, j as int),
        decreases s@.len() - j,
    {
        j += 1;
    }
    let l = if j < s.len() { j - i } else { s.len() - 1 - i };
    Ok((l, Token::LitNumArray(string_of(&slice_of(s, i, i + l)))))
}

/// Reads a string starting with the quote at `i`: how many characters to
/// skip after the quote, and the string with doubled quotes undone; an
/// error for a line break before the string is done.
pub fn scan_litstring(s: &[char], i: usize) -> (r: Result<(usize, Token), ParseError>)
    requires
        i + 1 < s@.len(),
    ensures
        match proto_litstring(s@, i as int) {
            Ok((l, t)) => r matches Ok((rl, rt)) && rl == l && rt@ == TokenV::LitString(t),
            Err(()) => r is Err,
        },
        proto_litstring(s@, i as int) matches Ok((l, _)) ==> i + l < s@.len(),
{
    let n = s.len();
    assert(i + 1 < n);
    let mut j = i + 1;
    let mut lead = false;
    let mut e: usize = 0;
    loop
        invariant
            i + 1 < s@.len(),
            i + 1 <= j <= s@.len(),
            lead ==> i + 2 <= j,
            proto_string_end(s@, i + 1, false) == proto_string_end(s@, j as int, lead),
        ensures
            proto_string_end(s@, i + 1, false) == Ok::<int, ()>(e as int),
        decreases s@.len() - j,
    {
        if j >= s.len() {
            e = s.len() - 1;
            break;
        }
        let c = s[j];
        if c == '\'' {
            lead = !lead;
        } else if c == '\n' {
            return Err(ParseError { message: String::from_str("open quote") });
        } else if lead {
            e = j - 1;
            break;
        }
        j += 1;
    }
    proof {
        lemma_string_end(s@, i + 1, i + 1, false);
    }
    let text = unquote_range(s, i + 1, e);
    Ok((e - i, Token::LitString(string_of(&text))))
}

/// Reads a word of the user's (a name) starting at `i`: how many
/// characters to skip after the first, and the word.
pub fn scan_word(s: &[char], i: usize) -> (r: Result<(usize, Token), ParseError>)
    requires
        i < s@.len(),
    ensures
        r matches Ok((l, t)) && l == proto_word(s@, i as int).0 && t@ == TokenV::Verb(proto_word(s@, i as int).1),
{
    let mut j = i;
    while j < s.len() && !word_stop_char(s[j])
        invariant
            i <= j <= s@.len(),
            word_stop(s@, i as int) == word_stop(s@, j as int),
        decreases s@.len() - j,
    {
        j += 1;
    }
    let l = if j < s.len() { j - i } else { s.len() - 1 - i };
    Ok((l, Token::Verb(string_of(&slice_of(s, i, i + l)))))
}

/// Cuts a line into tokens: parentheses, words of other symbols ended by a
/// blank or a parenthesis, numeric literals and strings; an error for a
/// string a line break leaves open.
pub fn scan(sentence: &str) -> (r: Result<Vec<Token>, ParseError>)
    requires
        proto_scan(sentence@) is Some,
    ensures
        match proto_scan(sentence@) {
            Some(Ok(ts)) => r matches Ok(v) && tokens_view(v@) == ts,
            _ => r is Err,
        },
{
    let s = chars_of(sentence);
    let mut tokens: Vec<Token> = Vec::new();
    let mut ws: Option<usize> = None;
    let mut we: usize = 0;
    let mut skip: usize = 0;
    let mut i: usize = 0;
    while i < s.len()
        invariant
            s@ == sentence@,
            i <= s@.len(),
            ws matches Some(st) ==> st <= we < i,
            proto_scan(s@) is Some,
            proto_scan(s@) == prepend_all(tokens_view(tokens@), proto_from(s@, i as int, skip as int, int_opt(ws), we as int)),
        decreases s@.len() - i,
    {
        let ghost before = tokens_view(tokens@);
        if skip > 0 {
            skip -= 1;
            i += 1;
            continue;
        }
        let c = s[i];
        if '0' <= c && c <= '9' {
            let ghost rest = proto_from(s@, i + 1, proto_litnum(s@, i as int).0, int_opt(ws), we as int);
            let (l, t) = match scan_litnumarray(&s, i) {
                Ok(x) => x,
                Err(e) => return Err(e),
            };
            proof {
                lemma_prepend_all(before, seq![t@], rest);
            }
            tokens.push(t);
            assert(tokens_view(tokens@) =~= before + seq![t@]);
            skip = l;
        } else if c == '\'' {
            if i + 1 >= s.len() {
                assert(proto_from(s@, i as int, 0, int_opt(ws), we as int) is None);
                assert(false);
            }
            match scan_litstring(&s, i) {
                Err(e) => {
                    return Err(e);
                },
                Ok((l, t)) => {
                    let ghost rest = proto_from(s@, i + 1, l as int, int_opt(ws), we as int);
                    proof {
                        lemma_prepend_all(before, seq![t@], rest);
                    }
                    tokens.push(t);
                    assert(tokens_view(tokens@) =~= before + seq![t@]);
                    skip = l;
                },
            }
        } else if c == '(' || c == ')' || c == ' ' || c == '\t' || c == '\n' {
            let ghost closed = match int_opt(ws) {
                Some(st) => seq![TokenV::Verb(s@.subrange(st, we + 1))],
                None => Seq::<TokenV>::empty(),
            };
            let ghost new = if c == '(' {
                seq![TokenV::LP]
            } else if c == ')' {
                seq![TokenV::RP]
            } else {
                Seq::<TokenV>::empty()
            };
            let ghost rest = proto_from(s@, i + 1, 0, None, 0);
            proof {
                lemma_prepend_all(before, closed + new, rest);
            }
            match ws {
                Some(st) => {
                    tokens.push(Token::Verb(string_of(&slice_of(&s, st, we + 1))));
                },
                None => {},
            }
            if c == '(' {
                tokens.push(Token::LP);
            } else if c == ')' {
                tokens.push(Token::RP);
            }
            assert(tokens_view(tokens@) =~= before + (closed + new));
            ws = None;
            we = 0;
        } else {
            if ws.is_none() {
                ws = Some(i);
            }
            we = i;
        }
        i += 1;
    }
    assert(tokens_view(tokens@) + Seq::<TokenV>::empty() =~= tokens_view(tokens@));
    Ok(tokens)
}

} // verus!
