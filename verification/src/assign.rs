//! Assignment to the names a string lists: `'a b c' =: 1 2 3`.

use vstd::prelude::*;

use crate::error::JError;
use crate::proto::int_opt;
use crate::scan::is_space;
use crate::text::{slice_of, string_of};

verus! {

/// The words of `s` from `j` on, white space separating them, when a word
/// begun at `start` (if any) is still open.
pub open spec fn split_from(s: Seq<char>, j: int, start: Option<int>) -> Seq<Seq<char>>
    decreases s.len() - j,
{
    if j >= s.len() {
        match start {
            Some(st) => seq![s.subrange(st, s.len() as int)],
            None => Seq::empty(),
        }
    } else if is_space(s[j]) {
        match start {
            Some(st) => seq![s.subrange(st, j)] + split_from(s, j + 1, None),
            None => split_from(s, j + 1, None),
        }
    } else {
        match start {
            Some(st) => split_from(s, j + 1, Some(st)),
            None => split_from(s, j + 1, Some(j)),
        }
    }
}

/// The words of `s`, as `str::split_whitespace` gives them.
pub open spec fn words_of(s: Seq<char>) -> Seq<Seq<char>> {
    split_from(s, 0, None)
}

/// The strings of a vector of strings.
pub open spec fn strings_of(v: Seq<String>) -> Seq<Seq<char>> {
    v.map_values(|s: String| s@)
}

/// What assigning a value to the names a string lists does: `value_items`
/// is the length of the value's first dimension (one for an atom) when the
/// value is a noun; `names` the characters when the names are given as
/// characters, and `names_rank` their rank.  One name takes the whole value
/// (`true`), boxed; several names take its items, one each (`false`).
pub open spec fn assignment_spec(value_items: Option<usize>, names: Option<Seq<char>>, names_rank: usize) -> Result<(bool, Seq<Seq<char>>), JError> {
    match (value_items, names) {
        (None, _) => Err(JError::NonceError),
        (_, None) => Err(JError::NonceError),
        (Some(n), Some(s)) => {
            if names_rank != 1 {
                Err(JError::NonceError)
            } else {
                let ws = words_of(s);
                if ws.len() == 1 {
                    Ok((true, ws))
                } else if n != ws.len() {
                    Err(JError::LengthError)
                } else {
                    Ok((false, ws))
                }
            }
        }
    }
}

fn is_space_char(c: char) -> (r: bool)
    ensures
        r == is_space(c),
{
    ('\u{9}' <= c && c <= '\u{d}') || c == '\u{20}' || c == '\u{85}' || c == '\u{a0}' || c
        == '\u{1680}' || ('\u{2000}' <= c && c <= '\u{200a}') || c == '\u{2028}' || c
        == '\u{2029}' || c == '\u{202f}' || c == '\u{205f}' || c == '\u{3000}'
}

/// The words of `s`, white space separating them.
pub fn split_whitespace(s: &[char]) -> (r: Vec<String>)
    ensures
        strings_of(r@) == words_of(s@),
{
    let mut out: Vec<String> = Vec::new();
    let mut start: Option<usize> = None;
    let mut j: usize = 0;
    while j < s.len()
        invariant
            j <= s@.len(),
            start matches Some(st) ==> st < j,
            words_of(s@) == strings_of(out@) + split_from(s@, j as int, int_opt(start)),
        decreases s@.len() - j,
    {
        let ghost before = strings_of(out@);
        if is_space_char(s[j]) {
            match start {
                Some(st) => {
                    let w = string_of(&slice_of(s, st, j));
                    out.push(w);
                    assert(strings_of(out@) =~= before + seq![s@.subrange(st as int, j as int)]);
                    assert(before + (seq![s@.subrange(st as int, j as int)] + split_from(s@, j + 1, None)) =~= strings_of(out@) + split_from(s@, j + 1, None));
                },
                None => {},
            }
            start = None;
        } else if start.is_none() {
            start = Some(j);
        }
        j += 1;
    }
    match start {
        Some(st) => {
            let ghost before = strings_of(out@);
            out.push(string_of(&slice_of(s, st, s.len())));
            assert(strings_of(out@) =~= before + seq![s@.subrange(st as int, s@.len() as int)]);
        },
        None => {
            assert(strings_of(out@) + Seq::<Seq<char>>::empty() =~= strings_of(out@));
        },
    }
    out
}

/// Sorts out an assignment to the names a string lists: whether the one
/// name takes the whole value (`true`) or each name an item (`false`), and
/// the names.  A value that is not a noun, or names that are not a list of
/// characters, are a nonce error; as many names as the value has items,
/// unless there is just one, or it is a length error.
pub fn string_assignment(value_items: Option<usize>, names: Option<&[char]>, names_rank: usize) -> (r: Result<(bool, Vec<String>), JError>)
    ensures
        match assignment_spec(value_items, match names { Some(s) => Some(s@), None => None }, names_rank) {
            Ok((whole, ws)) => r matches Ok((rw, rn)) && rw == whole && strings_of(rn@) == ws,
            Err(e) => r == Err::<(bool, Vec<String>), JError>(e),
        },
{
    let n = match value_items {
        Some(n) => n,
        None => return Err(JError::NonceError),
    };
    let s = match names {
        Some(s) => s,
        None => return Err(JError::NonceError),
    };
    if names_rank != 1 {
        return Err(JError::NonceError);
    }
    let ws = split_whitespace(s);
    if ws.len() == 1 {
        return Ok((true, ws));
    }
    if n != ws.len() {
        return Err(JError::LengthError);
    }
    Ok((false, ws))
}

} // verus!
