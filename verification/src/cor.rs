//! Explicit definition, `m : n`: a noun, or an adverb, conjunction or verb
//! whose body is given as a string or, for `m : 0`, on the lines that follow.

use vstd::prelude::*;

use crate::controls::{
    complete, controls_free, create_def, fails, fails_with, insufficient,
    is_control_symbol, is_assert_pred, is_dd_start_pred, is_stat_start_pred, lemma_none_where,
    no_asserts, no_dd_starts, no_stat_starts, resolve_controls, resolved, steps_ok, trace_of,
    ControlError, DefKind, Token,
};
use crate::error::JError;
use crate::scan::{scan, scan_message, scan_spec, words_only, ScanError};
use crate::text::{chars_of, string_of};
use crate::words::{Word, WordV};

verus! {

/// The error the interpreter reports when a sentence does not scan: an
/// ill-formed number as such, the others by their message.
pub fn scan_error(e: ScanError) -> (r: JError)
    ensures
        e is IllFormedNumber ==> r == JError::IllFormedNumber,
        !(e is IllFormedNumber) ==> (r matches JError::Legacy(m) && m@ == scan_message(e)),
{
    match e {
        ScanError::IllFormedNumber => JError::IllFormedNumber,
        ScanError::EmptyLiteralString => JError::Legacy(String::from_str("Empty literal string")),
        ScanError::OpenQuote => JError::Legacy(String::from_str("open quote")),
        ScanError::InvalidPrimitive => JError::Legacy(String::from_str("Invalid primitive")),
    }
}

/// `t` is the scanned word `w`, the `i`th of its sentence, as the control
/// structures see it: a name by its spelling and index, any other word by
/// its index.
pub open spec fn is_control_token(t: Token, w: WordV, i: int) -> bool {
    match w {
        WordV::Name(s) => t matches Token::Name(n, h) && n@ == s && h == i,
        _ => t matches Token::Word(h) && h == i,
    }
}

/// `ts` are the scanned words `ws` as the control structures see them.
pub open spec fn control_tokens_of(ts: Seq<Token>, ws: Seq<WordV>) -> bool {
    &&& ts.len() == ws.len()
    &&& forall|i: int| 0 <= i < ts.len() ==> #[trigger] is_control_token(ts[i], ws[i], i)
}

/// The scanned words of a sentence as the control structures see them.
pub fn control_tokens(words: &Vec<Word>) -> (r: Vec<Token>)
    ensures
        control_tokens_of(r@, words@.map_values(|w: Word| w@)),
{
    let ghost wv = words@.map_values(|w: Word| w@);
    let mut out: Vec<Token> = Vec::new();
    let mut i: usize = 0;
    while i < words.len()
        invariant
            i <= words@.len(),
            wv == words@.map_values(|w: Word| w@),
            out@.len() == i,
            forall|k: int| 0 <= k < i ==> #[trigger] is_control_token(out@[k], wv[k], k),
        decreases words@.len() - i,
    {
        let t = match &words[i] {
            Word::Name(s) => Token::Name(string_of(chars_of(s.as_str()).as_slice()), i),
            _ => Token::Word(i),
        };
        let ghost before = out@;
        out.push(t);
        proof {
            assert forall|k: int| 0 <= k < i + 1 implies #[trigger] is_control_token(out@[k], wv[k], k) by {
                if k < i {
                    assert(out@[k] == before[k]);
                }
            }
        }
        i += 1;
    }
    out
}

/// Gathering the control structures of words holding no control word
/// leaves them as they are: they are complete, every way of gathering them
/// ends where it began, and gathering neither fails nor waits for input.
pub proof fn law_resolving_without_controls(s: Seq<Token>, f: nat)
    requires
        controls_free(s),
    ensures
        complete(s),
        !insufficient(s),
        forall|t: Seq<Token>| #[trigger] resolved(s, t, f) ==> t == s,
        forall|e: ControlError| !#[trigger] fails(s, e, f),
{
    lemma_none_where(s, is_assert_pred());
    lemma_none_where(s, is_dd_start_pred());
    lemma_none_where(s, is_stat_start_pred());
    assert(no_asserts(s)) by {
        assert forall|k: int| 0 <= k < s.len() implies !(is_assert_pred())(#[trigger] s[k]) by {
            assert(!is_control_symbol(s[k]));
        }
    }
    assert(no_dd_starts(s)) by {
        assert forall|k: int| 0 <= k < s.len() implies !(is_dd_start_pred())(#[trigger] s[k]) by {
            assert(!is_control_symbol(s[k]));
        }
    }
    assert(no_stat_starts(s)) by {
        assert forall|k: int| 0 <= k < s.len() implies !(is_stat_start_pred())(#[trigger] s[k]) by {
            assert(!is_control_symbol(s[k]));
        }
    }
    assert forall|t: Seq<Token>| #[trigger] resolved(s, t, f) implies t == s by {
        let tr = choose|tr: Seq<Seq<Token>>| #[trigger] trace_of(tr, s, t, f);
        if tr.len() > 1 {
            assert(steps_ok(tr, 0, f));
        }
    }
    assert forall|e: ControlError| !#[trigger] fails(s, e, f) by {
        if fails(s, e, f) {
            let chain = choose|chain: Seq<Seq<Seq<Token>>>| #[trigger] fails_with(s, e, f, chain, 0);
            assert(fails_with(s, e, f, chain, 0));
        }
    }
}

/// The right argument of `m : n`: zero (the body follows on the next
/// lines), a list of characters (the body), or anything else.
pub enum CorBody {
    Zero,
    Chars(Vec<char>),
    Other,
}

/// What `m : n` makes.
pub enum Cor {
    /// `m : 0`: the sentence is suspended until the body has been read;
    /// this is the mode.
    Suspend(i64),
    /// `0 : 'text'`: the text, as a noun.
    Noun(Vec<char>),
    /// A definition: the words of its body, and the definition made of them.
    Define(Vec<Word>, Token),
}

/// The kind of definition a mode number of `m : n` makes.
pub open spec fn cor_kind(m: i64) -> Option<DefKind> {
    if m == 1 {
        Some(DefKind::Adverb)
    } else if m == 2 {
        Some(DefKind::Conjunction)
    } else if m == 3 {
        Some(DefKind::Monad)
    } else if m == 4 {
        Some(DefKind::Dyad)
    } else {
        None
    }
}

/// `m : n` makes an adverb for `m` = 1, a conjunction for 2, a monad for 3
/// and a dyad for 4; no other mode number makes a definition.
pub proof fn law_cor_modes(m: i64)
    ensures
        m == 1 ==> cor_kind(m) == Some(DefKind::Adverb),
        m == 2 ==> cor_kind(m) == Some(DefKind::Conjunction),
        m == 3 ==> cor_kind(m) == Some(DefKind::Monad),
        m == 4 ==> cor_kind(m) == Some(DefKind::Dyad),
        !(1 <= m <= 4) ==> cor_kind(m) is None,
{
}

/// `m : n` for a mode number `m`: with `n` zero, a suspension (the farcical
/// flag set) until the body is read; `0 :` makes the text a noun; `1 :` to
/// `4 :` make an adverb, conjunction, monad or dyad of the scanned body;
/// any other mode is a nonce error, any other body a domain error, and a
/// body that does not scan the scanning error.
pub fn cor(m: i64, n: CorBody) -> (r: Result<(bool, Cor), JError>)
    ensures
        n is Other ==> r == Err::<(bool, Cor), JError>(JError::DomainError),
        n is Zero ==> (r matches Ok((true, Cor::Suspend(k))) && k == m),
        n matches CorBody::Chars(code) ==> {
            if m == 0 {
                r matches Ok((false, Cor::Noun(c))) && c@ == code@
            } else if cor_kind(m) is None {
                r == Err::<(bool, Cor), JError>(JError::NonceError)
            } else {
                match scan_spec(code@) {
                    Err(e) => r matches Err(je) && (e is IllFormedNumber ==> je == JError::IllFormedNumber)
                        && (!(e is IllFormedNumber) ==> (je matches JError::Legacy(msg) && msg@ == scan_message(e))),
                    Ok(ws) => r matches Ok((false, Cor::Define(words, d))) && words@.map_values(|w: Word| w@) == words_only(ws)
                        && (d matches Token::Definition(k, v, _) && Some(k) == cor_kind(m)
                        && control_tokens_of(v@, words_only(ws))),
                }
            }
        },
        r matches Ok((_, Cor::Define(_, Token::Definition(k, _, _)))) ==> {
            ||| (m == 1 && k == DefKind::Adverb)
            ||| (m == 2 && k == DefKind::Conjunction)
            ||| (m == 3 && k == DefKind::Monad)
            ||| (m == 4 && k == DefKind::Dyad)
        },
{
    let code = match n {
        CorBody::Zero => return Ok((true, Cor::Suspend(m))),
        CorBody::Other => return Err(JError::DomainError),
        CorBody::Chars(code) => code,
    };
    let mode = if m == 0 {
        return Ok((false, Cor::Noun(code)));
    } else if m == 1 {
        'a'
    } else if m == 2 {
        'c'
    } else if m == 3 {
        'm'
    } else if m == 4 {
        'd'
    } else {
        return Err(JError::NonceError);
    };
    let text = string_of(code.as_slice());
    let words = match scan(text.as_str()) {
        Ok(w) => w,
        Err(e) => return Err(scan_error(e)),
    };
    let mut tokens = control_tokens(&words);
    let ghost before = tokens@;
    proof {
        assert forall|k: int| 0 <= k < before.len() implies !is_control_symbol(#[trigger] before[k]) by {
            assert(is_control_token(before[k], words@.map_values(|w: Word| w@)[k], k));
        }
        law_resolving_without_controls(before, before.len() as nat);
    }
    match resolve_controls(&mut tokens) {
        Ok(true) => {},
        Ok(false) => {
            return Err(JError::SyntaxError);
        },
        Err(_) => {
            return Err(JError::ControlError);
        },
    }
    assert(tokens@ == before);
    let ghost tr: Seq<Seq<Token>> = seq![before];
    match create_def(mode, tokens, Ghost(tr)) {
        Ok(d) => Ok((false, Cor::Define(words, d))),
        Err(_) => Err(JError::NonceError),
    }
}

} // verus!
