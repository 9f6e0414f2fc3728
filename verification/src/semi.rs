//! Verbs that may still be names, and names written back out as J text.

use vstd::prelude::*;

use crate::primitives::VerbEntry;
use crate::scan::{quote_end, scan_litstring, unquote, is_one_byte};
use crate::text::{chars_of, string_of};
use crate::words::{Literal, LiteralV, Word, WordV};

verus! {

/// A verb, or a name that will stand for one once it is looked up.
#[derive(Clone, Debug, PartialEq, Eq)]
pub enum MaybeVerb {
    Verb(VerbEntry),
    Name(String),
}

/// A verb (or name) or a noun.
#[derive(Clone, Debug, PartialEq, Eq)]
pub enum VerbNoun {
    Verb(MaybeVerb),
    Noun(Literal),
}

pub open spec fn maybe_verb_view(m: MaybeVerb) -> WordV {
    match m {
        MaybeVerb::Verb(e) => WordV::Verb(e.token@, e),
        MaybeVerb::Name(s) => WordV::Name(s@),
    }
}

impl MaybeVerb {
    /// The word this stands for: a primitive verb under its own spelling, or
    /// the name.
    pub fn into_word(self) -> (w: Word)
        ensures
            w@ == maybe_verb_view(self),
    {
        match self {
            MaybeVerb::Verb(e) => Word::Verb(e.token.to_owned(), e),
            MaybeVerb::Name(s) => Word::Name(s),
        }
    }
}

/// A verb or a name, as a word that may be one.
pub fn when_verb(w: &Word) -> (r: Option<MaybeVerb>)
    ensures
        r matches Some(m) ==> (w@ is Verb && m == MaybeVerb::Verb(w@->Verb_1)) || (w@ is Name
            && m is Name && m->Name_0@ == w@->Name_0),
        r is None <==> !(w@ is Verb || w@ is Name),
{
    match w {
        Word::Verb(_, e) => Some(MaybeVerb::Verb(*e)),
        Word::Name(s) => Some(MaybeVerb::Name(s.clone())),
        _ => None,
    }
}

/// A verb, a name or a noun, as a word that may be one.
pub fn when_verb_noun(w: &Word) -> (r: Option<VerbNoun>)
    ensures
        r matches Some(VerbNoun::Verb(m)) ==> (w@ is Verb && m == MaybeVerb::Verb(w@->Verb_1))
            || (w@ is Name && m is Name && m->Name_0@ == w@->Name_0),
        r matches Some(VerbNoun::Noun(l)) ==> w@ == WordV::Noun(l@),
        r is None <==> !(w@ is Verb || w@ is Name || w@ is Noun),
{
    match w {
        Word::Noun(l) => Some(VerbNoun::Noun(clone_literal(l))),
        Word::Verb(_, e) => Some(VerbNoun::Verb(MaybeVerb::Verb(*e))),
        Word::Name(s) => Some(VerbNoun::Verb(MaybeVerb::Name(s.clone()))),
        _ => None,
    }
}

fn clone_literal(l: &Literal) -> (r: Literal)
    ensures
        r@ == l@,
{
    match l {
        Literal::Numbers(ts) => {
            let mut v = Vec::new();
            let mut i: usize = 0;
            while i < ts.len()
                invariant
                    i <= ts@.len(),
                    v@.map_values(|t: crate::number::NumTerm| t@) == ts@.take(i as int).map_values(|t: crate::number::NumTerm| t@),
                decreases ts@.len() - i,
            {
                let ghost before = v@;
                v.push(crate::number::clone_term(&ts[i]));
                assert(v@.map_values(|t: crate::number::NumTerm| t@) =~= before.map_values(|t: crate::number::NumTerm| t@).push(ts@[i as int]@));
                assert(ts@.take(i + 1).map_values(|t: crate::number::NumTerm| t@) =~= ts@.take(i as int).map_values(|t: crate::number::NumTerm| t@).push(ts@[i as int]@));
                i += 1;
                assert(v@.map_values(|t: crate::number::NumTerm| t@) =~= ts@.take(i as int).map_values(|t: crate::number::NumTerm| t@));
            }
            assert(ts@.take(ts@.len() as int) =~= ts@);
            Literal::Numbers(v)
        },
        Literal::Char(c) => Literal::Char(*c),
        Literal::Chars(cs) => {
            let mut v: Vec<char> = Vec::new();
            let mut i: usize = 0;
            while i < cs.len()
                invariant
                    i <= cs@.len(),
                    v@ == cs@.take(i as int),
                decreases cs@.len() - i,
            {
                v.push(cs[i]);
                i += 1;
                assert(v@ =~= cs@.take(i as int));
            }
            assert(cs@.take(cs@.len() as int) =~= cs@);
            Literal::Chars(v)
        },
    }
}

/// Each quote doubled.
pub open spec fn double_quotes(s: Seq<char>) -> Seq<char>
    decreases s.len(),
{
    if s.len() == 0 {
        Seq::empty()
    } else if s[0] == '\'' {
        seq!['\'', '\''] + double_quotes(s.drop_first())
    } else {
        seq![s[0]] + double_quotes(s.drop_first())
    }
}

/// A string as J writes it: in quotes, each quote in it doubled.
pub open spec fn quoted(s: Seq<char>) -> Seq<char> {
    seq!['\''] + double_quotes(s) + seq!['\'']
}

/// Writes a string as J would: in quotes, each quote in it doubled.
pub fn quote_string(s: &str) -> (q: String)
    ensures
        q@ == quoted(s@),
{
    let cs = chars_of(s);
    let mut out: Vec<char> = Vec::new();
    out.push('\'');
    let mut i = cs.len();
    let mut body: Vec<char> = Vec::new();
    let ghost all = cs@;
    // build the doubled text from the back, so each step is a prefix of the rest
    assert(all.skip(all.len() as int) =~= Seq::<char>::empty());
    while i > 0
        invariant
            i <= all.len(),
            cs@ == all,
            body@.reverse() == double_quotes(all.skip(i as int)),
        decreases i,
    {
        i -= 1;
        let ghost before = body@;
        assert(all.skip(i as int).drop_first() =~= all.skip(i + 1));
        assert(all.skip(i as int)[0] == cs@[i as int]);
        if cs[i] == '\'' {
            body.push('\'');
            body.push('\'');
            assert(body@.reverse() =~= seq!['\'', '\''] + before.reverse());
        } else {
            body.push(cs[i]);
            assert(body@.reverse() =~= seq![cs@[i as int]] + before.reverse());
        }
    }
    assert(all.skip(0) =~= all);
    let ghost head = out@;
    let mut k = body.len();
    assert(body@.reverse().take(0) =~= Seq::<char>::empty());
    while k > 0
        invariant
            k <= body@.len(),
            out@ == head + body@.reverse().take(body@.len() - k),
        decreases k,
    {
        k -= 1;
        out.push(body[k]);
        assert(body@.reverse()[body@.len() - k - 1] == body@[k as int]);
        assert(out@ =~= head + body@.reverse().take(body@.len() - k));
    }
    assert(body@.reverse().take(body@.len() as int) =~= body@.reverse());
    out.push('\'');
    assert(out@ =~= quoted(s@));
    string_of(out.as_slice())
}

pub proof fn lemma_unquote_doubled(s: Seq<char>)
    ensures
        unquote(double_quotes(s)) == s,
    decreases s.len(),
{
    if s.len() > 0 {
        lemma_unquote_doubled(s.drop_first());
        let d = double_quotes(s);
        let rest = double_quotes(s.drop_first());
        if s[0] == '\'' {
            assert(d == seq!['\'', '\''] + rest);
            assert(d.skip(2) =~= rest);
        } else {
            assert(d == seq![s[0]] + rest);
            assert(d.drop_first() =~= rest);
        }
        assert(s =~= seq![s[0]] + s.drop_first());
    }
}

pub proof fn lemma_double_quotes_len(s: Seq<char>)
    ensures
        double_quotes(s).len() >= s.len(),
    decreases s.len(),
{
    if s.len() > 0 {
        lemma_double_quotes_len(s.drop_first());
    }
}

pub proof fn lemma_quote_end_doubled(p: Seq<char>, s: Seq<char>)
    requires
        !s.contains('\n'),
    ensures
        quote_end(p + double_quotes(s) + seq!['\''], p.len() as int, false) == Ok::<int, crate::scan::ScanError>(
            (p.len() + double_quotes(s).len()) as int,
        ),
    decreases s.len(),
{
    let q = p + double_quotes(s) + seq!['\''];
    reveal_with_fuel(quote_end, 3);
    if s.len() == 0 {
        assert(q[p.len() as int] == '\'');
    } else {
        let rest = s.drop_first();
        assert forall|k: int| 0 <= k < rest.len() implies rest[k] != '\n' by {
            assert(rest[k] == s[k + 1]);
        }
        if s[0] == '\'' {
            let p2 = p + seq!['\'', '\''];
            lemma_quote_end_doubled(p2, rest);
            assert(q =~= p2 + double_quotes(rest) + seq!['\'']);
            assert(q[p.len() as int] == '\'');
            assert(q[p.len() + 1int] == '\'');
        } else {
            let p2 = p + seq![s[0]];
            lemma_quote_end_doubled(p2, rest);
            assert(q =~= p2 + double_quotes(rest) + seq!['\'']);
            assert(q[p.len() as int] == s[0]);
            assert(s.contains(s[0]));
        }
    }
}

/// The word a quoted string scans as: an atom for one ASCII character, else
/// a list.
pub open spec fn string_noun(s: Seq<char>) -> WordV {
    WordV::Noun(
        if is_one_byte(s) {
            LiteralV::Char(s[0])
        } else {
            LiteralV::Chars(s)
        },
    )
}

/// What `quote_string` writes, the scanner reads back: a string without a
/// line break, quoted, scans as one word, the noun of that same string.
pub proof fn law_quote_then_scan(s: Seq<char>)
    requires
        !s.contains('\n'),
    ensures
        crate::scan::scan_spec(quoted(s)) == Ok::<Seq<((int, int), WordV)>, crate::scan::ScanError>(
            seq![((0, quoted(s).len() - 1), string_noun(s))],
        ),
{
    let q = quoted(s);
    let d = double_quotes(s);
    lemma_quote_end_doubled(seq!['\''], s);
    assert(q =~= seq!['\''] + d + seq!['\'']);
    lemma_unquote_doubled(s);
    assert(q.subrange(1, q.len() - 1) =~= d);
    let l = (q.len() - 1) as nat;
    assert(scan_litstring(q, 0) == Ok::<(nat, WordV), crate::scan::ScanError>((l, string_noun(s))));
    assert(q[0] == '\'');
    assert(crate::scan::scan_from(q, q.len() as int) == Ok::<Seq<((int, int), WordV)>, crate::scan::ScanError>(Seq::empty()));
    assert(seq![((0int, q.len() - 1), string_noun(s))] + Seq::<((int, int), WordV)>::empty() =~= seq![((0int, q.len() - 1), string_noun(s))]);
}

} // verus!
