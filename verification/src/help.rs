//! Help for the primitives: what each is called, monadically and
//! dyadically, with its ranks; looked up by spelling or searched by name, and
//! offered as a hint for the line being typed.

use vstd::prelude::*;

use crate::display::strings_view;
use crate::scan::{located_view, scan, scan_spec, scan_with_locations, words_only, ScanError};
use crate::text::{chars_of, same_chars, slice_of, string_of};
use crate::words::{Word, WordV};

verus! {

/// A primitive with its help: its spelling, its monadic and dyadic names,
/// and its monadic, left and right ranks (`_` for infinite).
#[derive(Clone, Copy, Debug, PartialEq, Eq)]
pub struct Primitive(
    pub &'static str,
    pub &'static str,
    pub &'static str,
    pub &'static str,
    pub &'static str,
    pub &'static str,
);

pub open spec fn primitive_spec(
    n: &'static str,
    m: &'static str,
    d: &'static str,
    rm: &'static str,
    rdx: &'static str,
    rdy: &'static str,
) -> Primitive {
    Primitive(n, m, d, rm, rdx, rdy)
}

/// A row of the help table.
pub fn primitive(
    n: &'static str,
    m: &'static str,
    d: &'static str,
    rm: &'static str,
    rdx: &'static str,
    rdy: &'static str,
) -> (p: Primitive)
    ensures
        p == primitive_spec(n, m, d, rm, rdx, rdy),
{
    Primitive(n, m, d, rm, rdx, rdy)
}

/// The help table, in the order it is searched.
pub open spec fn primitives_spec() -> Seq<Primitive> {
    seq![
        primitive_spec("=", "self classify", "equal", "_", "0", "0"),
        primitive_spec("<", "box", "less than", "_", "0", "0"),
        primitive_spec("<.", "floor", "lesser of min", "0", "0", "0"),
        primitive_spec("<:", "decrement", "less or equal", "0", "0", "0"),
        primitive_spec(">", "open", "larger than", "0", "0", "0"),
        primitive_spec(">.", "ceiling", "larger of max", "0", "0", "0"),
        primitive_spec(">:", "increment", "larger or equal", "0", "0", "0"),
        primitive_spec("+", "conjugate", "plus", "0", "0", "0"),
        primitive_spec("+.", "real imaginary", "gcd or", "0", "0", "0"),
        primitive_spec("+:", "double", "not or", "0", "0", "0"),
        primitive_spec("*", "signum", "times", "0", "0", "0"),
        primitive_spec("*.", "lengthangle", "lcm and", "0", "0", "0"),
        primitive_spec("*:", "square", "not and", "0", "0", "0"),
        primitive_spec("-", "negate", "minus", "0", "0", "0"),
        primitive_spec("-.", "not", "less", "0", "_", "_"),
        primitive_spec("-:", "halve", "match", "_", "_", "0"),
        primitive_spec("%", "reciprocal", "divide", "0", "0", "0"),
        primitive_spec("%.", "matrix inverse", "matrix divide", "2", "_", "2"),
        primitive_spec("%:", "square root", "root", "0", "0", "0"),
        primitive_spec("^", "exponential", "power", "0", "0", "0"),
        primitive_spec("^.", "natural log", "logarithm", "0", "0", "0"),
        primitive_spec("$", "shape of", "shape", "_", "1", "_"),
        primitive_spec("~:", "nub sieve", "not equal", "_", "0", "0"),
        primitive_spec("|", "magnitude", "residue", "0", "0", "0"),
        primitive_spec("|.", "reverse", "rotate shift", "_", "_", "_"),
        primitive_spec(",", "ravel", "append", "_", "_", "_"),
        primitive_spec(",.", "ravel items", "stitch", "_", "_", "_"),
        primitive_spec(",:", "itemize", "laminate", "_", "_", "_"),
        primitive_spec(";", "raze", "link", "_", "_", "_"),
        primitive_spec(";:", "words", "sequential machine", "1", "_", "_"),
        primitive_spec("#", "tally", "copy", "_", "1", "_"),
        primitive_spec("#.", "base ", "base", "1", "1", "1"),
        primitive_spec("#:", "antibase ", "antibase", "_", "1", "0"),
        primitive_spec("!", "factorial", "out of", "0", "0", "0"),
        primitive_spec("/:", "grade up", "sort", "_", "_", "_"),
        primitive_spec("\\:", "grade down", "sort", "_", "_", "_"),
        primitive_spec("[", "same", "left", "_", "_", "_"),
        primitive_spec("]", "same", "right", "_", "_", "_"),
        primitive_spec("{", "catalogue", "from", "1", "0", "_"),
        primitive_spec("{.", "head", "take", "_", "1", "_"),
        primitive_spec("{:", "tail", "not implemented dyad", "_", "_", "_"),
        primitive_spec("{:", "map", "fetch", "_", "1", "_"),
        primitive_spec("}.", "behead", "drop", "_", "1", "_"),
        primitive_spec("\".", "do", "numbers", "1", "_", "_"),
        primitive_spec("\":", "default format", "format", "_", "1", "_"),
        primitive_spec("?", "roll", "deal", "0", "0", "0"),
        primitive_spec("?.", "roll", "deal fixed seed", "_", "0", "0"),
        primitive_spec("A.", "anagram index", "anagram", "1", "0", "_"),
        primitive_spec("C.", "cycledirect", "permute", "1", "1", "_"),
        primitive_spec("e.", "raze in", "member in", "_", "_", "_"),
        primitive_spec("i.", "integers", "index of", "1", "_", "_"),
        primitive_spec("i:", "steps", "index of last", "0", "_", "_"),
        primitive_spec("I.", "indices", "interval index", "1", "_", "_"),
        primitive_spec("j.", "imaginary", "complex", "0", "0", "0"),
        primitive_spec("o.", "pi times", "circle function", "0", "0", "0"),
        primitive_spec("p.", "roots", "polynomial", "1", "1", "0"),
        primitive_spec("p..", "poly deriv", "poly integral", "1", "0", "1"),
        primitive_spec("q:", "prime factors", "prime exponents", "0", "0", "0"),
        primitive_spec("r.", "angle", "polar", "0", "0", "0"),
        primitive_spec("x:", "extend precision", "num denom", "_", "_", "_"),
    ]
}

/// The table of primitives, in order.
fn primitives_table() -> (v: Vec<Primitive>)
    ensures
        v@ == primitives_spec(),
{
    let v = vec![
        primitive("=", "self classify", "equal", "_", "0", "0"),
        primitive("<", "box", "less than", "_", "0", "0"),
        primitive("<.", "floor", "lesser of min", "0", "0", "0"),
        primitive("<:", "decrement", "less or equal", "0", "0", "0"),
        primitive(">", "open", "larger than", "0", "0", "0"),
        primitive(">.", "ceiling", "larger of max", "0", "0", "0"),
        primitive(">:", "increment", "larger or equal", "0", "0", "0"),
        primitive("+", "conjugate", "plus", "0", "0", "0"),
        primitive("+.", "real imaginary", "gcd or", "0", "0", "0"),
        primitive("+:", "double", "not or", "0", "0", "0"),
        primitive("*", "signum", "times", "0", "0", "0"),
        primitive("*.", "lengthangle", "lcm and", "0", "0", "0"),
        primitive("*:", "square", "not and", "0", "0", "0"),
        primitive("-", "negate", "minus", "0", "0", "0"),
        primitive("-.", "not", "less", "0", "_", "_"),
        primitive("-:", "halve", "match", "_", "_", "0"),
        primitive("%", "reciprocal", "divide", "0", "0", "0"),
        primitive("%.", "matrix inverse", "matrix divide", "2", "_", "2"),
        primitive("%:", "square root", "root", "0", "0", "0"),
        primitive("^", "exponential", "power", "0", "0", "0"),
        primitive("^.", "natural log", "logarithm", "0", "0", "0"),
        primitive("$", "shape of", "shape", "_", "1", "_"),
        primitive("~:", "nub sieve", "not equal", "_", "0", "0"),
        primitive("|", "magnitude", "residue", "0", "0", "0"),
        primitive("|.", "reverse", "rotate shift", "_", "_", "_"),
        primitive(",", "ravel", "append", "_", "_", "_"),
        primitive(",.", "ravel items", "stitch", "_", "_", "_"),
        primitive(",:", "itemize", "laminate", "_", "_", "_"),
        primitive(";", "raze", "link", "_", "_", "_"),
        primitive(";:", "words", "sequential machine", "1", "_", "_"),
        primitive("#", "tally", "copy", "_", "1", "_"),
        primitive("#.", "base ", "base", "1", "1", "1"),
        primitive("#:", "antibase ", "antibase", "_", "1", "0"),
        primitive("!", "factorial", "out of", "0", "0", "0"),
        primitive("/:", "grade up", "sort", "_", "_", "_"),
        primitive("\\:", "grade down", "sort", "_", "_", "_"),
        primitive("[", "same", "left", "_", "_", "_"),
        primitive("]", "same", "right", "_", "_", "_"),
        primitive("{", "catalogue", "from", "1", "0", "_"),
        primitive("{.", "head", "take", "_", "1", "_"),
        primitive("{:", "tail", "not implemented dyad", "_", "_", "_"),
        primitive("{:", "map", "fetch", "_", "1", "_"),
        primitive("}.", "behead", "drop", "_", "1", "_"),
        primitive("\".", "do", "numbers", "1", "_", "_"),
        primitive("\":", "default format", "format", "_", "1", "_"),
        primitive("?", "roll", "deal", "0", "0", "0"),
        primitive("?.", "roll", "deal fixed seed", "_", "0", "0"),
        primitive("A.", "anagram index", "anagram", "1", "0", "_"),
        primitive("C.", "cycledirect", "permute", "1", "1", "_"),
        primitive("e.", "raze in", "member in", "_", "_", "_"),
        primitive("i.", "integers", "index of", "1", "_", "_"),
        primitive("i:", "steps", "index of last", "0", "_", "_"),
        primitive("I.", "indices", "interval index", "1", "_", "_"),
        primitive("j.", "imaginary", "complex", "0", "0", "0"),
        primitive("o.", "pi times", "circle function", "0", "0", "0"),
        primitive("p.", "roots", "polynomial", "1", "1", "0"),
        primitive("p..", "poly deriv", "poly integral", "1", "0", "1"),
        primitive("q:", "prime factors", "prime exponents", "0", "0", "0"),
        primitive("r.", "angle", "polar", "0", "0", "0"),
        primitive("x:", "extend precision", "num denom", "_", "_", "_"),
    ];
    assert(v@ =~= primitives_spec());
    v
}

/// A character as Rust's debug format writes it inside a string: quotes
/// and backslashes escaped.
pub open spec fn debug_char(c: char) -> Seq<char> {
    if c == '"' {
        seq!['\\', '"']
    } else if c == '\\' {
        seq!['\\', '\\']
    } else {
        seq![c]
    }
}

pub open spec fn debug_escape(s: Seq<char>) -> Seq<char>
    decreases s.len(),
{
    if s.len() == 0 {
        Seq::empty()
    } else {
        debug_escape(s.drop_last()) + debug_char(s.last())
    }
}

/// Printable ASCII, which Rust's debug format escapes only for quotes and
/// backslashes.
pub open spec fn printable_ascii(s: Seq<char>) -> bool {
    forall|k: int| 0 <= k < s.len() ==> ' ' <= #[trigger] s[k] && s[k] <= '~'
}

/// The help line of a primitive: its spelling quoted, its two names, and its
/// ranks: `"+": 'conjugate' or 'plus' (0 0 0)`.
pub open spec fn help_text(p: Primitive) -> Seq<char> {
    seq!['"'] + debug_escape(p.0@) + "\": '"@ + p.1@ + "' or '"@ + p.2@ + "' ("@ + p.3@ + " "@ + p.4@
        + " "@ + p.5@ + ")"@
}

fn push_chars(out: &mut Vec<char>, s: &str)
    ensures
        final(out)@ == old(out)@ + s@,
{
    let cs = chars_of(s);
    let ghost init = old(out)@;
    let mut i: usize = 0;
    while i < cs.len()
        invariant
            i <= cs@.len(),
            cs@ == s@,
            out@ == init + cs@.take(i as int),
        decreases cs@.len() - i,
    {
        out.push(cs[i]);
        i += 1;
        assert(out@ =~= init + cs@.take(i as int));
    }
    assert(cs@.take(cs@.len() as int) =~= cs@);
}

impl Primitive {
    /// The help line of this primitive.
    pub fn help_str(&self) -> (s: String)
        requires
            printable_ascii(self.0@),
        ensures
            s@ == help_text(*self),
    {
        let mut out: Vec<char> = Vec::new();
        out.push('"');
        let n = chars_of(self.0);
        let ghost head = out@;
        let mut i: usize = 0;
        assert(n@.take(0) =~= Seq::<char>::empty());
        while i < n.len()
            invariant
                i <= n@.len(),
                n@ == self.0@,
                out@ == head + debug_escape(n@.take(i as int)),
            decreases n@.len() - i,
        {
            let c = n[i];
            assert(n@.take(i + 1).drop_last() =~= n@.take(i as int));
            if c == '"' {
                out.push('\\');
                out.push('"');
            } else if c == '\\' {
                out.push('\\');
                out.push('\\');
            } else {
                out.push(c);
            }
            i += 1;
            assert(out@ =~= head + debug_escape(n@.take(i as int)));
        }
        assert(n@.take(n@.len() as int) =~= n@);
        push_chars(&mut out, "\": '");
        push_chars(&mut out, self.1);
        push_chars(&mut out, "' or '");
        push_chars(&mut out, self.2);
        push_chars(&mut out, "' (");
        push_chars(&mut out, self.3);
        push_chars(&mut out, " ");
        push_chars(&mut out, self.4);
        push_chars(&mut out, " ");
        push_chars(&mut out, self.5);
        push_chars(&mut out, ")");
        assert(out@ =~= help_text(*self));
        string_of(out.as_slice())
    }
}

/// Every spelling in the table is printable ASCII.
pub open spec fn table_printable(t: Seq<Primitive>) -> bool {
    forall|k: int| 0 <= k < t.len() ==> printable_ascii(#[trigger] t[k].0@)
}

/// The help of the first primitive of `t` spelt `token`, if any.
pub open spec fn help_in(t: Seq<Primitive>, token: Seq<char>) -> Option<Seq<char>>
    decreases t.len(),
{
    if t.len() == 0 {
        None
    } else if t[0].0@ == token {
        Some(help_text(t[0]))
    } else {
        help_in(t.drop_first(), token)
    }
}

/// `needle` occurs in `hay`.
pub open spec fn contains_sub(hay: Seq<char>, needle: Seq<char>) -> bool {
    exists|i: int| 0 <= i && i + needle.len() <= hay.len() && #[trigger] hay.subrange(i, i + needle.len()) == needle
}

/// The primitives of `t` whose monadic or dyadic name holds `name`, each
/// with its help.
pub open spec fn search_in(t: Seq<Primitive>, name: Seq<char>) -> Seq<(Seq<char>, Seq<char>)>
    decreases t.len(),
{
    if t.len() == 0 {
        Seq::empty()
    } else {
        let rest = search_in(t.drop_last(), name);
        let p = t.last();
        if contains_sub(p.1@, name) || contains_sub(p.2@, name) {
            rest.push((p.0@, help_text(p)))
        } else {
            rest
        }
    }
}

fn contains_str(hay: &str, needle: &[char]) -> (r: bool)
    ensures
        r == contains_sub(hay@, needle@),
{
    let h = chars_of(hay);
    let hl = h.len();
    let nl = needle.len();
    if nl > hl {
        return false;
    }
    if nl == 0 {
        assert(hay@.subrange(0, 0int + needle@.len()) =~= needle@);
        return true;
    }
    let mut i: usize = 0;
    while i <= hl - nl
        invariant
            h@ == hay@,
            hl == h@.len(),
            nl == needle@.len(),
            nl <= hl,
            nl >= 1,
            i <= hl - nl + 1,
            forall|j: int| 0 <= j < i ==> #[trigger] h@.subrange(j, j + nl) != needle@,
        decreases hl - nl + 1 - i,
    {
        let part = slice_of(h.as_slice(), i, i + nl);
        if same_chars(part.as_slice(), needle) {
            assert(hay@.subrange(i as int, i + needle@.len()) == needle@);
            return true;
        }
        i += 1;
    }
    false
}

pub open spec fn hits_view(v: Seq<(&'static str, String)>) -> Seq<(Seq<char>, Seq<char>)> {
    v.map_values(|h: (&'static str, String)| (h.0@, h.1@))
}

/// The help of the primitive spelt `token`, if there is one.
pub fn help(token: &str) -> (r: Option<String>)
    ensures
        r matches Some(s) ==> help_in(primitives_spec(), token@) == Some(s@),
        r is None ==> help_in(primitives_spec(), token@) is None,
{
    let t = primitives_table();
    proof {
        lemma_table_printable();
    }
    let tok = chars_of(token);
    let mut i: usize = 0;
    assert(t@.skip(0) =~= t@);
    while i < t.len()
        invariant
            t@ == primitives_spec(),
            table_printable(t@),
            tok@ == token@,
            i <= t@.len(),
            help_in(t@, token@) == help_in(t@.skip(i as int), token@),
        decreases t@.len() - i,
    {
        let p = t[i];
        assert(t@.skip(i as int).drop_first() =~= t@.skip(i + 1));
        let name = chars_of(p.0);
        if same_chars(name.as_slice(), tok.as_slice()) {
            return Some(p.help_str());
        }
        i += 1;
    }
    None
}

/// The primitives whose monadic or dyadic name holds `name`, with their
/// spellings and help.
pub fn search_help(name: &str) -> (r: Vec<(&'static str, String)>)
    ensures
        hits_view(r@) == search_in(primitives_spec(), name@),
{
    let t = primitives_table();
    proof {
        lemma_table_printable();
    }
    let needle = chars_of(name);
    let mut out: Vec<(&'static str, String)> = Vec::new();
    let mut i: usize = 0;
    assert(hits_view(out@) =~= search_in(t@.take(0), name@));
    while i < t.len()
        invariant
            t@ == primitives_spec(),
            table_printable(t@),
            needle@ == name@,
            i <= t@.len(),
            hits_view(out@) == search_in(t@.take(i as int), name@),
        decreases t@.len() - i,
    {
        let p = t[i];
        assert(t@.take(i + 1).drop_last() =~= t@.take(i as int));
        assert(t@.take(i + 1).last() == p);
        if contains_str(p.1, needle.as_slice()) || contains_str(p.2, needle.as_slice()) {
            let h = p.help_str();
            let ghost before = out@;
            out.push((p.0, h));
            assert(hits_view(out@) =~= hits_view(before).push((p.0@, help_text(p))));
        }
        i += 1;
    }
    assert(t@.take(t@.len() as int) =~= t@);
    out
}

proof fn lemma_table_printable()
    ensures
        table_printable(primitives_spec()),
{
    let t = primitives_spec();
    assert forall|k: int| 0 <= k < t.len() implies printable_ascii(#[trigger] t[k].0@) by {
        if k == 0 {
            reveal_strlit("=");
        }
        if k == 1 {
            reveal_strlit("<");
        }
        if k == 2 {
            reveal_strlit("<.");
        }
        if k == 3 {
            reveal_strlit("<:");
        }
        if k == 4 {
            reveal_strlit(">");
        }
        if k == 5 {
            reveal_strlit(">.");
        }
        if k == 6 {
            reveal_strlit(">:");
        }
        if k == 7 {
            reveal_strlit("+");
        }
        if k == 8 {
            reveal_strlit("+.");
        }
        if k == 9 {
            reveal_strlit("+:");
        }
        if k == 10 {
            reveal_strlit("*");
        }
        if k == 11 {
            reveal_strlit("*.");
        }
        if k == 12 {
            reveal_strlit("*:");
        }
        if k == 13 {
            reveal_strlit("-");
        }
        if k == 14 {
            reveal_strlit("-.");
        }
        if k == 15 {
            reveal_strlit("-:");
        }
        if k == 16 {
            reveal_strlit("%");
        }
        if k == 17 {
            reveal_strlit("%.");
        }
        if k == 18 {
            reveal_strlit("%:");
        }
        if k == 19 {
            reveal_strlit("^");
        }
        if k == 20 {
            reveal_strlit("^.");
        }
        if k == 21 {
            reveal_strlit("$");
        }
        if k == 22 {
            reveal_strlit("~:");
        }
        if k == 23 {
            reveal_strlit("|");
        }
        if k == 24 {
            reveal_strlit("|.");
        }
        if k == 25 {
            reveal_strlit(",");
        }
        if k == 26 {
            reveal_strlit(",.");
        }
        if k == 27 {
            reveal_strlit(",:");
        }
        if k == 28 {
            reveal_strlit(";");
        }
        if k == 29 {
            reveal_strlit(";:");
        }
        if k == 30 {
            reveal_strlit("#");
        }
        if k == 31 {
            reveal_strlit("#.");
        }
        if k == 32 {
            reveal_strlit("#:");
        }
        if k == 33 {
            reveal_strlit("!");
        }
        if k == 34 {
            reveal_strlit("/:");
        }
        if k == 35 {
            reveal_strlit("\\:");
        }
        if k == 36 {
            reveal_strlit("[");
        }
        if k == 37 {
            reveal_strlit("]");
        }
        if k == 38 {
            reveal_strlit("{");
        }
        if k == 39 {
            reveal_strlit("{.");
        }
        if k == 40 {
            reveal_strlit("{:");
        }
        if k == 41 {
            reveal_strlit("{:");
        }
        if k == 42 {
            reveal_strlit("}.");
        }
        if k == 43 {
            reveal_strlit("\".");
        }
        if k == 44 {
            reveal_strlit("\":");
        }
        if k == 45 {
            reveal_strlit("?");
        }
        if k == 46 {
            reveal_strlit("?.");
        }
        if k == 47 {
            reveal_strlit("A.");
        }
        if k == 48 {
            reveal_strlit("C.");
        }
        if k == 49 {
            reveal_strlit("e.");
        }
        if k == 50 {
            reveal_strlit("i.");
        }
        if k == 51 {
            reveal_strlit("i:");
        }
        if k == 52 {
            reveal_strlit("I.");
        }
        if k == 53 {
            reveal_strlit("j.");
        }
        if k == 54 {
            reveal_strlit("o.");
        }
        if k == 55 {
            reveal_strlit("p.");
        }
        if k == 56 {
            reveal_strlit("p..");
        }
        if k == 57 {
            reveal_strlit("q:");
        }
        if k == 58 {
            reveal_strlit("r.");
        }
        if k == 59 {
            reveal_strlit("x:");
        }
    }
}

/// The help line of the primitive spelt `t`, if there is one.
pub open spec fn help_piece(t: Seq<char>) -> Seq<Seq<char>> {
    match help_in(primitives_spec(), t) {
        Some(h) => seq![h],
        None => Seq::empty(),
    }
}

/// The help for one word of a line: for a primitive verb not helped with
/// yet, its help line; for a name of three or more characters, the help of
/// each primitive whose name holds it.
pub open spec fn hint_pieces(ws: Seq<WordV>, helped: Seq<Seq<char>>) -> Seq<Seq<char>>
    decreases ws.len(),
{
    if ws.len() == 0 {
        Seq::empty()
    } else {
        match ws[0] {
            WordV::Verb(t, _) => if helped.contains(t) {
                hint_pieces(ws.drop_first(), helped)
            } else {
                help_piece(t) + hint_pieces(ws.drop_first(), helped.push(t))
            },
            WordV::Name(n) => if n.len() >= 3 {
                search_in(primitives_spec(), n).map_values(|h: (Seq<char>, Seq<char>)| h.1)
                    + hint_pieces(ws.drop_first(), helped)
            } else {
                hint_pieces(ws.drop_first(), helped)
            },
            _ => hint_pieces(ws.drop_first(), helped),
        }
    }
}

/// The pieces of help put one after another, each followed by `; `, until
/// the text runs past seventy characters.
pub open spec fn fill_buf(buf: Seq<char>, pieces: Seq<Seq<char>>) -> Seq<char>
    decreases pieces.len(),
{
    if pieces.len() == 0 || buf.len() > 70 {
        buf
    } else {
        fill_buf(buf + pieces[0] + "; "@, pieces.drop_first())
    }
}

/// The hint for a line being typed: the help for its words, the last word
/// first, set off by two spaces; none for an empty line, a line that does
/// not scan, or one with nothing to help with.  (All help text is ASCII, so
/// its length in characters is its length in bytes.)
pub open spec fn hint_spec(line: Seq<char>) -> Option<Seq<char>> {
    if line.len() == 0 {
        None
    } else {
        match scan_spec(line) {
            Err(_) => None,
            Ok(ws) => {
                let buf = fill_buf(Seq::empty(), hint_pieces(words_only(ws).reverse(), Seq::empty()));
                if buf.len() == 0 {
                    None
                } else {
                    Some("  "@ + buf.take(buf.len() - 2))
                }
            },
        }
    }
}

/// A hint shown after the line being typed.
pub struct CommandHint(String);

impl View for CommandHint {
    type V = Seq<char>;

    closed spec fn view(&self) -> Seq<char> {
        self.0@
    }
}

impl CommandHint {
    pub fn new(val: &str) -> (h: Self)
        ensures
            h@ == val@,
    {
        CommandHint(val.to_owned())
    }

    /// The text of the hint.
    pub fn display(&self) -> (s: &str)
        ensures
            s@ == self@,
    {
        self.0.as_str()
    }
}

fn seen(helped: &Vec<Vec<char>>, t: &[char]) -> (r: bool)
    ensures
        r == helped@.map_values(|v: Vec<char>| v@).contains(t@),
{
    let ghost hv = helped@.map_values(|v: Vec<char>| v@);
    let mut i: usize = 0;
    while i < helped.len()
        invariant
            i <= helped@.len(),
            hv == helped@.map_values(|v: Vec<char>| v@),
            forall|j: int| 0 <= j < i ==> hv[j] != t@,
        decreases helped@.len() - i,
    {
        if same_chars(helped[i].as_slice(), t) {
            assert(hv[i as int] == t@);
            return true;
        }
        i += 1;
    }
    false
}

/// The hint for the line being typed, if there is one.
pub fn hint(line: &str) -> (r: Option<CommandHint>)
    ensures
        r matches Some(h) ==> hint_spec(line@) == Some(h@),
        r is None ==> hint_spec(line@) is None,
{
    let lc = chars_of(line);
    if lc.len() == 0 {
        return None;
    }
    let words = match scan(line) {
        Ok(v) => v,
        Err(_) => {
            return None;
        },
    };
    let ghost ws = scan_spec(line@)->Ok_0;
    let ghost wv = words_only(ws).reverse();
    let mut pieces: Vec<String> = Vec::new();
    let mut helped: Vec<Vec<char>> = Vec::new();
    let mut k = words.len();
    let ghost hv0 = Seq::<Seq<char>>::empty();
    assert(helped@.map_values(|v: Vec<char>| v@) =~= hv0);
    assert(wv.skip(0) =~= wv);
    assert(strings_view(pieces@) =~= Seq::<Seq<char>>::empty());
    while k > 0
        invariant
            k <= words@.len(),
            words@.map_values(|w: Word| w@) == words_only(ws),
            wv == words_only(ws).reverse(),
            hint_pieces(wv, hv0) == strings_view(pieces@) + hint_pieces(
                wv.skip(words@.len() - k),
                helped@.map_values(|v: Vec<char>| v@),
            ),
        decreases k,
    {
        k -= 1;
        let ghost i = words@.len() - k - 1;
        let ghost rest = wv.skip(i);
        let ghost before = strings_view(pieces@);
        let ghost hb = helped@.map_values(|v: Vec<char>| v@);
        assert(wv[i] == words@[k as int]@);
        assert(rest[0] == wv[i]);
        assert(rest.drop_first() =~= wv.skip(i + 1));
        match &words[k] {
            Word::Verb(t, _) => {
                let tc = chars_of(t.as_str());
                if !seen(&helped, tc.as_slice()) {
                    match help(t.as_str()) {
                        Some(h) => {
                            pieces.push(h);
                        },
                        None => {},
                    }
                    helped.push(tc);
                    assert(helped@.map_values(|v: Vec<char>| v@) =~= hb.push(t@));
                }
            },
            Word::Name(n) => {
                let nc = chars_of(n.as_str());
                if nc.len() >= 3 {
                    let hits = search_help(n.as_str());
                    let mut j: usize = 0;
                    let ghost hs = search_in(primitives_spec(), n@).map_values(|h: (Seq<char>, Seq<char>)| h.1);
                    while j < hits.len()
                        invariant
                            j <= hits@.len(),
                            hits_view(hits@) == search_in(primitives_spec(), n@),
                            hs == search_in(primitives_spec(), n@).map_values(|h: (Seq<char>, Seq<char>)| h.1),
                            strings_view(pieces@) == before + hs.take(j as int),
                        decreases hits@.len() - j,
                    {
                        let ghost prev = strings_view(pieces@);
                        pieces.push(hits[j].1.clone());
                        j += 1;
                        assert(hits_view(hits@)[j - 1].1 == hits@[j - 1].1@);
                        assert(hs[j - 1] == hits_view(hits@)[j - 1].1);
                        assert(strings_view(pieces@) =~= prev.push(hs[j - 1]));
                        assert(strings_view(pieces@) =~= before + hs.take(j as int));
                    }
                    assert(hs.take(hits@.len() as int) =~= hs);
                }
            },
            _ => {},
        }
        assert(strings_view(pieces@) + hint_pieces(wv.skip(i + 1), helped@.map_values(|v: Vec<char>| v@))
            =~= before + hint_pieces(rest, hb));
    }
    assert(wv.skip(words@.len() as int) =~= Seq::<WordV>::empty());
    assert(strings_view(pieces@) + Seq::<Seq<char>>::empty() =~= strings_view(pieces@));
    let mut buf: Vec<char> = Vec::new();
    let mut j: usize = 0;
    let ghost pv = strings_view(pieces@);
    assert(pv.skip(0) =~= pv);
    while j < pieces.len() && buf.len() <= 70
        invariant
            buf@.len() == 0 || buf@.len() >= 2,
            j <= pieces@.len(),
            pv == strings_view(pieces@),
            fill_buf(Seq::empty(), pv) == fill_buf(buf@, pv.skip(j as int)),
        decreases pieces@.len() - j,
    {
        assert(pv.skip(j as int)[0] == pieces@[j as int]@);
        assert(pv.skip(j as int).drop_first() =~= pv.skip(j + 1));
        push_chars(&mut buf, pieces[j].as_str());
        push_chars(&mut buf, "; ");
        proof {
            reveal_strlit("; ");
        }
        j += 1;
    }
    assert(fill_buf(buf@, pv.skip(j as int)) == buf@);
    if buf.len() == 0 {
        return None;
    }
    let mut out: Vec<char> = Vec::new();
    push_chars(&mut out, "  ");
    let ghost head = out@;
    let mut c: usize = 0;
    let keep = buf.len() - 2;
    while c < keep
        invariant
            keep == buf@.len() - 2,
            c <= keep,
            out@ == head + buf@.take(c as int),
        decreases keep - c,
    {
        out.push(buf[c]);
        c += 1;
        assert(out@ =~= head + buf@.take(c as int));
    }
    Some(CommandHint(string_of(out.as_slice())))
}

/// The last name among some located words, with where it starts.
pub open spec fn last_name(ws: Seq<((int, int), WordV)>) -> Option<(int, Seq<char>)>
    decreases ws.len(),
{
    if ws.len() == 0 {
        None
    } else {
        match ws.last().1 {
            WordV::Name(n) => Some((ws.last().0.0, n)),
            _ => last_name(ws.drop_last()),
        }
    }
}

/// What completing a line offers: where the last name in it starts, and
/// the spellings of the primitives whose names hold it; nothing, from the
/// start of the line, when it does not scan or holds no name.
pub open spec fn completion_spec(line: Seq<char>) -> (int, Seq<Seq<char>>) {
    match scan_spec(line) {
        Err(_) => (0, Seq::empty()),
        Ok(ws) => match last_name(ws) {
            None => (0, Seq::empty()),
            Some((p, n)) => (p, search_in(primitives_spec(), n).map_values(|h: (Seq<char>, Seq<char>)| h.0)),
        },
    }
}

/// The spellings of the primitives whose names hold `name`.
fn spellings(name: &str) -> (r: Vec<&'static str>)
    ensures
        r@.map_values(|s: &'static str| s@) == search_in(primitives_spec(), name@).map_values(|h: (Seq<char>, Seq<char>)| h.0),
{
    let hits = search_help(name);
    let ghost hs = search_in(primitives_spec(), name@).map_values(|h: (Seq<char>, Seq<char>)| h.0);
    let mut out: Vec<&'static str> = Vec::new();
    let mut j: usize = 0;
    while j < hits.len()
        invariant
            j <= hits@.len(),
            hits_view(hits@) == search_in(primitives_spec(), name@),
            hs == search_in(primitives_spec(), name@).map_values(|h: (Seq<char>, Seq<char>)| h.0),
            out@.map_values(|s: &'static str| s@) == hs.take(j as int),
        decreases hits@.len() - j,
    {
        let ghost prev = out@.map_values(|s: &'static str| s@);
        out.push(hits[j].0);
        assert(hits_view(hits@)[j as int].0 == hits@[j as int].0@);
        assert(hs[j as int] == hits_view(hits@)[j as int].0);
        assert(out@.map_values(|s: &'static str| s@) =~= prev.push(hs[j as int]));
        j += 1;
        assert(out@.map_values(|s: &'static str| s@) =~= hs.take(j as int));
    }
    assert(hs.take(hits@.len() as int) =~= hs);
    out
}

/// The spellings of primitives offered to complete the last name on a line,
/// and where that name starts.
pub fn completion(line: &str) -> (r: (usize, Vec<&'static str>))
    ensures
        r.0 == completion_spec(line@).0,
        r.1@.map_values(|s: &'static str| s@) == completion_spec(line@).1,
{
    let v = match scan_with_locations(line) {
        Ok(v) => v,
        Err(_) => return (0, Vec::new()),
    };
    let ghost lv = located_view(v@);
    let mut k = v.len();
    assert(lv.take(k as int) =~= lv);
    while k > 0
        invariant
            k <= v@.len(),
            lv == located_view(v@),
            scan_spec(line@) == Ok::<Seq<((int, int), WordV)>, ScanError>(lv),
            last_name(lv) == last_name(lv.take(k as int)),
        decreases k,
    {
        let ghost tk = lv.take(k as int);
        assert(tk.drop_last() =~= lv.take(k - 1));
        assert(tk.last() == lv[k - 1]);
        match &v[k - 1] {
            ((p, _), Word::Name(n)) => {
                return (*p, spellings(n.as_str()));
            },
            _ => {},
        }
        k -= 1;
    }
    assert(lv.take(0) =~= Seq::<((int, int), WordV)>::empty());
    (0, Vec::new())
}

/// How a word is coloured on the command line.
#[derive(Clone, Copy, Debug, PartialEq, Eq, Structural)]
pub enum WordClass {
    Verb,
    Noun,
    Adverb,
    Name,
    Conjunction,
}

/// The colour of a word, if it has one.
pub open spec fn word_class(w: WordV) -> Option<WordClass> {
    match w {
        WordV::Verb(_, _) => Some(WordClass::Verb),
        WordV::Noun(_) => Some(WordClass::Noun),
        WordV::Adverb(_, _) => Some(WordClass::Adverb),
        WordV::Name(_) => Some(WordClass::Name),
        WordV::Conjunction(_, _) => Some(WordClass::Conjunction),
        _ => None,
    }
}

/// The coloured spans of the first `n` words, the last word first.
pub open spec fn spans_of(ws: Seq<((int, int), WordV)>, n: int) -> Seq<((int, int), WordClass)>
    decreases n,
{
    if n <= 0 {
        Seq::empty()
    } else {
        let (pos, w) = ws[n - 1];
        match word_class(w) {
            Some(c) => seq![(pos, c)] + spans_of(ws, n - 1),
            None => spans_of(ws, n - 1),
        }
    }
}

/// The colouring of a line being typed: the span of each word that has a
/// colour (from its first character to its last) with its colour, the last
/// word first; `None` for a line that does not scan, which is shown all in
/// red.
pub open spec fn highlight_spec(line: Seq<char>) -> Option<Seq<((int, int), WordClass)>> {
    match scan_spec(line) {
        Err(_) => None,
        Ok(ws) => Some(spans_of(ws, ws.len() as int)),
    }
}

/// The coloured spans of a line being typed, the last word first.
pub fn highlights(line: &str) -> (r: Option<Vec<((usize, usize), WordClass)>>)
    ensures
        match highlight_spec(line@) {
            None => r is None,
            Some(s) => r matches Some(v) && v@.map_values(|x: ((usize, usize), WordClass)| ((x.0.0 as int, x.0.1 as int), x.1)) == s,
        },
{
    let v = match scan_with_locations(line) {
        Ok(v) => v,
        Err(_) => return None,
    };
    let ghost lv = located_view(v@);
    let mut out: Vec<((usize, usize), WordClass)> = Vec::new();
    let mut k = v.len();
    while k > 0
        invariant
            k <= v@.len(),
            lv == located_view(v@),
            spans_of(lv, lv.len() as int) == out@.map_values(|x: ((usize, usize), WordClass)| ((x.0.0 as int, x.0.1 as int), x.1)) + spans_of(lv, k as int),
        decreases k,
    {
        let ghost before = out@.map_values(|x: ((usize, usize), WordClass)| ((x.0.0 as int, x.0.1 as int), x.1));
        let (pos, w) = &v[k - 1];
        assert(lv[k - 1] == ((pos.0 as int, pos.1 as int), w@));
        let class = match w {
            Word::Verb(_, _) => Some(WordClass::Verb),
            Word::Noun(_) => Some(WordClass::Noun),
            Word::Adverb(_, _) => Some(WordClass::Adverb),
            Word::Name(_) => Some(WordClass::Name),
            Word::Conjunction(_, _) => Some(WordClass::Conjunction),
            _ => None,
        };
        match class {
            Some(c) => {
                out.push((*pos, c));
                assert(out@.map_values(|x: ((usize, usize), WordClass)| ((x.0.0 as int, x.0.1 as int), x.1)) =~= before.push(((pos.0 as int, pos.1 as int), c)));
                assert(before.push(((pos.0 as int, pos.1 as int), c)) + spans_of(lv, k - 1) =~= before + spans_of(lv, k as int));
            },
            None => {},
        }
        k -= 1;
    }
    assert(out@.map_values(|x: ((usize, usize), WordClass)| ((x.0.0 as int, x.0.1 as int), x.1)) + Seq::<((int, int), WordClass)>::empty() =~= out@.map_values(|x: ((usize, usize), WordClass)| ((x.0.0 as int, x.0.1 as int), x.1)));
    Some(out)
}

} // verus!
