//! Control structures: `assert.` lines, direct definitions `{{ }}`, and the
//! blocks of `if.`, `for.`, `while.`, `whilst.`, `try.` and `select.`,
//! gathered out of a sentence's words before it is parsed.

use vstd::prelude::*;

use crate::error::JError;
use crate::text::chars_of;

verus! {

/// What a direct definition defines.
#[derive(Clone, Copy, Debug, PartialEq, Eq, Structural)]
pub enum DefKind {
    /// `{{)a`: an adverb.
    Adverb,
    /// `{{)c`: a conjunction.
    Conjunction,
    /// `{{)m`: a monadic verb.
    Monad,
    /// `{{)d`: a dyadic verb.
    Dyad,
}

/// A word of a sentence as the control structures see it.
pub enum Token {
    /// An ordinary word, by the caller's handle.
    Word(usize),
    /// A name (one-letter names tell what a direct definition defines).
    Name(String, usize),
    NewLine,
    Assert,
    DirectDefUnknown,
    DirectDef(char),
    DirectDefEnd,
    If,
    Do,
    Else,
    ElseIf,
    End,
    Try,
    Catch,
    CatchD,
    CatchT,
    Throw,
    Return,
    For(Option<String>),
    While,
    Whilst,
    Select,
    Case,
    AssertLine(Vec<Token>),
    IfBlock(Vec<Token>),
    SelectBlock(Vec<Token>),
    TryBlock(Vec<Token>),
    ForBlock(Option<String>, Vec<Token>),
    WhileBlock(bool, Vec<Token>),
    /// A direct definition: its kind and its words, with how they were
    /// gathered.
    Definition(DefKind, Vec<Token>, Ghost<Seq<Seq<Token>>>),
}

/// Why the control structures of a sentence could not be gathered.
#[derive(Clone, Copy, Debug, PartialEq, Eq, Structural)]
pub enum ControlError {
    /// A direct definition holds a control structure it does not close.
    Unterminated,
    /// A direct definition of a kind not supported.
    UnsupportedDefinition(char),
    /// A control word is left over.
    Unresolved,
}

pub open spec fn is_control_symbol(t: Token) -> bool {
    match t {
        Token::DirectDef(_) | Token::DirectDefUnknown | Token::DirectDefEnd => true,
        Token::If | Token::Do | Token::Else | Token::ElseIf | Token::End => true,
        Token::For(_) | Token::While | Token::Whilst => true,
        Token::Try | Token::Catch | Token::CatchD | Token::CatchT => true,
        Token::Select | Token::Case => true,
        Token::Assert => true,
        _ => false,
    }
}

/// Whether a word is a control word, which must be gathered into a block
/// before the sentence can be parsed.
pub fn is_control(t: &Token) -> (r: bool)
    ensures
        r == is_control_symbol(*t),
{
    match t {
        Token::DirectDef(_) | Token::DirectDefUnknown | Token::DirectDefEnd => true,
        Token::If | Token::Do | Token::Else | Token::ElseIf | Token::End => true,
        Token::For(_) | Token::While | Token::Whilst => true,
        Token::Try | Token::Catch | Token::CatchD | Token::CatchT => true,
        Token::Select | Token::Case => true,
        Token::Assert => true,
        _ => false,
    }
}

pub open spec fn is_dd_start(t: Token) -> bool {
    t is DirectDefUnknown || t is DirectDef
}

pub open spec fn is_stat_start(t: Token) -> bool {
    t is If || t is For || t is While || t is Whilst || t is Try || t is Select
}

/// The last position at which `f` holds, or -1.
pub open spec fn last_where(s: Seq<Token>, f: spec_fn(Token) -> bool) -> int
    decreases s.len(),
{
    if s.len() == 0 {
        -1
    } else if f(s.last()) {
        s.len() - 1
    } else {
        last_where(s.drop_last(), f)
    }
}

/// The first position from `i` on at which `f` holds, or the length.
pub open spec fn first_from(s: Seq<Token>, i: int, f: spec_fn(Token) -> bool) -> int
    decreases s.len() - i,
{
    if i >= s.len() {
        s.len() as int
    } else if f(s[i]) {
        i
    } else {
        first_from(s, i + 1, f)
    }
}

pub proof fn lemma_last_where(s: Seq<Token>, f: spec_fn(Token) -> bool)
    ensures
        -1 <= last_where(s, f) < s.len(),
        last_where(s, f) >= 0 ==> f(s[last_where(s, f)]),
        forall|k: int| last_where(s, f) < k < s.len() ==> !f(#[trigger] s[k]),
    decreases s.len(),
{
    if s.len() > 0 && !f(s.last()) {
        lemma_last_where(s.drop_last(), f);
        assert forall|k: int| last_where(s, f) < k < s.len() implies !f(#[trigger] s[k]) by {
            if k < s.len() - 1 {
                assert(s.drop_last()[k] == s[k]);
            }
        }
    }
}

pub proof fn lemma_first_from(s: Seq<Token>, i: int, f: spec_fn(Token) -> bool)
    requires
        0 <= i <= s.len(),
    ensures
        i <= first_from(s, i, f) <= s.len(),
        first_from(s, i, f) < s.len() ==> f(s[first_from(s, i, f)]),
        forall|k: int| i <= k < first_from(s, i, f) ==> !f(#[trigger] s[k]),
    decreases s.len() - i,
{
    if i < s.len() && !f(s[i]) {
        lemma_first_from(s, i + 1, f);
    }
}

/// The last position at which `f` holds, found from the end.
fn rposition(words: &Vec<Token>, Ghost(f): Ghost<spec_fn(Token) -> bool>, g: impl Fn(&Token) -> bool) -> (r: Option<usize>)
    requires
        forall|t: &Token| #[trigger] g.requires((t,)),
        forall|t: &Token, b: bool| g.ensures((t,), b) ==> b == f(*t),
    ensures
        r matches Some(p) ==> p == last_where(words@, f),
        r is None ==> last_where(words@, f) < 0,
{
    let mut k = words.len();
    assert(words@.take(k as int) =~= words@);
    while k > 0
        invariant
            k <= words@.len(),
            last_where(words@, f) == last_where(words@.take(k as int), f),
            forall|t: &Token| #[trigger] g.requires((t,)),
            forall|t: &Token, b: bool| g.ensures((t,), b) ==> b == f(*t),
        decreases k,
    {
        assert(words@.take(k as int).last() == words@[k - 1]);
        assert(words@.take(k as int).drop_last() =~= words@.take(k - 1));
        if g(&words[k - 1]) {
            return Some(k - 1);
        }
        k -= 1;
    }
    None
}

/// The first position from `i` on at which `f` holds, or the length.
fn position_from(words: &Vec<Token>, i: usize, Ghost(f): Ghost<spec_fn(Token) -> bool>, g: impl Fn(&Token) -> bool) -> (r: usize)
    requires
        i <= words@.len(),
        forall|t: &Token| #[trigger] g.requires((t,)),
        forall|t: &Token, b: bool| g.ensures((t,), b) ==> b == f(*t),
    ensures
        r == first_from(words@, i as int, f),
{
    let mut k = i;
    while k < words.len()
        invariant
            i <= k <= words@.len(),
            first_from(words@, i as int, f) == first_from(words@, k as int, f),
            forall|t: &Token| #[trigger] g.requires((t,)),
            forall|t: &Token, b: bool| g.ensures((t,), b) ==> b == f(*t),
        decreases words@.len() - k,
    {
        if g(&words[k]) {
            return k;
        }
        k += 1;
    }
    k
}

pub open spec fn is_assert(t: Token) -> bool {
    t is Assert
}

pub open spec fn is_newline(t: Token) -> bool {
    t is NewLine
}

pub open spec fn is_dd_end(t: Token) -> bool {
    t is DirectDefEnd
}

pub open spec fn is_end(t: Token) -> bool {
    t is End
}

pub open spec fn is_assert_pred() -> spec_fn(Token) -> bool {
    |t: Token| is_assert(t)
}

pub open spec fn is_newline_pred() -> spec_fn(Token) -> bool {
    |t: Token| is_newline(t)
}

pub open spec fn is_dd_start_pred() -> spec_fn(Token) -> bool {
    |t: Token| is_dd_start(t)
}

pub open spec fn is_dd_end_pred() -> spec_fn(Token) -> bool {
    |t: Token| is_dd_end(t)
}

pub open spec fn is_stat_start_pred() -> spec_fn(Token) -> bool {
    |t: Token| is_stat_start(t)
}

pub open spec fn is_end_pred() -> spec_fn(Token) -> bool {
    |t: Token| is_end(t)
}

/// No control word is left at the top level.
pub open spec fn controls_free(s: Seq<Token>) -> bool {
    forall|k: int| 0 <= k < s.len() ==> !is_control_symbol(#[trigger] s[k])
}

/// `new` is `old` with the words from `p` up to (not including) `e`
/// replaced by `mid`.
pub open spec fn spliced(old: Seq<Token>, new: Seq<Token>, p: int, e: int, mid: Seq<Token>) -> bool {
    &&& new.len() == p + mid.len() + (old.len() - e)
    &&& new.take(p) == old.take(p)
    &&& new.subrange(p, p + mid.len()) == mid
    &&& new.skip(p + mid.len()) == old.skip(e)
}

/// The last `assert.` gathered into one word with the rest of its line.
pub open spec fn assert_step(old: Seq<Token>, new: Seq<Token>) -> bool {
    let p = last_where(old, is_assert_pred());
    let e = first_from(old, p, is_newline_pred());
    &&& p >= 0
    &&& new.len() == p + 1 + (old.len() - e)
    &&& new.take(p) == old.take(p)
    &&& new.skip(p + 1) == old.skip(e)
    &&& new[p] matches Token::AssertLine(v) && v@ == old.subrange(p + 1, e)
}

/// The block a statement's first word starts, holding its words.
pub open spec fn block_of(start: Token, v: Vec<Token>, b: Token) -> bool {
    match start {
        Token::If => b matches Token::IfBlock(w) && w@ == v@,
        Token::Select => b matches Token::SelectBlock(w) && w@ == v@,
        Token::For(i) => b matches Token::ForBlock(j, w) && j == i && w@ == v@,
        Token::While => b matches Token::WhileBlock(false, w) && w@ == v@,
        Token::Whilst => b matches Token::WhileBlock(true, w) && w@ == v@,
        Token::Try => b matches Token::TryBlock(w) && w@ == v@,
        _ => false,
    }
}

/// The last statement (`if.`, `for.`, ... up to its `end.`) gathered into
/// one block, set off by line breaks.
pub open spec fn stat_step(old: Seq<Token>, new: Seq<Token>) -> bool {
    let p = last_where(old, is_stat_start_pred());
    let e = first_from(old, p, is_end_pred()) + 1;
    &&& p >= 0
    &&& e <= old.len()
    &&& new.len() == p + 3 + (old.len() - e)
    &&& new.take(p) == old.take(p)
    &&& new.skip(p + 3) == old.skip(e)
    &&& new[p] is NewLine
    &&& new[p + 2] is NewLine
    &&& exists|v: Vec<Token>| v@ == old.subrange(p + 1, e - 1) && #[trigger] block_of(old[p], v, new[p + 1])
}

/// A one-letter name of the words.
pub open spec fn uses_name(def: Seq<Token>, c: char) -> bool {
    exists|k: int| 0 <= k < def.len() && (#[trigger] def[k] matches Token::Name(n, _) && n@ == seq![c])
}

/// What a direct definition without a kind defines, from the one-letter
/// names it uses: a conjunction for `n` or `v`, else an adverb for `m` or
/// `u`, else a dyad for `x`, else a monad.
pub open spec fn infer_type_spec(def: Seq<Token>) -> char {
    if uses_name(def, 'n') || uses_name(def, 'v') {
        'c'
    } else if uses_name(def, 'm') || uses_name(def, 'u') {
        'a'
    } else if uses_name(def, 'x') {
        'd'
    } else {
        'm'
    }
}

/// The kind of definition a mode letter names.
pub open spec fn def_kind_spec(mode: char) -> Option<DefKind> {
    if mode == 'a' {
        Some(DefKind::Adverb)
    } else if mode == 'c' {
        Some(DefKind::Conjunction)
    } else if mode == 'm' {
        Some(DefKind::Monad)
    } else if mode == 'd' {
        Some(DefKind::Dyad)
    } else {
        None
    }
}

/// The letters of a direct definition's mode: `a` makes an adverb, `c` a
/// conjunction, `m` a monad and `d` a dyad; no other letter makes a
/// definition.
pub proof fn law_def_modes(mode: char)
    ensures
        mode == 'a' ==> def_kind_spec(mode) == Some(DefKind::Adverb),
        mode == 'c' ==> def_kind_spec(mode) == Some(DefKind::Conjunction),
        mode == 'm' ==> def_kind_spec(mode) == Some(DefKind::Monad),
        mode == 'd' ==> def_kind_spec(mode) == Some(DefKind::Dyad),
        !(mode == 'a' || mode == 'c' || mode == 'm' || mode == 'd') ==> def_kind_spec(mode) is None,
{
}

/// A direct definition whose words hold the one-letter name `n` or `v`
/// defines a conjunction; one holding `u` or `m` and neither
/// `n` nor `v` an adverb; one holding `x` and none of those a dyad; one
/// holding none of these names a monad.
pub proof fn law_infer_type_by_names(def: Seq<Token>)
    ensures
        (exists|k: int| 0 <= k < def.len() && (#[trigger] def[k] matches Token::Name(s, _) && (s@ == seq!['n'] || s@ == seq!['v'])))
            ==> infer_type_spec(def) == 'c',
        (forall|k: int| 0 <= k < def.len() ==> !(#[trigger] def[k] matches Token::Name(s, _) && (s@ == seq!['n'] || s@ == seq!['v'])))
            && (exists|k: int| 0 <= k < def.len() && (#[trigger] def[k] matches Token::Name(s, _) && (s@ == seq!['u'] || s@ == seq!['m'])))
            ==> infer_type_spec(def) == 'a',
        (forall|k: int| 0 <= k < def.len() ==> !(#[trigger] def[k] matches Token::Name(s, _) && (s@ == seq!['n'] || s@ == seq!['v'] || s@ == seq!['u'] || s@ == seq!['m'])))
            && (exists|k: int| 0 <= k < def.len() && (#[trigger] def[k] matches Token::Name(s, _) && s@ == seq!['x']))
            ==> infer_type_spec(def) == 'd',
        (forall|k: int| 0 <= k < def.len() ==> !(#[trigger] def[k] matches Token::Name(s, _) && (s@ == seq!['n'] || s@ == seq!['v'] || s@ == seq!['u'] || s@ == seq!['m'] || s@ == seq!['x'])))
            ==> infer_type_spec(def) == 'm',
{
}

/// The mode of the direct definition starting with `start`, given its
/// gathered words.
pub open spec fn dd_mode(start: Token, def: Seq<Token>) -> char {
    match start {
        Token::DirectDef(c) => c,
        _ => infer_type_spec(def),
    }
}

/// No `assert.` is left.
pub open spec fn no_asserts(s: Seq<Token>) -> bool {
    last_where(s, is_assert_pred()) < 0
}

/// No direct definition starts.
pub open spec fn no_dd_starts(s: Seq<Token>) -> bool {
    last_where(s, is_dd_start_pred()) < 0
}

/// No statement starts.
pub open spec fn no_stat_starts(s: Seq<Token>) -> bool {
    last_where(s, is_stat_start_pred()) < 0
}

/// Where the innermost direct definition starts, and where it ends (just
/// after its `}}`; past the end when it has none).
pub open spec fn dd_start(s: Seq<Token>) -> int {
    last_where(s, is_dd_start_pred())
}

pub open spec fn dd_end(s: Seq<Token>) -> int {
    first_from(s, dd_start(s), is_dd_end_pred()) + 1
}

/// The words of the innermost direct definition, between its brackets.
pub open spec fn dd_inner(s: Seq<Token>) -> Seq<Token> {
    s.subrange(dd_start(s) + 1, dd_end(s) - 1)
}

/// The innermost direct definition gathered into one word: its words
/// gathered in turn (the trace the word keeps says how; `f` bounds how deep
/// definitions nest), and its kind read from its mode.
pub open spec fn dd_step(old: Seq<Token>, new: Seq<Token>, f: nat) -> bool
    decreases f, 0nat, 0nat,
{
    let p = dd_start(old);
    let e = dd_end(old);
    let inner = dd_inner(old);
    &&& p >= 0
    &&& e <= old.len()
    &&& inner.len() < f
    &&& new.len() == p + 1 + (old.len() - e)
    &&& new.take(p) == old.take(p)
    &&& new.skip(p + 1) == old.skip(e)
    &&& new[p] matches Token::Definition(k, v, g) && trace_of(g@, inner, v@, inner.len() as nat) && complete(v@)
        && def_kind_spec(dd_mode(old[p], v@)) == Some(k)
}

/// One step of gathering: the last `assert.` while any is left, else the
/// innermost direct definition while any is left, else the last statement.
pub open spec fn control_step(old: Seq<Token>, new: Seq<Token>, f: nat) -> bool
    decreases f, 1nat, 0nat,
{
    if !no_asserts(old) {
        assert_step(old, new)
    } else if !no_dd_starts(old) {
        dd_step(old, new, f)
    } else {
        stat_step(old, new)
    }
}

/// Each state of `tr` from the `i`th on is one gathering step from the one
/// before.
pub open spec fn steps_ok(tr: Seq<Seq<Token>>, i: nat, f: nat) -> bool
    decreases f, 2nat, tr.len() - i,
{
    if i + 1 >= tr.len() {
        true
    } else {
        control_step(tr[i as int], tr[i + 1int], f) && steps_ok(tr, i + 1, f)
    }
}

/// `tr` gathers `a` into `b`, step by step.
pub open spec fn trace_of(tr: Seq<Seq<Token>>, a: Seq<Token>, b: Seq<Token>, f: nat) -> bool
    decreases f, 3nat, 0nat,
{
    tr.len() >= 1 && tr[0] == a && tr.last() == b && steps_ok(tr, 0, f)
}

/// `b` is reached from `a` by gathering steps.
pub open spec fn resolved(a: Seq<Token>, b: Seq<Token>, f: nat) -> bool {
    exists|tr: Seq<Seq<Token>>| #[trigger] trace_of(tr, a, b, f)
}

/// Everything is gathered and no control word is left.
pub open spec fn complete(s: Seq<Token>) -> bool {
    no_asserts(s) && no_dd_starts(s) && no_stat_starts(s) && controls_free(s)
}

/// Gathering must wait for more input: a direct definition, or else a
/// statement, is not closed yet.
pub open spec fn insufficient(s: Seq<Token>) -> bool {
    &&& no_asserts(s)
    &&& if !no_dd_starts(s) {
        dd_end(s) > s.len()
    } else {
        !no_stat_starts(s) && first_from(s, last_where(s, is_stat_start_pred()), is_end_pred()) >= s.len()
    }
}

/// Gathering fails at `s` with `err`: a control word is left over once
/// nothing more can be gathered; or the innermost direct definition's words
/// (gathered as far as `chain[i]` takes them) wait for more input, fail in
/// turn (as the rest of `chain` shows), or name an unsupported kind.
pub open spec fn fails_with(s: Seq<Token>, err: ControlError, f: nat, chain: Seq<Seq<Seq<Token>>>, i: nat) -> bool
    decreases f,
{
    if i >= chain.len() {
        no_asserts(s) && no_dd_starts(s) && no_stat_starts(s) && !controls_free(s) && err == ControlError::Unresolved
    } else {
        let inner = dd_inner(s);
        let tr = chain[i as int];
        let w = tr.last();
        &&& no_asserts(s)
        &&& !no_dd_starts(s)
        &&& dd_end(s) <= s.len()
        &&& inner.len() < f
        &&& trace_of(tr, inner, w, inner.len() as nat)
        &&& {
            ||| i + 1 == chain.len() && insufficient(w) && err == ControlError::Unterminated
            ||| i + 1 == chain.len() && complete(w) && def_kind_spec(dd_mode(s[dd_start(s)], w)) is None
                && err == ControlError::UnsupportedDefinition(dd_mode(s[dd_start(s)], w))
            ||| fails_with(w, err, inner.len() as nat, chain, i + 1)
        }
    }
}

/// Gathering `s` fails with `err`.
pub open spec fn fails(s: Seq<Token>, err: ControlError, f: nat) -> bool {
    exists|chain: Seq<Seq<Seq<Token>>>| #[trigger] fails_with(s, err, f, chain, 0)
}

pub proof fn lemma_none_where(s: Seq<Token>, f: spec_fn(Token) -> bool)
    ensures
        last_where(s, f) < 0 <==> forall|k: int| 0 <= k < s.len() ==> !f(#[trigger] s[k]),
{
    lemma_last_where(s, f);
}

fn uses_name_exec(def: &Vec<Token>, c: char) -> (r: bool)
    ensures
        r == uses_name(def@, c),
{
    let mut i: usize = 0;
    while i < def.len()
        invariant
            i <= def@.len(),
            forall|k: int| 0 <= k < i ==> !(#[trigger] def@[k] matches Token::Name(n, _) && n@ == seq![c]),
        decreases def@.len() - i,
    {
        match &def[i] {
            Token::Name(n, _) => {
                let cs = chars_of(n.as_str());
                if cs.len() == 1 && cs[0] == c {
                    assert(cs@ =~= seq![c]);
                    return true;
                }
                assert(cs@ != seq![c]);
            },
            _ => {},
        }
        i += 1;
    }
    false
}

/// What a direct definition without a kind defines, from the one-letter
/// names it uses.
pub fn infer_type(def: &Vec<Token>) -> (c: char)
    ensures
        c == infer_type_spec(def@),
{
    if uses_name_exec(def, 'n') || uses_name_exec(def, 'v') {
        'c'
    } else if uses_name_exec(def, 'm') || uses_name_exec(def, 'u') {
        'a'
    } else if uses_name_exec(def, 'x') {
        'd'
    } else {
        'm'
    }
}

impl DefKind {
    /// The ranks of the verb a definition makes (monadic, left, right; all
    /// infinite), or `None` for an adverb or a conjunction, which have none.
    pub fn ranks(&self) -> (r: Option<(Option<u8>, Option<u8>, Option<u8>)>)
        ensures
            r == (if *self == DefKind::Monad || *self == DefKind::Dyad {
                Some((None::<u8>, None::<u8>, None::<u8>))
            } else {
                None
            }),
    {
        match self {
            DefKind::Monad | DefKind::Dyad => Some((None, None, None)),
            _ => None,
        }
    }

    /// The number of `:` whose explicit form the verb a definition makes is
    /// displayed as (`3 : ...` for a monad, `4 : ...` for a dyad); `None`
    /// for an adverb or a conjunction.
    pub fn cor_number(&self) -> (r: Option<i64>)
        ensures
            r == (if *self == DefKind::Monad {
                Some(3i64)
            } else if *self == DefKind::Dyad {
                Some(4i64)
            } else {
                None
            }),
    {
        match self {
            DefKind::Monad => Some(3),
            DefKind::Dyad => Some(4),
            _ => None,
        }
    }

    /// Whether a verb this definition makes may be run with or without a
    /// left argument: a dyadic definition run monadically is a domain error.
    pub fn call_check(&self, has_left: bool) -> (r: Result<(), JError>)
        ensures
            r == (if *self == DefKind::Dyad && !has_left {
                Err::<(), JError>(JError::DomainError)
            } else {
                Ok(())
            }),
    {
        if matches!(self, DefKind::Dyad) && !has_left {
            Err(JError::DomainError)
        } else {
            Ok(())
        }
    }
}

/// The definition a direct definition of mode `mode` makes of its words.
pub fn create_def(mode: char, def: Vec<Token>, trace: Ghost<Seq<Seq<Token>>>) -> (r: Result<Token, ControlError>)
    ensures
        r matches Ok(t) ==> def_kind_spec(mode) matches Some(k) && (t matches Token::Definition(k2, v, g) && k2 == k && v@ == def@ && g == trace),
        r matches Err(e) ==> def_kind_spec(mode) is None && e == ControlError::UnsupportedDefinition(mode),
{
    let k = if mode == 'a' {
        DefKind::Adverb
    } else if mode == 'c' {
        DefKind::Conjunction
    } else if mode == 'm' {
        DefKind::Monad
    } else if mode == 'd' {
        DefKind::Dyad
    } else {
        return Err(ControlError::UnsupportedDefinition(mode));
    };
    Ok(Token::Definition(k, def, trace))
}

/// The outcome of one gathering step.
pub enum Resolution {
    /// Nothing of this kind is left to gather.
    Complete,
    /// A structure is open and waits for more input.
    InsufficientInput,
    StepTaken,
}

fn is_assert_exec(t: &Token) -> (b: bool)
    ensures
        b == is_assert(*t),
{
    matches!(t, Token::Assert)
}

fn is_newline_exec(t: &Token) -> (b: bool)
    ensures
        b == is_newline(*t),
{
    matches!(t, Token::NewLine)
}

fn is_dd_start_exec(t: &Token) -> (b: bool)
    ensures
        b == is_dd_start(*t),
{
    matches!(t, Token::DirectDefUnknown | Token::DirectDef(_))
}

fn is_dd_end_exec(t: &Token) -> (b: bool)
    ensures
        b == is_dd_end(*t),
{
    matches!(t, Token::DirectDefEnd)
}

fn is_stat_start_exec(t: &Token) -> (b: bool)
    ensures
        b == is_stat_start(*t),
{
    matches!(t, Token::If | Token::For(_) | Token::While | Token::Whilst | Token::Try | Token::Select)
}

fn is_end_exec(t: &Token) -> (b: bool)
    ensures
        b == is_end(*t),
{
    matches!(t, Token::End)
}

fn assert_step_exec(words: &mut Vec<Token>) -> (taken: bool)
    ensures
        taken == !no_asserts(old(words)@),
        taken ==> assert_step(old(words)@, final(words)@),
        !taken ==> final(words)@ == old(words)@,
{
    let ghost old_w = words@;
    let p = match rposition(
        words,
        Ghost(is_assert_pred()),
        is_assert_exec,
    ) {
        Some(p) => p,
        None => {
            return false;
        },
    };
    proof {
        lemma_last_where(old_w, is_assert_pred());
    }
    let e = position_from(
        words,
        p,
        Ghost(is_newline_pred()),
        is_newline_exec,
    );
    proof {
        lemma_first_from(old_w, p as int, is_newline_pred());
    }
    let mut tail = words.split_off(e);
    let mut def = words.split_off(p);
    let _ = def.remove(0);
    assert(def@ =~= old_w.subrange(p + 1, e as int));
    words.push(Token::AssertLine(def));
    let ghost mid = words@;
    words.append(&mut tail);
    assert(words@.take(p as int) =~= old_w.take(p as int));
    assert(words@.skip(p + 1) =~= old_w.skip(e as int));
    true
}

fn stat_step_exec(words: &mut Vec<Token>) -> (r: Resolution)
    ensures
        r is Complete ==> no_stat_starts(old(words)@) && final(words)@ == old(words)@,
        r is InsufficientInput ==> !no_stat_starts(old(words)@) && first_from(
            old(words)@,
            last_where(old(words)@, is_stat_start_pred()),
            is_end_pred(),
        ) >= old(words)@.len() && final(words)@ == old(words)@,
        r is StepTaken ==> stat_step(old(words)@, final(words)@),
{
    let ghost old_w = words@;
    let p = match rposition(words, Ghost(is_stat_start_pred()), is_stat_start_exec) {
        Some(p) => p,
        None => {
            return Resolution::Complete;
        },
    };
    proof {
        lemma_last_where(old_w, is_stat_start_pred());
    }
    let e1 = position_from(words, p, Ghost(is_end_pred()), is_end_exec);
    proof {
        lemma_first_from(old_w, p as int, is_end_pred());
    }
    if e1 == words.len() {
        return Resolution::InsufficientInput;
    }
    let e = e1 + 1;
    let mut tail = words.split_off(e);
    let mut def = words.split_off(p);
    let kind = def.remove(0);
    let _ = def.pop();
    assert(def@ =~= old_w.subrange(p + 1, e - 1));
    let ghost dv = def;
    let block = match kind {
        Token::If => Token::IfBlock(def),
        Token::Select => Token::SelectBlock(def),
        Token::For(ident) => Token::ForBlock(ident, def),
        Token::While => Token::WhileBlock(false, def),
        Token::Whilst => Token::WhileBlock(true, def),
        Token::Try => Token::TryBlock(def),
        _ => {
            assert(false);
            Token::NewLine
        },
    };
    assert(block_of(old_w[p as int], dv, block));
    words.push(Token::NewLine);
    words.push(block);
    words.push(Token::NewLine);
    words.append(&mut tail);
    assert(words@.take(p as int) =~= old_w.take(p as int));
    assert(words@.skip(p + 3) =~= old_w.skip(e as int));
    assert(block_of(old_w[p as int], dv, words@[p + 1]));
    Resolution::StepTaken
}

/// Words spliced in where none held `f` leave none holding it.
pub proof fn lemma_splice_keeps(old: Seq<Token>, new: Seq<Token>, p: int, e: int, m: int, f: spec_fn(Token) -> bool)
    requires
        0 <= p <= e <= old.len(),
        m >= 0,
        new.len() == p + m + (old.len() - e),
        new.take(p) == old.take(p),
        new.skip(p + m) == old.skip(e),
        forall|k: int| p <= k < p + m ==> !f(#[trigger] new[k]),
        forall|k: int| 0 <= k < old.len() ==> !f(#[trigger] old[k]),
    ensures
        forall|k: int| 0 <= k < new.len() ==> !f(#[trigger] new[k]),
{
    assert forall|k: int| 0 <= k < new.len() implies !f(#[trigger] new[k]) by {
        if k < p {
            assert(new.take(p)[k] == old.take(p)[k]);
            assert(new.take(p)[k] == new[k]);
            assert(old.take(p)[k] == old[k]);
            assert(!f(old[k]));
        } else if k >= p + m {
            assert(new.skip(p + m)[k - p - m] == old.skip(e)[k - p - m]);
            assert(new.skip(p + m)[k - p - m] == new[k]);
            assert(old.skip(e)[k - p - m] == old[k - p - m + e]);
            assert(!f(old[k - p - m + e]));
        }
    }
}

/// The number of words at which `f` holds.
pub open spec fn count_where(s: Seq<Token>, f: spec_fn(Token) -> bool) -> nat
    decreases s.len(),
{
    if s.len() == 0 {
        0
    } else {
        count_where(s.drop_last(), f) + if f(s.last()) { 1nat } else { 0nat }
    }
}

pub open spec fn count_stat_starts(s: Seq<Token>) -> nat {
    count_where(s, is_stat_start_pred())
}

pub open spec fn count_asserts(s: Seq<Token>) -> nat {
    count_where(s, is_assert_pred())
}

pub proof fn lemma_count_add(a: Seq<Token>, b: Seq<Token>, f: spec_fn(Token) -> bool)
    ensures
        count_where(a + b, f) == count_where(a, f) + count_where(b, f),
    decreases b.len(),
{
    if b.len() == 0 {
        assert(a + b =~= a);
    } else {
        lemma_count_add(a, b.drop_last(), f);
        assert((a + b).drop_last() =~= a + b.drop_last());
    }
}

pub proof fn lemma_count_pos(s: Seq<Token>, f: spec_fn(Token) -> bool, k: int)
    requires
        0 <= k < s.len(),
        f(s[k]),
    ensures
        count_where(s, f) >= 1,
    decreases s.len(),
{
    if k < s.len() - 1 {
        lemma_count_pos(s.drop_last(), f, k);
    }
}

pub proof fn lemma_count_none(s: Seq<Token>, f: spec_fn(Token) -> bool)
    requires
        forall|k: int| 0 <= k < s.len() ==> !f(#[trigger] s[k]),
    ensures
        count_where(s, f) == 0,
    decreases s.len(),
{
    if s.len() > 0 {
        lemma_count_none(s.drop_last(), f);
    }
}

/// A step that replaces the words from `p` to `e`, among which `f` holds at
/// `p`, by words at which it never holds, counts one `f` fewer.
pub proof fn lemma_splice_count(old: Seq<Token>, new: Seq<Token>, p: int, e: int, m: int, f: spec_fn(Token) -> bool)
    requires
        0 <= p < e <= old.len(),
        m >= 0,
        new.len() == p + m + (old.len() - e),
        new.take(p) == old.take(p),
        new.skip(p + m) == old.skip(e),
        f(old[p]),
        forall|k: int| p <= k < p + m ==> !f(#[trigger] new[k]),
    ensures
        count_where(new, f) < count_where(old, f),
{
    assert(old =~= old.take(p) + old.subrange(p, e) + old.skip(e));
    assert(new =~= new.take(p) + new.subrange(p, p + m) + new.skip(p + m));
    lemma_count_add(old.take(p) + old.subrange(p, e), old.skip(e), f);
    lemma_count_add(old.take(p), old.subrange(p, e), f);
    lemma_count_add(new.take(p) + new.subrange(p, p + m), new.skip(p + m), f);
    lemma_count_add(new.take(p), new.subrange(p, p + m), f);
    lemma_count_pos(old.subrange(p, e), f, 0);
    assert forall|k: int| 0 <= k < new.subrange(p, p + m).len() implies !f(#[trigger] new.subrange(p, p + m)[k]) by {
        assert(new.subrange(p, p + m)[k] == new[p + k]);
    }
    lemma_count_none(new.subrange(p, p + m), f);
}

pub proof fn lemma_stat_step_keeps(old: Seq<Token>, new: Seq<Token>)
    requires
        no_asserts(old),
        no_dd_starts(old),
        stat_step(old, new),
    ensures
        no_asserts(new),
        no_dd_starts(new),
        count_stat_starts(new) < count_stat_starts(old),
{
    let p = last_where(old, is_stat_start_pred());
    let e = first_from(old, p, is_end_pred()) + 1;
    lemma_last_where(old, is_stat_start_pred());
    lemma_first_from(old, p, is_end_pred());
    let v = choose|v: Vec<Token>| v@ == old.subrange(p + 1, e - 1) && #[trigger] block_of(old[p], v, new[p + 1]);
    assert(block_of(old[p], v, new[p + 1]));
    lemma_none_where(old, is_assert_pred());
    lemma_none_where(old, is_dd_start_pred());
    lemma_splice_keeps(old, new, p, e, 3, is_assert_pred());
    lemma_splice_keeps(old, new, p, e, 3, is_dd_start_pred());
    lemma_none_where(new, is_assert_pred());
    lemma_none_where(new, is_dd_start_pred());
    lemma_splice_count(old, new, p, e, 3, is_stat_start_pred());
}

fn dd_step_exec(words: &mut Vec<Token>, Ghost(f): Ghost<nat>) -> (r: Result<Resolution, ControlError>)
    requires
        no_asserts(old(words)@),
        old(words)@.len() <= f,
    ensures
        r matches Ok(Resolution::Complete) ==> no_dd_starts(old(words)@) && final(words)@ == old(words)@,
        r matches Ok(Resolution::InsufficientInput) ==> !no_dd_starts(old(words)@) && dd_end(old(words)@) > old(words)@.len()
            && final(words)@ == old(words)@,
        r matches Ok(Resolution::StepTaken) ==> dd_step(old(words)@, final(words)@, f) && final(words)@.len() < old(words)@.len()
            && no_asserts(final(words)@),
        r matches Err(e) ==> fails(old(words)@, e, f),
    decreases old(words)@.len(), 0nat,
{
    let ghost old_w = words@;
    let p = match rposition(words, Ghost(is_dd_start_pred()), is_dd_start_exec) {
        Some(p) => p,
        None => {
            return Ok(Resolution::Complete);
        },
    };
    proof {
        lemma_last_where(old_w, is_dd_start_pred());
    }
    let e1 = position_from(words, p, Ghost(is_dd_end_pred()), is_dd_end_exec);
    proof {
        lemma_first_from(old_w, p as int, is_dd_end_pred());
    }
    if e1 == words.len() {
        return Ok(Resolution::InsufficientInput);
    }
    let e = e1 + 1;
    let mut tail = words.split_off(e);
    let mut def = words.split_off(p);
    let kind = def.remove(0);
    let _ = def.pop();
    assert(def@ =~= dd_inner(old_w));
    let ghost inner = def@;
    match resolve_controls(&mut def) {
        Err(err) => {
            proof {
                let mid = choose|mid: Seq<Token>| #[trigger] resolved(inner, mid, inner.len() as nat) && fails(mid, err, inner.len() as nat);
                let tr = choose|tr: Seq<Seq<Token>>| #[trigger] trace_of(tr, inner, mid, inner.len() as nat);
                let c = choose|c: Seq<Seq<Seq<Token>>>| #[trigger] fails_with(mid, err, inner.len() as nat, c, 0);
                lemma_fails_shift(mid, err, inner.len() as nat, c, 0, tr);
                let chain = seq![tr] + c;
                assert(chain[0] == tr);
                assert(fails_with(old_w, err, f, chain, 0));
            }
            return Err(err);
        },
        Ok(false) => {
            proof {
                let tr = choose|tr: Seq<Seq<Token>>| #[trigger] trace_of(tr, inner, def@, inner.len() as nat);
                let chain = seq![tr];
                assert(chain[0] == tr);
                assert(fails_with(old_w, ControlError::Unterminated, f, chain, 0));
            }
            return Err(ControlError::Unterminated);
        },
        Ok(true) => {},
    }
    let ghost w = def@;
    let ghost tr = choose|tr: Seq<Seq<Token>>| #[trigger] trace_of(tr, inner, w, inner.len() as nat);
    let mode = match kind {
        Token::DirectDef(c) => c,
        _ => infer_type(&def),
    };
    assert(mode == dd_mode(old_w[p as int], w));
    match create_def(mode, def, Ghost(tr)) {
        Err(err) => {
            proof {
                let chain = seq![tr];
                assert(chain[0] == tr);
                assert(fails_with(old_w, err, f, chain, 0));
            }
            return Err(err);
        },
        Ok(t) => {
            words.push(t);
            words.append(&mut tail);
            assert(words@.take(p as int) =~= old_w.take(p as int));
            assert(words@.skip(p + 1) =~= old_w.skip(e as int));
            proof {
                lemma_none_where(old_w, is_assert_pred());
                lemma_splice_keeps(old_w, words@, p as int, e as int, 1, is_assert_pred());
                lemma_none_where(words@, is_assert_pred());
            }
            Ok(Resolution::StepTaken)
        },
    }
}

pub proof fn lemma_steps_ok(tr: Seq<Seq<Token>>, i: nat, f: nat)
    ensures
        steps_ok(tr, i, f) <==> (forall|j: int| i <= j < tr.len() - 1 ==> #[trigger] control_step(tr[j], tr[j + 1], f)),
    decreases tr.len() - i,
{
    if i + 1 < tr.len() {
        lemma_steps_ok(tr, i + 1, f);
        if steps_ok(tr, i, f) {
            assert forall|j: int| i <= j < tr.len() - 1 implies #[trigger] control_step(tr[j], tr[j + 1], f) by {
                if j == i {
                    assert(control_step(tr[i as int], tr[i + 1int], f));
                }
            }
        }
        if forall|j: int| i <= j < tr.len() - 1 ==> #[trigger] control_step(tr[j], tr[j + 1], f) {
            assert(control_step(tr[i as int], tr[i as int + 1], f));
        }
    }
}

proof fn lemma_resolved_by(trace: Seq<Seq<Token>>, a: Seq<Token>, b: Seq<Token>, f: nat)
    requires
        trace.len() >= 1,
        trace[0] == a,
        trace.last() == b,
        forall|i: int| 0 <= i < trace.len() - 1 ==> #[trigger] control_step(trace[i], trace[i + 1], f),
    ensures
        trace_of(trace, a, b, f),
        resolved(a, b, f),
{
    lemma_steps_ok(trace, 0, f);
    assert(trace_of(trace, a, b, f));
}

pub proof fn lemma_fails_shift(x: Seq<Token>, e: ControlError, g: nat, c: Seq<Seq<Seq<Token>>>, i: nat, t: Seq<Seq<Token>>)
    ensures
        fails_with(x, e, g, c, i) == fails_with(x, e, g, seq![t] + c, i + 1),
    decreases g,
{
    let c2 = seq![t] + c;
    if i < c.len() {
        assert(c2[i + 1int] == c[i as int]);
        let inner = dd_inner(x);
        if inner.len() < g {
            lemma_fails_shift(c[i as int].last(), e, inner.len() as nat, c, i + 1, t);
        }
    }
}

/// Gathers the control structures of a sentence's words: first its
/// `assert.` lines, then its direct definitions (innermost first, each one's
/// words gathered in turn), then its statements (last first).  `Ok(false)`
/// when a definition or statement is still open and more input is needed;
/// an error when a control word is left over or a definition cannot be made.
pub fn resolve_controls(words: &mut Vec<Token>) -> (r: Result<bool, ControlError>)
    ensures
        r == Ok::<bool, ControlError>(true) ==> resolved(old(words)@, final(words)@, old(words)@.len() as nat) && complete(final(words)@),
        r == Ok::<bool, ControlError>(false) ==> resolved(old(words)@, final(words)@, old(words)@.len() as nat) && insufficient(final(words)@),
        r matches Err(e) ==> exists|mid: Seq<Token>| #[trigger] resolved(old(words)@, mid, old(words)@.len() as nat) && fails(mid, e, old(words)@.len() as nat),
    decreases old(words)@.len(), 1nat,
{
    let ghost n = words@.len() as nat;
    let ghost mut trace: Seq<Seq<Token>> = seq![words@];
    loop
        invariant
            trace.len() >= 1,
            trace[0] == old(words)@,
            trace.last() == words@,
            n == old(words)@.len(),
            words@.len() <= n,
            forall|i: int| 0 <= i < trace.len() - 1 ==> #[trigger] control_step(trace[i], trace[i + 1], n),
        ensures
            trace.len() >= 1,
            trace[0] == old(words)@,
            trace.last() == words@,
            words@.len() <= n,
            no_asserts(words@),
            forall|i: int| 0 <= i < trace.len() - 1 ==> #[trigger] control_step(trace[i], trace[i + 1], n),
        decreases count_asserts(words@),
    {
        let ghost before = words@;
        if !assert_step_exec(words) {
            break;
        }
        proof {
            let p = last_where(before, is_assert_pred());
            lemma_last_where(before, is_assert_pred());
            lemma_first_from(before, p, is_newline_pred());
            let e = first_from(before, p, is_newline_pred());
            assert forall|k: int| p <= k < p + 1 implies !is_assert(#[trigger] words@[k]) by {}
            lemma_splice_count(before, words@, p, e, 1, is_assert_pred());
            assert(control_step(before, words@, n));
            let t2 = trace.push(words@);
            assert forall|i: int| 0 <= i < t2.len() - 1 implies #[trigger] control_step(t2[i], t2[i + 1], n) by {
                if i < trace.len() - 1 {
                    assert(t2[i] == trace[i] && t2[i + 1] == trace[i + 1]);
                }
            }
            trace = t2;
        }
    }
    loop
        invariant
            trace.len() >= 1,
            trace[0] == old(words)@,
            trace.last() == words@,
            n == old(words)@.len(),
            words@.len() <= n,
            no_asserts(words@),
            forall|i: int| 0 <= i < trace.len() - 1 ==> #[trigger] control_step(trace[i], trace[i + 1], n),
        ensures
            trace.len() >= 1,
            trace[0] == old(words)@,
            trace.last() == words@,
            no_asserts(words@),
            no_dd_starts(words@),
            forall|i: int| 0 <= i < trace.len() - 1 ==> #[trigger] control_step(trace[i], trace[i + 1], n),
        decreases words@.len(),
    {
        let ghost before = words@;
        match dd_step_exec(words, Ghost(n)) {
            Ok(Resolution::Complete) => {
                break;
            },
            Ok(Resolution::InsufficientInput) => {
                proof {
                    lemma_resolved_by(trace, old(words)@, words@, n);
                }
                return Ok(false);
            },
            Err(e) => {
                proof {
                    lemma_resolved_by(trace, old(words)@, before, n);
                }
                return Err(e);
            },
            Ok(Resolution::StepTaken) => {
                proof {
                    assert(control_step(before, words@, n));
                    let t2 = trace.push(words@);
                    assert forall|i: int| 0 <= i < t2.len() - 1 implies #[trigger] control_step(t2[i], t2[i + 1], n) by {
                        if i < trace.len() - 1 {
                            assert(t2[i] == trace[i] && t2[i + 1] == trace[i + 1]);
                        }
                    }
                    trace = t2;
                }
            },
        }
    }
    loop
        invariant
            trace.len() >= 1,
            trace[0] == old(words)@,
            trace.last() == words@,
            n == old(words)@.len(),
            no_asserts(words@),
            no_dd_starts(words@),
            forall|i: int| 0 <= i < trace.len() - 1 ==> #[trigger] control_step(trace[i], trace[i + 1], n),
        ensures
            trace.len() >= 1,
            trace[0] == old(words)@,
            trace.last() == words@,
            no_asserts(words@),
            no_dd_starts(words@),
            no_stat_starts(words@),
            forall|i: int| 0 <= i < trace.len() - 1 ==> #[trigger] control_step(trace[i], trace[i + 1], n),
        decreases count_stat_starts(words@),
    {
        let ghost before = words@;
        match stat_step_exec(words) {
            Resolution::Complete => {
                break;
            },
            Resolution::InsufficientInput => {
                proof {
                    lemma_resolved_by(trace, old(words)@, words@, n);
                }
                return Ok(false);
            },
            Resolution::StepTaken => {
                proof {
                    lemma_stat_step_keeps(before, words@);
                    assert(control_step(before, words@, n));
                    let t2 = trace.push(words@);
                    assert forall|i: int| 0 <= i < t2.len() - 1 implies #[trigger] control_step(t2[i], t2[i + 1], n) by {
                        if i < trace.len() - 1 {
                            assert(t2[i] == trace[i] && t2[i + 1] == trace[i + 1]);
                        }
                    }
                    trace = t2;
                }
            },
        }
    }
    proof {
        lemma_resolved_by(trace, old(words)@, words@, n);
    }
    let mut i: usize = 0;
    while i < words.len()
        invariant
            i <= words@.len(),
            n == old(words)@.len(),
            resolved(old(words)@, words@, n),
            no_asserts(words@),
            no_dd_starts(words@),
            no_stat_starts(words@),
            forall|k: int| 0 <= k < i ==> !is_control_symbol(#[trigger] words@[k]),
        decreases words@.len() - i,
    {
        if is_control(&words[i]) {
            assert(!controls_free(words@));
            assert(fails_with(words@, ControlError::Unresolved, n, Seq::empty(), 0));
            assert(fails(words@, ControlError::Unresolved, n));
            return Err(ControlError::Unresolved);
        }
        i += 1;
    }
    Ok(true)
}

pub open spec fn is_else_or_elseif(t: Token) -> bool {
    t is Else || t is ElseIf
}

/// Where the blocks of an `if.` statement's words start: the first block at
/// the start, then one at each `else.` and `elseif.`.
pub open spec fn if_starts(def: Seq<Token>) -> Seq<usize>
    decreases def.len(),
{
    if def.len() == 0 {
        seq![0usize]
    } else if is_else_or_elseif(def.last()) {
        if_starts(def.drop_last()).push((def.len() - 1) as usize)
    } else {
        if_starts(def.drop_last())
    }
}

/// Where the blocks of an `if.` statement's words start.
pub fn if_block_starts(def: &Vec<Token>) -> (r: Vec<usize>)
    ensures
        r@ == if_starts(def@),
{
    let mut out: Vec<usize> = Vec::new();
    out.push(0);
    let mut i: usize = 0;
    assert(def@.take(0) =~= Seq::<Token>::empty());
    while i < def.len()
        invariant
            i <= def@.len(),
            out@ == if_starts(def@.take(i as int)),
        decreases def@.len() - i,
    {
        assert(def@.take(i + 1).drop_last() =~= def@.take(i as int));
        assert(def@.take(i + 1).last() == def@[i as int]);
        if matches!(&def[i], Token::Else | Token::ElseIf) {
            out.push(i);
        }
        i += 1;
    }
    assert(def@.take(def@.len() as int) =~= def@);
    out
}

/// The first `do.` from `lo` up to `hi`, which splits a block into its
/// condition and its body; none when the block has no `do.`.
pub fn find_do(words: &Vec<Token>, lo: usize, hi: usize) -> (r: Option<usize>)
    requires
        lo <= hi <= words@.len(),
    ensures
        r matches Some(k) ==> lo <= k < hi && words@[k as int] is Do && forall|j: int| lo <= j < k ==> !(#[trigger] words@[j] is Do),
        r is None ==> forall|j: int| lo <= j < hi ==> !(#[trigger] words@[j] is Do),
{
    let mut k = lo;
    while k < hi
        invariant
            lo <= k <= hi <= words@.len(),
            forall|j: int| lo <= j < k ==> !(#[trigger] words@[j] is Do),
        decreases hi - k,
    {
        if matches!(&words[k], Token::Do) {
            return Some(k);
        }
        k += 1;
    }
    None
}

} // verus!
