//! The parser of J sentences: the table of parsing rules, applied to the
//! front of a stack of words fed from the end of the sentence.
//!
//! The words themselves (nouns, verbs, modifiers) live with the caller; the
//! parser moves items that carry a word's part of speech and a handle by
//! which the caller finds the word.

use vstd::prelude::*;

use crate::error::JError;

verus! {

/// The part of speech of a word, as the parser sees it.
#[derive(Clone, Copy, Debug, PartialEq, Eq, Structural)]
pub enum Kind {
    StartOfLine,
    Nothing,
    LP,
    RP,
    Name,
    IsLocal,
    IsGlobal,
    Noun,
    Verb,
    Adverb,
    Conjunction,
    IfBlock,
    AssertLine,
    /// Any other word (control words, comments).
    Other,
}

/// A word on the parser's stack: its part of speech, and the caller's handle
/// for it.
#[derive(Clone, Copy, Debug, PartialEq, Eq, Structural)]
pub struct Item {
    pub kind: Kind,
    pub handle: usize,
}

/// The four words at the front of the stack, padded with nothing.
#[derive(Clone, Copy, Debug, PartialEq, Eq, Structural)]
pub struct Fragment {
    pub w0: Item,
    pub w1: Item,
    pub w2: Item,
    pub w3: Item,
}

/// The rule of the parsing table that applies to a fragment.
#[derive(Clone, Copy, Debug, PartialEq, Eq, Structural)]
pub enum Rule {
    /// Run an `if.` block; the rest stays.
    IfBlock,
    /// Run an `assert.` line; the rest stays.
    AssertLine,
    /// Edge, verb, noun: apply the verb to the noun.
    Monad0,
    /// Edge, verb, verb, noun: apply the second verb to the noun.
    Monad1,
    /// Edge, noun, verb, noun: apply the verb to both nouns.
    Dyad2,
    /// Edge, verb or noun, adverb: the adverb takes its operand.
    Adverb3,
    /// Edge, operand, conjunction, operand (not both nouns): the conjunction
    /// takes its operands.
    Conj4,
    /// Edge, noun, conjunction, noun: the conjunction takes both nouns, which
    /// may need more input before it can.
    Conj4Nouns,
    /// Edge, verb or noun, verb, verb: a fork.
    Fork5,
    /// Start, two adverbs: refused.
    BondAdverbs,
    /// Start, conjunction, verb or noun: a derived adverb.
    Bident6,
    /// Start, verb, verb: a hook.
    Hook6,
    /// A name, `=.`, a word: a local assignment.
    IsLocalName,
    /// A noun of names, `=.`, a word: local assignments of its items.
    IsLocalNoun,
    /// A name, `=:`, a word: a global assignment.
    IsGlobalName,
    /// A noun of names, `=:`, a word: global assignments of its items.
    IsGlobalNoun,
    /// Parentheses round a word.
    Paren,
    /// None applies: move the next word of the sentence onto the stack.
    Shift,
}

/// Where a word of the result of a rule comes from: one of the fragment's
/// words, or the word the rule's action produced.
#[derive(Clone, Copy, Debug, PartialEq, Eq, Structural)]
pub enum Slot {
    W0,
    W1,
    W2,
    W3,
    Produced,
}

/// The start of a sentence or of a parenthesis, or an assignment.
pub open spec fn is_edge(k: Kind) -> bool {
    k == Kind::StartOfLine || k == Kind::IsGlobal || k == Kind::IsLocal || k == Kind::LP
}

/// An edge, or a word that ends an operand to its left.
pub open spec fn is_edge_avn(k: Kind) -> bool {
    is_edge(k) || k == Kind::Adverb || k == Kind::Verb || k == Kind::Noun
}

/// A word that can be assigned or parenthesised.
pub open spec fn is_cavn(k: Kind) -> bool {
    k == Kind::Conjunction || k == Kind::Adverb || k == Kind::Verb || k == Kind::Noun
}

/// An operand of a conjunction.
pub open spec fn is_operand(k: Kind) -> bool {
    k == Kind::Verb || k == Kind::Noun || k == Kind::Name
}

/// The parsing table: the first rule whose pattern the fragment's parts of
/// speech match.
pub open spec fn rule_spec(a: Kind, b: Kind, c: Kind, d: Kind) -> Rule {
    if a == Kind::IfBlock {
        Rule::IfBlock
    } else if a == Kind::AssertLine {
        Rule::AssertLine
    } else if is_edge(a) && b == Kind::Verb && c == Kind::Noun {
        Rule::Monad0
    } else if is_edge_avn(a) && b == Kind::Verb && c == Kind::Verb && d == Kind::Noun {
        Rule::Monad1
    } else if is_edge_avn(a) && b == Kind::Noun && c == Kind::Verb && d == Kind::Noun {
        Rule::Dyad2
    } else if is_edge_avn(a) && (b == Kind::Verb || b == Kind::Noun) && c == Kind::Adverb {
        Rule::Adverb3
    } else if is_edge_avn(a) && is_operand(b) && c == Kind::Conjunction && is_operand(d) && !(b
        == Kind::Noun && d == Kind::Noun) {
        Rule::Conj4
    } else if is_edge_avn(a) && b == Kind::Noun && c == Kind::Conjunction && d == Kind::Noun {
        Rule::Conj4Nouns
    } else if is_edge_avn(a) && (b == Kind::Verb || b == Kind::Noun) && c == Kind::Verb && d
        == Kind::Verb {
        Rule::Fork5
    } else if is_edge(a) && b == Kind::Adverb && c == Kind::Adverb {
        Rule::BondAdverbs
    } else if is_edge(a) && b == Kind::Conjunction && (c == Kind::Noun || c == Kind::Verb) {
        Rule::Bident6
    } else if is_edge(a) && b == Kind::Verb && c == Kind::Verb {
        Rule::Hook6
    } else if a == Kind::Name && b == Kind::IsLocal && is_cavn(c) {
        Rule::IsLocalName
    } else if a == Kind::Noun && b == Kind::IsLocal && is_cavn(c) {
        Rule::IsLocalNoun
    } else if a == Kind::Name && b == Kind::IsGlobal && is_cavn(c) {
        Rule::IsGlobalName
    } else if a == Kind::Noun && b == Kind::IsGlobal && is_cavn(c) {
        Rule::IsGlobalNoun
    } else if a == Kind::LP && is_cavn(b) && c == Kind::RP {
        Rule::Paren
    } else {
        Rule::Shift
    }
}

/// A word that may stand before an operation in the parsing table: the start
/// of the sentence, an assignment, a left parenthesis, an adverb, a verb or a
/// noun.
pub open spec fn may_precede(w: Kind) -> bool {
    w == Kind::StartOfLine || w == Kind::IsGlobal || w == Kind::IsLocal || w == Kind::LP
        || w == Kind::Adverb || w == Kind::Verb || w == Kind::Noun
}

/// The rows of the parsing table that make J evaluate right to left:
/// - after the start of a sentence, an assignment or `(`, a verb followed
///   by a noun is applied to it monadically;
/// - after any word that may precede an operation, `V V N` applies the
///   rightmost verb to the noun first, before any hook or fork is formed;
///   `N V N` applies the verb dyadically; `V A` and `N A` apply the adverb;
///   `V V V` and `N V V` make a fork; a conjunction between two operands
///   is applied to them;
/// - after the start of a sentence, an assignment or `(`, two verbs followed
///   by anything but a noun or a verb make a hook, two adverbs are bonded,
///   and a conjunction with a noun or verb after it makes a bident;
/// - an `if.` block or an assertion line is run whatever follows it;
/// - a name or noun followed by `=.` or `=:` and then a conjunction, adverb,
///   verb or noun is assigned; `(`, one of those, `)` drops the
///   parentheses.
pub proof fn law_parse_table()
    ensures
        forall|w: Kind, d: Kind|
            (w == Kind::StartOfLine || w == Kind::IsGlobal || w == Kind::IsLocal || w == Kind::LP)
                ==> #[trigger] rule_spec(w, Kind::Verb, Kind::Noun, d) == Rule::Monad0,
        forall|w: Kind| may_precede(w) ==> #[trigger] rule_spec(w, Kind::Verb, Kind::Verb, Kind::Noun) == Rule::Monad1,
        forall|w: Kind| may_precede(w) ==> #[trigger] rule_spec(w, Kind::Noun, Kind::Verb, Kind::Noun) == Rule::Dyad2,
        forall|w: Kind, b: Kind, d: Kind|
            may_precede(w) && (b == Kind::Verb || b == Kind::Noun)
                ==> #[trigger] rule_spec(w, b, Kind::Adverb, d) == Rule::Adverb3,
        forall|w: Kind, b: Kind|
            may_precede(w) && (b == Kind::Verb || b == Kind::Noun)
                ==> #[trigger] rule_spec(w, b, Kind::Verb, Kind::Verb) == Rule::Fork5,
        forall|w: Kind, d: Kind|
            (w == Kind::StartOfLine || w == Kind::IsGlobal || w == Kind::IsLocal || w == Kind::LP)
                && d != Kind::Noun && d != Kind::Verb
                ==> #[trigger] rule_spec(w, Kind::Verb, Kind::Verb, d) == Rule::Hook6,
        forall|b: Kind, c: Kind, d: Kind| {
            &&& #[trigger] rule_spec(Kind::IfBlock, b, c, d) == Rule::IfBlock
            &&& rule_spec(Kind::AssertLine, b, c, d) == Rule::AssertLine
        },
        forall|w: Kind, b: Kind, d: Kind|
            may_precede(w) && (b == Kind::Verb || b == Kind::Noun || b == Kind::Name)
                && (d == Kind::Verb || d == Kind::Noun || d == Kind::Name) && !(b == Kind::Noun && d == Kind::Noun)
                ==> #[trigger] rule_spec(w, b, Kind::Conjunction, d) == Rule::Conj4,
        forall|w: Kind| may_precede(w) ==> #[trigger] rule_spec(w, Kind::Noun, Kind::Conjunction, Kind::Noun) == Rule::Conj4Nouns,
        forall|w: Kind, d: Kind|
            (w == Kind::StartOfLine || w == Kind::IsGlobal || w == Kind::IsLocal || w == Kind::LP)
                ==> #[trigger] rule_spec(w, Kind::Adverb, Kind::Adverb, d) == Rule::BondAdverbs,
        forall|w: Kind, c: Kind, d: Kind|
            (w == Kind::StartOfLine || w == Kind::IsGlobal || w == Kind::IsLocal || w == Kind::LP)
                && (c == Kind::Noun || c == Kind::Verb)
                ==> #[trigger] rule_spec(w, Kind::Conjunction, c, d) == Rule::Bident6,
        forall|c: Kind, d: Kind|
            (c == Kind::Conjunction || c == Kind::Adverb || c == Kind::Verb || c == Kind::Noun) ==> {
                &&& #[trigger] rule_spec(Kind::Name, Kind::IsLocal, c, d) == Rule::IsLocalName
                &&& rule_spec(Kind::Name, Kind::IsGlobal, c, d) == Rule::IsGlobalName
                &&& rule_spec(Kind::Noun, Kind::IsLocal, c, d) == Rule::IsLocalNoun
                &&& rule_spec(Kind::Noun, Kind::IsGlobal, c, d) == Rule::IsGlobalNoun
                &&& rule_spec(Kind::LP, c, Kind::RP, d) == Rule::Paren
            },
{
}

fn is_edge_exec(k: Kind) -> (r: bool)
    ensures
        r == is_edge(k),
{
    k == Kind::StartOfLine || k == Kind::IsGlobal || k == Kind::IsLocal || k == Kind::LP
}

fn is_edge_avn_exec(k: Kind) -> (r: bool)
    ensures
        r == is_edge_avn(k),
{
    is_edge_exec(k) || k == Kind::Adverb || k == Kind::Verb || k == Kind::Noun
}

fn is_cavn_exec(k: Kind) -> (r: bool)
    ensures
        r == is_cavn(k),
{
    k == Kind::Conjunction || k == Kind::Adverb || k == Kind::Verb || k == Kind::Noun
}

fn is_operand_exec(k: Kind) -> (r: bool)
    ensures
        r == is_operand(k),
{
    k == Kind::Verb || k == Kind::Noun || k == Kind::Name
}

/// The rule of the parsing table that applies to a fragment.
pub fn parse_rule(f: &Fragment) -> (r: Rule)
    ensures
        r == rule_spec(f.w0.kind, f.w1.kind, f.w2.kind, f.w3.kind),
{
    let a = f.w0.kind;
    let b = f.w1.kind;
    let c = f.w2.kind;
    let d = f.w3.kind;
    if a == Kind::IfBlock {
        Rule::IfBlock
    } else if a == Kind::AssertLine {
        Rule::AssertLine
    } else if is_edge_exec(a) && b == Kind::Verb && c == Kind::Noun {
        Rule::Monad0
    } else if is_edge_avn_exec(a) && b == Kind::Verb && c == Kind::Verb && d == Kind::Noun {
        Rule::Monad1
    } else if is_edge_avn_exec(a) && b == Kind::Noun && c == Kind::Verb && d == Kind::Noun {
        Rule::Dyad2
    } else if is_edge_avn_exec(a) && (b == Kind::Verb || b == Kind::Noun) && c == Kind::Adverb {
        Rule::Adverb3
    } else if is_edge_avn_exec(a) && is_operand_exec(b) && c == Kind::Conjunction
        && is_operand_exec(d) && !(b == Kind::Noun && d == Kind::Noun) {
        Rule::Conj4
    } else if is_edge_avn_exec(a) && b == Kind::Noun && c == Kind::Conjunction && d == Kind::Noun {
        Rule::Conj4Nouns
    } else if is_edge_avn_exec(a) && (b == Kind::Verb || b == Kind::Noun) && c == Kind::Verb && d
        == Kind::Verb {
        Rule::Fork5
    } else if is_edge_exec(a) && b == Kind::Adverb && c == Kind::Adverb {
        Rule::BondAdverbs
    } else if is_edge_exec(a) && b == Kind::Conjunction && (c == Kind::Noun || c == Kind::Verb) {
        Rule::Bident6
    } else if is_edge_exec(a) && b == Kind::Verb && c == Kind::Verb {
        Rule::Hook6
    } else if a == Kind::Name && b == Kind::IsLocal && is_cavn_exec(c) {
        Rule::IsLocalName
    } else if a == Kind::Noun && b == Kind::IsLocal && is_cavn_exec(c) {
        Rule::IsLocalNoun
    } else if a == Kind::Name && b == Kind::IsGlobal && is_cavn_exec(c) {
        Rule::IsGlobalName
    } else if a == Kind::Noun && b == Kind::IsGlobal && is_cavn_exec(c) {
        Rule::IsGlobalNoun
    } else if a == Kind::LP && is_cavn_exec(b) && c == Kind::RP {
        Rule::Paren
    } else {
        Rule::Shift
    }
}

/// What replaces the fragment at the front of the stack once a rule has
/// been applied: the words kept, and where the word the rule's action
/// produced goes.
pub open spec fn template_spec(r: Rule) -> Seq<Slot> {
    match r {
        Rule::IfBlock => seq![Slot::W1, Slot::W2, Slot::W3],
        Rule::AssertLine => seq![Slot::W1, Slot::W2, Slot::W3],
        Rule::Monad0 => seq![Slot::W0, Slot::Produced, Slot::W3],
        Rule::Monad1 => seq![Slot::W0, Slot::W1, Slot::Produced],
        Rule::Dyad2 => seq![Slot::W0, Slot::Produced],
        Rule::Adverb3 => seq![Slot::W0, Slot::Produced, Slot::W3],
        Rule::Conj4 => seq![Slot::W0, Slot::Produced],
        Rule::Conj4Nouns => seq![Slot::W0, Slot::Produced],
        Rule::Fork5 => seq![Slot::W0, Slot::Produced],
        Rule::BondAdverbs => seq![Slot::W0, Slot::W1, Slot::W2, Slot::W3],
        Rule::Bident6 => seq![Slot::W0, Slot::Produced, Slot::W3],
        Rule::Hook6 => seq![Slot::W0, Slot::Produced, Slot::W3],
        Rule::IsLocalName => seq![Slot::W2, Slot::W3],
        Rule::IsLocalNoun => seq![Slot::W3],
        Rule::IsGlobalName => seq![Slot::W2, Slot::W3],
        Rule::IsGlobalNoun => seq![Slot::W3],
        Rule::Paren => seq![Slot::W1, Slot::W3],
        Rule::Shift => seq![Slot::W0, Slot::W1, Slot::W2, Slot::W3],
    }
}

/// Where a slot's word stood in the fragment; the produced word stood
/// nowhere.
pub open spec fn slot_pos(s: Slot) -> int {
    match s {
        Slot::W0 => 0,
        Slot::W1 => 1,
        Slot::W2 => 2,
        Slot::W3 => 3,
        Slot::Produced => -1,
    }
}

/// A reduction never reorders the words it keeps, never keeps a word twice,
/// and produces at most one word.
pub proof fn law_template_order(r: Rule)
    ensures
        forall|i: int, j: int|
            0 <= i < j < template_spec(r).len() && template_spec(r)[i] != Slot::Produced
                && template_spec(r)[j] != Slot::Produced
                ==> slot_pos(#[trigger] template_spec(r)[i]) < slot_pos(#[trigger] template_spec(r)[j]),
        forall|i: int, j: int|
            0 <= i < j < template_spec(r).len() ==> #[trigger] template_spec(r)[i] != #[trigger] template_spec(r)[j],
{
}

/// What the reductions that apply and combine words consume: a monad in the
/// second and third place (`Monad0`) or the third and fourth (`Monad1`),
/// keeping the words around it; a dyad, a conjunction or a fork the last
/// three words; an adverb, a bident or a hook the second and third.  Each
/// puts the one word it produces where the consumed words stood.
pub proof fn law_reductions_consume()
    ensures
        ({
            let t = template_spec(Rule::Monad0);
            t.contains(Slot::W0) && !t.contains(Slot::W1) && !t.contains(Slot::W2) && t.contains(Slot::W3) && t.contains(Slot::Produced)
        }),
        ({
            let t = template_spec(Rule::Monad1);
            t.contains(Slot::W0) && t.contains(Slot::W1) && !t.contains(Slot::W2) && !t.contains(Slot::W3) && t.contains(Slot::Produced)
        }),
        forall|r: Rule| (r == Rule::Dyad2 || r == Rule::Conj4 || r == Rule::Conj4Nouns || r == Rule::Fork5) ==> {
            let t = #[trigger] template_spec(r);
            t.contains(Slot::W0) && !t.contains(Slot::W1) && !t.contains(Slot::W2) && !t.contains(Slot::W3) && t.contains(Slot::Produced)
        },
        forall|r: Rule| (r == Rule::Adverb3 || r == Rule::Bident6 || r == Rule::Hook6) ==> {
            let t = #[trigger] template_spec(r);
            t.contains(Slot::W0) && !t.contains(Slot::W1) && !t.contains(Slot::W2) && t.contains(Slot::W3) && t.contains(Slot::Produced)
        },
        ({
            let t = template_spec(Rule::Paren);
            !t.contains(Slot::W0) && t.contains(Slot::W1) && !t.contains(Slot::W2) && t.contains(Slot::W3) && !t.contains(Slot::Produced)
        }),
{
    let t0 = template_spec(Rule::Monad0);
    assert(t0[0] == Slot::W0 && t0[1] == Slot::Produced && t0[2] == Slot::W3);
    let t1 = template_spec(Rule::Monad1);
    assert(t1[0] == Slot::W0 && t1[1] == Slot::W1 && t1[2] == Slot::Produced);
    let tp = template_spec(Rule::Paren);
    assert(tp[0] == Slot::W1 && tp[1] == Slot::W3);
    assert forall|r: Rule| (r == Rule::Dyad2 || r == Rule::Conj4 || r == Rule::Conj4Nouns || r == Rule::Fork5) implies {
        let t = #[trigger] template_spec(r);
        t.contains(Slot::W0) && !t.contains(Slot::W1) && !t.contains(Slot::W2) && !t.contains(Slot::W3) && t.contains(Slot::Produced)
    } by {
        let t = template_spec(r);
        assert(t[0] == Slot::W0 && t[1] == Slot::Produced);
    }
    assert forall|r: Rule| (r == Rule::Adverb3 || r == Rule::Bident6 || r == Rule::Hook6) implies {
        let t = #[trigger] template_spec(r);
        t.contains(Slot::W0) && !t.contains(Slot::W1) && !t.contains(Slot::W2) && t.contains(Slot::W3) && t.contains(Slot::Produced)
    } by {
        let t = template_spec(r);
        assert(t[0] == Slot::W0 && t[1] == Slot::Produced && t[2] == Slot::W3);
    }
}

/// The rule's action produces a word that takes a place in the result.
pub open spec fn produces(r: Rule) -> bool {
    template_spec(r).contains(Slot::Produced)
}

/// The word a slot stands for.
pub open spec fn slot_item(s: Slot, f: Fragment, produced: Item) -> Item {
    match s {
        Slot::W0 => f.w0,
        Slot::W1 => f.w1,
        Slot::W2 => f.w2,
        Slot::W3 => f.w3,
        Slot::Produced => produced,
    }
}

/// The words without the padding.
pub open spec fn drop_nothing(s: Seq<Item>) -> Seq<Item>
    decreases s.len(),
{
    if s.len() == 0 {
        s
    } else if s.last().kind == Kind::Nothing {
        drop_nothing(s.drop_last())
    } else {
        drop_nothing(s.drop_last()).push(s.last())
    }
}

pub proof fn lemma_drop_nothing_add(a: Seq<Item>, b: Seq<Item>)
    ensures
        drop_nothing(a + b) == drop_nothing(a) + drop_nothing(b),
    decreases b.len(),
{
    if b.len() == 0 {
        assert(a + b =~= a);
        assert(drop_nothing(a) + drop_nothing(b) =~= drop_nothing(a));
    } else {
        lemma_drop_nothing_add(a, b.drop_last());
        assert((a + b).drop_last() =~= a + b.drop_last());
        assert((a + b).last() == b.last());
        if b.last().kind != Kind::Nothing {
            assert(drop_nothing(a) + drop_nothing(b.drop_last()).push(b.last()) =~= (drop_nothing(a)
                + drop_nothing(b.drop_last())).push(b.last()));
        }
    }
}

pub proof fn lemma_drop_nothing_len(s: Seq<Item>)
    ensures
        drop_nothing(s).len() <= s.len(),
        forall|k: int| 0 <= k < drop_nothing(s).len() ==> #[trigger] drop_nothing(s)[k].kind != Kind::Nothing,
    decreases s.len(),
{
    if s.len() > 0 {
        lemma_drop_nothing_len(s.drop_last());
    }
}

/// The result of a rule: its template filled in, padding dropped.
pub open spec fn result_spec(r: Rule, f: Fragment, produced: Item) -> Seq<Item> {
    drop_nothing(template_spec(r).map_values(|s: Slot| slot_item(s, f, produced)))
}

/// The fragment at the front of a stack: its first four words, padded with
/// nothing.
pub open spec fn fragment_spec(stack: Seq<Item>) -> Fragment {
    let pad = Item { kind: Kind::Nothing, handle: 0 };
    Fragment {
        w0: if stack.len() > 0 { stack[0] } else { pad },
        w1: if stack.len() > 1 { stack[1] } else { pad },
        w2: if stack.len() > 2 { stack[2] } else { pad },
        w3: if stack.len() > 3 { stack[3] } else { pad },
    }
}

/// The words of `s` without the padding, in order.
fn without_nothing(s: &[Item]) -> (v: Vec<Item>)
    ensures
        v@ == drop_nothing(s@),
{
    let mut v: Vec<Item> = Vec::new();
    let mut i: usize = 0;
    assert(s@.take(0) =~= Seq::<Item>::empty());
    while i < s.len()
        invariant
            i <= s@.len(),
            v@ == drop_nothing(s@.take(i as int)),
        decreases s@.len() - i,
    {
        assert(s@.take(i + 1).drop_last() =~= s@.take(i as int));
        if s[i].kind != Kind::Nothing {
            v.push(s[i]);
        }
        i += 1;
    }
    assert(s@.take(s@.len() as int) =~= s@);
    v
}

/// The state of a parse, read mathematically: the stack (its front first),
/// the words of the sentence still to come (the next one last), and whether
/// the parse is over.
pub struct ParserV {
    pub stack: Seq<Item>,
    pub queue: Seq<Item>,
    pub converged: bool,
}

/// A parse in progress.
pub struct Parser {
    stack: Vec<Item>,
    queue: Vec<Item>,
    converged: bool,
}

impl View for Parser {
    type V = ParserV;

    closed spec fn view(&self) -> ParserV {
        ParserV { stack: self.stack@, queue: self.queue@, converged: self.converged }
    }
}

/// The items of a fragment, in order.
pub open spec fn fragment_items(f: Fragment) -> Seq<Item> {
    seq![f.w0, f.w1, f.w2, f.w3]
}

/// The value of a finished parse: what is left once the start of the line
/// and the padding are dropped.
pub open spec fn leftover(s: Seq<Item>) -> Seq<Item>
    decreases s.len(),
{
    if s.len() == 0 {
        s
    } else if s.last().kind == Kind::StartOfLine || s.last().kind == Kind::Nothing {
        leftover(s.drop_last())
    } else {
        leftover(s.drop_last()).push(s.last())
    }
}

fn fill_slot(s: Slot, f: &Fragment, produced: Item) -> (i: Item)
    ensures
        i == slot_item(s, *f, produced),
{
    match s {
        Slot::W0 => f.w0,
        Slot::W1 => f.w1,
        Slot::W2 => f.w2,
        Slot::W3 => f.w3,
        Slot::Produced => produced,
    }
}

/// Where the words of a rule's result come from.
pub fn template(r: Rule) -> (t: Vec<Slot>)
    ensures
        t@ == template_spec(r),
{
    let t = match r {
        Rule::IfBlock => vec![Slot::W1, Slot::W2, Slot::W3],
        Rule::AssertLine => vec![Slot::W1, Slot::W2, Slot::W3],
        Rule::Monad0 => vec![Slot::W0, Slot::Produced, Slot::W3],
        Rule::Monad1 => vec![Slot::W0, Slot::W1, Slot::Produced],
        Rule::Dyad2 => vec![Slot::W0, Slot::Produced],
        Rule::Adverb3 => vec![Slot::W0, Slot::Produced, Slot::W3],
        Rule::Conj4 => vec![Slot::W0, Slot::Produced],
        Rule::Conj4Nouns => vec![Slot::W0, Slot::Produced],
        Rule::Fork5 => vec![Slot::W0, Slot::Produced],
        Rule::BondAdverbs => vec![Slot::W0, Slot::W1, Slot::W2, Slot::W3],
        Rule::Bident6 => vec![Slot::W0, Slot::Produced, Slot::W3],
        Rule::Hook6 => vec![Slot::W0, Slot::Produced, Slot::W3],
        Rule::IsLocalName => vec![Slot::W2, Slot::W3],
        Rule::IsLocalNoun => vec![Slot::W3],
        Rule::IsGlobalName => vec![Slot::W2, Slot::W3],
        Rule::IsGlobalNoun => vec![Slot::W3],
        Rule::Paren => vec![Slot::W1, Slot::W3],
        Rule::Shift => vec![Slot::W0, Slot::W1, Slot::W2, Slot::W3],
    };
    assert(t@ =~= template_spec(r));
    t
}

impl Parser {
    /// A parse of `sentence`; `start` stands for the start of the line.
    pub fn new(sentence: Vec<Item>, start: Item) -> (p: Parser)
        ensures
            p@.stack == Seq::<Item>::empty(),
            p@.queue == seq![start] + sentence@,
            !p@.converged,
    {
        let mut queue: Vec<Item> = Vec::new();
        queue.push(start);
        let mut i: usize = 0;
        while i < sentence.len()
            invariant
                i <= sentence@.len(),
                queue@ == seq![start] + sentence@.take(i as int),
            decreases sentence@.len() - i,
        {
            queue.push(sentence[i]);
            i += 1;
            assert(queue@ =~= seq![start] + sentence@.take(i as int));
        }
        assert(sentence@.take(sentence@.len() as int) =~= sentence@);
        Parser { stack: Vec::new(), queue, converged: false }
    }

    /// Whether the parse is over.
    /// How many words are on the stack.
    pub fn depth(&self) -> (n: usize)
        ensures
            n == self@.stack.len(),
    {
        self.stack.len()
    }

    pub fn is_converged(&self) -> (b: bool)
        ensures
            b == self@.converged,
    {
        self.converged
    }

    /// Takes the fragment, the first four words, off the front of the stack.
    pub fn take_fragment(&mut self) -> (f: Fragment)
        ensures
            f == fragment_spec(old(self)@.stack),
            final(self)@.stack == old(self)@.stack.skip(if old(self)@.stack.len() < 4 { old(self)@.stack.len() as int } else { 4 }),
            final(self)@.queue == old(self)@.queue,
            final(self)@.converged == old(self)@.converged,
    {
        let pad = Item { kind: Kind::Nothing, handle: 0 };
        let n = self.stack.len();
        let w0 = if n > 0 { self.stack[0] } else { pad };
        let w1 = if n > 1 { self.stack[1] } else { pad };
        let w2 = if n > 2 { self.stack[2] } else { pad };
        let w3 = if n > 3 { self.stack[3] } else { pad };
        let k = if n < 4 { n } else { 4 };
        let mut rest: Vec<Item> = Vec::new();
        let mut i = k;
        while i < n
            invariant
                k <= i <= n,
                n == self.stack@.len(),
                rest@ == self.stack@.subrange(k as int, i as int),
            decreases n - i,
        {
            rest.push(self.stack[i]);
            i += 1;
            assert(rest@ =~= self.stack@.subrange(k as int, i as int));
        }
        assert(self.stack@.subrange(k as int, n as int) =~= self.stack@.skip(k as int));
        self.stack = rest;
        Fragment { w0, w1, w2, w3 }
    }

    /// Puts the result of rule `r`, applied to the fragment `f`, on the front
    /// of the stack; `produced` is the word the rule's action produced.
    pub fn put_result(&mut self, r: Rule, f: Fragment, produced: Item)
        ensures
            final(self)@.stack == result_spec(r, f, produced) + drop_nothing(old(self)@.stack),
            final(self)@.queue == old(self)@.queue,
            final(self)@.converged == old(self)@.converged,
    {
        let t = template(r);
        let mut filled: Vec<Item> = Vec::new();
        let mut i: usize = 0;
        while i < t.len()
            invariant
                i <= t@.len(),
                t@ == template_spec(r),
                filled@ == t@.take(i as int).map_values(|s: Slot| slot_item(s, f, produced)),
            decreases t@.len() - i,
        {
            filled.push(fill_slot(t[i], &f, produced));
            i += 1;
            assert(filled@ =~= t@.take(i as int).map_values(|s: Slot| slot_item(s, f, produced)));
        }
        assert(t@.take(t@.len() as int) =~= t@);
        filled.append(&mut self.stack);
        let ghost all = filled@;
        proof {
            lemma_drop_nothing_add(
                template_spec(r).map_values(|s: Slot| slot_item(s, f, produced)),
                old(self)@.stack,
            );
            lemma_drop_nothing_idem(old(self)@.stack);
        }
        self.stack = without_nothing(filled.as_slice());
    }

    /// No rule applies to the fragment `f`: it goes back, with the next word
    /// of the sentence in front of it; with none left, the parse is over.
    pub fn shift(&mut self, f: Fragment)
        ensures
            old(self)@.queue.len() > 0 ==> final(self)@.stack == drop_nothing(
                seq![old(self)@.queue.last()] + fragment_items(f),
            ) + drop_nothing(old(self)@.stack) && final(self)@.queue == old(self)@.queue.drop_last()
                && final(self)@.converged == old(self)@.converged,
            old(self)@.queue.len() == 0 ==> final(self)@.stack == drop_nothing(fragment_items(f))
                + drop_nothing(old(self)@.stack) && final(self)@.queue == old(self)@.queue
                && final(self)@.converged,
    {
        let mut front: Vec<Item> = Vec::new();
        match self.queue.pop() {
            Some(v) => {
                front.push(v);
            },
            None => {
                self.converged = true;
            },
        }
        let ghost head = front@;
        front.push(f.w0);
        front.push(f.w1);
        front.push(f.w2);
        front.push(f.w3);
        assert(front@ =~= head + fragment_items(f));
        let ghost all_front = front@;
        front.append(&mut self.stack);
        proof {
            lemma_drop_nothing_add(all_front, old(self)@.stack);
            lemma_drop_nothing_idem(old(self)@.stack);
        }
        self.stack = without_nothing(front.as_slice());
    }

    /// The noun of names in the fragment `f` needs more input before the
    /// conjunction can take it: the parse stops, to resume where it was.
    pub fn suspend(&mut self, f: Fragment)
        ensures
            final(self)@.stack == seq![f.w1, f.w2] + old(self)@.stack,
            final(self)@.queue == old(self)@.queue.push(f.w0),
            final(self)@.converged == old(self)@.converged,
    {
        self.queue.push(f.w0);
        let mut front: Vec<Item> = Vec::new();
        front.push(f.w1);
        front.push(f.w2);
        front.append(&mut self.stack);
        self.stack = front;
    }

    /// Resumes a suspended parse with `noun`, the input gathered meanwhile,
    /// put third on the stack.
    pub fn resume(&mut self, noun: Item)
        requires
            old(self)@.stack.len() >= 2,
        ensures
            final(self)@.stack == old(self)@.stack.insert(2, noun),
            final(self)@.queue == old(self)@.queue,
            final(self)@.converged == old(self)@.converged,
    {
        self.stack.insert(2, noun);
    }

    /// The value of the sentence once the parse is over: nothing, its one
    /// remaining word, or a syntax error when more than one is left.
    pub fn finish(&self) -> (r: Result<Option<Item>, JError>)
        ensures
            leftover(self@.stack).len() == 0 ==> r == Ok::<Option<Item>, JError>(None),
            leftover(self@.stack).len() == 1 ==> r == Ok::<Option<Item>, JError>(Some(leftover(self@.stack)[0])),
            leftover(self@.stack).len() > 1 ==> r == Err::<Option<Item>, JError>(JError::SyntaxError),
    {
        let mut left: Vec<Item> = Vec::new();
        let mut i: usize = 0;
        assert(self.stack@.take(0) =~= Seq::<Item>::empty());
        while i < self.stack.len()
            invariant
                i <= self.stack@.len(),
                left@ == leftover(self.stack@.take(i as int)),
            decreases self.stack@.len() - i,
        {
            assert(self.stack@.take(i + 1).drop_last() =~= self.stack@.take(i as int));
            let it = self.stack[i];
            if it.kind != Kind::StartOfLine && it.kind != Kind::Nothing {
                left.push(it);
            }
            i += 1;
        }
        assert(self.stack@.take(self.stack@.len() as int) =~= self.stack@);
        if left.len() == 0 {
            Ok(None)
        } else if left.len() == 1 {
            Ok(Some(left[0]))
        } else {
            Err(JError::SyntaxError)
        }
    }
}

pub proof fn lemma_drop_nothing_idem(s: Seq<Item>)
    ensures
        drop_nothing(drop_nothing(s)) == drop_nothing(s),
    decreases s.len(),
{
    if s.len() > 0 {
        lemma_drop_nothing_idem(s.drop_last());
        if s.last().kind != Kind::Nothing {
            let d = drop_nothing(s.drop_last());
            assert(d.push(s.last()).drop_last() =~= d);
        }
    }
}

/// The number of words a fragment took off a stack.
pub open spec fn taken(stack: Seq<Item>) -> int {
    if stack.len() < 4 {
        stack.len() as int
    } else {
        4
    }
}

/// Every rule but a shift or a refusal leaves fewer words on the stack than
/// its fragment took off it (the stack holding no padding, and the produced
/// word being a word), while a shift takes a word off the rest of the
/// sentence: each step brings the parse nearer its end.
pub proof fn law_reduction_shrinks(stack: Seq<Item>, produced: Item)
    requires
        forall|k: int| 0 <= k < stack.len() ==> #[trigger] stack[k].kind != Kind::Nothing,
        produced.kind != Kind::Nothing,
        ({
            let f = fragment_spec(stack);
            let r = rule_spec(f.w0.kind, f.w1.kind, f.w2.kind, f.w3.kind);
            r != Rule::Shift && r != Rule::BondAdverbs
        }),
    ensures
        ({
            let f = fragment_spec(stack);
            let r = rule_spec(f.w0.kind, f.w1.kind, f.w2.kind, f.w3.kind);
            result_spec(r, f, produced).len() < taken(stack)
        }),
{
    let f = fragment_spec(stack);
    let r = rule_spec(f.w0.kind, f.w1.kind, f.w2.kind, f.w3.kind);
    let items = template_spec(r).map_values(|sl: Slot| slot_item(sl, f, produced));
    reveal_with_fuel(drop_nothing, 5);
    lemma_drop_nothing_len(items);
    if stack.len() > 3 {
        assert(items.len() < 4);
    } else {
        let pad = Item { kind: Kind::Nothing, handle: 0 };
        assert(f.w3 == pad);
        if stack.len() == 3 {
            assert(f.w0 == stack[0] && f.w1 == stack[1] && f.w2 == stack[2]);
            assert(f.w0.kind != Kind::Nothing && f.w1.kind != Kind::Nothing && f.w2.kind != Kind::Nothing);
            assert(items.len() <= 3);
            assert(drop_nothing(items).len() < 3);
        } else {
            assert(f.w2 == pad);
            if stack.len() == 2 {
                assert(f.w0 == stack[0] && f.w1 == stack[1]);
            }
            if stack.len() == 1 {
                assert(f.w0 == stack[0]);
            }
            assert(drop_nothing(items).len() < stack.len());
        }
    }
}

/// Where names start being looked up in a fragment: just after its last
/// assignment, or at its start when it has none.  A name to the left of an
/// assignment is the name being assigned, and stays a name.
pub open spec fn resolve_start_spec(f: Fragment) -> int {
    if f.w3.kind == Kind::IsGlobal || f.w3.kind == Kind::IsLocal {
        4
    } else if f.w2.kind == Kind::IsGlobal || f.w2.kind == Kind::IsLocal {
        3
    } else if f.w1.kind == Kind::IsGlobal || f.w1.kind == Kind::IsLocal {
        2
    } else if f.w0.kind == Kind::IsGlobal || f.w0.kind == Kind::IsLocal {
        1
    } else {
        0
    }
}

fn is_assignment(k: Kind) -> (r: bool)
    ensures
        r == (k == Kind::IsGlobal || k == Kind::IsLocal),
{
    k == Kind::IsGlobal || k == Kind::IsLocal
}

/// The first position of the fragment whose names are looked up before the
/// parsing table is consulted.
pub fn resolve_start(f: &Fragment) -> (n: usize)
    ensures
        n == resolve_start_spec(*f),
{
    if is_assignment(f.w3.kind) {
        4
    } else if is_assignment(f.w2.kind) {
        3
    } else if is_assignment(f.w1.kind) {
        2
    } else if is_assignment(f.w0.kind) {
        1
    } else {
        0
    }
}

} // verus!
