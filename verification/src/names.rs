//! The foreigns that inspect and change names: `4!:0` (name class),
//! `4!:1` (name list) and `4!:55` (erase).

use vstd::prelude::*;

use crate::error::JError;
use crate::locales::{
    erase_spec, locales_wf, lookup_spec, names_of, parse_name_spec, Assoc, Locales,
    LocalesV, Names,
};
use crate::parse::{Item, Kind};
use crate::text::chars_of;
use vstd::multiset::Multiset;

verus! {

broadcast use vstd::seq_lib::group_to_multiset_ensures;

/// The class J gives a word: 0 noun, 1 adverb, 2 conjunction, 3 verb.
pub open spec fn name_code_spec(k: Kind) -> Option<i64> {
    match k {
        Kind::Noun => Some(0),
        Kind::Adverb => Some(1),
        Kind::Conjunction => Some(2),
        Kind::Verb => Some(3),
        _ => None,
    }
}

/// The class J gives a word of this part of speech, if any.
pub fn name_code(k: Kind) -> (c: Option<i64>)
    ensures
        c == name_code_spec(k),
{
    match k {
        Kind::Noun => Some(0),
        Kind::Adverb => Some(1),
        Kind::Conjunction => Some(2),
        Kind::Verb => Some(3),
        _ => None,
    }
}

/// `4!:0`: the class of what a name stands for; -1 when it stands for
/// nothing, -2 when it is ill formed.
pub open spec fn name_status_spec(l: LocalesV<Item>, n: Seq<char>) -> Result<i64, JError> {
    match lookup_spec(l, n) {
        Ok(Some(w)) => match name_code_spec(w.kind) {
            Some(c) => Ok(c),
            None => Err(JError::NonceError),
        },
        Ok(None) => Ok(-1i64),
        Err(_) => Ok(-2i64),
    }
}

/// The class of what `name` stands for.
pub fn name_status(l: &Locales<Item>, name: &str) -> (r: Result<i64, JError>)
    ensures
        r == name_status_spec(l@, name@),
{
    match l.lookup(name) {
        Ok(Some(w)) => match name_code(w.kind) {
            Some(c) => Ok(c),
            None => Err(JError::NonceError),
        },
        Ok(None) => Ok(-1),
        Err(_) => Ok(-2),
    }
}

/// The locales after erasing each of `names` in turn; a name that is ill
/// formed is passed over.
pub open spec fn erase_all<V>(l: LocalesV<V>, names: Seq<Seq<char>>) -> LocalesV<V>
    decreases names.len(),
{
    if names.len() == 0 {
        l
    } else {
        let before = erase_all(l, names.drop_last());
        match erase_spec(before, names.last()) {
            Ok(after) => after,
            Err(_) => before,
        }
    }
}

/// `4!:55`: erases each name; for each, 1 when it was well formed (and so
/// erased), 0 when it was not.
pub fn name_erase<V>(l: &mut Locales<V>, names: &Vec<String>) -> (r: Vec<u8>)
    requires
        locales_wf(old(l)@),
    ensures
        locales_wf(final(l)@),
        final(l)@ == erase_all(old(l)@, names@.map_values(|s: String| s@)),
        r@.len() == names@.len(),
        forall|k: int| 0 <= k < names@.len() ==> #[trigger] r@[k] == (if parse_name_spec(names@[k]@) is Ok { 1u8 } else { 0u8 }),
{
    let ghost nv = names@.map_values(|s: String| s@);
    let ghost init = l@;
    let mut r: Vec<u8> = Vec::new();
    let mut i: usize = 0;
    assert(nv.take(0) =~= Seq::<Seq<char>>::empty());
    while i < names.len()
        invariant
            i <= names@.len(),
            nv == names@.map_values(|s: String| s@),
            locales_wf(l@),
            l@ == erase_all(init, nv.take(i as int)),
            r@.len() == i,
            forall|k: int| 0 <= k < i ==> #[trigger] r@[k] == (if parse_name_spec(names@[k]@) is Ok { 1u8 } else { 0u8 }),
        decreases names@.len() - i,
    {
        assert(nv.take(i + 1).drop_last() =~= nv.take(i as int));
        assert(nv.take(i + 1).last() == names@[i as int]@);
        let ok = l.erase(names[i].as_str()).is_ok();
        r.push(if ok { 1u8 } else { 0u8 });
        i += 1;
    }
    assert(nv.take(names@.len() as int) =~= nv);
    r
}

/// `4!:1`'s classes: 0 to 3 and 6 are classes; listing locales (6) is not
/// supported here.
pub open spec fn namelist_check_spec(y: Seq<i64>) -> Result<(), JError> {
    if y.contains(6) {
        Err(JError::NonceError)
    } else if exists|k: int| 0 <= k < y.len() && !(y[k] == 0 || y[k] == 1 || y[k] == 2 || y[k] == 3 || y[k] == 6) {
        Err(JError::DomainError)
    } else {
        Ok(())
    }
}

/// Checks the classes asked of `4!:1`.
pub fn namelist_check(y: &[i64]) -> (r: Result<(), JError>)
    ensures
        r == namelist_check_spec(y@),
{
    let mut i: usize = 0;
    while i < y.len()
        invariant
            i <= y@.len(),
            forall|k: int| 0 <= k < i ==> y@[k] != 6,
        decreases y@.len() - i,
    {
        if y[i] == 6 {
            assert(y@.contains(6));
            return Err(JError::NonceError);
        }
        i += 1;
    }
    assert(!y@.contains(6));
    let mut j: usize = 0;
    while j < y.len()
        invariant
            !y@.contains(6),
            j <= y@.len(),
            forall|k: int| 0 <= k < j ==> (y@[k] == 0 || y@[k] == 1 || y@[k] == 2 || y@[k] == 3 || y@[k] == 6),
        decreases y@.len() - j,
    {
        let v = y[j];
        if !(v == 0 || v == 1 || v == 2 || v == 3 || v == 6) {
            assert(!(y@[j as int] == 0 || y@[j as int] == 1 || y@[j as int] == 2 || y@[j as int] == 3 || y@[j as int] == 6));
            return Err(JError::DomainError);
        }
        j += 1;
    }
    Ok(())
}

/// `a` comes no later than `b` in the order of strings: lexicographic by
/// character (which for UTF-8 is the order of their bytes).
pub open spec fn lex_le(a: Seq<char>, b: Seq<char>) -> bool
    decreases a.len(),
{
    if a.len() == 0 {
        true
    } else if b.len() == 0 {
        false
    } else if a[0] != b[0] {
        a[0] < b[0]
    } else {
        lex_le(a.drop_first(), b.drop_first())
    }
}

pub proof fn lemma_lex_total(a: Seq<char>, b: Seq<char>)
    ensures
        lex_le(a, b) || lex_le(b, a),
    decreases a.len(),
{
    if a.len() > 0 && b.len() > 0 && a[0] == b[0] {
        lemma_lex_total(a.drop_first(), b.drop_first());
    }
}

pub proof fn lemma_lex_trans(a: Seq<char>, b: Seq<char>, c: Seq<char>)
    requires
        lex_le(a, b),
        lex_le(b, c),
    ensures
        lex_le(a, c),
    decreases a.len(),
{
    if a.len() > 0 && b.len() > 0 && c.len() > 0 && a[0] == b[0] && b[0] == c[0] {
        lemma_lex_trans(a.drop_first(), b.drop_first(), c.drop_first());
    }
}

/// The strings come in order.
pub open spec fn sorted(s: Seq<Seq<char>>) -> bool {
    forall|i: int, j: int| 0 <= i < j < s.len() ==> lex_le(#[trigger] s[i], #[trigger] s[j])
}

fn lex_le_exec(a: &[char], b: &[char]) -> (r: bool)
    ensures
        r == lex_le(a@, b@),
{
    let mut i: usize = 0;
    assert(a@.skip(0) =~= a@);
    assert(b@.skip(0) =~= b@);
    while i < a.len() && i < b.len() && a[i] == b[i]
        invariant
            i <= a@.len(),
            i <= b@.len(),
            lex_le(a@, b@) == lex_le(a@.skip(i as int), b@.skip(i as int)),
        decreases a@.len() - i,
    {
        assert(a@.skip(i as int).drop_first() =~= a@.skip(i + 1));
        assert(b@.skip(i as int).drop_first() =~= b@.skip(i + 1));
        i += 1;
    }
    if i == a.len() {
        true
    } else if i == b.len() {
        false
    } else {
        a[i] < b[i]
    }
}

pub open spec fn strings_of(v: Seq<String>) -> Seq<Seq<char>> {
    v.map_values(|s: String| s@)
}

/// Puts `x` into the sorted list `out`, keeping it sorted.
fn insert_sorted(out: &mut Vec<String>, keys: &mut Vec<Vec<char>>, x: String)
    requires
        sorted(strings_of(old(out)@)),
        old(keys)@.map_values(|k: Vec<char>| k@) == strings_of(old(out)@),
    ensures
        sorted(strings_of(final(out)@)),
        final(keys)@.map_values(|k: Vec<char>| k@) == strings_of(final(out)@),
        strings_of(final(out)@).to_multiset() == strings_of(old(out)@).to_multiset().insert(x@),
{
    let xk = chars_of(x.as_str());
    let ghost s = strings_of(out@);
    assert(keys@.map_values(|k: Vec<char>| k@).len() == keys@.len());
    assert(keys@.len() == out@.len());
    let mut i: usize = 0;
    while i < out.len() && lex_le_exec(keys[i].as_slice(), xk.as_slice())
        invariant
            i <= out@.len(),
            s == strings_of(out@),
            keys@.map_values(|k: Vec<char>| k@) == s,
            keys@.len() == out@.len(),
            xk@ == x@,
            forall|k: int| 0 <= k < i ==> lex_le(#[trigger] s[k], x@),
        decreases out@.len() - i,
    {
        assert(keys@[i as int]@ == s[i as int]);
        i += 1;
    }
    proof {
        if i < out@.len() {
            assert(keys@[i as int]@ == s[i as int]);
            assert(!lex_le(s[i as int], x@));
            lemma_lex_total(s[i as int], x@);
        }
    }
    out.insert(i, x);
    keys.insert(i, xk);
    let ghost t = strings_of(out@);
    assert(t =~= s.insert(i as int, x@));
    assert(keys@.map_values(|k: Vec<char>| k@) =~= t);
    assert forall|a: int, b: int| 0 <= a < b < t.len() implies lex_le(#[trigger] t[a], #[trigger] t[b]) by {
        if b < i {
            assert(t[a] == s[a] && t[b] == s[b]);
        } else if b == i {
            assert(t[a] == s[a]);
        } else if a == i {
            assert(t[b] == s[b - 1]);
            assert(lex_le(s[i as int], s[b - 1]) || i == b - 1);
            if i < b - 1 {
                lemma_lex_trans(x@, s[i as int], s[b - 1]);
            }
        } else if a < i {
            assert(t[a] == s[a] && t[b] == s[b - 1]);
            if a < b - 1 {
            }
        } else {
            assert(t[a] == s[a - 1] && t[b] == s[b - 1]);
        }
    }
    assert(t.remove(i as int) =~= s);
}

/// A name `4!:1` lists: it starts with the prefix asked for, if any, and is
/// of one of the classes asked for.
pub open spec fn listed(entry: (Seq<char>, Item), prefix: Option<Seq<char>>, y: Seq<i64>) -> bool {
    &&& match prefix {
        Some(p) => p.len() <= entry.0.len() && entry.0.take(p.len() as int) == p,
        None => true,
    }
    &&& match name_code_spec(entry.1.kind) {
        Some(c) => y.contains(c),
        None => false,
    }
}

/// The names of `es` that `4!:1` lists, in order.
pub open spec fn listed_names(es: Assoc<Item>, prefix: Option<Seq<char>>, y: Seq<i64>) -> Seq<Seq<char>>
    decreases es.len(),
{
    if es.len() == 0 {
        Seq::empty()
    } else {
        let rest = listed_names(es.drop_last(), prefix, y);
        if listed(es.last(), prefix, y) {
            rest.push(es.last().0)
        } else {
            rest
        }
    }
}

/// The names `4!:1` looks at: those of the innermost anonymous scope, then
/// those of the current locale.
pub open spec fn candidates(l: LocalesV<Item>) -> Assoc<Item> {
    l.anon.last() + names_of(l.inner, l.search_path.last())
}

pub open spec fn opt_str_view(o: Option<&str>) -> Option<Seq<char>> {
    match o {
        Some(s) => Some(s@),
        None => None,
    }
}

fn starts_with(k: &[char], p: &[char]) -> (r: bool)
    ensures
        r == (p@.len() <= k@.len() && k@.take(p@.len() as int) == p@),
{
    if p.len() > k.len() {
        return false;
    }
    let mut i: usize = 0;
    while i < p.len()
        invariant
            p@.len() <= k@.len(),
            i <= p@.len(),
            forall|j: int| 0 <= j < i ==> k@[j] == p@[j],
        decreases p@.len() - i,
    {
        if k[i] != p[i] {
            assert(k@.take(p@.len() as int)[i as int] != p@[i as int]);
            return false;
        }
        i += 1;
    }
    assert(k@.take(p@.len() as int) =~= p@);
    true
}

fn in_classes(y: &[i64], c: i64) -> (r: bool)
    ensures
        r == y@.contains(c),
{
    let mut i: usize = 0;
    while i < y.len()
        invariant
            i <= y@.len(),
            forall|j: int| 0 <= j < i ==> y@[j] != c,
        decreases y@.len() - i,
    {
        if y[i] == c {
            assert(y@[i as int] == c);
            return true;
        }
        i += 1;
    }
    false
}

fn add_listed(
    out: &mut Vec<String>,
    keys: &mut Vec<Vec<char>>,
    names: &Names<Item>,
    prefix: &Option<Vec<char>>,
    y: &[i64],
    Ghost(pv): Ghost<Option<Seq<char>>>,
)
    requires
        sorted(strings_of(old(out)@)),
        old(keys)@.map_values(|k: Vec<char>| k@) == strings_of(old(out)@),
        pv == (match prefix {
            Some(p) => Some(p@),
            None => None::<Seq<char>>,
        }),
    ensures
        sorted(strings_of(final(out)@)),
        final(keys)@.map_values(|k: Vec<char>| k@) == strings_of(final(out)@),
        strings_of(final(out)@).to_multiset() == strings_of(old(out)@).to_multiset().add(
            listed_names(names@, pv, y@).to_multiset(),
        ),
{
    let ghost init = strings_of(out@).to_multiset();
    let mut i: usize = 0;
    assert(names@.take(0) =~= Seq::<(Seq<char>, Item)>::empty());
    assert(listed_names(names@.take(0), pv, y@).to_multiset() =~= Multiset::empty());
    assert(init.add(Multiset::empty()) =~= init);
    while i < names.len()
        invariant
            i <= names@.len(),
            sorted(strings_of(out@)),
            keys@.map_values(|k: Vec<char>| k@) == strings_of(out@),
            pv == (match prefix {
                Some(p) => Some(p@),
                None => None::<Seq<char>>,
            }),
            strings_of(out@).to_multiset() == init.add(listed_names(names@.take(i as int), pv, y@).to_multiset()),
        decreases names@.len() - i,
    {
        let (k, w) = names.entry(i);
        let kc = chars_of(k.as_str());
        let pre_ok = match prefix {
            Some(p) => starts_with(kc.as_slice(), p.as_slice()),
            None => true,
        };
        let code_ok = match name_code(w.kind) {
            Some(c) => in_classes(y, c),
            None => false,
        };
        assert(names@.take(i + 1).drop_last() =~= names@.take(i as int));
        assert(names@.take(i + 1).last() == names@[i as int]);
        let ghost before = listed_names(names@.take(i as int), pv, y@);
        if pre_ok && code_ok {
            insert_sorted(out, keys, k.clone());
            assert(listed_names(names@.take(i + 1), pv, y@) == before.push(k@));
            assert(init.add(before.push(k@).to_multiset()) =~= init.add(before.to_multiset()).insert(k@));
        }
        i += 1;
    }
    assert(names@.take(names@.len() as int) =~= names@);
}

pub proof fn lemma_listed_names_add(a: Assoc<Item>, b: Assoc<Item>, prefix: Option<Seq<char>>, y: Seq<i64>)
    ensures
        listed_names(a + b, prefix, y) == listed_names(a, prefix, y) + listed_names(b, prefix, y),
    decreases b.len(),
{
    if b.len() == 0 {
        assert(a + b =~= a);
        assert(listed_names(a, prefix, y) + listed_names(b, prefix, y) =~= listed_names(a, prefix, y));
    } else {
        lemma_listed_names_add(a, b.drop_last(), prefix, y);
        assert((a + b).drop_last() =~= a + b.drop_last());
        assert((a + b).last() == b.last());
        if listed(b.last(), prefix, y) {
            assert(listed_names(a, prefix, y) + listed_names(b.drop_last(), prefix, y).push(b.last().0)
                =~= (listed_names(a, prefix, y) + listed_names(b.drop_last(), prefix, y)).push(b.last().0));
        }
    }
}

/// `4!:1`: the names of the innermost scope and of the current locale whose
/// class is asked for (and that start with `prefix`, when given), sorted.
pub fn namelist(l: &Locales<Item>, prefix: Option<&str>, y: &[i64]) -> (r: Result<Vec<String>, JError>)
    requires
        locales_wf(l@),
        l@.anon.len() > 0,
    ensures
        r matches Err(e) ==> namelist_check_spec(y@) == Err::<(), JError>(e),
        r matches Ok(v) ==> namelist_check_spec(y@) is Ok && sorted(strings_of(v@)) && strings_of(v@).to_multiset()
            == listed_names(candidates(l@), opt_str_view(prefix), y@).to_multiset(),
{
    match namelist_check(y) {
        Err(e) => {
            return Err(e);
        },
        Ok(()) => {},
    }
    let pre: Option<Vec<char>> = match prefix {
        Some(p) => Some(chars_of(p)),
        None => None,
    };
    let ghost pv = opt_str_view(prefix);
    let mut out: Vec<String> = Vec::new();
    let mut keys: Vec<Vec<char>> = Vec::new();
    assert(strings_of(out@) =~= Seq::<Seq<char>>::empty());
    assert(keys@.map_values(|k: Vec<char>| k@) =~= Seq::<Seq<char>>::empty());
    assert(strings_of(out@).to_multiset() =~= Multiset::empty());
    let top = l.innermost().unwrap();
    add_listed(&mut out, &mut keys, top, &pre, y, Ghost(pv));
    let cur = l.default_locale();
    let ghost lv = l@;
    match l.locale(&cur) {
        Some(names) => {
            add_listed(&mut out, &mut keys, names, &pre, y, Ghost(pv));
            assert(names_of(lv.inner, lv.search_path.last()) == names@);
        },
        None => {
            assert(names_of(lv.inner, lv.search_path.last()) =~= Seq::<(Seq<char>, Item)>::empty());
            assert(listed_names(Seq::<(Seq<char>, Item)>::empty(), pv, y@) =~= Seq::<Seq<char>>::empty());
        },
    }
    proof {
        lemma_listed_names_add(lv.anon.last(), names_of(lv.inner, lv.search_path.last()), pv, y@);
        assert(Multiset::<Seq<char>>::empty().add(listed_names(lv.anon.last(), pv, y@).to_multiset()) =~= listed_names(lv.anon.last(), pv, y@).to_multiset());
        vstd::seq_lib::lemma_multiset_commutative(listed_names(lv.anon.last(), pv, y@), listed_names(names_of(lv.inner, lv.search_path.last()), pv, y@));
    }
    Ok(out)
}

} // verus!
