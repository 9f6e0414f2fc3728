//! Names and the locales that hold them: where an assignment puts a value,
//! and where a lookup finds it.

use vstd::prelude::*;

use crate::error::JError;
use crate::number::{find_char, find_char_exec, has_char, lemma_find_char};
use crate::text::{chars_of, slice_of, string_of};

verus! {

/// An association list read mathematically: names with what they stand for.
pub type Assoc<X> = Seq<(Seq<char>, X)>;

/// Where the first entry for `k` stands, or -1.
pub open spec fn index_of<X>(s: Assoc<X>, k: Seq<char>) -> int
    decreases s.len(),
{
    if s.len() == 0 {
        -1
    } else {
        let i = index_of(s.drop_last(), k);
        if i >= 0 {
            i
        } else if s.last().0 == k {
            s.len() - 1
        } else {
            -1
        }
    }
}

pub proof fn lemma_index_of<X>(s: Assoc<X>, k: Seq<char>)
    ensures
        -1 <= index_of(s, k) < s.len(),
        index_of(s, k) >= 0 ==> s[index_of(s, k)].0 == k,
        forall|j: int| 0 <= j < s.len() && (index_of(s, k) < 0 || j < index_of(s, k)) ==> #[trigger] s[j].0 != k,
    decreases s.len(),
{
    if s.len() > 0 {
        lemma_index_of(s.drop_last(), k);
        assert forall|j: int| 0 <= j < s.len() && (index_of(s, k) < 0 || j < index_of(s, k)) implies #[trigger] s[j].0 != k by {
            if j < s.len() - 1 {
                assert(s.drop_last()[j] == s[j]);
            }
        }
    }
}

/// What the first entry for `k` holds, if any.
pub open spec fn get<X>(s: Assoc<X>, k: Seq<char>) -> Option<X> {
    let i = index_of(s, k);
    if i >= 0 {
        Some(s[i].1)
    } else {
        None
    }
}

/// `s` with `k` standing for `x`: its entry replaced, or a new one at the end.
pub open spec fn put<X>(s: Assoc<X>, k: Seq<char>, x: X) -> Assoc<X> {
    let i = index_of(s, k);
    if i >= 0 {
        s.update(i, (k, x))
    } else {
        s.push((k, x))
    }
}

/// `s` without the entry for `k`.
pub open spec fn del<X>(s: Assoc<X>, k: Seq<char>) -> Assoc<X> {
    let i = index_of(s, k);
    if i >= 0 {
        s.remove(i)
    } else {
        s
    }
}

/// No name has two entries.
pub open spec fn distinct<X>(s: Assoc<X>) -> bool {
    forall|i: int, j: int| 0 <= i < j < s.len() ==> #[trigger] s[i].0 != #[trigger] s[j].0
}

pub proof fn lemma_get_distinct<X>(s: Assoc<X>, k: Seq<char>, i: int)
    requires
        distinct(s),
        0 <= i < s.len(),
        s[i].0 == k,
    ensures
        index_of(s, k) == i,
        get(s, k) == Some(s[i].1),
{
    lemma_index_of(s, k);
    if index_of(s, k) < 0 || i < index_of(s, k) {
        assert(s[i].0 != k);
    }
}

/// After `put`, the name stands for the new value and every other name for
/// what it stood for before; no name gains a second entry.
pub proof fn lemma_put<X>(s: Assoc<X>, k: Seq<char>, x: X, k2: Seq<char>)
    ensures
        get(put(s, k, x), k) == Some(x),
        k2 != k ==> get(put(s, k, x), k2) == get(s, k2),
        distinct(s) ==> distinct(put(s, k, x)),
{
    lemma_index_of(s, k);
    lemma_index_of(s, k2);
    let t = put(s, k, x);
    lemma_index_of(t, k);
    lemma_index_of(t, k2);
    let i = index_of(s, k);
    let i2 = index_of(s, k2);
    let j = index_of(t, k);
    let j2 = index_of(t, k2);
    if i >= 0 {
        if j != i {
            if 0 <= j < i {
                assert(t[j] == s[j]);
            } else {
                assert(t[i].0 == k);
            }
        }
    } else {
        if j != s.len() {
            if j >= 0 && j < s.len() {
                assert(t[j] == s[j]);
            } else {
                assert(t[s.len() as int].0 == k);
            }
        }
    }
    if k2 != k {
        if i2 >= 0 {
            if j2 != i2 {
                if j2 >= 0 && j2 < i2 {
                    assert(t[j2].0 == k2);
                    assert(t[j2] == s[j2]);
                } else {
                    assert(t[i2] == s[i2]);
                }
            }
        } else {
            if j2 >= 0 {
                if j2 < s.len() {
                    assert(t[j2] == s[j2]);
                } else {
                    assert(t[j2].0 == k);
                }
            }
        }
    }
    if distinct(s) {
        assert forall|a: int, b: int| 0 <= a < b < t.len() implies #[trigger] t[a].0 != #[trigger] t[b].0 by {
            if i >= 0 {
                if a != i && b != i {
                    assert(t[a] == s[a] && t[b] == s[b]);
                } else if a == i {
                    assert(t[b] == s[b]);
                    assert(s[i].0 == k);
                } else {
                    assert(t[a] == s[a]);
                    assert(s[i].0 == k);
                }
            } else {
                if b < s.len() {
                    assert(t[a] == s[a] && t[b] == s[b]);
                } else {
                    assert(t[a] == s[a]);
                }
            }
        }
    }
}

/// After `del`, a name with one entry at most stands for nothing, and every
/// other name for what it stood for before.
pub proof fn lemma_del<X>(s: Assoc<X>, k: Seq<char>, k2: Seq<char>)
    requires
        distinct(s),
    ensures
        get(del(s, k), k) is None,
        k2 != k ==> get(del(s, k), k2) == get(s, k2),
        distinct(del(s, k)),
{
    lemma_index_of(s, k);
    lemma_index_of(s, k2);
    let t = del(s, k);
    let i = index_of(s, k);
    lemma_index_of(t, k);
    lemma_index_of(t, k2);
    assert forall|a: int, b: int| 0 <= a < b < t.len() implies #[trigger] t[a].0 != #[trigger] t[b].0 by {
        if i >= 0 {
            let sa = if a < i { a } else { a + 1 };
            let sb = if b < i { b } else { b + 1 };
            assert(t[a] == s[sa]);
            assert(t[b] == s[sb]);
        } else {
            assert(t[a] == s[a] && t[b] == s[b]);
        }
    }
    let j = index_of(t, k);
    if j >= 0 {
        if i >= 0 {
            let sj = if j < i { j } else { j + 1 };
            assert(t[j] == s[sj]);
        } else {
            assert(t[j] == s[j]);
        }
    }
    if k2 != k {
        let i2 = index_of(s, k2);
        let j2 = index_of(t, k2);
        if i2 >= 0 {
            lemma_get_distinct(s, k2, i2);
            if i >= 0 {
                assert(i2 != i);
                let ti2 = if i2 < i { i2 } else { i2 - 1 };
                assert(t[ti2] == s[i2]);
                lemma_get_distinct(t, k2, ti2);
            } else {
                assert(t[i2] == s[i2]);
                lemma_get_distinct(t, k2, i2);
            }
        } else if j2 >= 0 {
            if i >= 0 {
                let sj2 = if j2 < i { j2 } else { j2 + 1 };
                assert(t[j2] == s[sj2]);
            } else {
                assert(t[j2] == s[j2]);
            }
        }
    }
}

/// The names of one scope, each with what it stands for.
pub struct Names<V> {
    entries: Vec<(String, V)>,
}

impl<V> View for Names<V> {
    type V = Assoc<V>;

    closed spec fn view(&self) -> Assoc<V> {
        self.entries@.map_values(|e: (String, V)| (e.0@, e.1))
    }
}

impl<V> Names<V> {
    /// A scope with no names in it.
    pub fn new() -> (r: Self)
        ensures
            r@ == Seq::<(Seq<char>, V)>::empty(),
    {
        let r = Names { entries: Vec::new() };
        assert(r@ =~= Seq::<(Seq<char>, V)>::empty());
        r
    }

    fn find(&self, n: &String) -> (r: Option<usize>)
        ensures
            self@.len() == self.entries@.len(),
            r matches Some(i) ==> i == index_of(self@, n@) && i < self@.len(),
            r is None ==> index_of(self@, n@) < 0,
    {
        proof {
            lemma_index_of(self@, n@);
        }
        let mut i: usize = 0;
        while i < self.entries.len()
            invariant
                i <= self.entries@.len(),
                self@.len() == self.entries@.len(),
                forall|j: int| 0 <= j < i ==> self@[j].0 != n@,
                -1 <= index_of(self@, n@) < self@.len(),
                index_of(self@, n@) >= 0 ==> self@[index_of(self@, n@)].0 == n@,
                forall|j: int| 0 <= j < self@.len() && (index_of(self@, n@) < 0 || j < index_of(self@, n@)) ==> #[trigger] self@[j].0 != n@,
            decreases self.entries@.len() - i,
        {
            assert(self@[i as int].0 == self.entries@[i as int].0@);
            if self.entries[i].0 == *n {
                return Some(i);
            }
            i += 1;
        }
        None
    }

    /// The number of names in this scope.
    pub fn len(&self) -> (n: usize)
        ensures
            n == self@.len(),
    {
        self.entries.len()
    }

    /// The `i`th name of this scope, with what it stands for.
    pub fn entry(&self, i: usize) -> (e: (&String, &V))
        requires
            i < self@.len(),
        ensures
            e.0@ == self@[i as int].0,
            *e.1 == self@[i as int].1,
    {
        let e = &self.entries[i];
        (&e.0, &e.1)
    }

    /// What `n` stands for in this scope.
    pub fn get(&self, n: &String) -> (r: Option<&V>)
        ensures
            r matches Some(x) ==> get(self@, n@) == Some(*x),
            r is None <==> get(self@, n@) is None,
    {
        match self.find(n) {
            Some(i) => Some(&self.entries[i].1),
            None => None,
        }
    }

    /// Makes `n` stand for `v` in this scope.
    pub fn insert(&mut self, n: String, v: V)
        ensures
            final(self)@ == put(old(self)@, n@, v),
    {
        match self.find(&n) {
            Some(i) => {
                let ghost before = self@;
                self.entries.set(i, (n, v));
                assert(self@ =~= before.update(i as int, (n@, v)));
            },
            None => {
                let ghost before = self@;
                self.entries.push((n, v));
                assert(self@ =~= before.push((n@, v)));
            },
        }
    }

    /// Takes `n` out of this scope.
    pub fn remove(&mut self, n: &String)
        ensures
            final(self)@ == del(old(self)@, n@),
    {
        match self.find(n) {
            Some(i) => {
                let ghost before = self@;
                self.entries.remove(i);
                assert(self@ =~= before.remove(i as int));
            },
            None => {},
        }
    }
}

/// How a name splits into its own part and its locale: `name_locale_`
/// names `name` in locale `locale`; a name not ending in `_` has no locale;
/// any other use of `_` at the end is ill formed.
pub open spec fn parse_name_spec(name: Seq<char>) -> Result<(Seq<char>, Option<Seq<char>>), JError> {
    if !(name.len() > 0 && name.last() == '_') {
        Ok((name, None))
    } else {
        let k = find_char(name, '_');
        if k + 1 < name.len() && !has_char(name.subrange((k + 1) as int, name.len() - 1), '_') {
            Ok((name.take(k as int), Some(name.subrange((k + 1) as int, name.len() - 1))))
        } else {
            Err(JError::IllFormedName)
        }
    }
}

pub open spec fn opt_string_view(o: Option<String>) -> Option<Seq<char>> {
    match o {
        Some(s) => Some(s@),
        None => None,
    }
}

/// Splits a name into its own part and the locale it names, if any.
pub fn parse_name(name: &str) -> (r: Result<(String, Option<String>), JError>)
    ensures
        r matches Ok((b, ns)) ==> parse_name_spec(name@) == Ok::<(Seq<char>, Option<Seq<char>>), JError>((b@, opt_string_view(ns))),
        r matches Err(e) ==> parse_name_spec(name@) == Err::<(Seq<char>, Option<Seq<char>>), JError>(e),
{
    let cs = chars_of(name);
    let n = cs.len();
    if n == 0 || cs[n - 1] != '_' {
        return Ok((name.to_owned(), None));
    }
    let k = find_char_exec(cs.as_slice(), '_');
    proof {
        lemma_find_char(cs@, '_');
    }
    if k + 1 >= n {
        return Err(JError::IllFormedName);
    }
    let mid = slice_of(cs.as_slice(), k + 1, n - 1);
    let j = find_char_exec(mid.as_slice(), '_');
    if j < mid.len() {
        return Err(JError::IllFormedName);
    }
    let base = slice_of(cs.as_slice(), 0, k);
    Ok((string_of(base.as_slice()), Some(string_of(mid.as_slice()))))
}

/// A name written with its locale parts: `base_locale_` reads back as
/// `base` in `locale`, whenever neither part holds a `_`.
pub proof fn law_parse_name_round_trip(base: Seq<char>, locale: Seq<char>)
    requires
        !base.contains('_'),
        !locale.contains('_'),
    ensures
        parse_name_spec(base + seq!['_'] + locale + seq!['_']) == Ok::<(Seq<char>, Option<Seq<char>>), JError>((base, Some(locale))),
{
    let name = base + seq!['_'] + locale + seq!['_'];
    lemma_find_char(name, '_');
    assert(name[base.len() as int] == '_');
    assert forall|k: int| 0 <= k < base.len() implies name[k] != '_' by {
        assert(name[k] == base[k]);
    }
    if find_char(name, '_') < base.len() {
        assert(name[find_char(name, '_') as int] == base[find_char(name, '_') as int]);
    }
    assert(find_char(name, '_') == base.len());
    assert(name.subrange((base.len() + 1) as int, name.len() - 1) =~= locale);
    assert(name.take(base.len() as int) =~= base);
    lemma_find_char(locale, '_');
}

/// The locales, read mathematically: the named locales with their names,
/// the locales an unqualified name is looked for in (the last first), and the
/// anonymous scopes of explicit definitions (the innermost last).
pub struct LocalesV<V> {
    pub inner: Assoc<Assoc<V>>,
    pub search_path: Seq<Seq<char>>,
    pub anon: Seq<Assoc<V>>,
}

/// No locale and no scope lists a name twice, and there is a locale that
/// unqualified assignments go to.
pub open spec fn locales_wf<V>(l: LocalesV<V>) -> bool {
    &&& distinct(l.inner)
    &&& forall|i: int| 0 <= i < l.inner.len() ==> distinct(#[trigger] l.inner[i].1)
    &&& forall|i: int| 0 <= i < l.anon.len() ==> distinct(#[trigger] l.anon[i])
    &&& l.search_path.len() > 0
}

/// What `b` stands for in the innermost scope that has it.
pub open spec fn lookup_scopes<V>(anon: Seq<Assoc<V>>, b: Seq<char>) -> Option<V>
    decreases anon.len(),
{
    if anon.len() == 0 {
        None
    } else {
        match get(anon.last(), b) {
            Some(v) => Some(v),
            None => lookup_scopes(anon.drop_last(), b),
        }
    }
}

/// What `b` stands for in the locale `loc`, if that locale has it.
pub open spec fn lookup_in<V>(inner: Assoc<Assoc<V>>, loc: Seq<char>, b: Seq<char>) -> Option<V> {
    match get(inner, loc) {
        Some(names) => get(names, b),
        None => None,
    }
}

/// What `b` stands for in the last locale of `path` that has it.
pub open spec fn lookup_path<V>(inner: Assoc<Assoc<V>>, path: Seq<Seq<char>>, b: Seq<char>) -> Option<V>
    decreases path.len(),
{
    if path.len() == 0 {
        None
    } else {
        match lookup_in(inner, path.last(), b) {
            Some(v) => Some(v),
            None => lookup_path(inner, path.drop_last(), b),
        }
    }
}

/// What a name stands for: a qualified name in its locale only; any other in
/// the innermost scope that has it, else along the search path.
pub open spec fn lookup_spec<V>(l: LocalesV<V>, n: Seq<char>) -> Result<Option<V>, JError> {
    match parse_name_spec(n) {
        Err(e) => Err(e),
        Ok((b, Some(loc))) => Ok(lookup_in(l.inner, loc, b)),
        Ok((b, None)) => Ok(
            match lookup_scopes(l.anon, b) {
                Some(v) => Some(v),
                None => lookup_path(l.inner, l.search_path, b),
            },
        ),
    }
}

/// The locale an assignment or erasure of a name goes to.
pub open spec fn target_locale<V>(l: LocalesV<V>, loc: Option<Seq<char>>) -> Seq<char> {
    match loc {
        Some(x) => x,
        None => l.search_path.last(),
    }
}

/// The names of locale `loc`, none when there is no such locale yet.
pub open spec fn names_of<V>(inner: Assoc<Assoc<V>>, loc: Seq<char>) -> Assoc<V> {
    match get(inner, loc) {
        Some(names) => names,
        None => Seq::empty(),
    }
}

/// A global assignment: the name stands for `v` in its locale (the last of
/// the search path when it names none), the locale made if need be.
pub open spec fn assign_global_spec<V>(l: LocalesV<V>, n: Seq<char>, v: V) -> Result<LocalesV<V>, JError> {
    match parse_name_spec(n) {
        Err(e) => Err(e),
        Ok((b, loc)) => {
            let t = target_locale(l, loc);
            Ok(LocalesV { inner: put(l.inner, t, put(names_of(l.inner, t), b, v)), ..l })
        },
    }
}

/// A local assignment: the name stands for `v` in the innermost scope.  A
/// name with a locale in it is refused, and so is an assignment with no scope.
pub open spec fn assign_local_spec<V>(l: LocalesV<V>, n: Seq<char>, v: V) -> Result<LocalesV<V>, JError> {
    if n.contains('_') {
        Err(JError::NonceError)
    } else if l.anon.len() == 0 {
        Err(JError::DomainError)
    } else {
        Ok(LocalesV { anon: l.anon.update(l.anon.len() - 1, put(l.anon.last(), n, v)), ..l })
    }
}

/// An erasure: the name no longer stands for anything in its locale.
pub open spec fn erase_spec<V>(l: LocalesV<V>, n: Seq<char>) -> Result<LocalesV<V>, JError> {
    match parse_name_spec(n) {
        Err(e) => Err(e),
        Ok((b, loc)) => {
            let t = target_locale(l, loc);
            match get(l.inner, t) {
                None => Ok(l),
                Some(names) => Ok(LocalesV { inner: put(l.inner, t, del(names, b)), ..l }),
            }
        },
    }
}

/// The locales of one interpreter, with the values `V` its names stand for.
pub struct Locales<V> {
    inner: Vec<(String, Names<V>)>,
    search_path: Vec<String>,
    anon: Vec<Names<V>>,
}

impl<V> View for Locales<V> {
    type V = LocalesV<V>;

    closed spec fn view(&self) -> LocalesV<V> {
        LocalesV {
            inner: self.inner@.map_values(|e: (String, Names<V>)| (e.0@, e.1@)),
            search_path: self.search_path@.map_values(|s: String| s@),
            anon: self.anon@.map_values(|n: Names<V>| n@),
        }
    }
}

proof fn lemma_distinct_put_nested<V>(inner: Assoc<Assoc<V>>, t: Seq<char>, names: Assoc<V>)
    requires
        distinct(inner),
        forall|i: int| 0 <= i < inner.len() ==> distinct(#[trigger] inner[i].1),
        distinct(names),
    ensures
        distinct(put(inner, t, names)),
        forall|i: int| 0 <= i < put(inner, t, names).len() ==> distinct(#[trigger] put(inner, t, names)[i].1),
{
    lemma_put(inner, t, names, t);
    lemma_index_of(inner, t);
    let p = put(inner, t, names);
    assert forall|i: int| 0 <= i < p.len() implies distinct(#[trigger] p[i].1) by {
        if index_of(inner, t) >= 0 {
            if i != index_of(inner, t) {
                assert(p[i] == inner[i]);
            }
        } else if i < inner.len() {
            assert(p[i] == inner[i]);
        }
    }
}

proof fn lemma_names_of_distinct<V>(inner: Assoc<Assoc<V>>, t: Seq<char>)
    requires
        forall|i: int| 0 <= i < inner.len() ==> distinct(#[trigger] inner[i].1),
    ensures
        distinct(names_of(inner, t)),
{
    lemma_index_of(inner, t);
    if index_of(inner, t) >= 0 {
        assert(distinct(inner[index_of(inner, t)].1));
    }
}

impl<V> Locales<V> {
    /// The locales of a fresh interpreter: none yet, the search path `z`
    /// then `base`, and one anonymous scope.
    pub fn new() -> (r: Self)
        ensures
            r@.inner == Seq::<(Seq<char>, Assoc<V>)>::empty(),
            r@.search_path == seq!["z"@, "base"@],
            r@.anon == seq![Seq::<(Seq<char>, V)>::empty()],
            locales_wf(r@),
    {
        let mut search_path: Vec<String> = Vec::new();
        search_path.push("z".to_owned());
        search_path.push("base".to_owned());
        let mut anon: Vec<Names<V>> = Vec::new();
        anon.push(Names::new());
        let r = Locales { inner: Vec::new(), search_path, anon };
        assert(r@.inner =~= Seq::<(Seq<char>, Assoc<V>)>::empty());
        assert(r@.search_path =~= seq!["z"@, "base"@]);
        assert(r@.anon =~= seq![Seq::<(Seq<char>, V)>::empty()]);
        r
    }

    fn find_locale(&self, loc: &String) -> (r: Option<usize>)
        ensures
            self@.inner.len() == self.inner@.len(),
            r matches Some(i) ==> i == index_of(self@.inner, loc@) && i < self@.inner.len(),
            r is None ==> index_of(self@.inner, loc@) < 0,
    {
        proof {
            lemma_index_of(self@.inner, loc@);
        }
        let ghost s = self@.inner;
        let mut i: usize = 0;
        while i < self.inner.len()
            invariant
                s == self@.inner,
                i <= self.inner@.len(),
                s.len() == self.inner@.len(),
                forall|j: int| 0 <= j < i ==> s[j].0 != loc@,
                -1 <= index_of(s, loc@) < s.len(),
                index_of(s, loc@) >= 0 ==> s[index_of(s, loc@)].0 == loc@,
                forall|j: int| 0 <= j < s.len() && (index_of(s, loc@) < 0 || j < index_of(s, loc@)) ==> #[trigger] s[j].0 != loc@,
            decreases self.inner@.len() - i,
        {
            assert(s[i as int].0 == self.inner@[i as int].0@);
            if self.inner[i].0 == *loc {
                return Some(i);
            }
            i += 1;
        }
        None
    }

    /// The innermost anonymous scope, if any.
    pub fn innermost(&self) -> (r: Option<&Names<V>>)
        ensures
            r matches Some(n) ==> self@.anon.len() > 0 && n@ == self@.anon.last(),
            r is None ==> self@.anon.len() == 0,
    {
        let n = self.anon.len();
        if n == 0 {
            None
        } else {
            assert(self@.anon[n - 1] == self.anon@[n - 1]@);
            Some(&self.anon[n - 1])
        }
    }

    /// The names of the locale `loc`, if it exists.
    pub fn locale(&self, loc: &String) -> (r: Option<&Names<V>>)
        ensures
            r matches Some(n) ==> get(self@.inner, loc@) == Some(n@),
            r is None ==> get(self@.inner, loc@) is None,
    {
        match self.find_locale(loc) {
            Some(i) => {
                proof {
                    lemma_index_of(self@.inner, loc@);
                }
                assert(self@.inner[i as int].1 == self.inner@[i as int].1@);
                Some(&self.inner[i].1)
            },
            None => None,
        }
    }

    /// The locale assignments and erasures go to when the name names none.
    pub fn default_locale(&self) -> (r: String)
        requires
            self@.search_path.len() > 0,
        ensures
            r@ == self@.search_path.last(),
    {
        let k = self.search_path.len() - 1;
        assert(self@.search_path[k as int] == self.search_path@[k as int]@);
        self.search_path[k].clone()
    }

    /// Makes `n` stand for `v` in its locale.
    pub fn assign_global(&mut self, n: &str, v: V) -> (r: Result<(), JError>)
        requires
            locales_wf(old(self)@),
        ensures
            locales_wf(final(self)@),
            match assign_global_spec(old(self)@, n@, v) {
                Ok(l) => r is Ok && final(self)@ == l,
                Err(e) => r == Err::<(), JError>(e) && final(self)@ == old(self)@,
            },
    {
        let (b, loc) = match parse_name(n) {
            Ok(p) => p,
            Err(e) => {
                return Err(e);
            },
        };
        let t = match loc {
            Some(x) => x,
            None => self.default_locale(),
        };
        let ghost l = self@;
        proof {
            lemma_names_of_distinct(l.inner, t@);
            lemma_put(names_of(l.inner, t@), b@, v, b@);
            lemma_distinct_put_nested(l.inner, t@, put(names_of(l.inner, t@), b@, v));
        }
        match self.find_locale(&t) {
            Some(i) => {
                proof {
                    lemma_index_of(l.inner, t@);
                }
                let ghost before = self.inner@;
                let (key, mut names) = self.inner.remove(i);
                assert(names@ == l.inner[i as int].1);
                assert(key@ == t@);
                assert(names_of(l.inner, t@) == names@);
                names.insert(b, v);
                self.inner.insert(i, (key, names));
                assert(self.inner@ =~= before.remove(i as int).insert(i as int, (key, names)));
                assert(self@.inner =~= l.inner.update(i as int, (t@, put(names_of(l.inner, t@), b@, v))));
            },
            None => {
                let mut names: Names<V> = Names::new();
                names.insert(b, v);
                self.inner.push((t, names));
                assert(self@.inner =~= put(l.inner, t@, put(names_of(l.inner, t@), b@, v)));
            },
        }
        assert(self@.search_path =~= l.search_path);
        assert(self@.anon =~= l.anon);
        Ok(())
    }

    /// Makes `n` stand for `v` in the innermost anonymous scope.
    pub fn assign_local(&mut self, n: &str, v: V) -> (r: Result<(), JError>)
        requires
            locales_wf(old(self)@),
        ensures
            locales_wf(final(self)@),
            match assign_local_spec(old(self)@, n@, v) {
                Ok(l) => r is Ok && final(self)@ == l,
                Err(e) => r == Err::<(), JError>(e) && final(self)@ == old(self)@,
            },
    {
        let cs = chars_of(n);
        let j = find_char_exec(cs.as_slice(), '_');
        proof {
            lemma_find_char(cs@, '_');
        }
        if j < cs.len() {
            return Err(JError::NonceError);
        }
        if self.anon.len() == 0 {
            return Err(JError::DomainError);
        }
        let ghost l = self@;
        let mut top = self.anon.pop().unwrap();
        assert(top@ == l.anon.last());
        proof {
            lemma_put(top@, n@, v, n@);
        }
        top.insert(n.to_owned(), v);
        self.anon.push(top);
        assert(self@.anon =~= l.anon.update(l.anon.len() - 1, put(l.anon.last(), n@, v)));
        assert(self@.inner =~= l.inner);
        assert(self@.search_path =~= l.search_path);
        Ok(())
    }

    /// Takes `n` out of its locale.
    pub fn erase(&mut self, n: &str) -> (r: Result<(), JError>)
        requires
            locales_wf(old(self)@),
        ensures
            locales_wf(final(self)@),
            match erase_spec(old(self)@, n@) {
                Ok(l) => r is Ok && final(self)@ == l,
                Err(e) => r == Err::<(), JError>(e) && final(self)@ == old(self)@,
            },
    {
        let (b, loc) = match parse_name(n) {
            Ok(p) => p,
            Err(e) => {
                return Err(e);
            },
        };
        let t = match loc {
            Some(x) => x,
            None => self.default_locale(),
        };
        let ghost l = self@;
        match self.find_locale(&t) {
            Some(i) => {
                proof {
                    lemma_index_of(l.inner, t@);
                    lemma_del(l.inner[i as int].1, b@, b@);
                    lemma_distinct_put_nested(l.inner, t@, del(l.inner[i as int].1, b@));
                }
                let (key, mut names) = self.inner.remove(i);
                assert(names@ == l.inner[i as int].1);
                names.remove(&b);
                self.inner.insert(i, (key, names));
                assert(self@.inner =~= put(l.inner, t@, del(l.inner[i as int].1, b@)));
                assert(self@.search_path =~= l.search_path);
                assert(self@.anon =~= l.anon);
            },
            None => {},
        }
        Ok(())
    }

    /// Opens a new innermost anonymous scope.
    pub fn push_scope(&mut self)
        requires
            locales_wf(old(self)@),
        ensures
            locales_wf(final(self)@),
            final(self)@ == (LocalesV { anon: old(self)@.anon.push(Seq::empty()), ..old(self)@ }),
    {
        let ghost l = self@;
        self.anon.push(Names::new());
        assert(self@.anon =~= l.anon.push(Seq::empty()));
        assert(self@.inner =~= l.inner);
        assert(self@.search_path =~= l.search_path);
    }

    /// Closes the innermost anonymous scope.
    pub fn pop_scope(&mut self)
        requires
            locales_wf(old(self)@),
            old(self)@.anon.len() > 0,
        ensures
            locales_wf(final(self)@),
            final(self)@ == (LocalesV { anon: old(self)@.anon.drop_last(), ..old(self)@ }),
    {
        let ghost l = self@;
        let _ = self.anon.pop();
        assert(self@.anon =~= l.anon.drop_last());
        assert(self@.inner =~= l.inner);
        assert(self@.search_path =~= l.search_path);
    }

    /// What `n` stands for, if anything.
    pub fn lookup(&self, n: &str) -> (r: Result<Option<&V>, JError>)
        ensures
            r matches Ok(Some(x)) ==> lookup_spec(self@, n@) == Ok::<Option<V>, JError>(Some(*x)),
            r matches Ok(None) ==> lookup_spec(self@, n@) == Ok::<Option<V>, JError>(None),
            r matches Err(e) ==> lookup_spec(self@, n@) == Err::<Option<V>, JError>(e),
    {
        let (b, loc) = match parse_name(n) {
            Ok(p) => p,
            Err(e) => {
                return Err(e);
            },
        };
        if let Some(t) = loc {
            match self.find_locale(&t) {
                Some(i) => {
                    proof {
                        lemma_index_of(self@.inner, t@);
                    }
                    assert(self@.inner[i as int].1 == self.inner@[i as int].1@);
                    return Ok(self.inner[i].1.get(&b));
                },
                None => {
                    return Ok(None);
                },
            }
        }
        let ghost anon = self@.anon;
        let mut k = self.anon.len();
        assert(anon.take(k as int) =~= anon);
        while k > 0
            invariant
                parse_name_spec(n@) == Ok::<(Seq<char>, Option<Seq<char>>), JError>((b@, None)),
                anon == self@.anon,
                anon.len() == self.anon@.len(),
                k <= anon.len(),
                lookup_scopes(anon, b@) == lookup_scopes(anon.take(k as int), b@),
            decreases k,
        {
            k -= 1;
            assert(anon.take(k + 1).last() == anon[k as int]);
            assert(anon.take(k + 1).drop_last() =~= anon.take(k as int));
            assert(anon[k as int] == self.anon@[k as int]@);
            match self.anon[k].get(&b) {
                Some(x) => {
                    assert(lookup_scopes(anon.take(k + 1), b@) == Some(*x));
                    assert(lookup_spec(self@, n@) == Ok::<Option<V>, JError>(lookup_scopes(anon, b@)));
                    return Ok(Some(x));
                },
                None => {},
            }
        }
        assert(lookup_scopes(anon.take(0), b@) is None);
        let ghost path = self@.search_path;
        let ghost inner = self@.inner;
        let mut p = self.search_path.len();
        assert(path.take(p as int) =~= path);
        while p > 0
            invariant
                parse_name_spec(n@) == Ok::<(Seq<char>, Option<Seq<char>>), JError>((b@, None)),
                lookup_scopes(self@.anon, b@) is None,
                path == self@.search_path,
                inner == self@.inner,
                path.len() == self.search_path@.len(),
                p <= path.len(),
                lookup_path(inner, path, b@) == lookup_path(inner, path.take(p as int), b@),
            decreases p,
        {
            p -= 1;
            assert(path.take(p + 1).last() == path[p as int]);
            assert(path.take(p + 1).drop_last() =~= path.take(p as int));
            assert(path[p as int] == self.search_path@[p as int]@);
            match self.find_locale(&self.search_path[p]) {
                Some(i) => {
                    proof {
                        lemma_index_of(inner, path[p as int]);
                    }
                    assert(inner[i as int].1 == self.inner@[i as int].1@);
                    match self.inner[i].1.get(&b) {
                        Some(x) => {
                            assert(lookup_in(inner, path[p as int], b@) == Some(*x));
                            assert(lookup_path(inner, path.take(p + 1), b@) == Some(*x));
                            return Ok(Some(x));
                        },
                        None => {},
                    }
                },
                None => {},
            }
        }
        Ok(None)
    }
}

/// What a global assignment wrote, a lookup of the same name reads back:
/// always for a name with its locale, and for a plain name when no
/// anonymous scope hides it.
pub proof fn law_lookup_after_assign_global<V>(l: LocalesV<V>, n: Seq<char>, v: V)
    requires
        locales_wf(l),
        parse_name_spec(n) matches Ok((b, loc)) && (loc is Some || lookup_scopes(l.anon, b) is None),
    ensures
        assign_global_spec(l, n, v) matches Ok(l2) && lookup_spec(l2, n) == Ok::<Option<V>, JError>(Some(v)),
{
    let (b, loc) = parse_name_spec(n)->Ok_0;
    let t = target_locale(l, loc);
    let names = put(names_of(l.inner, t), b, v);
    lemma_put(l.inner, t, names, t);
    lemma_put(names_of(l.inner, t), b, v, b);
    let l2 = assign_global_spec(l, n, v)->Ok_0;
    if loc is None {
        assert(l2.search_path.last() == t);
        assert(l2.anon == l.anon);
        assert(lookup_in(l2.inner, t, b) == Some(v));
    }
}

/// What a local assignment wrote, a lookup of the same name reads back.
pub proof fn law_lookup_after_assign_local<V>(l: LocalesV<V>, n: Seq<char>, v: V)
    requires
        l.anon.len() > 0,
        !n.contains('_'),
    ensures
        assign_local_spec(l, n, v) matches Ok(l2) && lookup_spec(l2, n) == Ok::<Option<V>, JError>(Some(v)),
{
    if n.len() > 0 {
        assert(n.contains(n.last()));
    }
    assert(parse_name_spec(n) == Ok::<(Seq<char>, Option<Seq<char>>), JError>((n, None)));
    let l2 = assign_local_spec(l, n, v)->Ok_0;
    lemma_put(l.anon.last(), n, v, n);
    assert(l2.anon.last() == put(l.anon.last(), n, v));
}

/// Once a name with its locale is erased, it stands for nothing.
pub proof fn law_lookup_after_erase<V>(l: LocalesV<V>, n: Seq<char>)
    requires
        locales_wf(l),
        parse_name_spec(n) matches Ok((b, loc)) && loc is Some,
    ensures
        erase_spec(l, n) matches Ok(l2) && lookup_spec(l2, n) == Ok::<Option<V>, JError>(None),
{
    let (b, loc) = parse_name_spec(n)->Ok_0;
    let t = loc->0;
    lemma_index_of(l.inner, t);
    match get(l.inner, t) {
        None => {},
        Some(names) => {
            let i = index_of(l.inner, t);
            assert(distinct(l.inner[i].1));
            lemma_del(names, b, b);
            lemma_put(l.inner, t, del(names, b), t);
        },
    }
}

/// A global assignment to one name leaves what every other name with its
/// locale stands for unchanged.
pub proof fn law_assign_global_elsewhere<V>(l: LocalesV<V>, n: Seq<char>, v: V, m: Seq<char>)
    requires
        locales_wf(l),
        parse_name_spec(n) matches Ok((b, loc)) && loc is Some,
        parse_name_spec(m) matches Ok((b2, loc2)) && loc2 is Some,
        parse_name_spec(n) != parse_name_spec(m),
    ensures
        assign_global_spec(l, n, v) matches Ok(l2) && lookup_spec(l2, m) == lookup_spec(l, m),
{
    let (b, loc) = parse_name_spec(n)->Ok_0;
    let (b2, loc2) = parse_name_spec(m)->Ok_0;
    let t = loc->0;
    let t2 = loc2->0;
    let names = put(names_of(l.inner, t), b, v);
    lemma_put(l.inner, t, names, t2);
    lemma_put(names_of(l.inner, t), b, v, b2);
    if t == t2 {
        assert(b != b2);
        lemma_index_of(l.inner, t);
    }
}

} // verus!
