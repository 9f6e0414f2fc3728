//! Reading a verb back out of its atomic representation (a gerund's item):
//! the boxed trees that `` ` `` and `5!:1` build.

use vstd::prelude::*;

use crate::error::JError;
use crate::scan::{primitive_word, str_to_primitive};
use crate::primitives::ConjEntry;
use crate::words::{Word, WordV};

verus! {

/// An array as the atomic representation is read: a list of characters
/// (its rank and its characters), a box array (its shape and its items in
/// row-major order), or any other array, by the caller's handle.
#[derive(Debug)]
pub enum Ar {
    Chars(usize, Vec<char>),
    Boxes(Vec<usize>, Vec<Ar>),
    Other(usize),
}

/// What an atomic representation stands for.
#[derive(Debug)]
pub enum Untied {
    /// A noun: the array itself.
    Noun(Ar),
    /// A primitive, spelt out.
    Primitive(Word),
    /// A fork of three verbs.
    Fork(Box<Untied>, Box<Untied>, Box<Untied>),
    /// A conjunction with its two arguments, still to be formed.
    Conjunction(Word, Box<Untied>, Box<Untied>),
}

/// An [`Untied`] read mathematically.
pub enum UntiedV {
    Noun(Ar),
    Primitive(WordV),
    Fork(Box<UntiedV>, Box<UntiedV>, Box<UntiedV>),
    Conjunction(WordV, Box<UntiedV>, Box<UntiedV>),
}

impl View for Untied {
    type V = UntiedV;

    open spec fn view(&self) -> UntiedV
        decreases self,
    {
        match self {
            Untied::Noun(a) => UntiedV::Noun(*a),
            Untied::Primitive(w) => UntiedV::Primitive(w@),
            Untied::Fork(f, g, h) => UntiedV::Fork(Box::new((**f).view()), Box::new((**g).view()), Box::new((**h).view())),
            Untied::Conjunction(c, u, v) => UntiedV::Conjunction(c@, Box::new((**u).view()), Box::new((**v).view())),
        }
    }
}

/// The spelling `s` is the single character `c`.
pub open spec fn is_op(s: Seq<char>, c: char) -> bool {
    s.len() == 1 && s[0] == c
}

/// A box list of `n` items.
pub open spec fn is_list_of(shape: Seq<usize>, n: usize) -> bool {
    shape.len() == 1 && shape[0] == n
}

/// What the atomic representation `a` stands for; `None` where it cannot be
/// read at all (a box array that is not a non-empty list has no first item
/// to tell what it holds).
pub open spec fn untie_spec(a: Ar) -> Option<Result<UntiedV, JError>>
    decreases a,
{
    match a {
        Ar::Boxes(shape, items) => {
            if !(shape@.len() == 1 && shape@[0] >= 1 && items@.len() >= 1) {
                None
            } else {
                match items@[0] {
                    Ar::Chars(rank, op) if rank <= 1 => {
                        let op = op@;
                        if is_op(op, '0') {
                            if !is_list_of(shape@, 2) || items@.len() < 2 {
                                Some(Err(JError::DomainError))
                            } else {
                                Some(Ok(UntiedV::Noun(items@[1])))
                            }
                        } else if is_op(op, '2') || is_op(op, '4') {
                            Some(Err(JError::NonceError))
                        } else if is_op(op, '3') {
                            if !is_list_of(shape@, 2) || items@.len() < 2 {
                                Some(Err(JError::DomainError))
                            } else {
                                match items@[1] {
                                    Ar::Boxes(rs, r) if is_list_of(rs@, 3) && r@.len() == 3 => {
                                        match (untie_spec(r@[0]), untie_spec(r@[1]), untie_spec(r@[2])) {
                                            (Some(f), Some(g), Some(h)) => match (f, g, h) {
                                                (Err(e), _, _) => Some(Err(e)),
                                                (Ok(_), Err(e), _) => Some(Err(e)),
                                                (Ok(_), Ok(_), Err(e)) => Some(Err(e)),
                                                (Ok(f), Ok(g), Ok(h)) => Some(Ok(UntiedV::Fork(Box::new(f), Box::new(g), Box::new(h)))),
                                            },
                                            (Some(Err(e)), _, _) => Some(Err(e)),
                                            (Some(Ok(_)), Some(Err(e)), _) => Some(Err(e)),
                                            _ => None,
                                        }
                                    },
                                    _ => Some(Err(JError::DomainError)),
                                }
                            }
                        } else {
                            match primitive_word(op) {
                                Some(WordV::Conjunction(s, c)) => {
                                    if !is_list_of(shape@, 2) || items@.len() < 2 {
                                        Some(Err(JError::DomainError))
                                    } else {
                                        match items@[1] {
                                            Ar::Boxes(rs, r) if is_list_of(rs@, 2) && r@.len() == 2 => {
                                                match (untie_spec(r@[0]), untie_spec(r@[1])) {
                                                    (Some(Err(e)), _) => Some(Err(e)),
                                                    (Some(Ok(u)), Some(Err(e))) => Some(Err(e)),
                                                    (Some(Ok(u)), Some(Ok(v))) => Some(Ok(UntiedV::Conjunction(WordV::Conjunction(s, c), Box::new(u), Box::new(v)))),
                                                    _ => None,
                                                }
                                            },
                                            _ => Some(Err(JError::DomainError)),
                                        }
                                    }
                                },
                                _ => Some(Err(JError::NonceError)),
                            }
                        }
                    },
                    _ => Some(Err(JError::NonceError)),
                }
            }
        },
        Ar::Chars(rank, name) => {
            if rank <= 1 {
                match primitive_word(name@) {
                    Some(w) => Some(Ok(UntiedV::Primitive(w))),
                    None => Some(Err(JError::NonceError)),
                }
            } else {
                Some(Err(JError::NonceError))
            }
        },
        Ar::Other(_) => Some(Err(JError::NonceError)),
    }
}

/// Untying the representation of a fork, the boxed list `'3'; f; g; h`
/// (with `f`, `g`, `h` in one boxed list of three), gives the fork whose
/// tines are, in order, what its first, second and third boxes untie to.
pub proof fn law_untie_fork(a: Ar, f: UntiedV, g: UntiedV, h: UntiedV)
    requires
        a matches Ar::Boxes(shape, items) && shape@ == seq![2usize] && items@.len() == 2
            && (items@[0] matches Ar::Chars(rank, op) && rank <= 1 && op@ == seq!['3'])
            && (items@[1] matches Ar::Boxes(rs, r) && rs@ == seq![3usize] && r@.len() == 3
                && untie_spec(r@[0]) == Some(Ok::<UntiedV, JError>(f))
                && untie_spec(r@[1]) == Some(Ok::<UntiedV, JError>(g))
                && untie_spec(r@[2]) == Some(Ok::<UntiedV, JError>(h))),
    ensures
        untie_spec(a) == Some(Ok::<UntiedV, JError>(UntiedV::Fork(Box::new(f), Box::new(g), Box::new(h)))),
{
}

/// Untying the representation of a conjunction with its arguments, the boxed
/// list `c; u; v` (with `u` and `v` in one boxed list of two), gives that
/// conjunction with, in order, what its first and second boxes untie to.
/// (A conjunction is spelt with symbols, never a single digit, which would
/// mark a noun, a fork or a train instead.)
pub proof fn law_untie_conjunction(a: Ar, s: Seq<char>, c: ConjEntry, u: UntiedV, v: UntiedV)
    requires
        a matches Ar::Boxes(shape, items) && shape@ == seq![2usize] && items@.len() == 2
            && (items@[0] matches Ar::Chars(rank, op) && rank <= 1 && op@ == s)
            && primitive_word(s) == Some(WordV::Conjunction(s, c))
            && !(s.len() == 1 && '0' <= s[0] <= '9')
            && (items@[1] matches Ar::Boxes(rs, r) && rs@ == seq![2usize] && r@.len() == 2
                && untie_spec(r@[0]) == Some(Ok::<UntiedV, JError>(u))
                && untie_spec(r@[1]) == Some(Ok::<UntiedV, JError>(v))),
    ensures
        untie_spec(a) == Some(Ok::<UntiedV, JError>(UntiedV::Conjunction(WordV::Conjunction(s, c), Box::new(u), Box::new(v)))),
{
}

/// The result of [`untie`], read mathematically.
pub open spec fn untied_result(r: Result<Untied, JError>) -> Result<UntiedV, JError> {
    match r {
        Ok(u) => Ok(u@),
        Err(e) => Err(e),
    }
}

fn is_op_exec(s: &Vec<char>, c: char) -> (r: bool)
    ensures
        r == is_op(s@, c),
{
    s.len() == 1 && s[0] == c
}

fn is_list_of_exec(shape: &Vec<usize>, n: usize) -> (r: bool)
    ensures
        r == is_list_of(shape@, n),
{
    shape.len() == 1 && shape[0] == n
}

/// Reads the verb (or noun) an atomic representation stands for: a spelt
/// primitive; a noun (`0`); a fork (`3`) of three; a conjunction with its
/// two arguments.  Executed adverbs (`2`), modifier trains (`4`) and
/// anything else are a nonce error, boxes of the wrong shape a domain error.
pub fn untie(a: Ar) -> (r: Result<Untied, JError>)
    requires
        untie_spec(a) is Some,
    ensures
        untied_result(r) == untie_spec(a)->0,
    decreases a,
{
    match a {
        Ar::Boxes(shape, items) => {
            let mut items = items;
            let ghost orig = items@;
            if !(shape.len() == 1 && shape[0] >= 1 && items.len() >= 1) {
                assert(false);
                return Err(JError::NonceError);
            }
            let (rank, is_chars) = match &items[0] {
                Ar::Chars(rank, _) => (*rank, true),
                _ => (0, false),
            };
            if !is_chars || rank > 1 {
                return Err(JError::NonceError);
            }
            let op = match &items[0] {
                Ar::Chars(_, op) => op,
                _ => {
                    return Err(JError::NonceError);
                },
            };
            if is_op_exec(op, '0') {
                if !is_list_of_exec(&shape, 2) || items.len() < 2 {
                    return Err(JError::DomainError);
                }
                let noun = items.remove(1);
                return Ok(Untied::Noun(noun));
            }
            if is_op_exec(op, '2') || is_op_exec(op, '4') {
                return Err(JError::NonceError);
            }
            if is_op_exec(op, '3') {
                if !is_list_of_exec(&shape, 2) || items.len() < 2 {
                    return Err(JError::DomainError);
                }
                let r = items.remove(1);
                match r {
                    Ar::Boxes(rs, mut r) => {
                        if !is_list_of_exec(&rs, 3) || r.len() != 3 {
                            return Err(JError::DomainError);
                        }
                        let ghost rv = r@;
                        let h = r.pop().unwrap();
                        let g = r.pop().unwrap();
                        let f = r.pop().unwrap();
                        assert(f == rv[0] && g == rv[1] && h == rv[2]);
                        let f = match untie(f) {
                            Ok(x) => x,
                            Err(e) => return Err(e),
                        };
                        let g = match untie(g) {
                            Ok(x) => x,
                            Err(e) => return Err(e),
                        };
                        let h = match untie(h) {
                            Ok(x) => x,
                            Err(e) => return Err(e),
                        };
                        return Ok(Untied::Fork(Box::new(f), Box::new(g), Box::new(h)));
                    },
                    _ => {
                        return Err(JError::DomainError);
                    },
                }
            }
            match str_to_primitive(op) {
                Some(Word::Conjunction(s, c)) => {
                    if !is_list_of_exec(&shape, 2) || items.len() < 2 {
                        return Err(JError::DomainError);
                    }
                    let r = items.remove(1);
                    match r {
                        Ar::Boxes(rs, mut r) => {
                            if !is_list_of_exec(&rs, 2) || r.len() != 2 {
                                return Err(JError::DomainError);
                            }
                            let ghost rv = r@;
                            let v = r.pop().unwrap();
                            let u = r.pop().unwrap();
                            assert(u == rv[0] && v == rv[1]);
                            let u = match untie(u) {
                            Ok(x) => x,
                            Err(e) => return Err(e),
                        };
                            let v = match untie(v) {
                            Ok(x) => x,
                            Err(e) => return Err(e),
                        };
                            Ok(Untied::Conjunction(Word::Conjunction(s, c), Box::new(u), Box::new(v)))
                        },
                        _ => Err(JError::DomainError),
                    }
                },
                _ => Err(JError::NonceError),
            }
        },
        Ar::Chars(rank, name) => {
            if rank > 1 {
                return Err(JError::NonceError);
            }
            match str_to_primitive(&name) {
                Some(w) => Ok(Untied::Primitive(w)),
                None => Err(JError::NonceError),
            }
        },
        Ar::Other(_) => Err(JError::NonceError),
    }
}

/// The representation `'0'; x` of a noun unties to the noun `x` itself.
pub proof fn law_untie_noun(a: Ar, x: Ar)
    requires
        a matches Ar::Boxes(shape, items) && shape@ == seq![2usize] && items@.len() == 2
            && (items@[0] matches Ar::Chars(rank, op) && rank <= 1 && op@ == seq!['0'])
            && items@[1] == x,
    ensures
        untie_spec(a) == Some(Ok::<UntiedV, JError>(UntiedV::Noun(x))),
{
}

/// Executed adverbs (`'2'; ...`) and modifier trains (`'4'; ...`) are not
/// untied here: a nonce error, as is anything that is neither boxes nor
/// characters.
pub proof fn law_untie_unsupported(a: Ar)
    ensures
        a matches Ar::Boxes(shape, items) && shape@.len() == 1 && shape@[0] >= 1 && items@.len() >= 1
            && (items@[0] matches Ar::Chars(rank, op) && rank <= 1 && (op@ == seq!['2'] || op@ == seq!['4']))
            ==> untie_spec(a) == Some(Err::<UntiedV, JError>(JError::NonceError)),
        a is Other ==> untie_spec(a) == Some(Err::<UntiedV, JError>(JError::NonceError)),
{
}

/// A spelt-out primitive unties to that primitive.
pub proof fn law_untie_primitive(a: Ar, w: WordV)
    requires
        a matches Ar::Chars(rank, name) && rank <= 1 && primitive_word(name@) == Some(w),
    ensures
        untie_spec(a) == Some(Ok::<UntiedV, JError>(UntiedV::Primitive(w))),
{
}

/// Picking the `k`th verb of a gerund list (`u@.k`) is untying its `k`th
/// box.
pub proof fn law_agenda_picks(u: Ar, k: usize)
    requires
        u matches Ar::Boxes(shape, items) && shape@.len() <= 1 && k < items@.len(),
    ensures
        agenda_spec(u, k) == untie_spec(u->Boxes_1@[k as int]),
{
}

/// What `u@.index` picks: the `index`th item of the box list `u`, untied; a
/// box array of higher rank is a nonce error, anything but boxes a domain
/// error, and an index past the items an index error.
pub open spec fn agenda_spec(u: Ar, index: usize) -> Option<Result<UntiedV, JError>> {
    match u {
        Ar::Boxes(shape, items) => {
            if shape@.len() > 1 {
                Some(Err(JError::NonceError))
            } else if index >= items@.len() {
                Some(Err(JError::IndexError))
            } else {
                untie_spec(items@[index as int])
            }
        },
        _ => Some(Err(JError::DomainError)),
    }
}

/// Picks the `index`th verb of the gerund `u` (`u@.n`).
pub fn agenda(u: Ar, index: usize) -> (r: Result<Untied, JError>)
    requires
        agenda_spec(u, index) is Some,
    ensures
        untied_result(r) == agenda_spec(u, index)->0,
{
    match u {
        Ar::Boxes(shape, items) => {
            if shape.len() > 1 {
                return Err(JError::NonceError);
            }
            if index >= items.len() {
                return Err(JError::IndexError);
            }
            let mut items = items;
            let item = items.remove(index);
            untie(item)
        },
        _ => Err(JError::DomainError),
    }
}

} // verus!
