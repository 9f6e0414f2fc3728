//! A character as an element of a J character array.

use vstd::prelude::*;

verus! {

/// One character of a character array.
#[derive(Clone, Copy, Debug, PartialEq, Eq, Structural)]
pub struct Char(char);

impl View for Char {
    type V = char;

    closed spec fn view(&self) -> char {
        self.0
    }
}

/// The sum of two characters: their low bytes added, wrapping at 256.
pub open spec fn char_sum(a: char, b: char) -> char {
    ((((a as u8) as int + (b as u8) as int) % 256) as u8) as char
}

impl Char {
    pub fn new(c: char) -> (r: Self)
        ensures
            r@ == c,
    {
        Char(c)
    }

    /// The zero character, `'\0'`.
    pub fn zero() -> (r: Self)
        ensures
            r@ == '\0',
    {
        Char('\0')
    }

    pub fn is_zero(&self) -> (r: bool)
        ensures
            r == (self@ == '\0'),
    {
        self.0 == '\0'
    }
}

impl std::ops::Add<Char> for Char {
    type Output = Char;

    fn add(self, rhs: Char) -> (r: Char)
        ensures
            r@ == char_sum(self@, rhs@),
    {
        #[verifier::truncate]
        let a = self.0 as u8;
        #[verifier::truncate]
        let b = rhs.0 as u8;
        let s: u8 = ((a as u16 + b as u16) % 256) as u8;
        Char(s as char)
    }
}

impl vstd::std_specs::ops::AddSpecImpl<Char> for Char {
    open spec fn obeys_add_spec() -> bool {
        true
    }

    open spec fn add_req(self, rhs: Char) -> bool {
        true
    }

    closed spec fn add_spec(self, rhs: Char) -> Char {
        Char(char_sum(self.0, rhs.0))
    }
}

} // verus!
