//! The interpreter's input, line by line: lines of a definition whose
//! control words are not all closed yet wait for the rest, and a sentence
//! suspended for an explicit definition (`3 : 0`) takes lines as its body
//! until a line of just `)`.

use vstd::prelude::*;

use crate::error::JError;
use crate::text::{chars_of, string_of};

verus! {

/// The lines waiting to be evaluated: a suspended sentence (its parser state
/// and the body gathered for it so far), and the lines of an unfinished
/// definition.
pub struct InputBuffers<S> {
    suspension: Option<(S, Vec<char>)>,
    other: Vec<char>,
}

/// [`InputBuffers`] read mathematically.
pub struct InputBuffersV<S> {
    pub suspension: Option<(S, Seq<char>)>,
    pub other: Seq<char>,
}

impl<S> View for InputBuffers<S> {
    type V = InputBuffersV<S>;

    closed spec fn view(&self) -> InputBuffersV<S> {
        InputBuffersV {
            suspension: match self.suspension {
                Some((s, d)) => Some((s, d@)),
                None => None,
            },
            other: self.other@,
        }
    }
}

/// What to do with a line fed to the interpreter.
pub enum Feed<S> {
    /// The line was taken as part of a suspended sentence's body.
    Suspension,
    /// The body is complete: resume the suspended sentence with it.
    Resume(S, String),
    /// Scan and evaluate this text: the unfinished definition's lines, then
    /// the new line.
    Evaluate(String),
}

fn push_all_chars(out: &mut Vec<char>, s: &str)
    ensures
        final(out)@ == old(out)@ + s@,
{
    let cs = chars_of(s);
    let ghost init = old(out)@;
    let mut i: usize = 0;
    while i < cs.len()
        invariant
            i <= cs@.len(),
            cs@ == s@,
            out@ == init + cs@.take(i as int),
        decreases cs@.len() - i,
    {
        out.push(cs[i]);
        i += 1;
        assert(out@ =~= init + cs@.take(i as int));
    }
    assert(cs@.take(cs@.len() as int) =~= cs@);
}

fn is_close(line: &str) -> (r: bool)
    ensures
        r == (line@ == seq![')']),
{
    let cs = chars_of(line);
    if cs.len() == 1 && cs[0] == ')' {
        assert(line@ =~= seq![')']);
        true
    } else {
        false
    }
}

impl<S> InputBuffers<S> {
    /// Nothing suspended and nothing waiting.
    pub fn new() -> (b: Self)
        ensures
            b@.suspension is None,
            b@.other == Seq::<char>::empty(),
    {
        InputBuffers { suspension: None, other: Vec::new() }
    }

    pub fn is_suspended(&self) -> (r: bool)
        ensures
            r == self@.suspension is Some,
    {
        self.suspension.is_some()
    }

    /// Suspends a sentence to gather a body for it; refused when one is
    /// suspended already.
    pub fn suspend(&mut self, qs: S) -> (r: Result<(), JError>)
        ensures
            old(self)@.suspension is None ==> r is Ok && final(self)@.suspension == Some((qs, Seq::<char>::empty())),
            old(self)@.suspension is Some ==> r is Err && final(self)@ == old(self)@,
            final(self)@.other == old(self)@.other,
    {
        if self.suspension.is_some() {
            return Err(JError::ControlError);
        }
        self.suspension = Some((qs, Vec::new()));
        Ok(())
    }

    /// Takes the suspended sentence and its body, leaving nothing suspended.
    pub fn take_suspension(&mut self) -> (r: Option<(S, String)>)
        ensures
            match old(self)@.suspension {
                Some((s, d)) => r matches Some((rs, rd)) && rs == s && rd@ == d,
                None => r is None,
            },
            final(self)@.suspension is None,
            final(self)@.other == old(self)@.other,
    {
        match self.suspension.take() {
            Some((s, d)) => Some((s, string_of(d.as_slice()))),
            None => None,
        }
    }

    /// Adds a line to the body of the suspended sentence; a domain error
    /// when nothing is suspended.
    pub fn input_push(&mut self, data: &str) -> (r: Result<(), JError>)
        ensures
            match old(self)@.suspension {
                Some((s, d)) => r is Ok && final(self)@.suspension == Some((s, d + data@ + seq!['\n'])),
                None => r == Err::<(), JError>(JError::DomainError) && final(self)@ == old(self)@,
            },
            final(self)@.other == old(self)@.other,
    {
        match self.suspension.take() {
            Some((s, d)) => {
                let mut d = d;
                push_all_chars(&mut d, data);
                d.push('\n');
                self.suspension = Some((s, d));
                Ok(())
            },
            None => Err(JError::DomainError),
        }
    }

    /// What to do with a line: while a sentence is suspended, each line is
    /// added to its body, and a line of just `)` resumes it; otherwise the
    /// line, after the waiting lines of an unfinished definition, is to be
    /// scanned and evaluated.
    pub fn feed(&mut self, line: &str) -> (r: Feed<S>)
        ensures
            match old(self)@.suspension {
                Some((s, d)) => if line@ == seq![')'] {
                    r matches Feed::Resume(rs, rd) && rs == s && rd@ == d && final(self)@.suspension is None
                } else {
                    r is Suspension && final(self)@.suspension == Some((s, d + line@ + seq!['\n']))
                },
                None => r matches Feed::Evaluate(t) && t@ == old(self)@.other + line@ && final(self)@ == old(self)@,
            },
            final(self)@.other == old(self)@.other,
    {
        if self.suspension.is_some() {
            if !is_close(line) {
                let _ = self.input_push(line);
                return Feed::Suspension;
            }
            match self.take_suspension() {
                Some((s, d)) => return Feed::Resume(s, d),
                None => {
                    assert(false);
                    return Feed::Suspension;
                },
            }
        }
        let mut text: Vec<char> = Vec::new();
        let mut i: usize = 0;
        while i < self.other.len()
            invariant
                i <= self.other@.len(),
                text@ == self.other@.take(i as int),
            decreases self.other@.len() - i,
        {
            text.push(self.other[i]);
            i += 1;
            assert(text@ =~= self.other@.take(i as int));
        }
        assert(self.other@.take(self.other@.len() as int) =~= self.other@);
        push_all_chars(&mut text, line);
        Feed::Evaluate(string_of(text.as_slice()))
    }

    /// Keeps a line of a definition whose control words are not all closed,
    /// to be scanned again with the lines that follow.
    pub fn defer(&mut self, line: &str)
        ensures
            final(self)@.other == old(self)@.other + line@ + seq!['\n'],
            final(self)@.suspension == old(self)@.suspension,
    {
        push_all_chars(&mut self.other, line);
        self.other.push('\n');
    }

    /// Forgets the waiting lines once they have been evaluated.
    pub fn clear_deferred(&mut self)
        ensures
            final(self)@.other == Seq::<char>::empty(),
            final(self)@.suspension == old(self)@.suspension,
    {
        self.other = Vec::new();
    }
}

} // verus!
