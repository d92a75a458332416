//! The command string as a stream of characters, and what can go wrong
//! while reading it.

use vstd::prelude::*;
use crate::text::{push_char, to_chars};

verus! {

/// Why a command could not be read.
#[derive(Copy, Clone, Debug, PartialEq, Eq, Structural)]
pub enum ParseErrorKind {
    /// A character that starts neither a motion nor an edit.
    UnknownOp,
    /// `d` without a motion behind it.
    ExpectedMotionAfterDelete,
    /// `y` without a motion behind it.
    ExpectedMotionAfterYank,
    /// The command ends where a character is still needed.
    UnexpectedEnd,
    /// A repeat count in front of a step that is beyond what can be carried out.
    QuantifierTooLarge,
}

/// A failure to read a command: what went wrong, and how many characters
/// had been read by then.
#[derive(Copy, Clone, Debug, PartialEq, Eq, Structural)]
pub struct ParseError {
    pub kind: ParseErrorKind,
    pub at: usize,
}

/// The line that points at position `at` of a command of `len` characters:
/// a caret at `at`, tildes under every other character.
pub open spec fn marker_line(at: nat, len: nat) -> Seq<char> {
    let after: nat = if at < len { (len - at - 1) as nat } else { 0 };
    Seq::new(at, |i: int| '~') + seq!['^'] + Seq::new(after, |i: int| '~')
}

impl ParseErrorKind {
    /// The words that describe the failure.
    pub open spec fn text(self) -> Seq<char> {
        match self {
            ParseErrorKind::UnknownOp => "unknown op"@,
            ParseErrorKind::ExpectedMotionAfterDelete => "expected motion after delete"@,
            ParseErrorKind::ExpectedMotionAfterYank => "expected motion after yank"@,
            ParseErrorKind::UnexpectedEnd => "unexpected end of command input"@,
            ParseErrorKind::QuantifierTooLarge => "quantifier too large"@,
        }
    }

    /// The words that describe the failure, as a string.
    pub fn message(&self) -> (s: String)
        ensures
            s@ == self.text(),
    {
        match self {
            ParseErrorKind::UnknownOp => String::from_str("unknown op"),
            ParseErrorKind::ExpectedMotionAfterDelete => String::from_str(
                "expected motion after delete",
            ),
            ParseErrorKind::ExpectedMotionAfterYank => String::from_str(
                "expected motion after yank",
            ),
            ParseErrorKind::UnexpectedEnd => String::from_str("unexpected end of command input"),
            ParseErrorKind::QuantifierTooLarge => String::from_str("quantifier too large"),
        }
    }
}

impl ParseError {
    /// The line to print under a command of `len` characters so that a
    /// caret stands under the character at which reading failed.
    pub fn marker(&self, len: usize) -> (s: String)
        ensures
            s@ == marker_line(self.at as nat, len as nat),
    {
        let mut s = String::new();
        let mut i: usize = 0;
        while i < self.at
            invariant
                i <= self.at,
                s@ == Seq::new(i as nat, |k: int| '~'),
            decreases self.at - i,
        {
            push_char(&mut s, '~');
            i += 1;
            assert(s@ =~= Seq::new(i as nat, |k: int| '~'));
        }
        push_char(&mut s, '^');
        let after: usize = if self.at < len { len - self.at - 1 } else { 0 };
        let ghost head = s@;
        let mut j: usize = 0;
        while j < after
            invariant
                j <= after,
                s@ == head + Seq::new(j as nat, |k: int| '~'),
            decreases after - j,
        {
            push_char(&mut s, '~');
            j += 1;
            assert(s@ =~= head + Seq::new(j as nat, |k: int| '~'));
        }
        assert(head =~= Seq::new(self.at as nat, |k: int| '~') + seq!['^']);
        s
    }
}

/// A command that is being read from left to right.
pub struct Cmd {
    /// The whole command.
    pub orig: Vec<char>,
    /// How many of its characters have been read.
    pub consumed: usize,
}

impl Cmd {
    /// What is still to be read.
    pub open spec fn working(&self) -> Seq<char> {
        if self.consumed <= self.orig@.len() {
            self.orig@.skip(self.consumed as int)
        } else {
            Seq::empty()
        }
    }

    /// A reader at the start of `cmd`.
    pub fn new(cmd: &String) -> (c: Cmd)
        ensures
            c.orig@ == cmd@,
            c.consumed == 0,
    {
        Cmd { orig: to_chars(cmd.as_str()), consumed: 0 }
    }

    /// How many characters are still to be read.
    pub fn len(&self) -> (n: usize)
        ensures
            n == self.working().len(),
    {
        if self.consumed <= self.orig.len() {
            self.orig.len() - self.consumed
        } else {
            0
        }
    }

    /// The next character, which stays unread; at the end of the command
    /// the failure to report.
    pub fn first(&self) -> (r: Result<char, ParseError>)
        ensures
            match r {
                Ok(c) => self.working().len() > 0 && c == self.working()[0],
                Err(e) => self.working().len() == 0 && e == self.err(
                    ParseErrorKind::UnexpectedEnd,
                ),
            },
    {
        if self.consumed < self.orig.len() {
            Ok(self.orig[self.consumed])
        } else {
            Err(self.err(ParseErrorKind::UnexpectedEnd))
        }
    }

    /// Reads the next character; at the end of the command nothing is read
    /// and the failure to report comes back.
    pub fn consume(&mut self) -> (r: Result<char, ParseError>)
        ensures
            final(self).orig == old(self).orig,
            match r {
                Ok(c) => old(self).working().len() > 0 && c == old(self).working()[0]
                    && final(self).consumed == old(self).consumed + 1,
                Err(e) => old(self).working().len() == 0 && e == old(self).err(
                    ParseErrorKind::UnexpectedEnd,
                ) && final(self).consumed == old(self).consumed,
            },
    {
        if self.consumed < self.orig.len() {
            let c = self.orig[self.consumed];
            self.consumed += 1;
            Ok(c)
        } else {
            Err(self.err(ParseErrorKind::UnexpectedEnd))
        }
    }

    /// The failure of the given kind at the place that the reader has reached.
    #[verifier::when_used_as_spec(err_spec)]
    pub fn err(&self, kind: ParseErrorKind) -> (e: ParseError)
        ensures
            e == self.err_spec(kind),
    {
        ParseError { kind, at: self.consumed }
    }

    /// The failure of the given kind at the place that the reader has reached.
    pub open spec fn err_spec(&self, kind: ParseErrorKind) -> ParseError {
        ParseError { kind, at: self.consumed }
    }
}

} // verus!
