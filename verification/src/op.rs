//! The vocabulary of a command: cursor motions and edit operations.

use vstd::prelude::*;
use crate::text::{digits_of, push_char, push_decimal};

verus! {

/// One cursor movement within a line.
#[derive(Copy, Clone, Debug, PartialEq, Eq, Structural)]
pub enum SingleMotion {
    /// To the beginning of the line.
    Beg,
    /// To the last character of the line.
    End,
    /// One character to the left.
    Left,
    /// One character to the right.
    Right,
    /// Forward over the run of characters under the cursor and the
    /// whitespace that follows it.
    Word,
    /// Backward to the start of the word to the left of the cursor.
    Back,
    /// Forward to just before the next `c`.
    Till { c: char },
    /// Backward to just after the previous `c`.
    BackTill { c: char },
    /// Forward onto the next `c`.
    Find { c: char },
    /// Backward onto the previous `c`.
    BackFind { c: char },
    /// Once more the motion that last sought a character.
    FindNext,
}

/// A single motion applied `repeat` times in a row, all or nothing.
#[derive(Copy, Clone, Debug, PartialEq, Eq, Structural)]
pub struct Motion {
    pub mot: SingleMotion,
    pub repeat: u32,
}

/// One step of a command.
#[derive(Debug, PartialEq, Eq)]
pub enum Op {
    /// Move the cursor.
    Motion(Motion),
    /// Put `s` in front of the cursor.
    Insert { s: String },
    /// Put `s` behind the cursor.
    Append { s: String },
    /// Put `s` at the end of the line.
    LineAppend { s: String },
    /// Remove what lies between the cursor and where `motion` takes it.
    Delete { motion: Motion },
    /// Remove everything from the cursor on.
    DeleteToEnd,
    /// Copy what lies between the cursor and where `motion` takes it.
    Yank { motion: Motion },
    /// Put the copied text behind the cursor.
    Put,
    /// Once more the edit that was last carried out.
    Repeat,
}

/// What an [`Op`] is to a specification: the same step, its text as a
/// sequence of scalar values.
pub enum OpView {
    Motion(Motion),
    Insert { s: Seq<char> },
    Append { s: Seq<char> },
    LineAppend { s: Seq<char> },
    Delete { motion: Motion },
    DeleteToEnd,
    Yank { motion: Motion },
    Put,
    Repeat,
}

impl View for Op {
    type V = OpView;

    open spec fn view(&self) -> OpView {
        match *self {
            Op::Motion(m) => OpView::Motion(m),
            Op::Insert { s } => OpView::Insert { s: s@ },
            Op::Append { s } => OpView::Append { s: s@ },
            Op::LineAppend { s } => OpView::LineAppend { s: s@ },
            Op::Delete { motion } => OpView::Delete { motion },
            Op::DeleteToEnd => OpView::DeleteToEnd,
            Op::Yank { motion } => OpView::Yank { motion },
            Op::Put => OpView::Put,
            Op::Repeat => OpView::Repeat,
        }
    }
}

impl Clone for Op {
    fn clone(&self) -> (r: Self)
        ensures
            r == *self,
    {
        match self {
            Op::Motion(m) => Op::Motion(*m),
            Op::Insert { s } => Op::Insert { s: s.clone() },
            Op::Append { s } => Op::Append { s: s.clone() },
            Op::LineAppend { s } => Op::LineAppend { s: s.clone() },
            Op::Delete { motion } => Op::Delete { motion: *motion },
            Op::DeleteToEnd => Op::DeleteToEnd,
            Op::Yank { motion } => Op::Yank { motion: *motion },
            Op::Put => Op::Put,
            Op::Repeat => Op::Repeat,
        }
    }
}

impl SingleMotion {
    /// Whether the motion seeks a character of its own.
    pub open spec fn seeks(self) -> bool {
        self is Till || self is BackTill || self is Find || self is BackFind
    }

    /// Whether the motion seeks a character of its own.
    #[verifier::when_used_as_spec(seeks)]
    pub fn is_seeking(self) -> (b: bool)
        ensures
            b == self.seeks(),
    {
        match self {
            SingleMotion::Till { c } => true,
            SingleMotion::BackTill { c } => true,
            SingleMotion::Find { c } => true,
            SingleMotion::BackFind { c } => true,
            _ => false,
        }
    }

    /// The character that a seeking motion looks for.
    pub open spec fn target(self) -> char
        recommends
            self.seeks(),
    {
        match self {
            SingleMotion::Till { c } => c,
            SingleMotion::BackTill { c } => c,
            SingleMotion::Find { c } => c,
            SingleMotion::BackFind { c } => c,
            _ => ' ',
        }
    }
}

impl Op {
    /// Whether the step carries text of its own.
    pub open spec fn has_text(self) -> bool {
        self is Insert || self is Append || self is LineAppend
    }

    /// The motion of a step that only moves the cursor.
    pub fn get_motion(&self) -> (m: &Motion)
        requires
            self is Motion,
        ensures
            *m == self->Motion_0,
    {
        match self {
            Op::Motion(m) => m,
            _ => vstd::pervasive::unreached(),
        }
    }

    /// The text of an insertion.
    pub fn get_s(&self) -> (s: &String)
        requires
            self.has_text(),
        ensures
            self@ is Insert ==> s@ == self@->Insert_s,
            self@ is Append ==> s@ == self@->Append_s,
            self@ is LineAppend ==> s@ == self@->LineAppend_s,
    {
        match self {
            Op::Insert { s } => s,
            Op::Append { s } => s,
            Op::LineAppend { s } => s,
            _ => vstd::pervasive::unreached(),
        }
    }

    /// How many times the motion of a moving step is applied.
    pub fn get_repeat(&self) -> (n: u32)
        requires
            self is Motion,
        ensures
            n == self->Motion_0.repeat,
    {
        self.get_motion().repeat
    }

    /// The character that the motion of a moving step looks for.
    pub fn get_c(&self) -> (c: char)
        requires
            self is Motion,
            self->Motion_0.mot.seeks(),
        ensures
            c == self->Motion_0.mot.target(),
    {
        let m = self.get_motion();
        match m.mot {
            SingleMotion::Till { c } => c,
            SingleMotion::BackTill { c } => c,
            SingleMotion::Find { c } => c,
            SingleMotion::BackFind { c } => c,
            _ => ' ',
        }
    }
}

/// `before`, the character `c` and `after`, in a row.
fn around_char(before: &str, c: char, after: &str) -> (s: String)
    ensures
        s@ == before@ + seq![c] + after@,
{
    let mut s = String::from_str(before);
    push_char(&mut s, c);
    s.append(after);
    assert(s@ =~= before@ + seq![c] + after@);
    s
}

/// `before` and the number `n`, in a row.
fn before_count(before: &str, n: u32) -> (s: String)
    ensures
        s@ == before@ + digits_of(n as nat),
{
    let mut s = String::from_str(before);
    push_decimal(&mut s, n);
    s
}

/// `before` and the text `text`, in a row.
fn before_text(before: &str, text: &str) -> (s: String)
    ensures
        s@ == before@ + text@,
{
    let mut s = String::from_str(before);
    s.append(text);
    s
}

/// `before`, the number `n` and `after`, in a row.
fn around_count(before: &str, n: u32, after: &str) -> (s: String)
    ensures
        s@ == before@ + digits_of(n as nat) + after@,
{
    let mut s = String::from_str(before);
    push_decimal(&mut s, n);
    s.append(after);
    s
}

/// `before`, the number `n`, `between`, the character `c` and `after`, in
/// a row.
fn around_count_and_char(before: &str, n: u32, between: &str, c: char, after: &str) -> (s: String)
    ensures
        s@ == before@ + digits_of(n as nat) + between@ + seq![c] + after@,
{
    let mut s = around_count(before, n, between);
    push_char(&mut s, c);
    s.append(after);
    assert(s@ =~= before@ + digits_of(n as nat) + between@ + seq![c] + after@);
    s
}

/// `before`, the text `text` and `after`, in a row.
fn around_text(before: &str, text: &str, after: &str) -> (s: String)
    ensures
        s@ == before@ + text@ + after@,
{
    let mut s = String::from_str(before);
    s.append(text);
    s.append(after);
    s
}

impl SingleMotion {
    /// What the motion does when it is applied `repeat` times, in words.
    pub open spec fn explanation(self, repeat: u32) -> Seq<char> {
        let n = digits_of(repeat as nat);
        if repeat == 1 {
            match self {
                SingleMotion::Beg => "to beginning of line"@,
                SingleMotion::End => "to end of line"@,
                SingleMotion::Left => "left"@,
                SingleMotion::Right => "right"@,
                SingleMotion::Word => "forward word"@,
                SingleMotion::Back => "backward word"@,
                SingleMotion::Till { c } => "forward until character '"@ + seq![c] + "'"@,
                SingleMotion::BackTill { c } => "backward until character '"@ + seq![c] + "'"@,
                SingleMotion::Find { c } => "forward to character '"@ + seq![c] + "'"@,
                SingleMotion::BackFind { c } => "backward to character '"@ + seq![c] + "'"@,
                SingleMotion::FindNext => "to next occurance of target from previous 't/T' or 'f/F' command"@,
            }
        } else {
            match self {
                SingleMotion::Beg => "to beginning of line"@,
                SingleMotion::End => "to end of line"@,
                SingleMotion::Left => "left "@ + n,
                SingleMotion::Right => "right "@ + n,
                SingleMotion::Word => "forward "@ + n + " words"@,
                SingleMotion::Back => "backward "@ + n + " words"@,
                SingleMotion::Till { c } => "forward until "@ + n + " occurances of character '"@
                    + seq![c] + "'"@,
                SingleMotion::BackTill { c } => "backward until "@ + n
                    + " occurances of character '"@ + seq![c] + "'"@,
                SingleMotion::Find { c } => "forward to "@ + n + " occurances of character '"@
                    + seq![c] + "'"@,
                SingleMotion::BackFind { c } => "backward to "@ + n
                    + " occurances of character '"@ + seq![c] + "'"@,
                SingleMotion::FindNext => "to "@ + n
                    + " next occurances of target from previous 't' or 'f' command "@,
            }
        }
    }

    /// What the motion does when it is applied `repeat` times, in words.
    pub fn explain(&self, repeat: u32) -> (s: String)
        ensures
            s@ == self.explanation(repeat),
    {
        if repeat == 1 {
            match self {
                SingleMotion::Beg => String::from_str("to beginning of line"),
                SingleMotion::End => String::from_str("to end of line"),
                SingleMotion::Left => String::from_str("left"),
                SingleMotion::Right => String::from_str("right"),
                SingleMotion::Word => String::from_str("forward word"),
                SingleMotion::Back => String::from_str("backward word"),
                SingleMotion::Till { c } => around_char("forward until character '", *c, "'"),
                SingleMotion::BackTill { c } => around_char("backward until character '", *c, "'"),
                SingleMotion::Find { c } => around_char("forward to character '", *c, "'"),
                SingleMotion::BackFind { c } => around_char("backward to character '", *c, "'"),
                SingleMotion::FindNext => String::from_str(
                    "to next occurance of target from previous 't/T' or 'f/F' command",
                ),
            }
        } else {
            match self {
                SingleMotion::Beg => String::from_str("to beginning of line"),
                SingleMotion::End => String::from_str("to end of line"),
                SingleMotion::Left => before_count("left ", repeat),
                SingleMotion::Right => before_count("right ", repeat),
                SingleMotion::Word => around_count("forward ", repeat, " words"),
                SingleMotion::Back => around_count("backward ", repeat, " words"),
                SingleMotion::Till { c } => around_count_and_char(
                    "forward until ",
                    repeat,
                    " occurances of character '",
                    *c,
                    "'",
                ),
                SingleMotion::BackTill { c } => around_count_and_char(
                    "backward until ",
                    repeat,
                    " occurances of character '",
                    *c,
                    "'",
                ),
                SingleMotion::Find { c } => around_count_and_char(
                    "forward to ",
                    repeat,
                    " occurances of character '",
                    *c,
                    "'",
                ),
                SingleMotion::BackFind { c } => around_count_and_char(
                    "backward to ",
                    repeat,
                    " occurances of character '",
                    *c,
                    "'",
                ),
                SingleMotion::FindNext => around_count(
                    "to ",
                    repeat,
                    " next occurances of target from previous 't' or 'f' command ",
                ),
            }
        }
    }
}

impl Motion {
    /// What the motion does, in words.
    pub fn explain(&self) -> (s: String)
        ensures
            s@ == self.mot.explanation(self.repeat),
    {
        self.mot.explain(self.repeat)
    }
}

impl OpView {
    /// What the step does, in words: one line of an explanation.
    pub open spec fn explanation(self) -> Seq<char> {
        match self {
            OpView::Motion(m) => "- go "@ + m.mot.explanation(m.repeat),
            OpView::Insert { s } => "- insert '"@ + s + "' at the current cursor location"@,
            OpView::Append { s } => "- append '"@ + s + "' after the current cursor location"@,
            OpView::LineAppend { s } => "- append '"@ + s + "' at the end of the line"@,
            OpView::Delete { motion } => "- delete "@ + motion.mot.explanation(motion.repeat),
            OpView::DeleteToEnd => "- delete from current cursor position to the end of the line"@,
            OpView::Yank { motion } => "- yank "@ + motion.mot.explanation(motion.repeat),
            OpView::Put => "- put yanked text at the current cursor location"@,
            OpView::Repeat => "- repeat last non-motion action"@,
        }
    }
}

impl Op {
    /// What the step does, in words: one line of an explanation.
    pub fn explain(&self) -> (s: String)
        ensures
            s@ == self@.explanation(),
    {
        match self {
            Op::Motion(m) => before_text("- go ", m.explain().as_str()),
            Op::Insert { s } => around_text(
                "- insert '",
                s.as_str(),
                "' at the current cursor location",
            ),
            Op::Append { s } => around_text(
                "- append '",
                s.as_str(),
                "' after the current cursor location",
            ),
            Op::LineAppend { s } => around_text("- append '", s.as_str(), "' at the end of the line"),
            Op::Delete { motion } => before_text("- delete ", motion.explain().as_str()),
            Op::DeleteToEnd => String::from_str(
                "- delete from current cursor position to the end of the line",
            ),
            Op::Yank { motion } => before_text("- yank ", motion.explain().as_str()),
            Op::Put => String::from_str("- put yanked text at the current cursor location"),
            Op::Repeat => String::from_str("- repeat last non-motion action"),
        }
    }
}

} // verus!
