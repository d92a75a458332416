//! The state of one line under edit, and what each step of a command does
//! to it.

use vstd::prelude::*;
use crate::line::{
    landing_recalling, lemma_landing_within, lemma_landing_without_recall, run_motion_recalling,
};
use crate::op::{Motion, Op, OpView, SingleMotion};
use crate::parse::ops_view;
use crate::text::{copy_range, remove_range, splice, spliced, to_chars, without};

verus! {

/// A line under edit.
pub struct ExecutionState {
    /// The text of the line.
    pub line: Vec<char>,
    /// The index of the character that the cursor stands on.
    pub cursor: usize,
    /// What was last copied from the line.
    pub yank_register: Vec<char>,
    /// The motion that last sought a character.
    pub last_find_motion: Option<Motion>,
    /// The edit that was last carried out.
    pub last_edit_operation: Option<Op>,
}

/// What an [`ExecutionState`] is to a specification.
pub struct StateView {
    /// The text of the line.
    pub line: Seq<char>,
    /// The index of the character that the cursor stands on.
    pub cursor: int,
    /// What was last copied from the line.
    pub yank_register: Seq<char>,
    /// The motion that last sought a character.
    pub last_find_motion: Option<Motion>,
    /// The edit that was last carried out.
    pub last_edit_operation: Option<OpView>,
}

impl View for ExecutionState {
    type V = StateView;

    open spec fn view(&self) -> StateView {
        StateView {
            line: self.line@,
            cursor: self.cursor as int,
            yank_register: self.yank_register@,
            last_find_motion: self.last_find_motion,
            last_edit_operation: match self.last_edit_operation {
                Some(op) => Some(op@),
                None => None,
            },
        }
    }
}

/// The index nearest to `cursor` that stands on a line of `len`
/// characters; on an empty line that is 0.
pub open spec fn settled(cursor: int, len: int) -> int {
    if cursor < len {
        cursor
    } else if len > 0 {
        len - 1
    } else {
        0
    }
}

/// The motion that last sought a character once `m` has been carried out
/// after `last`.
pub open spec fn remembered(m: Motion, last: Option<Motion>) -> Option<Motion> {
    if m.mot.seeks() && m.repeat > 0 {
        Some(m)
    } else {
        last
    }
}

/// Whether a motion of this kind lands on a character that belongs to what
/// a removal or a copy by it takes: it does where the motion goes to a
/// character, in either direction, or forward to just before one.
pub open spec fn lands_within(mot: SingleMotion) -> bool {
    mot is Till || mot is Find || mot is BackFind
}

/// Whether the range that a removal or a copy by `m` takes is closed at
/// its upper end, when `last` is the motion that last sought a character:
/// it is for a motion that lands within, and for one that recalls such a
/// motion.
pub open spec fn inclusive(m: Motion, last: Option<Motion>) -> bool {
    match m.mot {
        SingleMotion::FindNext => match last {
            Some(found) => lands_within(found.mot),
            None => false,
        },
        _ => lands_within(m.mot),
    }
}

impl StateView {
    /// The cursor stands on a character of the line, or at 0 on an empty
    /// line.
    pub open spec fn valid(self) -> bool {
        0 <= self.cursor && (self.cursor < self.line.len() || self.cursor == 0)
    }

    /// The part of the line that a removal or a copy by `m` takes, as the
    /// index of its first character and the index behind its last; nothing
    /// where `m` does not move the cursor.
    pub open spec fn range(self, m: Motion) -> Option<(int, int)> {
        let at = landing_recalling(self.line, self.cursor, m, self.last_find_motion);
        if at == self.cursor {
            None
        } else {
            let lo = if at < self.cursor {
                at
            } else {
                self.cursor
            };
            let last = if at < self.cursor {
                self.cursor
            } else {
                at
            };
            let hi = if inclusive(m, self.last_find_motion) {
                last + 1
            } else {
                last
            };
            Some(
                (
                    lo,
                    if hi <= self.line.len() {
                        hi
                    } else {
                        self.line.len() as int
                    },
                ),
            )
        }
    }

    /// The state with another line and cursor.
    pub open spec fn with(self, line: Seq<char>, cursor: int) -> StateView {
        StateView { line, cursor: settled(cursor, line.len() as int), ..self }
    }

    /// After the motion `m`.
    pub open spec fn moved(self, m: Motion) -> StateView {
        StateView {
            cursor: settled(
                landing_recalling(self.line, self.cursor, m, self.last_find_motion),
                self.line.len() as int,
            ),
            last_find_motion: remembered(m, self.last_find_motion),
            ..self
        }
    }

    /// After `text` has been put in front of the cursor: the cursor stands
    /// on the last character of `text`.
    pub open spec fn inserted(self, text: Seq<char>) -> StateView {
        if text.len() > 0 {
            self.with(spliced(self.line, self.cursor, text), self.cursor + text.len() - 1)
        } else {
            self
        }
    }

    /// After `text` has been put behind the cursor: the cursor has gone
    /// forward by the length of `text`.
    pub open spec fn appended(self, text: Seq<char>) -> StateView {
        if text.len() > 0 {
            let at = if self.cursor + 1 <= self.line.len() {
                self.cursor + 1
            } else {
                self.line.len() as int
            };
            self.with(spliced(self.line, at, text), self.cursor + text.len())
        } else {
            self
        }
    }

    /// After `text` has been put at the end of the line: the cursor stands
    /// on the last character of the line.
    pub open spec fn line_appended(self, text: Seq<char>) -> StateView {
        if text.len() > 0 {
            self.with(self.line + text, self.line.len() + text.len() - 1)
        } else {
            self
        }
    }

    /// After the removal of what `m` takes: the cursor stands where that
    /// part began.
    pub open spec fn deleted(self, m: Motion) -> StateView {
        let memory = remembered(m, self.last_find_motion);
        match self.range(m) {
            Some((lo, hi)) => StateView {
                last_find_motion: memory,
                ..self.with(without(self.line, lo, hi), lo)
            },
            None => StateView { last_find_motion: memory, ..self },
        }
    }

    /// After the removal of everything from the cursor on.
    pub open spec fn cut(self) -> StateView {
        self.with(self.line.subrange(0, self.cursor), self.cursor)
    }

    /// After the copy of what `m` takes: the cursor stands where that part
    /// begins.
    pub open spec fn yanked(self, m: Motion) -> StateView {
        let memory = remembered(m, self.last_find_motion);
        match self.range(m) {
            Some((lo, hi)) => StateView {
                cursor: lo,
                yank_register: self.line.subrange(lo, hi),
                last_find_motion: memory,
                ..self
            },
            None => StateView { last_find_motion: memory, ..self },
        }
    }

    /// After what was last copied has been put behind the cursor.
    pub open spec fn put(self) -> StateView {
        self.appended(self.yank_register)
    }

    /// After the step `op` has been carried out, the memory of the last
    /// edit left as it was. Nothing is recalled here.
    pub open spec fn carried_out(self, op: OpView) -> StateView {
        match op {
            OpView::Motion(m) => self.moved(m),
            OpView::Insert { s } => self.inserted(s),
            OpView::Append { s } => self.appended(s),
            OpView::LineAppend { s } => self.line_appended(s),
            OpView::Delete { motion } => self.deleted(motion),
            OpView::DeleteToEnd => self.cut(),
            OpView::Yank { motion } => self.yanked(motion),
            OpView::Put => self.put(),
            OpView::Repeat => self,
        }
    }

    /// After the step `op`: an edit is carried out and remembered; a
    /// motion is carried out; recalling carries out the edit that is
    /// remembered, if there is one.
    pub open spec fn applied(self, op: OpView) -> StateView {
        match op {
            OpView::Motion(m) => self.moved(m),
            OpView::Repeat => match self.last_edit_operation {
                Some(last) => self.carried_out(last),
                None => self,
            },
            _ => StateView { last_edit_operation: Some(op), ..self.carried_out(op) },
        }
    }
}

impl ExecutionState {
    /// The state in which work on `line` starts when nothing is remembered.
    pub fn new(line: Vec<char>) -> (state: ExecutionState)
        ensures
            state@ == (StateView {
                line: line@,
                cursor: 0,
                yank_register: Seq::empty(),
                last_find_motion: None,
                last_edit_operation: None,
            }),
            state@.valid(),
    {
        ExecutionState {
            line,
            cursor: 0,
            yank_register: Vec::new(),
            last_find_motion: None,
            last_edit_operation: None,
        }
    }

    /// Brings the cursor back onto the line.
    fn settle(&mut self)
        ensures
            final(self)@ == (StateView {
                cursor: settled(old(self).cursor as int, old(self).line@.len() as int),
                ..old(self)@
            }),
            final(self)@.valid(),
    {
        let n = self.line.len();
        if self.cursor >= n {
            self.cursor = if n > 0 {
                n - 1
            } else {
                0
            };
        }
    }

    /// Carries out the motion `m`.
    pub fn execute_motion(&mut self, m: Motion)
        requires
            old(self)@.valid(),
        ensures
            final(self)@ == old(self)@.moved(m),
            final(self)@.valid(),
    {
        self.cursor = run_motion_recalling(&self.line, self.cursor, m, self.last_find_motion);
        if m.mot.is_seeking() && m.repeat > 0 {
            self.last_find_motion = Some(m);
        }
        self.settle();
    }

    /// Whether the range that a removal or a copy by `m` takes is closed at
    /// its upper end. A motion that recalls another one can be asked only
    /// once there is one to recall.
    pub fn op_motion_is_inclusive(&self, m: Motion) -> (b: bool)
        requires
            !(m.mot is FindNext && self.last_find_motion is None),
        ensures
            b == inclusive(m, self.last_find_motion),
    {
        match m.mot {
            SingleMotion::FindNext => match self.last_find_motion {
                Some(found) => found.mot.is_landing_within(),
                None => vstd::pervasive::unreached(),
            },
            _ => m.mot.is_landing_within(),
        }
    }

    /// The part of the line that a removal or a copy by `m` takes, and the
    /// motion to remember from now on.
    fn take_range(&mut self, m: Motion) -> (r: Option<(usize, usize)>)
        requires
            old(self)@.valid(),
        ensures
            final(self)@ == (StateView {
                last_find_motion: remembered(m, old(self).last_find_motion),
                ..old(self)@
            }),
            match r {
                Some((lo, hi)) => old(self)@.range(m) == Some((lo as int, hi as int)) && lo < hi
                    <= old(self).line@.len(),
                None => old(self)@.range(m) is None,
            },
    {
        let start = self.cursor;
        let n = self.line.len();
        let at = run_motion_recalling(&self.line, start, m, self.last_find_motion);
        proof {
            lemma_landing_within(self.line@, start as int, m, self.last_find_motion);
        }
        if at == start {
            if m.mot.is_seeking() && m.repeat > 0 {
                self.last_find_motion = Some(m);
            }
            return None;
        }
        let closed = self.op_motion_is_inclusive(m);
        if m.mot.is_seeking() && m.repeat > 0 {
            self.last_find_motion = Some(m);
        }
        let (lo, last) = if at < start {
            (at, start)
        } else {
            (start, at)
        };
        let hi = if closed && last < n {
            last + 1
        } else {
            last
        };
        Some((lo, hi))
    }

    /// Puts `s` in front of the cursor.
    pub fn execute_insert(&mut self, s: &String)
        requires
            old(self)@.valid(),
        ensures
            final(self)@ == old(self)@.inserted(s@),
            final(self)@.valid(),
    {
        let text = to_chars(s.as_str());
        if text.len() > 0 {
            let line = splice(&self.line, self.cursor, &text);
            assert(line.len() == self.line@.len() + text@.len());
            self.cursor = self.cursor + (text.len() - 1);
            self.line = line;
            self.settle();
        }
    }

    /// Puts `text` behind the cursor.
    fn append_chars(&mut self, text: &Vec<char>)
        requires
            old(self)@.valid(),
        ensures
            final(self)@ == old(self)@.appended(text@),
            final(self)@.valid(),
    {
        if text.len() > 0 {
            let at = if self.cursor < self.line.len() {
                self.cursor + 1
            } else {
                self.line.len()
            };
            let line = splice(&self.line, at, text);
            assert(line.len() == self.line@.len() + text@.len());
            self.cursor = self.cursor + text.len();
            self.line = line;
            self.settle();
        }
    }

    /// Puts `s` behind the cursor.
    pub fn execute_append(&mut self, s: &String)
        requires
            old(self)@.valid(),
        ensures
            final(self)@ == old(self)@.appended(s@),
            final(self)@.valid(),
    {
        let text = to_chars(s.as_str());
        self.append_chars(&text);
    }

    /// Puts `s` at the end of the line.
    pub fn execute_line_append(&mut self, s: &String)
        requires
            old(self)@.valid(),
        ensures
            final(self)@ == old(self)@.line_appended(s@),
            final(self)@.valid(),
    {
        let text = to_chars(s.as_str());
        if text.len() > 0 {
            let line = splice(&self.line, self.line.len(), &text);
            assert(line@ =~= self.line@ + text@);
            self.cursor = line.len() - 1;
            self.line = line;
        }
    }

    /// Removes what lies between the cursor and where `m` takes it.
    pub fn execute_delete(&mut self, m: Motion)
        requires
            old(self)@.valid(),
        ensures
            final(self)@ == old(self)@.deleted(m),
            final(self)@.valid(),
    {
        match self.take_range(m) {
            Some((lo, hi)) => {
                let line = remove_range(&self.line, lo, hi);
                self.line = line;
                self.cursor = lo;
                self.settle();
            },
            None => {},
        }
    }

    /// Removes everything from the cursor on.
    pub fn execute_delete_to_end(&mut self)
        requires
            old(self)@.valid(),
        ensures
            final(self)@ == old(self)@.cut(),
            final(self)@.valid(),
    {
        let line = copy_range(&self.line, 0, self.cursor);
        self.line = line;
        self.settle();
    }

    /// Copies what lies between the cursor and where `m` takes it.
    pub fn execute_yank(&mut self, m: Motion)
        requires
            old(self)@.valid(),
        ensures
            final(self)@ == old(self)@.yanked(m),
            final(self)@.valid(),
    {
        match self.take_range(m) {
            Some((lo, hi)) => {
                self.yank_register = copy_range(&self.line, lo, hi);
                self.cursor = lo;
            },
            None => {},
        }
    }

    /// Puts what was last copied behind the cursor.
    pub fn execute_put(&mut self)
        requires
            old(self)@.valid(),
        ensures
            final(self)@ == old(self)@.put(),
            final(self)@.valid(),
    {
        let text = copy_range(&self.yank_register, 0, self.yank_register.len());
        assert(text@ =~= self.yank_register@);
        self.append_chars(&text);
    }

    /// Carries out the step `op` and leaves the memory of the last edit as
    /// it was. Recalling the last edit does nothing here.
    pub fn carry_out(&mut self, op: &Op)
        requires
            old(self)@.valid(),
        ensures
            final(self)@ == old(self)@.carried_out(op@),
            final(self)@.valid(),
    {
        match op {
            Op::Motion(m) => self.execute_motion(*m),
            Op::Insert { s } => self.execute_insert(s),
            Op::Append { s } => self.execute_append(s),
            Op::LineAppend { s } => self.execute_line_append(s),
            Op::Delete { motion } => self.execute_delete(*motion),
            Op::DeleteToEnd => self.execute_delete_to_end(),
            Op::Yank { motion } => self.execute_yank(*motion),
            Op::Put => self.execute_put(),
            Op::Repeat => {},
        }
    }

    /// Carries out once more the edit that was last carried out, if there
    /// is one.
    pub fn execute_repeat(&mut self)
        requires
            old(self)@.valid(),
        ensures
            final(self)@ == old(self)@.applied(OpView::Repeat),
            final(self)@.valid(),
    {
        let last = match &self.last_edit_operation {
            Some(op) => Some(op.clone()),
            None => None,
        };
        match last {
            Some(op) => self.carry_out(&op),
            None => {},
        }
    }

    /// Carries out the step `op`.
    pub fn apply(&mut self, op: &Op)
        requires
            old(self)@.valid(),
        ensures
            final(self)@ == old(self)@.applied(op@),
            final(self)@.valid(),
    {
        match op {
            Op::Motion(m) => self.execute_motion(*m),
            Op::Repeat => self.execute_repeat(),
            _ => {
                self.carry_out(op);
                self.last_edit_operation = Some(op.clone());
            },
        }
    }
}

impl StateView {
    /// The state in which work on `line` starts: the cursor at 0, nothing
    /// copied, and what the worker remembers of earlier lines kept.
    pub open spec fn begun(self, line: Seq<char>) -> StateView {
        StateView { line, cursor: 0, yank_register: Seq::empty(), ..self }
    }

    /// After all the steps of `ops`, one after the other.
    pub open spec fn run(self, ops: Seq<OpView>) -> StateView
        decreases ops.len(),
    {
        if ops.len() == 0 {
            self
        } else {
            self.run(ops.drop_last()).applied(ops.last())
        }
    }
}

/// Every step leaves the cursor on the line.
pub proof fn lemma_applied_valid(s: StateView, op: OpView)
    requires
        s.valid(),
    ensures
        s.applied(op).valid(),
{
    let last = s.last_find_motion;
    match op {
        OpView::Motion(m) => {
            crate::line::lemma_landing_within(s.line, s.cursor, m, last);
        },
        OpView::Delete { motion } => {
            crate::line::lemma_landing_within(s.line, s.cursor, motion, last);
        },
        OpView::Yank { motion } => {
            crate::line::lemma_landing_within(s.line, s.cursor, motion, last);
        },
        OpView::Repeat => {
            match s.last_edit_operation {
                Some(OpView::Motion(m)) => {
                    crate::line::lemma_landing_within(s.line, s.cursor, m, last);
                },
                Some(OpView::Delete { motion }) => {
                    crate::line::lemma_landing_within(s.line, s.cursor, motion, last);
                },
                Some(OpView::Yank { motion }) => {
                    crate::line::lemma_landing_within(s.line, s.cursor, motion, last);
                },
                _ => {},
            }
        },
        _ => {},
    }
}

/// A whole command leaves the cursor on the line.
pub proof fn lemma_run_valid(s: StateView, ops: Seq<OpView>)
    requires
        s.valid(),
    ensures
        s.run(ops).valid(),
    decreases ops.len(),
{
    if ops.len() > 0 {
        lemma_run_valid(s, ops.drop_last());
        lemma_applied_valid(s.run(ops.drop_last()), ops.last());
    }
}

impl ExecutionState {
    /// Starts work on `line`: the cursor at 0, nothing copied, and what is
    /// remembered of earlier lines kept.
    pub fn begin(&mut self, line: Vec<char>)
        ensures
            final(self)@ == old(self)@.begun(line@),
            final(self)@.valid(),
    {
        self.line = line;
        self.cursor = 0;
        self.yank_register = Vec::new();
    }

    /// Carries out all the steps of `ops`, one after the other.
    pub fn run(&mut self, ops: &Vec<Op>)
        requires
            old(self)@.valid(),
        ensures
            final(self)@ == old(self)@.run(ops_view(ops@)),
            final(self)@.valid(),
    {
        let ghost all = ops_view(ops@);
        let mut k: usize = 0;
        assert(all.take(0) =~= Seq::<OpView>::empty());
        while k < ops.len()
            invariant
                k <= ops.len(),
                all == ops_view(ops@),
                self@.valid(),
                self@ == old(self)@.run(all.take(k as int)),
            decreases ops.len() - k,
        {
            self.apply(&ops[k]);
            k += 1;
            assert(all.take(k as int).drop_last() =~= all.take(k - 1));
        }
        assert(all.take(k as int) =~= all);
    }
}

/// A motion to the left does nothing to a state whose cursor stands at
/// the start of the line, however often it is to be applied: neither the
/// cursor nor the line nor anything else changes.
pub proof fn lemma_left_at_start(s: StateView, repeat: u32)
    requires
        s.valid(),
        s.cursor == 0,
    ensures
        s.applied(OpView::Motion(Motion { mot: SingleMotion::Left, repeat })) == s,
{
}

/// A motion to the right does nothing to a state whose cursor stands on
/// the last character of the line, or on an empty line, however often it
/// is to be applied: neither the cursor nor the line nor anything else
/// changes.
pub proof fn lemma_right_at_end(s: StateView, repeat: u32)
    requires
        s.valid(),
        s.cursor + 1 >= s.line.len(),
    ensures
        s.applied(OpView::Motion(Motion { mot: SingleMotion::Right, repeat })) == s,
{
}

/// A removal and a copy by the same motion from the same state take the
/// same part of the line. Where the motion moves the cursor, that part is
/// not empty and lies within the line; the copy holds it, the removal
/// leaves the line without it, and putting the copy back where the removal
/// began gives the line as it was. Where the motion does not move the
/// cursor, neither of them changes the line, the cursor or what was
/// copied before.
pub proof fn lemma_delete_yank_same_range(s: StateView, m: Motion)
    requires
        s.valid(),
    ensures
        match s.range(m) {
            Some((lo, hi)) => {
                &&& 0 <= lo < hi <= s.line.len()
                &&& s.yanked(m).line == s.line
                &&& s.yanked(m).yank_register == s.line.subrange(lo, hi)
                &&& s.yanked(m).cursor == lo
                &&& s.deleted(m).line == without(s.line, lo, hi)
                &&& s.deleted(m).cursor == settled(lo, s.line.len() - (hi - lo))
                &&& s.deleted(m).yank_register == s.yank_register
                &&& spliced(s.deleted(m).line, lo, s.yanked(m).yank_register) == s.line
            },
            None => {
                &&& s.yanked(m).line == s.line
                &&& s.deleted(m).line == s.line
                &&& s.yanked(m).cursor == s.cursor
                &&& s.deleted(m).cursor == s.cursor
                &&& s.yanked(m).yank_register == s.yank_register
                &&& s.deleted(m).yank_register == s.yank_register
            },
        },
        s.yanked(m).last_find_motion == s.deleted(m).last_find_motion,
{
    lemma_landing_within(s.line, s.cursor, m, s.last_find_motion);
    match s.range(m) {
        Some((lo, hi)) => {
            assert(spliced(without(s.line, lo, hi), lo, s.line.subrange(lo, hi)) =~= s.line);
        },
        None => {},
    }
}

impl SingleMotion {
    /// Whether a motion of this kind lands on a character that belongs to
    /// what a removal or a copy by it takes.
    pub fn is_landing_within(self) -> (b: bool)
        ensures
            b == lands_within(self),
    {
        match self {
            SingleMotion::Till { c } => true,
            SingleMotion::Find { c } => true,
            SingleMotion::BackFind { c } => true,
            _ => false,
        }
    }
}

impl StateView {
    /// What is remembered can be recalled: the motion that is remembered
    /// sought a character, at least once, and the edit that is remembered
    /// is neither a motion nor itself a recall.
    pub open spec fn remembers_well(self) -> bool {
        &&& self.last_find_motion matches Some(m) ==> m.mot.seeks() && m.repeat > 0
        &&& self.last_edit_operation matches Some(e) ==> !(e is Motion) && !(e is Repeat)
    }

    /// Whether the two states hold the same line, cursor and copied text,
    /// whatever they remember.
    pub open spec fn same_text(self, other: StateView) -> bool {
        &&& self.line == other.line
        &&& self.cursor == other.cursor
        &&& self.yank_register == other.yank_register
    }
}

impl OpView {
    /// Whether the step recalls an earlier one: the last edit, or the
    /// motion that last sought a character.
    pub open spec fn recalls(self) -> bool {
        match self {
            OpView::Motion(m) => m.mot is FindNext,
            OpView::Delete { motion } => motion.mot is FindNext,
            OpView::Yank { motion } => motion.mot is FindNext,
            OpView::Repeat => true,
            _ => false,
        }
    }
}

/// Every step keeps what is remembered fit to be recalled.
pub proof fn lemma_applied_remembers_well(s: StateView, op: OpView)
    requires
        s.remembers_well(),
    ensures
        s.applied(op).remembers_well(),
{
}

/// A whole command keeps what is remembered fit to be recalled.
pub proof fn lemma_run_remembers_well(s: StateView, ops: Seq<OpView>)
    requires
        s.remembers_well(),
    ensures
        s.run(ops).remembers_well(),
    decreases ops.len(),
{
    if ops.len() > 0 {
        lemma_run_remembers_well(s, ops.drop_last());
        lemma_applied_remembers_well(s.run(ops.drop_last()), ops.last());
    }
}

/// A step that recalls nothing does the same to the text whatever is
/// remembered: from two states with the same line, cursor and copied text
/// it leads to two states with the same line, cursor and copied text.
pub proof fn lemma_applied_same_text(a: StateView, b: StateView, op: OpView)
    requires
        a.same_text(b),
        !op.recalls(),
    ensures
        a.applied(op).same_text(b.applied(op)),
{
    match op {
        OpView::Motion(m) => {
            lemma_landing_without_recall(a.line, a.cursor, m, a.last_find_motion);
            lemma_landing_without_recall(b.line, b.cursor, m, b.last_find_motion);
        },
        OpView::Delete { motion } => {
            lemma_landing_without_recall(a.line, a.cursor, motion, a.last_find_motion);
            lemma_landing_without_recall(b.line, b.cursor, motion, b.last_find_motion);
        },
        OpView::Yank { motion } => {
            lemma_landing_without_recall(a.line, a.cursor, motion, a.last_find_motion);
            lemma_landing_without_recall(b.line, b.cursor, motion, b.last_find_motion);
        },
        _ => {},
    }
}

/// A command that recalls nothing does the same to the text whatever is
/// remembered.
pub proof fn lemma_run_same_text(a: StateView, b: StateView, ops: Seq<OpView>)
    requires
        a.same_text(b),
        forall|k: int| 0 <= k < ops.len() ==> !(#[trigger] ops[k]).recalls(),
    ensures
        a.run(ops).same_text(b.run(ops)),
    decreases ops.len(),
{
    if ops.len() > 0 {
        lemma_run_same_text(a, b, ops.drop_last());
        lemma_applied_same_text(a.run(ops.drop_last()), b.run(ops.drop_last()), ops.last());
    }
}

} // verus!
