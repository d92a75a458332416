//! Reading a command: from its characters to the steps it stands for.

use vstd::prelude::*;
use crate::cmd::{Cmd, ParseError, ParseErrorKind};
use crate::op::{Motion, Op, OpView, SingleMotion};
use crate::text::{digit_char, digits_of, first_from, lemma_first_from, push_char};

verus! {

/// The greatest count in front of a step that is carried out.
pub const MAX_QUANTIFIER: u32 = 2147483647;

/// The greatest count that a motion can hold.
pub const MAX_REPEAT: u32 = 4294967295;

/// What reading at one place of a command comes to.
pub enum Scan<T> {
    /// Something was read, and reading goes on at `next`.
    Found { value: T, next: int },
    /// Nothing of the kind stands here; the reader has come to `at`.
    Absent { at: int },
    /// The command is wrong; the reader has come to `at`.
    Bad { kind: ParseErrorKind, at: int },
}

/// What reading something that has to stand at one place of a command
/// comes to.
pub enum Read<T> {
    /// It was read, and reading goes on at `next`.
    Done { value: T, next: int },
    /// The command is wrong; the reader has come to `at`.
    Failed { kind: ParseErrorKind, at: int },
}

/// Whether `c` is one of the ten digits `0` to `9`.
pub open spec fn is_digit(c: char) -> bool {
    '0' <= c && c <= '9'
}

/// The number that the digit `c` writes.
pub open spec fn digit_value(c: char) -> nat
    recommends
        is_digit(c),
{
    (c as int - '0' as int) as nat
}

/// Where the run of digits that starts at `i` ends.
pub open spec fn digits_end(s: Seq<char>, i: int) -> int
    decreases s.len() - i,
{
    if 0 <= i < s.len() && is_digit(s[i]) {
        digits_end(s, i + 1)
    } else {
        i
    }
}

/// The number that a run of digits writes in base ten.
pub open spec fn decimal(digits: Seq<char>) -> nat
    decreases digits.len(),
{
    if digits.len() == 0 {
        0
    } else {
        10 * decimal(digits.drop_last()) + digit_value(digits.last())
    }
}

/// Where the quantifier that starts at `i` ends: a run of digits that does
/// not begin with `0`. Where none starts at `i`, this is `i` itself.
pub open spec fn quantifier_end(s: Seq<char>, i: int) -> int {
    if 0 <= i < s.len() && is_digit(s[i]) && s[i] != '0' {
        digits_end(s, i)
    } else {
        i
    }
}

/// The number that the digits from `i` up to `j` write.
pub open spec fn count_between(s: Seq<char>, i: int, j: int) -> nat {
    decimal(s.subrange(i, j))
}

/// The single motion that is written at `j`.
pub open spec fn single_motion(s: Seq<char>, j: int) -> Scan<SingleMotion> {
    if j < 0 || j >= s.len() {
        Scan::Absent { at: j }
    } else if s[j] == '0' {
        Scan::Found { value: SingleMotion::Beg, next: j + 1 }
    } else if s[j] == '$' {
        Scan::Found { value: SingleMotion::End, next: j + 1 }
    } else if s[j] == 'h' {
        Scan::Found { value: SingleMotion::Left, next: j + 1 }
    } else if s[j] == 'l' {
        Scan::Found { value: SingleMotion::Right, next: j + 1 }
    } else if s[j] == 'w' {
        Scan::Found { value: SingleMotion::Word, next: j + 1 }
    } else if s[j] == 'b' {
        Scan::Found { value: SingleMotion::Back, next: j + 1 }
    } else if s[j] == ';' {
        Scan::Found { value: SingleMotion::FindNext, next: j + 1 }
    } else if s[j] == 't' || s[j] == 'T' || s[j] == 'f' || s[j] == 'F' {
        if j + 1 < s.len() {
            let c = s[j + 1];
            let value = if s[j] == 't' {
                SingleMotion::Till { c }
            } else if s[j] == 'T' {
                SingleMotion::BackTill { c }
            } else if s[j] == 'f' {
                SingleMotion::Find { c }
            } else {
                SingleMotion::BackFind { c }
            };
            Scan::Found { value, next: j + 2 }
        } else {
            Scan::Bad { kind: ParseErrorKind::UnexpectedEnd, at: j + 1 }
        }
    } else {
        Scan::Absent { at: j }
    }
}

/// The motion that is written at `i`, with a count of its own in front of
/// it or without one. A count that no motion can hold counts as one.
pub open spec fn counted_motion(s: Seq<char>, i: int) -> Scan<Motion> {
    if i < 0 || i >= s.len() {
        Scan::Absent { at: i }
    } else {
        let j = quantifier_end(s, i);
        let n = count_between(s, i, j);
        let repeat: u32 = if j > i && n <= MAX_REPEAT {
            n as u32
        } else {
            1
        };
        if j >= s.len() {
            Scan::Bad { kind: ParseErrorKind::UnexpectedEnd, at: j }
        } else {
            match single_motion(s, j) {
                Scan::Found { value, next } => Scan::Found {
                    value: Motion { mot: value, repeat },
                    next,
                },
                Scan::Absent { at } => Scan::Absent { at },
                Scan::Bad { kind, at } => Scan::Bad { kind, at },
            }
        }
    }
}

/// The text that the insertion written at `j` carries: behind the letter at
/// `j` stands a delimiter, and the text runs up to where the delimiter
/// stands again.
pub open spec fn text_payload(s: Seq<char>, j: int) -> Read<Seq<char>> {
    if j < 0 || j + 1 >= s.len() {
        Read::Failed { kind: ParseErrorKind::UnexpectedEnd, at: s.len() as int }
    } else {
        let close = first_from(s, s[j + 1], j + 2);
        if close >= s.len() {
            Read::Failed { kind: ParseErrorKind::UnexpectedEnd, at: s.len() as int }
        } else {
            Read::Done { value: s.subrange(j + 2, close), next: close + 1 }
        }
    }
}

/// The edit that is written at `j`.
pub open spec fn edit(s: Seq<char>, j: int) -> Read<OpView> {
    if j < 0 || j >= s.len() {
        Read::Failed { kind: ParseErrorKind::UnexpectedEnd, at: j }
    } else if s[j] == 'i' || s[j] == 'a' || s[j] == 'A' {
        match text_payload(s, j) {
            Read::Done { value, next } => Read::Done {
                value: if s[j] == 'i' {
                    OpView::Insert { s: value }
                } else if s[j] == 'a' {
                    OpView::Append { s: value }
                } else {
                    OpView::LineAppend { s: value }
                },
                next,
            },
            Read::Failed { kind, at } => Read::Failed { kind, at },
        }
    } else if s[j] == 'd' || s[j] == 'y' {
        match counted_motion(s, j + 1) {
            Scan::Found { value, next } => Read::Done {
                value: if s[j] == 'd' {
                    OpView::Delete { motion: value }
                } else {
                    OpView::Yank { motion: value }
                },
                next,
            },
            Scan::Absent { at } => Read::Failed {
                kind: if s[j] == 'd' {
                    ParseErrorKind::ExpectedMotionAfterDelete
                } else {
                    ParseErrorKind::ExpectedMotionAfterYank
                },
                at,
            },
            Scan::Bad { kind, at } => Read::Failed { kind, at },
        }
    } else if s[j] == 'D' {
        Read::Done { value: OpView::DeleteToEnd, next: j + 1 }
    } else if s[j] == 'p' {
        Read::Done { value: OpView::Put, next: j + 1 }
    } else if s[j] == '.' {
        Read::Done { value: OpView::Repeat, next: j + 1 }
    } else {
        Read::Failed { kind: ParseErrorKind::UnknownOp, at: j }
    }
}

/// The steps that the unit written at `i` stands for: a motion holds the
/// count in front of it and stands once; an edit stands as many times as
/// the count in front of it says.
pub open spec fn unit(s: Seq<char>, i: int) -> Read<Seq<OpView>> {
    let j = quantifier_end(s, i);
    let n = count_between(s, i, j);
    if j > i && n > MAX_QUANTIFIER {
        Read::Failed { kind: ParseErrorKind::QuantifierTooLarge, at: j }
    } else {
        let count: nat = if j > i {
            n
        } else {
            1
        };
        match single_motion(s, j) {
            Scan::Found { value, next } => Read::Done {
                value: seq![OpView::Motion(Motion { mot: value, repeat: count as u32 })],
                next,
            },
            Scan::Absent { at } => match edit(s, j) {
                Read::Done { value, next } => Read::Done {
                    value: Seq::new(count, |k: int| value),
                    next,
                },
                Read::Failed { kind, at } => Read::Failed { kind, at },
            },
            Scan::Bad { kind, at } => Read::Failed { kind, at },
        }
    }
}

/// The run of digits from `i` ends at or after `i`, within the command, and
/// holds digits only.
pub proof fn lemma_digits_end(s: Seq<char>, i: int)
    requires
        0 <= i <= s.len(),
    ensures
        i <= digits_end(s, i) <= s.len(),
        forall|k: int| i <= k < digits_end(s, i) ==> is_digit(#[trigger] s[k]),
        digits_end(s, i) < s.len() ==> !is_digit(s[digits_end(s, i)]),
    decreases s.len() - i,
{
    if i < s.len() && is_digit(s[i]) {
        lemma_digits_end(s, i + 1);
    }
}

/// Whatever is read at a place within the command ends behind that place
/// and within the command.
pub proof fn lemma_unit_advances(s: Seq<char>, i: int)
    requires
        0 <= i < s.len(),
    ensures
        match unit(s, i) {
            Read::Done { value, next } => i < next <= s.len(),
            Read::Failed { kind, at } => i <= at <= s.len(),
        },
{
    lemma_digits_end(s, i);
    let j = quantifier_end(s, i);
    if j < s.len() {
        if j + 1 < s.len() {
            lemma_first_from(s, s[j + 1], j + 2);
            lemma_digits_end(s, j + 1);
        }
    }
}

/// What the command `s` stands for from `i` on: its steps in order, or the
/// first failure with the place that the reader had reached.
pub open spec fn parse_from(s: Seq<char>, i: int) -> Result<Seq<OpView>, (ParseErrorKind, int)>
    decreases s.len() - i,
{
    if i < 0 || i >= s.len() {
        Ok(Seq::empty())
    } else {
        match unit(s, i) {
            Read::Done { value, next } => {
                proof {
                    lemma_unit_advances(s, i);
                }
                match parse_from(s, next) {
                    Ok(rest) => Ok(value + rest),
                    Err(e) => Err(e),
                }
            },
            Read::Failed { kind, at } => Err((kind, at)),
        }
    }
}

/// A count as it was read in front of a step.
pub enum Quantifier {
    /// No count stands there.
    Missing,
    /// The count, which is within the limit.
    Count(u32),
    /// A count beyond the limit.
    TooLarge,
}

/// Whether a reader that was at `before` and is at `after` has read what
/// `scan` says and hands back `r` for it.
pub open spec fn reads<T>(
    before: Cmd,
    after: Cmd,
    r: Result<Option<T>, ParseError>,
    scan: Scan<T>,
) -> bool {
    &&& after.orig == before.orig
    &&& match scan {
        Scan::Found { value, next } => r == Ok::<Option<T>, ParseError>(Some(value))
            && after.consumed == next,
        Scan::Absent { at } => r == Ok::<Option<T>, ParseError>(None) && after.consumed == at,
        Scan::Bad { kind, at } => r == Err::<Option<T>, ParseError>(
            ParseError { kind, at: at as usize },
        ) && after.consumed == at,
    }
}

/// Appending a digit to a run of digits: ten times its number, plus the digit.
pub proof fn lemma_decimal_push(s: Seq<char>, i: int, j: int)
    requires
        0 <= i <= j < s.len(),
    ensures
        count_between(s, i, j + 1) == 10 * count_between(s, i, j) + digit_value(s[j]),
{
    assert(s.subrange(i, j + 1).drop_last() =~= s.subrange(i, j));
}

/// Reads the count that stands at the reader, if one does.
pub fn read_quantifier(cmd: &mut Cmd, limit: u32) -> (q: Quantifier)
    ensures
        final(cmd).orig == old(cmd).orig,
        final(cmd).consumed == quantifier_end(old(cmd).orig@, old(cmd).consumed as int),
        match q {
            Quantifier::Missing => final(cmd).consumed == old(cmd).consumed,
            Quantifier::Count(n) => final(cmd).consumed > old(cmd).consumed && n <= limit
                && n == count_between(
                old(cmd).orig@,
                old(cmd).consumed as int,
                final(cmd).consumed as int,
            ),
            Quantifier::TooLarge => final(cmd).consumed > old(cmd).consumed && count_between(
                old(cmd).orig@,
                old(cmd).consumed as int,
                final(cmd).consumed as int,
            ) > limit,
        },
{
    let ghost s = cmd.orig@;
    let ghost start = cmd.consumed as int;
    match cmd.first() {
        Ok(c) => {
            if !('1' <= c && c <= '9') {
                return Quantifier::Missing;
            }
        },
        Err(_) => {
            return Quantifier::Missing;
        },
    }
    let mut acc: u64 = 0;
    let mut over: bool = false;
    proof {
        lemma_digits_end(s, start);
        assert(s.subrange(start, start) =~= Seq::<char>::empty());
    }
    loop
        invariant
            cmd.orig@ == s,
            cmd.orig == old(cmd).orig,
            start == old(cmd).consumed,
            0 <= start < s.len(),
            is_digit(s[start]) && s[start] != '0',
            start <= cmd.consumed <= s.len(),
            digits_end(s, start) == digits_end(s, cmd.consumed as int),
            !over ==> acc == count_between(s, start, cmd.consumed as int) && acc <= limit,
            over ==> count_between(s, start, cmd.consumed as int) > limit,
        ensures
            cmd.consumed == digits_end(s, start),
            cmd.consumed > start,
        decreases s.len() - cmd.consumed,
    {
        match cmd.first() {
            Ok(c) => {
                if !('0' <= c && c <= '9') {
                    break ;
                }
                proof {
                    lemma_decimal_push(s, start, cmd.consumed as int);
                }
                let _ = cmd.consume();
                if !over {
                    let d: u64 = (c as u32 - '0' as u32) as u64;
                    acc = acc * 10 + d;
                    if acc > limit as u64 {
                        over = true;
                    }
                }
            },
            Err(_) => {
                break ;
            },
        }
    }
    if over {
        Quantifier::TooLarge
    } else {
        Quantifier::Count(acc as u32)
    }
}

/// Reads the single motion that stands at the reader, if one does.
pub fn parse_single(cmd: &mut Cmd) -> (r: Result<Option<SingleMotion>, ParseError>)
    ensures
        reads(*old(cmd), *final(cmd), r, single_motion(old(cmd).orig@, old(cmd).consumed as int)),
{
    let c = match cmd.first() {
        Ok(c) => c,
        Err(_) => {
            return Ok(None);
        },
    };
    if c == '0' || c == '$' || c == 'h' || c == 'l' || c == 'w' || c == 'b' || c == ';' {
        let _ = cmd.consume();
        let mot = if c == '0' {
            SingleMotion::Beg
        } else if c == '$' {
            SingleMotion::End
        } else if c == 'h' {
            SingleMotion::Left
        } else if c == 'l' {
            SingleMotion::Right
        } else if c == 'w' {
            SingleMotion::Word
        } else if c == 'b' {
            SingleMotion::Back
        } else {
            SingleMotion::FindNext
        };
        Ok(Some(mot))
    } else if c == 't' || c == 'T' || c == 'f' || c == 'F' {
        let _ = cmd.consume();
        match cmd.consume() {
            Ok(target) => {
                let mot = if c == 't' {
                    SingleMotion::Till { c: target }
                } else if c == 'T' {
                    SingleMotion::BackTill { c: target }
                } else if c == 'f' {
                    SingleMotion::Find { c: target }
                } else {
                    SingleMotion::BackFind { c: target }
                };
                Ok(Some(mot))
            },
            Err(e) => Err(e),
        }
    } else {
        Ok(None)
    }
}

/// Reads the motion that stands at the reader, with or without a count of
/// its own, if one does.
pub fn parse_motion(cmd: &mut Cmd) -> (r: Result<Option<Motion>, ParseError>)
    ensures
        reads(*old(cmd), *final(cmd), r, counted_motion(old(cmd).orig@, old(cmd).consumed as int)),
{
    if cmd.len() == 0 {
        return Ok(None);
    }
    let repeat: u32 = match read_quantifier(cmd, MAX_REPEAT) {
        Quantifier::Count(n) => n,
        _ => 1,
    };
    if cmd.len() == 0 {
        return Err(cmd.err(ParseErrorKind::UnexpectedEnd));
    }
    match parse_single(cmd) {
        Ok(Some(mot)) => Ok(Some(Motion { mot, repeat })),
        Ok(None) => Ok(None),
        Err(e) => Err(e),
    }
}

/// Reads the letter of an insertion, its delimiter and its text up to the
/// delimiter that closes it.
fn parse_text(cmd: &mut Cmd) -> (r: Result<String, ParseError>)
    requires
        old(cmd).working().len() > 0,
    ensures
        final(cmd).orig == old(cmd).orig,
        match text_payload(old(cmd).orig@, old(cmd).consumed as int) {
            Read::Done { value, next } => r is Ok && r->Ok_0@ == value && final(cmd).consumed
                == next,
            Read::Failed { kind, at } => r == Err::<String, ParseError>(
                ParseError { kind, at: at as usize },
            ) && final(cmd).consumed == at,
        },
{
    let ghost s = cmd.orig@;
    let ghost j = cmd.consumed as int;
    let _ = cmd.consume();
    let delim = match cmd.consume() {
        Ok(d) => d,
        Err(e) => {
            return Err(e);
        },
    };
    let mut text = String::new();
    loop
        invariant
            cmd.orig == old(cmd).orig,
            cmd.orig@ == s,
            j == old(cmd).consumed,
            0 <= j && j + 2 <= cmd.consumed <= s.len(),
            delim == s[j + 1],
            first_from(s, delim, j + 2) == first_from(s, delim, cmd.consumed as int),
            text@ == s.subrange(j + 2, cmd.consumed as int),
        decreases s.len() - cmd.consumed,
    {
        match cmd.consume() {
            Ok(c) => {
                if c == delim {
                    return Ok(text);
                }
                push_char(&mut text, c);
                assert(text@ =~= s.subrange(j + 2, cmd.consumed as int));
            },
            Err(e) => {
                return Err(e);
            },
        }
    }
}

/// The steps of `ops` as a specification sees them.
pub open spec fn ops_view(ops: Seq<Op>) -> Seq<OpView> {
    Seq::new(ops.len(), |k: int| ops[k]@)
}

/// The view of a sequence of steps with one more at its end is the view of
/// the sequence with the view of that step at its end.
pub proof fn lemma_ops_view_push(ops: Seq<Op>, op: Op)
    ensures
        ops_view(ops.push(op)) == ops_view(ops).push(op@),
{
    assert(ops_view(ops.push(op)) =~= ops_view(ops).push(op@));
}

/// Whether a reader that was at `before` and is at `after` has read the
/// edit that `read` says and hands back `r` for it.
pub open spec fn reads_op(before: Cmd, after: Cmd, r: Result<Op, ParseError>, read: Read<OpView>) -> bool {
    &&& after.orig == before.orig
    &&& match read {
        Read::Done { value, next } => r is Ok && r->Ok_0@ == value && after.consumed == next,
        Read::Failed { kind, at } => r == Err::<Op, ParseError>(ParseError { kind, at: at as usize })
            && after.consumed == at,
    }
}

/// Reads `i`, a delimiter, and the text to put in front of the cursor.
fn parse_insert(cmd: &mut Cmd) -> (r: Result<Op, ParseError>)
    requires
        old(cmd).working().len() > 0,
        old(cmd).working()[0] == 'i',
    ensures
        reads_op(*old(cmd), *final(cmd), r, edit(old(cmd).orig@, old(cmd).consumed as int)),
{
    match parse_text(cmd) {
        Ok(s) => Ok(Op::Insert { s }),
        Err(e) => Err(e),
    }
}

/// Reads `a`, a delimiter, and the text to put behind the cursor.
fn parse_append(cmd: &mut Cmd) -> (r: Result<Op, ParseError>)
    requires
        old(cmd).working().len() > 0,
        old(cmd).working()[0] == 'a',
    ensures
        reads_op(*old(cmd), *final(cmd), r, edit(old(cmd).orig@, old(cmd).consumed as int)),
{
    match parse_text(cmd) {
        Ok(s) => Ok(Op::Append { s }),
        Err(e) => Err(e),
    }
}

/// Reads `A`, a delimiter, and the text to put at the end of the line.
fn parse_line_append(cmd: &mut Cmd) -> (r: Result<Op, ParseError>)
    requires
        old(cmd).working().len() > 0,
        old(cmd).working()[0] == 'A',
    ensures
        reads_op(*old(cmd), *final(cmd), r, edit(old(cmd).orig@, old(cmd).consumed as int)),
{
    match parse_text(cmd) {
        Ok(s) => Ok(Op::LineAppend { s }),
        Err(e) => Err(e),
    }
}

/// Reads `d` and the motion that says what to remove.
fn parse_delete(cmd: &mut Cmd) -> (r: Result<Op, ParseError>)
    requires
        old(cmd).working().len() > 0,
        old(cmd).working()[0] == 'd',
    ensures
        reads_op(*old(cmd), *final(cmd), r, edit(old(cmd).orig@, old(cmd).consumed as int)),
{
    let _ = cmd.consume();
    match parse_motion(cmd) {
        Ok(Some(motion)) => Ok(Op::Delete { motion }),
        Ok(None) => Err(cmd.err(ParseErrorKind::ExpectedMotionAfterDelete)),
        Err(e) => Err(e),
    }
}

/// Reads `D`.
fn parse_delete_to_end(cmd: &mut Cmd) -> (r: Result<Op, ParseError>)
    requires
        old(cmd).working().len() > 0,
        old(cmd).working()[0] == 'D',
    ensures
        reads_op(*old(cmd), *final(cmd), r, edit(old(cmd).orig@, old(cmd).consumed as int)),
{
    let _ = cmd.consume();
    Ok(Op::DeleteToEnd)
}

/// Reads `y` and the motion that says what to copy.
fn parse_yank(cmd: &mut Cmd) -> (r: Result<Op, ParseError>)
    requires
        old(cmd).working().len() > 0,
        old(cmd).working()[0] == 'y',
    ensures
        reads_op(*old(cmd), *final(cmd), r, edit(old(cmd).orig@, old(cmd).consumed as int)),
{
    let _ = cmd.consume();
    match parse_motion(cmd) {
        Ok(Some(motion)) => Ok(Op::Yank { motion }),
        Ok(None) => Err(cmd.err(ParseErrorKind::ExpectedMotionAfterYank)),
        Err(e) => Err(e),
    }
}

/// Reads `p`.
fn parse_put(cmd: &mut Cmd) -> (r: Result<Op, ParseError>)
    requires
        old(cmd).working().len() > 0,
        old(cmd).working()[0] == 'p',
    ensures
        reads_op(*old(cmd), *final(cmd), r, edit(old(cmd).orig@, old(cmd).consumed as int)),
{
    let _ = cmd.consume();
    Ok(Op::Put)
}

/// Reads `.`.
fn parse_repeat(cmd: &mut Cmd) -> (r: Result<Op, ParseError>)
    requires
        old(cmd).working().len() > 0,
        old(cmd).working()[0] == '.',
    ensures
        reads_op(*old(cmd), *final(cmd), r, edit(old(cmd).orig@, old(cmd).consumed as int)),
{
    let _ = cmd.consume();
    Ok(Op::Repeat)
}

/// Reads the edit that stands at the reader.
pub fn parse_edit(cmd: &mut Cmd) -> (r: Result<Op, ParseError>)
    ensures
        reads_op(*old(cmd), *final(cmd), r, edit(old(cmd).orig@, old(cmd).consumed as int)),
{
    let c = match cmd.first() {
        Ok(c) => c,
        Err(e) => {
            return Err(e);
        },
    };
    if c == 'i' {
        parse_insert(cmd)
    } else if c == 'a' {
        parse_append(cmd)
    } else if c == 'A' {
        parse_line_append(cmd)
    } else if c == 'd' {
        parse_delete(cmd)
    } else if c == 'D' {
        parse_delete_to_end(cmd)
    } else if c == 'y' {
        parse_yank(cmd)
    } else if c == 'p' {
        parse_put(cmd)
    } else if c == '.' {
        parse_repeat(cmd)
    } else {
        Err(cmd.err(ParseErrorKind::UnknownOp))
    }
}

/// The steps `done` in front of what `rest` comes to.
pub open spec fn after(
    done: Seq<OpView>,
    rest: Result<Seq<OpView>, (ParseErrorKind, int)>,
) -> Result<Seq<OpView>, (ParseErrorKind, int)> {
    match rest {
        Ok(ops) => Ok(done + ops),
        Err(e) => Err(e),
    }
}

/// Whether `r` is what `parsed` says, the steps taken by their views.
pub open spec fn parsed_as(
    r: Result<Vec<Op>, ParseError>,
    parsed: Result<Seq<OpView>, (ParseErrorKind, int)>,
) -> bool {
    match parsed {
        Ok(ops) => r is Ok && ops_view(r->Ok_0@) == ops,
        Err(e) => r == Err::<Vec<Op>, ParseError>(ParseError { kind: e.0, at: e.1 as usize }),
    }
}

/// Reads the rest of the command: the steps that it stands for, in order,
/// or the first failure.
pub fn parse_command(cmd: &mut Cmd) -> (r: Result<Vec<Op>, ParseError>)
    ensures
        final(cmd).orig == old(cmd).orig,
        parsed_as(r, parse_from(old(cmd).orig@, old(cmd).consumed as int)),
        r is Ok ==> final(cmd).working().len() == 0,
        r is Err ==> final(cmd).consumed == r->Err_0.at,
{
    let ghost s = cmd.orig@;
    let ghost start = cmd.consumed as int;
    let mut ret: Vec<Op> = Vec::new();
    assert(ops_view(ret@) + parse_from(s, start)->Ok_0 =~= parse_from(s, start)->Ok_0);
    while cmd.len() > 0
        invariant
            cmd.orig == old(cmd).orig,
            cmd.orig@ == s,
            start == old(cmd).consumed,
            start <= cmd.consumed,
            parse_from(s, start) == after(ops_view(ret@), parse_from(s, cmd.consumed as int)),
        decreases s.len() - cmd.consumed,
    {
        let ghost i = cmd.consumed as int;
        let ghost done = ops_view(ret@);
        proof {
            lemma_unit_advances(s, i);
        }
        let count: u32 = match read_quantifier(cmd, MAX_QUANTIFIER) {
            Quantifier::Missing => 1,
            Quantifier::Count(n) => n,
            Quantifier::TooLarge => {
                return Err(cmd.err(ParseErrorKind::QuantifierTooLarge));
            },
        };
        match parse_single(cmd) {
            Err(e) => {
                return Err(e);
            },
            Ok(Some(mot)) => {
                let ghost before = ret@;
                let op = Op::Motion(Motion { mot, repeat: count });
                ret.push(op);
                proof {
                    let value = unit(s, i)->Done_value;
                    lemma_ops_view_push(before, op);
                    assert(ops_view(ret@) =~= done + value);
                    let rest = parse_from(s, cmd.consumed as int);
                    if rest is Ok {
                        assert(done + (value + rest->Ok_0) =~= (done + value) + rest->Ok_0);
                    }
                }
            },
            Ok(None) => {
                match parse_edit(cmd) {
                    Err(e) => {
                        return Err(e);
                    },
                    Ok(op) => {
                        let mut k: u32 = 0;
                        while k < count
                            invariant
                                k <= count,
                                ops_view(ret@) == done + Seq::new(k as nat, |n: int| op@),
                            decreases count - k,
                        {
                            let ghost before = ret@;
                            let copy = op.clone();
                            assert(copy == op);
                            ret.push(copy);
                            k += 1;
                            proof {
                                lemma_ops_view_push(before, copy);
                                assert((done + Seq::new((k - 1) as nat, |n: int| op@)).push(op@)
                                    =~= done + Seq::new(k as nat, |n: int| op@));
                            }
                        }
                        proof {
                            let value = unit(s, i)->Done_value;
                            assert(ops_view(ret@) =~= done + value);
                            let rest = parse_from(s, cmd.consumed as int);
                            if rest is Ok {
                                assert(done + (value + rest->Ok_0) =~= (done + value)
                                    + rest->Ok_0);
                            }
                        }
                    },
                }
            },
        }
    }
    assert(ops_view(ret@) + Seq::<OpView>::empty() =~= ops_view(ret@));
    Ok(ret)
}

/// The steps that `command` stands for, in order, or the first failure
/// with the number of characters that had been read by then.
pub fn parse(command: &str) -> (r: Result<Vec<Op>, ParseError>)
    ensures
        parsed_as(r, parse_from(command@, 0)),
{
    let mut cmd = Cmd { orig: crate::text::to_chars(command), consumed: 0 };
    parse_command(&mut cmd)
}

/// The edit that a single letter writes.
pub open spec fn letter_edit(x: char) -> OpView
    recommends
        x == 'D' || x == 'p' || x == '.',
{
    if x == 'D' {
        OpView::DeleteToEnd
    } else if x == 'p' {
        OpView::Put
    } else {
        OpView::Repeat
    }
}

/// A count in front of an edit of a single letter stands for exactly that
/// many copies of the edit: the command made of the digits of `n` and the
/// letter is read as `n` equal steps.
pub proof fn lemma_quantifier_expands(digits: Seq<char>, x: char)
    requires
        digits.len() > 0,
        forall|k: int| 0 <= k < digits.len() ==> is_digit(#[trigger] digits[k]),
        digits[0] != '0',
        decimal(digits) <= MAX_QUANTIFIER,
        x == 'D' || x == 'p' || x == '.',
    ensures
        parse_from(digits.push(x), 0) == Ok::<Seq<OpView>, (ParseErrorKind, int)>(
            Seq::new(decimal(digits), |k: int| letter_edit(x)),
        ),
{
    let s = digits.push(x);
    let n = digits.len() as int;
    lemma_digits_end(s, 0);
    let e = digits_end(s, 0);
    if e < n {
        assert(is_digit(digits[e]));
        assert(s[e] == digits[e]);
    }
    if e > n {
        assert(is_digit(s[n]));
    }
    assert(e == n);
    assert(s[0] == digits[0]);
    assert(quantifier_end(s, 0) == n);
    assert(s.subrange(0, n) =~= digits);
    assert(unit(s, 0) == Read::Done {
        value: Seq::new(decimal(digits), |k: int| letter_edit(x)),
        next: n + 1,
    });
    assert(parse_from(s, n + 1) == Ok::<Seq<OpView>, (ParseErrorKind, int)>(Seq::empty()));
    assert(Seq::new(decimal(digits), |k: int| letter_edit(x)) + Seq::<OpView>::empty() =~= Seq::new(
        decimal(digits),
        |k: int| letter_edit(x),
    ));
}

/// The digits that write a number are digits, begin with no zero unless
/// the number is zero, and write that number.
pub proof fn lemma_digits_write(n: nat)
    ensures
        digits_of(n).len() > 0,
        forall|k: int| 0 <= k < digits_of(n).len() ==> is_digit(#[trigger] digits_of(n)[k]),
        n > 0 ==> digits_of(n)[0] != '0',
        decimal(digits_of(n)) == n,
    decreases n,
{
    let d = digits_of(n);
    if n < 10 {
        assert(d.drop_last() =~= Seq::<char>::empty());
        assert(decimal(d.drop_last()) == 0);
        assert(digit_value(digit_char(n)) == n);
    } else {
        lemma_digits_write(n / 10);
        assert(d.drop_last() =~= digits_of(n / 10));
        assert(digit_value(digit_char(n % 10)) == n % 10);
        assert(d[0] == digits_of(n / 10)[0]);
    }
}

/// A number in front of an edit of a single letter stands for that many
/// copies of the edit: the command made of the number `n`, written in base
/// ten, and the letter is read as `n` equal steps.
pub proof fn lemma_count_expands(n: nat, x: char)
    requires
        1 <= n <= MAX_QUANTIFIER,
        x == 'D' || x == 'p' || x == '.',
    ensures
        parse_from(digits_of(n).push(x), 0) == Ok::<Seq<OpView>, (ParseErrorKind, int)>(
            Seq::new(n, |k: int| letter_edit(x)),
        ),
{
    lemma_digits_write(n);
    lemma_quantifier_expands(digits_of(n), x);
}

/// A run of digits that does not begin with `0` writes a number that is
/// not zero.
pub proof fn lemma_decimal_positive(digits: Seq<char>)
    requires
        digits.len() > 0,
        forall|k: int| 0 <= k < digits.len() ==> is_digit(#[trigger] digits[k]),
        digits[0] != '0',
    ensures
        decimal(digits) >= 1,
    decreases digits.len(),
{
    if digits.len() > 1 {
        assert(digits.drop_last()[0] == digits[0]);
        lemma_decimal_positive(digits.drop_last());
    } else {
        assert(digits.drop_last() =~= Seq::<char>::empty());
    }
}

/// Whether the motion that the step holds, if it holds one, is applied at
/// least once.
pub open spec fn moves_at_least_once(op: OpView) -> bool {
    match op {
        OpView::Motion(m) => m.repeat >= 1,
        OpView::Delete { motion } => motion.repeat >= 1,
        OpView::Yank { motion } => motion.repeat >= 1,
        _ => true,
    }
}

/// The count that is read in front of a motion is never zero.
proof fn lemma_count_positive(s: Seq<char>, i: int)
    requires
        0 <= i < s.len(),
        quantifier_end(s, i) > i,
    ensures
        count_between(s, i, quantifier_end(s, i)) >= 1,
{
    lemma_digits_end(s, i);
    let j = quantifier_end(s, i);
    let digits = s.subrange(i, j);
    assert forall|k: int| 0 <= k < digits.len() implies is_digit(#[trigger] digits[k]) by {
        assert(digits[k] == s[i + k]);
    }
    assert(digits[0] == s[i]);
    lemma_decimal_positive(digits);
}

/// No command is read as a step whose motion is applied zero times: every
/// motion that comes out of reading a command has a repeat of at least one.
pub proof fn lemma_parsed_motions_move(s: Seq<char>, i: int)
    requires
        0 <= i,
    ensures
        parse_from(s, i) matches Ok(ops) ==> forall|k: int|
            0 <= k < ops.len() ==> moves_at_least_once(#[trigger] ops[k]),
    decreases s.len() - i,
{
    if i < s.len() {
        lemma_unit_advances(s, i);
        match unit(s, i) {
            Read::Done { value, next } => {
                lemma_parsed_motions_move(s, next);
                let j = quantifier_end(s, i);
                if j > i {
                    lemma_count_positive(s, i);
                }
                lemma_digits_end(s, i);
                if j + 1 < s.len() && quantifier_end(s, j + 1) > j + 1 {
                    lemma_count_positive(s, j + 1);
                }
                assert forall|k: int| 0 <= k < value.len() implies moves_at_least_once(
                    #[trigger] value[k],
                ) by {}
                if parse_from(s, next) is Ok {
                    let rest = parse_from(s, next)->Ok_0;
                    let ops = value + rest;
                    assert forall|k: int| 0 <= k < ops.len() implies moves_at_least_once(
                        #[trigger] ops[k],
                    ) by {
                        if k < value.len() {
                            assert(ops[k] == value[k]);
                        } else {
                            assert(ops[k] == rest[k - value.len()]);
                        }
                    }
                }
            },
            Read::Failed { kind, at } => {},
        }
    }
}

} // verus!
