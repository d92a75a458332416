//! Where a motion takes the cursor on a line.
//!
//! A line is a sequence of scalar values and the cursor an index into it.
//! Every function here leaves the line as it is and says where the cursor
//! comes to stand; a motion that cannot be carried out leaves it where it
//! was.

use vstd::prelude::*;
use crate::op::{Motion, SingleMotion};
use crate::text::{find_from, first_from, last_before, rfind_before};

verus! {

/// What std's `char::is_alphanumeric` gives for `c`.
pub uninterp spec fn alphanumeric(c: char) -> bool;

/// What std's `char::is_whitespace` gives for `c`.
pub uninterp spec fn whitespace(c: char) -> bool;

/// `char::is_alphanumeric` of std: whether `c` is a letter or a number of
/// any script. The result depends on `c` alone.
#[verifier::external_body]
fn is_alphanumeric(c: char) -> (b: bool)
    ensures
        b == alphanumeric(c),
{
    c.is_alphanumeric()
}

/// `char::is_whitespace` of std: whether `c` is white space. The result
/// depends on `c` alone.
#[verifier::external_body]
fn is_whitespace(c: char) -> (b: bool)
    ensures
        b == whitespace(c),
{
    c.is_whitespace()
}

/// The three kinds of character that word motions tell apart.
#[derive(Copy, Clone, Debug, PartialEq, Eq, Structural)]
pub enum CharClass {
    /// A letter, a number or an underscore.
    Word,
    /// White space.
    Space,
    /// Anything else.
    Other,
}

/// The kind of `c`.
pub open spec fn class_of(c: char) -> CharClass {
    if alphanumeric(c) || c == '_' {
        CharClass::Word
    } else if whitespace(c) {
        CharClass::Space
    } else {
        CharClass::Other
    }
}

/// The kind of `c`.
pub fn classify(c: char) -> (k: CharClass)
    ensures
        k == class_of(c),
{
    if is_alphanumeric(c) || c == '_' {
        CharClass::Word
    } else if is_whitespace(c) {
        CharClass::Space
    } else {
        CharClass::Other
    }
}

/// Where the run of characters of kind `class` that starts at `i` ends:
/// the first index from `i` on that holds another kind, or the length.
pub open spec fn run_end(line: Seq<char>, class: CharClass, i: int) -> int
    decreases line.len() - i,
{
    if 0 <= i < line.len() && class_of(line[i]) == class {
        run_end(line, class, i + 1)
    } else {
        i
    }
}

/// Where the run of characters of kind `class` that ends just before `i`
/// starts.
pub open spec fn run_start(line: Seq<char>, class: CharClass, i: int) -> int
    decreases i,
{
    if 0 < i <= line.len() && class_of(line[i - 1]) == class {
        run_start(line, class, i - 1)
    } else {
        i
    }
}

/// Where the run of characters that belong to no word and that ends just
/// before `i` starts.
pub open spec fn gap_start(line: Seq<char>, i: int) -> int
    decreases i,
{
    if 0 < i <= line.len() && class_of(line[i - 1]) != CharClass::Word {
        gap_start(line, i - 1)
    } else {
        i
    }
}

/// Forward by a word: past the run of the kind of the character under the
/// cursor, then past the white space that follows.
pub open spec fn word_forward(line: Seq<char>, cur: int) -> int {
    if 0 <= cur < line.len() {
        run_end(line, CharClass::Space, run_end(line, class_of(line[cur]), cur))
    } else {
        cur
    }
}

/// Backward by a word, going by the character to the left of the cursor:
/// from within a word to its start; from white space past it and to the
/// start of the word before it; from anything else to the end of the
/// nearest word to the left.
pub open spec fn word_backward(line: Seq<char>, cur: int) -> int {
    if 0 < cur <= line.len() {
        match class_of(line[cur - 1]) {
            CharClass::Word => run_start(line, CharClass::Word, cur),
            CharClass::Space => run_start(
                line,
                CharClass::Word,
                run_start(line, CharClass::Space, cur),
            ),
            CharClass::Other => gap_start(line, cur),
        }
    } else {
        cur
    }
}

/// Forward to just before the next `c`. The search starts behind the
/// cursor, and one further on where `c` stands right behind the cursor.
pub open spec fn till(line: Seq<char>, cur: int, c: char) -> int {
    let from = if 0 <= cur + 1 < line.len() && line[cur + 1] == c {
        cur + 2
    } else {
        cur + 1
    };
    let at = first_from(line, c, from);
    if 0 <= cur && at < line.len() {
        at - 1
    } else {
        cur
    }
}

/// Backward to just behind the last `c` before the cursor.
pub open spec fn back_till(line: Seq<char>, cur: int, c: char) -> int {
    let at = last_before(line, c, cur);
    if at >= 0 {
        at + 1
    } else {
        cur
    }
}

/// Forward onto the next `c` behind the cursor.
pub open spec fn find(line: Seq<char>, cur: int, c: char) -> int {
    let at = first_from(line, c, cur + 1);
    if 0 <= cur && at < line.len() {
        at
    } else {
        cur
    }
}

/// Backward onto the last `c` before the cursor.
pub open spec fn back_find(line: Seq<char>, cur: int, c: char) -> int {
    let at = last_before(line, c, cur);
    if at >= 0 {
        at
    } else {
        cur
    }
}

/// Where one application of `mot` takes a cursor at `cur`. A motion that
/// recalls another one does not move here: see [`step_recalling`].
pub open spec fn step(line: Seq<char>, cur: int, mot: SingleMotion) -> int {
    match mot {
        SingleMotion::Beg => 0,
        SingleMotion::End => if line.len() > 0 {
            line.len() - 1
        } else {
            cur
        },
        SingleMotion::Left => if cur > 0 {
            cur - 1
        } else {
            cur
        },
        SingleMotion::Right => if cur + 1 < line.len() {
            cur + 1
        } else {
            cur
        },
        SingleMotion::Word => word_forward(line, cur),
        SingleMotion::Back => word_backward(line, cur),
        SingleMotion::Till { c } => till(line, cur, c),
        SingleMotion::BackTill { c } => back_till(line, cur, c),
        SingleMotion::Find { c } => find(line, cur, c),
        SingleMotion::BackFind { c } => back_find(line, cur, c),
        SingleMotion::FindNext => cur,
    }
}

/// Where `n` applications of `mot` in a row take a cursor at `cur`, if
/// every one of them moves it.
pub open spec fn repeated(line: Seq<char>, cur: int, mot: SingleMotion, n: nat) -> Option<int>
    decreases n,
{
    if n == 0 {
        Some(cur)
    } else {
        let next = step(line, cur, mot);
        if next == cur {
            None
        } else {
            repeated(line, next, mot, (n - 1) as nat)
        }
    }
}

/// Where the motion `m` takes a cursor at `cur`: all of its applications
/// or none.
pub open spec fn landing(line: Seq<char>, cur: int, m: Motion) -> int {
    match repeated(line, cur, m.mot, m.repeat as nat) {
        Some(at) => at,
        None => cur,
    }
}

/// Where one application of `mot` takes a cursor at `cur` when `last` is
/// the motion that last sought a character: recalling it carries out the
/// whole of `last`, and does nothing where there is none.
pub open spec fn step_recalling(
    line: Seq<char>,
    cur: int,
    mot: SingleMotion,
    last: Option<Motion>,
) -> int {
    match mot {
        SingleMotion::FindNext => match last {
            Some(m) => landing(line, cur, m),
            None => cur,
        },
        _ => step(line, cur, mot),
    }
}

/// Where `n` applications of `mot` in a row take a cursor at `cur`, if
/// every one of them moves it, when `last` is the motion that last sought
/// a character.
pub open spec fn repeated_recalling(
    line: Seq<char>,
    cur: int,
    mot: SingleMotion,
    last: Option<Motion>,
    n: nat,
) -> Option<int>
    decreases n,
{
    if n == 0 {
        Some(cur)
    } else {
        let next = step_recalling(line, cur, mot, last);
        if next == cur {
            None
        } else {
            repeated_recalling(line, next, mot, last, (n - 1) as nat)
        }
    }
}

/// Where the motion `m` takes a cursor at `cur` when `last` is the motion
/// that last sought a character: all of its applications or none.
pub open spec fn landing_recalling(
    line: Seq<char>,
    cur: int,
    m: Motion,
    last: Option<Motion>,
) -> int {
    match repeated_recalling(line, cur, m.mot, last, m.repeat as nat) {
        Some(at) => at,
        None => cur,
    }
}

/// A run that starts within the line ends within it, at or behind its start.
pub proof fn lemma_run_end(line: Seq<char>, class: CharClass, i: int)
    requires
        0 <= i <= line.len(),
    ensures
        i <= run_end(line, class, i) <= line.len(),
    decreases line.len() - i,
{
    if i < line.len() && class_of(line[i]) == class {
        lemma_run_end(line, class, i + 1);
    }
}

/// No application of a motion takes a cursor that stands within the line,
/// or at its end, out of that range.
pub proof fn lemma_step_within(line: Seq<char>, cur: int, mot: SingleMotion)
    requires
        0 <= cur <= line.len(),
    ensures
        0 <= step(line, cur, mot) <= line.len(),
{
    match mot {
        SingleMotion::Word => {
            if cur < line.len() {
                lemma_run_end(line, class_of(line[cur]), cur);
                lemma_run_end(line, CharClass::Space, run_end(line, class_of(line[cur]), cur));
            }
        },
        SingleMotion::Back => {
            if cur > 0 {
                lemma_run_start(line, CharClass::Word, cur);
                lemma_run_start(line, CharClass::Space, cur);
                lemma_run_start(line, CharClass::Word, run_start(line, CharClass::Space, cur));
                lemma_gap_start(line, cur);
            }
        },
        SingleMotion::Till { c } => {
            if cur + 1 < line.len() {
                crate::text::lemma_first_from(line, c, cur + 1);
                crate::text::lemma_first_from(line, c, cur + 2);
            }
        },
        SingleMotion::Find { c } => {
            if cur + 1 <= line.len() {
                crate::text::lemma_first_from(line, c, cur + 1);
            }
        },
        SingleMotion::BackTill { c } => {
            crate::text::lemma_last_before(line, c, cur);
        },
        SingleMotion::BackFind { c } => {
            crate::text::lemma_last_before(line, c, cur);
        },
        _ => {},
    }
}

/// A run that ends within the line starts within it, at or before its end.
pub proof fn lemma_run_start(line: Seq<char>, class: CharClass, i: int)
    requires
        0 <= i <= line.len(),
    ensures
        0 <= run_start(line, class, i) <= i,
    decreases i,
{
    if 0 < i && class_of(line[i - 1]) == class {
        lemma_run_start(line, class, i - 1);
    }
}

/// A gap that ends within the line starts within it, at or before its end.
pub proof fn lemma_gap_start(line: Seq<char>, i: int)
    requires
        0 <= i <= line.len(),
    ensures
        0 <= gap_start(line, i) <= i,
    decreases i,
{
    if 0 < i && class_of(line[i - 1]) != CharClass::Word {
        lemma_gap_start(line, i - 1);
    }
}

/// However often a motion is applied, a cursor that stands within the line,
/// or at its end, stays in that range.
pub proof fn lemma_repeated_within(line: Seq<char>, cur: int, mot: SingleMotion, n: nat)
    requires
        0 <= cur <= line.len(),
    ensures
        repeated(line, cur, mot, n) matches Some(at) ==> 0 <= at <= line.len(),
    decreases n,
{
    if n > 0 {
        lemma_step_within(line, cur, mot);
        if step(line, cur, mot) != cur {
            lemma_repeated_within(line, step(line, cur, mot), mot, (n - 1) as nat);
        }
    }
}

/// A whole motion keeps a cursor that stands within the line, or at its
/// end, in that range, whatever it recalls.
pub proof fn lemma_landing_within(line: Seq<char>, cur: int, m: Motion, last: Option<Motion>)
    requires
        0 <= cur <= line.len(),
    ensures
        0 <= landing(line, cur, m) <= line.len(),
        0 <= landing_recalling(line, cur, m, last) <= line.len(),
{
    lemma_repeated_within(line, cur, m.mot, m.repeat as nat);
    lemma_repeated_recalling_within(line, cur, m.mot, last, m.repeat as nat);
}

/// The same for a motion that may recall another one.
pub proof fn lemma_repeated_recalling_within(
    line: Seq<char>,
    cur: int,
    mot: SingleMotion,
    last: Option<Motion>,
    n: nat,
)
    requires
        0 <= cur <= line.len(),
    ensures
        repeated_recalling(line, cur, mot, last, n) matches Some(at) ==> 0 <= at <= line.len(),
    decreases n,
{
    if n > 0 {
        lemma_step_within(line, cur, mot);
        if last is Some {
            lemma_repeated_within(line, cur, last->Some_0.mot, last->Some_0.repeat as nat);
        }
        let next = step_recalling(line, cur, mot, last);
        if next != cur {
            lemma_repeated_recalling_within(line, next, mot, last, (n - 1) as nat);
        }
    }
}

/// Going right several times is all or nothing: from `cur` the motion
/// reaches `cur + repeat` where that is still on the line, and otherwise
/// leaves the cursor where it was.
pub proof fn lemma_right_all_or_nothing(line: Seq<char>, cur: int, repeat: u32)
    requires
        0 <= cur,
    ensures
        landing(line, cur, Motion { mot: SingleMotion::Right, repeat }) == if cur + repeat
            < line.len() {
            cur + repeat
        } else {
            cur
        },
{
    lemma_right_repeated(line, cur, repeat as nat);
}

/// Going right `n` times in a row moves the cursor every time exactly
/// where `cur + n` is still on the line.
proof fn lemma_right_repeated(line: Seq<char>, cur: int, n: nat)
    requires
        0 <= cur,
    ensures
        repeated(line, cur, SingleMotion::Right, n) == if n == 0 || cur + n < line.len() {
            Some(cur + n)
        } else {
            None::<int>
        },
    decreases n,
{
    if n > 0 && cur + 1 < line.len() {
        lemma_right_repeated(line, cur + 1, (n - 1) as nat);
    }
}

/// A motion that recalls nothing lands where it lands, whatever is
/// remembered.
pub proof fn lemma_landing_without_recall(
    line: Seq<char>,
    cur: int,
    m: Motion,
    last: Option<Motion>,
)
    requires
        !(m.mot is FindNext),
    ensures
        landing_recalling(line, cur, m, last) == landing(line, cur, m),
{
    lemma_repeated_without_recall(line, cur, m.mot, last, m.repeat as nat);
}

/// The same for any number of applications.
proof fn lemma_repeated_without_recall(
    line: Seq<char>,
    cur: int,
    mot: SingleMotion,
    last: Option<Motion>,
    n: nat,
)
    requires
        !(mot is FindNext),
    ensures
        repeated_recalling(line, cur, mot, last, n) == repeated(line, cur, mot, n),
    decreases n,
{
    if n > 0 && step(line, cur, mot) != cur {
        lemma_repeated_without_recall(line, step(line, cur, mot), mot, last, (n - 1) as nat);
    }
}

/// The end of the run of kind `class` that starts at `i`.
pub fn skip_run(line: &Vec<char>, class: CharClass, i: usize) -> (r: usize)
    ensures
        r == run_end(line@, class, i as int),
{
    let n = line.len();
    let mut k: usize = i;
    while k < n && classify(line[k]) == class
        invariant
            n == line@.len(),
            i <= k,
            run_end(line@, class, i as int) == run_end(line@, class, k as int),
        decreases n - k,
    {
        k += 1;
    }
    k
}

/// The start of the run of kind `class` that ends just before `i`.
pub fn back_over_run(line: &Vec<char>, class: CharClass, i: usize) -> (r: usize)
    ensures
        r == run_start(line@, class, i as int),
{
    let n = line.len();
    let mut k: usize = i;
    while 0 < k && k <= n && classify(line[k - 1]) == class
        invariant
            n == line@.len(),
            k <= i,
            run_start(line@, class, i as int) == run_start(line@, class, k as int),
        decreases k,
    {
        k -= 1;
    }
    k
}

/// The start of the run of characters outside any word that ends just
/// before `i`.
pub fn back_over_gap(line: &Vec<char>, i: usize) -> (r: usize)
    ensures
        r == gap_start(line@, i as int),
{
    let n = line.len();
    let mut k: usize = i;
    while 0 < k && k <= n && classify(line[k - 1]) != CharClass::Word
        invariant
            n == line@.len(),
            k <= i,
            gap_start(line@, i as int) == gap_start(line@, k as int),
        decreases k,
    {
        k -= 1;
    }
    k
}

/// Forward by a word.
pub fn word(line: &Vec<char>, cursor: usize) -> (r: usize)
    ensures
        r == word_forward(line@, cursor as int),
{
    if cursor < line.len() {
        let class = classify(line[cursor]);
        let past = skip_run(line, class, cursor);
        skip_run(line, CharClass::Space, past)
    } else {
        cursor
    }
}

/// Backward by a word.
pub fn back(line: &Vec<char>, cursor: usize) -> (r: usize)
    ensures
        r == word_backward(line@, cursor as int),
{
    if 0 < cursor && cursor <= line.len() {
        match classify(line[cursor - 1]) {
            CharClass::Word => back_over_run(line, CharClass::Word, cursor),
            CharClass::Space => {
                let past = back_over_run(line, CharClass::Space, cursor);
                back_over_run(line, CharClass::Word, past)
            },
            CharClass::Other => back_over_gap(line, cursor),
        }
    } else {
        cursor
    }
}

/// Forward to just before the next `c`.
pub fn seek_till(line: &Vec<char>, cursor: usize, c: char) -> (r: usize)
    ensures
        r == till(line@, cursor as int, c),
{
    let n = line.len();
    if cursor >= n || cursor + 1 >= n {
        return cursor;
    }
    let from = if line[cursor + 1] == c {
        cursor + 2
    } else {
        cursor + 1
    };
    let at = find_from(line, c, from);
    proof {
        crate::text::lemma_first_from(line@, c, from as int);
    }
    if at < n {
        at - 1
    } else {
        cursor
    }
}

/// Backward to just behind the last `c` before the cursor.
pub fn seek_back_till(line: &Vec<char>, cursor: usize, c: char) -> (r: usize)
    ensures
        r == back_till(line@, cursor as int, c),
{
    match rfind_before(line, c, cursor) {
        Some(at) => at + 1,
        None => cursor,
    }
}

/// Forward onto the next `c` behind the cursor.
pub fn seek_find(line: &Vec<char>, cursor: usize, c: char) -> (r: usize)
    ensures
        r == find(line@, cursor as int, c),
{
    let n = line.len();
    if cursor >= n {
        return cursor;
    }
    let at = find_from(line, c, cursor + 1);
    if at < n {
        at
    } else {
        cursor
    }
}

/// Backward onto the last `c` before the cursor.
pub fn seek_back_find(line: &Vec<char>, cursor: usize, c: char) -> (r: usize)
    ensures
        r == back_find(line@, cursor as int, c),
{
    match rfind_before(line, c, cursor) {
        Some(at) => at,
        None => cursor,
    }
}

/// One application of `mot` to a cursor at `cursor`.
pub fn apply_single(line: &Vec<char>, cursor: usize, mot: SingleMotion) -> (r: usize)
    ensures
        r == step(line@, cursor as int, mot),
{
    match mot {
        SingleMotion::Beg => 0,
        SingleMotion::End => if line.len() > 0 {
            line.len() - 1
        } else {
            cursor
        },
        SingleMotion::Left => if cursor > 0 {
            cursor - 1
        } else {
            cursor
        },
        SingleMotion::Right => if cursor < line.len() && cursor + 1 < line.len() {
            cursor + 1
        } else {
            cursor
        },
        SingleMotion::Word => word(line, cursor),
        SingleMotion::Back => back(line, cursor),
        SingleMotion::Till { c } => seek_till(line, cursor, c),
        SingleMotion::BackTill { c } => seek_back_till(line, cursor, c),
        SingleMotion::Find { c } => seek_find(line, cursor, c),
        SingleMotion::BackFind { c } => seek_back_find(line, cursor, c),
        SingleMotion::FindNext => cursor,
    }
}

/// The whole of `m` applied to a cursor at `cursor`, all or nothing.
pub fn run_motion(line: &Vec<char>, cursor: usize, m: Motion) -> (r: usize)
    ensures
        r == landing(line@, cursor as int, m),
{
    let mut cur: usize = cursor;
    let mut k: u32 = 0;
    while k < m.repeat
        invariant
            k <= m.repeat,
            repeated(line@, cursor as int, m.mot, m.repeat as nat) == repeated(
                line@,
                cur as int,
                m.mot,
                (m.repeat - k) as nat,
            ),
        decreases m.repeat - k,
    {
        let next = apply_single(line, cur, m.mot);
        if next == cur {
            return cursor;
        }
        cur = next;
        k += 1;
    }
    cur
}

/// The whole of `m` applied to a cursor at `cursor`, all or nothing, when
/// `last` is the motion that last sought a character.
pub fn run_motion_recalling(line: &Vec<char>, cursor: usize, m: Motion, last: Option<Motion>) -> (r:
    usize)
    ensures
        r == landing_recalling(line@, cursor as int, m, last),
{
    let mut cur: usize = cursor;
    let mut k: u32 = 0;
    while k < m.repeat
        invariant
            k <= m.repeat,
            repeated_recalling(line@, cursor as int, m.mot, last, m.repeat as nat)
                == repeated_recalling(line@, cur as int, m.mot, last, (m.repeat - k) as nat),
        decreases m.repeat - k,
    {
        let next = match m.mot {
            SingleMotion::FindNext => match last {
                Some(found) => run_motion(line, cur, found),
                None => cur,
            },
            _ => apply_single(line, cur, m.mot),
        };
        if next == cur {
            return cursor;
        }
        cur = next;
        k += 1;
    }
    cur
}

} // verus!
