//! Running a command over many lines: the lines are cut into groups, every
//! group is worked through by a worker of its own, and what comes out
//! stands in the order in which the lines came in.

use vstd::prelude::*;
use rayon::iter::{IntoParallelRefMutIterator, ParallelIterator};
use crate::engine::{ExecutionState, StateView};
use crate::op::{Op, OpView};
use crate::parse::ops_view;
use crate::text::{from_chars, to_chars};

verus! {

/// The lines of `v` as sequences of scalar values.
pub open spec fn lines_view(v: Seq<String>) -> Seq<Seq<char>> {
    Seq::new(v.len(), |k: int| v[k]@)
}

/// The state of a worker that has not seen a line yet.
pub open spec fn fresh() -> StateView {
    StateView {
        line: Seq::empty(),
        cursor: 0,
        yank_register: Seq::empty(),
        last_find_motion: None,
        last_edit_operation: None,
    }
}

impl StateView {
    /// The state of a worker after it has worked through `lines`, one after
    /// the other, each from its start and with all of `ops`.
    pub open spec fn worked(self, lines: Seq<Seq<char>>, ops: Seq<OpView>) -> StateView
        decreases lines.len(),
    {
        if lines.len() == 0 {
            self
        } else {
            self.worked(lines.drop_last(), ops).begun(lines.last()).run(ops)
        }
    }

    /// What a worker makes of `lines`: each line as it stands once the
    /// worker has come through it.
    pub open spec fn results(self, lines: Seq<Seq<char>>, ops: Seq<OpView>) -> Seq<Seq<char>> {
        Seq::new(lines.len(), |k: int| self.worked(lines.take(k + 1), ops).line)
    }
}

/// One group of lines and the state in which they are worked through.
pub struct Worker {
    /// The place of the group among all groups.
    pub pos: usize,
    /// The lines of the group, in order.
    pub lines: Vec<String>,
    /// The line under edit, and what is remembered of earlier lines.
    pub state: ExecutionState,
}

impl Worker {
    /// A worker for the group `lines` at place `pos`, with nothing
    /// remembered.
    pub fn new(pos: usize, lines: Vec<String>) -> (w: Worker)
        ensures
            w.pos == pos,
            w.lines == lines,
            w.state@ == fresh(),
    {
        Worker { pos, lines, state: ExecutionState::new(Vec::new()) }
    }

    /// Whether `after` is this worker once it has worked through its lines
    /// with `ops`.
    pub open spec fn executed(self, after: Worker, ops: Seq<OpView>) -> bool {
        &&& after.pos == self.pos
        &&& lines_view(after.lines@) == self.state@.results(lines_view(self.lines@), ops)
        &&& after.state@ == self.state@.worked(lines_view(self.lines@), ops)
    }

    /// Works through the lines of the group in order: each starts with the
    /// cursor at 0 and nothing copied, has all of `ops` carried out on it,
    /// and is put back in its place.
    pub fn execute(&mut self, ops: &Vec<Op>)
        ensures
            old(self).executed(*final(self), ops_view(ops@)),
    {
        let ghost input = lines_view(self.lines@);
        let ghost start = self.state@;
        let ghost steps = ops_view(ops@);
        let n = self.lines.len();
        let mut out: Vec<String> = Vec::new();
        let mut i: usize = 0;
        assert(input.take(0) =~= Seq::<Seq<char>>::empty());
        while i < n
            invariant
                i <= n,
                n == self.lines@.len(),
                self.pos == old(self).pos,
                self.lines == old(self).lines,
                input == lines_view(self.lines@),
                steps == ops_view(ops@),
                self.state@ == start.worked(input.take(i as int), steps),
                out@.len() == i,
                forall|k: int|
                    0 <= k < i ==> (#[trigger] out@[k])@ == start.worked(
                        input.take(k + 1),
                        steps,
                    ).line,
            decreases n - i,
        {
            let line = to_chars(self.lines[i].as_str());
            self.state.begin(line);
            self.state.run(ops);
            out.push(from_chars(&self.state.line));
            proof {
                assert(input.take(i + 1).drop_last() =~= input.take(i as int));
                assert(input.take(i + 1).last() == input[i as int]);
            }
            i += 1;
        }
        self.lines = out;
        assert(input.take(n as int) =~= input);
        assert(lines_view(self.lines@) =~= start.results(input, steps));
    }
}

/// How many bytes `line` takes when written out.
pub open spec fn byte_len(line: Seq<char>) -> nat {
    vstd::utf8::encode_utf8(line).len()
}

/// Where a group ends that holds `size` bytes so far and could go on with
/// the line at `k`: it takes every further line that is smaller than a
/// page and still fits into the page.
pub open spec fn fill_end(lines: Seq<Seq<char>>, page: nat, k: int, size: nat) -> int
    decreases lines.len() - k,
{
    if 0 <= k < lines.len() && byte_len(lines[k]) < page && size + byte_len(lines[k]) <= page {
        fill_end(lines, page, k + 1, size + byte_len(lines[k]))
    } else {
        k
    }
}

/// Where the group that starts with the line at `i` ends: a line of a page
/// or more is a group by itself; other lines are taken together as long as
/// they fit into one page.
pub open spec fn group_end(lines: Seq<Seq<char>>, page: nat, i: int) -> int
    recommends
        0 <= i < lines.len(),
{
    if byte_len(lines[i]) >= page {
        i + 1
    } else {
        fill_end(lines, page, i + 1, byte_len(lines[i]))
    }
}

/// A group that goes on from `k` ends at or behind `k`, within the lines.
pub proof fn lemma_fill_end(lines: Seq<Seq<char>>, page: nat, k: int, size: nat)
    requires
        0 <= k <= lines.len(),
    ensures
        k <= fill_end(lines, page, k, size) <= lines.len(),
    decreases lines.len() - k,
{
    if k < lines.len() && byte_len(lines[k]) < page && size + byte_len(lines[k]) <= page {
        lemma_fill_end(lines, page, k + 1, size + byte_len(lines[k]));
    }
}

/// The groups into which the lines from `i` on are cut, in order.
pub open spec fn groups_from(lines: Seq<Seq<char>>, page: nat, i: int) -> Seq<Seq<Seq<char>>>
    decreases lines.len() - i,
{
    if i < 0 || i >= lines.len() {
        Seq::empty()
    } else {
        let end = group_end(lines, page, i);
        proof {
            lemma_fill_end(lines, page, i + 1, byte_len(lines[i]));
        }
        seq![lines.subrange(i, end)] + groups_from(lines, page, end)
    }
}

/// The groups into which `lines` are cut for a page of `page` bytes.
pub open spec fn groups(lines: Seq<Seq<char>>, page: nat) -> Seq<Seq<Seq<char>>> {
    groups_from(lines, page, 0)
}

/// What the command `ops` makes of `lines` when they are cut into groups
/// for a page of `page` bytes: every group is worked through by a worker
/// that remembers nothing at its start, and what the workers hand back is
/// put together in the order of the groups.
pub open spec fn transformed(lines: Seq<Seq<char>>, ops: Seq<OpView>, page: nat) -> Seq<
    Seq<char>,
> {
    groups(lines, page).map_values(|group: Seq<Seq<char>>| fresh().results(group, ops)).flatten()
}

/// Where the groups hand in their lines, one group at a time and in the
/// order of their places.
pub struct Outputer {
    /// The place of the group whose turn it is.
    pub allow: usize,
    /// The lines handed in so far.
    pub buf_wr: Vec<String>,
}

impl Outputer {
    /// An outputer that waits for the first group.
    pub fn new() -> (outputer: Outputer)
        ensures
            outputer.allow == 0,
            outputer.buf_wr@.len() == 0,
    {
        Outputer { allow: 0, buf_wr: Vec::new() }
    }

    /// The group at place `pos` offers its lines. They are taken, behind
    /// what is there, if and only if it is the turn of that group, and then
    /// the turn passes to the next group. Otherwise nothing changes, and
    /// the group has to offer them again later.
    pub fn offer(&mut self, pos: usize, lines: &Vec<String>) -> (taken: bool)
        requires
            pos < usize::MAX,
        ensures
            taken == (pos == old(self).allow),
            taken ==> final(self).allow == old(self).allow + 1 && lines_view(final(self).buf_wr@)
                == lines_view(old(self).buf_wr@) + lines_view(lines@),
            !taken ==> *final(self) == *old(self),
    {
        if self.allow != pos {
            return false;
        }
        let mut k: usize = 0;
        assert(lines_view(self.buf_wr@) =~= lines_view(old(self).buf_wr@) + lines_view(
            lines@,
        ).take(0));
        while k < lines.len()
            invariant
                k <= lines.len(),
                self.allow == old(self).allow,
                lines_view(self.buf_wr@) == lines_view(old(self).buf_wr@) + lines_view(
                    lines@,
                ).take(k as int),
            decreases lines.len() - k,
        {
            let ghost before = self.buf_wr@;
            self.buf_wr.push(lines[k].clone());
            k += 1;
            assert(lines_view(self.buf_wr@) =~= lines_view(old(self).buf_wr@) + lines_view(
                lines@,
            ).take(k as int)) by {
                assert(lines_view(before) == lines_view(old(self).buf_wr@) + lines_view(
                    lines@,
                ).take(k - 1));
                assert(lines_view(self.buf_wr@) =~= lines_view(before).push(lines@[k - 1]@));
            }
        }
        assert(lines_view(lines@).take(lines@.len() as int) =~= lines_view(lines@));
        self.allow += 1;
        true
    }
}

/// `page_size::get` of the crate page_size: the number of bytes in a page
/// of memory on the machine that runs the program. Nothing is claimed of
/// it.
#[verifier::external_body]
fn page_bytes() -> usize {
    page_size::get()
}

/// `par_iter_mut` and `for_each` of the crate rayon, on a vector: every
/// worker of the vector is handed to [`Worker::execute`] exactly once, on
/// some thread, and the call returns when all of them are done. The vector
/// keeps its length and every worker its place.
#[verifier::external_body]
fn execute_all(workers: &mut Vec<Worker>, ops: &Vec<Op>)
    ensures
        final(workers)@.len() == old(workers)@.len(),
        forall|g: int|
            0 <= g < old(workers)@.len() ==> (#[trigger] old(workers)@[g]).executed(
                final(workers)@[g],
                ops_view(ops@),
            ),
{
    workers.par_iter_mut().for_each(|worker| worker.execute(ops));
}

/// The groups of lines and their workers.
pub struct Manager {
    /// How many groups there are.
    pub count: usize,
    /// One worker for each group, in the order of the groups.
    pub workers: Vec<Worker>,
}

impl Manager {
    /// Every worker stands at its place and remembers nothing.
    pub open spec fn wf(&self) -> bool {
        &&& self.count == self.workers@.len()
        &&& forall|g: int|
            0 <= g < self.workers@.len() ==> (#[trigger] self.workers@[g]).pos == g
                && self.workers@[g].state@ == fresh()
    }

    /// The groups that the workers hold, in order.
    pub open spec fn pending(&self) -> Seq<Seq<Seq<char>>> {
        Seq::new(self.workers@.len(), |g: int| lines_view(self.workers@[g].lines@))
    }

    /// A manager without groups.
    pub fn new() -> (m: Manager)
        ensures
            m.wf(),
            m.count == 0,
            m.pending() == Seq::<Seq<Seq<char>>>::empty(),
    {
        let m = Manager { count: 0, workers: Vec::new() };
        assert(m.pending() =~= Seq::<Seq<Seq<char>>>::empty());
        m
    }

    /// Adds a worker for the group `lines` behind the others.
    pub fn add_worker(&mut self, lines: Vec<String>)
        requires
            old(self).wf(),
        ensures
            final(self).wf(),
            final(self).count == old(self).count + 1,
            final(self).pending() == old(self).pending().push(lines_view(lines@)),
    {
        let worker = Worker::new(self.workers.len(), lines);
        self.workers.push(worker);
        self.count = self.workers.len();
        assert(self.pending() =~= old(self).pending().push(lines_view(lines@)));
    }

    /// Cuts `lines` into groups for a page of `page` bytes and adds a
    /// worker for each group, in order.
    pub fn distribute(&mut self, lines: &Vec<String>, page: usize)
        requires
            old(self).wf(),
        ensures
            final(self).wf(),
            final(self).pending() == old(self).pending() + groups(
                lines_view(lines@),
                page as nat,
            ),
    {
        let ghost all = lines_view(lines@);
        let ghost done: Seq<Seq<Seq<char>>> = Seq::empty();
        let n = lines.len();
        let mut i: usize = 0;
        assert(self.pending() =~= old(self).pending() + done);
        assert(done + groups_from(all, page as nat, 0) =~= groups(all, page as nat));
        while i < n
            invariant
                i <= n,
                n == lines@.len(),
                all == lines_view(lines@),
                self.wf(),
                self.pending() == old(self).pending() + done,
                groups(all, page as nat) == done + groups_from(all, page as nat, i as int),
            decreases n - i,
        {
            let mut group: Vec<String> = Vec::new();
            let first = lines[i].as_str().as_bytes().len();
            group.push(lines[i].clone());
            let mut k: usize = i + 1;
            assert(lines_view(group@) =~= all.subrange(i as int, k as int));
            if first < page {
                let mut size: usize = first;
                let mut open: bool = true;
                while open && k < n
                    invariant
                        i < k <= n,
                        n == lines@.len(),
                        all == lines_view(lines@),
                        size <= page,
                        fill_end(all, page as nat, i + 1, byte_len(all[i as int])) == fill_end(
                            all,
                            page as nat,
                            k as int,
                            size as nat,
                        ),
                        !open ==> fill_end(all, page as nat, k as int, size as nat) == k,
                        lines_view(group@) == all.subrange(i as int, k as int),
                    decreases (if open { 1int } else { 0int }), n - k,
                {
                    let len = lines[k].as_str().as_bytes().len();
                    if len < page && len <= page - size {
                        size = size + len;
                        let ghost before = group@;
                        group.push(lines[k].clone());
                        k += 1;
                        assert(lines_view(group@) =~= lines_view(before).push(all[k - 1]));
                        assert(lines_view(group@) =~= all.subrange(i as int, k as int));
                    } else {
                        open = false;
                    }
                }
            }
            assert(k == group_end(all, page as nat, i as int));
            proof {
                let rest = groups_from(all, page as nat, k as int);
                assert(done + (seq![all.subrange(i as int, k as int)] + rest) =~= done.push(
                    all.subrange(i as int, k as int),
                ) + rest);
                assert((old(self).pending() + done).push(all.subrange(i as int, k as int))
                    =~= old(self).pending() + done.push(all.subrange(i as int, k as int)));
                done = done.push(all.subrange(i as int, k as int));
            }
            self.add_worker(group);
            i = k;
        }
        assert(done + Seq::<Seq<Seq<char>>>::empty() =~= done);
    }

    /// Lets every worker work through its group, all of them side by side,
    /// and hands back what they made of their lines, in the order of the
    /// groups.
    pub fn start(&mut self, ops: &Vec<Op>) -> (out: Vec<String>)
        requires
            old(self).wf(),
        ensures
            final(self).count == old(self).count,
            final(self).workers@.len() == old(self).workers@.len(),
            forall|g: int|
                0 <= g < old(self).workers@.len() ==> (#[trigger] old(self).workers@[g]).executed(
                    final(self).workers@[g],
                    ops_view(ops@),
                ),
            lines_view(out@) == old(self).pending().map_values(
                |group: Seq<Seq<char>>| fresh().results(group, ops_view(ops@)),
            ).flatten(),
    {
        let ghost steps = ops_view(ops@);
        execute_all(&mut self.workers, ops);
        let ghost made = old(self).pending().map_values(
            |group: Seq<Seq<char>>| fresh().results(group, steps),
        );
        let mut outputer = Outputer::new();
        let n = self.workers.len();
        let mut g: usize = 0;
        assert(lines_view(outputer.buf_wr@) =~= made.take(0).flatten());
        assert forall|j: int| 0 <= j < n implies (#[trigger] self.workers@[j]).pos == j
            && lines_view(self.workers@[j].lines@) == made[j] by {
            assert(old(self).workers@[j].executed(self.workers@[j], steps));
            assert(old(self).workers@[j].state@ == fresh());
            assert(old(self).pending()[j] == lines_view(old(self).workers@[j].lines@));
        }
        while g < n
            invariant
                g <= n,
                n == self.workers@.len(),
                n == made.len(),
                outputer.allow == g,
                forall|j: int|
                    0 <= j < n ==> (#[trigger] self.workers@[j]).pos == j && lines_view(
                        self.workers@[j].lines@,
                    ) == made[j],
                lines_view(outputer.buf_wr@) == made.take(g as int).flatten(),
            decreases n - g,
        {
            let worker = &self.workers[g];
            let taken = outputer.offer(worker.pos, &worker.lines);
            assert(taken);
            proof {
                made.take(g as int).lemma_flatten_push(made[g as int]);
                assert(made.take(g + 1) =~= made.take(g as int).push(made[g as int]));
            }
            g += 1;
        }
        assert(made.take(n as int) =~= made);
        outputer.buf_wr
    }
}

/// Whether `output` is what the command `ops` makes of the line `input`
/// in the hands of some worker, whatever that worker remembers.
pub open spec fn made_of(input: Seq<char>, ops: Seq<OpView>, output: Seq<char>) -> bool {
    exists|memory: StateView| output == (#[trigger] memory.begun(input)).run(ops).line
}

/// What a worker hands back holds one line for each line of its group, in
/// order: the line at each place is what the command makes of the line
/// that stood there.
pub proof fn lemma_results_in_order(start: StateView, lines: Seq<Seq<char>>, ops: Seq<OpView>)
    ensures
        start.results(lines, ops).len() == lines.len(),
        forall|k: int|
            0 <= k < lines.len() ==> made_of(lines[k], ops, #[trigger] start.results(lines, ops)[k]),
{
    assert forall|k: int| 0 <= k < lines.len() implies made_of(
        lines[k],
        ops,
        #[trigger] start.results(lines, ops)[k],
    ) by {
        let upto = lines.take(k + 1);
        let memory = start.worked(upto.drop_last(), ops);
        assert(upto.last() == lines[k]);
        assert(start.results(lines, ops)[k] == memory.begun(lines[k]).run(ops).line);
    }
}

/// The same for the lines from `i` on, cut into groups.
proof fn lemma_order_preserved_from(lines: Seq<Seq<char>>, ops: Seq<OpView>, page: nat, i: int)
    requires
        0 <= i <= lines.len(),
    ensures
        ({
            let out = groups_from(lines, page, i).map_values(
                |group: Seq<Seq<char>>| fresh().results(group, ops),
            ).flatten();
            &&& out.len() == lines.len() - i
            &&& forall|k: int| 0 <= k < lines.len() - i ==> made_of(lines[i + k], ops, #[trigger] out[k])
        }),
    decreases lines.len() - i,
{
    let work = |group: Seq<Seq<char>>| fresh().results(group, ops);
    let cut = groups_from(lines, page, i);
    let out = cut.map_values(work).flatten();
    if i < lines.len() {
        let end = group_end(lines, page, i);
        lemma_fill_end(lines, page, i + 1, byte_len(lines[i]));
        let head = lines.subrange(i, end);
        let rest = groups_from(lines, page, end);
        lemma_order_preserved_from(lines, ops, page, end);
        lemma_results_in_order(fresh(), head, ops);
        assert(cut.map_values(work).first() == work(head));
        assert(cut.map_values(work).drop_first() =~= rest.map_values(work));
        assert(out =~= work(head) + rest.map_values(work).flatten());
        assert forall|k: int| 0 <= k < lines.len() - i implies made_of(
            lines[i + k],
            ops,
            #[trigger] out[k],
        ) by {
            if k < end - i {
                assert(out[k] == work(head)[k]);
                assert(head[k] == lines[i + k]);
            } else {
                assert(out[k] == rest.map_values(work).flatten()[k - (end - i)]);
            }
        }
    }
}

/// However the lines are cut into groups, what comes out holds exactly one
/// line for each line that came in, in the same order: the line at each
/// place is what the command makes of the line that stood there.
pub proof fn lemma_order_preserved(lines: Seq<Seq<char>>, ops: Seq<OpView>, page: nat)
    ensures
        transformed(lines, ops, page).len() == lines.len(),
        forall|i: int|
            0 <= i < lines.len() ==> made_of(lines[i], ops, #[trigger] transformed(lines, ops, page)[i]),
{
    lemma_order_preserved_from(lines, ops, page, 0);
}

/// The groups, put together in order, are the lines from `i` on.
proof fn lemma_groups_cover_from(lines: Seq<Seq<char>>, page: nat, i: int)
    requires
        0 <= i <= lines.len(),
    ensures
        groups_from(lines, page, i).flatten() == lines.subrange(i, lines.len() as int),
        forall|g: int|
            0 <= g < groups_from(lines, page, i).len() ==> (#[trigger] groups_from(
                lines,
                page,
                i,
            )[g]).len() > 0,
    decreases lines.len() - i,
{
    let cut = groups_from(lines, page, i);
    if i < lines.len() {
        let end = group_end(lines, page, i);
        lemma_fill_end(lines, page, i + 1, byte_len(lines[i]));
        lemma_groups_cover_from(lines, page, end);
        let rest = groups_from(lines, page, end);
        assert(cut.drop_first() =~= rest);
        assert(cut.flatten() =~= lines.subrange(i, end) + rest.flatten());
        assert(cut.flatten() =~= lines.subrange(i, lines.len() as int));
        assert forall|g: int| 0 <= g < cut.len() implies (#[trigger] cut[g]).len() > 0 by {
            if g > 0 {
                assert(cut[g] == rest[g - 1]);
            }
        }
    } else {
        assert(cut.flatten() =~= lines.subrange(i, lines.len() as int));
    }
}

/// Cutting the lines into groups loses and reorders nothing: no group is
/// empty, and the groups, put together in order, are the lines.
pub proof fn lemma_groups_cover(lines: Seq<Seq<char>>, page: nat)
    ensures
        groups(lines, page).flatten() == lines,
        forall|g: int|
            0 <= g < groups(lines, page).len() ==> (#[trigger] groups(lines, page)[g]).len() > 0,
{
    lemma_groups_cover_from(lines, page, 0);
    assert(lines.subrange(0, lines.len() as int) =~= lines);
}

/// For a command that recalls nothing, how the lines are cut into groups
/// makes no difference: every line comes out as the command makes it from
/// its start, with nothing remembered.
pub proof fn lemma_grouping_does_not_matter(lines: Seq<Seq<char>>, ops: Seq<OpView>, page: nat)
    requires
        forall|k: int| 0 <= k < ops.len() ==> !(#[trigger] ops[k]).recalls(),
    ensures
        transformed(lines, ops, page) == Seq::new(
            lines.len(),
            |i: int| fresh().begun(lines[i]).run(ops).line,
        ),
{
    let out = transformed(lines, ops, page);
    lemma_order_preserved(lines, ops, page);
    assert forall|i: int| 0 <= i < lines.len() implies out[i] == fresh().begun(lines[i]).run(
        ops,
    ).line by {
        assert(made_of(lines[i], ops, out[i]));
        let memory = choose|memory: StateView| out[i] == (#[trigger] memory.begun(lines[i])).run(ops).line;
        crate::engine::lemma_run_same_text(memory.begun(lines[i]), fresh().begun(lines[i]), ops);
    }
    assert(out =~= Seq::new(lines.len(), |i: int| fresh().begun(lines[i]).run(ops).line));
}

/// The empty command leaves every line as it is.
pub proof fn lemma_empty_command(lines: Seq<Seq<char>>, page: nat)
    ensures
        transformed(lines, Seq::empty(), page) == lines,
{
    let ops = Seq::<OpView>::empty();
    let out = transformed(lines, ops, page);
    lemma_order_preserved(lines, ops, page);
    assert forall|i: int| 0 <= i < lines.len() implies out[i] == lines[i] by {
        assert(made_of(lines[i], ops, out[i]));
    }
    assert(out =~= lines);
}

/// What the command `ops` makes of `lines` when they are cut into groups
/// for a page of `page` bytes.
pub fn execute_paged(lines: &Vec<String>, ops: &Vec<Op>, page: usize) -> (out: Vec<String>)
    ensures
        lines_view(out@) == transformed(lines_view(lines@), ops_view(ops@), page as nat),
        out@.len() == lines@.len(),
{
    let mut manager = Manager::new();
    manager.distribute(lines, page);
    assert(manager.pending() =~= groups(lines_view(lines@), page as nat));
    proof {
        lemma_order_preserved(lines_view(lines@), ops_view(ops@), page as nat);
    }
    manager.start(ops)
}

/// What the command `ops` makes of `lines`: the lines are cut into groups
/// for the size of a page of memory on this machine, the groups are worked
/// through side by side, and the lines come back in the order in which
/// they came in.
pub fn execute(lines: Vec<String>, ops: Vec<Op>) -> (out: Vec<String>)
    ensures
        exists|page: nat|
            lines_view(out@) == #[trigger] transformed(lines_view(lines@), ops_view(ops@), page),
        out@.len() == lines@.len(),
        forall|i: int|
            0 <= i < lines@.len() ==> made_of(lines@[i]@, ops_view(ops@), #[trigger] out@[i]@),
{
    let page = page_bytes();
    let out = execute_paged(&lines, &ops, page);
    proof {
        lemma_order_preserved(lines_view(lines@), ops_view(ops@), page as nat);
        assert forall|i: int| 0 <= i < lines@.len() implies made_of(
            lines@[i]@,
            ops_view(ops@),
            #[trigger] out@[i]@,
        ) by {
            assert(lines_view(out@)[i] == out@[i]@);
            assert(lines_view(lines@)[i] == lines@[i]@);
        }
    }
    out
}

} // verus!
