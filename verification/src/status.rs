//! The block registry and the scheduling logic: which blocks are due at a
//! given clock value, and how a block's output advances the clock.

use crate::text::{join_all, joined, render, rendered};
use vstd::prelude::*;

verus! {

/// A block is due at a clock value exactly when that value is a multiple of
/// the block's interval.
pub open spec fn is_due(interval: u64, elapsed: u64) -> bool {
    (elapsed as int) % (interval as int) == 0
}

/// The indices of the due blocks, in registry order: index `i` appears
/// exactly when `elapsed` is a multiple of `intervals[i]`.
pub open spec fn due_indices(intervals: Seq<u64>, elapsed: u64) -> Seq<int>
    decreases intervals.len(),
{
    if intervals.len() == 0 {
        Seq::empty()
    } else {
        let rest = due_indices(intervals.drop_last(), elapsed);
        if is_due(intervals.last(), elapsed) {
            rest.push(intervals.len() - 1)
        } else {
            rest
        }
    }
}

/// A block's index is listed among the due indices exactly when the clock
/// value is a multiple of that block's interval; no other index is listed.
pub proof fn lemma_due_iff(intervals: Seq<u64>, elapsed: u64, i: int)
    ensures
        due_indices(intervals, elapsed).contains(i) <==> (0 <= i < intervals.len() && is_due(
            intervals[i],
            elapsed,
        )),
    decreases intervals.len(),
{
    if intervals.len() > 0 {
        let rest = due_indices(intervals.drop_last(), elapsed);
        lemma_due_iff(intervals.drop_last(), elapsed, i);
        let full = due_indices(intervals, elapsed);
        if is_due(intervals.last(), elapsed) {
            assert(full == rest.push(intervals.len() - 1));
            assert forall|x: int| #[trigger] full.contains(x) implies rest.contains(x) || x
                == intervals.len() - 1 by {
                let k = choose|k: int| 0 <= k < full.len() && full[k] == x;
                if k < rest.len() {
                    assert(rest[k] == x);
                }
            }
            assert forall|x: int| rest.contains(x) || x == intervals.len()
                - 1 implies #[trigger] full.contains(x) by {
                if rest.contains(x) {
                    let k = choose|k: int| 0 <= k < rest.len() && rest[k] == x;
                    assert(full[k] == x);
                } else {
                    assert(full[full.len() - 1] == x);
                }
            }
        }
    }
}

/// Every listed due index points at a block of the registry.
pub proof fn lemma_due_in_bounds(intervals: Seq<u64>, elapsed: u64)
    ensures
        forall|k: int|
            0 <= k < due_indices(intervals, elapsed).len() ==> 0 <= #[trigger] due_indices(
                intervals,
                elapsed,
            )[k] < intervals.len(),
    decreases intervals.len(),
{
    if intervals.len() > 0 {
        lemma_due_in_bounds(intervals.drop_last(), elapsed);
        let rest = due_indices(intervals.drop_last(), elapsed);
        let full = due_indices(intervals, elapsed);
        assert forall|k: int| 0 <= k < full.len() implies 0 <= #[trigger] full[k]
            < intervals.len() by {
            if k < rest.len() {
                assert(full[k] == rest[k]);
            }
        }
    }
}

/// The due indices come out in registry order: strictly ascending.
pub proof fn lemma_due_ascending(intervals: Seq<u64>, elapsed: u64)
    ensures
        forall|k1: int, k2: int|
            0 <= k1 < k2 < due_indices(intervals, elapsed).len() ==> due_indices(
                intervals,
                elapsed,
            )[k1] < due_indices(intervals, elapsed)[k2],
    decreases intervals.len(),
{
    if intervals.len() > 0 {
        lemma_due_ascending(intervals.drop_last(), elapsed);
        lemma_due_in_bounds(intervals.drop_last(), elapsed);
        let rest = due_indices(intervals.drop_last(), elapsed);
        let full = due_indices(intervals, elapsed);
        assert forall|k1: int, k2: int| 0 <= k1 < k2 < full.len() implies full[k1] < full[k2] by {
            if k1 < rest.len() {
                assert(full[k1] == rest[k1]);
            }
            if k2 < rest.len() {
                assert(full[k2] == rest[k2]);
            }
        }
    }
}

/// At clock value zero every block of the registry is due, each exactly
/// once, in registry order.
pub proof fn lemma_all_due_at_start(intervals: Seq<u64>)
    requires
        forall|i: int| 0 <= i < intervals.len() ==> #[trigger] intervals[i] >= 1,
    ensures
        due_indices(intervals, 0) == Seq::new(intervals.len(), |i: int| i),
    decreases intervals.len(),
{
    if intervals.len() > 0 {
        lemma_all_due_at_start(intervals.drop_last());
        assert(is_due(intervals.last(), 0));
        assert(Seq::new(intervals.len(), |i: int| i) =~= Seq::new(
            (intervals.len() - 1) as nat,
            |i: int| i,
        ).push(intervals.len() - 1));
    }
}

/// One scheduled unit of work: the command to run and the decoration put
/// around its output.
#[derive(Clone)]
pub struct StatusBlock {
    /// Placed before the command's trimmed output.
    pub prefix: String,
    /// Placed after the command's trimmed output.
    pub suffix: String,
    /// The script the block runs on each refresh.
    pub script_path: String,
}

impl StatusBlock {
    pub fn new(prefix: String, suffix: String, script_path: String) -> (r: Self)
        ensures
            r.prefix@ == prefix@,
            r.suffix@ == suffix@,
            r.script_path@ == script_path@,
    {
        Self { prefix, suffix, script_path }
    }
}

/// Why a registry cannot be built.
#[derive(Clone, Copy, Debug, PartialEq, Eq, Structural)]
pub enum StatusError {
    /// A block was registered with an interval of zero seconds.
    InvalidConfig,
}

/// The ordered block registry together with the per-block rendered text.
/// Blocks are only ever appended, never removed or reordered.
pub struct StatusHandler {
    /// The separator put between consecutive rendered texts in the aggregate.
    pub gap: String,
    /// The registered blocks, each with its refresh interval in seconds.
    pub blocks: Vec<(u64, StatusBlock)>,
    /// The most recent rendered text of each block, one slot per block,
    /// initially empty.
    pub text_placeholder: Vec<String>,
}

impl StatusHandler {
    /// The refresh intervals, in registry order.
    pub open spec fn intervals(self) -> Seq<u64> {
        self.blocks@.map_values(|b: (u64, StatusBlock)| b.0)
    }

    /// The rendered texts, in registry order.
    pub open spec fn slots(self) -> Seq<Seq<char>> {
        self.text_placeholder.deep_view()
    }

    /// One rendered slot per block, and every interval at least one second.
    pub open spec fn wf(self) -> bool {
        &&& self.text_placeholder@.len() == self.blocks@.len()
        &&& forall|i: int| 0 <= i < self.blocks@.len() ==> #[trigger] self.blocks@[i].0 >= 1
    }

    /// An empty registry with the given separator.
    pub fn new(gap: &str) -> (r: Self)
        ensures
            r.gap@ == gap@,
            r.blocks@.len() == 0,
            r.slots().len() == 0,
            r.wf(),
    {
        Self { gap: gap.to_owned(), blocks: Vec::new(), text_placeholder: Vec::new() }
    }

    /// Appends a block at the next index and returns that index; its rendered
    /// slot starts empty. An interval under one second is rejected as
    /// `InvalidConfig` and leaves the registry untouched.
    pub fn add_block(
        &mut self,
        prefix: &str,
        suffix: &str,
        interval_secs: u64,
        script_path: &str,
    ) -> (r: Result<usize, StatusError>)
        ensures
            r is Ok <==> interval_secs >= 1,
            r is Err ==> r == Result::<usize, StatusError>::Err(StatusError::InvalidConfig)
                && *final(self) == *old(self),
            r is Ok ==> {
                &&& r == Result::<usize, StatusError>::Ok(old(self).blocks@.len() as usize)
                &&& final(self).gap == old(self).gap
                &&& final(self).blocks@.len() == old(self).blocks@.len() + 1
                &&& forall|i: int|
                    0 <= i < old(self).blocks@.len() ==> final(self).blocks@[i] == old(
                        self,
                    ).blocks@[i]
                &&& final(self).blocks@.last().0 == interval_secs
                &&& final(self).blocks@.last().1.prefix@ == prefix@
                &&& final(self).blocks@.last().1.suffix@ == suffix@
                &&& final(self).blocks@.last().1.script_path@ == script_path@
                &&& final(self).slots() == old(self).slots().push(Seq::<char>::empty())
                &&& old(self).wf() ==> final(self).wf()
            },
    {
        if interval_secs < 1 {
            return Err(StatusError::InvalidConfig);
        }
        let idx = self.blocks.len();
        self.text_placeholder.push(String::new());
        self.blocks.push(
            (
                interval_secs,
                StatusBlock::new(prefix.to_owned(), suffix.to_owned(), script_path.to_owned()),
            ),
        );
        proof {
            assert(self.slots() =~= old(self).slots().push(Seq::<char>::empty()));
        }
        Ok(idx)
    }

    /// The indices of the blocks due at clock value `elapsed`, in registry
    /// order: exactly those whose interval divides `elapsed`.
    pub fn get_blocks(&self, elapsed: u64) -> (r: Vec<usize>)
        requires
            self.wf(),
        ensures
            r@.map_values(|x: usize| x as int) == due_indices(self.intervals(), elapsed),
            forall|k: int| 0 <= k < r@.len() ==> #[trigger] r@[k] < self.blocks@.len(),
    {
        let ghost all = self.intervals();
        let mut r: Vec<usize> = Vec::new();
        let n = self.blocks.len();
        for i in it: 0..n
            invariant
                n == self.blocks@.len(),
                self.wf(),
                all == self.intervals(),
                r@.map_values(|x: usize| x as int) == due_indices(all.take(i as int), elapsed),
                forall|k: int| 0 <= k < r@.len() ==> #[trigger] r@[k] < i,
        {
            let interval = self.blocks[i].0;
            assert(interval == all[i as int]);
            proof {
                assert(all.take(i + 1).drop_last() =~= all.take(i as int));
                assert(all.take(i + 1).last() == all[i as int]);
            }
            let ghost pre = r@;
            if elapsed % interval == 0 {
                r.push(i);
                proof {
                    assert(r@.map_values(|x: usize| x as int) =~= pre.map_values(
                        |x: usize| x as int,
                    ).push(i as int));
                }
            }
        }
        proof {
            assert(all.take(n as int) =~= all);
        }
        r
    }

    /// Stores the rendered text of block `idx` — its prefix, the trimmed
    /// `output`, its suffix — in that block's slot, leaving every other slot
    /// and the registry itself unchanged, and advances the clock by the
    /// `secs` the command took: slow commands shift the phase of every later
    /// due-check rather than being compensated away.
    pub fn record_output(&mut self, idx: usize, output: &str, secs: u64, elapsed: u64) -> (r: u64)
        requires
            idx < old(self).blocks@.len(),
            old(self).wf(),
            elapsed + secs <= u64::MAX,
        ensures
            r == elapsed + secs,
            final(self).gap == old(self).gap,
            final(self).blocks == old(self).blocks,
            final(self).slots() == old(self).slots().update(
                idx as int,
                rendered(
                    old(self).blocks@[idx as int].1.prefix@,
                    output@,
                    old(self).blocks@[idx as int].1.suffix@,
                ),
            ),
            final(self).wf(),
    {
        let text = render(self.blocks[idx].1.prefix.as_str(), output, self.blocks[idx].1.suffix.as_str());
        self.text_placeholder.set(idx, text);
        proof {
            assert(self.slots() =~= old(self).slots().update(
                idx as int,
                rendered(
                    old(self).blocks@[idx as int].1.prefix@,
                    output@,
                    old(self).blocks@[idx as int].1.suffix@,
                ),
            ));
        }
        elapsed + secs
    }

    /// The aggregate line: every block's rendered text in registry order,
    /// with the separator between consecutive texts and nowhere else.
    pub fn update(&self) -> (r: String)
        ensures
            r@ == joined(self.slots(), self.gap@),
    {
        join_all(&self.text_placeholder, self.gap.as_str())
    }

    /// How many blocks are registered.
    pub fn len(&self) -> (r: usize)
        ensures
            r == self.blocks@.len(),
    {
        self.blocks.len()
    }

    /// The script of block `idx`.
    pub fn script_path(&self, idx: usize) -> (r: &String)
        requires
            idx < self.blocks@.len(),
        ensures
            r@ == self.blocks@[idx as int].1.script_path@,
    {
        &self.blocks[idx].1.script_path
    }

    /// The rendered text currently stored for block `idx`.
    pub fn rendered_text(&self, idx: usize) -> (r: &String)
        requires
            idx < self.text_placeholder@.len(),
        ensures
            r@ == self.slots()[idx as int],
    {
        &self.text_placeholder[idx]
    }
}

} // verus!
