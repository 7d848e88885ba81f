//! Per-part progress of a pending download, as it is kept beside the temp file.

use crate::range_plan::{
    build_range_plan, chunk_size, lemma_part_bounds, lemma_plan_shape, part_end, part_start,
    range_plan, RangePart,
};
use vstd::prelude::*;

verus! {

/// Progress of one part: the inclusive range it covers and how many of its bytes have arrived.
#[derive(Clone, Copy, Debug, PartialEq, Eq, Structural)]
pub struct PartProgress {
    pub start: u64,
    pub end: u64,
    pub downloaded: u64,
}

/// Length of the inclusive range `start..=end`, saturating at both ends of `u64`:
/// a range whose end lies before its start counts as one byte.
pub open spec fn span_len(start: u64, end: u64) -> int {
    let span: int = if end >= start {
        end - start
    } else {
        0
    };
    if span + 1 > u64::MAX {
        u64::MAX as int
    } else {
        span + 1
    }
}

impl PartProgress {
    /// Number of bytes the part covers.
    pub open spec fn spec_len(&self) -> int {
        span_len(self.start, self.end)
    }

    /// Bytes of this part that count as received: `downloaded`, capped at the part's length.
    pub open spec fn counted(&self) -> int {
        if self.downloaded <= self.spec_len() {
            self.downloaded as int
        } else {
            self.spec_len()
        }
    }

    /// Whether every byte of the part has arrived.
    pub open spec fn is_done(&self) -> bool {
        self.downloaded >= self.spec_len()
    }

    /// Number of bytes the part covers.
    pub fn len(&self) -> (n: u64)
        ensures
            n == self.spec_len(),
    {
        let span: u64 = if self.end >= self.start {
            self.end - self.start
        } else {
            0
        };
        if span == u64::MAX {
            u64::MAX
        } else {
            span + 1
        }
    }
}

/// What is persisted of a pending download: the total length if the server disclosed it,
/// the number of parts asked for, and the progress of each part.
#[derive(Clone, Debug)]
pub struct PartialDownloadState {
    pub total: Option<u64>,
    pub part_count: usize,
    pub parts: Vec<PartProgress>,
}

/// The parts of a download that has not started: the plan's ranges, nothing received.
pub open spec fn fresh_parts(total: u64, part_count: usize) -> Seq<PartProgress> {
    range_plan(total, part_count).map_values(
        |r: RangePart| PartProgress { start: r.start, end: r.end, downloaded: 0 },
    )
}

/// `part` moved onto `range`, keeping what it had received as far as the range is long.
pub open spec fn refit(part: PartProgress, range: RangePart) -> PartProgress {
    let len = span_len(range.start, range.end);
    PartProgress {
        start: range.start,
        end: range.end,
        downloaded: if part.downloaded > len {
            len as u64
        } else {
            part.downloaded
        },
    }
}

/// `parts` moved onto `plan`, entry by entry: one part for each range of the plan.
pub open spec fn relaid(parts: Seq<PartProgress>, plan: Seq<RangePart>) -> Seq<PartProgress> {
    Seq::new(plan.len(), |i: int| refit(parts[i], plan[i]))
}

/// Whether a state keeps what it has received when it is laid out for `total`: it has as
/// many parts as it asks for, the plan for `total` has as many, and the state was not made
/// for another total. Otherwise its offsets mean nothing for the new layout.
pub open spec fn keeps_progress(
    made_for: Option<u64>,
    parts: Seq<PartProgress>,
    total: u64,
    part_count: usize,
) -> bool {
    &&& parts.len() == part_count
    &&& range_plan(total, part_count).len() == part_count
    &&& !(made_for is Some && made_for->0 != total)
}

/// The parts of a state once it is laid out for `total`: moved onto the plan where the
/// state keeps its progress, fresh otherwise.
pub open spec fn laid_for(
    made_for: Option<u64>,
    parts: Seq<PartProgress>,
    total: u64,
    part_count: usize,
) -> Seq<PartProgress> {
    if keeps_progress(made_for, parts, total, part_count) {
        relaid(parts, range_plan(total, part_count))
    } else {
        fresh_parts(total, part_count)
    }
}

/// Sum of the counted bytes of all parts.
pub open spec fn completed_sum(parts: Seq<PartProgress>) -> int
    decreases parts.len(),
{
    if parts.len() == 0 {
        0
    } else {
        completed_sum(parts.drop_last()) + parts.last().counted()
    }
}

/// Whether every part is done.
pub open spec fn all_done(parts: Seq<PartProgress>) -> bool {
    forall|i: int| 0 <= i < parts.len() ==> (#[trigger] parts[i]).is_done()
}

/// Whether `parts` lie on the plan for `total` bytes and `part_count` parts, none holding more
/// than its range.
pub open spec fn laid_out(parts: Seq<PartProgress>, total: u64, part_count: usize) -> bool {
    &&& parts.len() == range_plan(total, part_count).len()
    &&& forall|i: int|
        0 <= i < parts.len() ==> {
            &&& (#[trigger] parts[i]).start == range_plan(total, part_count)[i].start
            &&& parts[i].end == range_plan(total, part_count)[i].end
            &&& parts[i].downloaded <= parts[i].spec_len()
        }
}

impl PartialDownloadState {
    /// Well-formed state: at least one part is asked for, and where the total is known the
    /// parts lie on the plan for it.
    pub open spec fn wf(&self) -> bool {
        &&& self.part_count >= 1
        &&& match self.total {
            Some(total) => laid_out(self.parts@, total, self.part_count),
            None => true,
        }
    }

    /// A state with nothing received. At least one part is asked for. With a known total the
    /// parts are the plan's; without, one placeholder part stands in.
    pub fn new(total: Option<u64>, part_count: usize) -> (state: Self)
        ensures
            state.total == total,
            state.part_count == if part_count == 0 {
                1usize
            } else {
                part_count
            },
            state.parts@ == match total {
                Some(t) => fresh_parts(t, state.part_count),
                None => seq![PartProgress { start: 0, end: 0, downloaded: 0 }],
            },
            state.wf(),
    {
        let count: usize = if part_count == 0 {
            1
        } else {
            part_count
        };
        let mut state = PartialDownloadState { total, part_count: count, parts: Vec::new() };
        match total {
            Some(t) => {
                state.rebuild_parts(t);
                proof {
                    lemma_fresh_parts_laid_out(t, count);
                }
            },
            None => {
                let mut parts: Vec<PartProgress> = Vec::new();
                parts.push(PartProgress { start: 0, end: 0, downloaded: 0 });
                state.parts = parts;
                assert(state.parts@ =~= seq![PartProgress { start: 0, end: 0, downloaded: 0 }]);
            },
        }
        state
    }

    /// Makes the state a fresh one for `total`: the parts are the plan for `total` and the
    /// state's part count, nothing received.
    pub fn rebuild_parts(&mut self, total: u64)
        ensures
            final(self).total == Some(total),
            final(self).part_count == old(self).part_count,
            final(self).parts@ == fresh_parts(total, old(self).part_count),
            laid_out(final(self).parts@, total, old(self).part_count),
            old(self).part_count >= 1 ==> final(self).wf(),
    {
        proof {
            lemma_fresh_parts_laid_out(total, self.part_count);
        }
        self.total = Some(total);
        let plan = build_range_plan(total, self.part_count);
        let mut parts: Vec<PartProgress> = Vec::new();
        let mut i: usize = 0;
        while i < plan.len()
            invariant
                i <= plan.len(),
                plan@ == range_plan(total, self.part_count),
                parts@ =~= fresh_parts(total, self.part_count).take(i as int),
            decreases plan.len() - i,
        {
            let range = plan[i];
            parts.push(PartProgress { start: range.start, end: range.end, downloaded: 0 });
            i += 1;
        }
        assert(parts@ =~= fresh_parts(total, self.part_count));
        self.parts = parts;
    }

    /// Lays the state out for `total`. A part count of zero becomes one, and the state is
    /// from now on a state for `total`. Progress is kept only where the state has as many
    /// parts as it asks for, the plan for `total` has as many, and the state was not made for
    /// another total: each part then moves onto the plan's range at its index and keeps what
    /// it had received, capped at the range's length. Otherwise the progress is dropped and
    /// the parts are the plan's, nothing received.
    pub fn ensure_layout(&mut self, total: u64)
        ensures
            final(self).total == Some(total),
            final(self).part_count == if old(self).part_count == 0 {
                1usize
            } else {
                old(self).part_count
            },
            final(self).parts@ == laid_for(
                old(self).total,
                old(self).parts@,
                total,
                final(self).part_count,
            ),
            laid_out(final(self).parts@, total, final(self).part_count),
            final(self).wf(),
    {
        if self.part_count == 0 {
            self.part_count = 1;
        }
        let same_total = match self.total {
            Some(made_for) => made_for == total,
            None => true,
        };
        self.total = Some(total);
        let plan = build_range_plan(total, self.part_count);
        if !same_total || self.parts.len() != self.part_count || plan.len() != self.part_count {
            self.rebuild_parts(total);
            return ;
        }
        let ghost before = self.parts@;
        let mut i: usize = 0;
        while i < plan.len()
            invariant
                i <= plan@.len(),
                plan@.len() == before.len(),
                self.parts@.len() == before.len(),
                plan@ == range_plan(total, self.part_count),
                self.total == Some(total),
                self.part_count == if old(self).part_count == 0 {
                    1usize
                } else {
                    old(self).part_count
                },
                forall|k: int| 0 <= k < i ==> self.parts@[k] == refit(before[k], plan@[k]),
                forall|k: int| i <= k < before.len() ==> self.parts@[k] == before[k],
            decreases plan@.len() - i,
        {
            let range = plan[i];
            let entry = self.parts[i];
            let mut moved = PartProgress {
                start: range.start,
                end: range.end,
                downloaded: entry.downloaded,
            };
            let len = moved.len();
            if moved.downloaded > len {
                moved.downloaded = len;
            }
            self.parts.set(i, moved);
            i += 1;
        }
        assert(self.parts@ =~= relaid(before, plan@));
    }

    /// Whether every part has all its bytes.
    pub fn is_complete(&self) -> (complete: bool)
        ensures
            complete == all_done(self.parts@),
    {
        let mut i: usize = 0;
        while i < self.parts.len()
            invariant
                i <= self.parts.len(),
                forall|k: int| 0 <= k < i ==> (#[trigger] self.parts@[k]).is_done(),
            decreases self.parts.len() - i,
        {
            let entry = self.parts[i];
            if entry.downloaded < entry.len() {
                return false;
            }
            i += 1;
        }
        true
    }

    /// Bytes received over all parts, each part counted up to its length. The sum saturates
    /// at `u64::MAX`; in a well-formed state with a known total it never exceeds the total.
    pub fn completed_bytes(&self) -> (bytes: u64)
        ensures
            bytes == if completed_sum(self.parts@) > u64::MAX {
                u64::MAX as int
            } else {
                completed_sum(self.parts@)
            },
            self.wf() && self.total is Some ==> bytes == completed_sum(self.parts@) && bytes
                <= self.total->0 && (bytes == self.total->0 <==> all_done(self.parts@)),
    {
        proof {
            if self.wf() && self.total is Some {
                lemma_completed_bytes_within_total(*self);
            }
        }
        let mut sum: u64 = 0;
        let mut i: usize = 0;
        while i < self.parts.len()
            invariant
                i <= self.parts.len(),
                0 <= completed_sum(self.parts@.take(i as int)),
                sum == if completed_sum(self.parts@.take(i as int)) > u64::MAX {
                    u64::MAX as int
                } else {
                    completed_sum(self.parts@.take(i as int))
                },
            decreases self.parts.len() - i,
        {
            let entry = self.parts[i];
            let len = entry.len();
            let counted: u64 = if entry.downloaded < len {
                entry.downloaded
            } else {
                len
            };
            proof {
                let next = self.parts@.take(i as int + 1);
                assert(next.drop_last() =~= self.parts@.take(i as int));
                assert(next.last() == entry);
            }
            sum = sum.saturating_add(counted);
            i += 1;
        }
        assert(self.parts@.take(i as int) =~= self.parts@);
        sum
    }

    /// Records that part `index` has received `downloaded` bytes, capped at the part's length.
    /// An index past the last part changes nothing.
    pub fn set_downloaded(&mut self, index: usize, downloaded: u64)
        ensures
            final(self).total == old(self).total,
            final(self).part_count == old(self).part_count,
            index >= old(self).parts@.len() ==> final(self).parts@ == old(self).parts@,
            index < old(self).parts@.len() ==> final(self).parts@ == old(self).parts@.update(
                index as int,
                PartProgress {
                    start: old(self).parts@[index as int].start,
                    end: old(self).parts@[index as int].end,
                    downloaded: if downloaded <= old(self).parts@[index as int].spec_len() {
                        downloaded
                    } else {
                        old(self).parts@[index as int].spec_len() as u64
                    },
                },
            ),
            old(self).wf() ==> final(self).wf(),
    {
        if index < self.parts.len() {
            let entry = self.parts[index];
            let len = entry.len();
            let capped: u64 = if downloaded < len {
                downloaded
            } else {
                len
            };
            self.parts.set(
                index,
                PartProgress { start: entry.start, end: entry.end, downloaded: capped },
            );
        }
    }
}

/// Fresh parts lie on their plan.
pub proof fn lemma_fresh_parts_laid_out(total: u64, part_count: usize)
    ensures
        laid_out(fresh_parts(total, part_count), total, part_count),
        completed_sum(fresh_parts(total, part_count)) == 0,
{
    let parts = fresh_parts(total, part_count);
    lemma_nothing_received(parts, parts.len() as int);
    assert(parts.take(parts.len() as int) =~= parts);
}

/// Fresh parts that are laid out again on their own plan stay as they are.
pub proof fn lemma_relaid_fresh(total: u64, part_count: usize)
    ensures
        relaid(fresh_parts(total, part_count), range_plan(total, part_count)) == fresh_parts(
            total,
            part_count,
        ),
{
    assert(relaid(fresh_parts(total, part_count), range_plan(total, part_count)) =~= fresh_parts(
        total,
        part_count,
    ));
}

proof fn lemma_nothing_received(parts: Seq<PartProgress>, k: int)
    requires
        0 <= k <= parts.len(),
        forall|i: int| 0 <= i < parts.len() ==> (#[trigger] parts[i]).downloaded == 0,
    ensures
        completed_sum(parts.take(k)) == 0,
    decreases k,
{
    if k > 0 {
        lemma_nothing_received(parts, k - 1);
        assert(parts.take(k).drop_last() =~= parts.take(k - 1));
        assert(parts.take(k).last() == parts[k - 1]);
    }
}

/// Over the first `k` parts of a laid-out state, the counted bytes never exceed the bytes those
/// parts cover, and reach them exactly when each of the `k` parts is done.
proof fn lemma_prefix_progress(parts: Seq<PartProgress>, total: u64, part_count: usize, k: int)
    requires
        part_count >= 1,
        laid_out(parts, total, part_count),
        0 <= k <= parts.len(),
    ensures
        0 <= completed_sum(parts.take(k)) <= k * chunk_size(
            total as int,
            part_count as int,
        ),
        k < parts.len() ==> (completed_sum(parts.take(k)) == part_start(
            total as int,
            part_count as int,
            k,
        ) <==> all_done(parts.take(k))),
        k < parts.len() ==> completed_sum(parts.take(k)) <= part_start(
            total as int,
            part_count as int,
            k,
        ),
        k == parts.len() ==> (completed_sum(parts.take(k)) == total <==> all_done(parts.take(k))),
        k == parts.len() ==> completed_sum(parts.take(k)) <= total,
    decreases k,
{
    let t = total as int;
    let p = part_count as int;
    let c = chunk_size(t, p);
    if k == 0 {
        assert(0 * c == 0) by (nonlinear_arith);
        assert(part_start(t, p, 0) == 0);
        if parts.len() == 0 {
            if total > 0 {
                lemma_plan_shape(t, p);
            }
        }
    } else {
        lemma_prefix_progress(parts, total, part_count, k - 1);
        let head = parts.take(k - 1);
        let now = parts.take(k);
        assert(now.drop_last() =~= head);
        assert(now.last() == parts[k - 1]);
        assert(total > 0) by {
            if total == 0 {
                assert(range_plan(total, part_count).len() == 0);
            }
        }
        lemma_plan_shape(t, p);
        lemma_part_bounds(t, p, k - 1);
        let last = parts[k - 1];
        assert(last.start == range_plan(total, part_count)[k - 1].start);
        assert(last.start as int == part_start(t, p, k - 1));
        assert(last.end as int == part_end(t, p, k - 1));
        assert(last.spec_len() == last.end - last.start + 1);
        assert(k * c == (k - 1) * c + c) by (nonlinear_arith);
        assert(last.end - last.start + 1 <= c);
        assert(all_done(now) <==> (all_done(head) && last.is_done())) by {
            if all_done(now) {
                assert forall|i: int| 0 <= i < head.len() implies (#[trigger] head[i]).is_done() by {
                    assert(head[i] == now[i]);
                }
                assert(now[k - 1].is_done());
            }
            if all_done(head) && last.is_done() {
                assert forall|i: int| 0 <= i < now.len() implies (#[trigger] now[i]).is_done() by {
                    if i < k - 1 {
                        assert(now[i] == head[i]);
                    }
                }
            }
        }
    }
}

/// In a well-formed state with a known total, the counted bytes never exceed the total, and
/// the download is complete exactly when they reach it.
pub proof fn lemma_completed_bytes_within_total(state: PartialDownloadState)
    requires
        state.wf(),
        state.total is Some,
    ensures
        0 <= completed_sum(state.parts@) <= state.total->0,
        all_done(state.parts@) <==> completed_sum(state.parts@) == state.total->0,
{
    let parts = state.parts@;
    lemma_prefix_progress(parts, state.total->0, state.part_count, parts.len() as int);
    assert(parts.take(parts.len() as int) =~= parts);
}

} // verus!
