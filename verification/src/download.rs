//! The decisions of a download: how many connections to use, whether to resume, restart or
//! finish, which parts still need work, and how a worker keeps track of its part.
//!
//! Requests, files and threads are driven from outside; every function here takes what was
//! observed and tells what to do next.

use crate::decimal::{decimal, u64_to_decimal, usize_to_decimal};
use crate::partial_state::{
    all_done, completed_sum, fresh_parts, laid_for, laid_out, span_len, PartProgress,
    PartialDownloadState,
};
use crate::probe::{range_between, range_header_between, FileProbe, PARTIAL_CONTENT};
use crate::range_plan::range_plan;
use vstd::prelude::*;

verus! {

/// What to do when the local target of a download exists already.
#[derive(Clone, Copy, Debug, PartialEq, Eq, Structural)]
pub enum ExistingFileStrategy {
    /// Replace it.
    Overwrite,
    /// Keep it and download nothing.
    Skip,
    /// Keep it and download to a numbered duplicate.
    Duplicate,
}

/// The most connections one download may use.
pub const MAX_CONNECTIONS: u8 = 16;

/// New bytes of a part after which its progress is persisted again: 8 MiB.
pub const PARTIAL_STATE_UPDATE_THRESHOLD: u64 = 8 * 1024 * 1024;

/// Bytes read from a response at a time: 16 KiB.
pub const BLOCK_SIZE: usize = 16 * 1024;

/// The number of connections used for a request of `connections`: at least one, at most
/// [`MAX_CONNECTIONS`].
pub open spec fn effective(connections: u8) -> u8 {
    if connections < 1 {
        1
    } else if connections > MAX_CONNECTIONS {
        MAX_CONNECTIONS
    } else {
        connections
    }
}

/// Whether a download can be split over several connections: the length is known and not
/// zero, the server serves ranges, and more than one connection is asked for.
pub open spec fn multi_supported(probe: FileProbe, connections: u8) -> bool {
    probe.length is Some && probe.length->0 > 0 && probe.accept_ranges && effective(connections)
        > 1
}

/// The number of connections used for a request of `connections`.
pub fn effective_connections(connections: u8) -> (used: u8)
    ensures
        used == effective(connections),
{
    if connections < 1 {
        1
    } else if connections > MAX_CONNECTIONS {
        MAX_CONNECTIONS
    } else {
        connections
    }
}

/// Whether a download can be split over several connections.
pub fn supports_multiple_connections(probe: &FileProbe, connections: u8) -> (supported: bool)
    ensures
        supported == multi_supported(*probe, connections),
{
    let known = match probe.length {
        Some(length) => length > 0,
        None => false,
    };
    known && probe.accept_ranges && effective_connections(connections) > 1
}

/// Whether the user is to be told that a single connection is used although more were asked
/// for.
pub fn falls_back_to_single(probe: &FileProbe, connections: u8) -> (falls_back: bool)
    ensures
        falls_back == (connections > 1 && !multi_supported(*probe, connections)),
{
    connections > 1 && !supports_multiple_connections(probe, connections)
}

/// What a persisted state says that matters to the decision to resume.
#[derive(Clone, Copy, Debug, PartialEq, Eq, Structural)]
pub struct SavedProgress {
    /// The total that the state was made for.
    pub total: Option<u64>,
    /// Whether every part of it is done.
    pub complete: bool,
}

/// What a persisted state says that matters to the decision to resume.
pub fn summarize(state: &PartialDownloadState) -> (saved: SavedProgress)
    ensures
        saved.total == state.total,
        saved.complete == all_done(state.parts@),
{
    SavedProgress { total: state.total, complete: state.is_complete() }
}

/// How a download goes on.
#[derive(Clone, Copy, Debug, PartialEq, Eq, Structural)]
pub enum Route {
    /// The temp file holds the whole file already: move it into place.
    Finalize,
    /// Fetch the open parts over several connections.
    MultiStream,
    /// Fetch over one connection, from byte `resume_from` on; zero starts over.
    SingleStream { resume_from: u64 },
}

/// The decision taken at the start of a download, with the housekeeping it asks for.
#[derive(Clone, Copy, Debug, PartialEq, Eq, Structural)]
pub struct DownloadPlan {
    pub route: Route,
    /// The persisted state was made for another total: tell the user, and start over.
    pub size_mismatch: bool,
    /// Remove the temp file before going on.
    pub discard_temp: bool,
    /// Remove the state file and its staging file before going on.
    pub clear_state: bool,
    /// Cut the temp file down to this length before going on.
    pub truncate_to: Option<u64>,
    /// Go on with the persisted state; otherwise with a fresh one, if with any.
    pub keep_state: bool,
}

/// Whether a persisted state was made for another total than the one the server reports now.
pub open spec fn totals_differ(total: Option<u64>, saved: Option<SavedProgress>) -> bool {
    saved is Some && saved->0.total is Some && total is Some && saved->0.total->0 != total->0
}

/// The plan for a download of `total` bytes, if known, from a server that does or does not
/// serve ranges, over `connections` connections, where the temp file holds `existing` bytes
/// and `saved` tells of the persisted state, if there is one.
///
/// - A state made for another total is dropped with the temp file, and the download starts
///   over.
/// - A temp file that holds all `total > 0` bytes is moved into place, unless a state says
///   that parts are still open.
/// - A temp file longer than a total of zero is cut down.
/// - Without range support nothing can be resumed: temp file and state are dropped.
/// - With a known total that is not zero, range support and more than one connection the
///   download is split; otherwise it takes one connection, and a state for a known total is
///   cleared.
pub open spec fn planned(
    total: Option<u64>,
    accept_ranges: bool,
    connections: u8,
    existing: u64,
    saved: Option<SavedProgress>,
) -> DownloadPlan {
    let mismatch = totals_differ(total, saved);
    let saved1 = if mismatch {
        None
    } else {
        saved
    };
    let existing1 = if mismatch {
        0
    } else {
        existing
    };
    let whole = total is Some && total->0 > 0 && existing1 >= total->0;
    if whole && (saved1 is None || saved1->0.complete) {
        DownloadPlan {
            route: Route::Finalize,
            size_mismatch: false,
            discard_temp: false,
            clear_state: false,
            truncate_to: None,
            keep_state: saved1 is Some,
        }
    } else {
        let cut = total is Some && !whole && existing1 > total->0;
        let existing2 = if cut {
            total->0
        } else {
            existing1
        };
        let unresumable = existing2 > 0 && !accept_ranges;
        let existing3 = if unresumable {
            0
        } else {
            existing2
        };
        let saved3 = if unresumable {
            None
        } else {
            saved1
        };
        let split = total is Some && total->0 > 0 && accept_ranges && connections > 1;
        DownloadPlan {
            route: if split {
                Route::MultiStream
            } else {
                Route::SingleStream { resume_from: existing3 }
            },
            size_mismatch: mismatch,
            discard_temp: mismatch || unresumable,
            clear_state: mismatch || unresumable || (!split && total is Some && saved3 is Some),
            truncate_to: if cut {
                total
            } else {
                None
            },
            keep_state: split && saved3 is Some,
        }
    }
}

/// Plans a download; see [`planned`].
pub fn plan_download(
    total: Option<u64>,
    accept_ranges: bool,
    connections: u8,
    existing: u64,
    saved: Option<SavedProgress>,
) -> (plan: DownloadPlan)
    ensures
        plan == planned(total, accept_ranges, connections, existing, saved),
{
    let mismatch = match (saved, total) {
        (Some(s), Some(t)) => match s.total {
            Some(st) => st != t,
            None => false,
        },
        _ => false,
    };
    let saved1 = if mismatch {
        None
    } else {
        saved
    };
    let existing1: u64 = if mismatch {
        0
    } else {
        existing
    };
    let whole = match total {
        Some(t) => t > 0 && existing1 >= t,
        None => false,
    };
    let settled = match saved1 {
        Some(s) => s.complete,
        None => true,
    };
    if whole && settled {
        return DownloadPlan {
            route: Route::Finalize,
            size_mismatch: false,
            discard_temp: false,
            clear_state: false,
            truncate_to: None,
            keep_state: saved1.is_some(),
        };
    }
    let cut = match total {
        Some(t) => !whole && existing1 > t,
        None => false,
    };
    let existing2: u64 = match total {
        Some(t) => if cut {
            t
        } else {
            existing1
        },
        None => existing1,
    };
    let unresumable = existing2 > 0 && !accept_ranges;
    let existing3: u64 = if unresumable {
        0
    } else {
        existing2
    };
    let saved3 = if unresumable {
        None
    } else {
        saved1
    };
    let split = match total {
        Some(t) => t > 0 && accept_ranges && connections > 1,
        None => false,
    };
    DownloadPlan {
        route: if split {
            Route::MultiStream
        } else {
            Route::SingleStream { resume_from: existing3 }
        },
        size_mismatch: mismatch,
        discard_temp: mismatch || unresumable,
        clear_state: mismatch || unresumable || (!split && total.is_some() && saved3.is_some()),
        truncate_to: if cut {
            total
        } else {
            None
        },
        keep_state: split && saved3.is_some(),
    }
}

/// A plan resumes only what is there and can be resumed: it never starts behind the bytes
/// that the temp file holds, never in the middle of a file without range support; it splits
/// a download only with a known total that is not zero, range support and more than one
/// connection; and a state made for another total never survives.
pub proof fn lemma_plan_is_sound(
    total: Option<u64>,
    accept_ranges: bool,
    connections: u8,
    existing: u64,
    saved: Option<SavedProgress>,
)
    ensures
        ({
            let plan = planned(total, accept_ranges, connections, existing, saved);
            &&& plan.route matches Route::SingleStream { resume_from } ==> resume_from <= existing
                && (resume_from > 0 ==> accept_ranges)
            &&& plan.route is MultiStream ==> total is Some && total->0 > 0 && accept_ranges
                && connections > 1
            &&& plan.route is Finalize ==> total is Some && total->0 > 0 && existing >= total->0
                && !totals_differ(total, saved)
            &&& totals_differ(total, saved) ==> plan.discard_temp && plan.clear_state
                && !plan.keep_state
            &&& plan.keep_state ==> saved is Some
        }),
{
}

/// What follows the answer to the request of a single-stream download.
#[derive(Clone, Copy, Debug, PartialEq, Eq, Structural)]
pub enum StreamStart {
    /// Write the body to the temp file from this offset on.
    WriteFrom(u64),
    /// The server ignored the range: drop temp file and state, ask again for the whole file
    /// and write it from the start.
    StartOver,
}

/// Whether a single-stream request for the bytes from `resume_from` on carries a `Range`.
pub open spec fn asks_for_range(accept_ranges: bool, resume_from: u64) -> bool {
    accept_ranges && resume_from > 0
}

/// Where the body of status `status` goes: a ranged request must be answered by `206`; any
/// other answer holds the whole file, which replaces what was there.
pub open spec fn stream_start(accept_ranges: bool, resume_from: u64, status: u16) -> StreamStart {
    if asks_for_range(accept_ranges, resume_from) {
        if status == PARTIAL_CONTENT {
            StreamStart::WriteFrom(resume_from)
        } else {
            StreamStart::StartOver
        }
    } else {
        StreamStart::WriteFrom(resume_from)
    }
}

/// Whether a single-stream request for the bytes from `resume_from` on carries a `Range`.
pub fn sends_range(accept_ranges: bool, resume_from: u64) -> (ranged: bool)
    ensures
        ranged == asks_for_range(accept_ranges, resume_from),
{
    accept_ranges && resume_from > 0
}

/// Decides where the body of a single-stream response goes.
pub fn after_stream_response(accept_ranges: bool, resume_from: u64, status: u16) -> (start:
    StreamStart)
    ensures
        start == stream_start(accept_ranges, resume_from, status),
{
    if sends_range(accept_ranges, resume_from) && status != PARTIAL_CONTENT {
        StreamStart::StartOver
    } else {
        StreamStart::WriteFrom(resume_from)
    }
}

/// The state that a multi-stream download of `total` bytes goes on with: the persisted one
/// if there is one, else a fresh one for `part_count` parts; either way laid out for
/// `total`. A persisted part count wins over the one asked for, so that the offsets of what
/// was received stay valid; a persisted state that was made for another total, or whose
/// parts do not match the plan, starts from zero.
pub fn prepare_state(saved: Option<PartialDownloadState>, total: u64, part_count: usize) -> (state:
    PartialDownloadState)
    ensures
        state.total == Some(total),
        state.wf(),
        match saved {
            Some(old) => {
                &&& state.part_count == if old.part_count == 0 {
                    1usize
                } else {
                    old.part_count
                }
                &&& state.parts@ == laid_for(old.total, old.parts@, total, state.part_count)
            },
            None => {
                &&& state.part_count == if part_count == 0 {
                    1usize
                } else {
                    part_count
                }
                &&& state.parts@ == fresh_parts(total, state.part_count)
            },
        },
{
    let mut state = match saved {
        Some(old) => old,
        None => PartialDownloadState::new(Some(total), part_count),
    };
    state.ensure_layout(total);
    proof {
        if saved is None {
            crate::partial_state::lemma_relaid_fresh(total, state.part_count);
        }
    }
    state
}

/// Whether the user is to be told that the download goes on with the persisted number of
/// connections instead of the one asked for.
pub fn honours_saved_count(state: &PartialDownloadState, part_count: usize) -> (differs: bool)
    ensures
        differs == (state.part_count != part_count),
{
    state.part_count != part_count
}

/// The open rest of one part: its index, its range, and how much of it is there.
#[derive(Clone, Copy, Debug, PartialEq, Eq, Structural)]
pub struct PartWork {
    pub index: usize,
    pub start: u64,
    pub end: u64,
    pub downloaded: u64,
}

/// The work that part `index` still asks for, if any: a part that is done asks for none.
pub open spec fn work_of(index: int, part: PartProgress) -> Option<PartWork> {
    if part.is_done() {
        None
    } else {
        Some(
            PartWork {
                index: index as usize,
                start: part.start,
                end: part.end,
                downloaded: part.downloaded,
            },
        )
    }
}

/// The work that `parts` still ask for, in the order of the parts.
pub open spec fn pending(parts: Seq<PartProgress>) -> Seq<PartWork>
    decreases parts.len(),
{
    if parts.len() == 0 {
        Seq::empty()
    } else {
        match work_of(parts.len() - 1, parts.last()) {
            Some(work) => pending(parts.drop_last()).push(work),
            None => pending(parts.drop_last()),
        }
    }
}

/// The work that a state still asks for: one item for each part that is not done.
pub fn work_items(state: &PartialDownloadState) -> (items: Vec<PartWork>)
    ensures
        items@ == pending(state.parts@),
{
    let mut items: Vec<PartWork> = Vec::new();
    let mut i: usize = 0;
    assert(state.parts@.take(0) =~= Seq::<PartProgress>::empty());
    while i < state.parts.len()
        invariant
            i <= state.parts@.len(),
            items@ == pending(state.parts@.take(i as int)),
        decreases state.parts@.len() - i,
    {
        let part = state.parts[i];
        proof {
            let next = state.parts@.take(i as int + 1);
            assert(next.drop_last() =~= state.parts@.take(i as int));
            assert(next.last() == part);
        }
        if part.downloaded < part.len() {
            items.push(
                PartWork { index: i, start: part.start, end: part.end, downloaded: part.downloaded },
            );
        }
        i += 1;
    }
    assert(state.parts@.take(i as int) =~= state.parts@);
    items
}

/// Bytes that the open parts still lack.
pub open spec fn missing_bytes(items: Seq<PartWork>) -> int
    decreases items.len(),
{
    if items.len() == 0 {
        0
    } else {
        missing_bytes(items.drop_last()) + span_len(items.last().start, items.last().end)
            - items.last().downloaded
    }
}

proof fn lemma_pending_prefix(parts: Seq<PartProgress>, total: u64, part_count: usize, k: int)
    requires
        part_count >= 1,
        laid_out(parts, total, part_count),
        0 <= k <= parts.len(),
    ensures
        missing_bytes(pending(parts.take(k))) + completed_sum(parts.take(k)) == if k == 0 {
            0
        } else {
            parts[k - 1].end + 1
        },
        forall|j: int|
            0 <= j < pending(parts.take(k)).len() ==> {
                let work = #[trigger] pending(parts.take(k))[j];
                &&& work.index < k
                &&& work.start == parts[work.index as int].start
                &&& work.end == parts[work.index as int].end
                &&& work.downloaded == parts[work.index as int].downloaded
                &&& work.downloaded < span_len(work.start, work.end)
                &&& (j > 0 ==> pending(parts.take(k))[j - 1].index < work.index)
            },
    decreases k,
{
    if k > 0 {
        lemma_pending_prefix(parts, total, part_count, k - 1);
        let head = parts.take(k - 1);
        let now = parts.take(k);
        assert(now.drop_last() =~= head);
        assert(now.last() == parts[k - 1]);
        let t = total as int;
        let p = part_count as int;
        assert(total > 0) by {
            if total == 0 {
                assert(range_plan(total, part_count).len() == 0);
            }
        }
        crate::range_plan::lemma_plan_shape(t, p);
        crate::range_plan::lemma_part_bounds(t, p, k - 1);
        let last = parts[k - 1];
        assert(last.start == range_plan(total, part_count)[k - 1].start);
        assert(last.end == range_plan(total, part_count)[k - 1].end);
        if k - 1 > 0 {
            crate::range_plan::lemma_part_bounds(t, p, k - 2);
            assert(parts[k - 2].end == range_plan(total, part_count)[k - 2].end);
        }
        let items = pending(now);
        let before = pending(head);
        assert forall|j: int| 0 <= j < items.len() implies {
            let work = #[trigger] items[j];
            &&& work.index < k
            &&& work.start == parts[work.index as int].start
            &&& work.end == parts[work.index as int].end
            &&& work.downloaded == parts[work.index as int].downloaded
            &&& work.downloaded < span_len(work.start, work.end)
            &&& (j > 0 ==> items[j - 1].index < work.index)
        } by {
            if j < before.len() {
                assert(items[j] == before[j]);
                if j > 0 {
                    assert(items[j - 1] == before[j - 1]);
                }
            } else {
                if j > 0 {
                    assert(items[j - 1] == before[j - 1]);
                }
            }
        }
        assert(last.spec_len() == last.end - last.start + 1);
        assert(last.start as int == crate::range_plan::part_start(t, p, k - 1));
        if k - 1 > 0 {
            assert(parts[k - 2].end + 1 == last.start);
        } else {
            assert(crate::range_plan::part_start(t, p, 0) == 0) by (nonlinear_arith)
                requires
                    crate::range_plan::part_start(t, p, 0) == 0 * crate::range_plan::chunk_size(
                        t,
                        p,
                    ),
            ;
        }
        assert(completed_sum(now) == completed_sum(head) + last.counted());
        match work_of(k - 1, last) {
            Some(work) => {
                assert(items == before.push(work));
                assert(items.drop_last() =~= before);
                assert(items.last() == work);
                assert(missing_bytes(items) == missing_bytes(before) + span_len(
                    work.start,
                    work.end,
                ) - work.downloaded);
            },
            None => {
                assert(items == before);
            },
        }
    } else {
        assert(parts.take(0) =~= Seq::<PartProgress>::empty());
    }
}

/// Resuming fetches what is missing and nothing else: in a well-formed state with a known
/// total, the open parts lack exactly the bytes between the counted ones and the total; each
/// item asks for the open rest of its own part, which lies in the file; and the items follow
/// each other in the file, so what two workers write never overlaps.
pub proof fn lemma_work_covers_the_rest(state: PartialDownloadState)
    requires
        state.wf(),
        state.total is Some,
    ensures
        missing_bytes(pending(state.parts@)) + completed_sum(state.parts@) == state.total->0,
        forall|j: int|
            0 <= j < pending(state.parts@).len() ==> {
                let work = #[trigger] pending(state.parts@)[j];
                &&& work.index < state.parts@.len()
                &&& work.start == state.parts@[work.index as int].start
                &&& work.end == state.parts@[work.index as int].end
                &&& work.downloaded == state.parts@[work.index as int].downloaded
                &&& work.start + work.downloaded <= work.end < state.total->0
                &&& (j > 0 ==> pending(state.parts@)[j - 1].index < work.index && pending(
                    state.parts@,
                )[j - 1].end < work.start)
            },
{
    let parts = state.parts@;
    let total = state.total->0;
    lemma_pending_prefix(parts, total, state.part_count, parts.len() as int);
    assert(parts.take(parts.len() as int) =~= parts);
    let items = pending(parts);
    assert forall|j: int| 0 <= j < items.len() implies {
        let work = #[trigger] items[j];
        &&& work.start + work.downloaded <= work.end < total
        &&& (j > 0 ==> items[j - 1].end < work.start)
    } by {
        let work = items[j];
        let t = total as int;
        let p = state.part_count as int;
        assert(total > 0) by {
            if total == 0 {
                assert(range_plan(total, state.part_count).len() == 0);
            }
        }
        crate::range_plan::lemma_part_bounds(t, p, work.index as int);
        assert(parts[work.index as int].start == range_plan(total, state.part_count)[work.index as int].start);
        assert(parts[work.index as int].end == range_plan(total, state.part_count)[work.index as int].end);
        if j > 0 {
            let before = items[j - 1];
            crate::range_plan::lemma_parts_are_apart(t, p, before.index as int, work.index as int);
            crate::range_plan::lemma_part_bounds(t, p, before.index as int);
            assert(parts[before.index as int].end == range_plan(
                total,
                state.part_count,
            )[before.index as int].end);
        }
    }
    if parts.len() == 0 {
        if total > 0 {
            crate::range_plan::lemma_plan_shape(total as int, state.part_count as int);
        }
    } else {
        assert(total > 0) by {
            if total == 0 {
                assert(range_plan(total, state.part_count).len() == 0);
            }
        }
        crate::range_plan::lemma_part_bounds(
            total as int,
            state.part_count as int,
            parts.len() - 1,
        );
        assert(parts[parts.len() - 1].end == range_plan(total, state.part_count)[parts.len()
            - 1].end);
    }
}

/// A part that is not done has its item among the work.
proof fn lemma_open_parts_are_pending(parts: Seq<PartProgress>, k: int, i: int)
    requires
        0 <= i < k <= parts.len(),
        !parts[i].is_done(),
    ensures
        pending(parts.take(k)).contains(work_of(i, parts[i])->0),
    decreases k,
{
    let now = parts.take(k);
    let head = parts.take(k - 1);
    assert(now.drop_last() =~= head);
    assert(now.last() == parts[k - 1]);
    let wanted = work_of(i, parts[i])->0;
    if i == k - 1 {
        let items = pending(now);
        assert(items == pending(head).push(wanted));
        assert(items[items.len() - 1] == wanted);
    } else {
        lemma_open_parts_are_pending(parts, k - 1, i);
        let before = pending(head);
        let j = choose|j: int| 0 <= j < before.len() && before[j] == wanted;
        match work_of(k - 1, parts[k - 1]) {
            Some(work) => {
                assert(pending(now) == before.push(work));
                assert(pending(now)[j] == wanted);
            },
            None => {},
        }
    }
}

/// Whether the item `work` asks for the byte at `offset`: the byte lies in the open rest of
/// the item's part.
pub open spec fn asks_for(work: PartWork, offset: int) -> bool {
    work.start + work.downloaded <= offset <= work.end
}

/// Resuming leaves no byte out: in a well-formed state with a known total, every byte of the
/// file lies in one of the parts, and there it is either among the bytes that the part has
/// received or asked for by the part's item of work.
pub proof fn lemma_every_byte_is_there_or_asked_for(state: PartialDownloadState, offset: int)
    requires
        state.wf(),
        state.total is Some,
        0 <= offset < state.total->0,
    ensures
        exists|i: int|
            0 <= i < state.parts@.len() && (#[trigger] state.parts@[i]).start <= offset
                <= state.parts@[i].end && (offset < state.parts@[i].start
                + state.parts@[i].downloaded || exists|j: int|
                0 <= j < pending(state.parts@).len() && (#[trigger] pending(
                    state.parts@,
                )[j]).index == i && asks_for(pending(state.parts@)[j], offset)),
{
    let parts = state.parts@;
    let total = state.total->0;
    let t = total as int;
    let p = state.part_count as int;
    crate::range_plan::lemma_part_of_offset(t, p, offset);
    let i = offset / crate::range_plan::chunk_size(t, p);
    crate::range_plan::lemma_part_bounds(t, p, i);
    assert(parts[i].start == range_plan(total, state.part_count)[i].start);
    assert(parts[i].end == range_plan(total, state.part_count)[i].end);
    assert(parts[i].start <= offset <= parts[i].end);
    if offset >= parts[i].start + parts[i].downloaded {
        assert(!parts[i].is_done());
        lemma_open_parts_are_pending(parts, parts.len() as int, i);
        assert(parts.take(parts.len() as int) =~= parts);
        let wanted = work_of(i, parts[i])->0;
        let j = choose|j: int| 0 <= j < pending(parts).len() && pending(parts)[j] == wanted;
        crate::range_plan::lemma_plan_shape(t, p);
        assert(i < p <= usize::MAX);
        assert(pending(parts)[j].index == i);
        assert(asks_for(pending(parts)[j], offset));
    }
}

/// A worker's account of its part while the bytes come in.
#[derive(Clone, Copy, Debug, PartialEq, Eq, Structural)]
pub struct WorkerProgress {
    pub index: usize,
    pub start: u64,
    pub end: u64,
    /// Bytes of the part that are in the temp file.
    pub downloaded: u64,
    /// Bytes of the part that are still to come.
    pub remaining: u64,
    /// The value of `downloaded` that was last recorded in the shared state.
    pub last_persisted: u64,
}

/// How a worker ends.
#[derive(Clone, Copy, Debug, PartialEq, Eq, Structural)]
pub struct WorkerEnd {
    /// Whether the worker's progress is to be recorded and persisted once more.
    pub persist: bool,
    /// Bytes that the body ended short of; zero for a part that is whole.
    pub missing: u64,
}

impl WorkerProgress {
    /// Number of bytes the part covers.
    pub open spec fn part_len(&self) -> int {
        span_len(self.start, self.end)
    }

    /// What holds of a worker's account from its start to its end: received and outstanding
    /// bytes make up the part, and nothing was recorded that was not received.
    pub open spec fn wf(&self) -> bool {
        &&& self.downloaded + self.remaining == self.part_len()
        &&& self.last_persisted <= self.downloaded
    }

    /// The account of a worker that takes up `work`: what is there counts as received and
    /// as recorded, capped at the part's length.
    pub fn begin(work: &PartWork) -> (progress: Self)
        ensures
            progress.wf(),
            progress.index == work.index,
            progress.start == work.start,
            progress.end == work.end,
            progress.downloaded == if work.downloaded <= span_len(work.start, work.end) {
                work.downloaded as int
            } else {
                span_len(work.start, work.end)
            },
            progress.last_persisted == progress.downloaded,
    {
        let part = PartProgress { start: work.start, end: work.end, downloaded: work.downloaded };
        let len = part.len();
        let downloaded: u64 = if work.downloaded < len {
            work.downloaded
        } else {
            len
        };
        WorkerProgress {
            index: work.index,
            start: work.start,
            end: work.end,
            downloaded,
            remaining: len - downloaded,
            last_persisted: downloaded,
        }
    }

    /// The offset in the temp file at which the next byte of the part belongs.
    pub open spec fn offset(&self) -> int {
        if self.start + self.downloaded > u64::MAX {
            u64::MAX as int
        } else {
            self.start + self.downloaded
        }
    }

    /// The offset in the temp file at which the next byte of the part belongs.
    pub fn write_offset(&self) -> (offset: u64)
        ensures
            offset == self.offset(),
    {
        self.start.saturating_add(self.downloaded)
    }

    /// The `Range` value that asks for the open rest of the part.
    pub fn request_range(&self) -> (value: String)
        ensures
            value@ == range_between(self.offset() as nat, self.end as nat),
    {
        range_header_between(self.write_offset(), self.end)
    }

    /// How many bytes to read next into a buffer of `buffer_len` bytes: never more than are
    /// still to come.
    pub fn next_read_len(&self, buffer_len: usize) -> (len: usize)
        ensures
            len == if self.remaining < buffer_len {
                self.remaining as int
            } else {
                buffer_len as int
            },
    {
        if self.remaining < buffer_len as u64 {
            self.remaining as usize
        } else {
            buffer_len
        }
    }

    /// Whether the part is whole.
    pub fn is_done(&self) -> (done: bool)
        ensures
            done == (self.remaining == 0),
    {
        self.remaining == 0
    }

    /// Accounts for a block of `read` bytes that was written to the temp file, and tells
    /// whether the progress is to be recorded in the shared state and persisted now: that
    /// is so once [`PARTIAL_STATE_UPDATE_THRESHOLD`] new bytes have come in since the last
    /// time. A block longer than what is still to come counts only that far, and the count
    /// of received bytes saturates.
    pub fn record_block(&mut self, read: usize) -> (persist: bool)
        ensures
            final(self).index == old(self).index,
            final(self).start == old(self).start,
            final(self).end == old(self).end,
            ({
                let counted = if read <= old(self).remaining {
                    read as int
                } else {
                    old(self).remaining as int
                };
                &&& final(self).downloaded == if old(self).downloaded + counted > u64::MAX {
                    u64::MAX as int
                } else {
                    old(self).downloaded + counted
                }
                &&& final(self).remaining == old(self).remaining - counted
                &&& persist == (final(self).downloaded - old(self).last_persisted
                    >= PARTIAL_STATE_UPDATE_THRESHOLD)
                &&& final(self).last_persisted == if persist {
                    final(self).downloaded
                } else {
                    old(self).last_persisted
                }
            }),
            old(self).wf() ==> final(self).wf(),
    {
        let counted: u64 = if (read as u64) < self.remaining {
            read as u64
        } else {
            self.remaining
        };
        let downloaded = self.downloaded.saturating_add(counted);
        let persist = downloaded.saturating_sub(self.last_persisted)
            >= PARTIAL_STATE_UPDATE_THRESHOLD;
        self.downloaded = downloaded;
        self.remaining = self.remaining - counted;
        if persist {
            self.last_persisted = downloaded;
        }
        persist
    }

    /// Closes the account when the body has ended: progress that was not recorded yet is to
    /// be recorded and persisted, and bytes that did not come make the part fail.
    pub fn finish(&self) -> (end: WorkerEnd)
        ensures
            end.persist == (self.downloaded > self.last_persisted),
            end.missing == self.remaining,
    {
        WorkerEnd { persist: self.downloaded > self.last_persisted, missing: self.remaining }
    }
}

/// Whether a worker's request for a range was honoured: only `206` will do.
pub fn range_honoured(status: u16) -> (honoured: bool)
    ensures
        honoured == (status == PARTIAL_CONTENT),
{
    status == PARTIAL_CONTENT
}

/// Why a transfer failed for reasons of its own.
#[derive(Clone, Debug, PartialEq, Eq)]
pub enum DownloadError {
    /// No remote path was given.
    MissingRemotePath,
    /// The remote path is a directory and `--recursive` was not given.
    IsDirectory { remote: String },
    /// The listing of a directory inside the tree could not be had.
    ListingFailed { remote: String },
    /// The server answered a worker's range request with something else than `206`.
    RangeNotHonoured { part: usize },
    /// The body of a part ended before the part was whole.
    Interrupted { part: usize, missing: u64 },
    /// The file that was moved into place has not the length that the server declared.
    SizeMismatch { expected: u64, found: u64 },
}

/// The message of an error.
pub open spec fn error_text(error: DownloadError) -> Seq<char> {
    match error {
        DownloadError::MissingRemotePath => "remote path is required"@,
        DownloadError::IsDirectory { remote } => remote@
            + " is a directory. Pass --recursive to download it."@,
        DownloadError::ListingFailed { remote } => "failed to list directory "@ + remote@,
        DownloadError::RangeNotHonoured { part } => "server did not honor range request for part "@
            + decimal(part as nat),
        DownloadError::Interrupted { part, missing } => "download interrupted for part "@
            + decimal(part as nat) + " ("@ + decimal(missing as nat) + " bytes remaining)"@,
        DownloadError::SizeMismatch { expected, found } =>
            "downloaded file size mismatch (expected "@ + decimal(expected as nat)
                + " bytes, found "@ + decimal(found as nat) + ")"@,
    }
}

impl DownloadError {
    /// The message of the error.
    pub fn message(&self) -> (text: String)
        ensures
            text@ == error_text(*self),
    {
        match self {
            DownloadError::MissingRemotePath => String::from_str("remote path is required"),
            DownloadError::IsDirectory { remote } => {
                let mut text = remote.clone();
                text.append(" is a directory. Pass --recursive to download it.");
                text
            },
            DownloadError::ListingFailed { remote } => {
                let mut text = String::from_str("failed to list directory ");
                text.append(remote.as_str());
                text
            },
            DownloadError::RangeNotHonoured { part } => {
                let mut text = String::from_str("server did not honor range request for part ");
                text.append(usize_to_decimal(*part).as_str());
                text
            },
            DownloadError::Interrupted { part, missing } => {
                let mut text = String::from_str("download interrupted for part ");
                text.append(usize_to_decimal(*part).as_str());
                text.append(" (");
                text.append(u64_to_decimal(*missing).as_str());
                text.append(" bytes remaining)");
                text
            },
            DownloadError::SizeMismatch { expected, found } => {
                let mut text = String::from_str("downloaded file size mismatch (expected ");
                text.append(u64_to_decimal(*expected).as_str());
                text.append(" bytes, found ");
                text.append(u64_to_decimal(*found).as_str());
                text.append(")");
                text
            },
        }
    }
}

/// What a worker returns once the body has ended: its part is whole, or the download was
/// interrupted.
pub fn worker_result(progress: &WorkerProgress) -> (result: Result<(), DownloadError>)
    ensures
        match result {
            Ok(_) => progress.remaining == 0,
            Err(e) => progress.remaining > 0 && e == (DownloadError::Interrupted {
                part: progress.index,
                missing: progress.remaining,
            }),
        },
{
    if progress.remaining > 0 {
        Err(DownloadError::Interrupted { part: progress.index, missing: progress.remaining })
    } else {
        Ok(())
    }
}

/// Checks the length of the file that was moved into place against the declared total:
/// with a known total the two must agree; the length is handed back.
pub fn check_final_size(found: u64, expected: Option<u64>) -> (size: Result<u64, DownloadError>)
    ensures
        match size {
            Ok(n) => n == found && (expected is Some ==> expected->0 == found),
            Err(e) => expected is Some && expected->0 != found && e == (
            DownloadError::SizeMismatch { expected: expected->0, found }),
        },
{
    match expected {
        Some(total) => {
            if total != found {
                Err(DownloadError::SizeMismatch { expected: total, found })
            } else {
                Ok(found)
            }
        },
        None => Ok(found),
    }
}

/// Closes a transfer whose temp file was moved into place: the temp file leaves the
/// registry, whatever the check of the length says, and the length is checked.
pub fn finish_transfer(
    registry: &mut crate::cleanup::TempRegistry,
    temp_path: &str,
    found: u64,
    expected: Option<u64>,
) -> (size: Result<u64, DownloadError>)
    ensures
        final(registry)@ == old(registry)@.remove(temp_path@),
        !final(registry)@.contains(temp_path@),
        match size {
            Ok(n) => n == found && (expected is Some ==> expected->0 == found),
            Err(e) => expected is Some && expected->0 != found && e == (
            DownloadError::SizeMismatch { expected: expected->0, found }),
        },
{
    crate::cleanup::untrack_temp_file(registry, temp_path);
    check_final_size(found, expected)
}

/// What to do with one remote file.
#[derive(Clone, Copy, Debug, PartialEq, Eq, Structural)]
pub enum FileAction {
    /// The local file exists and is to be kept: report, and download nothing.
    Skip,
    /// The remote file is empty: put an empty file into place.
    CreateEmpty,
    /// Download over this many connections.
    Transfer { connections: u8 },
}

/// What to do with one remote file, given the strategy, whether the local target exists,
/// and what the probe found.
pub open spec fn file_action(
    strategy: ExistingFileStrategy,
    target_exists: bool,
    probe: FileProbe,
    connections: u8,
) -> FileAction {
    if strategy is Skip && target_exists {
        FileAction::Skip
    } else if probe.length == Some(0u64) {
        FileAction::CreateEmpty
    } else {
        FileAction::Transfer { connections: effective(connections) }
    }
}

/// Decides what to do with one remote file.
pub fn decide_file_action(
    strategy: ExistingFileStrategy,
    target_exists: bool,
    probe: &FileProbe,
    connections: u8,
) -> (action: FileAction)
    ensures
        action == file_action(strategy, target_exists, *probe, connections),
{
    let skip = match strategy {
        ExistingFileStrategy::Skip => target_exists,
        _ => false,
    };
    if skip {
        return FileAction::Skip;
    }
    match probe.length {
        Some(0) => FileAction::CreateEmpty,
        _ => FileAction::Transfer { connections: effective_connections(connections) },
    }
}

/// What to do with a remote directory whose local target is known to exist or not.
#[derive(Clone, Copy, Debug, PartialEq, Eq, Structural)]
pub enum DirectoryAction {
    /// Download into the target.
    Download,
    /// Download into a numbered duplicate of the target.
    DownloadToDuplicate,
    /// Keep what is there: report, and download nothing.
    Skip,
}

/// What to do with a remote directory.
pub open spec fn directory_action(strategy: ExistingFileStrategy, target_exists: bool)
    -> DirectoryAction {
    if !target_exists {
        DirectoryAction::Download
    } else {
        match strategy {
            ExistingFileStrategy::Overwrite => DirectoryAction::Download,
            ExistingFileStrategy::Skip => DirectoryAction::Skip,
            ExistingFileStrategy::Duplicate => DirectoryAction::DownloadToDuplicate,
        }
    }
}

/// Decides what to do with a remote directory.
pub fn decide_directory_action(strategy: ExistingFileStrategy, target_exists: bool) -> (action:
    DirectoryAction)
    ensures
        action == directory_action(strategy, target_exists),
{
    if !target_exists {
        DirectoryAction::Download
    } else {
        match strategy {
            ExistingFileStrategy::Overwrite => DirectoryAction::Download,
            ExistingFileStrategy::Skip => DirectoryAction::Skip,
            ExistingFileStrategy::Duplicate => DirectoryAction::DownloadToDuplicate,
        }
    }
}

/// The remote path of a download: the given one without the white space around it and
/// behind a `/`. An empty one is refused.
pub fn checked_remote(remote_path: &str) -> (remote: Result<String, DownloadError>)
    ensures
        match remote {
            Ok(path) => crate::text::trimmed(remote_path@).len() > 0 && path@
                == crate::http::with_leading_slash(crate::text::trimmed(remote_path@)),
            Err(e) => crate::text::trimmed(remote_path@).len() == 0 && e
                == DownloadError::MissingRemotePath,
        },
{
    let trimmed = crate::text::trim(remote_path);
    if trimmed.as_str().unicode_len() == 0 {
        Err(DownloadError::MissingRemotePath)
    } else {
        Ok(crate::http::ensure_leading_slash(trimmed.as_str()))
    }
}

/// Refuses to download a directory unless `--recursive` was given.
pub fn check_recursive(remote: &str, recursive: bool) -> (ok: Result<(), DownloadError>)
    ensures
        match ok {
            Ok(_) => recursive,
            Err(e) => !recursive && error_text(e) == remote@
                + " is a directory. Pass --recursive to download it."@ && e is IsDirectory,
        },
{
    if recursive {
        Ok(())
    } else {
        Err(DownloadError::IsDirectory { remote: String::from_str(remote) })
    }
}

/// The remote path of the entry `name` of the directory `remote_dir`; a directory's path
/// ends in a `/`.
pub fn child_remote(remote_dir: &str, name: &str, is_dir: bool) -> (child: String)
    ensures
        child@ == if is_dir {
            crate::http::with_trailing_slash(remote_dir@ + name@)
        } else {
            remote_dir@ + name@
        },
{
    let joined = crate::text::join2(remote_dir, name);
    if is_dir {
        crate::http::ensure_trailing_slash(joined.as_str())
    } else {
        joined
    }
}

/// What the user is told when an existing file is kept. The local length is `None` where it
/// could not be read; `reason` then says why.
pub open spec fn skip_notice(
    path: Seq<char>,
    local: Option<u64>,
    remote: Option<u64>,
    reason: Seq<char>,
) -> Seq<char> {
    match local {
        Some(size) => match remote {
            Some(length) => if size == length {
                "Skipping download; "@ + path + " already exists with matching size ("@ + decimal(
                    length as nat,
                ) + " bytes)"@
            } else {
                "Skipping download; "@ + path + " exists ("@ + decimal(size as nat)
                    + " bytes) but remote reports "@ + decimal(length as nat)
                    + " bytes. Rerun without --skip to replace it."@
            },
            None => "Skipping download; "@ + path + " already exists ("@ + decimal(size as nat)
                + " bytes) and remote size is unknown"@,
        },
        None => "Skipping download; "@ + path
            + " already exists but metadata could not be read: "@ + reason,
    }
}

/// What the user is told when an existing file is kept.
pub fn skip_message(path: &str, local: Option<u64>, remote: Option<u64>, reason: &str) -> (text:
    String)
    ensures
        text@ == skip_notice(path@, local, remote, reason@),
{
    let mut text = String::from_str("Skipping download; ");
    text.append(path);
    match local {
        Some(size) => match remote {
            Some(length) => {
                if size == length {
                    text.append(" already exists with matching size (");
                    text.append(u64_to_decimal(length).as_str());
                    text.append(" bytes)");
                } else {
                    text.append(" exists (");
                    text.append(u64_to_decimal(size).as_str());
                    text.append(" bytes) but remote reports ");
                    text.append(u64_to_decimal(length).as_str());
                    text.append(" bytes. Rerun without --skip to replace it.");
                }
            },
            None => {
                text.append(" already exists (");
                text.append(u64_to_decimal(size).as_str());
                text.append(" bytes) and remote size is unknown");
            },
        },
        None => {
            text.append(" already exists but metadata could not be read: ");
            text.append(reason);
        },
    }
    text
}

/// What the user is told when an existing directory is kept.
pub fn skip_directory_message(path: &str) -> (text: String)
    ensures
        text@ == "Skipping download; local directory "@ + path@ + " already exists"@,
{
    crate::text::join3("Skipping download; local directory ", path, " already exists")
}

/// What the user is told at the end of a download of one file.
pub fn outcome_message(path: &str, skipped: bool) -> (text: String)
    ensures
        text@ == if skipped {
            "Skipped download; keeping existing file at "@ + path@
        } else {
            "Saved to "@ + path@
        },
{
    if skipped {
        crate::text::join2("Skipped download; keeping existing file at ", path)
    } else {
        crate::text::join2("Saved to ", path)
    }
}

/// The number of bytes to report for a finished transfer: the declared total where the
/// server gave one, else what was counted.
pub fn reported_bytes(total: Option<u64>, counted: u64) -> (bytes: u64)
    ensures
        bytes == match total {
            Some(t) => t,
            None => counted,
        },
{
    match total {
        Some(t) => t,
        None => counted,
    }
}

/// What the user is told once the bytes of a file are there.
pub fn downloaded_message(bytes: u64, remote: &str) -> (text: String)
    ensures
        text@ == "Downloaded "@ + decimal(bytes as nat) + " bytes from "@ + remote@,
{
    let mut text = String::from_str("Downloaded ");
    text.append(u64_to_decimal(bytes).as_str());
    text.append(" bytes from ");
    text.append(remote);
    text
}

} // verus!
