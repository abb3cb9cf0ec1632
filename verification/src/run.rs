//! Per-cycle poll state: the previous-poll snapshot, the cursor calculator,
//! the windowed comparison of consecutive timelines, and the state fold that
//! closes a cycle.

use vstd::prelude::*;

use crate::api::{Token, Tweet};
use crate::util::{
    first_diff_sorted_by, first_diff_spec, has_id, sorted_rev, sorted_strict, spec_unix_ms_to_sf,
    unix_ms_to_sf, SF_MS_RANGE, SF_SHIFT, TWEPOCH,
};

verus! {

/// The page size submitted with every request: the maximum the endpoint
/// allows.
pub const MAX_TIMELINE_LEN: usize = 200;

/// The immutable per-process configuration: which list to poll, the safety
/// margin, and the credential to sign with.
pub struct Args {
    pub list_id: u64,
    pub k_ms: u64,
    pub token: Token,
}

/// The snapshot of the previous successful poll: its timeline, the largest
/// identifier observed across all polls so far, and the wall-clock capture
/// time in milliseconds since the Unix epoch.
pub struct State {
    pub timeline: Vec<Tweet>,
    pub latest_id: u64,
    pub retrieved_ms: u64,
}

/// The clamped cursor: `candidate` forced into `[lower, latest_id]`.
pub open spec fn spec_clamp(candidate: int, lower: int, latest_id: int) -> int {
    if candidate < lower {
        lower
    } else if candidate > latest_id {
        latest_id
    } else {
        candidate
    }
}

/// The floor of the cursor window: one less than the smallest identifier of
/// the millisecond `k_ms` before the timestamp carried in `latest_id`.
pub open spec fn spec_lower_bound(latest_id: u64, k_ms: u64) -> int {
    (latest_id / SF_SHIFT - k_ms) * SF_SHIFT - 1
}

/// The cursor candidate derived from the wall-clock capture time: one less
/// than the smallest identifier of the millisecond `k_ms` before it.
pub open spec fn spec_candidate(retrieved_ms: u64, k_ms: u64) -> int {
    spec_unix_ms_to_sf(retrieved_ms - k_ms) - 1
}

impl State {
    /// The snapshot invariant: the stored timeline is descending and its
    /// head never exceeds the largest identifier seen so far.
    pub open spec fn wf(self) -> bool {
        &&& sorted_rev(self.timeline@)
        &&& self.timeline@.len() > 0 ==> self.latest_id >= self.timeline@[0].id
    }

    /// Derives the `since_id` cursor to submit on the next request:
    /// `clamp(candidate, lower, latest_id)`, so the window is never
    /// re-opened earlier than `lower` and never starts past the highest
    /// identifier ever seen.
    ///
    /// The margin `k_ms` must be small enough that neither the identifier
    /// timestamp nor the capture time underflows past the epoch.
    pub fn next_since_id(&self, k_ms: u64) -> (r: u64)
        requires
            k_ms < self.latest_id / SF_SHIFT,
            k_ms < self.retrieved_ms,
            TWEPOCH < self.retrieved_ms - k_ms,
            self.retrieved_ms - k_ms - TWEPOCH < SF_MS_RANGE,
        ensures
            r == spec_clamp(
                spec_candidate(self.retrieved_ms, k_ms),
                spec_lower_bound(self.latest_id, k_ms),
                self.latest_id as int,
            ),
            spec_lower_bound(self.latest_id, k_ms) <= r <= self.latest_id,
            spec_candidate(self.retrieved_ms, k_ms) > self.latest_id ==> r == self.latest_id,
    {
        let lts = self.latest_id / SF_SHIFT;
        proof {
            assert(lts < SF_MS_RANGE);
            assert((lts - k_ms) * SF_SHIFT <= lts * SF_SHIFT <= self.latest_id) by (nonlinear_arith)
                requires
                    0 <= k_ms < lts,
                    lts == self.latest_id / SF_SHIFT,
                    SF_SHIFT > 0,
            ;
            assert((lts - k_ms) * SF_SHIFT >= 1 * SF_SHIFT) by (nonlinear_arith)
                requires
                    k_ms < lts,
                    SF_SHIFT > 0,
            ;
        }
        let lower = (lts - k_ms) * SF_SHIFT - 1;
        let cand = unix_ms_to_sf(self.retrieved_ms - k_ms) - 1;
        if cand < lower {
            lower
        } else if cand > self.latest_id {
            self.latest_id
        } else {
            cand
        }
    }
}

/// The boundary of a cursor window in a descending timeline: the index
/// splitting the items with identifier above `bound` (before it) from the
/// rest (at or after it), found by binary search.
pub fn window_split(tl: &[Tweet], bound: u64) -> (i: usize)
    requires
        sorted_rev(tl@),
    ensures
        i <= tl@.len(),
        forall|j: int| 0 <= j < i ==> #[trigger] tl@[j].id > bound,
        forall|j: int| i <= j < tl@.len() ==> #[trigger] tl@[j].id <= bound,
{
    let mut lo: usize = 0;
    let mut hi: usize = tl.len();
    while lo < hi
        invariant
            lo <= hi <= tl@.len(),
            sorted_rev(tl@),
            forall|j: int| 0 <= j < lo ==> #[trigger] tl@[j].id > bound,
            forall|j: int| hi <= j < tl@.len() ==> #[trigger] tl@[j].id <= bound,
        decreases hi - lo,
    {
        let mid = lo + (hi - lo) / 2;
        if tl[mid].id > bound {
            proof {
                assert(forall|j: int| 0 <= j <= mid ==> #[trigger] tl@[j].id >= tl@[mid as int].id);
            }
            lo = mid + 1;
        } else {
            proof {
                assert(forall|j: int| mid <= j < tl@.len() ==> tl@[mid as int].id
                    >= #[trigger] tl@[j].id);
            }
            hi = mid;
        }
    }
    lo
}

/// The part of the previous page that the new cursor should still cover:
/// exactly the items with identifier strictly above `since_id`.
pub open spec fn window_old(prev: Seq<Tweet>, since_id: u64) -> Seq<Tweet> {
    prev.filter(|t: Tweet| t.id > since_id)
}

/// The part of the new page that overlaps previously-seen territory:
/// exactly the items with identifier at or below `latest_id`.
pub open spec fn window_new(cur: Seq<Tweet>, latest_id: u64) -> Seq<Tweet> {
    cur.filter(|t: Tweet| t.id <= latest_id)
}

/// The windowing law for the old page: in a descending timeline split at
/// the boundary index that the binary search finds, the prefix holds
/// exactly the items satisfying `id > since_id`.
pub proof fn lemma_prefix_is_window_old(s: Seq<Tweet>, since_id: u64, i: int)
    requires
        0 <= i <= s.len(),
        forall|j: int| 0 <= j < i ==> #[trigger] s[j].id > since_id,
        forall|j: int| i <= j < s.len() ==> #[trigger] s[j].id <= since_id,
    ensures
        s.subrange(0, i) =~= window_old(s, since_id),
    decreases s.len(),
{
    reveal(Seq::filter);
    if s.len() == 0 {
    } else if i < s.len() {
        assert(s.last().id <= since_id);
        lemma_prefix_is_window_old(s.drop_last(), since_id, i);
        assert(window_old(s, since_id) == window_old(s.drop_last(), since_id));
        assert(s.subrange(0, i) =~= s.drop_last().subrange(0, i));
    } else {
        assert(s.last().id > since_id);
        lemma_prefix_is_window_old(s.drop_last(), since_id, i - 1);
        assert(window_old(s, since_id) == window_old(s.drop_last(), since_id).push(s.last()));
        assert(s.subrange(0, i - 1) =~= s.drop_last().subrange(0, i - 1));
        assert(s.subrange(0, i) =~= s.subrange(0, i - 1).push(s.last()));
    }
}

/// The windowing law for the new page, mirror image of
/// [`lemma_prefix_is_window_old`]: the suffix from the boundary on holds
/// exactly the items satisfying `id <= latest_id`.
pub proof fn lemma_suffix_is_window_new(s: Seq<Tweet>, latest_id: u64, i: int)
    requires
        0 <= i <= s.len(),
        forall|j: int| 0 <= j < i ==> #[trigger] s[j].id > latest_id,
        forall|j: int| i <= j < s.len() ==> #[trigger] s[j].id <= latest_id,
    ensures
        s.subrange(i, s.len() as int) =~= window_new(s, latest_id),
    decreases s.len(),
{
    reveal(Seq::filter);
    if s.len() == 0 {
    } else if i < s.len() {
        assert(s.last().id <= latest_id);
        lemma_suffix_is_window_new(s.drop_last(), latest_id, i);
        assert(window_new(s, latest_id) == window_new(s.drop_last(), latest_id).push(s.last()));
        assert(s.subrange(i, s.len() as int) =~= s.drop_last().subrange(
            i,
            s.drop_last().len() as int,
        ).push(s.last()));
    } else {
        assert(s.last().id > latest_id);
        lemma_suffix_is_window_new(s.drop_last(), latest_id, i - 1);
        assert(window_new(s, latest_id) == window_new(s.drop_last(), latest_id));
        assert(s.subrange(i, s.len() as int) =~= Seq::<Tweet>::empty());
        assert(s.drop_last().subrange(i - 1, s.drop_last().len() as int)
            =~= Seq::<Tweet>::empty());
    }
}

/// Runs the overlap comparison of one cycle: slices the previous and the
/// current timeline to their overlapping windows and returns the first
/// item of the new window with no counterpart in the old one — the first
/// leaked item — or `None` when the windows agree.
pub fn find_leak(prev_tl: &Vec<Tweet>, current: &Vec<Tweet>, since_id: u64, latest_id: u64) -> (r:
    Option<Tweet>)
    requires
        sorted_rev(prev_tl@),
        sorted_rev(current@),
    ensures
        sorted_strict(current@) ==> r == first_diff_spec(
            window_new(current@, latest_id),
            window_old(prev_tl@, since_id),
        ),
        r matches Some(t) ==> exists|i: int| 0 <= i < current@.len() && current@[i] == t,
{
    let io = window_split(prev_tl.as_slice(), since_id);
    let old_window = vstd::slice::slice_subrange(prev_tl.as_slice(), 0, io);
    let in_ = window_split(current.as_slice(), latest_id);
    let new_window = vstd::slice::slice_subrange(current.as_slice(), in_, current.len());
    proof {
        assert(old_window@ =~= prev_tl@.subrange(0, io as int));
        assert(new_window@ =~= current@.subrange(in_ as int, current@.len() as int));
        lemma_prefix_is_window_old(prev_tl@, since_id, io as int);
        lemma_suffix_is_window_new(current@, latest_id, in_ as int);
        assert(sorted_rev(old_window@));
        assert(sorted_rev(new_window@));
        if sorted_strict(current@) {
            assert(sorted_strict(new_window@));
        }
    }
    let r = first_diff_sorted_by(new_window, old_window);
    proof {
        match r {
            Some(t) => {
                let w = choose|i: int| 0 <= i < new_window@.len() && new_window@[i] == t;
                assert(current@[in_ + w] == t);
            },
            None => {},
        }
    }
    r
}

/// Whether some item of the timeline carries the identifier `id` — the
/// verification step's test for the leaked item in the follow-up page.
pub fn contains_id(tl: &Vec<Tweet>, id: u64) -> (r: bool)
    ensures
        r == has_id(tl@, id),
{
    let mut k: usize = 0;
    while k < tl.len()
        invariant
            k <= tl@.len(),
            forall|i: int| 0 <= i < k ==> #[trigger] tl@[i].id != id,
        decreases tl@.len() - k,
    {
        if tl[k].id == id {
            return true;
        }
        k += 1;
    }
    false
}

/// Closes a successful no-leak cycle: folds the freshly retrieved timeline
/// into the snapshot.
///
/// With an existing snapshot, the largest-seen identifier is raised to the
/// new timeline's head when that head exceeds it, the capture time is
/// refreshed, and the timelines are swapped so the old buffer is reused for
/// the next capture. With no snapshot yet, a non-empty first timeline
/// initializes one, and an empty one leaves the store absent.
pub fn fold_state(previous_state: &mut Option<State>, timeline: &mut Vec<Tweet>, retrieved_ms: u64)
    ensures
        (*old(previous_state)) matches Some(s) ==> {
            &&& (*final(previous_state)) matches Some(n)
            &&& n.timeline@ == old(timeline)@
            &&& n.retrieved_ms == retrieved_ms
            &&& n.latest_id == if old(timeline)@.len() > 0 && old(timeline)@[0].id > s.latest_id {
                old(timeline)@[0].id
            } else {
                s.latest_id
            }
            &&& final(timeline)@ == s.timeline@
        },
        (*old(previous_state)) is None && old(timeline)@.len() > 0 ==> {
            &&& (*final(previous_state)) matches Some(n)
            &&& n.timeline@ == old(timeline)@
            &&& n.latest_id == old(timeline)@[0].id
            &&& n.retrieved_ms == retrieved_ms
            &&& final(timeline)@.len() == 0
        },
        (*old(previous_state)) is None && old(timeline)@.len() == 0 ==> {
            &&& (*final(previous_state)) is None
            &&& final(timeline)@ == old(timeline)@
        },
        sorted_rev(old(timeline)@) && ((*old(previous_state)) matches Some(s) ==> s.wf()) ==> (
        (*final(previous_state)) matches Some(n) ==> n.wf()),
{
    match previous_state.take() {
        Some(mut previous) => {
            if timeline.len() > 0 {
                let head_id = timeline[0].id;
                if head_id > previous.latest_id {
                    previous.latest_id = head_id;
                }
            }
            previous.retrieved_ms = retrieved_ms;
            core::mem::swap(&mut previous.timeline, timeline);
            *previous_state = Some(previous);
        },
        None => {
            if timeline.len() > 0 {
                let latest_id = timeline[0].id;
                let mut tl: Vec<Tweet> = Vec::new();
                core::mem::swap(&mut tl, timeline);
                *previous_state = Some(State { timeline: tl, latest_id, retrieved_ms });
            }
        },
    }
}

} // verus!
