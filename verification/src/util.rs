//! Time conversions, the Snowflake millisecond codec, and the sorted-set
//! difference that drives leak detection.
//!
//! A Snowflake identifier is a 64-bit unsigned integer whose high 42 bits
//! encode milliseconds since a fixed epoch ([`TWEPOCH`]) and whose low 22
//! bits encode an intra-millisecond sequence value.

use vstd::prelude::*;

use crate::api::Tweet;
use vstd::pervasive::VecAdditionalExecFns;

verus! {

/// The timeline invariant: identifiers never increase along the sequence
/// (reverse chronological order).
pub open spec fn sorted_rev(s: Seq<Tweet>) -> bool {
    forall|i: int, j: int| #![trigger s[i], s[j]] 0 <= i < j < s.len() ==> s[i].id >= s[j].id
}

/// Strictly descending identifiers: the timeline invariant plus uniqueness.
pub open spec fn sorted_strict(s: Seq<Tweet>) -> bool {
    forall|i: int, j: int| #![trigger s[i], s[j]] 0 <= i < j < s.len() ==> s[i].id > s[j].id
}

/// Whether some item of `s` carries the identifier `id`.
pub open spec fn has_id(s: Seq<Tweet>, id: u64) -> bool {
    exists|i: int| 0 <= i < s.len() && #[trigger] s[i].id == id
}

/// The first element of the set difference `x - y`, going by identifiers:
/// the first item of `x` (in `x`'s order) whose identifier appears nowhere
/// in `y`, or `None` when every identifier of `x` appears in `y`.
pub open spec fn first_diff_spec(x: Seq<Tweet>, y: Seq<Tweet>) -> Option<Tweet>
    decreases x.len(),
{
    if x.len() == 0 {
        None
    } else if !has_id(y, x[0].id) {
        Some(x[0])
    } else {
        first_diff_spec(x.drop_first(), y)
    }
}

/// When every identifier of `x` appears in `y` — in particular when `x` is
/// a subsequence of `y` — the difference is empty: no leak is reported.
pub proof fn lemma_first_diff_all_present(x: Seq<Tweet>, y: Seq<Tweet>)
    requires
        forall|i: int| 0 <= i < x.len() ==> has_id(y, #[trigger] x[i].id),
    ensures
        first_diff_spec(x, y) is None,
    decreases x.len(),
{
    if x.len() > 0 {
        assert(has_id(y, x[0].id));
        assert(forall|i: int| 0 <= i < x.drop_first().len() ==> has_id(
            y,
            #[trigger] x.drop_first()[i].id,
        )) by {
            assert(forall|i: int| 0 <= i < x.drop_first().len() ==> x.drop_first()[i] == x[i + 1]);
        }
        lemma_first_diff_all_present(x.drop_first(), y);
    }
}

/// When `x` holds an identifier absent from `y`, the first such item (in
/// `x`'s order) is the result: earlier items of `x`, all present in `y`,
/// do not affect it.
pub proof fn lemma_first_diff_first_missing(x: Seq<Tweet>, y: Seq<Tweet>, i: int)
    requires
        0 <= i < x.len(),
        !has_id(y, x[i].id),
        forall|j: int| 0 <= j < i ==> has_id(y, #[trigger] x[j].id),
    ensures
        first_diff_spec(x, y) == Some(x[i]),
    decreases i,
{
    if i == 0 {
    } else {
        assert(has_id(y, x[0].id));
        assert(x.drop_first()[i - 1] == x[i]);
        assert(forall|j: int| 0 <= j < i - 1 ==> x.drop_first()[j] == x[j + 1]);
        lemma_first_diff_first_missing(x.drop_first(), y, i - 1);
    }
}

/// Dropping the head of `y` leaves the difference unchanged when that head
/// is larger than every identifier in `x`: it can match nothing there.
proof fn lemma_first_diff_skip_y(x: Seq<Tweet>, y: Seq<Tweet>)
    requires
        y.len() > 0,
        forall|j: int| 0 <= j < x.len() ==> y[0].id > #[trigger] x[j].id,
    ensures
        first_diff_spec(x, y) == first_diff_spec(x, y.drop_first()),
    decreases x.len(),
{
    if x.len() > 0 {
        assert(y[0].id > x[0].id);
        assert(has_id(y, x[0].id) == has_id(y.drop_first(), x[0].id)) by {
            if has_id(y, x[0].id) {
                let w = choose|i: int| 0 <= i < y.len() && #[trigger] y[i].id == x[0].id;
                assert(w != 0);
                assert(y.drop_first()[w - 1].id == x[0].id);
            }
            if has_id(y.drop_first(), x[0].id) {
                let w = choose|i: int|
                    0 <= i < y.drop_first().len() && #[trigger] y.drop_first()[i].id == x[0].id;
                assert(y[w + 1].id == x[0].id);
            }
        }
        assert(forall|j: int| 0 <= j < x.drop_first().len() ==> y[0].id
            > #[trigger] x.drop_first()[j].id) by {
            assert(forall|j: int| 0 <= j < x.drop_first().len() ==> x.drop_first()[j] == x[j + 1]);
        }
        lemma_first_diff_skip_y(x.drop_first(), y);
    }
}

/// Returns the first element of the set difference `x - y`, assuming both
/// sequences are sorted in descending identifier order.
///
/// The walk advances through `y` consuming items with strictly larger
/// identifiers, never backtracking, so it is linear in the combined
/// lengths. When the identifiers of `x` are unique (the strict timeline
/// invariant), the result is exactly [`first_diff_spec`].
pub fn first_diff_sorted_by(x: &[Tweet], y: &[Tweet]) -> (r: Option<Tweet>)
    requires
        sorted_rev(x@),
        sorted_rev(y@),
    ensures
        sorted_strict(x@) ==> r == first_diff_spec(x@, y@),
        r matches Some(t) ==> exists|i: int| 0 <= i < x@.len() && x@[i] == t,
        r is None ==> forall|i: int| 0 <= i < x@.len() ==> has_id(y@, #[trigger] x@[i].id),
{
    let mut xi: usize = 0;
    let mut yi: usize = 0;
    proof {
        assert(x@.skip(0) =~= x@);
        assert(y@.skip(0) =~= y@);
    }
    while xi < x.len()
        invariant
            xi <= x@.len(),
            yi <= y@.len(),
            sorted_rev(x@),
            sorted_rev(y@),
            forall|j: int| 0 <= j < xi ==> has_id(y@, #[trigger] x@[j].id),
            sorted_strict(x@) ==> first_diff_spec(x@, y@) == first_diff_spec(
                x@.skip(xi as int),
                y@.skip(yi as int),
            ),
        decreases x@.len() - xi + y@.len() - yi,
    {
        let ghost xs = x@.skip(xi as int);
        let ghost ys = y@.skip(yi as int);
        proof {
            assert(forall|j: int| 0 <= j < xs.len() ==> xs[j] == x@[xi + j]);
            assert(forall|j: int| 0 <= j < ys.len() ==> ys[j] == y@[yi + j]);
        }
        if yi >= y.len() || y[yi].id < x[xi].id {
            proof {
                if sorted_strict(x@) {
                    assert(!has_id(ys, xs[0].id)) by {
                        if has_id(ys, xs[0].id) {
                            let w = choose|i: int|
                                0 <= i < ys.len() && #[trigger] ys[i].id == xs[0].id;
                            assert(ys[0].id >= ys[w].id);
                        }
                    }
                }
            }
            return Some(x[xi]);
        } else if y[yi].id == x[xi].id {
            proof {
                assert(has_id(y@, x@[xi as int].id)) by {
                    assert(y@[yi as int].id == x@[xi as int].id);
                }
                if sorted_strict(x@) {
                    assert(ys[0].id == xs[0].id);
                    assert(has_id(ys, xs[0].id));
                    assert(forall|j: int| 0 <= j < xs.drop_first().len() ==> ys[0].id
                        > #[trigger] xs.drop_first()[j].id) by {
                        assert(forall|j: int| 0 <= j < xs.drop_first().len() ==> xs.drop_first()[j]
                            == xs[j + 1]);
                        assert(forall|j: int| 0 <= j < xs.len() ==> xs[j] == x@[xi + j]);
                    }
                    lemma_first_diff_skip_y(xs.drop_first(), ys);
                    assert(xs.drop_first() =~= x@.skip(xi + 1));
                    assert(ys.drop_first() =~= y@.skip(yi + 1));
                }
            }
            xi += 1;
            yi += 1;
        } else {
            proof {
                if sorted_strict(x@) {
                    assert(forall|j: int| 0 <= j < xs.len() ==> ys[0].id > #[trigger] xs[j].id);
                    lemma_first_diff_skip_y(xs, ys);
                    assert(ys.drop_first() =~= y@.skip(yi + 1));
                }
            }
            yi += 1;
        }
    }
    proof {
        if sorted_strict(x@) {
            assert(x@.skip(xi as int).len() == 0);
        }
    }
    None
}

/// The check behind the timeline invariant: whether a slice is already in
/// descending identifier order.
pub trait SliceIsSortedExt {
    /// What "sorted" means for the implementing slice type.
    spec fn sorted_rev_spec(&self) -> bool;

    /// Reports whether the slice is sorted in descending identifier order.
    fn is_sorted_by(&self) -> (r: bool)
        ensures
            r == self.sorted_rev_spec(),
    ;
}

impl SliceIsSortedExt for [Tweet] {
    open spec fn sorted_rev_spec(&self) -> bool {
        sorted_rev(self@)
    }

    fn is_sorted_by(&self) -> (r: bool) {
        if self.len() <= 1 {
            return true;
        }
        let mut k: usize = 1;
        while k < self.len()
            invariant
                1 <= k <= self@.len(),
                forall|i: int, j: int| #![trigger self@[i], self@[j]] 0 <= i < j < k ==> self@[i].id
                    >= self@[j].id,
            decreases self@.len() - k,
        {
            if self[k - 1].id < self[k].id {
                assert(!sorted_rev(self@)) by {
                    assert(self@[k - 1].id < self@[k as int].id);
                }
                return false;
            }
            assert(forall|i: int, j: int| #![trigger self@[i], self@[j]] 0 <= i < j < k + 1
                ==> self@[i].id >= self@[j].id) by {
                assert(forall|i: int| 0 <= i < k ==> #[trigger] self@[i].id >= self@[k - 1].id);
            }
            k += 1;
        }
        true
    }
}

/// Restores the timeline invariant: sorts items into descending identifier
/// order, keeping exactly the same items (selection sort by maximum).
pub fn sort_timeline(tl: &mut Vec<Tweet>)
    ensures
        sorted_rev(final(tl)@),
        final(tl)@.to_multiset() == old(tl)@.to_multiset(),
        final(tl)@.len() == old(tl)@.len(),
{
    let n = tl.len();
    let mut i: usize = 0;
    while i < n
        invariant
            n == tl@.len(),
            i <= n,
            tl@.to_multiset() == old(tl)@.to_multiset(),
            tl@.len() == old(tl)@.len(),
            forall|p: int, q: int| #![trigger tl@[p], tl@[q]] 0 <= p < q < i ==> tl@[p].id
                >= tl@[q].id,
            forall|p: int, q: int| #![trigger tl@[p], tl@[q]] 0 <= p < i <= q < n ==> tl@[p].id
                >= tl@[q].id,
        decreases n - i,
    {
        let mut m: usize = i;
        let mut j: usize = i + 1;
        while j < n
            invariant
                i <= m < j <= n,
                n == tl@.len(),
                forall|q: int| i <= q < j ==> tl@[m as int].id >= #[trigger] tl@[q].id,
            decreases n - j,
        {
            if tl[j].id > tl[m].id {
                m = j;
            }
            j += 1;
        }
        if m != i {
            let ghost s = tl@;
            let a = tl[i];
            let b = tl[m];
            tl.set(i, b);
            tl.set(m, a);
            proof {
                broadcast use vstd::seq_lib::group_to_multiset_ensures;

                assert(s.contains(a)) by {
                    assert(s[i as int] == a);
                }
                assert(s.update(i as int, b)[m as int] == b);
                assert(tl@ == s.update(i as int, b).update(m as int, a));
                assert(s.update(i as int, b).to_multiset() == s.to_multiset().insert(b).remove(
                    s[i as int],
                ));
                assert(tl@.to_multiset() =~= s.to_multiset());
            }
        }
        proof {
            assert(forall|p: int, q: int| #![trigger tl@[p], tl@[q]] 0 <= p < q < i + 1
                ==> tl@[p].id >= tl@[q].id) by {
                assert(forall|q: int| i <= q < n ==> tl@[i as int].id >= #[trigger] tl@[q].id);
            }
        }
        i += 1;
    }
}

/// Milliseconds between the Unix epoch and the epoch of the Snowflake
/// identifier scheme.
pub const TWEPOCH: u64 = 1288834974657;

/// One more than the largest millisecond offset representable in the high
/// 42 bits of an identifier.
pub const SF_MS_RANGE: u64 = 0x400_0000_0000;

/// The weight of the low 22 bits of an identifier: encoding a millisecond
/// value multiplies by this, decoding divides.
pub const SF_SHIFT: u64 = 0x40_0000;

/// The millisecond offset from the Snowflake epoch, encoded into the high
/// bits of an identifier (mathematical version, unbounded).
pub open spec fn spec_unix_ms_to_sf(unix_ms: int) -> int {
    (unix_ms - TWEPOCH) * SF_SHIFT
}

/// The millisecond timestamp (relative to the Unix epoch) carried in the
/// high 42 bits of an identifier.
pub open spec fn spec_sf_to_unix_ms(sf: int) -> int {
    sf / (SF_SHIFT as int) + TWEPOCH
}

/// A raw reading of the system clock, as its distance from the Unix epoch:
/// a direction flag and a magnitude in whole seconds plus nanoseconds.
#[derive(Clone, Copy, Debug, PartialEq, Eq, Structural)]
pub struct SysTime {
    /// True when the clock reads earlier than the Unix epoch.
    pub before_epoch: bool,
    pub secs: u64,
    pub nanos: u32,
}

/// A duration since the Unix epoch in whole seconds plus nanoseconds.
#[derive(Clone, Copy, Debug, PartialEq, Eq, Structural)]
pub struct UnixDuration {
    pub secs: u64,
    pub nanos: u32,
}

impl SysTime {
    pub open spec fn wf(self) -> bool {
        self.nanos < 1_000_000_000
    }
}

impl UnixDuration {
    pub open spec fn wf(self) -> bool {
        self.nanos < 1_000_000_000
    }

    /// The duration in whole milliseconds (mathematical version).
    pub open spec fn spec_ms(self) -> int {
        self.secs * 1000 + self.nanos / 1_000_000
    }
}

/// A clock value on which identifier arithmetic is meaningless: the clock
/// reads before the Snowflake epoch, or past the representable range.
#[derive(Clone, Copy, Debug, PartialEq, Eq, Structural)]
pub enum ClockError {
    BeforeEpoch,
    BeyondRange,
}

/// Interprets a clock reading as a duration since the Unix epoch, rejecting
/// clocks that predate it.
pub fn time_to_unix(time: &SysTime) -> (r: Result<UnixDuration, ClockError>)
    ensures
        time.before_epoch ==> r == Err::<UnixDuration, ClockError>(ClockError::BeforeEpoch),
        !time.before_epoch ==> r == Ok::<UnixDuration, ClockError>(
            UnixDuration { secs: time.secs, nanos: time.nanos },
        ),
{
    if time.before_epoch {
        Err(ClockError::BeforeEpoch)
    } else {
        Ok(UnixDuration { secs: time.secs, nanos: time.nanos })
    }
}

/// Converts a duration since the Unix epoch to whole milliseconds, rejecting
/// values that exceed what a 64-bit count can hold.
pub fn unix_to_ms(unix: &UnixDuration) -> (r: Result<u64, ClockError>)
    ensures
        unix.spec_ms() <= u64::MAX ==> r == Ok::<u64, ClockError>(unix.spec_ms() as u64),
        unix.spec_ms() > u64::MAX ==> r == Err::<u64, ClockError>(ClockError::BeyondRange),
{
    let ms: u128 = unix.secs as u128 * 1000 + (unix.nanos / 1_000_000) as u128;
    if ms > u64::MAX as u128 {
        Err(ClockError::BeyondRange)
    } else {
        Ok(ms as u64)
    }
}

/// Reads a clock value as milliseconds since the Unix epoch.
pub fn time_to_unix_ms(time: &SysTime) -> (r: Result<u64, ClockError>)
    ensures
        time.before_epoch ==> r == Err::<u64, ClockError>(ClockError::BeforeEpoch),
        !time.before_epoch && time.secs * 1000 + time.nanos / 1_000_000 <= u64::MAX ==> r
            == Ok::<u64, ClockError>((time.secs * 1000 + time.nanos / 1_000_000) as u64),
        !time.before_epoch && time.secs * 1000 + time.nanos / 1_000_000 > u64::MAX ==> r
            == Err::<u64, ClockError>(ClockError::BeyondRange),
{
    let unix = time_to_unix(time)?;
    unix_to_ms(&unix)
}

/// Encodes a millisecond offset from the Unix epoch into the smallest
/// Snowflake identifier of that millisecond (the offset from the Snowflake
/// epoch shifted into the high 42 bits, the low 22 bits zero).
///
/// Inputs earlier than the Snowflake epoch, or beyond the 42-bit range of
/// the timestamp field, are excluded; see [`unix_ms_to_sf_checked`] for the
/// total version.
pub fn unix_ms_to_sf(unix_ms: u64) -> (r: u64)
    requires
        TWEPOCH <= unix_ms,
        unix_ms - TWEPOCH < SF_MS_RANGE,
    ensures
        r == spec_unix_ms_to_sf(unix_ms as int),
{
    proof {
        assert((unix_ms - TWEPOCH) * SF_SHIFT <= (SF_MS_RANGE - 1) * SF_SHIFT) by (nonlinear_arith)
            requires
                unix_ms - TWEPOCH < SF_MS_RANGE,
                TWEPOCH <= unix_ms,
        ;
    }
    (unix_ms - TWEPOCH) * SF_SHIFT
}

/// Total version of [`unix_ms_to_sf`]: reports the clock fault instead of
/// excluding the input.
pub fn unix_ms_to_sf_checked(unix_ms: u64) -> (r: Result<u64, ClockError>)
    ensures
        unix_ms < TWEPOCH ==> r == Err::<u64, ClockError>(ClockError::BeforeEpoch),
        TWEPOCH <= unix_ms && unix_ms - TWEPOCH >= SF_MS_RANGE ==> r == Err::<u64, ClockError>(
            ClockError::BeyondRange,
        ),
        TWEPOCH <= unix_ms && unix_ms - TWEPOCH < SF_MS_RANGE ==> r == Ok::<u64, ClockError>(
            spec_unix_ms_to_sf(unix_ms as int) as u64,
        ),
{
    if unix_ms < TWEPOCH {
        Err(ClockError::BeforeEpoch)
    } else if unix_ms - TWEPOCH >= SF_MS_RANGE {
        Err(ClockError::BeyondRange)
    } else {
        Ok(unix_ms_to_sf(unix_ms))
    }
}

/// Decodes the millisecond timestamp (relative to the Unix epoch) from the
/// high 42 bits of an identifier.
pub fn sf_to_unix_ms(sf: u64) -> (r: u64)
    ensures
        r == spec_sf_to_unix_ms(sf as int),
{
    sf / SF_SHIFT + TWEPOCH
}

/// Round trip of the codec: encoding a millisecond timestamp and decoding
/// the result yields the original value. Only identifiers aligned to a
/// millisecond boundary are representable, so nothing is lost here.
pub proof fn lemma_sf_round_trip(unix_ms: u64)
    requires
        TWEPOCH <= unix_ms,
        unix_ms - TWEPOCH < SF_MS_RANGE,
    ensures
        spec_sf_to_unix_ms(spec_unix_ms_to_sf(unix_ms as int)) == unix_ms,
{
    let d = unix_ms - TWEPOCH;
    assert((d * SF_SHIFT) / (SF_SHIFT as int) == d) by (nonlinear_arith)
        requires
            d >= 0,
    ;
}

} // verus!
