use leaky_snowflake_observer::api::{Tweet, User};
use leaky_snowflake_observer::run::{contains_id, find_leak, fold_state, window_split, State};
use leaky_snowflake_observer::util::{first_diff_sorted_by, sort_timeline, SliceIsSortedExt};

fn tw(id: u64) -> Tweet {
    Tweet {
        id,
        user: User { id: id + 1000 },
    }
}

fn tl(ids: &[u64]) -> Vec<Tweet> {
    ids.iter().map(|&id| tw(id)).collect()
}

#[test]
fn window_split_finds_boundary() {
    let t = tl(&[10, 8, 6, 4]);
    assert_eq!(window_split(&t, 6), 2);
    assert_eq!(window_split(&t, 5), 3);
    assert_eq!(window_split(&t, 11), 0);
    assert_eq!(window_split(&t, 3), 4);
    assert_eq!(window_split(&t, 10), 0);
    assert_eq!(window_split(&t, 9), 1);
}

#[test]
fn window_split_empty() {
    let t = tl(&[]);
    assert_eq!(window_split(&t, 5), 0);
}

#[test]
fn first_diff_none_when_subsequence() {
    let x = tl(&[9, 7, 5]);
    let y = tl(&[9, 8, 7, 6, 5]);
    assert_eq!(first_diff_sorted_by(&x, &y), None);
}

#[test]
fn first_diff_reports_first_missing() {
    let x = tl(&[9, 6, 5]);
    let y = tl(&[9, 8, 7, 5]);
    assert_eq!(first_diff_sorted_by(&x, &y), Some(tw(6)));
    // A later missing element is only reported once the earlier ones match.
    let x = tl(&[9, 7, 4]);
    assert_eq!(first_diff_sorted_by(&x, &y), Some(tw(4)));
}

#[test]
fn first_diff_exhausted_y() {
    let x = tl(&[9, 2]);
    let y = tl(&[9, 8, 7]);
    assert_eq!(first_diff_sorted_by(&x, &y), Some(tw(2)));
    let y = tl(&[]);
    assert_eq!(first_diff_sorted_by(&x, &y), Some(tw(9)));
}

#[test]
fn first_diff_empty_x() {
    let x = tl(&[]);
    let y = tl(&[9, 8]);
    assert_eq!(first_diff_sorted_by(&x, &y), None);
}

#[test]
fn leak_boundary_scenario() {
    // Previous timeline [105, 104, 103] with latest_id 105 and a cursor of
    // 102; the new page reads [107, 106, 104]. The old window keeps ids
    // above 102, the new window keeps ids at or below 105 — that is [104]
    // — and 104 has its counterpart, so no leak is reported (in
    // particular, none for 105).
    let prev = tl(&[105, 104, 103]);
    let current = tl(&[107, 106, 104]);
    assert_eq!(find_leak(&prev, &current, 102, 105), None);
}

#[test]
fn leak_detected_for_newly_surfaced_item() {
    // 104 is old enough to fall inside the overlap (at or below the
    // previous latest 105) yet the previous page never showed it: the
    // cursor leaked it, and it is reported.
    let prev = tl(&[105, 103]);
    let current = tl(&[107, 104]);
    assert_eq!(find_leak(&prev, &current, 102, 105), Some(tw(104)));
}

#[test]
fn leak_first_of_several() {
    let prev = tl(&[105, 103]);
    let current = tl(&[107, 104, 102]);
    assert_eq!(find_leak(&prev, &current, 101, 105), Some(tw(104)));
}

#[test]
fn sort_restores_descending_order() {
    let mut t = tl(&[4, 10, 6, 8]);
    assert!(!SliceIsSortedExt::is_sorted_by(t.as_slice()));
    sort_timeline(&mut t);
    assert!(SliceIsSortedExt::is_sorted_by(t.as_slice()));
    assert_eq!(t, tl(&[10, 8, 6, 4]));
}

#[test]
fn sort_keeps_duplicates() {
    let mut t = tl(&[4, 6, 6, 2]);
    sort_timeline(&mut t);
    assert_eq!(t, tl(&[6, 6, 4, 2]));
}

#[test]
fn is_sorted_accepts_sorted_and_short() {
    assert!(SliceIsSortedExt::is_sorted_by(tl(&[]).as_slice()));
    assert!(SliceIsSortedExt::is_sorted_by(tl(&[5]).as_slice()));
    assert!(SliceIsSortedExt::is_sorted_by(tl(&[9, 9, 3]).as_slice()));
    assert!(!SliceIsSortedExt::is_sorted_by(tl(&[9, 3, 9]).as_slice()));
}

#[test]
fn contains_id_scans_whole_timeline() {
    let t = tl(&[9, 7, 5]);
    assert!(contains_id(&t, 7));
    assert!(!contains_id(&t, 6));
    assert!(!contains_id(&tl(&[]), 6));
}

#[test]
fn fold_initializes_from_first_nonempty_page() {
    let mut state: Option<State> = None;
    let mut timeline = tl(&[9, 8]);
    fold_state(&mut state, &mut timeline, 1234);
    let s = state.expect("state initialized");
    assert_eq!(s.latest_id, 9);
    assert_eq!(s.retrieved_ms, 1234);
    assert_eq!(s.timeline, tl(&[9, 8]));
    assert!(timeline.is_empty());
}

#[test]
fn fold_leaves_store_absent_on_empty_first_page() {
    // First cycle with an empty remote result: the store stays absent, so
    // the next cycle proceeds without attempting a diff.
    let mut state: Option<State> = None;
    let mut timeline = tl(&[]);
    fold_state(&mut state, &mut timeline, 1234);
    assert!(state.is_none());
    assert!(timeline.is_empty());
}

#[test]
fn fold_swaps_and_raises_latest() {
    let mut state = Some(State {
        timeline: tl(&[9, 8]),
        latest_id: 9,
        retrieved_ms: 1000,
    });
    let mut timeline = tl(&[11, 10]);
    fold_state(&mut state, &mut timeline, 2000);
    let s = state.expect("state kept");
    assert_eq!(s.latest_id, 11);
    assert_eq!(s.retrieved_ms, 2000);
    assert_eq!(s.timeline, tl(&[11, 10]));
    // The old buffer comes back for reuse.
    assert_eq!(timeline, tl(&[9, 8]));
}

#[test]
fn fold_keeps_latest_when_head_is_older() {
    let mut state = Some(State {
        timeline: tl(&[9, 8]),
        latest_id: 12,
        retrieved_ms: 1000,
    });
    let mut timeline = tl(&[11, 10]);
    fold_state(&mut state, &mut timeline, 2000);
    assert_eq!(state.expect("state kept").latest_id, 12);
}

#[test]
fn fold_with_empty_page_keeps_previous_timeline_out() {
    let mut state = Some(State {
        timeline: tl(&[9, 8]),
        latest_id: 9,
        retrieved_ms: 1000,
    });
    let mut timeline = tl(&[]);
    fold_state(&mut state, &mut timeline, 2000);
    let s = state.expect("state kept");
    assert_eq!(s.latest_id, 9);
    assert_eq!(s.retrieved_ms, 2000);
    assert!(s.timeline.is_empty());
    assert_eq!(timeline, tl(&[9, 8]));
}
