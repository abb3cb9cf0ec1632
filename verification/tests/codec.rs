use leaky_snowflake_observer::run::State;
use leaky_snowflake_observer::util::{
    sf_to_unix_ms, time_to_unix, time_to_unix_ms, unix_ms_to_sf, unix_ms_to_sf_checked, unix_to_ms,
    ClockError, SysTime, UnixDuration, TWEPOCH,
};

#[test]
fn encode_at_epoch_is_zero() {
    assert_eq!(unix_ms_to_sf(TWEPOCH), 0);
}

#[test]
fn encode_shifts_into_high_bits() {
    assert_eq!(unix_ms_to_sf(TWEPOCH + 1), 0x40_0000);
    assert_eq!(unix_ms_to_sf(TWEPOCH + 123_456), 123_456 << 22);
}

#[test]
fn decode_recovers_timestamp() {
    assert_eq!(sf_to_unix_ms(0), TWEPOCH);
    assert_eq!(sf_to_unix_ms(5 << 22), TWEPOCH + 5);
    // The low 22 bits are sub-millisecond resolution and do not move the
    // timestamp.
    assert_eq!(sf_to_unix_ms((5 << 22) | 0x3F_FFFF), TWEPOCH + 5);
}

#[test]
fn round_trip_is_identity() {
    for ms in [TWEPOCH, TWEPOCH + 1, TWEPOCH + 987_654_321] {
        assert_eq!(sf_to_unix_ms(unix_ms_to_sf(ms)), ms);
    }
}

#[test]
fn checked_encode_rejects_clock_faults() {
    assert_eq!(
        unix_ms_to_sf_checked(TWEPOCH - 1),
        Err(ClockError::BeforeEpoch)
    );
    assert_eq!(
        unix_ms_to_sf_checked(TWEPOCH + 0x400_0000_0000),
        Err(ClockError::BeyondRange)
    );
    assert_eq!(unix_ms_to_sf_checked(TWEPOCH + 7), Ok(7 << 22));
}

#[test]
fn time_before_epoch_is_fatal() {
    let t = SysTime {
        before_epoch: true,
        secs: 1,
        nanos: 0,
    };
    assert_eq!(time_to_unix(&t), Err(ClockError::BeforeEpoch));
    assert_eq!(time_to_unix_ms(&t), Err(ClockError::BeforeEpoch));
}

#[test]
fn unix_to_ms_counts_whole_milliseconds() {
    let d = UnixDuration {
        secs: 1,
        nanos: 2_500_000,
    };
    assert_eq!(unix_to_ms(&d), Ok(1002));
    let d = UnixDuration { secs: 0, nanos: 0 };
    assert_eq!(unix_to_ms(&d), Ok(0));
}

#[test]
fn unix_to_ms_rejects_overflow() {
    let d = UnixDuration {
        secs: u64::MAX,
        nanos: 999_999_999,
    };
    assert_eq!(unix_to_ms(&d), Err(ClockError::BeyondRange));
}

#[test]
fn time_to_unix_ms_composes() {
    let t = SysTime {
        before_epoch: false,
        secs: 3,
        nanos: 7_000_000,
    };
    assert_eq!(time_to_unix_ms(&t), Ok(3007));
}

#[test]
fn cursor_lies_in_window() {
    // latest_id carries the timestamp TWEPOCH + 10_000 ms; the capture time
    // sits 500 ms later; the margin is 100 ms.
    let latest_id = (10_000u64 << 22) | 99;
    let state = State {
        timeline: Vec::new(),
        latest_id,
        retrieved_ms: TWEPOCH + 10_500,
        };
    let k = 100;
    let since = state.next_since_id(k);
    let lower = ((10_000 - k) << 22) - 1;
    assert!(since >= lower);
    assert!(since <= latest_id);
    // candidate = ((10_500 - 100) << 22) - 1, above latest_id, so the cursor
    // is clamped to latest_id exactly.
    assert_eq!(since, latest_id);
}

#[test]
fn cursor_uses_candidate_inside_window() {
    // The capture time is old enough that the candidate falls between the
    // floor and latest_id.
    let latest_id = 10_000u64 << 22;
    let state = State {
        timeline: Vec::new(),
        latest_id,
        retrieved_ms: TWEPOCH + 10_050,
    };
    let since = state.next_since_id(100);
    assert_eq!(since, ((10_050 - 100) << 22) - 1);
}

#[test]
fn cursor_clamps_to_floor() {
    // A capture time far in the past pushes the candidate below the floor.
    let latest_id = 10_000u64 << 22;
    let state = State {
        timeline: Vec::new(),
        latest_id,
        retrieved_ms: TWEPOCH + 5_000,
    };
    let since = state.next_since_id(100);
    assert_eq!(since, ((10_000 - 100) << 22) - 1);
}
