use bounce_core::{update, BufferError};

#[test]
fn floor_bounce_scenario() {
    // One entity falling onto the floor of a 100x100 arena: the position is
    // clamped to rest on the floor and the rebound speed is roughly halved,
    // directed upward.
    let mut state: Vec<i32> = vec![1, 50, 90, 0, 5, 10, 7, 8, 9];
    let r = update(&mut state, 100, 100, 1);
    assert!(r.is_ok());
    assert_eq!(state, vec![1, 50, 89, 0, -3, 10, 7, 8, 9]);
}

#[test]
fn floor_dissipation_magnitudes() {
    // Resting on the floor already: the bottom edge equals the height, so
    // the rebound is -(|dy| - |dy| / 2), never gaining magnitude.
    let mut state: Vec<i32> = vec![1, 10, 89, 0, 7, 10, 0, 0, 0];
    assert!(update(&mut state, 100, 100, 1).is_ok());
    assert_eq!(state[4], -4);

    let mut state: Vec<i32> = vec![1, 10, 89, 0, -7, 10, 0, 0, 0];
    // dy = -7 moves the entity up off the floor: y' = 82, free fall.
    assert!(update(&mut state, 100, 100, 1).is_ok());
    assert_eq!(state[2], 82);
    assert_eq!(state[4], -6);
}

#[test]
fn floor_rest_keeps_zero_velocity() {
    let mut state: Vec<i32> = vec![1, 10, 89, 0, 0, 10, 0, 0, 0];
    assert!(update(&mut state, 100, 100, 1).is_ok());
    assert_eq!(state[2], 89);
    assert_eq!(state[4], 0);
}

#[test]
fn right_wall_reflection() {
    let mut state: Vec<i32> = vec![1, 90, 40, 10, 0, 4, 0, 0, 0];
    assert!(update(&mut state, 100, 100, 0).is_ok());
    // Candidate x = 100 is clamped to 95; the right edge 95 + 4 + 1 == 100
    // touches the wall, so dx flips sign.
    assert_eq!(state[1], 95);
    assert_eq!(state[3], -10);
}

#[test]
fn left_wall_reflection() {
    let mut state: Vec<i32> = vec![1, 2, 40, -5, 0, 4, 0, 0, 0];
    assert!(update(&mut state, 100, 100, 0).is_ok());
    assert_eq!(state[1], 0);
    assert_eq!(state[3], 5);
}

#[test]
fn zero_dx_stays_zero_at_wall() {
    let mut state: Vec<i32> = vec![1, 0, 40, 0, 0, 4, 0, 0, 0];
    assert!(update(&mut state, 100, 100, 0).is_ok());
    assert_eq!(state[1], 0);
    assert_eq!(state[3], 0);
}

#[test]
fn ceiling_reflection() {
    let mut state: Vec<i32> = vec![1, 40, 5, 0, -10, 3, 0, 0, 0];
    assert!(update(&mut state, 100, 100, 1).is_ok());
    // Candidate y = -5 is clamped to the ceiling; dy reflects perfectly.
    assert_eq!(state[2], 0);
    assert_eq!(state[4], 10);
}

#[test]
fn free_fall_gravity() {
    let mut state: Vec<i32> = vec![1, 40, 10, 0, 2, 3, 0, 0, 0];
    assert!(update(&mut state, 100, 100, 1).is_ok());
    assert_eq!(state[2], 12);
    assert_eq!(state[4], 3);
}

#[test]
fn sentinel_record_skipped_later_records_processed() {
    // The first record carries the "no entity" sentinel: it is left exactly
    // as it is, and the records after it are still advanced.
    let mut state: Vec<i32> = vec![
        0, 11, 22, 33, 44, 55, 66, 77, 88, // absent
        1, 40, 10, 0, 2, 3, 0, 0, 0, // live, free fall
    ];
    assert!(update(&mut state, 100, 100, 1).is_ok());
    assert_eq!(&state[0..9], &[0, 11, 22, 33, 44, 55, 66, 77, 88]);
    assert_eq!(&state[9..18], &[1, 40, 12, 0, 3, 3, 0, 0, 0]);
}

#[test]
fn extreme_velocity_wraps_then_clamps() {
    // x + dx wraps around in two's complement; the wrapped (negative)
    // candidate clamps to the left wall, which then reflects dx.
    let mut state: Vec<i32> = vec![1, 50, 40, i32::MAX, 0, 4, 0, 0, 0];
    assert!(update(&mut state, 100, 100, 0).is_ok());
    assert_eq!(state[1], 0);
    assert_eq!(state[3], -i32::MAX);
}

#[test]
fn out_of_range_position_is_clamped() {
    let mut state: Vec<i32> = vec![1, 1000, -50, 0, 0, 10, 0, 0, 0];
    assert!(update(&mut state, 100, 100, 0).is_ok());
    // Clamped into [0, width - 1 - size] x [0, height - 1 - size]; the
    // clamped x touches the right wall, the clamped y the ceiling.
    assert_eq!(state[1], 89);
    assert_eq!(state[2], 0);
}

#[test]
fn update_rejects_bad_record_length() {
    let mut state: Vec<i32> = vec![1, 50, 90, 0, 5, 10, 7, 8, 9, 1];
    let before = state.clone();
    let r = update(&mut state, 100, 100, 1);
    assert_eq!(r, Err(BufferError::EntityBufferLength));
    assert_eq!(state, before);
}

#[test]
fn update_accepts_empty_state() {
    let mut state: Vec<i32> = vec![];
    assert!(update(&mut state, 100, 100, 1).is_ok());
    assert!(state.is_empty());
}
