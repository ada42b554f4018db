use fit_overlay::frames::{parse_creation_time, FrameRate};

#[test]
fn creation_time_without_a_fraction() {
    assert_eq!(parse_creation_time("2023-05-25T15:15:45Z"), Some(1_685_027_745_000_000));
    assert_eq!(parse_creation_time("1970-01-01T00:00:00Z"), Some(0));
    assert_eq!(parse_creation_time("1969-12-31T23:59:59Z"), Some(-1_000_000));
}

#[test]
fn creation_time_with_a_fraction() {
    assert_eq!(parse_creation_time("2023-05-25T15:15:45.000000Z"), Some(1_685_027_745_000_000));
    assert_eq!(parse_creation_time("2023-05-25T15:15:45.25Z"), Some(1_685_027_745_250_000));
    assert_eq!(parse_creation_time("1970-01-01T00:00:00.000001Z"), Some(1));
}

#[test]
fn creation_time_of_another_form_is_refused() {
    assert_eq!(parse_creation_time(""), None);
    assert_eq!(parse_creation_time("2023-05-25T15:15:45"), None);
    assert_eq!(parse_creation_time("2023-05-25 15:15:45Z"), None);
    assert_eq!(parse_creation_time("2023-05-25T15:15:45+02:00"), None);
    assert_eq!(parse_creation_time("2023-13-25T15:15:45Z"), None);
    assert_eq!(parse_creation_time("2023-05-25T25:15:45Z"), None);
    assert_eq!(parse_creation_time("2023-05-25T15:15:45Z trailing"), None);
    assert_eq!(parse_creation_time("%Y-%m-%dT%H:%M:%S%.fZ"), None);
}

#[test]
fn frame_rate_needs_two_positive_numbers() {
    assert!(FrameRate::new(30, 1).is_some());
    assert!(FrameRate::new(30_000, 1_001).is_some());
    assert!(FrameRate::new(0, 1).is_none());
    assert!(FrameRate::new(30, 0).is_none());
    assert!(FrameRate::new(0, 0).is_none());
}

#[test]
fn frame_timestamps_at_a_whole_rate() {
    let rate = FrameRate::new(25, 1).unwrap();
    assert_eq!(rate.frame_timestamp(1_000, 0), Some(1_000));
    assert_eq!(rate.frame_timestamp(1_000, 1), Some(41_000));
    assert_eq!(rate.frame_timestamp(1_000, 25), Some(1_001_000));
    assert_eq!(rate.frame_timestamp(-5_000_000, 50), Some(-3_000_000));
}

#[test]
fn frame_timestamps_at_a_fractional_rate_drop_the_part_of_a_microsecond() {
    let rate = FrameRate::new(30_000, 1_001).unwrap();
    assert_eq!(rate.frame_timestamp(0, 1), Some(33_366));
    assert_eq!(rate.frame_timestamp(0, 7), Some(233_566));
    assert_eq!(rate.frame_timestamp(0, 30_000), Some(1_001_000_000));
    let third = FrameRate::new(3, 1).unwrap();
    assert_eq!(third.frame_timestamp(0, 1), Some(333_333));
    assert_eq!(third.frame_timestamp(0, 2), Some(666_666));
    assert_eq!(third.frame_timestamp(0, 3), Some(1_000_000));
}

#[test]
fn frame_timestamp_that_does_not_fit_is_refused() {
    let rate = FrameRate::new(1, 1).unwrap();
    assert_eq!(rate.frame_timestamp(i64::MAX, 0), Some(i64::MAX));
    assert_eq!(rate.frame_timestamp(i64::MAX, 1), None);
    assert_eq!(rate.frame_timestamp(i64::MAX - 1_000_000, 1), Some(i64::MAX));
    assert_eq!(rate.frame_timestamp(0, u64::MAX), None);
    let slow = FrameRate::new(1, u32::MAX).unwrap();
    assert_eq!(slow.frame_timestamp(i64::MIN, u64::MAX), None);
    let fast = FrameRate::new(u32::MAX, 1).unwrap();
    assert_eq!(fast.frame_timestamp(0, u64::MAX), Some(4_294_967_297_000_000));
}

#[test]
fn frame_timestamps_never_go_back() {
    let rate = FrameRate::new(24_000, 1_001).unwrap();
    let mut previous = rate.frame_timestamp(77, 0).unwrap();
    for index in 1..2_000u64 {
        let instant = rate.frame_timestamp(77, index).unwrap();
        assert!(instant >= previous);
        previous = instant;
    }
}
