use fit_overlay::aligner::{sample_within, value_within, AlignedSample, Aligner, Policies};
use fit_overlay::error::AlignError;
use fit_overlay::interp::Policy;
use fit_overlay::record::{Metric, RecordDataField};
use fit_overlay::series::Series;

const SECOND: i64 = 1_000_000;

fn reading(seconds: i64, power: Option<u16>) -> RecordDataField {
    RecordDataField {
        timestamp: seconds * SECOND,
        lat: None,
        long: None,
        hr: None,
        cadence: None,
        distance: 0,
        power,
        temperature: None,
        accumulated_power: None,
        fractional_cadence: None,
        enhanced_speed: 0,
        enhanced_altitude: None,
    }
}

fn power_series(points: &[(i64, Option<u16>)]) -> Series {
    let samples: Vec<RecordDataField> = points.iter().map(|p| reading(p.0, p.1)).collect();
    Series::from_samples(samples).unwrap()
}

fn three_sample_aligner() -> Aligner {
    let series = power_series(&[(0, Some(100)), (10, Some(200)), (20, Some(150))]);
    Aligner::new(series, 0).unwrap()
}

#[test]
fn power_across_three_samples() {
    let mut aligner = three_sample_aligner();

    let at_5 = aligner.align(5 * SECOND).unwrap();
    assert_eq!(at_5.bracket_index, 0);
    assert_eq!(at_5.power, Some(150));

    let at_15 = aligner.align(15 * SECOND).unwrap();
    assert_eq!(at_15.bracket_index, 1);
    assert_eq!(at_15.power, Some(175));

    let at_20 = aligner.align(20 * SECOND).unwrap();
    assert_eq!(at_20.bracket_index, 1);
    assert_eq!(at_20.power, Some(150));
}

#[test]
fn single_sample_series_is_too_short() {
    let series = power_series(&[(0, Some(100))]);
    assert_eq!(Aligner::new(series, 0).err(), Some(AlignError::SeriesTooShort));
    let series = power_series(&[(0, Some(100))]);
    assert_eq!(
        Aligner::with_policies(series, 0, Policies::uniform(Policy::Stepped)).err(),
        Some(AlignError::SeriesTooShort)
    );
}

#[test]
fn two_samples_are_enough() {
    let series = power_series(&[(0, Some(100)), (10, Some(200))]);
    let mut aligner = Aligner::new(series, 0).unwrap();
    assert_eq!(aligner.bracket_index(), 0);
    let sample = aligner.align(4 * SECOND).unwrap();
    assert_eq!(sample.bracket_index, 0);
    assert_eq!(sample.power, Some(140));
}

#[test]
fn frame_before_first_sample_is_rejected_and_changes_nothing() {
    let series = power_series(&[(10, Some(100)), (20, Some(200)), (30, Some(150))]);
    let mut aligner = Aligner::new(series, 7).unwrap();
    assert_eq!(aligner.align(10 * SECOND - 1), Err(AlignError::SeriesExhausted));
    assert_eq!(aligner.bracket_index(), 0);
    assert_eq!(aligner.last_advance_time(), 7);
    assert_eq!(aligner.align(10 * SECOND).unwrap().power, Some(100));
}

#[test]
fn rejection_looks_at_the_first_sample_even_after_advancing() {
    let mut aligner = three_sample_aligner();
    assert_eq!(aligner.align(15 * SECOND).unwrap().bracket_index, 1);
    assert_eq!(aligner.align(-1), Err(AlignError::SeriesExhausted));
    assert_eq!(aligner.bracket_index(), 1);
}

#[test]
fn bracket_indices_stay_in_range_and_never_decrease() {
    let points: Vec<(i64, Option<u16>)> = (0..8).map(|i| (i * 3, Some(i as u16))).collect();
    let series = power_series(&points);
    let mut aligner = Aligner::new(series, 0).unwrap();
    let mut previous = 0usize;
    let mut frame = 0i64;
    while frame <= 21 * SECOND {
        let sample = aligner.align(frame).unwrap();
        assert!(sample.bracket_index <= 6);
        assert!(sample.bracket_index >= previous);
        assert_eq!(sample.bracket_index as i64, (frame / (3 * SECOND)).min(6));
        previous = sample.bracket_index;
        frame += 700_000;
    }
}

#[test]
fn a_far_jump_passes_through_every_interval() {
    let points: Vec<(i64, Option<u16>)> = (0..8).map(|i| (i * 3, Some(i as u16))).collect();
    let mut stepwise = Aligner::new(power_series(&points), 0).unwrap();
    let mut direct = Aligner::new(power_series(&points), 0).unwrap();
    for second in [1, 4, 9, 10, 16] {
        stepwise.align(second * SECOND).unwrap();
    }
    let a = stepwise.align(17 * SECOND).unwrap();
    let b = direct.align(17 * SECOND).unwrap();
    assert_eq!(a, b);
    assert_eq!(a.bracket_index, 5);
}

#[test]
fn terminal_interval_clamps_long_after_the_series_ends() {
    let mut aligner = three_sample_aligner();
    let late = aligner.align(3_600 * SECOND).unwrap();
    assert_eq!(late.bracket_index, 1);
    assert_eq!(late.power, Some(150));
    let extreme = aligner.align(i64::MAX).unwrap();
    assert_eq!(extreme.bracket_index, 1);
    assert_eq!(extreme.power, Some(150));
}

#[test]
fn value_at_the_instant_the_interval_advances_is_the_next_reading() {
    let mut aligner = three_sample_aligner();
    let just_before = aligner.align(10 * SECOND - 1).unwrap();
    assert_eq!(just_before.bracket_index, 0);
    assert_eq!(just_before.power, Some(199));
    let at_boundary = aligner.align(10 * SECOND).unwrap();
    assert_eq!(at_boundary.bracket_index, 1);
    assert_eq!(at_boundary.power, Some(200));
}

#[test]
fn degenerate_interval_reads_the_current_sample() {
    let series = power_series(&[(0, Some(100)), (10, Some(200)), (10, Some(300)), (20, Some(400))]);
    let mut aligner = Aligner::new(series, 0).unwrap();
    let sample = aligner.align(10 * SECOND).unwrap();
    assert_eq!(sample.bracket_index, 2);
    assert_eq!(sample.power, Some(300));

    let twins = power_series(&[(5, Some(40)), (5, Some(90))]);
    let mut aligner = Aligner::new(twins, 0).unwrap();
    for frame in [5 * SECOND, 6 * SECOND, 500 * SECOND] {
        let sample = aligner.align(frame).unwrap();
        assert_eq!(sample.bracket_index, 0);
        assert_eq!(sample.power, Some(40));
    }
}

#[test]
fn interval_that_goes_back_in_time_is_read_at_its_start() {
    let series = power_series(&[(10, Some(40)), (5, Some(90))]);
    let mut aligner = Aligner::new(series, 0).unwrap();
    for second in [10, 11, 100] {
        let sample = aligner.align(second * SECOND).unwrap();
        assert_eq!(sample.bracket_index, 0);
        assert_eq!(sample.power, Some(40));
    }
}

#[test]
fn cursor_moves_through_a_series_that_goes_back_in_time() {
    let series = power_series(&[(10, Some(40)), (5, Some(90)), (30, Some(10))]);
    let mut aligner = Aligner::new(series, 0).unwrap();
    let sample = aligner.align(10 * SECOND).unwrap();
    assert_eq!(sample.bracket_index, 1);
    assert_eq!(sample.power, Some(74));
}

#[test]
fn absent_current_reading_holds_the_next_when_interpolated() {
    let series = power_series(&[(0, None), (10, Some(5)), (20, Some(9))]);
    let mut aligner = Aligner::new(series, 0).unwrap();
    for second in [0, 3, 9] {
        let sample = aligner.align(second * SECOND).unwrap();
        assert_eq!(sample.bracket_index, 0);
        assert_eq!(sample.power, Some(5));
    }
}

#[test]
fn absent_current_reading_stays_absent_when_stepped_until_the_advance() {
    let series = power_series(&[(0, None), (10, Some(5)), (20, Some(9))]);
    let mut aligner =
        Aligner::with_policies(series, 0, Policies::uniform(Policy::Stepped)).unwrap();
    for second in [0, 3, 9] {
        let sample = aligner.align(second * SECOND).unwrap();
        assert_eq!(sample.bracket_index, 0);
        assert_eq!(sample.power, None);
    }
    let advanced = aligner.align(10 * SECOND).unwrap();
    assert_eq!(advanced.bracket_index, 1);
    assert_eq!(advanced.power, Some(5));
    let later = aligner.align(19 * SECOND).unwrap();
    assert_eq!(later.power, Some(5));
}

#[test]
fn absent_next_reading_holds_the_current() {
    let series = power_series(&[(0, Some(7)), (10, None), (20, None)]);
    let mut aligner = Aligner::new(series, 0).unwrap();
    assert_eq!(aligner.align(6 * SECOND).unwrap().power, Some(7));
    assert_eq!(aligner.align(12 * SECOND).unwrap().power, None);
}

#[test]
fn zero_is_a_reading_and_not_an_absence() {
    let series = power_series(&[(0, Some(0)), (10, Some(100)), (20, None)]);
    let mut aligner = Aligner::new(series, 0).unwrap();
    assert_eq!(aligner.align(0).unwrap().power, Some(0));
    assert_eq!(aligner.align(5 * SECOND).unwrap().power, Some(50));
}

#[test]
fn standard_policies_step_the_quantised_metrics() {
    let mut first = reading(0, Some(100));
    first.hr = Some(120);
    first.cadence = Some(80);
    first.temperature = Some(-4);
    first.fractional_cadence = Some(500_000);
    first.lat = Some(1_000);
    first.long = Some(-2_000);
    first.distance = 10 * SECOND;
    first.accumulated_power = Some(1_000);
    first.enhanced_speed = 4_000_000;
    first.enhanced_altitude = Some(300_000_000);
    let mut second = reading(10, Some(200));
    second.hr = Some(140);
    second.cadence = Some(90);
    second.temperature = Some(6);
    second.fractional_cadence = Some(250_000);
    second.lat = Some(2_000);
    second.long = Some(-4_000);
    second.distance = 60 * SECOND;
    second.accumulated_power = Some(3_000);
    second.enhanced_speed = 6_000_000;
    second.enhanced_altitude = Some(200_000_000);
    let series = Series::from_samples(vec![first, second]).unwrap();
    let mut aligner = Aligner::new(series, 0).unwrap();
    let sample = aligner.align(5 * SECOND).unwrap();
    assert_eq!(
        sample,
        AlignedSample {
            bracket_index: 0,
            lat: Some(1_500),
            long: Some(-3_000),
            hr: Some(120),
            cadence: Some(80),
            distance: Some(35 * SECOND),
            power: Some(150),
            temperature: Some(-4),
            accumulated_power: Some(2_000),
            fractional_cadence: Some(500_000),
            enhanced_speed: Some(5_000_000),
            enhanced_altitude: Some(250_000_000),
        }
    );
    assert_eq!(sample.metric(Metric::HeartRate), Some(120));
    assert_eq!(sample.metric(Metric::EnhancedSpeed), Some(5_000_000));
    assert_eq!(sample.metric(Metric::Lat), Some(1_500));
    assert_eq!(sample.metric(Metric::Long), Some(-3_000));
    assert_eq!(sample.metric(Metric::Cadence), Some(80));
    assert_eq!(sample.metric(Metric::Distance), Some(35 * SECOND));
    assert_eq!(sample.metric(Metric::Power), Some(150));
    assert_eq!(sample.metric(Metric::Temperature), Some(-4));
    assert_eq!(sample.metric(Metric::AccumulatedPower), Some(2_000));
    assert_eq!(sample.metric(Metric::FractionalCadence), Some(500_000));
    assert_eq!(sample.metric(Metric::EnhancedAltitude), Some(250_000_000));
}

#[test]
fn each_metric_follows_its_own_policy() {
    let mut policies = Policies::default();
    assert_eq!(policies.policy(Metric::Power), Policy::Interpolated);
    assert_eq!(policies.policy(Metric::HeartRate), Policy::Stepped);
    policies.power = Policy::Stepped;
    policies.hr = Policy::Interpolated;
    assert_eq!(policies.policy(Metric::Power), Policy::Stepped);
    assert_eq!(policies.policy(Metric::HeartRate), Policy::Interpolated);

    let mut first = reading(0, Some(100));
    first.hr = Some(120);
    let mut second = reading(10, Some(200));
    second.hr = Some(140);
    let series = Series::from_samples(vec![first, second]).unwrap();
    let mut aligner = Aligner::with_policies(series, 0, policies).unwrap();
    assert_eq!(aligner.policies(), policies);
    let sample = aligner.align(5 * SECOND).unwrap();
    assert_eq!(sample.power, Some(100));
    assert_eq!(sample.hr, Some(130));
}

#[test]
fn standard_policies_by_metric() {
    let policies = Policies::default();
    let interpolated = [
        Metric::Lat,
        Metric::Long,
        Metric::Distance,
        Metric::Power,
        Metric::AccumulatedPower,
        Metric::EnhancedSpeed,
        Metric::EnhancedAltitude,
    ];
    let stepped =
        [Metric::HeartRate, Metric::Cadence, Metric::Temperature, Metric::FractionalCadence];
    for metric in interpolated {
        assert_eq!(policies.policy(metric), Policy::Interpolated);
    }
    for metric in stepped {
        assert_eq!(policies.policy(metric), Policy::Stepped);
    }
    let uniform = Policies::uniform(Policy::Stepped);
    for metric in interpolated {
        assert_eq!(uniform.policy(metric), Policy::Stepped);
    }
}

#[test]
fn last_advance_is_recorded_only_when_the_cursor_moves() {
    let series = power_series(&[(0, Some(100)), (10, Some(200)), (20, Some(150))]);
    let mut aligner = Aligner::new(series, -3 * SECOND).unwrap();
    assert_eq!(aligner.epoch_start(), -3 * SECOND);
    assert_eq!(aligner.last_advance_time(), -3 * SECOND);
    assert_eq!(aligner.last_advance_offset(), 0);
    aligner.align(5 * SECOND).unwrap();
    assert_eq!(aligner.last_advance_time(), -3 * SECOND);
    aligner.align(12 * SECOND).unwrap();
    assert_eq!(aligner.last_advance_time(), 12 * SECOND);
    assert_eq!(aligner.last_advance_offset(), 15 * SECOND as i128);
    aligner.align(14 * SECOND).unwrap();
    assert_eq!(aligner.last_advance_time(), 12 * SECOND);
    aligner.align(40 * SECOND).unwrap();
    assert_eq!(aligner.last_advance_time(), 12 * SECOND);
}

#[test]
fn last_advance_offset_does_not_overflow() {
    let series = power_series(&[(0, Some(1)), (1, Some(2)), (2, Some(3))]);
    let mut aligner = Aligner::new(series, i64::MIN).unwrap();
    aligner.align(i64::MAX).unwrap();
    assert_eq!(aligner.last_advance_offset(), i64::MAX as i128 - i64::MIN as i128);
}

#[test]
fn exhaustion_is_reported_on_the_last_interval_only() {
    let mut aligner = three_sample_aligner();
    assert!(!aligner.is_exhausted(25 * SECOND));
    aligner.align(15 * SECOND).unwrap();
    assert!(!aligner.is_exhausted(20 * SECOND - 1));
    assert!(aligner.is_exhausted(20 * SECOND));
    assert!(aligner.is_exhausted(25 * SECOND));
    assert_eq!(aligner.series().len(), 3);
}

#[test]
fn value_within_measures_from_the_current_sample() {
    let current = reading(100, Some(10));
    let next = reading(104, Some(30));
    let at = |t: i64| value_within(Policy::Interpolated, Metric::Power, &current, &next, t);
    assert_eq!(at(99 * SECOND), Some(10));
    assert_eq!(at(100 * SECOND), Some(10));
    assert_eq!(at(101 * SECOND), Some(15));
    assert_eq!(at(103 * SECOND), Some(25));
    assert_eq!(at(104 * SECOND), Some(30));
    assert_eq!(at(200 * SECOND), Some(30));
    assert_eq!(
        value_within(Policy::Stepped, Metric::Power, &current, &next, 103 * SECOND),
        Some(10)
    );
    assert_eq!(
        value_within(Policy::Interpolated, Metric::HeartRate, &current, &next, 103 * SECOND),
        None
    );
}

#[test]
fn sample_within_carries_the_index() {
    let current = reading(0, Some(10));
    let next = reading(4, Some(30));
    let sample = sample_within(&Policies::default(), &current, &next, SECOND, 41);
    assert_eq!(sample.bracket_index, 41);
    assert_eq!(sample.power, Some(15));
    assert_eq!(sample.distance, Some(0));
    assert_eq!(sample.enhanced_speed, Some(0));
    assert_eq!(sample.hr, None);
}
