//! The frame aligner: a cursor over the bracketing intervals of a series that
//! moves forward in step with the frame timestamps.

use vstd::prelude::*;
use crate::error::AlignError;
use crate::interp::{
    blend, blended, elapsed_within, lemma_lerp_between_ends, lemma_lerp_exact_at_ends, span_within,
    Fraction, Policy,
};
use crate::record::{Metric, RecordDataField};
use crate::series::{chronological, Series};

verus! {

/// For each metric, whether it is interpolated or stepped.
#[derive(Clone, Copy, Debug, PartialEq, Eq)]
pub struct Policies {
    pub lat: Policy,
    pub long: Policy,
    pub hr: Policy,
    pub cadence: Policy,
    pub distance: Policy,
    pub power: Policy,
    pub temperature: Policy,
    pub accumulated_power: Policy,
    pub fractional_cadence: Policy,
    pub enhanced_speed: Policy,
    pub enhanced_altitude: Policy,
}

impl Policies {
    /// The policy of `metric`.
    pub open spec fn of(self, metric: Metric) -> Policy {
        match metric {
            Metric::Lat => self.lat,
            Metric::Long => self.long,
            Metric::HeartRate => self.hr,
            Metric::Cadence => self.cadence,
            Metric::Distance => self.distance,
            Metric::Power => self.power,
            Metric::Temperature => self.temperature,
            Metric::AccumulatedPower => self.accumulated_power,
            Metric::FractionalCadence => self.fractional_cadence,
            Metric::EnhancedSpeed => self.enhanced_speed,
            Metric::EnhancedAltitude => self.enhanced_altitude,
        }
    }

    /// The policies that suit the signals as a device records them: the
    /// continuous ones (position, distance, power, accumulated power, speed,
    /// altitude) are interpolated, the quantised ones (heart rate, cadence
    /// and its fractional part, temperature) are stepped.
    pub open spec fn standard() -> Policies {
        Policies {
            lat: Policy::Interpolated,
            long: Policy::Interpolated,
            hr: Policy::Stepped,
            cadence: Policy::Stepped,
            distance: Policy::Interpolated,
            power: Policy::Interpolated,
            temperature: Policy::Stepped,
            accumulated_power: Policy::Interpolated,
            fractional_cadence: Policy::Stepped,
            enhanced_speed: Policy::Interpolated,
            enhanced_altitude: Policy::Interpolated,
        }
    }

    /// The policy of `metric`.
    pub fn policy(&self, metric: Metric) -> (policy: Policy)
        ensures
            policy == self.of(metric),
    {
        match metric {
            Metric::Lat => self.lat,
            Metric::Long => self.long,
            Metric::HeartRate => self.hr,
            Metric::Cadence => self.cadence,
            Metric::Distance => self.distance,
            Metric::Power => self.power,
            Metric::Temperature => self.temperature,
            Metric::AccumulatedPower => self.accumulated_power,
            Metric::FractionalCadence => self.fractional_cadence,
            Metric::EnhancedSpeed => self.enhanced_speed,
            Metric::EnhancedAltitude => self.enhanced_altitude,
        }
    }

    /// One policy for every metric.
    pub fn uniform(policy: Policy) -> (policies: Policies)
        ensures
            forall|metric: Metric| policies.of(metric) == policy,
    {
        Policies {
            lat: policy,
            long: policy,
            hr: policy,
            cadence: policy,
            distance: policy,
            power: policy,
            temperature: policy,
            accumulated_power: policy,
            fractional_cadence: policy,
            enhanced_speed: policy,
            enhanced_altitude: policy,
        }
    }
}

impl Default for Policies {
    fn default() -> (policies: Policies)
        ensures
            policies == Policies::standard(),
    {
        Policies {
            lat: Policy::Interpolated,
            long: Policy::Interpolated,
            hr: Policy::Stepped,
            cadence: Policy::Stepped,
            distance: Policy::Interpolated,
            power: Policy::Interpolated,
            temperature: Policy::Stepped,
            accumulated_power: Policy::Interpolated,
            fractional_cadence: Policy::Stepped,
            enhanced_speed: Policy::Interpolated,
            enhanced_altitude: Policy::Interpolated,
        }
    }
}

/// What the aligner reports for one frame: the position of the bracketing
/// interval and, for each metric, its reading at the frame's time.
#[derive(Clone, Copy, Debug, PartialEq, Eq)]
pub struct AlignedSample {
    /// Position in the series of the sample that opens the bracketing interval.
    pub bracket_index: usize,
    pub lat: Option<i64>,
    pub long: Option<i64>,
    pub hr: Option<i64>,
    pub cadence: Option<i64>,
    pub distance: Option<i64>,
    pub power: Option<i64>,
    pub temperature: Option<i64>,
    pub accumulated_power: Option<i64>,
    pub fractional_cadence: Option<i64>,
    pub enhanced_speed: Option<i64>,
    pub enhanced_altitude: Option<i64>,
}

impl AlignedSample {
    /// The reading reported for `metric`.
    pub open spec fn metric_value(self, metric: Metric) -> Option<i64> {
        match metric {
            Metric::Lat => self.lat,
            Metric::Long => self.long,
            Metric::HeartRate => self.hr,
            Metric::Cadence => self.cadence,
            Metric::Distance => self.distance,
            Metric::Power => self.power,
            Metric::Temperature => self.temperature,
            Metric::AccumulatedPower => self.accumulated_power,
            Metric::FractionalCadence => self.fractional_cadence,
            Metric::EnhancedSpeed => self.enhanced_speed,
            Metric::EnhancedAltitude => self.enhanced_altitude,
        }
    }

    /// The reading reported for `metric`.
    pub fn metric(&self, metric: Metric) -> (value: Option<i64>)
        ensures
            value == self.metric_value(metric),
    {
        match metric {
            Metric::Lat => self.lat,
            Metric::Long => self.long,
            Metric::HeartRate => self.hr,
            Metric::Cadence => self.cadence,
            Metric::Distance => self.distance,
            Metric::Power => self.power,
            Metric::Temperature => self.temperature,
            Metric::AccumulatedPower => self.accumulated_power,
            Metric::FractionalCadence => self.fractional_cadence,
            Metric::EnhancedSpeed => self.enhanced_speed,
            Metric::EnhancedAltitude => self.enhanced_altitude,
        }
    }
}

/// The reading of `metric` at `frame_time` inside the interval from `current`
/// to `next`, under `policy`. The position inside the interval is measured
/// from the timestamp of `current`, where the interval begins.
pub open spec fn aligned_value(
    policy: Policy,
    metric: Metric,
    current: RecordDataField,
    next: RecordDataField,
    frame_time: int,
) -> Option<i64> {
    blended(
        policy,
        current.metric_value(metric),
        next.metric_value(metric),
        elapsed_within(current.timestamp as int, next.timestamp as int, frame_time),
        span_within(current.timestamp as int, next.timestamp as int),
    )
}

/// What is reported at `frame_time` inside the interval from `current` to
/// `next`, which stands at `index` in the series.
pub open spec fn aligned_sample(
    policies: Policies,
    current: RecordDataField,
    next: RecordDataField,
    frame_time: int,
    index: int,
) -> AlignedSample {
    AlignedSample {
        bracket_index: index as usize,
        lat: aligned_value(policies.lat, Metric::Lat, current, next, frame_time),
        long: aligned_value(policies.long, Metric::Long, current, next, frame_time),
        hr: aligned_value(policies.hr, Metric::HeartRate, current, next, frame_time),
        cadence: aligned_value(policies.cadence, Metric::Cadence, current, next, frame_time),
        distance: aligned_value(policies.distance, Metric::Distance, current, next, frame_time),
        power: aligned_value(policies.power, Metric::Power, current, next, frame_time),
        temperature: aligned_value(
            policies.temperature,
            Metric::Temperature,
            current,
            next,
            frame_time,
        ),
        accumulated_power: aligned_value(
            policies.accumulated_power,
            Metric::AccumulatedPower,
            current,
            next,
            frame_time,
        ),
        fractional_cadence: aligned_value(
            policies.fractional_cadence,
            Metric::FractionalCadence,
            current,
            next,
            frame_time,
        ),
        enhanced_speed: aligned_value(
            policies.enhanced_speed,
            Metric::EnhancedSpeed,
            current,
            next,
            frame_time,
        ),
        enhanced_altitude: aligned_value(
            policies.enhanced_altitude,
            Metric::EnhancedAltitude,
            current,
            next,
            frame_time,
        ),
    }
}

/// Where a cursor that stands at `index` comes to rest for `frame_time`.
///
/// The cursor moves one interval at a time, and only forward: it moves for as
/// long as the frame is not earlier than the end of its interval and a later
/// interval exists. In the last interval it stays, however late the frame.
pub open spec fn advanced(samples: Seq<RecordDataField>, index: int, frame_time: int) -> int
    decreases samples.len() - index,
{
    if 0 <= index && index + 2 < samples.len() && frame_time >= samples[index + 1].timestamp {
        advanced(samples, index + 1, frame_time)
    } else {
        index
    }
}

/// Whether a cursor at `index` is on the last interval of `samples` and
/// `frame_time` is not earlier than the last sample.
pub open spec fn exhausted_at(samples: Seq<RecordDataField>, index: int, frame_time: int) -> bool {
    index + 2 == samples.len() && frame_time >= samples[samples.len() - 1].timestamp
}

/// The state of an aligner, as its contracts see it.
pub struct AlignerState {
    /// The samples of the series, in order.
    pub samples: Seq<RecordDataField>,
    /// The policy of each metric.
    pub policies: Policies,
    /// Position of the sample that opens the current bracketing interval.
    pub index: int,
    /// The instant from which offsets are counted.
    pub epoch_start: int,
    /// The frame time at which the cursor last moved; the epoch start as long
    /// as it has not moved.
    pub last_advance_time: int,
}

impl AlignerState {
    /// The state after a frame at `frame_time` has been aligned: the cursor
    /// has come to rest, and if it moved at all, the frame time is recorded
    /// as the time of its last move.
    pub open spec fn after(self, frame_time: int) -> AlignerState {
        let index = advanced(self.samples, self.index, frame_time);
        AlignerState {
            index,
            last_advance_time: if index != self.index {
                frame_time
            } else {
                self.last_advance_time
            },
            ..self
        }
    }
}

/// A cursor over the bracketing intervals of a series.
///
/// The interval at position `i` runs from sample `i` to sample `i + 1`, so a
/// series of `n` samples has the intervals `0` to `n - 2`. The cursor starts
/// at interval 0 and only ever moves forward.
#[derive(Debug)]
pub struct Aligner {
    series: Series,
    policies: Policies,
    index: usize,
    epoch_start: i64,
    last_advance_time: i64,
}

impl View for Aligner {
    type V = AlignerState;

    closed spec fn view(&self) -> AlignerState {
        AlignerState {
            samples: self.series@,
            policies: self.policies,
            index: self.index as int,
            epoch_start: self.epoch_start as int,
            last_advance_time: self.last_advance_time as int,
        }
    }
}

impl Aligner {
    #[verifier::type_invariant]
    spec fn on_an_interval(self) -> bool {
        self.index + 2 <= self.series@.len() <= usize::MAX
    }

    /// An aligner over `series` with the standard policies, its cursor on the
    /// first interval. Offsets are counted from `epoch_start`.
    ///
    /// Fails with `SeriesTooShort` exactly if the series has fewer than two
    /// samples, and so no interval.
    pub fn new(series: Series, epoch_start: i64) -> (result: Result<Aligner, AlignError>)
        ensures
            match result {
                Ok(aligner) => series@.len() >= 2 && aligner@ == (AlignerState {
                    samples: series@,
                    policies: Policies::standard(),
                    index: 0,
                    epoch_start: epoch_start as int,
                    last_advance_time: epoch_start as int,
                }),
                Err(error) => error == AlignError::SeriesTooShort && series@.len() < 2,
            },
    {
        Aligner::with_policies(series, epoch_start, Policies::default())
    }

    /// An aligner over `series` that treats each metric as `policies` says.
    ///
    /// Fails with `SeriesTooShort` exactly if the series has fewer than two
    /// samples.
    pub fn with_policies(series: Series, epoch_start: i64, policies: Policies) -> (result: Result<
        Aligner,
        AlignError,
    >)
        ensures
            match result {
                Ok(aligner) => series@.len() >= 2 && aligner@ == (AlignerState {
                    samples: series@,
                    policies,
                    index: 0,
                    epoch_start: epoch_start as int,
                    last_advance_time: epoch_start as int,
                }),
                Err(error) => error == AlignError::SeriesTooShort && series@.len() < 2,
            },
    {
        if series.len() < 2 {
            Err(AlignError::SeriesTooShort)
        } else {
            Ok(Aligner { series, policies, index: 0, epoch_start, last_advance_time: epoch_start })
        }
    }

    /// Position of the sample that opens the current bracketing interval.
    pub fn bracket_index(&self) -> (index: usize)
        ensures
            index == self@.index,
            index + 2 <= self@.samples.len(),
    {
        proof {
            use_type_invariant(self);
        }
        self.index
    }

    /// The sample that opens the current bracketing interval.
    pub fn current(&self) -> (sample: &RecordDataField)
        ensures
            self@.index + 2 <= self@.samples.len(),
            *sample == self@.samples[self@.index],
    {
        proof {
            use_type_invariant(self);
        }
        self.series.sample(self.index)
    }

    /// The sample that closes the current bracketing interval.
    pub fn next(&self) -> (sample: &RecordDataField)
        ensures
            self@.index + 2 <= self@.samples.len(),
            *sample == self@.samples[self@.index + 1],
    {
        proof {
            use_type_invariant(self);
        }
        self.series.sample(self.index + 1)
    }

    /// The series that the cursor runs over.
    pub fn series(&self) -> (series: &Series)
        ensures
            series@ == self@.samples,
    {
        &self.series
    }

    /// The policy of each metric.
    pub fn policies(&self) -> (policies: Policies)
        ensures
            policies == self@.policies,
    {
        self.policies
    }

    /// The instant from which offsets are counted.
    pub fn epoch_start(&self) -> (instant: i64)
        ensures
            instant == self@.epoch_start,
    {
        self.epoch_start
    }

    /// The frame time at which the cursor last moved; the epoch start as
    /// long as it has not moved.
    pub fn last_advance_time(&self) -> (instant: i64)
        ensures
            instant == self@.last_advance_time,
    {
        self.last_advance_time
    }

    /// Time from the epoch start to the last move of the cursor, in
    /// microseconds.
    pub fn last_advance_offset(&self) -> (offset: i128)
        ensures
            offset == self@.last_advance_time - self@.epoch_start,
    {
        self.last_advance_time as i128 - self.epoch_start as i128
    }

    /// Whether a frame at `frame_time` lies at or past the end of the series
    /// while the cursor rests on the last interval: from then on the readings
    /// are those of the end of the series, and frames need no longer be
    /// aligned.
    pub fn is_exhausted(&self, frame_time: i64) -> (exhausted: bool)
        ensures
            exhausted == exhausted_at(self@.samples, self@.index, frame_time as int),
    {
        proof {
            use_type_invariant(self);
        }
        let count = self.series.len();
        self.index + 2 == count && frame_time >= self.series.last_timestamp()
    }

    /// Aligns the frame at `frame_time`.
    ///
    /// Fails with `SeriesExhausted`, and leaves the cursor where it is,
    /// exactly if the frame is earlier than the first sample. Otherwise the
    /// cursor advances as far as the frame time takes it, and the readings of
    /// the interval it rests on are reported.
    ///
    /// Frames are meant to be aligned in the order of their times. A frame
    /// earlier than the current interval is reported at the interval's start.
    pub fn align(&mut self, frame_time: i64) -> (result: Result<AlignedSample, AlignError>)
        ensures
            final(self)@.index + 2 <= final(self)@.samples.len(),
            match result {
                Ok(sample) => {
                    &&& frame_time >= old(self)@.samples[0].timestamp
                    &&& final(self)@ == old(self)@.after(frame_time as int)
                    &&& old(self)@.index <= sample.bracket_index
                    &&& sample.bracket_index + 2 <= final(self)@.samples.len()
                    &&& sample == aligned_sample(
                        final(self)@.policies,
                        final(self)@.samples[final(self)@.index],
                        final(self)@.samples[final(self)@.index + 1],
                        frame_time as int,
                        final(self)@.index,
                    )
                },
                Err(error) => {
                    &&& error == AlignError::SeriesExhausted
                    &&& frame_time < old(self)@.samples[0].timestamp
                    &&& final(self)@ == old(self)@
                },
            },
    {
        proof {
            use_type_invariant(&*self);
        }
        if frame_time < self.series.first_timestamp() {
            return Err(AlignError::SeriesExhausted);
        }
        let count = self.series.len();
        while self.index + 2 < count && frame_time >= self.series.sample(self.index + 1).timestamp
            invariant
                count == self.series@.len(),
                self.index + 2 <= count,
                self.series@ == old(self).series@,
                self.policies == old(self).policies,
                self.epoch_start == old(self).epoch_start,
                old(self).index <= self.index,
                advanced(self.series@, self.index as int, frame_time as int) == advanced(
                    old(self).series@,
                    old(self).index as int,
                    frame_time as int,
                ),
                self.last_advance_time == if self.index != old(self).index {
                    frame_time
                } else {
                    old(self).last_advance_time
                },
            decreases count - self.index,
        {
            self.index = self.index + 1;
            self.last_advance_time = frame_time;
        }
        let current = self.series.sample(self.index);
        let next = self.series.sample(self.index + 1);
        Ok(sample_within(&self.policies, current, next, frame_time, self.index))
    }
}

/// The reading of `metric` at `frame_time` inside the interval from `current`
/// to `next`, under `policy`.
pub fn value_within(
    policy: Policy,
    metric: Metric,
    current: &RecordDataField,
    next: &RecordDataField,
    frame_time: i64,
) -> (value: Option<i64>)
    ensures
        value == aligned_value(policy, metric, *current, *next, frame_time as int),
{
    let fraction = Fraction::between(current.timestamp, next.timestamp, frame_time);
    blend(policy, current.metric(metric), next.metric(metric), fraction)
}

/// What is reported at `frame_time` inside the interval from `current` to
/// `next`, which stands at `index` in the series.
pub fn sample_within(
    policies: &Policies,
    current: &RecordDataField,
    next: &RecordDataField,
    frame_time: i64,
    index: usize,
) -> (sample: AlignedSample)
    ensures
        sample == aligned_sample(*policies, *current, *next, frame_time as int, index as int),
{
    AlignedSample {
        bracket_index: index,
        lat: value_within(policies.lat, Metric::Lat, current, next, frame_time),
        long: value_within(policies.long, Metric::Long, current, next, frame_time),
        hr: value_within(policies.hr, Metric::HeartRate, current, next, frame_time),
        cadence: value_within(policies.cadence, Metric::Cadence, current, next, frame_time),
        distance: value_within(policies.distance, Metric::Distance, current, next, frame_time),
        power: value_within(policies.power, Metric::Power, current, next, frame_time),
        temperature: value_within(
            policies.temperature,
            Metric::Temperature,
            current,
            next,
            frame_time,
        ),
        accumulated_power: value_within(
            policies.accumulated_power,
            Metric::AccumulatedPower,
            current,
            next,
            frame_time,
        ),
        fractional_cadence: value_within(
            policies.fractional_cadence,
            Metric::FractionalCadence,
            current,
            next,
            frame_time,
        ),
        enhanced_speed: value_within(
            policies.enhanced_speed,
            Metric::EnhancedSpeed,
            current,
            next,
            frame_time,
        ),
        enhanced_altitude: value_within(
            policies.enhanced_altitude,
            Metric::EnhancedAltitude,
            current,
            next,
            frame_time,
        ),
    }
}

/// A cursor that stands on an interval comes to rest on an interval, and
/// never on an earlier one: for a series of `n` samples it stays within
/// `0..=n - 2`.
pub proof fn lemma_cursor_stays_on_an_interval(
    samples: Seq<RecordDataField>,
    index: int,
    frame_time: int,
)
    requires
        0 <= index,
        index + 2 <= samples.len(),
    ensures
        index <= advanced(samples, index, frame_time),
        advanced(samples, index, frame_time) + 2 <= samples.len(),
    decreases samples.len() - index,
{
    if index + 2 < samples.len() && frame_time >= samples[index + 1].timestamp {
        lemma_cursor_stays_on_an_interval(samples, index + 1, frame_time);
    }
}

/// Where the cursor comes to rest: every sample that it passed is no later
/// than the frame, and the frame is earlier than the end of the interval it
/// rests on, unless that is the last interval.
pub proof fn lemma_cursor_rests_on_the_bracket(
    samples: Seq<RecordDataField>,
    index: int,
    frame_time: int,
)
    requires
        0 <= index,
        index + 2 <= samples.len(),
    ensures
        forall|passed: int|
            index < passed <= advanced(samples, index, frame_time) ==> (
            #[trigger] samples[passed]).timestamp <= frame_time,
        advanced(samples, index, frame_time) + 2 == samples.len() || frame_time
            < samples[advanced(samples, index, frame_time) + 1].timestamp,
    decreases samples.len() - index,
{
    if index + 2 < samples.len() && frame_time >= samples[index + 1].timestamp {
        lemma_cursor_rests_on_the_bracket(samples, index + 1, frame_time);
    }
}

/// A frame that is no earlier than the sample under the cursor is bracketed
/// by the interval on which the cursor comes to rest: that interval begins no
/// later than the frame.
pub proof fn lemma_bracket_begins_before_frame(
    samples: Seq<RecordDataField>,
    index: int,
    frame_time: int,
)
    requires
        0 <= index,
        index + 2 <= samples.len(),
        samples[index].timestamp <= frame_time,
    ensures
        samples[advanced(samples, index, frame_time)].timestamp <= frame_time,
{
    lemma_cursor_stays_on_an_interval(samples, index, frame_time);
    lemma_cursor_rests_on_the_bracket(samples, index, frame_time);
}

/// In a series whose timestamps never go back, at most one interval surrounds
/// a given instant: the bracket does not depend on where the cursor started.
pub proof fn lemma_bracket_is_unique(
    samples: Seq<RecordDataField>,
    one: int,
    other: int,
    frame_time: int,
)
    requires
        chronological(samples),
        0 <= one,
        one + 2 <= samples.len(),
        0 <= other,
        other + 2 <= samples.len(),
        samples[one].timestamp <= frame_time < samples[one + 1].timestamp,
        samples[other].timestamp <= frame_time < samples[other + 1].timestamp,
    ensures
        one == other,
{
    if one < other {
        assert(samples[one + 1].timestamp <= samples[other].timestamp);
    } else if other < one {
        assert(samples[other + 1].timestamp <= samples[one].timestamp);
    }
}

/// Aligning two frames in the order of their times is as good as aligning
/// the later one alone: the cursor passes through where the earlier frame
/// left it, so that no interval is skipped however far a frame jumps ahead.
pub proof fn lemma_cursor_skips_nothing(
    samples: Seq<RecordDataField>,
    index: int,
    earlier: int,
    later: int,
)
    requires
        0 <= index,
        index + 2 <= samples.len(),
        earlier <= later,
    ensures
        advanced(samples, advanced(samples, index, earlier), later) == advanced(
            samples,
            index,
            later,
        ),
    decreases samples.len() - index,
{
    if index + 2 < samples.len() && earlier >= samples[index + 1].timestamp {
        lemma_cursor_skips_nothing(samples, index + 1, earlier, later);
    }
}

/// Frames aligned in the order of their times get bracket positions that
/// never decrease.
pub proof fn lemma_brackets_never_go_back(state: AlignerState, earlier: int, later: int)
    requires
        0 <= state.index,
        state.index + 2 <= state.samples.len(),
        earlier <= later,
    ensures
        state.index <= state.after(earlier).index <= state.after(earlier).after(later).index,
        state.after(earlier).after(later).index + 2 <= state.samples.len(),
{
    lemma_cursor_stays_on_an_interval(state.samples, state.index, earlier);
    lemma_cursor_stays_on_an_interval(state.samples, state.after(earlier).index, later);
}

/// An interpolated metric that both samples of an interval know reads, at
/// the instant of the current sample, exactly what the current sample reads,
/// and at the instant of the next sample exactly what the next one reads.
pub proof fn lemma_reading_exact_at_interval_ends(
    metric: Metric,
    current: RecordDataField,
    next: RecordDataField,
)
    requires
        current.timestamp < next.timestamp,
        current.metric_value(metric) is Some,
        next.metric_value(metric) is Some,
    ensures
        aligned_value(Policy::Interpolated, metric, current, next, current.timestamp as int)
            == current.metric_value(metric),
        aligned_value(Policy::Interpolated, metric, current, next, next.timestamp as int)
            == next.metric_value(metric),
{
    lemma_lerp_exact_at_ends(
        current.metric_value(metric).unwrap() as int,
        next.metric_value(metric).unwrap() as int,
        next.timestamp - current.timestamp,
    );
}

/// A stepped metric reads what the current sample reads at every instant of
/// the interval, absent or not, whatever the next sample reads; it changes
/// only when the cursor moves on.
pub proof fn lemma_stepped_reads_current(
    metric: Metric,
    current: RecordDataField,
    next: RecordDataField,
    frame_time: int,
)
    ensures
        aligned_value(Policy::Stepped, metric, current, next, frame_time) == current.metric_value(
            metric,
        ),
{
}

/// An interpolated reading never leaves the range between what the two
/// samples of its interval read.
pub proof fn lemma_reading_between_samples(
    metric: Metric,
    current: RecordDataField,
    next: RecordDataField,
    frame_time: int,
)
    requires
        current.metric_value(metric) is Some,
        next.metric_value(metric) is Some,
    ensures
        aligned_value(Policy::Interpolated, metric, current, next, frame_time) is Some,
        ({
            let from = current.metric_value(metric).unwrap();
            let to = next.metric_value(metric).unwrap();
            let value = aligned_value(
                Policy::Interpolated,
                metric,
                current,
                next,
                frame_time,
            ).unwrap();
            (from <= value <= to) || (to <= value <= from)
        }),
{
    lemma_lerp_between_ends(
        current.metric_value(metric).unwrap() as int,
        next.metric_value(metric).unwrap() as int,
        elapsed_within(current.timestamp as int, next.timestamp as int, frame_time),
        span_within(current.timestamp as int, next.timestamp as int),
    );
}

} // verus!
