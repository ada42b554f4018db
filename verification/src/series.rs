//! The telemetry series: an ordered, non-empty, immutable sequence of samples.

use vstd::prelude::*;
use crate::parser::{decoded_series, parse_fit_file, DataMessage};
use crate::error::AlignError;
use crate::record::RecordDataField;

verus! {

/// Whether the timestamps of `samples` never go back: each sample is no
/// earlier than the one before it. Ties are allowed.
pub open spec fn chronological(samples: Seq<RecordDataField>) -> bool {
    forall|i: int, j: int|
        0 <= i <= j < samples.len() ==> (#[trigger] samples[i]).timestamp <= (
        #[trigger] samples[j]).timestamp
}

/// An ordered sequence of telemetry samples, in the order in which they were
/// supplied. It is never empty, and it cannot be changed once built.
#[derive(Debug)]
pub struct Series {
    samples: Vec<RecordDataField>,
}

impl View for Series {
    type V = Seq<RecordDataField>;

    closed spec fn view(&self) -> Seq<RecordDataField> {
        self.samples@
    }
}

impl Series {
    #[verifier::type_invariant]
    spec fn populated(self) -> bool {
        self.samples@.len() >= 1
    }

    /// Builds a series from decoded telemetry messages, keeping the order of
    /// the readings among them.
    ///
    /// Fails with `MissingTimestamp` exactly if a reading has no timestamp,
    /// and otherwise with `EmptySeries` exactly if there is no reading.
    pub fn build(raw_records: &Vec<DataMessage>) -> (result: Result<Series, AlignError>)
        ensures
            match result {
                Ok(series) => decoded_series(raw_records@) == Some(series@) && series@.len() >= 1,
                Err(AlignError::MissingTimestamp) => decoded_series(raw_records@) is None,
                Err(AlignError::EmptySeries) => decoded_series(raw_records@) == Some(
                    Seq::<RecordDataField>::empty(),
                ),
                Err(_) => false,
            },
    {
        match parse_fit_file(raw_records) {
            Ok(samples) => Series::from_samples(samples),
            Err(error) => Err(error),
        }
    }

    /// Makes a series of the given samples, in their order.
    ///
    /// Fails with `EmptySeries` exactly if there is no sample.
    pub fn from_samples(samples: Vec<RecordDataField>) -> (result: Result<Series, AlignError>)
        ensures
            match result {
                Ok(series) => series@ == samples@ && samples@.len() >= 1,
                Err(error) => error == AlignError::EmptySeries && samples@.len() == 0,
            },
    {
        if samples.len() == 0 {
            Err(AlignError::EmptySeries)
        } else {
            Ok(Series { samples })
        }
    }

    /// Number of samples; at least one.
    pub fn len(&self) -> (count: usize)
        ensures
            count == self@.len(),
            count >= 1,
    {
        proof {
            use_type_invariant(self);
        }
        self.samples.len()
    }

    /// The sample at position `index`.
    ///
    /// Fails with `IndexOutOfRange` exactly if `index` is not below the
    /// number of samples.
    pub fn at(&self, index: usize) -> (result: Result<RecordDataField, AlignError>)
        ensures
            match result {
                Ok(sample) => index < self@.len() && sample == self@[index as int],
                Err(error) => error == AlignError::IndexOutOfRange && index >= self@.len(),
            },
    {
        if index < self.samples.len() {
            Ok(self.samples[index])
        } else {
            Err(AlignError::IndexOutOfRange)
        }
    }

    /// The sample at position `index`, which is below the number of samples.
    pub(crate) fn sample(&self, index: usize) -> (sample: &RecordDataField)
        requires
            index < self@.len(),
        ensures
            *sample == self@[index as int],
    {
        &self.samples[index]
    }

    /// Timestamp of the first sample.
    pub fn first_timestamp(&self) -> (timestamp: i64)
        ensures
            self@.len() >= 1,
            timestamp == self@[0].timestamp,
    {
        proof {
            use_type_invariant(self);
        }
        self.samples[0].timestamp
    }

    /// Timestamp of the last sample.
    pub fn last_timestamp(&self) -> (timestamp: i64)
        ensures
            self@.len() >= 1,
            timestamp == self@[self@.len() - 1].timestamp,
    {
        proof {
            use_type_invariant(self);
        }
        self.samples[self.samples.len() - 1].timestamp
    }

    /// Whether the timestamps of the series never go back.
    pub fn is_chronological(&self) -> (ordered: bool)
        ensures
            ordered == chronological(self@),
    {
        proof {
            use_type_invariant(self);
        }
        let mut at: usize = 1;
        while at < self.samples.len()
            invariant
                1 <= at <= self.samples@.len(),
                chronological(self.samples@.take(at as int)),
            decreases self.samples@.len() - at,
        {
            if self.samples[at].timestamp < self.samples[at - 1].timestamp {
                return false;
            }
            proof {
                let before = self.samples@.take(at as int);
                let after = self.samples@.take(at + 1);
                assert forall|i: int, j: int| 0 <= i <= j < after.len() implies (
                #[trigger] after[i]).timestamp <= (#[trigger] after[j]).timestamp by {
                    if j < at {
                        assert(before[i].timestamp <= before[j].timestamp);
                    } else if i < at {
                        assert(before[i].timestamp <= before[at - 1].timestamp);
                    }
                }
            }
            at += 1;
        }
        assert(self.samples@.take(at as int) == self.samples@);
        true
    }
}

} // verus!
