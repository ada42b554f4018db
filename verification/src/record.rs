//! One telemetry reading and the metrics it can carry.

use vstd::prelude::*;

verus! {

/// One timestamped telemetry reading.
///
/// The timestamp, the distance and the speed are always present. Every other
/// metric is optional, and an absent metric means "unknown at this instant",
/// never zero.
#[derive(Clone, Copy, Debug, PartialEq, Eq)]
pub struct RecordDataField {
    /// Instant of the reading, in microseconds since the Unix epoch.
    pub timestamp: i64,
    /// Latitude, in semicircles.
    pub lat: Option<i32>,
    /// Longitude, in semicircles.
    pub long: Option<i32>,
    /// Heart rate, in beats per minute.
    pub hr: Option<u8>,
    /// Cadence, in revolutions per minute.
    pub cadence: Option<u8>,
    /// Distance covered, in millionths of a metre.
    pub distance: i64,
    /// Power, in watts.
    pub power: Option<u16>,
    /// Temperature, in degrees Celsius.
    pub temperature: Option<i8>,
    /// Accumulated power, in watts.
    pub accumulated_power: Option<u32>,
    /// Fractional part of the cadence, in millionths of a revolution per minute.
    pub fractional_cadence: Option<i64>,
    /// Speed, in millionths of a metre per second.
    pub enhanced_speed: i64,
    /// Altitude, in millionths of a metre.
    pub enhanced_altitude: Option<i64>,
}

/// The metrics of a reading, by name.
#[derive(Clone, Copy, Debug, PartialEq, Eq, Structural)]
pub enum Metric {
    Lat,
    Long,
    HeartRate,
    Cadence,
    Distance,
    Power,
    Temperature,
    AccumulatedPower,
    FractionalCadence,
    EnhancedSpeed,
    EnhancedAltitude,
}

impl RecordDataField {
    /// What this reading says of `metric`, as a 64-bit integer in the unit of
    /// the field that holds it.
    pub open spec fn metric_value(self, metric: Metric) -> Option<i64> {
        match metric {
            Metric::Lat => match self.lat {
                Some(v) => Some(v as i64),
                None => None,
            },
            Metric::Long => match self.long {
                Some(v) => Some(v as i64),
                None => None,
            },
            Metric::HeartRate => match self.hr {
                Some(v) => Some(v as i64),
                None => None,
            },
            Metric::Cadence => match self.cadence {
                Some(v) => Some(v as i64),
                None => None,
            },
            Metric::Distance => Some(self.distance),
            Metric::Power => match self.power {
                Some(v) => Some(v as i64),
                None => None,
            },
            Metric::Temperature => match self.temperature {
                Some(v) => Some(v as i64),
                None => None,
            },
            Metric::AccumulatedPower => match self.accumulated_power {
                Some(v) => Some(v as i64),
                None => None,
            },
            Metric::FractionalCadence => self.fractional_cadence,
            Metric::EnhancedSpeed => Some(self.enhanced_speed),
            Metric::EnhancedAltitude => self.enhanced_altitude,
        }
    }

    /// What this reading says of `metric`.
    pub fn metric(&self, metric: Metric) -> (value: Option<i64>)
        ensures
            value == self.metric_value(metric),
    {
        match metric {
            Metric::Lat => match self.lat {
                Some(v) => Some(v as i64),
                None => None,
            },
            Metric::Long => match self.long {
                Some(v) => Some(v as i64),
                None => None,
            },
            Metric::HeartRate => match self.hr {
                Some(v) => Some(v as i64),
                None => None,
            },
            Metric::Cadence => match self.cadence {
                Some(v) => Some(v as i64),
                None => None,
            },
            Metric::Distance => Some(self.distance),
            Metric::Power => match self.power {
                Some(v) => Some(v as i64),
                None => None,
            },
            Metric::Temperature => match self.temperature {
                Some(v) => Some(v as i64),
                None => None,
            },
            Metric::AccumulatedPower => match self.accumulated_power {
                Some(v) => Some(v as i64),
                None => None,
            },
            Metric::FractionalCadence => self.fractional_cadence,
            Metric::EnhancedSpeed => Some(self.enhanced_speed),
            Metric::EnhancedAltitude => self.enhanced_altitude,
        }
    }
}

} // verus!
