//! From decoded telemetry messages to samples.
//!
//! A telemetry file decodes into messages of many kinds, each a list of named
//! fields. Only the messages of kind [`RECORD_MESSAGE`] are readings. A
//! reading keeps the fields it knows by name, and of each the value of the
//! type it expects; everything else degrades to "absent".

use vstd::prelude::*;
use crate::error::AlignError;
pub use crate::record::RecordDataField;

verus! {

/// The kind of the messages that hold one telemetry reading each.
pub const RECORD_MESSAGE: u16 = 20;

/// The value of one field of a decoded message.
#[derive(Clone, Copy, Debug, PartialEq, Eq)]
pub enum FieldValue {
    /// An absolute instant, in microseconds since the Unix epoch.
    Timestamp(i64),
    /// A signed 8-bit integer.
    SInt8(i8),
    /// An unsigned 8-bit integer.
    UInt8(u8),
    /// An unsigned 16-bit integer.
    UInt16(u16),
    /// A signed 32-bit integer.
    SInt32(i32),
    /// An unsigned 32-bit integer.
    UInt32(u32),
    /// A real-valued quantity, in millionths of its unit.
    Scaled(i64),
    /// A value of any other type, which no reading keeps.
    Other,
}

/// One named field of a decoded message.
#[derive(Clone, Debug, PartialEq, Eq)]
pub struct DataField {
    pub name: String,
    pub value: FieldValue,
}

/// One decoded message: its kind and its fields, in the order of the file.
#[derive(Clone, Debug, PartialEq, Eq)]
pub struct DataMessage {
    pub kind: u16,
    pub fields: Vec<DataField>,
}

/// The value of the last of `fields` that is called `name`, if there is one:
/// where a name occurs twice, the later field wins.
pub open spec fn last_named(fields: Seq<DataField>, name: Seq<char>) -> Option<FieldValue>
    decreases fields.len(),
{
    if fields.len() == 0 {
        None
    } else if fields.last().name@ == name {
        Some(fields.last().value)
    } else {
        last_named(fields.drop_last(), name)
    }
}

/// The instant that `value` holds, if it holds one.
pub open spec fn timestamp_in(value: Option<FieldValue>) -> Option<i64> {
    match value {
        Some(FieldValue::Timestamp(v)) => Some(v),
        _ => None,
    }
}

/// The signed 8-bit integer that `value` holds, if it holds one.
pub open spec fn sint8_in(value: Option<FieldValue>) -> Option<i8> {
    match value {
        Some(FieldValue::SInt8(v)) => Some(v),
        _ => None,
    }
}

/// The unsigned 8-bit integer that `value` holds, if it holds one.
pub open spec fn uint8_in(value: Option<FieldValue>) -> Option<u8> {
    match value {
        Some(FieldValue::UInt8(v)) => Some(v),
        _ => None,
    }
}

/// The unsigned 16-bit integer that `value` holds, if it holds one.
pub open spec fn uint16_in(value: Option<FieldValue>) -> Option<u16> {
    match value {
        Some(FieldValue::UInt16(v)) => Some(v),
        _ => None,
    }
}

/// The signed 32-bit integer that `value` holds, if it holds one.
pub open spec fn sint32_in(value: Option<FieldValue>) -> Option<i32> {
    match value {
        Some(FieldValue::SInt32(v)) => Some(v),
        _ => None,
    }
}

/// The unsigned 32-bit integer that `value` holds, if it holds one.
pub open spec fn uint32_in(value: Option<FieldValue>) -> Option<u32> {
    match value {
        Some(FieldValue::UInt32(v)) => Some(v),
        _ => None,
    }
}

/// The real-valued quantity that `value` holds, if it holds one.
pub open spec fn scaled_in(value: Option<FieldValue>) -> Option<i64> {
    match value {
        Some(FieldValue::Scaled(v)) => Some(v),
        _ => None,
    }
}

/// The real-valued quantity that `value` holds, and zero if it holds none.
pub open spec fn scaled_or_zero(value: Option<FieldValue>) -> i64 {
    match value {
        Some(FieldValue::Scaled(v)) => v,
        _ => 0,
    }
}

/// The reading that a message with these fields holds, if it holds one.
///
/// A message is a reading exactly if its last field called `timestamp` holds
/// an instant. Each metric is taken from the last field of its name, if that
/// field's value has the metric's type; the distance and the speed are zero
/// where the message does not give them. The altitude is not read from the
/// message.
pub open spec fn decoded_record(fields: Seq<DataField>) -> Option<RecordDataField> {
    match timestamp_in(last_named(fields, "timestamp"@)) {
        None => None,
        Some(timestamp) => Some(
            RecordDataField {
                timestamp,
                lat: sint32_in(last_named(fields, "position_lat"@)),
                long: sint32_in(last_named(fields, "position_long"@)),
                hr: uint8_in(last_named(fields, "heart_rate"@)),
                cadence: uint8_in(last_named(fields, "cadence"@)),
                distance: scaled_or_zero(last_named(fields, "distance"@)),
                power: uint16_in(last_named(fields, "power"@)),
                temperature: sint8_in(last_named(fields, "temperature"@)),
                accumulated_power: uint32_in(last_named(fields, "accumulated_power"@)),
                fractional_cadence: scaled_in(last_named(fields, "fractional_cadence"@)),
                enhanced_speed: scaled_or_zero(last_named(fields, "enhanced_speed"@)),
                enhanced_altitude: None,
            },
        ),
    }
}

/// Whether two texts are the same, character for character.
///
/// Trusted: this is the equality of `str` from the standard library, which
/// compares the two texts byte by byte.
#[verifier::external_body]
fn same_text(left: &str, right: &str) -> (same: bool)
    ensures
        same == (left@ == right@),
{
    left == right
}

/// The field names that a reading knows all differ in length, and so from
/// one another.
proof fn lemma_known_name_lengths()
    ensures
        "position_lat"@.len() == 12,
        "position_long"@.len() == 13,
        "heart_rate"@.len() == 10,
        "cadence"@.len() == 7,
        "distance"@.len() == 8,
        "power"@.len() == 5,
        "temperature"@.len() == 11,
        "accumulated_power"@.len() == 17,
        "fractional_cadence"@.len() == 18,
        "enhanced_speed"@.len() == 14,
        "timestamp"@.len() == 9,
{
    reveal_strlit("position_lat");
    reveal_strlit("position_long");
    reveal_strlit("heart_rate");
    reveal_strlit("cadence");
    reveal_strlit("distance");
    reveal_strlit("power");
    reveal_strlit("temperature");
    reveal_strlit("accumulated_power");
    reveal_strlit("fractional_cadence");
    reveal_strlit("enhanced_speed");
    reveal_strlit("timestamp");
}

/// Reads one telemetry reading out of a decoded message.
///
/// Fails with `MissingTimestamp` exactly if the message's last `timestamp`
/// field does not hold an instant, or the message has no such field. Fields
/// of unknown names are passed over.
pub fn parse_fit_data_record(record: &DataMessage) -> (result: Result<RecordDataField, AlignError>)
    ensures
        result == match decoded_record(record.fields@) {
            Some(reading) => Ok::<RecordDataField, AlignError>(reading),
            None => Err::<RecordDataField, AlignError>(AlignError::MissingTimestamp),
        },
{
    let mut timestamp: Option<i64> = None;
    let mut lat: Option<i32> = None;
    let mut long: Option<i32> = None;
    let mut hr: Option<u8> = None;
    let mut cadence: Option<u8> = None;
    let mut distance: i64 = 0;
    let mut power: Option<u16> = None;
    let mut temperature: Option<i8> = None;
    let mut accumulated_power: Option<u32> = None;
    let mut fractional_cadence: Option<i64> = None;
    let mut enhanced_speed: i64 = 0;
    let enhanced_altitude: Option<i64> = None;

    let ghost fields = record.fields@;
    let mut at: usize = 0;
    while at < record.fields.len()
        invariant
            fields == record.fields@,
            at <= fields.len(),
            timestamp == timestamp_in(last_named(fields.take(at as int), "timestamp"@)),
            lat == sint32_in(last_named(fields.take(at as int), "position_lat"@)),
            long == sint32_in(last_named(fields.take(at as int), "position_long"@)),
            hr == uint8_in(last_named(fields.take(at as int), "heart_rate"@)),
            cadence == uint8_in(last_named(fields.take(at as int), "cadence"@)),
            distance == scaled_or_zero(last_named(fields.take(at as int), "distance"@)),
            power == uint16_in(last_named(fields.take(at as int), "power"@)),
            temperature == sint8_in(last_named(fields.take(at as int), "temperature"@)),
            accumulated_power == uint32_in(
                last_named(fields.take(at as int), "accumulated_power"@),
            ),
            fractional_cadence == scaled_in(
                last_named(fields.take(at as int), "fractional_cadence"@),
            ),
            enhanced_speed == scaled_or_zero(
                last_named(fields.take(at as int), "enhanced_speed"@),
            ),
        decreases fields.len() - at,
    {
        let field = &record.fields[at];
        let name = field.name.as_str();
        proof {
            lemma_known_name_lengths();
            assert(fields.take(at + 1).last() == fields[at as int]);
            assert(fields.take(at + 1).drop_last() == fields.take(at as int));
        }
        if same_text(name, "position_lat") {
            lat = match field.value {
                FieldValue::SInt32(v) => Some(v),
                _ => None,
            };
        } else if same_text(name, "position_long") {
            long = match field.value {
                FieldValue::SInt32(v) => Some(v),
                _ => None,
            };
        } else if same_text(name, "heart_rate") {
            hr = match field.value {
                FieldValue::UInt8(v) => Some(v),
                _ => None,
            };
        } else if same_text(name, "cadence") {
            cadence = match field.value {
                FieldValue::UInt8(v) => Some(v),
                _ => None,
            };
        } else if same_text(name, "distance") {
            distance = match field.value {
                FieldValue::Scaled(v) => v,
                _ => 0,
            };
        } else if same_text(name, "power") {
            power = match field.value {
                FieldValue::UInt16(v) => Some(v),
                _ => None,
            };
        } else if same_text(name, "temperature") {
            temperature = match field.value {
                FieldValue::SInt8(v) => Some(v),
                _ => None,
            };
        } else if same_text(name, "accumulated_power") {
            accumulated_power = match field.value {
                FieldValue::UInt32(v) => Some(v),
                _ => None,
            };
        } else if same_text(name, "fractional_cadence") {
            fractional_cadence = match field.value {
                FieldValue::Scaled(v) => Some(v),
                _ => None,
            };
        } else if same_text(name, "enhanced_speed") {
            enhanced_speed = match field.value {
                FieldValue::Scaled(v) => v,
                _ => 0,
            };
        } else if same_text(name, "timestamp") {
            timestamp = match field.value {
                FieldValue::Timestamp(v) => Some(v),
                _ => None,
            };
        }
        at += 1;
    }
    assert(fields.take(at as int) == fields);
    match timestamp {
        None => Err(AlignError::MissingTimestamp),
        Some(timestamp) => Ok(
            RecordDataField {
                timestamp,
                lat,
                long,
                hr,
                cadence,
                distance,
                power,
                temperature,
                accumulated_power,
                fractional_cadence,
                enhanced_speed,
                enhanced_altitude,
            },
        ),
    }
}

/// Whether a message holds a telemetry reading.
pub open spec fn is_reading(message: DataMessage) -> bool {
    message.kind == RECORD_MESSAGE
}

/// The messages that hold a telemetry reading, in their order.
pub open spec fn readings_of(messages: Seq<DataMessage>) -> Seq<DataMessage> {
    messages.filter(|message: DataMessage| is_reading(message))
}

/// The readings that a sequence of decoded messages holds, in the order of
/// the messages; nothing at all if one of its reading messages has no
/// timestamp.
pub open spec fn decoded_series(messages: Seq<DataMessage>) -> Option<Seq<RecordDataField>> {
    let readings = readings_of(messages);
    if forall|i: int|
        0 <= i < readings.len() ==> decoded_record((#[trigger] readings[i]).fields@) is Some {
        Some(
            readings.map_values(|message: DataMessage| decoded_record(message.fields@).unwrap()),
        )
    } else {
        None
    }
}

/// What one more message adds to the readings of the messages before it.
proof fn lemma_decoded_series_push(before: Seq<DataMessage>, message: DataMessage)
    ensures
        decoded_series(before.push(message)) == if !is_reading(message) {
            decoded_series(before)
        } else {
            match (decoded_series(before), decoded_record(message.fields@)) {
                (Some(readings), Some(reading)) => Some(readings.push(reading)),
                _ => None,
            }
        },
{
    reveal(Seq::filter);
    let all = before.push(message);
    assert(all.drop_last() == before);
    assert(all.last() == message);
    let kept = readings_of(before);
    if is_reading(message) {
        assert(readings_of(all) == kept.push(message));
        if decoded_series(before) is Some && decoded_record(message.fields@) is Some {
            assert forall|i: int| 0 <= i < kept.push(message).len() implies decoded_record(
                (#[trigger] kept.push(message)[i]).fields@,
            ) is Some by {
                if i < kept.len() {
                    assert(kept.push(message)[i] == kept[i]);
                }
            }
            assert(decoded_series(all).unwrap() =~= decoded_series(before).unwrap().push(
                decoded_record(message.fields@).unwrap(),
            ));
        } else if decoded_series(before) is None {
            let i = choose|i: int|
                0 <= i < kept.len() && !(decoded_record((#[trigger] kept[i]).fields@) is Some);
            assert(kept.push(message)[i] == kept[i]);
        } else {
            assert(kept.push(message)[kept.len() as int] == message);
        }
    } else {
        assert(readings_of(all) == kept);
    }
}

/// Once a reading message without a timestamp has been met, no later message
/// makes up for it.
proof fn lemma_missing_timestamp_persists(messages: Seq<DataMessage>, met: int)
    requires
        0 <= met <= messages.len(),
        decoded_series(messages.take(met)) is None,
    ensures
        decoded_series(messages) is None,
    decreases messages.len() - met,
{
    if met == messages.len() {
        assert(messages.take(met) == messages);
    } else {
        assert(messages.take(met + 1) == messages.take(met).push(messages[met]));
        lemma_decoded_series_push(messages.take(met), messages[met]);
        lemma_missing_timestamp_persists(messages, met + 1);
    }
}

/// Reads the telemetry readings out of the decoded messages of a file.
///
/// The messages that are no readings are passed over; the readings come out
/// in the order of the file. Fails with `MissingTimestamp` exactly if one of
/// the reading messages has no timestamp.
pub fn parse_fit_file(messages: &Vec<DataMessage>) -> (result: Result<
    Vec<RecordDataField>,
    AlignError,
>)
    ensures
        match result {
            Ok(readings) => decoded_series(messages@) == Some(readings@),
            Err(error) => error == AlignError::MissingTimestamp && decoded_series(messages@)
                is None,
        },
{
    let mut linearization: Vec<RecordDataField> = Vec::new();
    let mut at: usize = 0;
    proof {
        reveal(Seq::filter);
        assert(messages@.take(0).len() == 0);
        assert(decoded_series(messages@.take(0)).unwrap() =~= linearization@);
    }
    while at < messages.len()
        invariant
            at <= messages@.len(),
            decoded_series(messages@.take(at as int)) == Some(linearization@),
        decreases messages@.len() - at,
    {
        let entry = &messages[at];
        proof {
            assert(messages@.take(at + 1) == messages@.take(at as int).push(messages@[at as int]));
            lemma_decoded_series_push(messages@.take(at as int), messages@[at as int]);
        }
        if entry.kind == RECORD_MESSAGE {
            match parse_fit_data_record(entry) {
                Ok(reading) => {
                    linearization.push(reading);
                },
                Err(error) => {
                    proof {
                        lemma_missing_timestamp_persists(messages@, at + 1);
                    }
                    return Err(error);
                },
            }
        }
        at += 1;
    }
    assert(messages@.take(at as int) == messages@);
    Ok(linearization)
}

} // verus!
