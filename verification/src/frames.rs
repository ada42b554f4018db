//! The clock of the video: when it starts, and the instant of each frame.

use vstd::prelude::*;
use vstd::arithmetic::div_mod::lemma_div_is_ordered;

verus! {

/// The form in which a video's metadata gives its creation time: date and
/// time of day with an optional fraction of a second, closed by a `Z`.
pub const CREATION_TIME_FORMAT: &'static str = "%Y-%m-%dT%H:%M:%S%.fZ";

/// The instant that `text` denotes when it is read as a date and time without
/// a time zone in the form that `format` gives, in microseconds since the Unix
/// epoch; nothing where `text` is not of that form.
pub uninterp spec fn naive_micros(text: Seq<char>, format: Seq<char>) -> Option<i64>;

/// Reads `text` as a date and time in the form that `format` gives.
///
/// Trusted: this is `chrono::NaiveDateTime::parse_from_str`, whose result is
/// turned into microseconds since the Unix epoch by `and_utc` and
/// `timestamp_micros`. The parser looks at its two arguments only, reports
/// every text that it cannot read as an error, and the count of microseconds
/// of every date that it can read fits in 64 bits.
#[verifier::external_body]
fn parse_naive_micros(text: &str, format: &str) -> (instant: Option<i64>)
    ensures
        instant == naive_micros(text@, format@),
{
    match chrono::NaiveDateTime::parse_from_str(text, format) {
        Ok(read) => Some(read.and_utc().timestamp_micros()),
        Err(_) => None,
    }
}

/// The start time of a video, from the creation time in its metadata.
///
/// The text is taken as it stands, without any shift between time zones.
pub fn parse_creation_time(text: &str) -> (instant: Option<i64>)
    ensures
        instant == naive_micros(text@, CREATION_TIME_FORMAT@),
{
    parse_naive_micros(text, CREATION_TIME_FORMAT)
}

/// A fixed frame rate, as the exact ratio of a number of frames to the
/// number of seconds that they take. Neither number is zero.
#[derive(Clone, Copy, Debug, PartialEq, Eq)]
pub struct FrameRate {
    frames: u32,
    seconds: u32,
}

/// Time from the start of a video to its frame `frame_index`, in
/// microseconds, at `frames` frames in `seconds` seconds; a part of a
/// microsecond is dropped.
pub open spec fn frame_offset(frame_index: int, frames: int, seconds: int) -> int {
    (frame_index * 1_000_000 * seconds) / frames
}

impl FrameRate {
    #[verifier::type_invariant]
    spec fn positive(self) -> bool {
        self.frames >= 1 && self.seconds >= 1
    }

    /// Number of frames in `self.seconds()` seconds.
    pub closed spec fn frames(self) -> int {
        self.frames as int
    }

    /// Number of seconds that `self.frames()` frames take.
    pub closed spec fn seconds(self) -> int {
        self.seconds as int
    }

    /// The rate of `frames` frames in `seconds` seconds; nothing if either
    /// number is zero.
    pub fn new(frames: u32, seconds: u32) -> (rate: Option<FrameRate>)
        ensures
            rate is Some <==> frames >= 1 && seconds >= 1,
            rate is Some ==> rate.unwrap().frames() == frames && rate.unwrap().seconds()
                == seconds,
    {
        if frames == 0 || seconds == 0 {
            None
        } else {
            Some(FrameRate { frames, seconds })
        }
    }

    /// The instant of frame `frame_index` of a video that starts at
    /// `start_time`: the start time plus the index divided by the rate.
    ///
    /// Nothing exactly if that instant does not fit in 64 bits.
    pub fn frame_timestamp(&self, start_time: i64, frame_index: u64) -> (instant: Option<i64>)
        ensures
            self.frames() >= 1,
            self.seconds() >= 1,
            match instant {
                Some(instant) => instant == start_time + frame_offset(
                    frame_index as int,
                    self.frames(),
                    self.seconds(),
                ),
                None => start_time + frame_offset(
                    frame_index as int,
                    self.frames(),
                    self.seconds(),
                ) > i64::MAX,
            },
    {
        proof {
            use_type_invariant(self);
        }
        let scaled: u128 = frame_index as u128 * 1_000_000;
        assert(scaled * self.seconds <= 0xffff_ffff_ffff_ffff * 1_000_000 * 0xffff_ffff)
            by (nonlinear_arith)
            requires
                0 <= scaled <= 0xffff_ffff_ffff_ffff * 1_000_000,
                0 <= self.seconds <= 0xffff_ffff,
        ;
        let offset: u128 = scaled * (self.seconds as u128) / (self.frames as u128);
        proof {
            lemma_div_is_ordered(
                0,
                frame_index as int * 1_000_000 * self.seconds as int,
                self.frames as int,
            );
        }
        if offset > u64::MAX as u128 {
            return None;
        }
        let instant: i128 = start_time as i128 + offset as i128;
        if instant > i64::MAX as i128 {
            None
        } else {
            Some(instant as i64)
        }
    }
}

/// Later frames have later instants, or the same.
pub proof fn lemma_frame_offsets_never_go_back(
    earlier: int,
    later: int,
    frames: int,
    seconds: int,
)
    requires
        0 <= earlier <= later,
        frames >= 1,
        seconds >= 1,
    ensures
        0 <= frame_offset(earlier, frames, seconds) <= frame_offset(later, frames, seconds),
{
    assert(0 <= earlier * 1_000_000 * seconds <= later * 1_000_000 * seconds)
        by (nonlinear_arith)
        requires
            0 <= earlier <= later,
            seconds >= 1,
    ;
    lemma_div_is_ordered(0, earlier * 1_000_000 * seconds, frames);
    lemma_div_is_ordered(earlier * 1_000_000 * seconds, later * 1_000_000 * seconds, frames);
}

} // verus!
