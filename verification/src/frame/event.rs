//! Event frames: the tag byte `E`, a code, and what the code calls for.
use vstd::prelude::*;
use crate::frame::{
    lemma_varint_cut, lemma_varint_extent, spec_cut, spec_le_uint, spec_take_varint,
    spec_zigzag_decode, take_varint, zigzag_decode, Fault,
};

verus! {

/// The tag byte of an event frame, `E`.
pub const TAG_E: u8 = 0x45;

/// A beep that marks a common point in time for log and video.
#[derive(Clone, Copy, Debug, PartialEq, Eq, Structural)]
pub struct SyncBeep {
    pub time: u32,
}

/// A change of flight mode flags.
#[derive(Clone, Copy, Debug, PartialEq, Eq, Structural)]
pub struct FlightMode {
    pub flags: u32,
    pub old_flags: u32,
}

/// The craft was disarmed.
#[derive(Clone, Copy, Debug, PartialEq, Eq, Structural)]
pub struct Disarm {
    pub reason: u32,
}

/// The new value of an adjusted setting.
#[derive(Clone, Copy, Debug, PartialEq, Eq, Structural)]
pub enum Adjustment {
    /// The bit pattern of an IEEE-754 single.
    Float(u32),
    Int(i32),
}

/// A setting was adjusted in flight.
#[derive(Clone, Copy, Debug, PartialEq, Eq, Structural)]
pub struct InFlightAdjustment {
    pub function: u8,
    pub adjustment: Adjustment,
}

/// Logging went on after a pause.
#[derive(Clone, Copy, Debug, PartialEq, Eq, Structural)]
pub struct LoggingResume {
    pub iteration: u32,
    pub time: u32,
}

/// An event of the log.
#[derive(Clone, Copy, Debug, PartialEq, Eq, Structural)]
pub enum Frame {
    SyncBeep(SyncBeep),
    FlightMode(FlightMode),
    Disarm(Disarm),
    InFlightAdjustment(InFlightAdjustment),
    LoggingResume(LoggingResume),
    EndOfLog,
}

/// The bytes that follow the code of the last event: `End of log` and a
/// zero byte.
pub open spec fn spec_end_of_log() -> Seq<u8> {
    seq![0x45u8, 0x6e, 0x64, 0x20, 0x6f, 0x66, 0x20, 0x6c, 0x6f, 0x67, 0x00]
}

/// Holds `literal` against the input from its `i`-th byte on: a byte that
/// differs is a soft fault, the end of the input before that is incomplete.
pub open spec fn spec_match_from(s: Seq<u8>, pos: int, literal: Seq<u8>, i: nat) -> Result<int, Fault>
    decreases literal.len() - i,
{
    if i >= literal.len() {
        Ok(pos + literal.len())
    } else if pos < 0 || pos + i >= s.len() {
        Err(Fault::Incomplete)
    } else if s[pos + i] != literal[i as int] {
        Err(Fault::Soft)
    } else {
        spec_match_from(s, pos, literal, i + 1)
    }
}

/// Two varints, one after the other.
pub open spec fn spec_two_varints(s: Seq<u8>, pos: int) -> Result<(int, u32, u32), Fault> {
    match spec_take_varint(s, pos) {
        Err(e) => Err(e),
        Ok((p1, a)) => match spec_take_varint(s, p1) {
            Err(e) => Err(e),
            Ok((p2, b)) => Ok((p2, a, b)),
        },
    }
}

/// The event frame at `pos`. A first byte other than `E` and a code that
/// names no event are soft faults.
pub open spec fn spec_parse_event(s: Seq<u8>, pos: int) -> Result<(int, Frame), Fault> {
    if pos < 0 || pos >= s.len() {
        Err(Fault::Incomplete)
    } else if s[pos] != TAG_E {
        Err(Fault::Soft)
    } else if pos + 1 >= s.len() {
        Err(Fault::Incomplete)
    } else {
        let code = s[pos + 1];
        if code == 0 {
            match spec_take_varint(s, pos + 2) {
                Err(e) => Err(e),
                Ok((next, time)) => Ok((next, Frame::SyncBeep(SyncBeep { time }))),
            }
        } else if code == 13 {
            if pos + 2 >= s.len() {
                Err(Fault::Incomplete)
            } else if s[pos + 2] >= 128 {
                if pos + 7 > s.len() {
                    Err(Fault::Incomplete)
                } else {
                    Ok(
                        (
                            pos + 7,
                            Frame::InFlightAdjustment(
                                InFlightAdjustment {
                                    function: (s[pos + 2] - 128) as u8,
                                    adjustment: Adjustment::Float(
                                        spec_le_uint(s, pos + 3, 4) as u32,
                                    ),
                                },
                            ),
                        ),
                    )
                }
            } else {
                match spec_take_varint(s, pos + 3) {
                    Err(e) => Err(e),
                    Ok((next, v)) => Ok(
                        (
                            next,
                            Frame::InFlightAdjustment(
                                InFlightAdjustment {
                                    function: s[pos + 2],
                                    adjustment: Adjustment::Int(spec_zigzag_decode(v) as i32),
                                },
                            ),
                        ),
                    ),
                }
            }
        } else if code == 14 {
            match spec_two_varints(s, pos + 2) {
                Err(e) => Err(e),
                Ok((next, iteration, time)) => Ok(
                    (next, Frame::LoggingResume(LoggingResume { iteration, time })),
                ),
            }
        } else if code == 15 {
            match spec_take_varint(s, pos + 2) {
                Err(e) => Err(e),
                Ok((next, reason)) => Ok((next, Frame::Disarm(Disarm { reason }))),
            }
        } else if code == 30 {
            match spec_two_varints(s, pos + 2) {
                Err(e) => Err(e),
                Ok((next, flags, old_flags)) => Ok(
                    (next, Frame::FlightMode(FlightMode { flags, old_flags })),
                ),
            }
        } else if code == 255 {
            match spec_match_from(s, pos + 2, spec_end_of_log(), 0) {
                Err(e) => Err(e),
                Ok(next) => Ok((next, Frame::EndOfLog)),
            }
        } else {
            Err(Fault::Soft)
        }
    }
}

fn take_two_varints(input: &[u8], pos: usize) -> (r: Result<(usize, u32, u32), Fault>)
    ensures
        r matches Ok((next, a, b)) ==> spec_two_varints(input@, pos as int) == Ok::<
            (int, u32, u32),
            Fault,
        >((next as int, a, b)) && pos < next <= input@.len(),
        r matches Err(e) ==> spec_two_varints(input@, pos as int) == Err::<(int, u32, u32), Fault>(
            e,
        ),
{
    match take_varint(input, pos) {
        Err(e) => Err(e),
        Ok((p1, a)) => match take_varint(input, p1) {
            Err(e) => Err(e),
            Ok((p2, b)) => Ok((p2, a, b)),
        },
    }
}

fn match_end_of_log(input: &[u8], pos: usize) -> (r: Result<usize, Fault>)
    ensures
        r matches Ok(next) ==> spec_match_from(input@, pos as int, spec_end_of_log(), 0) == Ok::<
            int,
            Fault,
        >(next as int) && pos < next <= input@.len(),
        r matches Err(e) ==> spec_match_from(input@, pos as int, spec_end_of_log(), 0) == Err::<
            int,
            Fault,
        >(e),
{
    let literal: [u8; 11] = [0x45, 0x6e, 0x64, 0x20, 0x6f, 0x66, 0x20, 0x6c, 0x6f, 0x67, 0x00];
    assert(literal@ =~= spec_end_of_log());
    let len: usize = input.len();
    let mut i: usize = 0;
    while i < 11
        invariant
            i <= 11,
            len == input@.len(),
            literal@ == spec_end_of_log(),
            i > 0 ==> pos + i <= input@.len(),
            spec_match_from(input@, pos as int, spec_end_of_log(), 0) == spec_match_from(
                input@,
                pos as int,
                spec_end_of_log(),
                i as nat,
            ),
        decreases 11 - i,
    {
        if pos >= len || i >= len - pos {
            return Err(Fault::Incomplete);
        }
        if input[pos + i] != literal[i] {
            return Err(Fault::Soft);
        }
        i = i + 1;
    }
    Ok(pos + 11)
}

/// Reads an event frame.
pub fn parse_event(input: &[u8], pos: usize) -> (r: Result<(usize, Frame), Fault>)
    ensures
        r matches Ok((next, frame)) ==> spec_parse_event(input@, pos as int) == Ok::<
            (int, Frame),
            Fault,
        >((next as int, frame)) && pos < next <= input@.len(),
        r matches Err(e) ==> spec_parse_event(input@, pos as int) == Err::<(int, Frame), Fault>(e),
{
    if pos >= input.len() {
        return Err(Fault::Incomplete);
    }
    if input[pos] != TAG_E {
        return Err(Fault::Soft);
    }
    if input.len() - pos < 2 {
        return Err(Fault::Incomplete);
    }
    let event_code: u8 = input[pos + 1];
    let body: usize = pos + 2;
    if event_code == 0 {
        match take_varint(input, body) {
            Err(e) => Err(e),
            Ok((next, time)) => Ok((next, Frame::SyncBeep(SyncBeep { time }))),
        }
    } else if event_code == 13 {
        if body >= input.len() {
            return Err(Fault::Incomplete);
        }
        let function: u8 = input[body];
        if function >= 128 {
            if input.len() - body < 5 {
                return Err(Fault::Incomplete);
            }
            proof {
                reveal_with_fuel(spec_le_uint, 5);
            }
            let bits: u32 = input[body + 1] as u32 + 256 * (input[body + 2] as u32 + 256 * (
            input[body + 3] as u32 + 256 * (input[body + 4] as u32)));
            Ok(
                (
                    body + 5,
                    Frame::InFlightAdjustment(
                        InFlightAdjustment {
                            function: function - 128,
                            adjustment: Adjustment::Float(bits),
                        },
                    ),
                ),
            )
        } else {
            match take_varint(input, body + 1) {
                Err(e) => Err(e),
                Ok((next, value)) => Ok(
                    (
                        next,
                        Frame::InFlightAdjustment(
                            InFlightAdjustment {
                                function,
                                adjustment: Adjustment::Int(zigzag_decode(value)),
                            },
                        ),
                    ),
                ),
            }
        }
    } else if event_code == 14 {
        match take_two_varints(input, body) {
            Err(e) => Err(e),
            Ok((next, iteration, time)) => Ok(
                (next, Frame::LoggingResume(LoggingResume { iteration, time })),
            ),
        }
    } else if event_code == 15 {
        match take_varint(input, body) {
            Err(e) => Err(e),
            Ok((next, reason)) => Ok((next, Frame::Disarm(Disarm { reason }))),
        }
    } else if event_code == 30 {
        match take_two_varints(input, body) {
            Err(e) => Err(e),
            Ok((next, flags, old_flags)) => Ok(
                (next, Frame::FlightMode(FlightMode { flags, old_flags })),
            ),
        }
    } else if event_code == 255 {
        match match_end_of_log(input, body) {
            Err(e) => Err(e),
            Ok(next) => Ok((next, Frame::EndOfLog)),
        }
    } else {
        Err(Fault::Soft)
    }
}

proof fn lemma_match_extent(s: Seq<u8>, pos: int, literal: Seq<u8>, i: nat)
    requires
        0 <= pos,
        i <= literal.len(),
        pos + i <= s.len(),
    ensures
        spec_match_from(s, pos, literal, i) matches Ok(next) ==> next == pos + literal.len()
            && next <= s.len(),
    decreases literal.len() - i,
{
    if i < literal.len() && pos + i < s.len() && s[pos + i] == literal[i as int] {
        lemma_match_extent(s, pos, literal, i + 1);
    }
}

/// An event frame that decodes is not empty and ends in the input.
pub proof fn lemma_event_extent(s: Seq<u8>, pos: int)
    requires
        0 <= pos,
    ensures
        spec_parse_event(s, pos) matches Ok((next, _)) ==> pos < next <= s.len(),
{
    if pos + 1 < s.len() {
        lemma_varint_extent(s, pos + 2, 0);
        lemma_varint_extent(s, pos + 3, 0);
        if let Ok((p1, _)) = spec_take_varint(s, pos + 2) {
            lemma_varint_extent(s, p1, 0);
        }
        if pos + 2 <= s.len() {
            lemma_match_extent(s, pos + 2, spec_end_of_log(), 0);
        }
    }
}

proof fn lemma_match_cut(t: Seq<u8>, cut: int, pos: int, literal: Seq<u8>, i: nat)
    requires
        0 <= pos,
        0 <= cut <= t.len(),
        i <= literal.len(),
        pos + i <= cut,
    ensures
        spec_match_from(t, pos, literal, i) matches Ok(next) ==> (if next <= cut {
            spec_match_from(t.take(cut), pos, literal, i) == Ok::<int, Fault>(next)
        } else {
            spec_match_from(t.take(cut), pos, literal, i) == Err::<int, Fault>(Fault::Incomplete)
        }),
    decreases literal.len() - i,
{
    if i < literal.len() && pos + i < t.len() && t[pos + i] == literal[i as int] {
        lemma_match_extent(t, pos, literal, i + 1);
        if pos + i < cut {
            lemma_match_cut(t, cut, pos, literal, i + 1);
        }
    }
}

/// An event frame on an input that is cut off.
pub proof fn lemma_event_cut(t: Seq<u8>, cut: int, pos: int)
    requires
        0 <= pos,
        0 <= cut <= t.len(),
    ensures
        spec_cut(spec_parse_event(t, pos), spec_parse_event(t.take(cut), pos), cut),
{
    if pos + 1 < t.len() {
        lemma_varint_extent(t, pos + 2, 0);
        lemma_varint_extent(t, pos + 3, 0);
        lemma_match_extent(t, pos + 2, spec_end_of_log(), 0);
        if let Ok((p1, _)) = spec_take_varint(t, pos + 2) {
            lemma_varint_extent(t, p1, 0);
            if pos + 1 < cut {
                lemma_varint_cut(t, cut, p1, 0);
            }
        }
        if pos + 1 < cut {
            lemma_varint_cut(t, cut, pos + 2, 0);
            lemma_varint_cut(t, cut, pos + 3, 0);
            lemma_match_cut(t, cut, pos + 2, spec_end_of_log(), 0);
        }
    }
}

} // verus!
