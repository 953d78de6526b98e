//! Log levels and their encodings on both sides of the C++ boundary.
use vstd::prelude::*;

verus! {

/// Severity of a log record, from the most severe to the most verbose.
#[derive(Clone, Copy, Debug, PartialEq, Eq, Structural)]
pub enum Level {
    Error,
    Warn,
    Info,
    Debug,
    Trace,
}

/// Most verbose level that a logger lets through; `Off` lets nothing through.
#[derive(Clone, Copy, Debug, PartialEq, Eq, Structural)]
pub enum LevelFilter {
    Off,
    Error,
    Warn,
    Info,
    Debug,
    Trace,
}

/// Verbosity rank of a level: 1 for `Error` up to 5 for `Trace`.
pub open spec fn level_rank(level: Level) -> int {
    match level {
        Level::Error => 1,
        Level::Warn => 2,
        Level::Info => 3,
        Level::Debug => 4,
        Level::Trace => 5,
    }
}

/// Verbosity rank of a filter: 0 for `Off` up to 5 for `Trace`.
pub open spec fn filter_rank(filter: LevelFilter) -> int {
    match filter {
        LevelFilter::Off => 0,
        LevelFilter::Error => 1,
        LevelFilter::Warn => 2,
        LevelFilter::Info => 3,
        LevelFilter::Debug => 4,
        LevelFilter::Trace => 5,
    }
}

/// The filter that lets through exactly the levels up to `level`.
pub open spec fn filter_for(level: Level) -> LevelFilter {
    match level {
        Level::Error => LevelFilter::Error,
        Level::Warn => LevelFilter::Warn,
        Level::Info => LevelFilter::Info,
        Level::Debug => LevelFilter::Debug,
        Level::Trace => LevelFilter::Trace,
    }
}

/// The byte by which the C++ recorder knows a level (0x02 error .. 0x06 verbose).
pub open spec fn recorder_byte(level: Level) -> u8 {
    match level {
        Level::Error => 0x02,
        Level::Warn => 0x03,
        Level::Info => 0x04,
        Level::Debug => 0x05,
        Level::Trace => 0x06,
    }
}

/// The filter that a level byte reported by the C++ recorder stands for:
/// 0x00 off, 0x01 (fatal) and 0x02 error, 0x03 warn, 0x04 info, 0x05 debug,
/// 0x06 (verbose) trace, and info for any other byte.
pub open spec fn filter_of_recorder_byte(byte: u8) -> LevelFilter {
    if byte == 0x00 {
        LevelFilter::Off
    } else if byte == 0x01 || byte == 0x02 {
        LevelFilter::Error
    } else if byte == 0x03 {
        LevelFilter::Warn
    } else if byte == 0x04 {
        LevelFilter::Info
    } else if byte == 0x05 {
        LevelFilter::Debug
    } else if byte == 0x06 {
        LevelFilter::Trace
    } else {
        LevelFilter::Info
    }
}

/// The byte handed to the C++ recorder when asking whether `level` is enabled.
pub fn log_level_to_ffi(level: Level) -> (byte: u8)
    ensures
        byte == recorder_byte(level),
{
    match level {
        Level::Error => 0x02,
        Level::Warn => 0x03,
        Level::Info => 0x04,
        Level::Debug => 0x05,
        Level::Trace => 0x06,
    }
}

/// The filter for the maximum level byte reported by the C++ recorder.
pub fn log_level_from_ffi(level: u8) -> (filter: LevelFilter)
    ensures
        filter == filter_of_recorder_byte(level),
{
    match level {
        0x00 => LevelFilter::Off,
        0x01 => LevelFilter::Error,
        0x02 => LevelFilter::Error,
        0x03 => LevelFilter::Warn,
        0x04 => LevelFilter::Info,
        0x05 => LevelFilter::Debug,
        0x06 => LevelFilter::Trace,
        _ => LevelFilter::Info,
    }
}

/// The numeric value of a level as a record carries it (1 error .. 5 trace).
pub fn level_code(level: Level) -> (code: u8)
    ensures
        code as int == level_rank(level),
{
    match level {
        Level::Error => 1,
        Level::Warn => 2,
        Level::Info => 3,
        Level::Debug => 4,
        Level::Trace => 5,
    }
}

/// A level sent to the recorder and read back as a maximum level gives the
/// filter of that very level.
pub proof fn lemma_recorder_byte_roundtrip(level: Level)
    ensures
        filter_of_recorder_byte(recorder_byte(level)) == filter_for(level),
{
}

/// The recorder byte of a level is its record code plus one.
pub proof fn lemma_recorder_byte_is_code_plus_one(level: Level)
    ensures
        recorder_byte(level) as int == level_rank(level) + 1,
{
}

/// Within the bytes the recorder defines (0x00 to 0x06), a larger byte never
/// stands for a less verbose filter.
pub proof fn lemma_recorder_byte_monotonic(b1: u8, b2: u8)
    requires
        b1 <= b2 <= 0x06,
    ensures
        filter_rank(filter_of_recorder_byte(b1)) <= filter_rank(filter_of_recorder_byte(b2)),
{
}

} // verus!
