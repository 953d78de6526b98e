//! Typed log values and their tagged form for the C++ recorder.
use vstd::prelude::*;
use vstd::string::*;

verus! {

/// What a log value carries, with text taken as its characters.
pub enum Payload {
    I32(i32),
    U32(u32),
    I64(i64),
    U64(u64),
    /// A double, by its IEEE-754 bit pattern.
    F64(u64),
    Bool(bool),
    Str(Seq<char>),
}

/// A typed log value, so that values reach the recorder without being turned
/// into text first.
#[derive(Debug)]
pub enum LogValue {
    I32(i32),
    U32(u32),
    I64(i64),
    U64(u64),
    /// A double, by its IEEE-754 bit pattern.
    F64(u64),
    Bool(bool),
    Str(String),
}

impl View for LogValue {
    type V = Payload;

    open spec fn view(&self) -> Payload {
        match self {
            LogValue::I32(x) => Payload::I32(*x),
            LogValue::U32(x) => Payload::U32(*x),
            LogValue::I64(x) => Payload::I64(*x),
            LogValue::U64(x) => Payload::U64(*x),
            LogValue::F64(x) => Payload::F64(*x),
            LogValue::Bool(b) => Payload::Bool(*b),
            LogValue::Str(s) => Payload::Str(s@),
        }
    }
}

/// Conversion of a plain value into a log value.
pub trait IntoLogValue: Sized {
    /// What the converted value carries.
    spec fn log_payload(self) -> Payload;

    fn into_log_value(self) -> (v: LogValue)
        ensures
            v@ == self.log_payload(),
    ;
}

impl IntoLogValue for i32 {
    open spec fn log_payload(self) -> Payload {
        Payload::I32(self)
    }

    fn into_log_value(self) -> (v: LogValue)
        ensures
            v@ == Payload::I32(self),
    {
        LogValue::I32(self)
    }
}

impl IntoLogValue for i64 {
    open spec fn log_payload(self) -> Payload {
        Payload::I64(self)
    }

    fn into_log_value(self) -> (v: LogValue)
        ensures
            v@ == Payload::I64(self),
    {
        LogValue::I64(self)
    }
}

impl IntoLogValue for u32 {
    open spec fn log_payload(self) -> Payload {
        Payload::U32(self)
    }

    fn into_log_value(self) -> (v: LogValue)
        ensures
            v@ == Payload::U32(self),
    {
        LogValue::U32(self)
    }
}

impl IntoLogValue for bool {
    open spec fn log_payload(self) -> Payload {
        Payload::Bool(self)
    }

    fn into_log_value(self) -> (v: LogValue)
        ensures
            v@ == Payload::Bool(self),
    {
        LogValue::Bool(self)
    }
}

impl<'a> IntoLogValue for &'a str {
    open spec fn log_payload(self) -> Payload {
        Payload::Str(self@)
    }

    fn into_log_value(self) -> (v: LogValue)
        ensures
            v@ == Payload::Str(self@),
    {
        LogValue::Str(String::from_str(self))
    }
}

impl IntoLogValue for String {
    open spec fn log_payload(self) -> Payload {
        Payload::Str(self@)
    }

    fn into_log_value(self) -> (v: LogValue)
        ensures
            v@ == Payload::Str(self@),
    {
        LogValue::Str(self)
    }
}

/// Converts a plain value into a log value.
pub fn to_log_value<T: IntoLogValue>(val: T) -> (v: LogValue)
    ensures
        v@ == val.log_payload(),
{
    val.into_log_value()
}

/// Converting a plain value gives a log value of the matching kind that
/// carries that very value.
pub proof fn lemma_log_value_carries_input(a: i32, b: i64, c: u32, d: bool, e: &str, f: String)
    ensures
        a.log_payload() == Payload::I32(a),
        b.log_payload() == Payload::I64(b),
        c.log_payload() == Payload::U32(c),
        d.log_payload() == Payload::Bool(d),
        e.log_payload() == Payload::Str(e@),
        f.log_payload() == Payload::Str(f@),
{
}

} // verus!
