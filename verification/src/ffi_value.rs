//! Values in the tagged layout that the C++ recorder reads.
use vstd::prelude::*;
use vstd::string::*;
use crate::decimal::{
    push_decimal,
    push_signed_decimal,
    decimal,
    signed_decimal,
    is_numeral_of,
    is_signed_numeral_of,
    lemma_decimal_texts_are_numerals,
};
use crate::values::{LogValue, Payload};

verus! {

/// The tag by which the recorder tells payloads apart:
/// 0 i32, 1 u32, 2 i64, 3 u64, 4 f64, 5 bool, 6 string.
pub open spec fn payload_tag(p: Payload) -> u8 {
    match p {
        Payload::I32(_) => 0,
        Payload::U32(_) => 1,
        Payload::I64(_) => 2,
        Payload::U64(_) => 3,
        Payload::F64(_) => 4,
        Payload::Bool(_) => 5,
        Payload::Str(_) => 6,
    }
}

/// Text without a NUL character, so that it can travel as a C string.
pub open spec fn has_no_nul(s: Seq<char>) -> bool {
    forall|i: int| 0 <= i < s.len() ==> s[i] != '\0'
}

/// A payload that can be handed to the recorder: its text, if any, has no NUL.
pub open spec fn is_transferable(p: Payload) -> bool {
    match p {
        Payload::Str(s) => has_no_nul(s),
        _ => true,
    }
}

/// The data of a tagged value.
pub enum FfiValueData {
    I32(i32),
    U32(u32),
    I64(i64),
    U64(u64),
    /// A double, by its IEEE-754 bit pattern.
    F64(u64),
    Bool(bool),
    /// A string, handed over as a NUL-terminated C string.
    Str(String),
}

impl View for FfiValueData {
    type V = Payload;

    open spec fn view(&self) -> Payload {
        match self {
            FfiValueData::I32(x) => Payload::I32(*x),
            FfiValueData::U32(x) => Payload::U32(*x),
            FfiValueData::I64(x) => Payload::I64(*x),
            FfiValueData::U64(x) => Payload::U64(*x),
            FfiValueData::F64(x) => Payload::F64(*x),
            FfiValueData::Bool(b) => Payload::Bool(*b),
            FfiValueData::Str(s) => Payload::Str(s@),
        }
    }
}

/// A value as the recorder receives it: a tag and the data it announces.
pub struct FfiValue {
    pub tag: u8,
    pub data: FfiValueData,
}

/// The debug text of a tagged value; `data_text` renders the data of a double
/// and of a string pointer, which are not rendered here. A tag above 6 is
/// shown with unknown data.
pub open spec fn debug_text_of(tag: u8, p: Payload, data_text: Seq<char>) -> Seq<char> {
    if tag > 6 {
        "FfiValue { tag: "@ + decimal(tag as nat) + ", data: <unknown> }"@
    } else {
        debug_text_of_payload(p, data_text)
    }
}

/// The debug text of a value whose tag announces its payload.
pub open spec fn debug_text_of_payload(p: Payload, data_text: Seq<char>) -> Seq<char> {
    match p {
        Payload::I32(x) => "FfiValue { tag: 0 (i32), data: "@ + signed_decimal(x as int) + " }"@,
        Payload::U32(x) => "FfiValue { tag: 1 (u32), data: "@ + decimal(x as nat) + " }"@,
        Payload::I64(x) => "FfiValue { tag: 2 (i64), data: "@ + signed_decimal(x as int) + " }"@,
        Payload::U64(x) => "FfiValue { tag: 3 (u64), data: "@ + decimal(x as nat) + " }"@,
        Payload::F64(_) => "FfiValue { tag: 4 (f64), data: "@ + data_text + " }"@,
        Payload::Bool(b) => "FfiValue { tag: 5 (bool), data: "@ + (if b {
            "true"@
        } else {
            "false"@
        }) + " }"@,
        Payload::Str(_) => "FfiValue { tag: 6 (str_ptr), data: "@ + data_text + " }"@,
    }
}

impl FfiValue {
    /// The tag announces the data that the value holds.
    pub open spec fn wf(&self) -> bool {
        self.tag == payload_tag(self.data@)
    }

    pub fn from_i32(v: i32) -> (r: Self)
        ensures
            r.wf(),
            r.tag == 0,
            r.data@ == Payload::I32(v),
    {
        FfiValue { tag: 0, data: FfiValueData::I32(v) }
    }

    pub fn from_u32(v: u32) -> (r: Self)
        ensures
            r.wf(),
            r.tag == 1,
            r.data@ == Payload::U32(v),
    {
        FfiValue { tag: 1, data: FfiValueData::U32(v) }
    }

    pub fn from_i64(v: i64) -> (r: Self)
        ensures
            r.wf(),
            r.tag == 2,
            r.data@ == Payload::I64(v),
    {
        FfiValue { tag: 2, data: FfiValueData::I64(v) }
    }

    pub fn from_u64(v: u64) -> (r: Self)
        ensures
            r.wf(),
            r.tag == 3,
            r.data@ == Payload::U64(v),
    {
        FfiValue { tag: 3, data: FfiValueData::U64(v) }
    }

    /// A double given by its IEEE-754 bit pattern.
    pub fn from_f64_bits(bits: u64) -> (r: Self)
        ensures
            r.wf(),
            r.tag == 4,
            r.data@ == Payload::F64(bits),
    {
        FfiValue { tag: 4, data: FfiValueData::F64(bits) }
    }

    pub fn from_bool(v: bool) -> (r: Self)
        ensures
            r.wf(),
            r.tag == 5,
            r.data@ == Payload::Bool(v),
    {
        FfiValue { tag: 5, data: FfiValueData::Bool(v) }
    }

    /// A string value; the string must not hold a NUL character.
    pub fn from_str(s: &str) -> (r: Self)
        requires
            has_no_nul(s@),
        ensures
            r.wf(),
            r.tag == 6,
            r.data@ == Payload::Str(s@),
    {
        FfiValue { tag: 6, data: FfiValueData::Str(String::from_str(s)) }
    }

    /// The tagged form of a log value; a string must not hold a NUL character.
    pub fn from_log_value(v: LogValue) -> (r: Self)
        requires
            is_transferable(v@),
        ensures
            r.wf(),
            r.tag == payload_tag(v@),
            r.data@ == v@,
    {
        match v {
            LogValue::I32(x) => FfiValue { tag: 0, data: FfiValueData::I32(x) },
            LogValue::U32(x) => FfiValue { tag: 1, data: FfiValueData::U32(x) },
            LogValue::I64(x) => FfiValue { tag: 2, data: FfiValueData::I64(x) },
            LogValue::U64(x) => FfiValue { tag: 3, data: FfiValueData::U64(x) },
            LogValue::F64(x) => FfiValue { tag: 4, data: FfiValueData::F64(x) },
            LogValue::Bool(b) => FfiValue { tag: 5, data: FfiValueData::Bool(b) },
            LogValue::Str(s) => FfiValue { tag: 6, data: FfiValueData::Str(s) },
        }
    }

    /// The debug text of this value, `FfiValue { tag: T (kind), data: D }`;
    /// `data_text` stands for `D` where the data is a double or a string
    /// pointer and is ignored otherwise. A tag above 6 reads
    /// `FfiValue { tag: T, data: <unknown> }`.
    pub fn debug_text(&self, data_text: &str) -> (s: String)
        requires
            self.tag > 6 || self.wf(),
        ensures
            s@ == debug_text_of(self.tag, self.data@, data_text@),
    {
        let mut s = String::new();
        if self.tag > 6 {
            s.append("FfiValue { tag: ");
            push_decimal(&mut s, self.tag as u64);
            s.append(", data: <unknown> }");
            proof {
                assert(s@ =~= debug_text_of(self.tag, self.data@, data_text@));
            }
            return s;
        }
        match &self.data {
            FfiValueData::I32(x) => {
                s.append("FfiValue { tag: 0 (i32), data: ");
                push_signed_decimal(&mut s, *x as i64);
            },
            FfiValueData::U32(x) => {
                s.append("FfiValue { tag: 1 (u32), data: ");
                push_decimal(&mut s, *x as u64);
            },
            FfiValueData::I64(x) => {
                s.append("FfiValue { tag: 2 (i64), data: ");
                push_signed_decimal(&mut s, *x);
            },
            FfiValueData::U64(x) => {
                s.append("FfiValue { tag: 3 (u64), data: ");
                push_decimal(&mut s, *x);
            },
            FfiValueData::F64(_) => {
                s.append("FfiValue { tag: 4 (f64), data: ");
                s.append(data_text);
            },
            FfiValueData::Bool(b) => {
                s.append("FfiValue { tag: 5 (bool), data: ");
                if *b {
                    s.append("true");
                } else {
                    s.append("false");
                }
            },
            FfiValueData::Str(_) => {
                s.append("FfiValue { tag: 6 (str_ptr), data: ");
                s.append(data_text);
            },
        }
        s.append(" }");
        proof {
            assert(s@ =~= debug_text_of(self.tag, self.data@, data_text@));
        }
        s
    }
}

/// The word by which a boolean travels in the data of a record's value:
/// 1 for true, 0 for false.
pub fn bool_word(b: bool) -> (w: u32)
    ensures
        w == (if b {
            1u32
        } else {
            0u32
        }),
{
    if b {
        1
    } else {
        0
    }
}

/// The values of a record in the tagged layout, in order; strings must not
/// hold a NUL character.
pub fn to_ffi_values(values: Vec<LogValue>) -> (r: Vec<FfiValue>)
    requires
        forall|i: int| 0 <= i < values@.len() ==> is_transferable(#[trigger] values@[i]@),
    ensures
        r@.len() == values@.len(),
        forall|i: int|
            0 <= i < r@.len() ==> {
                &&& (#[trigger] r@[i]).wf()
                &&& r@[i].data@ == values@[i]@
            },
{
    let ghost vs = values@;
    let mut out: Vec<FfiValue> = Vec::with_capacity(values.len());
    for v in it: values.into_iter()
        invariant
            it.seq() == vs,
            out@.len() == it.index(),
            forall|k: int| 0 <= k < vs.len() ==> is_transferable(#[trigger] vs[k]@),
            forall|k: int|
                0 <= k < it.index() ==> {
                    &&& (#[trigger] out@[k]).wf()
                    &&& out@[k].data@ == vs[k]@
                },
    {
        out.push(FfiValue::from_log_value(v));
    }
    out
}

/// The debug text of a number shows the number itself: unsigned values as a
/// plain numeral, signed values with a minus sign exactly when negative.
pub proof fn lemma_debug_text_shows_numbers(a: i32, b: u32, c: i64, d: u64, t: Seq<char>)
    ensures
        exists|n: Seq<char>|
            debug_text_of(0, Payload::I32(a), t) == "FfiValue { tag: 0 (i32), data: "@ + n
                + " }"@ && is_signed_numeral_of(n, a as int),
        exists|n: Seq<char>|
            debug_text_of(1, Payload::U32(b), t) == "FfiValue { tag: 1 (u32), data: "@ + n
                + " }"@ && is_numeral_of(n, b as int),
        exists|n: Seq<char>|
            debug_text_of(2, Payload::I64(c), t) == "FfiValue { tag: 2 (i64), data: "@ + n
                + " }"@ && is_signed_numeral_of(n, c as int),
        exists|n: Seq<char>|
            debug_text_of(3, Payload::U64(d), t) == "FfiValue { tag: 3 (u64), data: "@ + n
                + " }"@ && is_numeral_of(n, d as int),
{
    lemma_decimal_texts_are_numerals(b as nat, a as int);
    lemma_decimal_texts_are_numerals(d as nat, c as int);
    assert(is_signed_numeral_of(signed_decimal(a as int), a as int));
    assert(is_numeral_of(decimal(b as nat), b as int));
    assert(is_signed_numeral_of(signed_decimal(c as int), c as int));
    assert(is_numeral_of(decimal(d as nat), d as int));
}

/// The debug text of a boolean shows `true` or `false` as the value is, and a
/// tag above 6 is shown with unknown data and the tag as a numeral.
pub proof fn lemma_debug_text_bool_and_unknown(b: bool, tag: u8, p: Payload, t: Seq<char>)
    requires
        tag > 6,
    ensures
        debug_text_of(5, Payload::Bool(b), t) == "FfiValue { tag: 5 (bool), data: "@ + (if b {
            "true"@
        } else {
            "false"@
        }) + " }"@,
        exists|n: Seq<char>|
            debug_text_of(tag, p, t) == "FfiValue { tag: "@ + n + ", data: <unknown> }"@
                && is_numeral_of(n, tag as int),
{
    lemma_decimal_texts_are_numerals(tag as nat, 0);
    assert(is_numeral_of(decimal(tag as nat), tag as int));
}

} // verus!
