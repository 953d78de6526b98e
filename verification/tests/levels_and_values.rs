use mw_log_subscriber::builder::MwLoggerBuilder;
use mw_log_subscriber::decimal::decimal_string;
use mw_log_subscriber::ffi_value::{bool_word, to_ffi_values, FfiValue, FfiValueData};
use mw_log_subscriber::levels::{level_code, log_level_from_ffi, log_level_to_ffi, Level, LevelFilter};
use mw_log_subscriber::values::{to_log_value, IntoLogValue, LogValue};

#[test]
fn level_bytes_from_recorder() {
    assert_eq!(log_level_from_ffi(0x00), LevelFilter::Off);
    assert_eq!(log_level_from_ffi(0x01), LevelFilter::Error);
    assert_eq!(log_level_from_ffi(0x02), LevelFilter::Error);
    assert_eq!(log_level_from_ffi(0x03), LevelFilter::Warn);
    assert_eq!(log_level_from_ffi(0x04), LevelFilter::Info);
    assert_eq!(log_level_from_ffi(0x05), LevelFilter::Debug);
    assert_eq!(log_level_from_ffi(0x06), LevelFilter::Trace);
    assert_eq!(log_level_from_ffi(0x07), LevelFilter::Info);
    assert_eq!(log_level_from_ffi(0xff), LevelFilter::Info);
}

#[test]
fn level_bytes_to_recorder() {
    assert_eq!(log_level_to_ffi(Level::Error), 0x02);
    assert_eq!(log_level_to_ffi(Level::Warn), 0x03);
    assert_eq!(log_level_to_ffi(Level::Info), 0x04);
    assert_eq!(log_level_to_ffi(Level::Debug), 0x05);
    assert_eq!(log_level_to_ffi(Level::Trace), 0x06);
}

#[test]
fn level_roundtrip_through_recorder_byte() {
    let pairs = [
        (Level::Error, LevelFilter::Error),
        (Level::Warn, LevelFilter::Warn),
        (Level::Info, LevelFilter::Info),
        (Level::Debug, LevelFilter::Debug),
        (Level::Trace, LevelFilter::Trace),
    ];
    for (level, filter) in pairs {
        assert_eq!(log_level_from_ffi(log_level_to_ffi(level)), filter);
        assert_eq!(log_level_to_ffi(level), level_code(level) + 1);
    }
}

#[test]
fn level_codes_of_records() {
    assert_eq!(level_code(Level::Error), 1);
    assert_eq!(level_code(Level::Warn), 2);
    assert_eq!(level_code(Level::Info), 3);
    assert_eq!(level_code(Level::Debug), 4);
    assert_eq!(level_code(Level::Trace), 5);
}

#[test]
fn plain_values_become_log_values() {
    assert!(matches!(to_log_value(-7i32), LogValue::I32(-7)));
    assert!(matches!(to_log_value(7u32), LogValue::U32(7)));
    assert!(matches!(to_log_value(-9_000_000_000i64), LogValue::I64(-9_000_000_000)));
    assert!(matches!(to_log_value(true), LogValue::Bool(true)));
    match to_log_value("text") {
        LogValue::Str(s) => assert_eq!(s, "text"),
        other => panic!("unexpected {:?}", other),
    }
    match String::from("owned").into_log_value() {
        LogValue::Str(s) => assert_eq!(s, "owned"),
        other => panic!("unexpected {:?}", other),
    }
}

#[test]
fn tagged_values_carry_their_tag() {
    assert_eq!(FfiValue::from_i32(1).tag, 0);
    assert_eq!(FfiValue::from_u32(1).tag, 1);
    assert_eq!(FfiValue::from_i64(1).tag, 2);
    assert_eq!(FfiValue::from_u64(1).tag, 3);
    assert_eq!(FfiValue::from_f64_bits(1.5f64.to_bits()).tag, 4);
    assert_eq!(FfiValue::from_bool(false).tag, 5);
    let s = FfiValue::from_str("abc");
    assert_eq!(s.tag, 6);
    assert!(matches!(s.data, FfiValueData::Str(ref t) if t == "abc"));
}

#[test]
fn record_values_are_lowered_in_order() {
    let values = vec![
        LogValue::I32(-1),
        LogValue::U32(2),
        LogValue::I64(-3),
        LogValue::U64(4),
        LogValue::F64(2.5f64.to_bits()),
        LogValue::Bool(true),
        LogValue::Str("five".to_string()),
    ];
    let out = to_ffi_values(values);
    assert_eq!(out.len(), 7);
    let tags: Vec<u8> = out.iter().map(|v| v.tag).collect();
    assert_eq!(tags, vec![0, 1, 2, 3, 4, 5, 6]);
    assert!(matches!(out[0].data, FfiValueData::I32(-1)));
    assert!(matches!(out[1].data, FfiValueData::U32(2)));
    assert!(matches!(out[2].data, FfiValueData::I64(-3)));
    assert!(matches!(out[3].data, FfiValueData::U64(4)));
    assert!(matches!(out[4].data, FfiValueData::F64(b) if f64::from_bits(b) == 2.5));
    assert!(matches!(out[5].data, FfiValueData::Bool(true)));
    assert!(matches!(out[6].data, FfiValueData::Str(ref s) if s == "five"));
    assert!(to_ffi_values(Vec::new()).is_empty());
}

#[test]
fn debug_text_of_tagged_values() {
    assert_eq!(FfiValue::from_i32(-5).debug_text(""), "FfiValue { tag: 0 (i32), data: -5 }");
    assert_eq!(FfiValue::from_u32(42).debug_text(""), "FfiValue { tag: 1 (u32), data: 42 }");
    assert_eq!(
        FfiValue::from_i64(i64::MIN).debug_text(""),
        "FfiValue { tag: 2 (i64), data: -9223372036854775808 }"
    );
    assert_eq!(
        FfiValue::from_u64(u64::MAX).debug_text(""),
        "FfiValue { tag: 3 (u64), data: 18446744073709551615 }"
    );
    assert_eq!(
        FfiValue::from_f64_bits(1.5f64.to_bits()).debug_text("1.5"),
        "FfiValue { tag: 4 (f64), data: 1.5 }"
    );
    assert_eq!(FfiValue::from_bool(true).debug_text(""), "FfiValue { tag: 5 (bool), data: true }");
    assert_eq!(FfiValue::from_bool(false).debug_text(""), "FfiValue { tag: 5 (bool), data: false }");
    assert_eq!(
        FfiValue::from_str("x").debug_text("0x1234"),
        "FfiValue { tag: 6 (str_ptr), data: 0x1234 }"
    );
    assert_eq!(FfiValue::from_i32(0).debug_text("ignored"), "FfiValue { tag: 0 (i32), data: 0 }");
}

#[test]
fn decimal_text_of_integers() {
    assert_eq!(decimal_string(0), "0");
    assert_eq!(decimal_string(7), "7");
    assert_eq!(decimal_string(10), "10");
    assert_eq!(decimal_string(1234567890), "1234567890");
    assert_eq!(decimal_string(u64::MAX), u64::MAX.to_string());
}

#[test]
fn builder_defaults_and_context() {
    let s = MwLoggerBuilder::new().build::<true, false, true>();
    assert_eq!(s.context, "DFLT");
    assert!(s.show_module && !s.show_file && s.show_line);
    let s = MwLoggerBuilder::new().context("APP1").build::<false, true, false>();
    assert_eq!(s.context, "APP1");
    assert!(!s.show_module && s.show_file && !s.show_line);
}

#[test]
fn debug_text_of_unknown_tag() {
    let v = FfiValue { tag: 7, data: FfiValueData::U32(0) };
    assert_eq!(v.debug_text(""), "FfiValue { tag: 7, data: <unknown> }");
    let v = FfiValue { tag: 255, data: FfiValueData::Bool(true) };
    assert_eq!(v.debug_text("x"), "FfiValue { tag: 255, data: <unknown> }");
}

#[test]
fn booleans_travel_as_words() {
    assert_eq!(bool_word(true), 1);
    assert_eq!(bool_word(false), 0);
}
