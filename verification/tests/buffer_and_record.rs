use mw_log_subscriber::buf_writer::{BufWriter, WriteError};
use mw_log_subscriber::record::{self, Record, MSG_SIZE};

fn text<const N: usize>(w: &BufWriter<N>) -> String {
    String::from_utf8(w.as_c_str().to_vec()).unwrap()
}

#[test]
fn write_keeps_one_byte_free() {
    let mut w = BufWriter::<8>::new();
    assert_eq!(w.len(), 0);
    assert_eq!(w.write_str("abcdefghij"), Ok(()));
    assert_eq!(text(&w), "abcdefg");
    assert_eq!(w.len(), 7);
    assert_eq!(w.write_str("x"), Err(WriteError::NoRoom));
    assert_eq!(text(&w), "abcdefg");
}

#[test]
fn write_appends_whole_text_that_fits() {
    let mut w = BufWriter::<16>::new();
    assert_eq!(w.write_str("hello"), Ok(()));
    assert_eq!(w.write_str(", world"), Ok(()));
    assert_eq!(text(&w), "hello, world");
    assert_eq!(w.len(), 12);
}

#[test]
fn write_of_empty_text_fails() {
    let mut w = BufWriter::<16>::new();
    assert_eq!(w.write_str(""), Err(WriteError::NoRoom));
    assert_eq!(w.len(), 0);
}

#[test]
fn write_never_splits_a_character() {
    // 'a' is 1 byte, 'é' 2 bytes, '€' 3 bytes.
    let mut w = BufWriter::<6>::new();
    assert_eq!(w.write_str("aé€"), Ok(()));
    assert_eq!(text(&w), "aé");
    let mut w = BufWriter::<3>::new();
    assert_eq!(w.write_str("€"), Err(WriteError::NoRoom));
    assert_eq!(w.len(), 0);
}

#[test]
fn floor_char_boundary_finds_start_of_character() {
    let s = "aé€";
    assert_eq!(BufWriter::<4>::floor_char_boundary(s, 0), 0);
    assert_eq!(BufWriter::<4>::floor_char_boundary(s, 1), 1);
    assert_eq!(BufWriter::<4>::floor_char_boundary(s, 2), 1);
    assert_eq!(BufWriter::<4>::floor_char_boundary(s, 3), 3);
    assert_eq!(BufWriter::<4>::floor_char_boundary(s, 4), 3);
    assert_eq!(BufWriter::<4>::floor_char_boundary(s, 5), 3);
    assert_eq!(BufWriter::<4>::floor_char_boundary(s, 6), 6);
    assert_eq!(BufWriter::<4>::floor_char_boundary(s, 100), 6);
    assert_eq!(BufWriter::<4>::floor_char_boundary("", 3), 0);
    let four = "\u{1F600}";
    assert_eq!(BufWriter::<4>::floor_char_boundary(four, 3), 0);
}

#[test]
fn utf8_char_boundary_bytes() {
    assert!(BufWriter::<1>::is_utf8_char_boundary(0x00));
    assert!(BufWriter::<1>::is_utf8_char_boundary(0x41));
    assert!(BufWriter::<1>::is_utf8_char_boundary(0x7f));
    assert!(!BufWriter::<1>::is_utf8_char_boundary(0x80));
    assert!(!BufWriter::<1>::is_utf8_char_boundary(0xbf));
    assert!(BufWriter::<1>::is_utf8_char_boundary(0xc0));
    assert!(BufWriter::<1>::is_utf8_char_boundary(0xff));
}

#[test]
fn revert_pos_saturates() {
    let mut w = BufWriter::<16>::new();
    w.write_str("abc").unwrap();
    w.revert_pos(1);
    assert_eq!(text(&w), "ab");
    w.revert_pos(10);
    assert_eq!(w.len(), 0);
    w.write_str("xy").unwrap();
    assert_eq!(text(&w), "xy");
}

#[test]
fn write_pieces_stops_at_first_failure() {
    let mut w = BufWriter::<16>::new();
    let pieces = vec!["ab".to_string(), "".to_string(), "cd".to_string()];
    assert_eq!(w.write_pieces(&pieces), Err(WriteError::NoRoom));
    assert_eq!(text(&w), "ab");
    let mut w = BufWriter::<16>::new();
    let pieces = vec!["ab".to_string(), "cd".to_string()];
    assert_eq!(w.write_pieces(&pieces), Ok(()));
    assert_eq!(text(&w), "abcd");
}

fn sample_record() -> Record {
    Record {
        module: Some("app::net".to_string()),
        file: Some("src/net.rs".to_string()),
        line: Some(42),
        args: vec!["connected to ".to_string(), "db".to_string()],
    }
}

#[test]
fn message_with_full_header() {
    let mut w = BufWriter::<MSG_SIZE>::new();
    record::log::<true, true, true>(&mut w, &sample_record());
    assert_eq!(text(&w), "[app::net:src/net.rs:42] connected to db");
}

#[test]
fn message_without_header() {
    let mut w = BufWriter::<MSG_SIZE>::new();
    record::log::<false, false, false>(&mut w, &sample_record());
    assert_eq!(text(&w), "connected to db");
}

#[test]
fn message_with_line_only() {
    let mut w = BufWriter::<MSG_SIZE>::new();
    record::log::<false, false, true>(&mut w, &sample_record());
    assert_eq!(text(&w), "[42] connected to db");
}

#[test]
fn header_without_present_fields_loses_its_bracket() {
    let mut w = BufWriter::<MSG_SIZE>::new();
    let rec = Record { module: None, file: None, line: None, args: vec!["m".to_string()] };
    record::log::<true, false, false>(&mut w, &rec);
    assert_eq!(text(&w), "] m");
}

#[test]
fn long_message_is_cut_to_the_buffer() {
    let mut w = BufWriter::<MSG_SIZE>::new();
    let rec = Record { module: None, file: None, line: None, args: vec!["x".repeat(600)] };
    record::log::<false, false, false>(&mut w, &rec);
    assert_eq!(w.len(), MSG_SIZE - 1);
}

#[test]
fn revert_by_written_length_undoes_write() {
    let mut w = BufWriter::<32>::new();
    w.write_str("keep").unwrap();
    let before = w.len();
    w.write_str("-drop\u{e9}").unwrap();
    let added = w.len() - before;
    w.revert_pos(added);
    assert_eq!(text(&w), "keep");
}
