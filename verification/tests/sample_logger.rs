use std::cell::Cell;

use mw_log_subscriber::sample::{
    Arg, ArgFormatter, BackendWriter, CustomWriter, ExampleDebug, Logger, MycustomType, Piece,
    PieceView,
};
use vstd::seq::Seq;

fn describe(pieces: &[Piece]) -> Vec<String> {
    pieces
        .iter()
        .map(|p| match p {
            Piece::Str(s) => format!("s:{}", s),
            Piece::U32(v) => format!("u32:{}", v),
            Piece::U64(v) => format!("u64:{}", v),
        })
        .collect()
}

#[test]
fn custom_type_arguments_and_primitives() {
    let custom = MycustomType { a: 42, b: 100, c: "Hello, world!" };
    let x: u32 = 7;
    let s: &str = "a string";
    let args = [Arg::new_debug_type(&custom), Arg::from_u32(&x), Arg::from_str(&s)];
    let w = Logger.log("custom: {} | x: {} | s: {}", &args);
    assert_eq!(
        describe(&w.pieces),
        vec![
            "s:custom: ",
            "s:MycustomType { a: ",
            "u32:42",
            "s:, b: ",
            "u64:100",
            "s:, c: ",
            "s:Hello, world!",
            "s: }",
            "s: | x: ",
            "u32:7",
            "s: | s: ",
            "s:a string",
            "s:",
            "s:\n",
        ]
    );
}

#[test]
fn missing_arguments_are_marked() {
    let w = Logger.log("{} and {}", &[Arg::from_u64(&5)]);
    assert_eq!(describe(&w.pieces), vec!["s:", "u64:5", "s: and ", "s:<missing>", "s:", "s:\n"]);
}

#[test]
fn extra_arguments_are_ignored() {
    let w = Logger.log("v={}", &[Arg::from_u32(&1), Arg::from_u32(&2)]);
    assert_eq!(describe(&w.pieces), vec!["s:v=", "u32:1", "s:", "s:\n"]);
}

#[test]
fn format_without_placeholders() {
    let w = Logger.log("plain é text", &[Arg::from_u32(&1)]);
    assert_eq!(describe(&w.pieces), vec!["s:plain é text", "s:\n"]);
    let w = Logger.log("", &[]);
    assert_eq!(describe(&w.pieces), vec!["s:", "s:\n"]);
}

#[test]
fn placeholders_match_left_to_right() {
    let w = Logger.log("{{}}{}", &[Arg::from_u32(&1)]);
    assert_eq!(describe(&w.pieces), vec!["s:{", "u32:1", "s:}", "s:<missing>", "s:", "s:\n"]);
    let expected: Vec<&str> = "{{}}{}".split("{}").collect();
    assert_eq!(expected, vec!["{", "}", ""]);
}

struct PairFormatter {
    calls: Cell<u32>,
}

impl ArgFormatter<(u32, u64)> for &PairFormatter {
    // A specification item: only the verifier reads it, plain code never calls it.
    fn format_pieces(&self, _data: &(u32, u64)) -> Seq<PieceView> {
        unreachable!()
    }

    fn format<W: CustomWriter>(&self, data: &(u32, u64), w: &mut W) {
        self.calls.set(self.calls.get() + 1);
        w.write_u32(data.0);
        w.write_str("/");
        w.write_u64(data.1);
    }
}

#[test]
fn argument_from_formatting_function() {
    let pair = (3u32, 4u64);
    let formatter = PairFormatter { calls: Cell::new(0) };
    let arg = Arg::new(&pair, &formatter);
    let mut w = BackendWriter { pieces: Vec::new() };
    arg.fmt(&mut w);
    assert_eq!(describe(&w.pieces), vec!["u32:3", "s:/", "u64:4"]);
}

#[test]
fn arguments_are_formatted_when_used() {
    let pair = (1u32, 2u64);
    let formatter = PairFormatter { calls: Cell::new(0) };
    let used = Arg::new(&pair, &formatter);
    assert_eq!(formatter.calls.get(), 0);
    let surplus = Arg::new(&pair, &formatter);
    let w = Logger.log("only {}", &[used, surplus]);
    assert_eq!(formatter.calls.get(), 1);
    assert_eq!(describe(&w.pieces), vec!["s:only ", "u32:1", "s:/", "u64:2", "s:", "s:\n"]);
}

#[test]
fn argument_formats_again_each_time() {
    let pair = (5u32, 6u64);
    let formatter = PairFormatter { calls: Cell::new(0) };
    let arg = Arg::new(&pair, &formatter);
    let mut w = BackendWriter { pieces: Vec::new() };
    arg.fmt(&mut w);
    arg.fmt(&mut w);
    assert_eq!(formatter.calls.get(), 2);
    assert_eq!(w.pieces.len(), 6);
}

#[test]
fn custom_type_formats_directly() {
    let custom = MycustomType { a: 1, b: 2, c: "c" };
    let mut w = BackendWriter { pieces: Vec::new() };
    custom.fmt(&mut w);
    w.write_u32(9);
    assert_eq!(
        describe(&w.pieces),
        vec!["s:MycustomType { a: ", "u32:1", "s:, b: ", "u64:2", "s:, c: ", "s:c", "s: }", "u32:9"]
    );
}
