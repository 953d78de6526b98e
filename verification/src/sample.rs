//! Formatting of type-erased arguments through a backend writer that keeps
//! the type of each piece it is handed.
use vstd::prelude::*;
use vstd::string::*;
use vstd::utf8::*;

verus! {

broadcast use {
    vstd::utf8::encode_utf8_valid_utf8,
    vstd::utf8::encode_utf8_decode_utf8,
    vstd::utf8::is_char_boundary_iff_not_is_continuation_byte,
    vstd::utf8::is_char_boundary_start_end_of_seq,
};

/// What a writer is handed, with text taken as its characters.
pub enum PieceView {
    Str(Seq<char>),
    U32(u32),
    U64(u64),
}

/// One typed piece handed to a writer.
#[derive(Debug)]
pub enum Piece {
    Str(String),
    U32(u32),
    U64(u64),
}

impl View for Piece {
    type V = PieceView;

    open spec fn view(&self) -> PieceView {
        match self {
            Piece::Str(s) => PieceView::Str(s@),
            Piece::U32(v) => PieceView::U32(*v),
            Piece::U64(v) => PieceView::U64(*v),
        }
    }
}

/// The views of a sequence of pieces.
pub open spec fn pieces_view(pieces: Seq<Piece>) -> Seq<PieceView> {
    pieces.map_values(|p: Piece| p@)
}

/// A backend that receives typed pieces one at a time.
pub trait CustomWriter {
    /// Everything handed to this writer so far, in order.
    spec fn written(&self) -> Seq<PieceView>;

    fn write_str(&mut self, s: &str)
        ensures
            final(self).written() == old(self).written().push(PieceView::Str(s@)),
    ;

    fn write_u32(&mut self, v: u32)
        ensures
            final(self).written() == old(self).written().push(PieceView::U32(v)),
    ;

    fn write_u64(&mut self, v: u64)
        ensures
            final(self).written() == old(self).written().push(PieceView::U64(v)),
    ;
}

/// A backend that keeps the pieces it is handed, in order, for output.
pub struct BackendWriter {
    pub pieces: Vec<Piece>,
}

impl CustomWriter for BackendWriter {
    open spec fn written(&self) -> Seq<PieceView> {
        pieces_view(self.pieces@)
    }

    fn write_str(&mut self, s: &str) {
        self.pieces.push(Piece::Str(String::from_str(s)));
        proof {
            assert(pieces_view(self.pieces@) =~= pieces_view(old(self).pieces@).push(
                PieceView::Str(s@),
            ));
        }
    }

    fn write_u32(&mut self, v: u32) {
        self.pieces.push(Piece::U32(v));
        proof {
            assert(pieces_view(self.pieces@) =~= pieces_view(old(self).pieces@).push(
                PieceView::U32(v),
            ));
        }
    }

    fn write_u64(&mut self, v: u64) {
        self.pieces.push(Piece::U64(v));
        proof {
            assert(pieces_view(self.pieces@) =~= pieces_view(old(self).pieces@).push(
                PieceView::U64(v),
            ));
        }
    }
}

/// A type that formats itself through a backend writer.
pub trait ExampleDebug: Sized {
    /// The pieces this value hands to a writer.
    spec fn debug_pieces(&self) -> Seq<PieceView>;

    fn fmt<W: CustomWriter>(&self, w: &mut W)
        ensures
            final(w).written() == old(w).written() + self.debug_pieces(),
    ;
}

/// A way of formatting data of type `T` through a writer.
pub trait ArgFormatter<T> {
    /// The pieces this formatter hands to a writer for `data`.
    spec fn format_pieces(&self, data: &T) -> Seq<PieceView>;

    fn format<W: CustomWriter>(&self, data: &T, w: &mut W)
        ensures
            final(w).written() == old(w).written() + self.format_pieces(data),
    ;
}

/// Formats a `u32` as a single number piece.
pub struct U32Formatter;

impl ArgFormatter<u32> for U32Formatter {
    open spec fn format_pieces(&self, data: &u32) -> Seq<PieceView> {
        seq![PieceView::U32(*data)]
    }

    fn format<W: CustomWriter>(&self, data: &u32, w: &mut W) {
        w.write_u32(*data);
        assert(w.written() =~= old(w).written() + self.format_pieces(data));
    }
}

/// Formats a `u64` as a single number piece.
pub struct U64Formatter;

impl ArgFormatter<u64> for U64Formatter {
    open spec fn format_pieces(&self, data: &u64) -> Seq<PieceView> {
        seq![PieceView::U64(*data)]
    }

    fn format<W: CustomWriter>(&self, data: &u64, w: &mut W) {
        w.write_u64(*data);
        assert(w.written() =~= old(w).written() + self.format_pieces(data));
    }
}

/// Formats a string slice as a single text piece.
pub struct StrFormatter;

impl<'b> ArgFormatter<&'b str> for StrFormatter {
    open spec fn format_pieces(&self, data: &&'b str) -> Seq<PieceView> {
        seq![PieceView::Str((*data)@)]
    }

    fn format<W: CustomWriter>(&self, data: &&'b str, w: &mut W) {
        w.write_str(*data);
        assert(w.written() =~= old(w).written() + self.format_pieces(data));
    }
}

/// Formats a value by its own `ExampleDebug` implementation.
pub struct DebugFormatter;

impl<T: ExampleDebug> ArgFormatter<T> for DebugFormatter {
    open spec fn format_pieces(&self, data: &T) -> Seq<PieceView> {
        data.debug_pieces()
    }

    fn format<W: CustomWriter>(&self, data: &T, w: &mut W) {
        data.fmt(w)
    }
}

/// Data bound to its formatter, formatted into a backend on demand.
trait ErasedArg {
    spec fn erased_pieces(&self) -> Seq<PieceView>;

    fn format_into(&self, w: &mut BackendWriter)
        ensures
            final(w).written() == old(w).written() + self.erased_pieces(),
    ;
}

struct BoundArg<'a, T, F> {
    data: &'a T,
    formatting: F,
}

impl<'a, T, F: ArgFormatter<T>> ErasedArg for BoundArg<'a, T, F> {
    spec fn erased_pieces(&self) -> Seq<PieceView> {
        self.formatting.format_pieces(self.data)
    }

    fn format_into(&self, w: &mut BackendWriter) {
        self.formatting.format(self.data, w)
    }
}

/// An argument that knows how to format itself: borrowed data and the
/// formatter that renders it each time the argument is formatted.
pub struct Arg<'a> {
    value: Box<dyn ErasedArg + 'a>,
}

impl<'a> Arg<'a> {
    /// The pieces this argument hands to a writer.
    pub closed spec fn formatted(&self) -> Seq<PieceView> {
        self.value.erased_pieces()
    }

    /// An argument for `data`, formatted by `formatting` when it is used.
    pub fn new<T, F: ArgFormatter<T> + 'a>(data: &'a T, formatting: F) -> (a: Self)
        ensures
            a.formatted() == formatting.format_pieces(data),
    {
        Arg { value: Box::new(BoundArg { data, formatting }) }
    }

    /// An argument for a value that formats itself.
    pub fn new_debug_type<T: ExampleDebug>(item: &'a T) -> (a: Self)
        ensures
            a.formatted() == item.debug_pieces(),
    {
        Self::new(item, DebugFormatter)
    }

    pub fn from_u32(value: &'a u32) -> (a: Self)
        ensures
            a.formatted() == seq![PieceView::U32(*value)],
    {
        Self::new(value, U32Formatter)
    }

    pub fn from_u64(value: &'a u64) -> (a: Self)
        ensures
            a.formatted() == seq![PieceView::U64(*value)],
    {
        Self::new(value, U64Formatter)
    }

    pub fn from_str(value: &'a &str) -> (a: Self)
        ensures
            a.formatted() == seq![PieceView::Str((*value)@)],
    {
        Self::new(value, StrFormatter)
    }

    /// Formats the data now and hands its pieces to `w`, in order.
    pub fn fmt<W: CustomWriter>(&self, w: &mut W)
        ensures
            final(w).written() == old(w).written() + self.formatted(),
    {
        let mut rec = BackendWriter { pieces: Vec::new() };
        assert(rec.written() =~= Seq::<PieceView>::empty());
        self.value.format_into(&mut rec);
        assert(pieces_view(rec.pieces@) =~= self.formatted());
        let n = rec.pieces.len();
        let mut i: usize = 0;
        while i < n
            invariant
                n == rec.pieces@.len(),
                0 <= i <= n,
                w.written() == old(w).written() + pieces_view(rec.pieces@).take(i as int),
            decreases n - i,
        {
            match &rec.pieces[i] {
                Piece::Str(s) => w.write_str(s.as_str()),
                Piece::U32(v) => w.write_u32(*v),
                Piece::U64(v) => w.write_u64(*v),
            }
            assert(pieces_view(rec.pieces@).take(i + 1) =~= pieces_view(rec.pieces@).take(
                i as int,
            ).push(rec.pieces@[i as int]@));
            i = i + 1;
        }
        assert(pieces_view(rec.pieces@).take(n as int) =~= pieces_view(rec.pieces@));
    }
}

/// An example of a user type that formats itself field by field.
pub struct MycustomType {
    pub a: u32,
    pub b: u64,
    pub c: &'static str,
}

impl ExampleDebug for MycustomType {
    open spec fn debug_pieces(&self) -> Seq<PieceView> {
        seq![
            PieceView::Str("MycustomType { a: "@),
            PieceView::U32(self.a),
            PieceView::Str(", b: "@),
            PieceView::U64(self.b),
            PieceView::Str(", c: "@),
            PieceView::Str(self.c@),
            PieceView::Str(" }"@),
        ]
    }

    fn fmt<W: CustomWriter>(&self, w: &mut W) {
        w.write_str("MycustomType { a: ");
        w.write_u32(self.a);
        w.write_str(", b: ");
        w.write_u64(self.b);
        w.write_str(", c: ");
        w.write_str(self.c);
        w.write_str(" }");
        assert(w.written() =~= old(w).written() + self.debug_pieces());
    }
}


/// The pieces an argument list yields for placeholder number `i`: those of
/// argument `i`, or the text `<missing>` when there are fewer arguments.
pub open spec fn arg_or_missing(args: Seq<Seq<PieceView>>, i: int) -> Seq<PieceView> {
    if 0 <= i < args.len() {
        args[i]
    } else {
        seq![PieceView::Str("<missing>"@)]
    }
}

/// Whether the bytes at `pos` and `pos + 1` are `{` and `}`.
pub open spec fn is_placeholder_at(b: Seq<u8>, pos: int) -> bool {
    0 <= pos && pos + 1 < b.len() && b[pos] == 0x7b && b[pos + 1] == 0x7d
}

/// The pieces for the UTF-8 text `b`, whose bytes before `pos` hold no
/// placeholder, when the next placeholder takes argument `i`: each stretch
/// of text between placeholders, and the argument's pieces for each
/// placeholder.
pub open spec fn render_from(b: Seq<u8>, pos: int, args: Seq<Seq<PieceView>>, i: int) -> Seq<
    PieceView,
>
    decreases b.len() - pos,
{
    if pos < 0 || pos + 1 >= b.len() {
        seq![PieceView::Str(decode_utf8(b))]
    } else if is_placeholder_at(b, pos) {
        seq![PieceView::Str(decode_utf8(b.take(pos)))] + arg_or_missing(args, i) + render_from(
            b.skip(pos + 2),
            0,
            args,
            i + 1,
        )
    } else {
        render_from(b, pos + 1, args, i)
    }
}

/// What a logger hands to its backend for a format string and arguments:
/// the format string cut at each `{}`, the pieces of the matching argument
/// in place of each `{}`, and a final newline.
pub open spec fn log_pieces(fmt: Seq<char>, args: Seq<Seq<PieceView>>) -> Seq<PieceView> {
    render_from(encode_utf8(fmt), 0, args, 0).push(PieceView::Str("\n"@))
}

/// The pieces of each argument of a list.
pub open spec fn args_view(args: Seq<Arg<'_>>) -> Seq<Seq<PieceView>> {
    args.map_values(|a: Arg<'_>| a.formatted())
}

/// After the ASCII bytes `{` and `}`, valid UTF-8 is at a character boundary.
proof fn lemma_boundary_after_two_ascii(t: Seq<u8>)
    requires
        valid_utf8(t),
        t.len() >= 2,
        t[0] < 0x80,
        t[1] < 0x80,
    ensures
        is_char_boundary(t, 2),
{
    reveal_with_fuel(valid_utf8, 3);
    reveal_with_fuel(is_char_boundary, 3);
    let r1 = pop_first_scalar(t);
    assert(r1 =~= t.subrange(1, t.len() as int));
    assert(r1[0] == t[1]);
}

/// A logger that formats a message with arguments into a backend writer.
pub struct Logger;

impl Logger {
    /// Formats `fmt_str`, putting the arguments in place of its `{}` in
    /// order (`<missing>` where they run out), and returns the backend
    /// holding the pieces, ended by a newline.
    pub fn log<'a>(&self, fmt_str: &str, args: &[Arg<'a>]) -> (w: BackendWriter)
        ensures
            w.written() == log_pieces(fmt_str@, args_view(args@)),
            ({
                let parts = split_at_placeholders(encode_utf8(fmt_str@));
                w.written() == fill_gaps(
                    parts,
                    pad_missing(args_view(args@), parts.len() - 1),
                ).push(PieceView::Str("\n"@))
            }),
    {
        proof {
            lemma_log_fills_placeholders(fmt_str@, args_view(args@));
        }
        let ghost argv = args_view(args@);
        let ghost b0 = fmt_str.spec_bytes();
        let total = fmt_str.as_bytes().len();
        let mut w = BackendWriter { pieces: Vec::new() };
        let mut rest: &str = fmt_str;
        let mut pos: usize = 0;
        let mut i: usize = 0;
        assert(w.written() =~= Seq::<PieceView>::empty());
        loop
            invariant_except_break
                argv == args_view(args@),
                b0.len() == total,
                pos <= rest.spec_bytes().len(),
                i <= b0.len(),
                rest.spec_bytes().len() + 2 * i <= b0.len(),
                w.written() + render_from(rest.spec_bytes(), pos as int, argv, i as int)
                    == render_from(b0, 0, argv, 0),
            ensures
                w.written() == render_from(b0, 0, argv, 0),
                argv == args_view(args@),
            decreases rest.spec_bytes().len() - pos,
        {
            let bytes = rest.as_bytes();
            let ghost b = rest.spec_bytes();
            proof {
                encode_utf8_valid_utf8(rest@);
            }
            if bytes.len() - pos <= 1 {
                w.write_str(rest);
                proof {
                    encode_utf8_decode_utf8(rest@);
                }
                break;
            }
            if bytes[pos] == 0x7b && bytes[pos + 1] == 0x7d {
                let ghost w0 = w.written();
                assert(render_from(b, pos as int, argv, i as int) == seq![
                    PieceView::Str(decode_utf8(b.take(pos as int))),
                ] + arg_or_missing(argv, i as int) + render_from(
                    b.skip(pos + 2),
                    0,
                    argv,
                    i + 1,
                ));
                assert(!is_continuation_byte(b[pos as int]));
                assert(is_char_boundary(b, pos as int));
                let (part, tail) = rest.split_at(pos);
                w.write_str(part);
                proof {
                    encode_utf8_decode_utf8(part@);
                    assert(b.take(pos as int) =~= b.subrange(0, pos as int));
                }
                let ghost w1 = w.written();
                if i < args.len() {
                    args[i].fmt(&mut w);
                    assert(argv[i as int] == args@[i as int].formatted());
                } else {
                    w.write_str("<missing>");
                    assert(w.written() =~= w1 + seq![PieceView::Str("<missing>"@)]);
                }
                assert(w.written() == w1 + arg_or_missing(argv, i as int));
                assert(w1 == w0.push(PieceView::Str(decode_utf8(b.take(pos as int)))));
                proof {
                    valid_utf8_split(b, pos as int);
                    encode_utf8_valid_utf8(tail@);
                    lemma_boundary_after_two_ascii(tail.spec_bytes());
                }
                let (_, after) = tail.split_at(2);
                proof {
                    assert(after.spec_bytes() =~= b.skip(pos + 2));
                }
                proof {
                    assert(w.written() + render_from(b.skip(pos + 2), 0, argv, i + 1) =~= w0
                        + render_from(b, pos as int, argv, i as int));
                }
                rest = after;
                pos = 0;
                i = i + 1;
            } else {
                pos = pos + 1;
            }
        }
        w.write_str("\n");
        w
    }
}


/// Number of `{}` placeholders in `b` from `pos` on, matched left to right
/// without overlap.
pub open spec fn placeholder_count(b: Seq<u8>, pos: int) -> nat
    decreases b.len() - pos,
{
    if pos < 0 || pos + 1 >= b.len() {
        0
    } else if is_placeholder_at(b, pos) {
        1 + placeholder_count(b.skip(pos + 2), 0)
    } else {
        placeholder_count(b, pos + 1)
    }
}

proof fn lemma_render_without_placeholders(b: Seq<u8>, pos: int, args: Seq<Seq<PieceView>>, i: int)
    requires
        0 <= pos,
        forall|j: int| pos <= j ==> !is_placeholder_at(b, j),
    ensures
        render_from(b, pos, args, i) == seq![PieceView::Str(decode_utf8(b))],
    decreases b.len() - pos,
{
    if pos + 1 < b.len() {
        assert(!is_placeholder_at(b, pos));
        lemma_render_without_placeholders(b, pos + 1, args, i);
    }
}

/// A format string without `{}` is handed over whole, then the newline,
/// whatever the arguments.
pub proof fn lemma_log_without_placeholders(fmt: Seq<char>, args: Seq<Seq<PieceView>>)
    requires
        forall|j: int| !is_placeholder_at(encode_utf8(fmt), j),
    ensures
        log_pieces(fmt, args) == seq![PieceView::Str(fmt), PieceView::Str("\n"@)],
{
    lemma_render_without_placeholders(encode_utf8(fmt), 0, args, 0);
    encode_utf8_decode_utf8(fmt);
    assert(seq![PieceView::Str(fmt)].push(PieceView::Str("\n"@)) =~= seq![
        PieceView::Str(fmt),
        PieceView::Str("\n"@),
    ]);
}

proof fn lemma_render_extra_args(
    b: Seq<u8>,
    pos: int,
    args: Seq<Seq<PieceView>>,
    extra: Seq<Seq<PieceView>>,
    i: int,
)
    requires
        0 <= i,
        i + placeholder_count(b, pos) <= args.len(),
    ensures
        render_from(b, pos, args + extra, i) == render_from(b, pos, args, i),
    decreases b.len() - pos,
{
    if pos < 0 || pos + 1 >= b.len() {
    } else if is_placeholder_at(b, pos) {
        lemma_render_extra_args(b.skip(pos + 2), 0, args, extra, i + 1);
        assert((args + extra)[i] == args[i]);
    } else {
        lemma_render_extra_args(b, pos + 1, args, extra, i);
    }
}

/// Arguments beyond the number of placeholders are not used.
pub proof fn lemma_log_ignores_extra_args(
    fmt: Seq<char>,
    args: Seq<Seq<PieceView>>,
    extra: Seq<Seq<PieceView>>,
)
    requires
        placeholder_count(encode_utf8(fmt), 0) <= args.len(),
    ensures
        log_pieces(fmt, args + extra) == log_pieces(fmt, args),
{
    lemma_render_extra_args(encode_utf8(fmt), 0, args, extra, 0);
}
/// `j` is the position of the first `{}` in `b`.
pub open spec fn is_first_placeholder(b: Seq<u8>, j: int) -> bool {
    &&& is_placeholder_at(b, j)
    &&& forall|k: int| 0 <= k < j ==> !is_placeholder_at(b, k)
}

/// The parts of `b` between its `{}` placeholders, found left to right
/// without overlap, as `str::split("{}")` gives them.
pub open spec fn split_at_placeholders(b: Seq<u8>) -> Seq<Seq<u8>>
    decreases b.len(),
{
    let j = choose|j: int| is_first_placeholder(b, j);
    if is_first_placeholder(b, j) {
        seq![b.take(j)] + split_at_placeholders(b.skip(j + 2))
    } else {
        seq![b]
    }
}

/// The text parts with the pieces of the arguments in between, one argument
/// per gap, in order.
pub open spec fn fill_gaps(parts: Seq<Seq<u8>>, args: Seq<Seq<PieceView>>) -> Seq<PieceView>
    decreases parts.len(),
{
    if parts.len() == 0 {
        seq![]
    } else if parts.len() == 1 {
        seq![PieceView::Str(decode_utf8(parts[0]))]
    } else {
        seq![PieceView::Str(decode_utf8(parts[0]))] + args[0] + fill_gaps(
            parts.drop_first(),
            args.drop_first(),
        )
    }
}

proof fn lemma_split_nonempty(b: Seq<u8>)
    ensures
        split_at_placeholders(b).len() >= 1,
    decreases b.len(),
{
    let j = choose|j: int| is_first_placeholder(b, j);
    if is_first_placeholder(b, j) {
        lemma_split_nonempty(b.skip(j + 2));
    }
}

proof fn lemma_render_fills_gaps(
    b: Seq<u8>,
    pos: int,
    args: Seq<Seq<PieceView>>,
    full: Seq<Seq<PieceView>>,
    i: int,
)
    requires
        0 <= pos,
        0 <= i,
        forall|k: int| 0 <= k < pos ==> !is_placeholder_at(b, k),
        i + split_at_placeholders(b).len() - 1 <= full.len(),
        forall|k: int| i <= k < full.len() ==> full[k] == arg_or_missing(args, k),
    ensures
        render_from(b, pos, args, i) == fill_gaps(split_at_placeholders(b), full.skip(i)),
    decreases b.len() - pos,
{
    let parts = split_at_placeholders(b);
    let j = choose|j: int| is_first_placeholder(b, j);
    if pos + 1 >= b.len() {
        assert(!is_first_placeholder(b, j));
        assert(parts == seq![b]);
    } else if is_placeholder_at(b, pos) {
        assert(is_first_placeholder(b, pos));
        if j != pos {
            assert(is_first_placeholder(b, j));
            if j < pos {
                assert(!is_placeholder_at(b, j));
            } else {
                assert(!is_placeholder_at(b, pos));
            }
        }
        let rest = b.skip(pos + 2);
        lemma_split_nonempty(rest);
        assert(parts == seq![b.take(pos)] + split_at_placeholders(rest));
        lemma_render_fills_gaps(rest, 0, args, full, i + 1);
        assert(parts.drop_first() =~= split_at_placeholders(rest));
        assert(full.skip(i).drop_first() =~= full.skip(i + 1));
        assert(full.skip(i)[0] == full[i]);
    } else {
        lemma_render_fills_gaps(b, pos + 1, args, full, i);
    }
}

/// The arguments, followed by the text `<missing>` as the pieces for each
/// further gap up to `n` gaps.
pub open spec fn pad_missing(args: Seq<Seq<PieceView>>, n: int) -> Seq<Seq<PieceView>> {
    if args.len() >= n {
        args
    } else {
        args + Seq::new(
            (n - args.len()) as nat,
            |k: int| seq![PieceView::Str("<missing>"@)],
        )
    }
}

/// The logger hands over each part of the format string between
/// placeholders, with the pieces of argument `k` in place of placeholder
/// `k`, the text `<missing>` for each placeholder past the last argument,
/// and then the newline.
pub proof fn lemma_log_fills_placeholders(fmt: Seq<char>, args: Seq<Seq<PieceView>>)
    ensures
        ({
            let parts = split_at_placeholders(encode_utf8(fmt));
            log_pieces(fmt, args) == fill_gaps(parts, pad_missing(args, parts.len() - 1)).push(
                PieceView::Str("\n"@),
            )
        }),
{
    let b = encode_utf8(fmt);
    let parts = split_at_placeholders(b);
    let full = pad_missing(args, parts.len() - 1);
    assert forall|k: int| 0 <= k < full.len() implies full[k] == arg_or_missing(args, k) by {
        if k >= args.len() {
            assert(full[k] == seq![PieceView::Str("<missing>"@)]);
        }
    }
    lemma_render_fills_gaps(b, 0, args, full, 0);
    assert(full.skip(0) =~= full);
}

/// With as many arguments as placeholders or more, placeholder `k` takes
/// argument `k`, and every argument past the placeholders is left out.
pub proof fn lemma_log_fills_placeholders_in_order(fmt: Seq<char>, args: Seq<Seq<PieceView>>)
    requires
        split_at_placeholders(encode_utf8(fmt)).len() - 1 <= args.len(),
    ensures
        log_pieces(fmt, args) == fill_gaps(split_at_placeholders(encode_utf8(fmt)), args).push(
            PieceView::Str("\n"@),
        ),
{
    lemma_log_fills_placeholders(fmt, args);
}

} // verus!
