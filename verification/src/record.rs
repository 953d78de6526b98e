//! The message of a log record: an optional `[module:file:line:]` header
//! followed by the formatted message, written into a bounded buffer.
use vstd::prelude::*;
use vstd::string::*;
use vstd::utf8::*;
use crate::buf_writer::{
    BufWriter,
    lemma_write_fits,
    after_write,
    content_after_write,
    content_after_pieces,
    content_after_revert,
};
use crate::decimal::{decimal, decimal_string};

verus! {

/// Capacity of the message buffer, terminating byte included.
pub const MSG_SIZE: usize = 512;

/// What a log record offers for its message: where it was emitted, and the
/// pieces that formatting its arguments hands to a writer, in order.
pub struct Record {
    pub module: Option<String>,
    pub file: Option<String>,
    pub line: Option<u32>,
    pub args: Vec<String>,
}

/// The characters of an optional string.
pub open spec fn opt_text(o: Option<String>) -> Option<Seq<char>> {
    match o {
        Some(s) => Some(s@),
        None => None,
    }
}

/// Content after formatting `{}:` with `text`: the colon follows only when
/// the text was written.
pub open spec fn after_field(cap: int, content: Seq<u8>, text: Seq<char>) -> Seq<u8> {
    match content_after_write(cap, content, text) {
        Some(c) => after_write(cap, c, ":"@),
        None => content,
    }
}

/// Content after an optional field, written when it is shown and present.
pub open spec fn after_opt_field(cap: int, content: Seq<u8>, show: bool, text: Option<Seq<char>>) -> Seq<u8> {
    match text {
        Some(t) if show => after_field(cap, content, t),
        _ => content,
    }
}

/// Content after writing the header: `[`, each shown field followed by a
/// colon, the last character taken back, then `] `.
pub open spec fn after_header(
    cap: int,
    content: Seq<u8>,
    show_module: bool,
    show_file: bool,
    show_line: bool,
    module: Option<Seq<char>>,
    file: Option<Seq<char>>,
    line: Option<u32>,
) -> Seq<u8> {
    let line_text = match line {
        Some(l) => Some(decimal(l as nat)),
        None => None,
    };
    let c1 = after_write(cap, content, "["@);
    let c2 = after_opt_field(cap, c1, show_module, module);
    let c3 = after_opt_field(cap, c2, show_file, file);
    let c4 = after_opt_field(cap, c3, show_line, line_text);
    after_write(cap, content_after_revert(c4, 1), "] "@)
}

/// Content after writing the message of `record`: the header when any field
/// is shown, then the record's pieces until one places no byte.
pub open spec fn after_record(
    cap: int,
    content: Seq<u8>,
    show_module: bool,
    show_file: bool,
    show_line: bool,
    record: Record,
) -> Seq<u8> {
    let c = if show_module || show_file || show_line {
        after_header(
            cap,
            content,
            show_module,
            show_file,
            show_line,
            opt_text(record.module),
            opt_text(record.file),
            record.line,
        )
    } else {
        content
    };
    content_after_pieces(cap, c, record.args@.map_values(|p: String| p@)).0
}

fn write_field(w: &mut BufWriter<MSG_SIZE>, text: &str)
    requires
        old(w).wf(),
    ensures
        final(w).wf(),
        final(w)@ == after_field(MSG_SIZE as int, old(w)@, text@),
{
    if w.write_str(text).is_ok() {
        let _ = w.write_str(":");
    }
}

/// Writes the message of `record` into `msg_writer`, with a header that
/// shows the module, file and line as the flags ask.
pub fn log<const SHOW_MODULE: bool, const SHOW_FILE: bool, const SHOW_LINE: bool>(
    msg_writer: &mut BufWriter<MSG_SIZE>,
    record: &Record,
)
    requires
        old(msg_writer).wf(),
    ensures
        final(msg_writer).wf(),
        final(msg_writer)@.len() < MSG_SIZE,
        final(msg_writer)@ == after_record(
            MSG_SIZE as int,
            old(msg_writer)@,
            SHOW_MODULE,
            SHOW_FILE,
            SHOW_LINE,
            *record,
        ),
{
    if SHOW_FILE || SHOW_LINE || SHOW_MODULE {
        let _ = msg_writer.write_str("[");
        if SHOW_MODULE {
            if let Some(module) = &record.module {
                write_field(msg_writer, module.as_str());
            }
        }
        if SHOW_FILE {
            if let Some(file) = &record.file {
                write_field(msg_writer, file.as_str());
            }
        }
        if SHOW_LINE {
            if let Some(line) = record.line {
                let text = decimal_string(line as u64);
                write_field(msg_writer, text.as_str());
            }
        }
        msg_writer.revert_pos(1);
        let _ = msg_writer.write_str("] ");
    }
    let _ = msg_writer.write_pieces(record.args.as_slice());
}

/// The UTF-8 bytes of a field, as a one-element list when it is shown and
/// present, an empty list otherwise.
pub open spec fn shown_field(show: bool, text: Option<Seq<char>>) -> Seq<Seq<u8>> {
    match text {
        Some(t) if show => seq![encode_utf8(t)],
        _ => seq![],
    }
}

/// The UTF-8 bytes of the fields a header shows, in the order module, file,
/// line; each is there when its flag is set and the record has it.
pub open spec fn shown_fields(
    show_module: bool,
    show_file: bool,
    show_line: bool,
    module: Option<Seq<char>>,
    file: Option<Seq<char>>,
    line: Option<u32>,
) -> Seq<Seq<u8>> {
    let line_text = match line {
        Some(l) => Some(decimal(l as nat)),
        None => None,
    };
    shown_field(show_module, module) + shown_field(show_file, file) + shown_field(
        show_line,
        line_text,
    )
}

/// Byte strings joined with a colon (0x3A) between each two.
pub open spec fn join_with_colons(fields: Seq<Seq<u8>>) -> Seq<u8>
    decreases fields.len(),
{
    if fields.len() == 0 {
        seq![]
    } else if fields.len() == 1 {
        fields[0]
    } else {
        join_with_colons(fields.drop_last()) + seq![0x3au8] + fields.last()
    }
}

/// Byte strings each followed by a colon, one after the other.
spec fn each_with_colon(fields: Seq<Seq<u8>>) -> Seq<u8>
    decreases fields.len(),
{
    if fields.len() == 0 {
        seq![]
    } else {
        each_with_colon(fields.drop_last()) + fields.last() + seq![0x3au8]
    }
}

proof fn lemma_each_with_colon_concat(a: Seq<Seq<u8>>, b: Seq<Seq<u8>>)
    ensures
        each_with_colon(a + b) == each_with_colon(a) + each_with_colon(b),
    decreases b.len(),
{
    if b.len() == 0 {
        assert(a + b =~= a);
        assert(each_with_colon(a) + each_with_colon(b) =~= each_with_colon(a));
    } else {
        assert((a + b).drop_last() =~= a + b.drop_last());
        lemma_each_with_colon_concat(a, b.drop_last());
        assert(each_with_colon(a + b) =~= each_with_colon(a) + each_with_colon(b));
    }
}

proof fn lemma_each_with_colon_one(x: Seq<u8>)
    ensures
        each_with_colon(seq![x]) == x + seq![0x3au8],
{
    assert(seq![x].drop_last() =~= Seq::<Seq<u8>>::empty());
    assert(each_with_colon(Seq::<Seq<u8>>::empty()) == Seq::<u8>::empty());
    assert(each_with_colon(seq![x]) =~= x + seq![0x3au8]);
}

proof fn lemma_each_with_colon_join(fields: Seq<Seq<u8>>)
    requires
        fields.len() >= 1,
    ensures
        each_with_colon(fields) == join_with_colons(fields) + seq![0x3au8],
    decreases fields.len(),
{
    if fields.len() == 1 {
        assert(fields =~= seq![fields[0]]);
        lemma_each_with_colon_one(fields[0]);
    } else {
        lemma_each_with_colon_join(fields.drop_last());
        assert(each_with_colon(fields) =~= join_with_colons(fields) + seq![0x3au8]);
    }
}

proof fn lemma_header_literals()
    ensures
        encode_utf8("["@) == seq![0x5bu8],
        encode_utf8(":"@) == seq![0x3au8],
        encode_utf8("] "@) == seq![0x5du8, 0x20u8],
{
    reveal_strlit("[");
    reveal_strlit(":");
    reveal_strlit("] ");
    is_ascii_chars_encode_utf8("["@);
    is_ascii_chars_encode_utf8(":"@);
    is_ascii_chars_encode_utf8("] "@);
    assert(encode_utf8("["@) =~= seq![0x5bu8]);
    assert(encode_utf8(":"@) =~= seq![0x3au8]);
    assert(encode_utf8("] "@) =~= seq![0x5du8, 0x20u8]);
}

proof fn lemma_field_step(cap: int, content: Seq<u8>, show: bool, text: Option<Seq<char>>)
    requires
        forall|i: int|
            0 <= i < shown_field(show, text).len() ==> #[trigger] shown_field(show, text)[i].len()
                > 0,
        content.len() + each_with_colon(shown_field(show, text)).len() <= cap - 1,
    ensures
        after_opt_field(cap, content, show, text) == content + each_with_colon(
            shown_field(show, text),
        ),
{
    lemma_header_literals();
    let f = shown_field(show, text);
    match text {
        Some(t) if show => {
            assert(f[0].len() > 0);
            lemma_each_with_colon_one(encode_utf8(t));
            lemma_write_fits(cap, content, t);
            reveal_strlit(":");
            lemma_write_fits(cap, content + encode_utf8(t), ":"@);
            assert(content + encode_utf8(t) + seq![0x3au8] =~= content + each_with_colon(f));
        },
        _ => {
            assert(f =~= Seq::<Seq<u8>>::empty());
            assert(each_with_colon(f) == Seq::<u8>::empty());
            assert(content + each_with_colon(f) =~= content);
        },
    }
}

proof fn lemma_fields_written(
    cap: int,
    c1: Seq<u8>,
    show_module: bool,
    show_file: bool,
    show_line: bool,
    module: Option<Seq<char>>,
    file: Option<Seq<char>>,
    line_text: Option<Seq<char>>,
)
    requires
        ({
            let fields = shown_field(show_module, module) + shown_field(show_file, file)
                + shown_field(show_line, line_text);
            &&& forall|i: int| 0 <= i < fields.len() ==> #[trigger] fields[i].len() > 0
            &&& c1.len() + each_with_colon(fields).len() <= cap - 1
        }),
    ensures
        after_opt_field(
            cap,
            after_opt_field(cap, after_opt_field(cap, c1, show_module, module), show_file, file),
            show_line,
            line_text,
        ) == c1 + each_with_colon(
            shown_field(show_module, module) + shown_field(show_file, file) + shown_field(
                show_line,
                line_text,
            ),
        ),
{
    let fm = shown_field(show_module, module);
    let ff = shown_field(show_file, file);
    let fl = shown_field(show_line, line_text);
    let fields = fm + ff + fl;
    lemma_each_with_colon_concat(fm, ff);
    lemma_each_with_colon_concat(fm + ff, fl);
    assert forall|i: int| 0 <= i < fm.len() implies #[trigger] fm[i].len() > 0 by {
        assert(fm[i] == fields[i]);
    }
    assert forall|i: int| 0 <= i < ff.len() implies #[trigger] ff[i].len() > 0 by {
        assert(ff[i] == fields[fm.len() + i]);
    }
    assert forall|i: int| 0 <= i < fl.len() implies #[trigger] fl[i].len() > 0 by {
        assert(fl[i] == fields[fm.len() + ff.len() + i]);
    }
    let c2 = c1 + each_with_colon(fm);
    let c3 = c2 + each_with_colon(ff);
    lemma_field_step(cap, c1, show_module, module);
    lemma_field_step(cap, c2, show_file, file);
    lemma_field_step(cap, c3, show_line, line_text);
    assert(c3 + each_with_colon(fl) =~= c1 + each_with_colon(fields));
}

/// When at least one field is shown and present, no shown field is empty, and
/// all of it fits with one byte free, the header is `[`, the shown fields
/// joined with colons, and `] `, appended to the content.
pub proof fn lemma_header_layout(
    cap: int,
    content: Seq<u8>,
    show_module: bool,
    show_file: bool,
    show_line: bool,
    module: Option<Seq<char>>,
    file: Option<Seq<char>>,
    line: Option<u32>,
)
    requires
        ({
            let fields = shown_fields(show_module, show_file, show_line, module, file, line);
            &&& fields.len() >= 1
            &&& forall|i: int| 0 <= i < fields.len() ==> #[trigger] fields[i].len() > 0
            &&& content.len() + join_with_colons(fields).len() + 4 <= cap
        }),
    ensures
        after_header(cap, content, show_module, show_file, show_line, module, file, line)
            == content + seq![0x5bu8] + join_with_colons(
            shown_fields(show_module, show_file, show_line, module, file, line),
        ) + seq![0x5du8, 0x20u8],
{
    lemma_header_literals();
    let line_text = match line {
        Some(l) => Some(decimal(l as nat)),
        None => None,
    };
    let fields = shown_fields(show_module, show_file, show_line, module, file, line);
    let joined = join_with_colons(fields);
    lemma_each_with_colon_join(fields);
    reveal_strlit("[");
    lemma_write_fits(cap, content, "["@);
    let c1 = content + seq![0x5bu8];
    lemma_fields_written(cap, c1, show_module, show_file, show_line, module, file, line_text);
    let c4 = c1 + (joined + seq![0x3au8]);
    assert(c4.take(c4.len() - 1) =~= c1 + joined);
    reveal_strlit("] ");
    lemma_write_fits(cap, c1 + joined, "] "@);
    assert(c1 + joined + seq![0x5du8, 0x20u8] =~= content + seq![0x5bu8] + joined + seq![
        0x5du8,
        0x20u8,
    ]);
}

/// With the file shown and present (non-empty, fitting) and neither module
/// nor line shown, the header is `[`, the file, and `] `.
pub proof fn lemma_header_shows_file_alone(
    cap: int,
    content: Seq<u8>,
    module: Option<Seq<char>>,
    f: Seq<char>,
    line: Option<u32>,
)
    requires
        encode_utf8(f).len() > 0,
        content.len() + encode_utf8(f).len() + 4 <= cap,
    ensures
        after_header(cap, content, false, true, false, module, Some(f), line) == content
            + seq![0x5bu8] + encode_utf8(f) + seq![0x5du8, 0x20u8],
{
    let fields = shown_fields(false, true, false, module, Some(f), line);
    assert(fields =~= seq![encode_utf8(f)]);
    lemma_header_layout(cap, content, false, true, false, module, Some(f), line);
}

} // verus!
