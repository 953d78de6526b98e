//! A fixed-capacity byte buffer that accepts text and never splits a
//! UTF-8 character when it runs out of room.
use vstd::prelude::*;
use vstd::utf8::*;
use vstd::string::*;

verus! {

broadcast use {
    vstd::utf8::encode_utf8_valid_utf8,
    vstd::utf8::is_char_boundary_iff_not_is_continuation_byte,
    vstd::utf8::is_char_boundary_start_end_of_seq,
};

/// A write placed no byte: the buffer was full, the text was empty, or its
/// first character did not fit.
#[derive(Clone, Copy, Debug, PartialEq, Eq, Structural)]
pub enum WriteError {
    NoRoom,
}

/// Greatest index `k <= index` (or the length, when `index` is past the end)
/// whose byte is not a UTF-8 continuation byte; 0 when none is.
pub open spec fn floor_boundary(bytes: Seq<u8>, index: int) -> int
    decreases index,
{
    if index >= bytes.len() {
        bytes.len() as int
    } else if index <= 0 {
        0
    } else if !is_continuation_byte(bytes[index]) {
        index
    } else {
        floor_boundary(bytes, index - 1)
    }
}

/// Number of bytes of `bytes` that a buffer of capacity `cap` holding
/// `content` takes in one write: as many as fit while one byte stays free,
/// cut back to a character boundary.
pub open spec fn write_len(cap: int, content: Seq<u8>, bytes: Seq<u8>) -> int {
    let room = cap - content.len() - 1;
    let to_write = if bytes.len() <= room { bytes.len() as int } else { room };
    floor_boundary(bytes, to_write)
}

/// Content of the buffer after writing `text`, or `None` when the write
/// places no byte (and the content stays as it was).
pub open spec fn content_after_write(cap: int, content: Seq<u8>, text: Seq<char>) -> Option<
    Seq<u8>,
> {
    let bytes = encode_utf8(text);
    let n = write_len(cap, content, bytes);
    if n == 0 {
        None
    } else {
        Some(content + bytes.take(n))
    }
}

/// Content after writing `pieces` one after the other, stopping at the first
/// write that places no byte; the flag tells whether all of them succeeded.
pub open spec fn content_after_pieces(cap: int, content: Seq<u8>, pieces: Seq<Seq<char>>) -> (
    Seq<u8>,
    bool,
)
    decreases pieces.len(),
{
    if pieces.len() == 0 {
        (content, true)
    } else {
        match content_after_write(cap, content, pieces[0]) {
            None => (content, false),
            Some(c) => content_after_pieces(cap, c, pieces.drop_first()),
        }
    }
}

/// Content after moving the write position back by `cnt` bytes (to 0 at most).
pub open spec fn content_after_revert(content: Seq<u8>, cnt: int) -> Seq<u8> {
    if cnt >= content.len() {
        Seq::empty()
    } else {
        content.take(content.len() - cnt)
    }
}

/// A buffer of `BUF_SIZE` bytes of which the first `pos` are written.
pub struct BufWriter<const BUF_SIZE: usize> {
    buf: Vec<u8>,
    pos: usize,
}

impl<const BUF_SIZE: usize> View for BufWriter<BUF_SIZE> {
    type V = Seq<u8>;

    /// The bytes written so far.
    closed spec fn view(&self) -> Seq<u8> {
        self.buf@.take(self.pos as int)
    }
}

impl<const BUF_SIZE: usize> BufWriter<BUF_SIZE> {
    /// The buffer has its full size and keeps one byte free (when it has any).
    pub closed spec fn wf(&self) -> bool {
        &&& self.buf@.len() == BUF_SIZE
        &&& (self.pos < BUF_SIZE || self.pos == 0)
    }

    /// An empty buffer.
    pub fn new() -> (w: Self)
        ensures
            w.wf(),
            w@ == Seq::<u8>::empty(),
    {
        BufWriter { buf: vec![0u8; BUF_SIZE], pos: 0 }
    }

    /// The written part of the buffer (not NUL-terminated).
    pub fn as_c_str(&self) -> (s: &[u8])
        requires
            self.wf(),
        ensures
            s@ == self@,
    {
        vstd::slice::slice_subrange(self.buf.as_slice(), 0, self.pos)
    }

    /// Number of bytes written.
    pub fn len(&self) -> (n: usize)
        requires
            self.wf(),
        ensures
            n == self@.len(),
    {
        self.pos
    }

    /// Moves the write position back by `cnt` bytes, to the start at most.
    pub fn revert_pos(&mut self, cnt: usize)
        requires
            old(self).wf(),
        ensures
            final(self).wf(),
            final(self)@.len() < BUF_SIZE || BUF_SIZE == 0,
            final(self)@ == content_after_revert(old(self)@, cnt as int),
    {
        self.pos = self.pos.saturating_sub(cnt);
    }

    /// Writes as much of `s` as fits while one byte stays free, cut back to
    /// a character boundary; fails, writing nothing, when that is no byte.
    pub fn write_str(&mut self, s: &str) -> (r: Result<(), WriteError>)
        requires
            old(self).wf(),
            BUF_SIZE > 0,
        ensures
            final(self).wf(),
            final(self)@.len() < BUF_SIZE,
            r is Ok ==> content_after_write(BUF_SIZE as int, old(self)@, s@) == Some(final(self)@),
            r is Err ==> content_after_write(BUF_SIZE as int, old(self)@, s@) is None
                && final(self)@ == old(self)@,
            valid_utf8(old(self)@) ==> valid_utf8(final(self)@),
    {
        let bytes = s.as_bytes();
        let ghost b = s.spec_bytes();
        let room = BUF_SIZE - self.pos - 1;
        let to_write = if bytes.len() <= room {
            bytes.len()
        } else {
            room
        };
        let bounded = Self::floor_char_boundary(s, to_write);
        if bounded == 0 {
            return Err(WriteError::NoRoom);
        }
        let pos = self.pos;
        let mut i: usize = 0;
        while i < bounded
            invariant
                b == bytes@,
                bounded <= b.len(),
                pos + bounded < BUF_SIZE,
                pos == self.pos,
                pos == old(self).pos,
                self.buf@.len() == BUF_SIZE,
                0 <= i <= bounded,
                self.buf@.take(pos as int) == old(self).buf@.take(pos as int),
                forall|k: int| 0 <= k < i ==> self.buf@[pos + k] == b[k],
            decreases bounded - i,
        {
            self.buf.set(pos + i, bytes[i]);
            i = i + 1;
            assert(self.buf@.take(pos as int) =~= old(self).buf@.take(pos as int));
        }
        self.pos = pos + bounded;
        proof {
            assert(self@ =~= old(self)@ + b.take(bounded as int));
            encode_utf8_valid_utf8(s@);
            if valid_utf8(old(self)@) {
                valid_utf8_split(b, bounded as int);
                assert(b.subrange(0, bounded as int) =~= b.take(bounded as int));
                valid_utf8_concat(old(self)@, b.take(bounded as int));
            }
        }
        Ok(())
    }

    /// Writes `pieces` one after the other, stopping at the first that
    /// places no byte, as formatting into a writer does.
    pub fn write_pieces(&mut self, pieces: &[String]) -> (r: Result<(), WriteError>)
        requires
            old(self).wf(),
            BUF_SIZE > 0,
        ensures
            final(self).wf(),
            final(self)@.len() < BUF_SIZE,
            content_after_pieces(BUF_SIZE as int, old(self)@, pieces@.map_values(|p: String| p@))
                == (final(self)@, r is Ok),
            valid_utf8(old(self)@) ==> valid_utf8(final(self)@),
    {
        let ghost all = pieces@.map_values(|p: String| p@);
        assert(all.skip(0) =~= all);
        let mut i: usize = 0;
        while i < pieces.len()
            invariant
                self.wf(),
                BUF_SIZE > 0,
                0 <= i <= pieces@.len(),
                all == pieces@.map_values(|p: String| p@),
                content_after_pieces(BUF_SIZE as int, old(self)@, all) == content_after_pieces(
                    BUF_SIZE as int,
                    self@,
                    all.skip(i as int),
                ),
                valid_utf8(old(self)@) ==> valid_utf8(self@),
            decreases pieces@.len() - i,
        {
            let ghost before = self@;
            let r = self.write_str(pieces[i].as_str());
            proof {
                assert(all.skip(i as int)[0] == pieces@[i as int]@);
                assert(all.skip(i as int).drop_first() =~= all.skip(i + 1));
            }
            if r.is_err() {
                return r;
            }
            i = i + 1;
        }
        proof {
            assert(all.skip(i as int) =~= Seq::<Seq<char>>::empty());
        }
        Ok(())
    }

    /// Whether a byte starts a character, i.e. is not a continuation byte
    /// (below 0x80 or from 0xC0 on).
    pub fn is_utf8_char_boundary(i: u8) -> (b: bool)
        ensures
            b == !is_continuation_byte(i),
    {
        let signed = i as i8;
        assert(((i as i8) >= -0x40i8) == !(0x80 <= i && i <= 0xbf)) by (bit_vector);
        signed >= -0x40
    }

    /// The greatest character boundary of `view` at or below `index`
    /// (the length of `view` when `index` is past its end).
    pub fn floor_char_boundary(view: &str, index: usize) -> (k: usize)
        ensures
            k as int == floor_boundary(view.spec_bytes(), index as int),
            index < view.spec_bytes().len() ==> k <= index,
            k <= view.spec_bytes().len(),
            is_char_boundary(view.spec_bytes(), k as int),
            forall|j: int|
                k < j <= index && j <= view.spec_bytes().len() ==> !is_char_boundary(
                    view.spec_bytes(),
                    j,
                ),
    {
        let bytes = view.as_bytes();
        let ghost b = view.spec_bytes();
        proof {
            encode_utf8_valid_utf8(view@);
        }
        if index >= bytes.len() {
            return bytes.len();
        }
        let lower = index.saturating_sub(3);
        proof {
            lemma_boundary_within_four(b, index as int);
        }
        let mut i = index;
        while i > lower && !Self::is_utf8_char_boundary(bytes[i])
            invariant
                b == bytes@,
                valid_utf8(b),
                lower <= i <= index < b.len(),
                lower == (if index >= 3 { index - 3 } else { 0 }),
                exists|k: int| lower <= k <= index && !is_continuation_byte(#[trigger] b[k]),
                forall|j: int| i < j <= index ==> is_continuation_byte(#[trigger] b[j]),
            decreases i,
        {
            i = i - 1;
        }
        proof {
            if is_continuation_byte(b[i as int]) {
                let k = choose|k: int| lower <= k <= index && !is_continuation_byte(#[trigger] b[k]);
                assert(k == i);
            }
            lemma_floor_boundary_at(b, i as int, index as int);
            assert forall|j: int| i < j <= index && j <= b.len() implies !is_char_boundary(b, j) by {
                assert(is_continuation_byte(b[j]));
            }
        }
        i
    }
}

/// In valid UTF-8, every index has a byte that starts a character at most
/// three bytes before it.
proof fn lemma_boundary_within_four(b: Seq<u8>, index: int)
    requires
        valid_utf8(b),
        0 <= index < b.len(),
    ensures
        exists|k: int|
            (if index >= 3 { index - 3 } else { 0 }) <= k <= index && !is_continuation_byte(
                #[trigger] b[k],
            ),
    decreases b.len(),
{
    let l = length_of_first_scalar(b);
    if index < l {
        assert(!is_continuation_byte(b[0]));
    } else {
        let rest = pop_first_scalar(b);
        lemma_boundary_within_four(rest, index - l);
        let k = choose|k: int|
            (if index - l >= 3 { index - l - 3 } else { 0 }) <= k <= index - l
                && !is_continuation_byte(#[trigger] rest[k]);
        assert(rest[k] == b[k + l]);
    }
}

/// When the byte at `i` starts a character and those after it up to `index`
/// do not, `i` is the floor boundary of `index`.
proof fn lemma_floor_boundary_at(b: Seq<u8>, i: int, index: int)
    requires
        0 <= i <= index < b.len(),
        i == 0 || !is_continuation_byte(b[i]),
        forall|j: int| i < j <= index ==> is_continuation_byte(#[trigger] b[j]),
    ensures
        floor_boundary(b, index) == i,
    decreases index - i,
{
    if index > i {
        assert(is_continuation_byte(b[index]));
        lemma_floor_boundary_at(b, i, index - 1);
    }
}


/// The floor boundary of valid UTF-8 is a character boundary, at or below
/// the index (or the length), and no greater index up to there is one.
pub proof fn lemma_floor_boundary(b: Seq<u8>, index: int)
    requires
        valid_utf8(b),
        0 <= index,
    ensures
        0 <= floor_boundary(b, index) <= b.len(),
        index < b.len() ==> floor_boundary(b, index) <= index,
        is_char_boundary(b, floor_boundary(b, index)),
        forall|k: int|
            floor_boundary(b, index) < k <= index && k <= b.len() ==> !is_char_boundary(b, k),
    decreases index,
{
    if index >= b.len() {
    } else if index == 0 {
    } else if !is_continuation_byte(b[index]) {
    } else {
        lemma_floor_boundary(b, index - 1);
        assert forall|k: int|
            floor_boundary(b, index) < k <= index && k <= b.len() implies !is_char_boundary(
            b,
            k,
        ) by {
            if k == index {
                assert(is_continuation_byte(b[k]));
            }
        }
    }
}

/// A write that succeeds appends a non-empty prefix of the text's bytes that
/// ends at a character boundary and leaves one byte of the buffer free; the
/// prefix is the longest such one.
pub proof fn lemma_write_cuts_at_char_boundary(cap: int, content: Seq<u8>, text: Seq<char>)
    requires
        content.len() < cap,
    ensures
        ({
            let bytes = encode_utf8(text);
            let n = write_len(cap, content, bytes);
            &&& 0 <= n <= bytes.len()
            &&& content.len() + n <= cap - 1
            &&& is_char_boundary(bytes, n)
            &&& forall|k: int|
                n < k <= bytes.len() && content.len() + k <= cap - 1 ==> !is_char_boundary(
                    bytes,
                    k,
                )
            &&& content_after_write(cap, content, text) == if n == 0 {
                None
            } else {
                Some(content + bytes.take(n))
            }
        }),
{
    let bytes = encode_utf8(text);
    encode_utf8_valid_utf8(text);
    let room = cap - content.len() - 1;
    let to_write = if bytes.len() <= room {
        bytes.len() as int
    } else {
        room
    };
    lemma_floor_boundary(bytes, to_write);
}

/// A non-empty text that fits in the free room, one byte kept, is written
/// whole.
pub proof fn lemma_write_fits(cap: int, content: Seq<u8>, text: Seq<char>)
    requires
        0 < encode_utf8(text).len(),
        content.len() + encode_utf8(text).len() <= cap - 1,
    ensures
        content_after_write(cap, content, text) == Some(content + encode_utf8(text)),
{
    let bytes = encode_utf8(text);
    assert(bytes.take(bytes.len() as int) =~= bytes);
}

/// Writing an empty text never succeeds.
pub proof fn lemma_write_empty_fails(cap: int, content: Seq<u8>)
    ensures
        content_after_write(cap, content, Seq::<char>::empty()) is None,
{
    assert(encode_utf8(Seq::<char>::empty()) =~= Seq::<u8>::empty());
}

/// Once only the reserved byte is free, no write succeeds.
pub proof fn lemma_write_full_fails(cap: int, content: Seq<u8>, text: Seq<char>)
    requires
        content.len() == cap - 1,
    ensures
        content_after_write(cap, content, text) is None,
{
}

/// Moving the position back by the number of bytes a write placed undoes
/// that write.
pub proof fn lemma_revert_undoes_write(cap: int, content: Seq<u8>, text: Seq<char>)
    requires
        content_after_write(cap, content, text) is Some,
    ensures
        ({
            let after = content_after_write(cap, content, text)->0;
            content_after_revert(after, after.len() - content.len()) == content
        }),
{
    let after = content_after_write(cap, content, text)->0;
    assert(after.take(content.len() as int) =~= content);
}

/// Writing into valid UTF-8 content leaves valid UTF-8, whether or not the
/// write places bytes: only whole characters of the text are appended.
pub proof fn lemma_write_keeps_valid_utf8(cap: int, content: Seq<u8>, text: Seq<char>)
    requires
        valid_utf8(content),
    ensures
        valid_utf8(after_write(cap, content, text)),
{
    let bytes = encode_utf8(text);
    encode_utf8_valid_utf8(text);
    let room = cap - content.len() - 1;
    let to_write = if bytes.len() <= room {
        bytes.len() as int
    } else {
        room
    };
    if to_write >= 0 {
        lemma_floor_boundary(bytes, to_write);
    }
    let n = write_len(cap, content, bytes);
    if n != 0 {
        assert(0 < n <= bytes.len());
        valid_utf8_split(bytes, n);
        assert(bytes.subrange(0, n) =~= bytes.take(n));
        valid_utf8_concat(content, bytes.take(n));
    }
}

/// Content after a write, the same content when the write places no byte.
pub open spec fn after_write(cap: int, content: Seq<u8>, text: Seq<char>) -> Seq<u8> {
    match content_after_write(cap, content, text) {
        Some(c) => c,
        None => content,
    }
}

} // verus!
