//! A byte cursor with the reading and writing helpers that the script and
//! archive code use: little-endian integers, zero-terminated and
//! fixed-length Shift-JIS texts, and zero padding.
//!
//! A write at the cursor overwrites the bytes there and extends the buffer
//! where it runs past the end; a cursor placed past the end fills the gap
//! with zeros when it writes, as a `std::io::Cursor` over a `Vec<u8>` does.

use vstd::prelude::*;
use crate::text::{decode_shift_jis, escape_controls, script_bytes_to_text, shift_jis_decoded};

verus! {

/// Little-endian bytes of a 16-bit value.
pub open spec fn le16(v: u16) -> Seq<u8> {
    seq![(v % 256) as u8, (v / 256) as u8]
}

/// Little-endian bytes of a 32-bit value.
pub open spec fn le32(v: u32) -> Seq<u8> {
    seq![(v % 256) as u8, ((v / 256) % 256) as u8, ((v / 65536) % 256) as u8, (v / 16777216) as u8]
}

/// The 16-bit little-endian value at `i`.
pub open spec fn u16_at(b: Seq<u8>, i: int) -> u16 {
    (b[i] + 256 * b[i + 1]) as u16
}

/// The 32-bit little-endian value at `i`.
pub open spec fn u32_at(b: Seq<u8>, i: int) -> u32 {
    (b[i] + 256 * b[i + 1] + 65536 * b[i + 2] + 16777216 * b[i + 3]) as u32
}

/// The first index at or after `i` that holds a zero byte, or the length
/// where there is none.
pub open spec fn zero_from(b: Seq<u8>, i: int) -> int
    decreases b.len() - i,
{
    if i < 0 || i >= b.len() {
        b.len() as int
    } else if b[i] == 0 {
        i
    } else {
        zero_from(b, i + 1)
    }
}

/// `n` zero bytes.
pub open spec fn zeros(n: nat) -> Seq<u8> {
    Seq::new(n, |i: int| 0u8)
}

/// The buffer after writing `d` at position `p`: bytes there are
/// overwritten, the buffer grows where the write runs past its end, and a
/// gap between the end and `p` is filled with zeros.
pub open spec fn write_at(buf: Seq<u8>, p: int, d: Seq<u8>) -> Seq<u8> {
    let base = if p <= buf.len() {
        buf
    } else {
        buf + zeros((p - buf.len()) as nat)
    };
    let end = p + d.len();
    base.take(p) + d + (if end < base.len() {
        base.skip(end)
    } else {
        Seq::empty()
    })
}

/// How many zero bytes bring `len` up to a multiple of `m`.
pub open spec fn pad_count(len: int, m: int) -> int {
    (m - len % m) % m
}

/// The raw bytes that a fixed-length read of `l` bytes at `p` yields: the
/// bytes themselves, or zeros where the input is too short (the failed
/// `read_exact` leaves its zeroed buffer untouched).
pub open spec fn fixed_read_bytes(b: Seq<u8>, p: int, l: int) -> Seq<u8> {
    if p + l <= b.len() {
        b.subrange(p, p + l)
    } else {
        zeros(l as nat)
    }
}

/// The position after a fixed-length read of `l` bytes at `p`: past the
/// bytes, or at the end of the input where it is too short.
pub open spec fn fixed_read_end(b: Seq<u8>, p: int, l: int) -> int {
    if p + l <= b.len() || l == 0 {
        p + l
    } else {
        b.len() as int
    }
}

/// Reading helpers over a seekable byte stream.
pub trait CursorHelper {
    /// The bytes of the stream.
    spec fn stream_bytes(&self) -> Seq<u8>;

    /// The current position.
    spec fn stream_pos(&self) -> int;

    /// The `size` bytes at `offset`; the position is kept.
    fn get_bytes(&mut self, offset: u64, size: usize) -> (bytes: Vec<u8>)
        requires
            offset + size <= old(self).stream_bytes().len(),
        ensures
            bytes@ == old(self).stream_bytes().subrange(offset as int, offset + size),
            final(self).stream_bytes() == old(self).stream_bytes(),
            final(self).stream_pos() == old(self).stream_pos(),
    ;

    /// The zero-terminated Shift-JIS text at `offset`; the position is kept.
    fn get_shift_jis(&mut self, offset: u64) -> (text: String)
        requires
            zero_from(old(self).stream_bytes(), offset as int) < old(self).stream_bytes().len(),
        ensures
            text@ == shift_jis_decoded(
                old(self).stream_bytes().subrange(
                    offset as int,
                    zero_from(old(self).stream_bytes(), offset as int),
                ),
            ),
            final(self).stream_bytes() == old(self).stream_bytes(),
            final(self).stream_pos() == old(self).stream_pos(),
    ;

    /// The fixed-length text of `len` bytes at the position, with its control
    /// codes written as markup.
    fn read_fixed_shift_jis(&mut self, len: usize) -> (text: String)
        ensures
            text@ == script_bytes_to_text(
                fixed_read_bytes(old(self).stream_bytes(), old(self).stream_pos(), len as int),
            ),
            final(self).stream_bytes() == old(self).stream_bytes(),
            final(self).stream_pos() == fixed_read_end(
                old(self).stream_bytes(),
                old(self).stream_pos(),
                len as int,
            ),
    ;

    /// The zero-terminated Shift-JIS text at the position; the position moves
    /// past the terminator.
    fn read_shift_jis(&mut self) -> (text: String)
        requires
            zero_from(old(self).stream_bytes(), old(self).stream_pos()) < old(
                self,
            ).stream_bytes().len(),
        ensures
            text@ == shift_jis_decoded(
                old(self).stream_bytes().subrange(
                    old(self).stream_pos(),
                    zero_from(old(self).stream_bytes(), old(self).stream_pos()),
                ),
            ),
            final(self).stream_bytes() == old(self).stream_bytes(),
            final(self).stream_pos() == zero_from(
                old(self).stream_bytes(),
                old(self).stream_pos(),
            ) + 1,
    ;

    /// Writes zero bytes until the distance from `pos` to the position is a
    /// multiple of `padding`.
    fn write_padding(&mut self, padding: u64, pos: u64)
        requires
            padding > 0,
            pos <= old(self).stream_pos(),
            old(self).stream_pos() + pad_count(old(self).stream_pos() - pos, padding as int)
                <= usize::MAX,
        ensures
            final(self).stream_bytes() == (if pad_count(old(self).stream_pos() - pos, padding as int)
                == 0 {
                old(self).stream_bytes()
            } else {
                write_at(
                    old(self).stream_bytes(),
                    old(self).stream_pos(),
                    zeros(pad_count(old(self).stream_pos() - pos, padding as int) as nat),
                )
            }),
            final(self).stream_pos() == old(self).stream_pos() + pad_count(
                old(self).stream_pos() - pos,
                padding as int,
            ),
    ;

    /// The byte at the position.
    fn read_u8(&mut self) -> (v: u8)
        requires
            0 <= old(self).stream_pos() && old(self).stream_pos() + 1 <= old(
                self,
            ).stream_bytes().len(),
        ensures
            v == old(self).stream_bytes()[old(self).stream_pos()],
            final(self).stream_bytes() == old(self).stream_bytes(),
            final(self).stream_pos() == old(self).stream_pos() + 1,
    ;

    /// The little-endian 16-bit value at the position.
    fn read_u16(&mut self) -> (v: u16)
        requires
            0 <= old(self).stream_pos() && old(self).stream_pos() + 2 <= old(
                self,
            ).stream_bytes().len(),
        ensures
            v == u16_at(old(self).stream_bytes(), old(self).stream_pos()),
            final(self).stream_bytes() == old(self).stream_bytes(),
            final(self).stream_pos() == old(self).stream_pos() + 2,
    ;

    /// The little-endian 32-bit value at the position.
    fn read_u32(&mut self) -> (v: u32)
        requires
            0 <= old(self).stream_pos() && old(self).stream_pos() + 4 <= old(
                self,
            ).stream_bytes().len(),
        ensures
            v == u32_at(old(self).stream_bytes(), old(self).stream_pos()),
            final(self).stream_bytes() == old(self).stream_bytes(),
            final(self).stream_pos() == old(self).stream_pos() + 4,
    ;
}

/// Writing a value in little-endian order at the position of a stream.
pub trait WriterHelper<T> {
    /// The bytes of the stream.
    spec fn written(&self) -> Seq<u8>;

    /// The current position.
    spec fn write_pos(&self) -> int;

    /// The bytes that stand for `value`.
    spec fn encoding_of(value: T) -> Seq<u8>;

    /// Writes `value` at the position and moves past it.
    fn write_v(&mut self, value: T)
        requires
            old(self).write_pos() + Self::encoding_of(value).len() <= usize::MAX,
        ensures
            final(self).written() == write_at(
                old(self).written(),
                old(self).write_pos(),
                Self::encoding_of(value),
            ),
            final(self).write_pos() == old(self).write_pos() + Self::encoding_of(value).len(),
    ;
}

/// A byte buffer with a position.
pub struct ByteCursor {
    data: Vec<u8>,
    pos: usize,
}

pub proof fn lemma_write_at_extend(buf: Seq<u8>, p: int, x: Seq<u8>, y: Seq<u8>)
    requires
        0 <= p,
    ensures
        write_at(write_at(buf, p, x), p + x.len(), y) == write_at(buf, p, x + y),
{
    let w = write_at(buf, p, x);
    assert(w.len() >= p + x.len());
    let lhs = write_at(w, p + x.len(), y);
    let rhs = write_at(buf, p, x + y);
    assert(lhs =~= rhs);
}

/// A write at the end appends; a write never shortens the buffer and reaches
/// at least to the end of the written bytes.
pub proof fn lemma_write_at_len(buf: Seq<u8>, p: int, d: Seq<u8>)
    requires
        0 <= p,
    ensures
        write_at(buf, p, d).len() >= buf.len(),
        write_at(buf, p, d).len() >= p + d.len(),
        p <= buf.len() ==> write_at(buf, p, d).len() == if p + d.len() > buf.len() {
            p + d.len()
        } else {
            buf.len() as int
        },
        p == buf.len() ==> write_at(buf, p, d) == buf + d,
{
    if p == buf.len() {
        assert(write_at(buf, p, d) =~= buf + d);
    }
}


/// A write changes only the bytes it covers: every other byte of the buffer
/// keeps its value, and the written bytes read back as written.
pub proof fn lemma_write_at_bytes(buf: Seq<u8>, p: int, d: Seq<u8>)
    requires
        0 <= p,
    ensures
        forall|i: int|
            0 <= i < buf.len() && (i < p || i >= p + d.len()) ==> #[trigger] write_at(buf, p, d)[i]
                == buf[i],
        forall|i: int| 0 <= i < d.len() ==> #[trigger] write_at(buf, p, d)[p + i] == d[i],
        write_at(buf, p, d).len() >= p + d.len(),
        write_at(buf, p, d).len() >= buf.len(),
{
    lemma_write_at_len(buf, p, d);
    let w = write_at(buf, p, d);
    let base = if p <= buf.len() {
        buf
    } else {
        buf + zeros((p - buf.len()) as nat)
    };
    assert forall|i: int| 0 <= i < buf.len() && (i < p || i >= p + d.len()) implies #[trigger] w[i]
        == buf[i] by {
        assert(base[i] == buf[i]);
    }
    assert forall|i: int| 0 <= i < d.len() implies #[trigger] w[p + i] == d[i] by {
    }
}

/// A 16-bit word written at `p` reads back from `p` as the same word.
pub proof fn lemma_read_after_write_u16(buf: Seq<u8>, p: int, v: u16)
    requires
        0 <= p,
    ensures
        u16_at(write_at(buf, p, le16(v)), p) == v,
{
    lemma_write_at_bytes(buf, p, le16(v));
    let w = write_at(buf, p, le16(v));
    assert(w[p] == le16(v)[0]);
    assert(w[p + 1] == le16(v)[1]);
}

/// A 32-bit word written at `p` reads back from `p` as the same word.
pub proof fn lemma_read_after_write_u32(buf: Seq<u8>, p: int, v: u32)
    requires
        0 <= p,
    ensures
        u32_at(write_at(buf, p, le32(v)), p) == v,
{
    lemma_write_at_bytes(buf, p, le32(v));
    let w = write_at(buf, p, le32(v));
    assert(w[p] == le32(v)[0]);
    assert(w[p + 1] == le32(v)[1]);
    assert(w[p + 2] == le32(v)[2]);
    assert(w[p + 3] == le32(v)[3]);
}

/// A byte written at `p` reads back from `p`.
pub proof fn lemma_read_after_write_u8(buf: Seq<u8>, p: int, v: u8)
    requires
        0 <= p,
    ensures
        write_at(buf, p, seq![v])[p] == v,
{
    lemma_write_at_bytes(buf, p, seq![v]);
    assert(write_at(buf, p, seq![v])[p + 0] == seq![v][0]);
}

/// Four bytes read as a 32-bit word and written back are the same bytes.
pub proof fn lemma_le32_u32_at(b: Seq<u8>, i: int)
    requires
        0 <= i,
        i + 4 <= b.len(),
    ensures
        le32(u32_at(b, i)) == b.subrange(i, i + 4),
{
    let b0 = b[i];
    let b1 = b[i + 1];
    let b2 = b[i + 2];
    let b3 = b[i + 3];
    let v = u32_at(b, i);
    assert(v == b0 + 256 * b1 + 65536 * b2 + 16777216 * b3);
    assert(v % 256 == b0 && (v / 256) % 256 == b1 && (v / 65536) % 256 == b2 && v / 16777216 == b3)
        by (bit_vector)
        requires
            v == b0 + 256 * b1 + 65536 * b2 + 16777216 * b3,
    ;
    assert(le32(v) =~= b.subrange(i, i + 4));
}

/// Writing at `p` the bytes that are already there changes nothing.
pub proof fn lemma_write_same(b: Seq<u8>, p: int, n: int)
    requires
        0 <= p,
        0 <= n,
        p + n <= b.len(),
    ensures
        write_at(b, p, b.subrange(p, p + n)) == b,
{
    assert(write_at(b, p, b.subrange(p, p + n)) =~= b);
}

/// Two bytes read as a 16-bit word and written back are the same bytes.
pub proof fn lemma_le16_u16_at(b: Seq<u8>, i: int)
    requires
        0 <= i,
        i + 2 <= b.len(),
    ensures
        le16(u16_at(b, i)) == b.subrange(i, i + 2),
{
    let b0 = b[i];
    let b1 = b[i + 1];
    let v = u16_at(b, i);
    assert(v == b0 + 256 * b1);
    assert(v % 256 == b0 && v / 256 == b1) by (bit_vector)
        requires
            v == b0 + 256 * b1,
    ;
    assert(le16(v) =~= b.subrange(i, i + 2));
}

pub proof fn lemma_zero_from_bounds(b: Seq<u8>, i: int)
    requires
        0 <= i <= b.len(),
    ensures
        i <= zero_from(b, i) <= b.len(),
    decreases b.len() - i,
{
    if i < b.len() && b[i] != 0 {
        lemma_zero_from_bounds(b, i + 1);
    }
}

impl ByteCursor {
    /// The bytes of the buffer.
    pub closed spec fn bytes(&self) -> Seq<u8> {
        self.data@
    }

    /// The position.
    pub closed spec fn pos(&self) -> int {
        self.pos as int
    }

    /// A cursor at the start of `data`.
    pub fn new(data: Vec<u8>) -> (c: ByteCursor)
        ensures
            c.bytes() == data@,
            c.pos() == 0,
    {
        ByteCursor { data, pos: 0 }
    }

    /// A cursor at the start of a copy of `data`.
    pub fn from_slice(data: &[u8]) -> (c: ByteCursor)
        ensures
            c.bytes() == data@,
            c.pos() == 0,
    {
        ByteCursor { data: vstd::slice::slice_to_vec(data), pos: 0 }
    }

    /// The current position.
    pub fn position(&self) -> (p: usize)
        ensures
            p == self.pos(),
    {
        self.pos
    }

    /// The length of the buffer.
    pub fn len(&self) -> (l: usize)
        ensures
            l == self.bytes().len(),
    {
        self.data.len()
    }

    /// Moves the position to `pos` (which may lie past the end).
    pub fn seek(&mut self, pos: usize)
        ensures
            final(self).bytes() == old(self).bytes(),
            final(self).pos() == pos,
    {
        self.pos = pos;
    }

    /// The buffer.
    pub fn into_bytes(self) -> (data: Vec<u8>)
        ensures
            data@ == self.bytes(),
    {
        self.data
    }

    /// Writes one byte at the position and moves past it.
    pub fn write_byte(&mut self, b: u8)
        requires
            old(self).pos() < usize::MAX,
        ensures
            final(self).bytes() == write_at(old(self).bytes(), old(self).pos(), seq![b]),
            final(self).pos() == old(self).pos() + 1,
    {
        let ghost old_data = self.data@;
        let p = self.pos;
        if p < self.data.len() {
            self.data.set(p, b);
            assert(self.data@ =~= write_at(old_data, p as int, seq![b]));
        } else {
            while self.data.len() < p
                invariant
                    self.data@.len() <= p,
                    p == self.pos,
                    p >= old_data.len(),
                    self.data@ =~= old_data + zeros((self.data@.len() - old_data.len()) as nat),
                decreases p - self.data@.len(),
            {
                self.data.push(0);
            }
            self.data.push(b);
            assert(self.data@ =~= write_at(old_data, p as int, seq![b]));
        }
        self.pos = p + 1;
    }

    /// Fills the gap between the end of the buffer and the position with
    /// zeros, as an empty write does.
    fn pad_to_position(&mut self)
        ensures
            final(self).bytes() == write_at(old(self).bytes(), old(self).pos(), Seq::empty()),
            final(self).pos() == old(self).pos(),
    {
        let ghost old_data = self.data@;
        let p = self.pos;
        while self.data.len() < p
            invariant
                p == self.pos,
                self.data@.len() <= p || self.data@ == old_data,
                old_data.len() <= self.data@.len(),
                self.data@ =~= old_data + zeros((self.data@.len() - old_data.len()) as nat),
            decreases p - self.data@.len(),
        {
            self.data.push(0);
        }
        assert(self.data@ =~= write_at(old_data, p as int, Seq::empty()));
    }

    /// Writes `d` at the position and moves past it.
    pub fn write_bytes(&mut self, d: &[u8])
        requires
            old(self).pos() + d@.len() <= usize::MAX,
        ensures
            final(self).bytes() == write_at(old(self).bytes(), old(self).pos(), d@),
            final(self).pos() == old(self).pos() + d@.len(),
    {
        let ghost b0 = self.bytes();
        let ghost p0 = self.pos();
        self.pad_to_position();
        let mut i: usize = 0;
        assert(d@.take(0) =~= Seq::<u8>::empty());
        while i < d.len()
            invariant
                i <= d@.len(),
                p0 + d@.len() <= usize::MAX,
                p0 >= 0,
                self.pos() == p0 + i,
                self.bytes() == write_at(b0, p0, d@.take(i as int)),
            decreases d@.len() - i,
        {
            self.write_byte(d[i]);
            proof {
                lemma_write_at_extend(b0, p0, d@.take(i as int), seq![d@[i as int]]);
                assert(d@.take(i as int) + seq![d@[i as int]] =~= d@.take(i + 1));
            }
            i = i + 1;
        }
        assert(d@.take(d@.len() as int) =~= d@);
    }

    /// The index of the first zero byte at or after `start`, if there is one.
    pub fn terminator_from(&self, start: usize) -> (z: Option<usize>)
        ensures
            match z {
                Some(i) => i == zero_from(self.bytes(), start as int) && i < self.bytes().len(),
                None => zero_from(self.bytes(), start as int) >= self.bytes().len(),
            },
    {
        let l = self.data.len();
        let mut i = start;
        if i >= l {
            return None;
        }
        while i < l
            invariant
                start <= i <= l,
                l == self.data@.len(),
                i < l ==> zero_from(self.bytes(), start as int) == zero_from(self.bytes(), i as int),
                i == l ==> zero_from(self.bytes(), start as int) == l,
            decreases l - i,
        {
            if self.data[i] == 0 {
                return Some(i);
            }
            assert(zero_from(self.bytes(), i as int) == zero_from(self.bytes(), i + 1));
            assert(i + 1 == l ==> zero_from(self.bytes(), i + 1) == l);
            i = i + 1;
        }
        None
    }

    fn zero_terminated_end(&self, start: usize) -> (z: usize)
        requires
            zero_from(self.bytes(), start as int) < self.bytes().len(),
        ensures
            z == zero_from(self.bytes(), start as int),
            start <= z < self.bytes().len(),
    {
        let _ = self.data.len();
        let mut i = start;
        while self.data[i] != 0
            invariant
                start <= i,
                zero_from(self.bytes(), start as int) < self.bytes().len(),
                i < self.data@.len(),
                self.data@.len() <= usize::MAX,
                zero_from(self.bytes(), start as int) == zero_from(self.bytes(), i as int),
            decreases self.data@.len() - i,
        {
            proof {
                lemma_zero_from_bounds(self.bytes(), i + 1);
            }
            i = i + 1;
        }
        i
    }
}

impl CursorHelper for ByteCursor {
    open spec fn stream_bytes(&self) -> Seq<u8> {
        self.bytes()
    }

    open spec fn stream_pos(&self) -> int {
        self.pos()
    }

    fn get_bytes(&mut self, offset: u64, size: usize) -> (bytes: Vec<u8>) {
        let _ = self.data.len();
        let start = offset as usize;
        let s = vstd::slice::slice_subrange(self.data.as_slice(), start, start + size);
        vstd::slice::slice_to_vec(s)
    }

    fn get_shift_jis(&mut self, offset: u64) -> (text: String) {
        let _ = self.data.len();
        let start = offset as usize;
        let z = self.zero_terminated_end(start);
        decode_shift_jis(vstd::slice::slice_subrange(self.data.as_slice(), start, z))
    }

    fn read_fixed_shift_jis(&mut self, len: usize) -> (text: String) {
        let l = self.data.len();
        let p = self.pos;
        if p <= l && len <= l - p {
            let raw = vstd::slice::slice_subrange(self.data.as_slice(), p, p + len);
            let escaped = escape_controls(raw);
            self.pos = p + len;
            decode_shift_jis(escaped.as_slice())
        } else {
            let raw: Vec<u8> = vec![0u8; len];
            assert(raw@ =~= zeros(len as nat));
            let escaped = escape_controls(raw.as_slice());
            if len > 0 {
                self.pos = l;
            }
            decode_shift_jis(escaped.as_slice())
        }
    }

    fn read_shift_jis(&mut self) -> (text: String) {
        let _ = self.data.len();
        let p = self.pos;
        let z = self.zero_terminated_end(p);
        self.pos = z + 1;
        decode_shift_jis(vstd::slice::slice_subrange(self.data.as_slice(), p, z))
    }

    fn write_padding(&mut self, padding: u64, pos: u64) {
        let ghost b0 = self.data@;
        let ghost p0 = self.pos as int;
        let ghost count = pad_count(p0 - pos, padding as int);
        while (self.pos as u64 - pos) % padding != 0
            invariant
                padding > 0,
                pos <= p0 <= self.pos,
                p0 + count <= usize::MAX,
                count == pad_count(p0 - pos, padding as int),
                self.pos - p0 <= count,
                self.pos == p0 ==> self.data@ == b0,
                self.pos > p0 ==> self.data@ == write_at(b0, p0, zeros((self.pos - p0) as nat)),
            decreases count - (self.pos - p0),
        {
            assert((self.pos - pos) % (padding as int) != 0);
            assert(self.pos - p0 < count) by (nonlinear_arith)
                requires
                    padding > 0,
                    (self.pos - pos) % (padding as int) != 0,
                    count == ((padding as int) - (p0 - pos) % (padding as int)) % (padding as int),
                    self.pos - p0 <= count,
                    p0 >= pos,
            {
            }
            let ghost k = (self.pos - p0) as nat;
            self.write_byte(0);
            proof {
                if k > 0 {
                    lemma_write_at_extend(b0, p0, zeros(k), seq![0u8]);
                }
                assert(zeros(k) + seq![0u8] =~= zeros(k + 1));
                assert(seq![0u8] =~= zeros(1));
            }
        }
        assert(self.pos - p0 == count) by (nonlinear_arith)
            requires
                padding > 0,
                (self.pos - pos) % (padding as int) == 0,
                count == ((padding as int) - (p0 - pos) % (padding as int)) % (padding as int),
                0 <= self.pos - p0 <= count,
                p0 >= pos,
        {
        }
    }

    fn read_u8(&mut self) -> (v: u8) {
        let _ = self.data.len();
        let v = self.data[self.pos];
        self.pos = self.pos + 1;
        v
    }

    fn read_u16(&mut self) -> (v: u16) {
        let _ = self.data.len();
        let p = self.pos;
        let v = self.data[p] as u16 + (self.data[p + 1] as u16) * 256;
        self.pos = p + 2;
        v
    }

    fn read_u32(&mut self) -> (v: u32) {
        let _ = self.data.len();
        let p = self.pos;
        let v = self.data[p] as u32 + (self.data[p + 1] as u32) * 256 + (self.data[p + 2] as u32)
            * 65536 + (self.data[p + 3] as u32) * 16777216;
        self.pos = p + 4;
        v
    }
}

impl WriterHelper<u8> for ByteCursor {
    open spec fn written(&self) -> Seq<u8> {
        self.bytes()
    }

    open spec fn write_pos(&self) -> int {
        self.pos()
    }

    open spec fn encoding_of(value: u8) -> Seq<u8> {
        seq![value]
    }

    fn write_v(&mut self, value: u8) {
        self.write_byte(value);
    }
}

impl WriterHelper<u16> for ByteCursor {
    open spec fn written(&self) -> Seq<u8> {
        self.bytes()
    }

    open spec fn write_pos(&self) -> int {
        self.pos()
    }

    open spec fn encoding_of(value: u16) -> Seq<u8> {
        le16(value)
    }

    fn write_v(&mut self, value: u16) {
        let ghost b0 = self.data@;
        let ghost p0 = self.pos as int;
        let lo = (value % 256) as u8;
        let hi = (value / 256) as u8;
        self.write_byte(lo);
        self.write_byte(hi);
        proof {
            lemma_write_at_extend(b0, p0, seq![lo], seq![hi]);
            assert(seq![lo] + seq![hi] =~= le16(value));
        }
    }
}

impl WriterHelper<u32> for ByteCursor {
    open spec fn written(&self) -> Seq<u8> {
        self.bytes()
    }

    open spec fn write_pos(&self) -> int {
        self.pos()
    }

    open spec fn encoding_of(value: u32) -> Seq<u8> {
        le32(value)
    }

    fn write_v(&mut self, value: u32) {
        let ghost b0 = self.data@;
        let ghost p0 = self.pos as int;
        let b1 = (value % 256) as u8;
        let b2 = ((value / 256) % 256) as u8;
        let b3 = ((value / 65536) % 256) as u8;
        let b4 = (value / 16777216) as u8;
        self.write_byte(b1);
        self.write_byte(b2);
        self.write_byte(b3);
        self.write_byte(b4);
        proof {
            lemma_write_at_extend(b0, p0, seq![b1], seq![b2]);
            lemma_write_at_extend(b0, p0, seq![b1] + seq![b2], seq![b3]);
            lemma_write_at_extend(b0, p0, seq![b1] + seq![b2] + seq![b3], seq![b4]);
            assert(seq![b1] + seq![b2] + seq![b3] + seq![b4] =~= le32(value));
        }
    }
}

} // verus!
