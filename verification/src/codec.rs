//! Big-endian byte writer and reader for the wire protocol.
//!
//! Integers are written most significant byte first; a boolean is one byte
//! (1 or 0, any non-zero byte reads as true); a string is one length byte
//! followed by at most 255 bytes of its UTF-8 encoding.
use vstd::prelude::*;
use vstd::utf8::*;
use vstd::slice::{slice_subrange, slice_to_vec};

verus! {

broadcast use {encode_utf8_decode_utf8, encode_utf8_valid_utf8};

/// The kind of field whose read ran past the end of the buffer.
#[derive(Debug, Clone, Copy, PartialEq, Eq, Structural)]
pub enum Field {
    U8,
    U16,
    U32,
    I32,
    Str,
    /// The payload of a length-prefixed frame.
    Payload,
}

/// Why bytes could not be decoded.
#[derive(Debug, Clone, Copy, PartialEq, Eq, Structural)]
pub enum DecodeError {
    /// The buffer ended inside a field of the given kind.
    UnexpectedEof(Field),
    /// A string field is not valid UTF-8.
    InvalidUtf8,
    /// The message names a protocol version other than ours.
    UnsupportedVersion(u8),
    InvalidGameState,
    InvalidDirection,
    InvalidFlagStatus,
    InvalidJoinRejectReason,
    InvalidGameOverReason,
    InvalidErrorCode,
    /// The first byte names no message type.
    UnknownMessageType(u8),
}

// ---------------------------------------------------------------------------
// Encodings
// ---------------------------------------------------------------------------

/// Big-endian bytes of a 16-bit integer.
pub open spec fn be_u16(v: u16) -> Seq<u8> {
    seq![(v / 256) as u8, (v % 256) as u8]
}

/// Big-endian bytes of a 32-bit integer.
pub open spec fn be_u32(v: u32) -> Seq<u8> {
    seq![(v / 0x1000000) as u8, ((v / 0x10000) % 256) as u8, ((v / 256) % 256) as u8, (v % 256) as u8]
}

/// Big-endian bytes of a signed 32-bit integer (two's complement).
pub open spec fn be_i32(v: i32) -> Seq<u8> {
    be_u32(v as u32)
}

/// The byte that encodes a boolean.
pub open spec fn bool_byte(b: bool) -> u8 {
    if b { 1 } else { 0 }
}

/// Number of UTF-8 bytes of a string that a string field keeps.
pub open spec fn str_kept_len(s: Seq<char>) -> nat {
    let n = encode_utf8(s).len();
    if n < 255 { n } else { 255 }
}

/// A string field: the kept length, then that many bytes of the UTF-8
/// encoding.
pub open spec fn str_field(s: Seq<char>) -> Seq<u8> {
    seq![str_kept_len(s) as u8] + encode_utf8(s).take(str_kept_len(s) as int)
}

// ---------------------------------------------------------------------------
// Decodings: each takes a buffer and a position, and gives the value and the
// position after it.
// ---------------------------------------------------------------------------

/// The 16-bit integer whose big-endian bytes are `b0, b1`.
pub open spec fn u16_of(b0: u8, b1: u8) -> u16 {
    (b0 as int * 256 + b1 as int) as u16
}

/// The 32-bit integer whose big-endian bytes are `b0 .. b3`.
pub open spec fn u32_of(b0: u8, b1: u8, b2: u8, b3: u8) -> u32 {
    (b0 as int * 0x1000000 + b1 as int * 0x10000 + b2 as int * 256 + b3 as int) as u32
}

pub open spec fn take_u8(b: Seq<u8>, pos: int) -> Result<(u8, int), DecodeError> {
    if pos + 1 <= b.len() {
        Ok((b[pos], pos + 1))
    } else {
        Err(DecodeError::UnexpectedEof(Field::U8))
    }
}

pub open spec fn take_u16(b: Seq<u8>, pos: int) -> Result<(u16, int), DecodeError> {
    if pos + 2 <= b.len() {
        Ok((u16_of(b[pos], b[pos + 1]), pos + 2))
    } else {
        Err(DecodeError::UnexpectedEof(Field::U16))
    }
}

pub open spec fn take_u32(b: Seq<u8>, pos: int) -> Result<(u32, int), DecodeError> {
    if pos + 4 <= b.len() {
        Ok((u32_of(b[pos], b[pos + 1], b[pos + 2], b[pos + 3]), pos + 4))
    } else {
        Err(DecodeError::UnexpectedEof(Field::U32))
    }
}

pub open spec fn take_i32(b: Seq<u8>, pos: int) -> Result<(i32, int), DecodeError> {
    if pos + 4 <= b.len() {
        Ok((u32_of(b[pos], b[pos + 1], b[pos + 2], b[pos + 3]) as i32, pos + 4))
    } else {
        Err(DecodeError::UnexpectedEof(Field::I32))
    }
}

pub open spec fn take_bool(b: Seq<u8>, pos: int) -> Result<(bool, int), DecodeError> {
    match take_u8(b, pos) {
        Ok((v, p)) => Ok((v != 0, p)),
        Err(e) => Err(e),
    }
}

pub open spec fn take_str(b: Seq<u8>, pos: int) -> Result<(Seq<char>, int), DecodeError> {
    match take_u8(b, pos) {
        Ok((n, p)) => {
            if p + n > b.len() {
                Err(DecodeError::UnexpectedEof(Field::Str))
            } else if valid_utf8(b.subrange(p, p + n)) {
                Ok((decode_utf8(b.subrange(p, p + n)), p + n))
            } else {
                Err(DecodeError::InvalidUtf8)
            }
        },
        Err(e) => Err(e),
    }
}

/// Where a failed string read leaves the reader: past the length byte if
/// that byte was there, and past the string bytes too if they were there but
/// were not UTF-8.
pub open spec fn str_error_pos(b: Seq<u8>, pos: int) -> int {
    match take_u8(b, pos) {
        Ok((n, p)) => if p + n > b.len() { p } else { p + n },
        Err(_) => pos,
    }
}


// ---------------------------------------------------------------------------
// Reading back what was written
// ---------------------------------------------------------------------------

/// A string field holds the whole string when its encoding has at most 255
/// bytes.
pub open spec fn str_fits(s: Seq<char>) -> bool {
    encode_utf8(s).len() <= 255
}

pub proof fn lemma_take_u8(b: Seq<u8>, p: int, v: u8)
    requires
        0 <= p,
        p + 1 <= b.len(),
        b.subrange(p, p + 1) == seq![v],
    ensures
        take_u8(b, p) == Ok::<(u8, int), DecodeError>((v, p + 1)),
{
    assert(b[p] == b.subrange(p, p + 1)[0]);
}

pub proof fn lemma_take_bool(b: Seq<u8>, p: int, v: bool)
    requires
        0 <= p,
        p + 1 <= b.len(),
        b.subrange(p, p + 1) == seq![bool_byte(v)],
    ensures
        take_bool(b, p) == Ok::<(bool, int), DecodeError>((v, p + 1)),
{
    lemma_take_u8(b, p, bool_byte(v));
}

pub proof fn lemma_take_u16(b: Seq<u8>, p: int, v: u16)
    requires
        0 <= p,
        p + 2 <= b.len(),
        b.subrange(p, p + 2) == be_u16(v),
    ensures
        take_u16(b, p) == Ok::<(u16, int), DecodeError>((v, p + 2)),
{
    assert(b[p] == b.subrange(p, p + 2)[0]);
    assert(b[p + 1] == b.subrange(p, p + 2)[1]);
}

proof fn lemma_u32_bytes(v: u32)
    ensures
        u32_of((v / 0x1000000) as u8, ((v / 0x10000) % 256) as u8, ((v / 256) % 256) as u8, (v % 256) as u8) == v,
{
    let b0 = v / 0x1000000;
    let b1 = (v / 0x10000) % 256;
    let b2 = (v / 256) % 256;
    let b3 = v % 256;
    assert(b0 * 0x1000000 + b1 * 0x10000 + b2 * 256 + b3 == v) by (nonlinear_arith)
        requires
            b0 == v / 0x1000000,
            b1 == (v / 0x10000) % 256,
            b2 == (v / 256) % 256,
            b3 == v % 256,
    ;
}

pub proof fn lemma_take_u32(b: Seq<u8>, p: int, v: u32)
    requires
        0 <= p,
        p + 4 <= b.len(),
        b.subrange(p, p + 4) == be_u32(v),
    ensures
        take_u32(b, p) == Ok::<(u32, int), DecodeError>((v, p + 4)),
{
    assert(b[p] == b.subrange(p, p + 4)[0]);
    assert(b[p + 1] == b.subrange(p, p + 4)[1]);
    assert(b[p + 2] == b.subrange(p, p + 4)[2]);
    assert(b[p + 3] == b.subrange(p, p + 4)[3]);
    lemma_u32_bytes(v);
}

pub proof fn lemma_take_i32(b: Seq<u8>, p: int, v: i32)
    requires
        0 <= p,
        p + 4 <= b.len(),
        b.subrange(p, p + 4) == be_i32(v),
    ensures
        take_i32(b, p) == Ok::<(i32, int), DecodeError>((v, p + 4)),
{
    assert(b[p] == b.subrange(p, p + 4)[0]);
    assert(b[p + 1] == b.subrange(p, p + 4)[1]);
    assert(b[p + 2] == b.subrange(p, p + 4)[2]);
    assert(b[p + 3] == b.subrange(p, p + 4)[3]);
    lemma_u32_bytes(v as u32);
    assert((v as u32) as i32 == v) by (bit_vector);
}

pub proof fn lemma_take_str(b: Seq<u8>, p: int, s: Seq<char>)
    requires
        str_fits(s),
        0 <= p,
        p + str_field(s).len() <= b.len(),
        b.subrange(p, p + str_field(s).len()) == str_field(s),
    ensures
        str_field(s).len() == 1 + encode_utf8(s).len(),
        take_str(b, p) == Ok::<(Seq<char>, int), DecodeError>((s, p + str_field(s).len())),
{
    let e = encode_utf8(s);
    let f = str_field(s);
    assert(e.take(e.len() as int) =~= e);
    assert(f.len() == 1 + e.len());
    assert(b[p] == f[0]);
    assert(b.subrange(p + 1, p + 1 + e.len()) =~= f.subrange(1, 1 + e.len() as int));
    assert(f.subrange(1, 1 + e.len() as int) =~= e);
}

// ---------------------------------------------------------------------------
// Trusted call into std
// ---------------------------------------------------------------------------

/// Calls `String::from_utf8`, which std documents to succeed exactly when the
/// bytes are valid UTF-8, giving a string whose bytes are the input.
#[verifier::external_body]
pub(crate) fn string_from_utf8(bytes: Vec<u8>) -> (r: Option<String>)
    ensures
        r is Some <==> valid_utf8(bytes@),
        r matches Some(s) ==> encode_utf8(s@) == bytes@,
{
    String::from_utf8(bytes).ok()
}

// ---------------------------------------------------------------------------
// Writer
// ---------------------------------------------------------------------------

/// Growing buffer of encoded fields.
pub struct ByteWriter {
    buf: Vec<u8>,
}

impl View for ByteWriter {
    type V = Seq<u8>;

    closed spec fn view(&self) -> Seq<u8> {
        self.buf@
    }
}

impl ByteWriter {
    /// An empty writer.
    pub fn new() -> (w: Self)
        ensures
            w@ == Seq::<u8>::empty(),
    {
        ByteWriter { buf: Vec::new() }
    }

    /// Appends one byte.
    pub fn write_u8(&mut self, val: u8)
        ensures
            final(self)@ == old(self)@.push(val),
            final(self)@ == old(self)@ + seq![val],
    {
        self.buf.push(val);
        assert(self.buf@ =~= old(self)@ + seq![val]);
    }

    /// Appends a 16-bit integer, big-endian.
    pub fn write_u16(&mut self, val: u16)
        ensures
            final(self)@ == old(self)@ + be_u16(val),
    {
        self.buf.push((val / 256) as u8);
        self.buf.push((val % 256) as u8);
        assert(self.buf@ =~= old(self)@ + be_u16(val));
    }

    /// Appends a 32-bit integer, big-endian.
    pub fn write_u32(&mut self, val: u32)
        ensures
            final(self)@ == old(self)@ + be_u32(val),
    {
        self.buf.push((val / 0x1000000) as u8);
        self.buf.push(((val / 0x10000) % 256) as u8);
        self.buf.push(((val / 256) % 256) as u8);
        self.buf.push((val % 256) as u8);
        assert(self.buf@ =~= old(self)@ + be_u32(val));
    }

    /// Appends a signed 32-bit integer, big-endian two's complement.
    pub fn write_i32(&mut self, val: i32)
        ensures
            final(self)@ == old(self)@ + be_i32(val),
    {
        self.write_u32(val as u32);
    }

    /// Appends a boolean as one byte, 1 or 0.
    pub fn write_bool(&mut self, val: bool)
        ensures
            final(self)@ == old(self)@.push(bool_byte(val)),
            final(self)@ == old(self)@ + seq![bool_byte(val)],
    {
        self.buf.push(if val { 1 } else { 0 });
        assert(self.buf@ =~= old(self)@ + seq![bool_byte(val)]);
    }

    /// Appends a string field: its length (at most 255) and then that many
    /// bytes of its UTF-8 encoding. Longer strings are cut to 255 bytes.
    pub fn write_str(&mut self, val: &str)
        ensures
            final(self)@ == old(self)@ + str_field(val@),
    {
        let bytes = val.as_bytes();
        let len: usize = if bytes.len() < 255 { bytes.len() } else { 255 };
        self.buf.push(len as u8);
        let ghost start = self.buf@;
        let mut i: usize = 0;
        while i < len
            invariant
                len <= bytes@.len(),
                len == str_kept_len(val@),
                bytes@ == encode_utf8(val@),
                i <= len,
                start == old(self)@.push(len as u8),
                self.buf@ == start + bytes@.take(i as int),
            decreases len - i,
        {
            self.buf.push(bytes[i]);
            i = i + 1;
            assert(self.buf@ =~= start + bytes@.take(i as int));
        }
        assert(self.buf@ =~= old(self)@ + str_field(val@));
    }

    /// The bytes written so far.
    pub fn into_bytes(self) -> (r: Vec<u8>)
        ensures
            r@ == self@,
    {
        self.buf
    }
}

// ---------------------------------------------------------------------------
// Reader
// ---------------------------------------------------------------------------

/// Cursor over a byte buffer.
pub struct ByteReader<'a> {
    buf: &'a [u8],
    pos: usize,
}

impl<'a> ByteReader<'a> {
    #[verifier::type_invariant]
    spec fn inv(self) -> bool {
        self.pos <= self.buf@.len()
    }

    /// The bytes being read.
    pub closed spec fn data(&self) -> Seq<u8> {
        self.buf@
    }

    /// The position of the next byte to read.
    pub closed spec fn position(&self) -> int {
        self.pos as int
    }

    /// A reader at the start of `buf`.
    pub fn new(buf: &'a [u8]) -> (r: Self)
        ensures
            r.data() == buf@,
            r.position() == 0,
    {
        ByteReader { buf, pos: 0 }
    }

    /// Reads one byte.
    pub fn read_u8(&mut self) -> (r: Result<u8, DecodeError>)
        ensures
            final(self).data() == old(self).data(),
            match r {
                Ok(v) => take_u8(old(self).data(), old(self).position()) == Ok::<(u8, int), DecodeError>((v, final(self).position())),
                Err(e) => take_u8(old(self).data(), old(self).position()) == Err::<(u8, int), DecodeError>(e)
                    && final(self).position() == old(self).position(),
            },
    {
        proof { use_type_invariant(&*self); }
        if self.buf.len() - self.pos < 1 {
            return Err(DecodeError::UnexpectedEof(Field::U8));
        }
        let val = self.buf[self.pos];
        self.pos = self.pos + 1;
        Ok(val)
    }

    /// Reads a big-endian 16-bit integer.
    pub fn read_u16(&mut self) -> (r: Result<u16, DecodeError>)
        ensures
            final(self).data() == old(self).data(),
            match r {
                Ok(v) => take_u16(old(self).data(), old(self).position()) == Ok::<(u16, int), DecodeError>((v, final(self).position())),
                Err(e) => take_u16(old(self).data(), old(self).position()) == Err::<(u16, int), DecodeError>(e)
                    && final(self).position() == old(self).position(),
            },
    {
        proof { use_type_invariant(&*self); }
        if self.buf.len() - self.pos < 2 {
            return Err(DecodeError::UnexpectedEof(Field::U16));
        }
        let v = (self.buf[self.pos] as u16) * 256 + (self.buf[self.pos + 1] as u16);
        self.pos = self.pos + 2;
        Ok(v)
    }

    /// Reads a big-endian 32-bit integer.
    pub fn read_u32(&mut self) -> (r: Result<u32, DecodeError>)
        ensures
            final(self).data() == old(self).data(),
            match r {
                Ok(v) => take_u32(old(self).data(), old(self).position()) == Ok::<(u32, int), DecodeError>((v, final(self).position())),
                Err(e) => take_u32(old(self).data(), old(self).position()) == Err::<(u32, int), DecodeError>(e)
                    && final(self).position() == old(self).position(),
            },
    {
        proof { use_type_invariant(&*self); }
        if self.buf.len() - self.pos < 4 {
            return Err(DecodeError::UnexpectedEof(Field::U32));
        }
        let v = (self.buf[self.pos] as u32) * 0x1000000 + (self.buf[self.pos + 1] as u32) * 0x10000
            + (self.buf[self.pos + 2] as u32) * 256 + (self.buf[self.pos + 3] as u32);
        self.pos = self.pos + 4;
        Ok(v)
    }

    /// Reads a big-endian two's complement 32-bit integer.
    pub fn read_i32(&mut self) -> (r: Result<i32, DecodeError>)
        ensures
            final(self).data() == old(self).data(),
            match r {
                Ok(v) => take_i32(old(self).data(), old(self).position()) == Ok::<(i32, int), DecodeError>((v, final(self).position())),
                Err(e) => take_i32(old(self).data(), old(self).position()) == Err::<(i32, int), DecodeError>(e)
                    && final(self).position() == old(self).position(),
            },
    {
        proof { use_type_invariant(&*self); }
        if self.buf.len() - self.pos < 4 {
            return Err(DecodeError::UnexpectedEof(Field::I32));
        }
        let v = (self.buf[self.pos] as u32) * 0x1000000 + (self.buf[self.pos + 1] as u32) * 0x10000
            + (self.buf[self.pos + 2] as u32) * 256 + (self.buf[self.pos + 3] as u32);
        self.pos = self.pos + 4;
        Ok(v as i32)
    }

    /// Reads a boolean: any non-zero byte is true.
    pub fn read_bool(&mut self) -> (r: Result<bool, DecodeError>)
        ensures
            final(self).data() == old(self).data(),
            match r {
                Ok(v) => take_bool(old(self).data(), old(self).position()) == Ok::<(bool, int), DecodeError>((v, final(self).position())),
                Err(e) => take_bool(old(self).data(), old(self).position()) == Err::<(bool, int), DecodeError>(e)
                    && final(self).position() == old(self).position(),
            },
    {
        let val = self.read_u8()?;
        Ok(val != 0)
    }

    /// Reads a string field: a length byte, then that many bytes, which must
    /// be valid UTF-8.
    pub fn read_str(&mut self) -> (r: Result<String, DecodeError>)
        ensures
            final(self).data() == old(self).data(),
            match r {
                Ok(s) => take_str(old(self).data(), old(self).position()) == Ok::<(Seq<char>, int), DecodeError>((s@, final(self).position())),
                Err(e) => take_str(old(self).data(), old(self).position()) == Err::<(Seq<char>, int), DecodeError>(e)
                    && final(self).position() == str_error_pos(old(self).data(), old(self).position()),
            },
    {
        let n = self.read_u8()?;
        let len = n as usize;
        proof { use_type_invariant(&*self); }
        if self.buf.len() - self.pos < len {
            return Err(DecodeError::UnexpectedEof(Field::Str));
        }
        let end = self.pos + len;
        let bytes = slice_to_vec(slice_subrange(self.buf, self.pos, end));
        self.pos = end;
        match string_from_utf8(bytes) {
            Some(s) => Ok(s),
            None => Err(DecodeError::InvalidUtf8),
        }
    }
}

} // verus!
