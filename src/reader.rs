use vstd::prelude::*;

use crate::chunks::ChunkError;
use crate::ids::ChunkID;

verus! {

/// A byte stream held in memory, with a read position.
pub struct ChunkReader {
    pub buf: Vec<u8>,
    pub pos: usize,
}

impl ChunkReader {
    /// A reader positioned at the first byte of `buf`.
    pub fn new(buf: Vec<u8>) -> (r: ChunkReader)
        ensures
            r.buf@ == buf@,
            r.pos == 0,
    {
        ChunkReader { buf, pos: 0 }
    }

    /// How many bytes remain after the read position.
    pub fn available(&self) -> (n: usize)
        ensures
            n == if self.pos <= self.buf@.len() { self.buf@.len() - self.pos } else { 0 },
    {
        if self.pos <= self.buf.len() {
            self.buf.len() - self.pos
        } else {
            0
        }
    }
}

/// Whether `n` more bytes can be read at the reader's position.
pub open spec fn can_read(r: ChunkReader, n: int) -> bool {
    r.pos + n <= r.buf@.len()
}

/// The reader after a successful read of `n` bytes.
pub open spec fn advanced(before: ChunkReader, after: ChunkReader, n: int) -> bool {
    after.buf@ == before.buf@ && after.pos == before.pos + n
}

/// Big-endian value of the two bytes at `i`.
pub open spec fn be16(b: Seq<u8>, i: int) -> int {
    b[i] as int * 256 + b[i + 1] as int
}

/// Big-endian value of the four bytes at `i`.
pub open spec fn be32(b: Seq<u8>, i: int) -> int {
    be16(b, i) * 65536 + be16(b, i + 2)
}

/// Two's complement reading of an 8-bit pattern.
pub open spec fn signed8(u: int) -> int {
    if u >= 0x80 { u - 0x100 } else { u }
}

/// Two's complement reading of a 16-bit pattern.
pub open spec fn signed16(u: int) -> int {
    if u >= 0x8000 { u - 0x1_0000 } else { u }
}

/// Two's complement reading of a 32-bit pattern.
pub open spec fn signed32(u: int) -> int {
    if u >= 0x8000_0000 { u - 0x1_0000_0000 } else { u }
}

/// The text that a sequence of bytes holds as UTF-8, if it is valid UTF-8.
pub uninterp spec fn utf8_text(b: Seq<u8>) -> Option<Seq<char>>;

/// Relies on `String::from_utf8`: it succeeds exactly on valid UTF-8, which
/// it keeps as the string's characters.
#[verifier::external_body]
pub(crate) fn string_from_utf8(b: Vec<u8>) -> (r: Option<String>)
    ensures
        match r {
            Some(s) => utf8_text(b@) == Some(s@),
            None => utf8_text(b@) is None,
        },
{
    String::from_utf8(b).ok()
}

/// Reads `n` raw bytes.
pub fn read_bytes(r: &mut ChunkReader, n: usize) -> (res: Result<Vec<u8>, ChunkError>)
    ensures
        match res {
            Ok(v) => can_read(*old(r), n as int) && advanced(*old(r), *final(r), n as int)
                && v@ == old(r).buf@.subrange(old(r).pos as int, old(r).pos + n),
            Err(e) => !can_read(*old(r), n as int) && e == ChunkError::TruncatedStream
                && *final(r) == *old(r),
        },
{
    if r.pos > r.buf.len() || n > r.buf.len() - r.pos {
        return Err(ChunkError::TruncatedStream);
    }
    let start = r.pos;
    let end = start + n;
    let mut v: Vec<u8> = Vec::with_capacity(n);
    let mut i: usize = 0;
    while i < n
        invariant
            *r == *old(r),
            start == r.pos,
            end == start + n,
            end <= r.buf@.len(),
            i <= n,
            v@ == r.buf@.subrange(start as int, start + i),
        decreases n - i,
    {
        v.push(r.buf[start + i]);
        i = i + 1;
        assert(v@ =~= r.buf@.subrange(start as int, start + i));
    }
    r.pos = end;
    Ok(v)
}

/// Reads a four-byte chunk tag.
pub fn read_chunk_id(r: &mut ChunkReader) -> (res: Result<ChunkID, ChunkError>)
    ensures
        match res {
            Ok(id) => can_read(*old(r), 4) && advanced(*old(r), *final(r), 4)
                && id@ == old(r).buf@.subrange(old(r).pos as int, old(r).pos + 4),
            Err(e) => !can_read(*old(r), 4) && e == ChunkError::TruncatedStream
                && *final(r) == *old(r),
        },
{
    if r.pos > r.buf.len() || 4 > r.buf.len() - r.pos {
        return Err(ChunkError::TruncatedStream);
    }
    let p = r.pos;
    let id: ChunkID = [r.buf[p], r.buf[p + 1], r.buf[p + 2], r.buf[p + 3]];
    r.pos = p + 4;
    assert(id@ =~= r.buf@.subrange(p as int, p + 4));
    Ok(id)
}

/// Reads one unsigned byte.
pub fn read_u8(r: &mut ChunkReader) -> (res: Result<u8, ChunkError>)
    ensures
        match res {
            Ok(v) => can_read(*old(r), 1) && advanced(*old(r), *final(r), 1)
                && v == old(r).buf@[old(r).pos as int],
            Err(e) => !can_read(*old(r), 1) && e == ChunkError::TruncatedStream
                && *final(r) == *old(r),
        },
{
    if r.pos < r.buf.len() {
        let v = r.buf[r.pos];
        r.pos = r.pos + 1;
        Ok(v)
    } else {
        Err(ChunkError::TruncatedStream)
    }
}

/// Reads a big-endian unsigned 16-bit integer.
pub fn read_u16_be(r: &mut ChunkReader) -> (res: Result<u16, ChunkError>)
    ensures
        match res {
            Ok(v) => can_read(*old(r), 2) && advanced(*old(r), *final(r), 2)
                && v == be16(old(r).buf@, old(r).pos as int),
            Err(e) => !can_read(*old(r), 2) && e == ChunkError::TruncatedStream
                && *final(r) == *old(r),
        },
{
    if r.pos > r.buf.len() || 2 > r.buf.len() - r.pos {
        return Err(ChunkError::TruncatedStream);
    }
    let p = r.pos;
    let v = (r.buf[p] as u16) * 256 + r.buf[p + 1] as u16;
    r.pos = p + 2;
    Ok(v)
}

/// Reads a big-endian unsigned 32-bit integer.
pub fn read_u32_be(r: &mut ChunkReader) -> (res: Result<u32, ChunkError>)
    ensures
        match res {
            Ok(v) => can_read(*old(r), 4) && advanced(*old(r), *final(r), 4)
                && v == be32(old(r).buf@, old(r).pos as int),
            Err(e) => !can_read(*old(r), 4) && e == ChunkError::TruncatedStream
                && *final(r) == *old(r),
        },
{
    if r.pos > r.buf.len() || 4 > r.buf.len() - r.pos {
        return Err(ChunkError::TruncatedStream);
    }
    let p = r.pos;
    let v = (r.buf[p] as u32) * 0x100_0000 + (r.buf[p + 1] as u32) * 0x1_0000
        + (r.buf[p + 2] as u32) * 0x100 + r.buf[p + 3] as u32;
    r.pos = p + 4;
    Ok(v)
}

/// Reads one signed byte.
pub fn read_i8_be(r: &mut ChunkReader) -> (res: Result<i8, ChunkError>)
    ensures
        match res {
            Ok(v) => can_read(*old(r), 1) && advanced(*old(r), *final(r), 1)
                && v == signed8(old(r).buf@[old(r).pos as int] as int),
            Err(e) => !can_read(*old(r), 1) && e == ChunkError::TruncatedStream
                && *final(r) == *old(r),
        },
{
    let u = read_u8(r)?;
    if u >= 0x80 {
        Ok((u as i16 - 0x100) as i8)
    } else {
        Ok(u as i8)
    }
}

/// Reads a big-endian signed 16-bit integer.
pub fn read_i16_be(r: &mut ChunkReader) -> (res: Result<i16, ChunkError>)
    ensures
        match res {
            Ok(v) => can_read(*old(r), 2) && advanced(*old(r), *final(r), 2)
                && v == signed16(be16(old(r).buf@, old(r).pos as int)),
            Err(e) => !can_read(*old(r), 2) && e == ChunkError::TruncatedStream
                && *final(r) == *old(r),
        },
{
    let u = read_u16_be(r)?;
    if u >= 0x8000 {
        Ok((u as i32 - 0x1_0000) as i16)
    } else {
        Ok(u as i16)
    }
}

/// Reads a big-endian signed 32-bit integer.
pub fn read_i32_be(r: &mut ChunkReader) -> (res: Result<i32, ChunkError>)
    ensures
        match res {
            Ok(v) => can_read(*old(r), 4) && advanced(*old(r), *final(r), 4)
                && v == signed32(be32(old(r).buf@, old(r).pos as int)),
            Err(e) => !can_read(*old(r), 4) && e == ChunkError::TruncatedStream
                && *final(r) == *old(r),
        },
{
    let u = read_u32_be(r)?;
    if u >= 0x8000_0000 {
        Ok((u as i64 - 0x1_0000_0000) as i32)
    } else {
        Ok(u as i32)
    }
}

/// Where a length-prefixed string at `p` ends: its length byte, its bytes,
/// and one pad byte when the length is odd.
pub open spec fn pstring_end(b: Seq<u8>, p: int) -> int {
    p + 1 + b[p] as int + (b[p] as int) % 2
}

/// What reading a length-prefixed string at `p` gives.
pub open spec fn pstring_at(b: Seq<u8>, p: int) -> Result<Seq<char>, ChunkError> {
    if p + 1 > b.len() || pstring_end(b, p) > b.len() {
        Err(ChunkError::TruncatedStream)
    } else {
        match utf8_text(b.subrange(p + 1, p + 1 + b[p] as int)) {
            Some(s) => Ok(s),
            None => Err(ChunkError::InvalidEncoding),
        }
    }
}

/// Reads one length byte, that many bytes of UTF-8 text, and a pad byte when
/// the length is odd.
pub fn read_pstring(r: &mut ChunkReader) -> (res: Result<String, ChunkError>)
    ensures
        final(r).buf@ == old(r).buf@,
        match pstring_at(old(r).buf@, old(r).pos as int) {
            Ok(s) => res matches Ok(t) && t@ == s
                && final(r).pos == pstring_end(old(r).buf@, old(r).pos as int),
            Err(e) => res == Err::<String, ChunkError>(e),
        },
{
    let len = read_u8(r)?;
    let bytes = read_bytes(r, len as usize)?;
    if len % 2 == 1 {
        read_u8(r)?;
    }
    match string_from_utf8(bytes) {
        Some(s) => Ok(s),
        None => Err(ChunkError::InvalidEncoding),
    }
}

} // verus!
