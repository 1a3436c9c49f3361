//! A position-tracked reader over an in-memory byte buffer.
use vstd::prelude::*;

use crate::error::DecodeError;

verus! {

/// A type that is read as a fixed number of little-endian bytes.
pub trait FixedWidth: Sized {
    /// How many bytes a value takes on the wire.
    spec fn width() -> nat;

    /// The value that the bytes `b` (exactly `width()` of them) encode.
    spec fn from_le(b: Seq<u8>) -> Self;

    /// `width()`, at run time.
    fn byte_width() -> (r: usize)
        ensures
            r as nat == Self::width(),
            r <= 8,
    ;

    /// Decodes a value from exactly `width()` bytes.
    fn decode_le(b: &[u8]) -> (r: Self)
        requires
            b@.len() == Self::width(),
        ensures
            r == Self::from_le(b@),
    ;
}

impl FixedWidth for u8 {
    open spec fn width() -> nat {
        1
    }

    open spec fn from_le(b: Seq<u8>) -> u8 {
        b[0]
    }

    fn byte_width() -> (r: usize) {
        1
    }

    fn decode_le(b: &[u8]) -> (r: u8) {
        b[0]
    }
}

impl FixedWidth for u16 {
    open spec fn width() -> nat {
        2
    }

    open spec fn from_le(b: Seq<u8>) -> u16 {
        (b[0] as int + 256 * b[1] as int) as u16
    }

    fn byte_width() -> (r: usize) {
        2
    }

    fn decode_le(b: &[u8]) -> (r: u16) {
        b[0] as u16 + 256 * (b[1] as u16)
    }
}

impl FixedWidth for i16 {
    open spec fn width() -> nat {
        2
    }

    open spec fn from_le(b: Seq<u8>) -> i16 {
        let u = b[0] as int + 256 * b[1] as int;
        if u < 0x8000 {
            u as i16
        } else {
            (u - 0x1_0000) as i16
        }
    }

    fn byte_width() -> (r: usize) {
        2
    }

    fn decode_le(b: &[u8]) -> (r: i16) {
        let u: i32 = b[0] as i32 + 256 * (b[1] as i32);
        if u < 0x8000 {
            u as i16
        } else {
            (u - 0x1_0000) as i16
        }
    }
}

impl FixedWidth for u32 {
    open spec fn width() -> nat {
        4
    }

    open spec fn from_le(b: Seq<u8>) -> u32 {
        (b[0] as int + 0x100 * b[1] as int + 0x1_0000 * b[2] as int + 0x100_0000 * b[3] as int) as u32
    }

    fn byte_width() -> (r: usize) {
        4
    }

    fn decode_le(b: &[u8]) -> (r: u32) {
        b[0] as u32 + 0x100 * (b[1] as u32) + 0x1_0000 * (b[2] as u32) + 0x100_0000 * (b[3] as u32)
    }
}

impl FixedWidth for i32 {
    open spec fn width() -> nat {
        4
    }

    open spec fn from_le(b: Seq<u8>) -> i32 {
        let u = b[0] as int + 0x100 * b[1] as int + 0x1_0000 * b[2] as int + 0x100_0000 * b[3] as int;
        if u < 0x8000_0000 {
            u as i32
        } else {
            (u - 0x1_0000_0000) as i32
        }
    }

    fn byte_width() -> (r: usize) {
        4
    }

    fn decode_le(b: &[u8]) -> (r: i32) {
        let u: i64 = b[0] as i64 + 0x100 * (b[1] as i64) + 0x1_0000 * (b[2] as i64) + 0x100_0000 * (
        b[3] as i64);
        if u < 0x8000_0000 {
            u as i32
        } else {
            (u - 0x1_0000_0000) as i32
        }
    }
}

impl FixedWidth for i64 {
    open spec fn width() -> nat {
        8
    }

    open spec fn from_le(b: Seq<u8>) -> i64 {
        let u = b[0] as int + 0x100 * b[1] as int + 0x1_0000 * b[2] as int + 0x100_0000 * b[3] as int
            + 0x1_0000_0000 * b[4] as int + 0x100_0000_0000 * b[5] as int + 0x1_0000_0000_0000
            * b[6] as int + 0x100_0000_0000_0000 * b[7] as int;
        if u < 0x8000_0000_0000_0000 {
            u as i64
        } else {
            (u - 0x1_0000_0000_0000_0000) as i64
        }
    }

    fn byte_width() -> (r: usize) {
        8
    }

    fn decode_le(b: &[u8]) -> (r: i64) {
        let u: i128 = b[0] as i128 + 0x100 * (b[1] as i128) + 0x1_0000 * (b[2] as i128) + 0x100_0000
            * (b[3] as i128) + 0x1_0000_0000 * (b[4] as i128) + 0x100_0000_0000 * (b[5] as i128)
            + 0x1_0000_0000_0000 * (b[6] as i128) + 0x100_0000_0000_0000 * (b[7] as i128);
        if u < 0x8000_0000_0000_0000 {
            u as i64
        } else {
            (u - 0x1_0000_0000_0000_0000) as i64
        }
    }
}

impl FixedWidth for u64 {
    open spec fn width() -> nat {
        8
    }

    open spec fn from_le(b: Seq<u8>) -> u64 {
        (b[0] as int + 0x100 * b[1] as int + 0x1_0000 * b[2] as int + 0x100_0000 * b[3] as int
            + 0x1_0000_0000 * b[4] as int + 0x100_0000_0000 * b[5] as int + 0x1_0000_0000_0000
            * b[6] as int + 0x100_0000_0000_0000 * b[7] as int) as u64
    }

    fn byte_width() -> (r: usize) {
        8
    }

    fn decode_le(b: &[u8]) -> (r: u64) {
        b[0] as u64 + 0x100 * (b[1] as u64) + 0x1_0000 * (b[2] as u64) + 0x100_0000 * (b[3] as u64)
            + 0x1_0000_0000 * (b[4] as u64) + 0x100_0000_0000 * (b[5] as u64) + 0x1_0000_0000_0000
            * (b[6] as u64) + 0x100_0000_0000_0000 * (b[7] as u64)
    }
}

/// Where a seek is measured from.
#[derive(Debug, Clone, Copy, PartialEq, Eq, Structural)]
pub enum SeekFrom {
    /// An absolute position.
    Start(u64),
    /// A signed distance from the end of the buffer.
    End(i64),
    /// A signed distance from the current position.
    Current(i64),
}

/// The position that a seek aims at, in a buffer of `len` bytes read up to `pos`.
pub open spec fn seek_target(len: int, pos: int, from: SeekFrom) -> int {
    match from {
        SeekFrom::Start(n) => n as int,
        SeekFrom::End(d) => len + d,
        SeekFrom::Current(d) => pos + d,
    }
}

/// A seekable cursor over a byte buffer. Its methods keep `pos` within
/// `data` (see `wf`) and never change `data`.
pub struct Reader {
    pub data: Vec<u8>,
    pub pos: usize,
}

impl Reader {
    /// The cursor is within the buffer.
    pub open spec fn wf(&self) -> bool {
        self.pos <= self.data@.len()
    }

    /// A cursor at the start of `data`.
    pub fn new(data: Vec<u8>) -> (r: Reader)
        ensures
            r.data@ == data@,
            r.pos == 0,
            r.wf(),
    {
        Reader { data, pos: 0 }
    }

    /// Reads one value of type `T` from its little-endian bytes and moves past them.
    pub fn read<T: FixedWidth>(&mut self) -> (r: Result<T, DecodeError>)
        requires
            old(self).wf(),
        ensures
            final(self).wf(),
            final(self).data@ == old(self).data@,
            match r {
                Ok(v) => {
                    &&& old(self).pos + T::width() <= old(self).data@.len()
                    &&& v == T::from_le(
                        old(self).data@.subrange(old(self).pos as int, old(self).pos + T::width()),
                    )
                    &&& final(self).pos == old(self).pos + T::width()
                },
                Err(e) => {
                    &&& e == DecodeError::Truncated
                    &&& old(self).pos + T::width() > old(self).data@.len()
                    &&& final(self).pos == old(self).pos
                },
            },
    {
        let w = T::byte_width();
        if w > self.data.len() - self.pos {
            return Err(DecodeError::Truncated);
        }
        let end = self.pos + w;
        let v = T::decode_le(&self.data.as_slice()[self.pos..end]);
        self.pos = end;
        Ok(v)
    }

    /// Reads exactly `count` raw bytes and moves past them.
    pub fn read_bytes(&mut self, count: usize) -> (r: Result<Vec<u8>, DecodeError>)
        requires
            old(self).wf(),
        ensures
            final(self).wf(),
            final(self).data@ == old(self).data@,
            match r {
                Ok(v) => {
                    &&& old(self).pos + count <= old(self).data@.len()
                    &&& v@ == old(self).data@.subrange(old(self).pos as int, old(self).pos + count)
                    &&& final(self).pos == old(self).pos + count
                },
                Err(e) => {
                    &&& e == DecodeError::Truncated
                    &&& old(self).pos + count > old(self).data@.len()
                    &&& final(self).pos == old(self).pos
                },
            },
    {
        if count > self.data.len() - self.pos {
            return Err(DecodeError::Truncated);
        }
        let start = self.pos;
        let end = start + count;
        let mut out: Vec<u8> = Vec::new();
        let mut i: usize = start;
        while i < end
            invariant
                end == start + count,
                end <= self.data@.len(),
                start <= i <= end,
                out@ == self.data@.subrange(start as int, i as int),
            decreases end - i,
        {
            out.push(self.data[i]);
            i = i + 1;
        }
        self.pos = end;
        Ok(out)
    }

    /// Moves the cursor and returns the new position; a target outside
    /// `[0, data.len()]` fails and leaves the cursor where it was.
    pub fn seek(&mut self, from: SeekFrom) -> (r: Result<u64, DecodeError>)
        requires
            old(self).wf(),
        ensures
            final(self).wf(),
            final(self).data@ == old(self).data@,
            ({
                let t = seek_target(old(self).data@.len() as int, old(self).pos as int, from);
                match r {
                    Ok(p) => 0 <= t <= old(self).data@.len() && p == t && final(self).pos == t,
                    Err(e) => {
                        &&& e == DecodeError::OutOfRange
                        &&& !(0 <= t <= old(self).data@.len())
                        &&& final(self).pos == old(self).pos
                    },
                }
            }),
    {
        let len = self.data.len() as i128;
        let target: i128 = match from {
            SeekFrom::Start(n) => n as i128,
            SeekFrom::End(d) => len + d as i128,
            SeekFrom::Current(d) => self.pos as i128 + d as i128,
        };
        if target < 0 || target > len {
            return Err(DecodeError::OutOfRange);
        }
        self.pos = target as usize;
        Ok(target as u64)
    }
}

} // verus!

verus! {

/// The value of type `T` stored at `p` in `d`, or `Truncated` where the
/// bytes run out first.
pub open spec fn fixed_at<T: FixedWidth>(d: Seq<u8>, p: int) -> Result<T, DecodeError> {
    if p + T::width() > d.len() {
        Err(DecodeError::Truncated)
    } else {
        Ok(T::from_le(d.subrange(p, p + T::width())))
    }
}

/// The `u16` stored little-endian at `p` in `d`.
pub open spec fn u16_at(d: Seq<u8>, p: int) -> u16 {
    <u16 as FixedWidth>::from_le(d.subrange(p, p + 2))
}

/// The `i16` stored little-endian at `p` in `d`.
pub open spec fn i16_at(d: Seq<u8>, p: int) -> i16 {
    <i16 as FixedWidth>::from_le(d.subrange(p, p + 2))
}

/// The `i32` stored little-endian at `p` in `d`.
pub open spec fn i32_at(d: Seq<u8>, p: int) -> i32 {
    <i32 as FixedWidth>::from_le(d.subrange(p, p + 4))
}

/// How many entries a stored count announces; a negative count announces none.
pub open spec fn count_of(count: i32) -> nat {
    if count < 0 {
        0
    } else {
        count as nat
    }
}

/// Whether `d` holds the bytes `tag` at `p`.
pub open spec fn tag_at(d: Seq<u8>, p: int, tag: Seq<u8>) -> bool {
    0 <= p && p + tag.len() <= d.len() && d.subrange(p, p + tag.len()) == tag
}

/// Compares two byte strings.
pub fn bytes_eq(a: &[u8], b: &[u8]) -> (r: bool)
    ensures
        r == (a@ == b@),
{
    if a.len() != b.len() {
        return false;
    }
    let mut i: usize = 0;
    while i < a.len()
        invariant
            a@.len() == b@.len(),
            i <= a@.len(),
            a@.subrange(0, i as int) == b@.subrange(0, i as int),
        decreases a@.len() - i,
    {
        if a[i] != b[i] {
            assert(a@.subrange(0, i + 1)[i as int] != b@.subrange(0, i + 1)[i as int]);
            assert(a@ != b@) by {
                assert(a@[i as int] != b@[i as int]);
            }
            return false;
        }
        assert(a@.subrange(0, i + 1) =~= a@.subrange(0, i as int).push(a@[i as int]));
        assert(b@.subrange(0, i + 1) =~= b@.subrange(0, i as int).push(b@[i as int]));
        i = i + 1;
    }
    assert(a@ =~= a@.subrange(0, a@.len() as int));
    assert(b@ =~= b@.subrange(0, b@.len() as int));
    true
}

} // verus!
