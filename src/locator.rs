//! Finds the inner header, the footer at the end of the payload, and the two
//! sections that the footer's offset table points at.
use vstd::prelude::*;

use crate::cursor::{bytes_eq, i32_at, tag_at, Reader, SeekFrom};
use crate::error::DecodeError;
use crate::tags::{
    footer_magic, footer_magic_bytes, index_tag, index_tag_bytes, inner_magic, inner_magic_bytes,
    names_tag, names_tag_bytes,
};

verus! {

/// The three type codes after the inner magic (the magic itself is fixed).
#[derive(Debug, Clone, Copy, PartialEq, Eq, Structural)]
pub struct InnerHeader {
    pub type_code1: i32,
    pub type_code2: i32,
    pub type_code3: i32,
}

/// The offset stored in the footer, six bytes before the end of the payload.
#[derive(Debug, Clone, Copy, PartialEq, Eq, Structural)]
pub struct InnerFooter {
    pub var_table_offset: i32,
}

/// Where the structures of a payload are, once each has been checked.
#[derive(Debug, Clone, Copy, PartialEq, Eq, Structural)]
pub struct SaveLayout {
    pub header: InnerHeader,
    pub footer: InnerFooter,
    /// Absolute offset of the string section, at its `"NM"` tag.
    pub string_section: i32,
    /// Absolute offset of the index section, at its `"RB"` tag.
    pub index_section: i32,
}

/// Reads `expected.len()` bytes and checks that they are `expected`; a
/// mismatch is reported as `mismatch`.
pub fn expect_tag(rd: &mut Reader, expected: &[u8], mismatch: DecodeError) -> (r: Result<
    (),
    DecodeError,
>)
    requires
        old(rd).wf(),
    ensures
        final(rd).wf(),
        final(rd).data@ == old(rd).data@,
        ({
            let d = old(rd).data@;
            let p = old(rd).pos as int;
            let n = expected@.len() as int;
            match r {
                Ok(_) => p + n <= d.len() && d.subrange(p, p + n) == expected@ && final(rd).pos
                    == p + n,
                Err(e) => if p + n > d.len() {
                    e == DecodeError::Truncated
                } else {
                    d.subrange(p, p + n) != expected@ && e == mismatch
                },
            }
        }),
{
    let found = rd.read_bytes(expected.len())?;
    if bytes_eq(found.as_slice(), expected) {
        Ok(())
    } else {
        Err(mismatch)
    }
}

/// What locating the structures of payload `d` yields, with the inner header
/// at `header_size`: every offset checked, every tag checked, in this order.
pub open spec fn layout_spec(d: Seq<u8>, header_size: i32) -> Result<SaveLayout, DecodeError> {
    let h = header_size as int;
    if h < 0 || h > d.len() {
        Err(DecodeError::OutOfRange)
    } else if h + 16 > d.len() {
        Err(DecodeError::Truncated)
    } else if d.subrange(h, h + 4) != inner_magic() {
        Err(DecodeError::BadInnerMagic)
    } else if d.len() < 6 {
        Err(DecodeError::OutOfRange)
    } else if !tag_at(d, d.len() - 2, footer_magic()) {
        Err(DecodeError::BadFooterMagic)
    } else {
        let header = InnerHeader {
            type_code1: i32_at(d, h + 4),
            type_code2: i32_at(d, h + 8),
            type_code3: i32_at(d, h + 12),
        };
        let footer = InnerFooter { var_table_offset: i32_at(d, d.len() - 6) };
        let t = footer.var_table_offset - 10;
        if t < 0 || t > d.len() {
            Err(DecodeError::OutOfRange)
        } else if t + 8 > d.len() {
            Err(DecodeError::Truncated)
        } else {
            let nm = i32_at(d, t);
            let rb = i32_at(d, t + 4);
            if nm < 0 || nm > d.len() {
                Err(DecodeError::OutOfRange)
            } else if nm + 2 > d.len() {
                Err(DecodeError::Truncated)
            } else if !tag_at(d, nm as int, names_tag()) {
                Err(DecodeError::BadSectionMagic)
            } else if rb < 0 || rb > d.len() {
                Err(DecodeError::OutOfRange)
            } else if rb + 2 > d.len() {
                Err(DecodeError::Truncated)
            } else if !tag_at(d, rb as int, index_tag()) {
                Err(DecodeError::BadSectionMagic)
            } else {
                Ok(SaveLayout { header, footer, string_section: nm, index_section: rb })
            }
        }
    }
}

/// Seeks to an absolute offset held in an `i32`; a negative one is out of range.
fn seek_to(rd: &mut Reader, offset: i32) -> (r: Result<(), DecodeError>)
    requires
        old(rd).wf(),
    ensures
        final(rd).wf(),
        final(rd).data@ == old(rd).data@,
        match r {
            Ok(_) => 0 <= offset <= old(rd).data@.len() && final(rd).pos == offset,
            Err(e) => e == DecodeError::OutOfRange && !(0 <= offset <= old(rd).data@.len()),
        },
{
    if offset < 0 {
        return Err(DecodeError::OutOfRange);
    }
    rd.seek(SeekFrom::Start(offset as u64))?;
    Ok(())
}

/// Checks the inner header at `header_size`, the footer at the end, the
/// offset table that the footer points at, and the tags of the two sections
/// that table names.
pub fn locate(rd: &mut Reader, header_size: i32) -> (r: Result<SaveLayout, DecodeError>)
    requires
        old(rd).wf(),
    ensures
        final(rd).wf(),
        final(rd).data@ == old(rd).data@,
        match r {
            Ok(l) => layout_spec(old(rd).data@, header_size) == Ok::<SaveLayout, DecodeError>(l),
            Err(e) => layout_spec(old(rd).data@, header_size) == Err::<SaveLayout, DecodeError>(e),
        },
{
    let ghost d = rd.data@;
    seek_to(rd, header_size)?;
    let magic = rd.read_bytes(4)?;
    let type_code1 = rd.read::<i32>()?;
    let type_code2 = rd.read::<i32>()?;
    let type_code3 = rd.read::<i32>()?;
    let expected = inner_magic_bytes();
    if !bytes_eq(magic.as_slice(), expected.as_slice()) {
        return Err(DecodeError::BadInnerMagic);
    }
    let header = InnerHeader { type_code1, type_code2, type_code3 };

    rd.seek(SeekFrom::End(-6))?;
    let var_table_offset = rd.read::<i32>()?;
    expect_tag(rd, footer_magic_bytes().as_slice(), DecodeError::BadFooterMagic)?;
    let footer = InnerFooter { var_table_offset };

    let table = var_table_offset as i64 - 10;
    if table < 0 {
        return Err(DecodeError::OutOfRange);
    }
    rd.seek(SeekFrom::Start(table as u64))?;
    let string_section = rd.read::<i32>()?;
    let index_section = rd.read::<i32>()?;

    seek_to(rd, string_section)?;
    expect_tag(rd, names_tag_bytes().as_slice(), DecodeError::BadSectionMagic)?;
    seek_to(rd, index_section)?;
    expect_tag(rd, index_tag_bytes().as_slice(), DecodeError::BadSectionMagic)?;
    Ok(SaveLayout { header, footer, string_section, index_section })
}

} // verus!
