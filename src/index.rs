//! The main variable index: a count, then one `{size, offset}` pair per
//! top-level variable.
use vstd::prelude::*;

use crate::cursor::{count_of, i16_at, i32_at, Reader, SeekFrom};
use crate::error::DecodeError;

verus! {

/// One entry of the variable index.
#[derive(Debug, Clone, Copy, PartialEq, Eq, Structural)]
pub struct VarIndex {
    /// Stored in two bytes, widened.
    pub size: i32,
    /// Absolute offset of the variable's record in the payload.
    pub offset: i32,
}

/// The index entry stored at `p` in `d`.
pub open spec fn var_index_at(d: Seq<u8>, p: int) -> VarIndex {
    VarIndex { size: i16_at(d, p) as i32, offset: i32_at(d, p + 2) }
}

/// What reading the variable index that starts at `p` in `d` yields: the
/// `k`-th entry is the `k`-th six-byte pair after the count, in file order.
pub open spec fn index_spec(d: Seq<u8>, p: int) -> Result<Seq<VarIndex>, DecodeError> {
    if p < 0 || p > d.len() {
        Err(DecodeError::OutOfRange)
    } else if p + 4 > d.len() {
        Err(DecodeError::Truncated)
    } else {
        let n = count_of(i32_at(d, p));
        if p + 4 + 6 * n > d.len() {
            Err(DecodeError::Truncated)
        } else {
            Ok(Seq::new(n, |k: int| var_index_at(d, p + 4 + 6 * k)))
        }
    }
}

/// Reads the variable index of the section whose `"RB"` tag is at
/// `index_section`; the count follows the tag.
pub fn read_variable_index(rd: &mut Reader, index_section: i32) -> (r: Result<
    Vec<VarIndex>,
    DecodeError,
>)
    requires
        old(rd).wf(),
    ensures
        final(rd).wf(),
        final(rd).data@ == old(rd).data@,
        match r {
            Ok(v) => index_spec(old(rd).data@, index_section + 2) == Ok::<
                Seq<VarIndex>,
                DecodeError,
            >(v@),
            Err(e) => index_spec(old(rd).data@, index_section + 2) == Err::<
                Seq<VarIndex>,
                DecodeError,
            >(e),
        },
{
    let ghost d = rd.data@;
    let start = index_section as i64 + 2;
    if start < 0 {
        return Err(DecodeError::OutOfRange);
    }
    rd.seek(SeekFrom::Start(start as u64))?;
    let count = rd.read::<i32>()?;
    let ghost base = rd.pos as int;
    let mut out: Vec<VarIndex> = Vec::new();
    let mut k: i32 = 0;
    while k < count
        invariant
            rd.wf(),
            rd.data@ == d,
            d == old(rd).data@,
            base == start + 4,
            start == index_section + 2,
            0 <= start,
            0 <= k,
            count < 0 ==> k == 0,
            count >= 0 ==> k <= count,
            rd.pos == base + 6 * k,
            count == i32_at(d, start as int),
            out@ == Seq::new(k as nat, |j: int| var_index_at(d, base + 6 * j)),
        decreases count - k,
    {
        let size = rd.read::<i16>()? as i32;
        let offset = rd.read::<i32>()?;
        out.push(VarIndex { size, offset });
        k = k + 1;
        assert(out@ =~= Seq::new(k as nat, |j: int| var_index_at(d, base + 6 * j)));
    }
    assert(out@ =~= Seq::new(count_of(count), |j: int| var_index_at(d, base + 6 * j)));
    Ok(out)
}

} // verus!
