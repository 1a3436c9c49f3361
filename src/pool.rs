//! The string pool: interned names that records refer to by index.
use vstd::prelude::*;
use vstd::utf8::{decode_utf8, valid_utf8};

use crate::cursor::{count_of, i32_at, tag_at, Reader, SeekFrom};
use crate::error::DecodeError;
use crate::locator::expect_tag;
use crate::tags::{pool_close_tag, pool_close_tag_bytes, pool_open_tag, pool_open_tag_bytes};

verus! {

#[verifier::external_type_specification]
#[verifier::external_body]
pub struct ExFromUtf8Error(std::string::FromUtf8Error);

/// Relies on String::from_utf8: it succeeds exactly when the bytes are valid
/// UTF-8, and the string then holds the characters that they encode.
#[verifier::external_body]
fn string_from_utf8(bytes: Vec<u8>) -> (r: Result<String, std::string::FromUtf8Error>)
    ensures
        match r {
            Ok(s) => valid_utf8(bytes@) && s@ == decode_utf8(bytes@),
            Err(_) => !valid_utf8(bytes@),
        },
{
    String::from_utf8(bytes)
}

/// The views of a sequence of strings.
pub open spec fn views(v: Seq<String>) -> Seq<Seq<char>> {
    v.map_values(|s: String| s@)
}

/// The pool entry at `p` in `d`: a length byte, then that many bytes of
/// UTF-8; with the position after it.
pub open spec fn entry_at(d: Seq<u8>, p: int) -> Result<(Seq<char>, int), DecodeError> {
    if p < 0 || p + 1 > d.len() {
        Err(DecodeError::Truncated)
    } else {
        let n = d[p] as int;
        if p + 1 + n > d.len() {
            Err(DecodeError::Truncated)
        } else if !valid_utf8(d.subrange(p + 1, p + 1 + n)) {
            Err(DecodeError::InvalidUtf8)
        } else {
            Ok((decode_utf8(d.subrange(p + 1, p + 1 + n)), p + 1 + n))
        }
    }
}

/// The first `k` entries from `p` on, each starting where the one before
/// ended, with the position after the last; or the first error among them.
pub open spec fn entries_spec(d: Seq<u8>, p: int, k: nat) -> Result<(Seq<Seq<char>>, int), DecodeError>
    decreases k,
{
    if k == 0 {
        Ok((Seq::empty(), p))
    } else {
        match entries_spec(d, p, (k - 1) as nat) {
            Err(e) => Err(e),
            Ok((strs, q)) => match entry_at(d, q) {
                Err(e) => Err(e),
                Ok((s, q2)) => Ok((strs.push(s), q2)),
            },
        }
    }
}

/// What reading the pool at `p` in `d` yields: the empty string, then the
/// pool's strings in order.
pub open spec fn pool_spec(d: Seq<u8>, p: int) -> Result<Seq<Seq<char>>, DecodeError> {
    if p < 0 || p > d.len() {
        Err(DecodeError::OutOfRange)
    } else if p + 4 > d.len() {
        Err(DecodeError::Truncated)
    } else if !tag_at(d, p, pool_open_tag()) {
        Err(DecodeError::BadPoolMagic)
    } else if p + 12 > d.len() {
        Err(DecodeError::Truncated)
    } else if i32_at(d, p + 8) != 0 {
        Err(DecodeError::UnexpectedValue)
    } else {
        match entries_spec(d, p + 12, count_of(i32_at(d, p + 4))) {
            Err(e) => Err(e),
            Ok((strs, q)) => if q + 4 > d.len() {
                Err(DecodeError::Truncated)
            } else if i32_at(d, q) != 0 {
                Err(DecodeError::UnexpectedValue)
            } else if q + 8 > d.len() {
                Err(DecodeError::Truncated)
            } else if !tag_at(d, q + 4, pool_close_tag()) {
                Err(DecodeError::BadPoolMagic)
            } else {
                Ok(seq![Seq::<char>::empty()] + strs)
            },
        }
    }
}

proof fn lemma_entries_err_stays(d: Seq<u8>, p: int, k: nat, m: nat)
    requires
        k <= m,
        entries_spec(d, p, k) is Err,
    ensures
        entries_spec(d, p, m) == entries_spec(d, p, k),
    decreases m - k,
{
    if k < m {
        lemma_entries_err_stays(d, p, k, (m - 1) as nat);
    }
}

/// Reads one entry: a length byte and that many bytes of UTF-8.
fn read_entry(rd: &mut Reader) -> (r: Result<String, DecodeError>)
    requires
        old(rd).wf(),
    ensures
        final(rd).wf(),
        final(rd).data@ == old(rd).data@,
        match r {
            Ok(s) => entry_at(old(rd).data@, old(rd).pos as int) == Ok::<
                (Seq<char>, int),
                DecodeError,
            >((s@, final(rd).pos as int)),
            Err(e) => entry_at(old(rd).data@, old(rd).pos as int) is Err && entry_at(
                old(rd).data@,
                old(rd).pos as int,
            )->Err_0 == e,
        },
{
    let len = rd.read::<u8>()?;
    let bytes = rd.read_bytes(len as usize)?;
    match string_from_utf8(bytes) {
        Ok(s) => Ok(s),
        Err(_) => Err(DecodeError::InvalidUtf8),
    }
}

/// Reads the string pool whose `"NM"` section tag is at `string_section`;
/// the pool follows the tag. Index 0 of the result is the empty string and
/// index `i` the pool's `i`-th string.
pub fn read_string_pool(rd: &mut Reader, string_section: i32) -> (r: Result<
    Vec<String>,
    DecodeError,
>)
    requires
        old(rd).wf(),
    ensures
        final(rd).wf(),
        final(rd).data@ == old(rd).data@,
        match r {
            Ok(v) => pool_spec(old(rd).data@, string_section + 2) == Ok::<
                Seq<Seq<char>>,
                DecodeError,
            >(views(v@)),
            Err(e) => pool_spec(old(rd).data@, string_section + 2) == Err::<
                Seq<Seq<char>>,
                DecodeError,
            >(e),
        },
{
    let ghost d = rd.data@;
    let start = string_section as i64 + 2;
    if start < 0 {
        return Err(DecodeError::OutOfRange);
    }
    rd.seek(SeekFrom::Start(start as u64))?;
    expect_tag(rd, pool_open_tag_bytes().as_slice(), DecodeError::BadPoolMagic)?;
    let count = rd.read::<i32>()?;
    let reserved = rd.read::<i32>()?;
    if reserved != 0 {
        return Err(DecodeError::UnexpectedValue);
    }
    let ghost base = rd.pos as int;
    let mut table: Vec<String> = Vec::new();
    table.push(String::new());
    assert(views(table@).drop_first() =~= Seq::<Seq<char>>::empty());
    let mut k: i32 = 0;
    while k < count
        invariant
            rd.wf(),
            rd.data@ == d,
            d == old(rd).data@,
            base == start + 12,
            start == string_section + 2,
            0 <= start,
            0 <= k,
            count < 0 ==> k == 0,
            count >= 0 ==> k <= count,
            count == i32_at(d, start + 4),
            pool_spec(d, start as int) == match entries_spec(d, base, count_of(count)) {
                Err(e) => Err(e),
                Ok((strs, q)) => if q + 4 > d.len() {
                    Err(DecodeError::Truncated)
                } else if i32_at(d, q) != 0 {
                    Err(DecodeError::UnexpectedValue)
                } else if q + 8 > d.len() {
                    Err(DecodeError::Truncated)
                } else if !tag_at(d, q + 4, pool_close_tag()) {
                    Err(DecodeError::BadPoolMagic)
                } else {
                    Ok(seq![Seq::<char>::empty()] + strs)
                },
            },
            table@.len() >= 1,
            table@[0]@ == Seq::<char>::empty(),
            entries_spec(d, base, k as nat) == Ok::<(Seq<Seq<char>>, int), DecodeError>(
                (views(table@).drop_first(), rd.pos as int),
            ),
        decreases count - k,
    {
        let ghost before = table@;
        let ghost p = rd.pos as int;
        let s = match read_entry(rd) {
            Ok(s) => s,
            Err(e) => {
                proof {
                    lemma_entries_err_stays(d, base, (k + 1) as nat, count_of(count));
                }
                return Err(e);
            },
        };
        table.push(s);
        proof {
            assert(views(table@).drop_first() =~= views(before).drop_first().push(s@));
        }
        k = k + 1;
    }
    let ghost strs = views(table@).drop_first();
    assert(views(table@) =~= seq![Seq::<char>::empty()] + strs);
    let trailer = rd.read::<i32>()?;
    if trailer != 0 {
        return Err(DecodeError::UnexpectedValue);
    }
    expect_tag(rd, pool_close_tag_bytes().as_slice(), DecodeError::BadPoolMagic)?;
    Ok(table)
}

} // verus!
