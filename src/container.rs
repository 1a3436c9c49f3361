//! The outer envelope: a magic, a chunk table, and LZ4 block-compressed
//! chunks that reassemble into one payload.
use vstd::prelude::*;

use crate::cursor::{bytes_eq, count_of, i32_at, FixedWidth, Reader, SeekFrom};
use crate::error::DecodeError;

verus! {

/// `"SNFHFZLC"`, the first eight bytes of a container.
pub open spec fn container_magic() -> Seq<u8> {
    seq![0x53u8, 0x4e, 0x46, 0x48, 0x46, 0x5a, 0x4c, 0x43]
}

fn container_magic_bytes() -> (r: Vec<u8>)
    ensures
        r@ == container_magic(),
{
    vec![0x53u8, 0x4e, 0x46, 0x48, 0x46, 0x5a, 0x4c, 0x43]
}

/// The two integers after the container magic.
#[derive(Debug, Clone, Copy, PartialEq, Eq, Structural)]
pub struct ContainerHeader {
    pub chunk_count: i32,
    /// Length of the segment before chunk 0's data in the payload; also the
    /// absolute offset in the container where the chunk stream begins.
    pub header_size: i32,
}

/// The sizes of one chunk, as the chunk table gives them.
#[derive(Debug, Clone, Copy, PartialEq, Eq, Structural)]
pub struct ChunkDescriptor {
    pub compressed_size: i32,
    pub decompressed_size: i32,
    pub end_chunk_offset: i32,
}

/// The descriptor stored at `p` in `d`.
pub open spec fn descriptor_at(d: Seq<u8>, p: int) -> ChunkDescriptor {
    ChunkDescriptor {
        compressed_size: i32_at(d, p),
        decompressed_size: i32_at(d, p + 4),
        end_chunk_offset: i32_at(d, p + 8),
    }
}

/// What the LZ4 block decoder yields for `input` into an output of at most
/// `capacity` bytes; `None` where it reports an error.
pub uninterp spec fn lz4_block_decoded(input: Seq<u8>, capacity: nat) -> Option<Seq<u8>>;

#[verifier::external_type_specification]
#[verifier::external_body]
pub struct ExDecompressError(lz4_flex::block::DecompressError);

/// The longest compressed chunk that is handed to the LZ4 decoder, 16 MiB.
/// The decoder adds up the bytes of a length field in a `u32`, up to 255 per
/// input byte, so no input of at most this many bytes can overflow that sum.
pub const MAX_COMPRESSED_CHUNK: usize = 0x100_0000;

/// Relies on lz4_flex::block::decompress, which decodes one LZ4 block into a
/// buffer of `capacity` bytes and returns the bytes it wrote, or an error where
/// the block is malformed or its output would not fit. Its length fields are
/// summed in a `u32`, which overflows (and panics where overflow checks are
/// on) only for inputs longer than `MAX_COMPRESSED_CHUNK`; those are left out.
#[verifier::external_body]
fn lz4_decompress(input: &[u8], capacity: usize) -> (r: Result<
    Vec<u8>,
    lz4_flex::block::DecompressError,
>)
    requires
        input@.len() <= MAX_COMPRESSED_CHUNK,
    ensures
        match r {
            Ok(v) => lz4_block_decoded(input@, capacity as nat) == Some(v@) && v@.len()
                <= capacity,
            Err(_) => lz4_block_decoded(input@, capacity as nat) is None,
        },
{
    lz4_flex::block::decompress(input, capacity)
}

/// The chunk output that the decoder's `result` gives for a declared size:
/// accepted only when it is exactly that long.
pub open spec fn chunk_result(result: Option<Seq<u8>>, declared: i32) -> Result<
    Seq<u8>,
    DecodeError,
> {
    match result {
        Some(w) => if declared >= 0 && w.len() == declared {
            Ok(w)
        } else {
            Err(DecodeError::DecompressionMismatch)
        },
        None => Err(DecodeError::DecompressionMismatch),
    }
}

/// What one chunk of compressed bytes `input` with a declared decompressed
/// size yields; compressed data longer than `MAX_COMPRESSED_CHUNK` is refused.
pub open spec fn chunk_decoded(input: Seq<u8>, declared: i32) -> Result<Seq<u8>, DecodeError> {
    if input.len() > MAX_COMPRESSED_CHUNK {
        Err(DecodeError::ChunkTooLarge)
    } else if declared < 0 {
        Err(DecodeError::DecompressionMismatch)
    } else {
        chunk_result(lz4_block_decoded(input, declared as nat), declared)
    }
}

/// Accepts a decoded chunk only when its length is the declared one.
pub fn check_chunk(decoded: Option<Vec<u8>>, declared: i32) -> (r: Result<Vec<u8>, DecodeError>)
    ensures
        match r {
            Ok(v) => decoded is Some && chunk_result(Some(decoded->Some_0@), declared) == Ok::<
                Seq<u8>,
                DecodeError,
            >(v@),
            Err(e) => chunk_result(
                match decoded {
                    Some(v) => Some(v@),
                    None => None,
                },
                declared,
            ) == Err::<Seq<u8>, DecodeError>(e),
        },
{
    match decoded {
        Some(v) => {
            if declared >= 0 && v.len() == declared as usize {
                Ok(v)
            } else {
                Err(DecodeError::DecompressionMismatch)
            }
        },
        None => Err(DecodeError::DecompressionMismatch),
    }
}

/// Decompresses one chunk, which must yield exactly `declared` bytes; its
/// compressed data may be at most `MAX_COMPRESSED_CHUNK` bytes long.
pub fn decompress_chunk(input: &[u8], declared: i32) -> (r: Result<Vec<u8>, DecodeError>)
    ensures
        match r {
            Ok(v) => chunk_decoded(input@, declared) == Ok::<Seq<u8>, DecodeError>(v@),
            Err(e) => chunk_decoded(input@, declared) == Err::<Seq<u8>, DecodeError>(e),
        },
{
    if input.len() > MAX_COMPRESSED_CHUNK {
        return Err(DecodeError::ChunkTooLarge);
    }
    if declared < 0 {
        return Err(DecodeError::DecompressionMismatch);
    }
    match lz4_decompress(input, declared as usize) {
        Ok(v) => check_chunk(Some(v), declared),
        Err(_) => check_chunk(None, declared),
    }
}

/// What the chunk at `p` in `d`, with sizes `desc`, decompresses to.
pub open spec fn chunk_at(d: Seq<u8>, desc: ChunkDescriptor, p: int) -> Result<Seq<u8>, DecodeError> {
    if desc.compressed_size < 0 || p + desc.compressed_size > d.len() {
        Err(DecodeError::Truncated)
    } else {
        chunk_decoded(d.subrange(p, p + desc.compressed_size), desc.decompressed_size)
    }
}

/// The decompressed bytes of chunks `k..` of `descs`, whose compressed data
/// follow each other from `p` on; or the first error among them.
pub open spec fn chunk_stream(d: Seq<u8>, descs: Seq<ChunkDescriptor>, k: int, p: int) -> Result<
    Seq<u8>,
    DecodeError,
>
    decreases descs.len() - k,
{
    if k < 0 || k >= descs.len() {
        Ok(Seq::empty())
    } else {
        match chunk_at(d, descs[k], p) {
            Err(e) => Err(e),
            Ok(bytes) => prepend(bytes, chunk_stream(d, descs, k + 1, p + descs[k].compressed_size)),
        }
    }
}

/// `r` with `prefix` put in front of its bytes.
pub open spec fn prepend(prefix: Seq<u8>, r: Result<Seq<u8>, DecodeError>) -> Result<
    Seq<u8>,
    DecodeError,
> {
    match r {
        Ok(rest) => Ok(prefix + rest),
        Err(e) => Err(e),
    }
}

/// The sum of the declared decompressed sizes of the first `k` chunks.
pub open spec fn sum_decompressed(descs: Seq<ChunkDescriptor>, k: int) -> int
    decreases k,
{
    if k <= 0 {
        0
    } else {
        sum_decompressed(descs, k - 1) + descs[k - 1].decompressed_size
    }
}

/// A decoded container: its header, its chunk table and the reassembled payload.
#[derive(Debug, PartialEq, Eq)]
pub struct Container {
    pub header: ContainerHeader,
    pub chunks: Vec<ChunkDescriptor>,
    pub payload: Vec<u8>,
}

/// What decoding the container bytes `d` yields: the header, the chunk table,
/// and `header_size` zero bytes followed by every chunk's decompressed data.
pub open spec fn container_spec(d: Seq<u8>) -> Result<
    (ContainerHeader, Seq<ChunkDescriptor>, Seq<u8>),
    DecodeError,
> {
    if d.len() < 8 {
        Err(DecodeError::Truncated)
    } else if d.subrange(0, 8) != container_magic() {
        Err(DecodeError::BadMagic)
    } else if d.len() < 16 {
        Err(DecodeError::Truncated)
    } else {
        let header = ContainerHeader { chunk_count: i32_at(d, 8), header_size: i32_at(d, 12) };
        let n = count_of(header.chunk_count);
        if 16 + 12 * n > d.len() {
            Err(DecodeError::Truncated)
        } else if header.header_size < 0 || header.header_size > d.len() {
            Err(DecodeError::OutOfRange)
        } else {
            let descs = Seq::new(n, |k: int| descriptor_at(d, 16 + 12 * k));
            match chunk_stream(d, descs, 0, header.header_size as int) {
                Ok(body) => Ok((header, descs, Seq::new(header.header_size as nat, |i: int| 0u8) + body)),
                Err(e) => Err(e),
            }
        }
    }
}

proof fn lemma_prepend_assoc(a: Seq<u8>, b: Seq<u8>, r: Result<Seq<u8>, DecodeError>)
    ensures
        prepend(a, prepend(b, r)) == prepend(a + b, r),
{
    match r {
        Ok(rest) => {
            assert(a + (b + rest) =~= (a + b) + rest);
        },
        Err(_) => {},
    }
}

/// Reads the chunk table of `count` entries at the reader's position.
fn read_descriptors(rd: &mut Reader, count: i32) -> (r: Result<Vec<ChunkDescriptor>, DecodeError>)
    requires
        old(rd).wf(),
    ensures
        final(rd).wf(),
        final(rd).data@ == old(rd).data@,
        ({
            let d = old(rd).data@;
            let n = count_of(count);
            match r {
                Ok(v) => {
                    &&& old(rd).pos + 12 * n <= d.len()
                    &&& v@ == Seq::new(n, |k: int| descriptor_at(d, old(rd).pos + 12 * k))
                },
                Err(e) => e == DecodeError::Truncated && old(rd).pos + 12 * n > d.len(),
            }
        }),
{
    let ghost d = rd.data@;
    let ghost start = rd.pos as int;
    let mut out: Vec<ChunkDescriptor> = Vec::new();
    let mut k: i32 = 0;
    while k < count
        invariant
            rd.wf(),
            rd.data@ == d,
            d == old(rd).data@,
            start == old(rd).pos,
            0 <= k,
            count < 0 ==> k == 0,
            count >= 0 ==> k <= count,
            rd.pos == start + 12 * k,
            start + 12 * k <= d.len(),
            out@ == Seq::new(k as nat, |j: int| descriptor_at(d, start + 12 * j)),
        decreases count - k,
    {
        let compressed_size = rd.read::<i32>()?;
        let decompressed_size = rd.read::<i32>()?;
        let end_chunk_offset = rd.read::<i32>()?;
        out.push(ChunkDescriptor { compressed_size, decompressed_size, end_chunk_offset });
        k = k + 1;
        assert(out@ =~= Seq::new(k as nat, |j: int| descriptor_at(d, start + 12 * j)));
    }
    assert(out@ =~= Seq::new(count_of(count), |j: int| descriptor_at(d, start + 12 * j)));
    Ok(out)
}

/// Decodes a container: checks its magic, reads its header and chunk table,
/// and reassembles the payload from `header_size` zero bytes followed by each
/// chunk's data, decompressed to exactly its declared size, in chunk order.
pub fn decode_container(data: Vec<u8>) -> (r: Result<Container, DecodeError>)
    ensures
        match r {
            Ok(c) => container_spec(data@) == Ok::<_, DecodeError>((c.header, c.chunks@, c.payload@)),
            Err(e) => container_spec(data@) == Err::<
                (ContainerHeader, Seq<ChunkDescriptor>, Seq<u8>),
                DecodeError,
            >(e),
        },
        r is Ok ==> r->Ok_0.payload@.len() == r->Ok_0.header.header_size + sum_decompressed(
            r->Ok_0.chunks@,
            r->Ok_0.chunks@.len() as int,
        ),
{
    let ghost d = data@;
    let mut rd = Reader::new(data);
    let magic = rd.read_bytes(8)?;
    let expected = container_magic_bytes();
    if !bytes_eq(magic.as_slice(), expected.as_slice()) {
        return Err(DecodeError::BadMagic);
    }
    let chunk_count = rd.read::<i32>()?;
    let header_size = rd.read::<i32>()?;
    let header = ContainerHeader { chunk_count, header_size };
    let chunks = read_descriptors(&mut rd, chunk_count)?;
    if header_size < 0 {
        return Err(DecodeError::OutOfRange);
    }
    rd.seek(SeekFrom::Start(header_size as u64))?;
    let ghost descs = chunks@;
    let mut payload: Vec<u8> = vec![0u8; header_size as usize];
    let ghost zeros = payload@;
    assert(zeros =~= Seq::new(header_size as nat, |i: int| 0u8));
    let mut k: usize = 0;
    while k < chunks.len()
        invariant
            rd.wf(),
            rd.data@ == d,
            d == data@,
            descs == chunks@,
            0 <= header_size,
            header_size <= payload@.len(),
            container_spec(d) == match chunk_stream(d, descs, 0, header_size as int) {
                Ok(body) => Ok((header, descs, zeros + body)),
                Err(e) => Err(e),
            },
            k <= chunks@.len(),
            zeros.len() == header_size,
            chunk_stream(d, descs, 0, header_size as int) == prepend(
                payload@.subrange(header_size as int, payload@.len() as int),
                chunk_stream(d, descs, k as int, rd.pos as int),
            ),
            payload@.subrange(0, header_size as int) == zeros,
            payload@.len() == header_size + sum_decompressed(descs, k as int),
        decreases chunks@.len() - k,
    {
        let desc = chunks[k];
        let ghost p = rd.pos as int;
        if desc.compressed_size < 0 || desc.compressed_size as usize > rd.data.len() - rd.pos {
            assert(chunk_stream(d, descs, k as int, p) == Err::<Seq<u8>, DecodeError>(
                DecodeError::Truncated,
            ));
            assert(container_spec(d) == Err::<
                (ContainerHeader, Seq<ChunkDescriptor>, Seq<u8>),
                DecodeError,
            >(DecodeError::Truncated));
            return Err(DecodeError::Truncated);
        }
        let input = rd.read_bytes(desc.compressed_size as usize)?;
        let mut bytes = decompress_chunk(input.as_slice(), desc.decompressed_size)?;
        proof {
            assert(input@ == d.subrange(p, p + desc.compressed_size));
            assert(chunk_at(d, descs[k as int], p) == Ok::<Seq<u8>, DecodeError>(bytes@));
            assert(chunk_stream(d, descs, k as int, p) == prepend(
                bytes@,
                chunk_stream(d, descs, k + 1, p + desc.compressed_size),
            ));
            let old_body = payload@.subrange(header_size as int, payload@.len() as int);
            lemma_prepend_assoc(
                old_body,
                bytes@,
                chunk_stream(d, descs, k + 1, p + desc.compressed_size),
            );
        }
        let ghost before = payload@;
        let ghost chunk = bytes@;
        payload.append(&mut bytes);
        proof {
            assert(payload@ == before + chunk);
            assert(payload@.subrange(header_size as int, payload@.len() as int) =~= before.subrange(
                header_size as int,
                before.len() as int,
            ) + chunk);
            assert(payload@.subrange(0, header_size as int) =~= before.subrange(0, header_size as int));
        }
        k = k + 1;
    }
    proof {
        assert(payload@ =~= zeros + payload@.subrange(header_size as int, payload@.len() as int));
    }
    Ok(Container { header, chunks, payload })
}

} // verus!
