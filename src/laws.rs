//! Properties of the decoder as a whole, stated over the specifications of its
//! stages.
use vstd::prelude::*;

use vstd::arithmetic::div_mod::{lemma_fundamental_div_mod, lemma_mod_pos_bound};
use vstd::utf8::{encode_utf8, encode_utf8_decode_utf8, encode_utf8_valid_utf8};

use crate::container::{
    chunk_at, chunk_decoded, chunk_stream, MAX_COMPRESSED_CHUNK, container_spec, lz4_block_decoded, sum_decompressed,
    ChunkDescriptor,
};
use crate::pool::{entries_spec, entry_at, pool_spec};
use crate::cursor::{i32_at, tag_at, u16_at, FixedWidth};
use crate::error::DecodeError;
use crate::index::{index_spec, var_index_at, VarIndex};
use crate::locator::layout_spec;
use crate::record::{record_end, variable_spec, variables_spec, VariableModel};
use crate::value::{is_known_type, TypedValue};
use crate::save::{save_entry_spec, save_spec, SaveModel};
use crate::tags::{footer_magic, index_tag, inner_magic, names_tag, pool_close_tag, pool_open_tag};

verus! {

proof fn lemma_stream_length(d: Seq<u8>, descs: Seq<ChunkDescriptor>, k: int, p: int)
    requires
        0 <= k <= descs.len(),
    ensures
        chunk_stream(d, descs, k, p) is Ok ==> chunk_stream(d, descs, k, p)->Ok_0.len()
            == sum_decompressed(descs, descs.len() as int) - sum_decompressed(descs, k),
    decreases descs.len() - k,
{
    if k < descs.len() {
        lemma_stream_length(d, descs, k + 1, p + descs[k].compressed_size);
    }
}

/// The sum of the compressed sizes of the first `k` chunks.
pub open spec fn sum_compressed(descs: Seq<ChunkDescriptor>, k: int) -> int
    decreases k,
{
    if k <= 0 {
        0
    } else {
        sum_compressed(descs, k - 1) + descs[k - 1].compressed_size
    }
}

proof fn lemma_stream_sizes(d: Seq<u8>, descs: Seq<ChunkDescriptor>, k: int, p: int)
    requires
        0 <= k <= descs.len(),
        chunk_stream(d, descs, k, p) is Ok,
    ensures
        chunk_stream(d, descs, k, p)->Ok_0.len() == sum_decompressed(descs, descs.len() as int)
            - sum_decompressed(descs, k),
        forall|j: int| k <= j < descs.len() ==> #[trigger] descs[j].decompressed_size >= 0,
        forall|j: int|
            k <= j <= descs.len() ==> sum_decompressed(descs, k) <= #[trigger] sum_decompressed(
                descs,
                j,
            ) <= sum_decompressed(descs, descs.len() as int),
    decreases descs.len() - k,
{
    lemma_stream_length(d, descs, k, p);
    if k < descs.len() {
        let bytes = chunk_at(d, descs[k], p)->Ok_0;
        let q = p + descs[k].compressed_size;
        lemma_stream_sizes(d, descs, k + 1, q);
        assert(bytes.len() == descs[k].decompressed_size);
        assert(sum_decompressed(descs, k + 1) == sum_decompressed(descs, k) + bytes.len());
        assert forall|j: int| k <= j <= descs.len() implies sum_decompressed(descs, k)
            <= #[trigger] sum_decompressed(descs, j) <= sum_decompressed(descs, descs.len() as int) by {
            if j > k {
                assert(sum_decompressed(descs, k + 1) <= sum_decompressed(descs, j));
            } else {
                assert(sum_decompressed(descs, k + 1) <= sum_decompressed(descs, descs.len() as int));
            }
        }
        assert forall|j: int| k <= j < descs.len() implies #[trigger] descs[j].decompressed_size
            >= 0 by {
            if j > k {
                assert(descs[j].decompressed_size >= 0);
            }
        }
    }
}

#[verifier::rlimit(40)]
proof fn lemma_stream_chunks(d: Seq<u8>, descs: Seq<ChunkDescriptor>, k: int, p: int)
    requires
        0 <= k <= descs.len(),
        chunk_stream(d, descs, k, p) is Ok,
    ensures
        forall|j: int|
            k <= j < descs.len() ==> chunk_at(
                d,
                #[trigger] descs[j],
                p + sum_compressed(descs, j) - sum_compressed(descs, k),
            ) == Ok::<Seq<u8>, DecodeError>(
                chunk_stream(d, descs, k, p)->Ok_0.subrange(
                    sum_decompressed(descs, j) - sum_decompressed(descs, k),
                    sum_decompressed(descs, j + 1) - sum_decompressed(descs, k),
                ),
            ),
    decreases descs.len() - k,
{
    if k < descs.len() {
        let c = descs[k].compressed_size as int;
        let bytes = chunk_at(d, descs[k], p)->Ok_0;
        let q = p + c;
        let rest = chunk_stream(d, descs, k + 1, q)->Ok_0;
        let body = chunk_stream(d, descs, k, p)->Ok_0;
        assert(body == bytes + rest);
        assert(bytes.len() == descs[k].decompressed_size);
        lemma_stream_chunks(d, descs, k + 1, q);
        lemma_stream_sizes(d, descs, k + 1, q);
        assert(sum_compressed(descs, k + 1) == sum_compressed(descs, k) + c);
        assert(sum_decompressed(descs, k + 1) == sum_decompressed(descs, k) + bytes.len());
        assert forall|j: int| k <= j < descs.len() implies chunk_at(
            d,
            #[trigger] descs[j],
            p + sum_compressed(descs, j) - sum_compressed(descs, k),
        ) == Ok::<Seq<u8>, DecodeError>(
            body.subrange(
                sum_decompressed(descs, j) - sum_decompressed(descs, k),
                sum_decompressed(descs, j + 1) - sum_decompressed(descs, k),
            ),
        ) by {
            if j == k {
                assert(body.subrange(0, bytes.len() as int) =~= bytes);
            } else {
                assert(sum_decompressed(descs, j + 1) == sum_decompressed(descs, j)
                    + descs[j].decompressed_size);
                let lo = sum_decompressed(descs, j) - sum_decompressed(descs, k + 1);
                let hi = sum_decompressed(descs, j + 1) - sum_decompressed(descs, k + 1);
                assert(q + sum_compressed(descs, j) - sum_compressed(descs, k + 1) == p
                    + sum_compressed(descs, j) - sum_compressed(descs, k));
                assert(chunk_at(d, descs[j], q + sum_compressed(descs, j) - sum_compressed(descs, k + 1))
                    == Ok::<Seq<u8>, DecodeError>(rest.subrange(lo, hi)));
                assert(0 <= lo <= hi <= rest.len());
                assert(body.subrange(lo + bytes.len(), hi + bytes.len()) =~= rest.subrange(lo, hi));
            }
        }
    }
}

/// Every container that decodes yields a payload exactly as long as its
/// header segment plus the declared decompressed sizes of all its chunks.
pub proof fn payload_length_is_sum_of_chunks(d: Seq<u8>)
    ensures
        container_spec(d) matches Ok((header, descs, payload)) ==> payload.len()
            == header.header_size + sum_decompressed(descs, descs.len() as int),
{
    if container_spec(d) is Ok {
        let header_size = i32_at(d, 12);
        let descs = container_spec(d)->Ok_0.1;
        lemma_stream_length(d, descs, 0, header_size as int);
    }
}

/// The variable index keeps file order: its `k`-th entry is the `k`-th
/// six-byte `{size, offset}` pair after the count.
pub proof fn index_keeps_file_order(d: Seq<u8>, p: int)
    ensures
        index_spec(d, p) is Ok ==> forall|k: int|
            0 <= k < index_spec(d, p)->Ok_0.len() ==> #[trigger] index_spec(d, p)->Ok_0[k]
                == var_index_at(d, p + 4 + 6 * k),
{
}

/// A chunk is accepted only with exactly its declared number of bytes: a
/// decoder output of any other length, or a decoder error, is a
/// `DecompressionMismatch`, never a truncated or padded chunk (compressed
/// data too long to hand to the decoder is `ChunkTooLarge`).
pub proof fn chunk_length_is_exact(input: Seq<u8>, declared: i32)
    ensures
        chunk_decoded(input, declared) is Ok ==> chunk_decoded(input, declared)->Ok_0.len()
            == declared,
        chunk_decoded(input, declared) is Err ==> chunk_decoded(input, declared)->Err_0
            == if input.len() > MAX_COMPRESSED_CHUNK {
            DecodeError::ChunkTooLarge
        } else {
            DecodeError::DecompressionMismatch
        },
        declared >= 0 && input.len() <= MAX_COMPRESSED_CHUNK ==> match lz4_block_decoded(
            input,
            declared as nat,
        ) {
            Some(w) => (w.len() == declared) == (chunk_decoded(input, declared) is Ok),
            None => chunk_decoded(input, declared) is Err,
        },
{
}

/// In a container that decodes, chunk `j`, whose compressed data start at
/// `header_size` plus the compressed sizes of the chunks before it, decodes
/// to exactly its declared number of bytes, and those bytes are the payload
/// from `header_size` plus the declared sizes of the chunks before it on.
pub proof fn every_chunk_has_its_declared_size(d: Seq<u8>)
    ensures
        container_spec(d) matches Ok((header, descs, payload)) ==> forall|j: int|
            0 <= j < descs.len() ==> {
                let at = header.header_size + sum_compressed(descs, j);
                let start = header.header_size + sum_decompressed(descs, j);
                &&& chunk_at(d, #[trigger] descs[j], at) is Ok
                &&& chunk_at(d, descs[j], at)->Ok_0.len() == descs[j].decompressed_size
                &&& chunk_at(d, descs[j], at)->Ok_0 == payload.subrange(
                    start,
                    start + descs[j].decompressed_size,
                )
            },
{
    if container_spec(d) is Ok {
        let header_size = i32_at(d, 12);
        let descs = container_spec(d)->Ok_0.1;
        let payload = container_spec(d)->Ok_0.2;
        let h = header_size as int;
        let body = chunk_stream(d, descs, 0, h)->Ok_0;
        lemma_stream_chunks(d, descs, 0, h);
        lemma_stream_sizes(d, descs, 0, h);
        assert forall|j: int| 0 <= j < descs.len() implies {
            let at = h + sum_compressed(descs, j);
            let start = h + sum_decompressed(descs, j);
            &&& chunk_at(d, #[trigger] descs[j], at) is Ok
            &&& chunk_at(d, descs[j], at)->Ok_0.len() == descs[j].decompressed_size
            &&& chunk_at(d, descs[j], at)->Ok_0 == payload.subrange(
                start,
                start + descs[j].decompressed_size,
            )
        } by {
            let at = h + sum_compressed(descs, j);
            let w = chunk_at(d, descs[j], at)->Ok_0;
            assert(sum_compressed(descs, 0) == 0 && sum_decompressed(descs, 0) == 0);
            assert(chunk_at(d, descs[j], at) == Ok::<Seq<u8>, DecodeError>(
                body.subrange(sum_decompressed(descs, j), sum_decompressed(descs, j + 1)),
            ));
            assert(w.len() == descs[j].decompressed_size);
            assert(payload == Seq::new(header_size as nat, |i: int| 0u8) + body);
            assert(payload.subrange(
                h + sum_decompressed(descs, j),
                h + sum_decompressed(descs, j) + descs[j].decompressed_size,
            ) =~= body.subrange(sum_decompressed(descs, j), sum_decompressed(descs, j + 1)));
        }
    }
}

/// Decoding depends on the bytes alone: equal buffers decode to equal results.
pub proof fn decode_is_deterministic(a: Seq<u8>, b: Seq<u8>)
    requires
        a == b,
    ensures
        save_spec(a) == save_spec(b),
{
}

/// A complete inner header whose magic is wrong fails with `BadInnerMagic`.
pub proof fn inner_magic_mismatch_is_reported(d: Seq<u8>, header_size: i32)
    requires
        0 <= header_size,
        header_size + 16 <= d.len(),
        d.subrange(header_size as int, header_size + 4) != inner_magic(),
    ensures
        save_entry_spec(d, header_size) == Err::<SaveModel, DecodeError>(
            DecodeError::BadInnerMagic,
        ),
{
}

/// Behind a valid inner header, a wrong footer magic fails with
/// `BadFooterMagic`.
pub proof fn footer_magic_mismatch_is_reported(d: Seq<u8>, header_size: i32)
    requires
        0 <= header_size,
        header_size + 16 <= d.len(),
        d.subrange(header_size as int, header_size + 4) == inner_magic(),
        !tag_at(d, d.len() - 2, footer_magic()),
    ensures
        save_entry_spec(d, header_size) == Err::<SaveModel, DecodeError>(
            DecodeError::BadFooterMagic,
        ),
{
}

/// Behind a valid header and footer, a section offset that lands on a wrong
/// tag (`"NM"` for strings, then `"RB"` for the index) fails with
/// `BadSectionMagic`.
pub proof fn section_tag_mismatch_is_reported(d: Seq<u8>, header_size: i32)
    requires
        0 <= header_size,
        header_size + 16 <= d.len(),
        d.subrange(header_size as int, header_size + 4) == inner_magic(),
        tag_at(d, d.len() - 2, footer_magic()),
        ({
            let t = i32_at(d, d.len() - 6) - 10;
            let nm = i32_at(d, t);
            let rb = i32_at(d, t + 4);
            &&& 0 <= t
            &&& t + 8 <= d.len()
            &&& 0 <= nm
            &&& nm + 2 <= d.len()
            &&& (!tag_at(d, nm as int, names_tag()) || (0 <= rb && rb + 2 <= d.len() && !tag_at(
                d,
                rb as int,
                index_tag(),
            )))
        }),
    ensures
        save_entry_spec(d, header_size) == Err::<SaveModel, DecodeError>(
            DecodeError::BadSectionMagic,
        ),
{
}

/// The four little-endian bytes of a count `n` below 2^31.
pub open spec fn le32(n: nat) -> Seq<u8> {
    seq![
        (n % 256) as u8,
        ((n / 256) % 256) as u8,
        ((n / 256 / 256) % 256) as u8,
        (n / 256 / 256 / 256) as u8,
    ]
}

/// A pool entry for `s`: the length of its UTF-8 encoding in one byte, then
/// that encoding.
pub open spec fn encode_entry(s: Seq<char>) -> Seq<u8> {
    seq![encode_utf8(s).len() as u8] + encode_utf8(s)
}

/// The entries for `strs`, one after the other.
pub open spec fn encode_entries(strs: Seq<Seq<char>>) -> Seq<u8>
    decreases strs.len(),
{
    if strs.len() == 0 {
        Seq::empty()
    } else {
        encode_entries(strs.drop_last()) + encode_entry(strs.last())
    }
}

/// A whole string pool holding `strs`: opening tag, count, reserved zero,
/// entries, reserved zero, closing tag.
pub open spec fn encode_pool(strs: Seq<Seq<char>>) -> Seq<u8> {
    pool_open_tag() + le32(strs.len()) + le32(0) + encode_entries(strs) + le32(0) + pool_close_tag()
}

proof fn lemma_le32(n: nat)
    requires
        n < 0x8000_0000,
    ensures
        <i32 as FixedWidth>::from_le(le32(n)) == n,
{
    let q1 = n as int / 256;
    let q2 = q1 / 256;
    let q3 = q2 / 256;
    lemma_fundamental_div_mod(n as int, 256);
    lemma_fundamental_div_mod(q1, 256);
    lemma_fundamental_div_mod(q2, 256);
    lemma_mod_pos_bound(n as int, 256);
    lemma_mod_pos_bound(q1, 256);
    lemma_mod_pos_bound(q2, 256);
    assert(0 <= q1 && 0 <= q2 && 0 <= q3) by {
        vstd::arithmetic::div_mod::lemma_div_pos_is_pos(n as int, 256);
        vstd::arithmetic::div_mod::lemma_div_pos_is_pos(q1, 256);
        vstd::arithmetic::div_mod::lemma_div_pos_is_pos(q2, 256);
    }
    assert(n == n % 256 + 256 * (q1 % 256) + 65536 * (q2 % 256) + 16777216 * q3);
    assert(q3 < 128);
}

proof fn lemma_entries_decode(strs: Seq<Seq<char>>, d: Seq<u8>, base: int)
    requires
        0 <= base,
        base + encode_entries(strs).len() <= d.len(),
        d.subrange(base, base + encode_entries(strs).len()) == encode_entries(strs),
        forall|i: int| 0 <= i < strs.len() ==> encode_utf8(#[trigger] strs[i]).len() < 256,
    ensures
        entries_spec(d, base, strs.len()) == Ok::<(Seq<Seq<char>>, int), DecodeError>(
            (strs, base + encode_entries(strs).len()),
        ),
    decreases strs.len(),
{
    if strs.len() > 0 {
        let init = strs.drop_last();
        let last = strs.last();
        let e0 = encode_entries(init);
        let q = base + e0.len();
        let bytes = encode_utf8(last);
        assert(encode_entries(strs) == e0 + encode_entry(last));
        assert(d.subrange(base, q) =~= encode_entries(strs).subrange(0, e0.len() as int));
        assert(d.subrange(base, q) =~= e0);
        assert forall|i: int| 0 <= i < init.len() implies encode_utf8(#[trigger] init[i]).len() < 256 by {
            assert(init[i] == strs[i]);
        }
        lemma_entries_decode(init, d, base);
        assert(encode_utf8(strs[strs.len() - 1]).len() < 256);
        assert(d[q] == encode_entries(strs)[e0.len() as int]);
        assert(d[q] as int == bytes.len());
        let full = encode_entries(strs);
        assert(full =~= e0 + seq![bytes.len() as u8] + bytes);
        assert forall|j: int| 0 <= j < bytes.len() implies d[q + 1 + j] == bytes[j] by {
            assert(d[q + 1 + j] == d.subrange(base, base + full.len())[e0.len() + 1 + j]);
            assert(full[e0.len() + 1 + j] == bytes[j]);
        }
        assert(d.subrange(q + 1, q + 1 + bytes.len()) =~= bytes);
        encode_utf8_valid_utf8(last);
        encode_utf8_decode_utf8(last);
        assert(entry_at(d, q) == Ok::<(Seq<char>, int), DecodeError>((last, q + 1 + bytes.len())));
        assert(init.push(last) =~= strs);
        assert(q + 1 + bytes.len() == base + full.len());
        assert(entries_spec(d, base, strs.len()) == Ok::<(Seq<Seq<char>>, int), DecodeError>(
            (init.push(last), q + 1 + bytes.len()),
        ));
    } else {
        assert(strs =~= Seq::<Seq<char>>::empty());
    }
}

/// Encoding strings as a pool, each with a one-byte length prefix, placing
/// that pool at any offset `p` of a buffer, and reading the pool there gives
/// the empty string at index 0 and the original strings, in order, at
/// indices `1..=N`.
pub proof fn string_pool_round_trip(strs: Seq<Seq<char>>, d: Seq<u8>, p: int)
    requires
        strs.len() < 0x8000_0000,
        forall|i: int| 0 <= i < strs.len() ==> encode_utf8(#[trigger] strs[i]).len() < 256,
        0 <= p,
        p + encode_pool(strs).len() <= d.len(),
        d.subrange(p, p + encode_pool(strs).len()) == encode_pool(strs),
    ensures
        pool_spec(d, p) == Ok::<Seq<Seq<char>>, DecodeError>(seq![Seq::<char>::empty()] + strs),
{
    let pool = encode_pool(strs);
    let e = encode_entries(strs);
    let n = e.len() as int;
    lemma_le32(strs.len());
    lemma_le32(0);
    assert(pool.len() == 20 + n);
    assert(pool.subrange(0, 4) =~= pool_open_tag());
    assert(pool.subrange(4, 8) =~= le32(strs.len()));
    assert(pool.subrange(8, 12) =~= le32(0));
    assert(pool.subrange(12, 12 + n) =~= e);
    assert(pool.subrange(12 + n, 16 + n) =~= le32(0));
    assert(pool.subrange(16 + n, 20 + n) =~= pool_close_tag());
    assert forall|a: int, b: int| 0 <= a <= b <= 20 + n implies #[trigger] d.subrange(p + a, p + b)
        == pool.subrange(a, b) by {
        assert(d.subrange(p + a, p + b) =~= d.subrange(p, p + pool.len()).subrange(a, b));
    }
    assert(d.subrange(p, p + 4) == pool.subrange(0, 4));
    assert(d.subrange(p + 4, p + 8) == pool.subrange(4, 8));
    assert(d.subrange(p + 8, p + 12) == pool.subrange(8, 12));
    assert(d.subrange(p + 12, p + 12 + n) == pool.subrange(12, 12 + n));
    assert(d.subrange(p + 12 + n, p + 16 + n) == pool.subrange(12 + n, 16 + n));
    assert(d.subrange(p + 16 + n, p + 20 + n) == pool.subrange(16 + n, 20 + n));
    lemma_entries_decode(strs, d, p + 12);
}

/// A `"VL"` record whose type name this decoder does not know decodes, with
/// an empty value and no value bytes read; it never fails the decode.
pub proof fn unknown_type_gives_empty_value(d: Seq<u8>, entry: VarIndex, pool: Seq<Seq<char>>)
    requires
        0 <= entry.offset,
        entry.offset + 6 <= d.len(),
        d[entry.offset as int] == 0x56,
        d[entry.offset + 1] == 0x4c,
        u16_at(d, entry.offset + 2) < pool.len(),
        u16_at(d, entry.offset + 4) < pool.len(),
        !is_known_type(pool[u16_at(d, entry.offset + 4) as int]),
    ensures
        variable_spec(d, entry, pool) == Ok::<VariableModel, DecodeError>(
            VariableModel::ValueLiteral {
                name: pool[u16_at(d, entry.offset + 2) as int],
                ty: pool[u16_at(d, entry.offset + 4) as int],
                value: TypedValue::Empty,
                size: 4,
                offset: entry.offset,
            },
        ),
        record_end(d, entry, pool) == entry.offset + 6,
{
}

proof fn lemma_records_all_decode(
    d: Seq<u8>,
    entries: Seq<VarIndex>,
    pool: Seq<Seq<char>>,
    k: nat,
)
    requires
        k <= entries.len(),
        forall|j: int| 0 <= j < entries.len() ==> #[trigger] variable_spec(d, entries[j], pool) is Ok,
    ensures
        variables_spec(d, entries, pool, k) is Ok,
    decreases k,
{
    if k > 0 {
        lemma_records_all_decode(d, entries, pool, (k - 1) as nat);
        assert(variable_spec(d, entries[k - 1], pool) is Ok);
    }
}

/// Once the layout, the index and the pool are read, the decode of the
/// payload succeeds whenever every record on its own decodes; records with
/// unparsed or unknown tags and values of unknown types do not stop it.
pub proof fn decode_succeeds_when_every_record_does(d: Seq<u8>, header_size: i32)
    requires
        layout_spec(d, header_size) is Ok,
        index_spec(d, layout_spec(d, header_size)->Ok_0.index_section + 2) is Ok,
        pool_spec(d, layout_spec(d, header_size)->Ok_0.string_section + 2) is Ok,
        ({
            let entries = index_spec(d, layout_spec(d, header_size)->Ok_0.index_section + 2)->Ok_0;
            let pool = pool_spec(d, layout_spec(d, header_size)->Ok_0.string_section + 2)->Ok_0;
            forall|j: int| 0 <= j < entries.len() ==> #[trigger] variable_spec(d, entries[j], pool) is Ok
        }),
    ensures
        save_entry_spec(d, header_size) is Ok,
{
    let layout = layout_spec(d, header_size)->Ok_0;
    let entries = index_spec(d, layout.index_section + 2)->Ok_0;
    let pool = pool_spec(d, layout.string_section + 2)->Ok_0;
    lemma_records_all_decode(d, entries, pool, entries.len());
}

} // verus!
