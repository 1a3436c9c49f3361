use witcher_save::container::{decode_container, decompress_chunk, ChunkDescriptor};
use witcher_save::cursor::{Reader, SeekFrom};
use witcher_save::error::DecodeError;
use witcher_save::index::VarIndex;
use witcher_save::record::{BoundSimple, ValueLiteral, Variable};
use witcher_save::save::{decode_save, read_save_entry};
use witcher_save::value::TypedValue;

fn i32_bytes(v: i32) -> Vec<u8> {
    v.to_le_bytes().to_vec()
}

/// A payload with the inner header at 0, then `records`, then the string
/// section, the index section (one entry per record), the offset table and
/// the footer.
struct PayloadBuilder {
    inner_magic: Vec<u8>,
    footer_magic: Vec<u8>,
    names_tag: Vec<u8>,
    index_tag: Vec<u8>,
    pool_open: Vec<u8>,
    pool_reserved: i32,
    strings: Vec<Vec<u8>>,
    records: Vec<Vec<u8>>,
}

impl PayloadBuilder {
    fn new(strings: &[&str], records: Vec<Vec<u8>>) -> Self {
        PayloadBuilder {
            inner_magic: b"SAV3".to_vec(),
            footer_magic: b"SE".to_vec(),
            names_tag: b"NM".to_vec(),
            index_tag: b"RB".to_vec(),
            pool_open: b"MANU".to_vec(),
            pool_reserved: 0,
            strings: strings.iter().map(|s| s.as_bytes().to_vec()).collect(),
            records,
        }
    }

    fn build(&self) -> Vec<u8> {
        self.build_at(0)
    }

    /// The payload bytes that follow `base` leading bytes; offsets count them.
    fn build_at(&self, base: i32) -> Vec<u8> {
        let mut out = self.inner_magic.clone();
        out.extend(i32_bytes(7));
        out.extend(i32_bytes(8));
        out.extend(i32_bytes(9));
        let mut offsets = Vec::new();
        for r in &self.records {
            offsets.push(base + out.len() as i32);
            out.extend(r);
        }
        let nm = base + out.len() as i32;
        out.extend(&self.names_tag);
        out.extend(&self.pool_open);
        out.extend(i32_bytes(self.strings.len() as i32));
        out.extend(i32_bytes(self.pool_reserved));
        for s in &self.strings {
            out.push(s.len() as u8);
            out.extend(s);
        }
        out.extend(i32_bytes(0));
        out.extend(b"ENOD");
        let rb = base + out.len() as i32;
        out.extend(&self.index_tag);
        out.extend(i32_bytes(offsets.len() as i32));
        for (k, o) in offsets.iter().enumerate() {
            out.extend((k as i16 + 10).to_le_bytes());
            out.extend(i32_bytes(*o));
        }
        let table = base + out.len() as i32;
        out.extend(i32_bytes(nm));
        out.extend(i32_bytes(rb));
        out.extend(i32_bytes(table + 10));
        out.extend(&self.footer_magic);
        out
    }
}

/// The header size of a one-chunk container: its stream starts right after
/// the chunk table.
const ONE_CHUNK_HEADER: i32 = 16 + 12;

/// A container with one chunk holding `payload`.
fn container_of(payload: &[u8]) -> Vec<u8> {
    let compressed = lz4_flex::block::compress(payload);
    let header_size = ONE_CHUNK_HEADER;
    let mut out = b"SNFHFZLC".to_vec();
    out.extend(i32_bytes(1));
    out.extend(i32_bytes(header_size));
    out.extend(i32_bytes(compressed.len() as i32));
    out.extend(i32_bytes(payload.len() as i32));
    out.extend(i32_bytes(header_size + compressed.len() as i32));
    out.extend(compressed);
    out
}

fn vl(name: u16, ty: u16, value: &[u8]) -> Vec<u8> {
    let mut r = b"VL".to_vec();
    r.extend(name.to_le_bytes());
    r.extend(ty.to_le_bytes());
    r.extend(value);
    r
}

fn bs(name: u16) -> Vec<u8> {
    let mut r = b"BS".to_vec();
    r.extend(name.to_le_bytes());
    r
}

fn single_value(ty: &str, value: &[u8]) -> TypedValue {
    let payload = PayloadBuilder::new(&["v", ty], vec![vl(1, 2, value)]).build();
    let save = read_save_entry(payload, 0).unwrap();
    match &save.variables[0] {
        Variable::ValueLiteral(v) => v.value,
        other => panic!("not a value record: {other:?}"),
    }
}

#[test]
fn reader_reads_little_endian_values() {
    let mut rd = Reader::new(vec![0x34, 0x12, 0xff, 0xff, 0xff, 0xff, 9]);
    assert_eq!(rd.read::<u16>(), Ok(0x1234));
    assert_eq!(rd.read::<i32>(), Ok(-1));
    assert_eq!(rd.read::<u8>(), Ok(9));
    assert_eq!(rd.read::<u8>(), Err(DecodeError::Truncated));
    assert_eq!(rd.pos, 7);
}

#[test]
fn reader_read_bytes_and_truncation() {
    let mut rd = Reader::new(vec![1, 2, 3, 4]);
    assert_eq!(rd.read_bytes(3), Ok(vec![1, 2, 3]));
    assert_eq!(rd.read_bytes(2), Err(DecodeError::Truncated));
    assert_eq!(rd.pos, 3);
    assert_eq!(rd.read_bytes(1), Ok(vec![4]));
}

#[test]
fn reader_seeks_within_bounds_only() {
    let mut rd = Reader::new(vec![0; 10]);
    assert_eq!(rd.seek(SeekFrom::End(-6)), Ok(4));
    assert_eq!(rd.seek(SeekFrom::Current(3)), Ok(7));
    assert_eq!(rd.seek(SeekFrom::Start(10)), Ok(10));
    assert_eq!(rd.seek(SeekFrom::Start(11)), Err(DecodeError::OutOfRange));
    assert_eq!(rd.seek(SeekFrom::Current(-11)), Err(DecodeError::OutOfRange));
    assert_eq!(rd.pos, 10);
}

#[test]
fn reader_reads_signed_and_wide_values() {
    let mut rd = Reader::new(vec![0xfe, 0xff, 1, 0, 0, 0, 0, 0, 0, 0x80]);
    assert_eq!(rd.read::<i16>(), Ok(-2));
    assert_eq!(rd.read::<i64>(), Ok(i64::MIN + 1));
}

#[test]
fn empty_save_decodes_to_no_variables() {
    let payload = PayloadBuilder::new(&[], vec![]).build_at(ONE_CHUNK_HEADER);
    let data = container_of(&payload);
    let save = decode_save(data).unwrap();
    assert!(save.variables.is_empty());
    assert!(save.index.is_empty());
    assert_eq!(save.strings, vec![String::new()]);
    assert_eq!(save.layout.header.type_code1, 7);
}

#[test]
fn wrong_inner_magic_in_container_fails() {
    let mut b = PayloadBuilder::new(&[], vec![]);
    b.inner_magic = b"SAV4".to_vec();
    let data = container_of(&b.build_at(ONE_CHUNK_HEADER));
    assert_eq!(decode_save(data), Err(DecodeError::BadInnerMagic));
}

#[test]
fn payload_length_is_header_plus_chunks() {
    let first = vec![5u8; 40];
    let second: Vec<u8> = (0..30).collect();
    let c1 = lz4_flex::block::compress(&first);
    let c2 = lz4_flex::block::compress(&second);
    let header_size: i32 = 16 + 24;
    let mut data = b"SNFHFZLC".to_vec();
    data.extend(i32_bytes(2));
    data.extend(i32_bytes(header_size));
    for (c, d) in [(&c1, &first), (&c2, &second)] {
        data.extend(i32_bytes(c.len() as i32));
        data.extend(i32_bytes(d.len() as i32));
        data.extend(i32_bytes(0));
    }
    data.extend(&c1);
    data.extend(&c2);
    let c = decode_container(data).unwrap();
    assert_eq!(c.payload.len(), 40 + 40 + 30);
    assert_eq!(&c.payload[..40], &[0u8; 40][..]);
    assert_eq!(&c.payload[40..80], &first[..]);
    assert_eq!(&c.payload[80..], &second[..]);
    assert_eq!(
        c.chunks[1],
        ChunkDescriptor { compressed_size: c2.len() as i32, decompressed_size: 30, end_chunk_offset: 0 }
    );
}

#[test]
fn chunk_with_wrong_declared_size_fails() {
    let data = b"hello hello hello hello".to_vec();
    let c = lz4_flex::block::compress(&data);
    assert_eq!(decompress_chunk(&c, data.len() as i32), Ok(data.clone()));
    assert_eq!(decompress_chunk(&c, data.len() as i32 + 1), Err(DecodeError::DecompressionMismatch));
    assert_eq!(decompress_chunk(&c, data.len() as i32 - 1), Err(DecodeError::DecompressionMismatch));
    assert_eq!(decompress_chunk(&c, -1), Err(DecodeError::DecompressionMismatch));
}

#[test]
fn container_with_wrong_magic_fails() {
    let mut data = container_of(&PayloadBuilder::new(&[], vec![]).build_at(ONE_CHUNK_HEADER));
    data[0] = b'X';
    assert_eq!(decode_save(data), Err(DecodeError::BadMagic));
}

#[test]
fn container_cut_short_is_truncated() {
    let data = container_of(&PayloadBuilder::new(&[], vec![]).build_at(ONE_CHUNK_HEADER));
    assert_eq!(decode_container(data[..20].to_vec()).map(|c| c.payload), Err(DecodeError::Truncated));
    assert_eq!(decode_container(data[..6].to_vec()).map(|c| c.payload), Err(DecodeError::Truncated));
    let n = data.len();
    assert_eq!(decode_container(data[..n - 1].to_vec()).map(|c| c.payload), Err(DecodeError::Truncated));
}

#[test]
fn container_header_size_past_end_is_out_of_range() {
    let mut data = container_of(&PayloadBuilder::new(&[], vec![]).build_at(ONE_CHUNK_HEADER));
    data[12..16].copy_from_slice(&i32_bytes(10_000));
    assert_eq!(decode_container(data).map(|c| c.payload), Err(DecodeError::OutOfRange));
}

#[test]
fn string_pool_round_trip() {
    let strings = ["a", "h\u{e9}llo", "", "CJournalManager"];
    let payload = PayloadBuilder::new(&strings, vec![]).build();
    let save = read_save_entry(payload, 0).unwrap();
    assert_eq!(save.strings.len(), strings.len() + 1);
    assert_eq!(save.strings[0], "");
    for (i, s) in strings.iter().enumerate() {
        assert_eq!(save.strings[i + 1], *s);
    }
}

#[test]
fn variable_index_keeps_file_order() {
    let records = vec![bs(1), bs(2), bs(1)];
    let payload = PayloadBuilder::new(&["x", "y"], records).build();
    let save = read_save_entry(payload, 0).unwrap();
    let offsets: Vec<i32> = save.index.iter().map(|e| e.offset).collect();
    assert_eq!(offsets, vec![16, 20, 24]);
    assert_eq!(save.index[2], VarIndex { size: 12, offset: 24 });
    let names: Vec<String> = save
        .variables
        .iter()
        .map(|v| match v {
            Variable::BoundSimple(b) => b.name.clone(),
            other => panic!("{other:?}"),
        })
        .collect();
    assert_eq!(names, vec!["x", "y", "x"]);
}

#[test]
fn decoding_twice_gives_the_same_result() {
    let payload = PayloadBuilder::new(&["n", "Int32"], vec![vl(1, 2, &i32_bytes(-5)), bs(1)])
        .build_at(ONE_CHUNK_HEADER);
    let data = container_of(&payload);
    let first = decode_save(data.clone());
    let second = decode_save(data);
    assert_eq!(first, second);
    assert!(first.is_ok());
}

#[test]
fn bad_footer_magic_fails() {
    let mut b = PayloadBuilder::new(&[], vec![]);
    b.footer_magic = b"SF".to_vec();
    assert_eq!(read_save_entry(b.build(), 0), Err(DecodeError::BadFooterMagic));
}

#[test]
fn bad_inner_magic_fails() {
    let mut b = PayloadBuilder::new(&[], vec![]);
    b.inner_magic = b"XAV3".to_vec();
    assert_eq!(read_save_entry(b.build(), 0), Err(DecodeError::BadInnerMagic));
}

#[test]
fn bad_section_tags_fail() {
    let mut b = PayloadBuilder::new(&[], vec![]);
    b.names_tag = b"NN".to_vec();
    assert_eq!(read_save_entry(b.build(), 0), Err(DecodeError::BadSectionMagic));
    let mut b = PayloadBuilder::new(&[], vec![]);
    b.index_tag = b"RC".to_vec();
    assert_eq!(read_save_entry(b.build(), 0), Err(DecodeError::BadSectionMagic));
}

#[test]
fn bad_pool_magic_fails() {
    let mut b = PayloadBuilder::new(&["a"], vec![]);
    b.pool_open = b"MANX".to_vec();
    assert_eq!(read_save_entry(b.build(), 0), Err(DecodeError::BadPoolMagic));
}

#[test]
fn nonzero_pool_reserved_field_fails() {
    let mut b = PayloadBuilder::new(&["a"], vec![]);
    b.pool_reserved = 1;
    assert_eq!(read_save_entry(b.build(), 0), Err(DecodeError::UnexpectedValue));
}

#[test]
fn invalid_utf8_in_pool_fails() {
    let mut b = PayloadBuilder::new(&[], vec![]);
    b.strings = vec![vec![0xff, 0xfe]];
    assert_eq!(read_save_entry(b.build(), 0), Err(DecodeError::InvalidUtf8));
}

#[test]
fn name_index_past_pool_fails() {
    let payload = PayloadBuilder::new(&["a"], vec![bs(2)]).build();
    assert_eq!(read_save_entry(payload, 0), Err(DecodeError::IndexOutOfBounds));
}

#[test]
fn short_payload_fails() {
    assert_eq!(read_save_entry(vec![0; 3], 0), Err(DecodeError::Truncated));
    assert_eq!(read_save_entry(vec![0; 3], 4), Err(DecodeError::OutOfRange));
}

#[test]
fn float_value_keeps_its_bits() {
    let v = single_value("Float", &3.14f32.to_le_bytes());
    match v {
        TypedValue::Float(bits) => assert_eq!(f32::from_bits(bits).to_string(), "3.14"),
        other => panic!("{other:?}"),
    }
}

#[test]
fn unknown_type_gives_empty_value_and_decode_succeeds() {
    let payload =
        PayloadBuilder::new(&["v", "UnknownFutureType"], vec![vl(1, 2, &[1, 2, 3, 4]), bs(1)]).build();
    let save = read_save_entry(payload, 0).unwrap();
    assert_eq!(
        save.variables[0],
        Variable::ValueLiteral(ValueLiteral {
            name: "v".to_string(),
            ty: "UnknownFutureType".to_string(),
            value: TypedValue::Empty,
            size: 4,
            offset: 16,
        })
    );
    assert_eq!(
        save.variables[1],
        Variable::BoundSimple(BoundSimple { name: "v".to_string(), size: 4, offset: 26 })
    );
}

#[test]
fn primitive_values_decode() {
    assert_eq!(single_value("Uint8", &[200]), TypedValue::Uint8(200));
    assert_eq!(single_value("Bool", &[1]), TypedValue::Bool(true));
    assert_eq!(single_value("Bool", &[2]), TypedValue::Bool(false));
    assert_eq!(single_value("Uint16", &[0x01, 0x02]), TypedValue::Uint16(0x0201));
    assert_eq!(single_value("Int16", &[0xff, 0xff]), TypedValue::Int16(-1));
    assert_eq!(single_value("Uint32", &[0xff, 0xff, 0xff, 0xff]), TypedValue::Uint32(u32::MAX));
    assert_eq!(single_value("Int32", &i32_bytes(-70000)), TypedValue::Int32(-70000));
    assert_eq!(single_value("LocalizedString", &i32_bytes(123456)), TypedValue::LocalizedString(123456));
    assert_eq!(single_value("Uint64", &(-3i64).to_le_bytes()), TypedValue::Uint64(-3));
    assert_eq!(
        single_value("Double", &2.5f64.to_le_bytes()),
        TypedValue::Double(2.5f64.to_bits())
    );
}

#[test]
fn compound_families_give_placeholders() {
    assert_eq!(single_value("array:2,0,Int32", &[]), TypedValue::Array);
    assert_eq!(single_value("handle:CEntity", &[]), TypedValue::Handle);
    assert_eq!(single_value("soft:CEntityTemplate", &[]), TypedValue::Soft);
}

#[test]
fn value_past_end_is_truncated() {
    let payload = PayloadBuilder::new(&["v", "Int32"], vec![]).build();
    let mut rd = Reader::new(payload);
    let n = rd.data.len() as u64;
    rd.seek(SeekFrom::Start(n - 2)).unwrap();
    assert_eq!(witcher_save::value::read_value(&mut rd, "Int32"), Err(DecodeError::Truncated));
}

#[test]
fn other_tags_are_unparsed_or_unknown() {
    let payload = PayloadBuilder::new(&["a"], vec![b"SX".to_vec(), b"ZZ".to_vec()]).build();
    let save = read_save_entry(payload, 0).unwrap();
    assert_eq!(save.variables[0], Variable::Unparsed(b"SX".to_vec()));
    assert_eq!(save.variables[1], Variable::Unknown(b"ZZ".to_vec()));
}

#[test]
fn values_leave_the_cursor_after_their_bytes() {
    let mut rd = Reader::new(3.14f32.to_le_bytes().to_vec());
    assert_eq!(
        witcher_save::value::read_value(&mut rd, "Float"),
        Ok(TypedValue::Float(3.14f32.to_bits()))
    );
    assert_eq!(rd.pos, 4);

    let mut rd = Reader::new(vec![0xff; 8]);
    assert_eq!(witcher_save::value::read_value(&mut rd, "Uint64"), Ok(TypedValue::Uint64(-1)));
    assert_eq!(rd.pos, 8);

    let mut rd = Reader::new(vec![0x2a, 0, 0, 0, 7]);
    assert_eq!(
        witcher_save::value::read_value(&mut rd, "LocalizedString"),
        Ok(TypedValue::LocalizedString(42))
    );
    assert_eq!(rd.pos, 4);

    let mut rd = Reader::new(vec![2]);
    assert_eq!(witcher_save::value::read_value(&mut rd, "Bool"), Ok(TypedValue::Bool(false)));
    assert_eq!(rd.pos, 1);

    let mut rd = Reader::new(vec![]);
    assert_eq!(witcher_save::value::read_value(&mut rd, "handle:CEntity"), Ok(TypedValue::Handle));
    assert_eq!(witcher_save::value::read_value(&mut rd, "UnknownFutureType"), Ok(TypedValue::Empty));
    assert_eq!(rd.pos, 0);
}

#[test]
fn records_leave_the_cursor_after_their_fields() {
    let strings = vec![String::new(), "pi".to_string(), "Float".to_string(), "x".to_string()];
    let mut data = vl(1, 2, &3.14f32.to_le_bytes());
    data.extend(bs(3));
    data.extend(b"PO");
    data.extend(vl(3, 3, &[]));
    let mut rd = Reader::new(data);
    let read = |rd: &mut Reader, offset: i32| {
        witcher_save::record::read_variable(rd, &VarIndex { size: 0, offset }, &strings)
    };
    assert!(matches!(read(&mut rd, 0), Ok(Variable::ValueLiteral(_))));
    assert_eq!(rd.pos, 10);
    assert!(matches!(read(&mut rd, 10), Ok(Variable::BoundSimple(_))));
    assert_eq!(rd.pos, 14);
    assert_eq!(read(&mut rd, 14), Ok(Variable::Unparsed(b"PO".to_vec())));
    assert_eq!(rd.pos, 16);
    assert_eq!(
        read(&mut rd, 16),
        Ok(Variable::ValueLiteral(ValueLiteral {
            name: "x".to_string(),
            ty: "x".to_string(),
            value: TypedValue::Empty,
            size: 4,
            offset: 16,
        }))
    );
    assert_eq!(rd.pos, 22);
}

#[test]
fn overlong_chunk_is_refused_before_decoding() {
    let mut crafted = vec![0xf0u8];
    crafted.extend(std::iter::repeat(0xffu8).take(16_843_009));
    crafted.push(1);
    assert_eq!(decompress_chunk(&crafted, 100), Err(DecodeError::ChunkTooLarge));
    let limit = witcher_save::container::MAX_COMPRESSED_CHUNK;
    assert_eq!(decompress_chunk(&vec![0u8; limit + 1], 10), Err(DecodeError::ChunkTooLarge));
    assert_eq!(decompress_chunk(&vec![0u8; limit], 10), Err(DecodeError::DecompressionMismatch));
}
