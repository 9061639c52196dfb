use delorean_tsm::{check_column_lengths, Block, ErrorKind, InfluxID, TSMBlockReader, TSMIndexReader};

fn series_key(field: &str) -> Vec<u8> {
    let mut k = Vec::new();
    k.extend_from_slice(&0x05c1_9117_091a_1000u64.to_be_bytes());
    k.extend_from_slice(&0x05c1_9117_091a_1001u64.to_be_bytes());
    k.extend_from_slice(&[0x2C, 0x00, 0x3D]);
    k.extend_from_slice(b"cpu,host=a,\xff=");
    k.extend_from_slice(field.as_bytes());
    k.extend_from_slice(b"#!~#");
    k.extend_from_slice(field.as_bytes());
    k
}

fn push_series(out: &mut Vec<u8>, key: &[u8], block_type: u8, blocks: &[(i64, i64, u64, u32)]) {
    out.extend_from_slice(&(key.len() as u16).to_be_bytes());
    out.extend_from_slice(key);
    out.push(block_type);
    out.extend_from_slice(&(blocks.len() as u16).to_be_bytes());
    for &(min, max, off, size) in blocks {
        out.extend_from_slice(&min.to_be_bytes());
        out.extend_from_slice(&max.to_be_bytes());
        out.extend_from_slice(&off.to_be_bytes());
        out.extend_from_slice(&size.to_be_bytes());
    }
}

fn file_with_index(data_len: usize, index: &[u8]) -> Vec<u8> {
    let mut f = vec![0u8; data_len];
    f.extend_from_slice(index);
    f.extend_from_slice(&(data_len as u64).to_be_bytes());
    f
}

#[test]
fn index_walk_yields_every_block() {
    let mut index = Vec::new();
    push_series(&mut index, &series_key("usage"), 0, &[(-5, 10, 0, 20), (11, 30, 20, 20)]);
    push_series(&mut index, &series_key("count"), 1, &[(1, 2, 40, 10)]);
    let f = file_with_index(50, &index);
    let len = f.len();
    let mut r = TSMIndexReader::try_new(f, len).unwrap();
    assert_eq!(r.curr_offset, 50);

    let mut got = Vec::new();
    while let Some(e) = r.next() {
        got.push(e.unwrap());
    }
    assert_eq!(got.len(), 3);
    assert_eq!(got[0].curr_block, 1);
    assert_eq!(got[1].curr_block, 2);
    assert_eq!(got[2].curr_block, 1);
    assert_eq!(got[0].count, 2);
    assert_eq!(got[2].count, 1);
    assert_eq!(got[0].block, Block { min_time: -5, max_time: 10, offset: 0, size: 20 });
    assert_eq!(got[1].block, Block { min_time: 11, max_time: 30, offset: 20, size: 20 });
    assert_eq!(got[2].block_type, 1);
    assert_eq!(got[1].key, got[0].key);
    for e in &got {
        assert_eq!(e.org_id(), InfluxID::new_str("05c19117091a1000").unwrap());
        assert_eq!(e.bucket_id(), InfluxID::new_str("05c19117091a1001").unwrap());
    }
    assert_eq!(got[0].parse_key().unwrap().field_key, "usage");
    assert_eq!(got[2].parse_key().unwrap().field_key, "count");
    assert_eq!(got[0].parse_key().unwrap().tagset, vec![(String::from("host"), String::from("a"))]);
    assert!(r.next().is_none());
}

#[test]
fn empty_index_yields_nothing() {
    let f = file_with_index(16, &[]);
    let len = f.len();
    let mut r = TSMIndexReader::try_new(f, len).unwrap();
    assert!(r.next().is_none());
}

#[test]
fn index_offset_past_end_fails_with_io() {
    let mut f = vec![0u8; 16];
    f.extend_from_slice(&1000u64.to_be_bytes());
    let len = f.len();
    let mut r = TSMIndexReader::try_new(f, len).unwrap();
    let e = r.next().unwrap().unwrap_err();
    assert_eq!(e.kind, ErrorKind::Io);
    assert!(r.next().is_none());
}

#[test]
fn file_shorter_than_trailer_fails() {
    let e = TSMIndexReader::try_new(vec![0u8; 7], 7).unwrap_err();
    assert_eq!(e.kind, ErrorKind::Io);
    let e = TSMIndexReader::try_new(vec![0u8; 8], 9).unwrap_err();
    assert_eq!(e.kind, ErrorKind::Io);
}

#[test]
fn index_rejects_zero_count() {
    let mut index = Vec::new();
    push_series(&mut index, &series_key("usage"), 0, &[]);
    index.extend_from_slice(&[0u8; 28]);
    let f = file_with_index(8, &index);
    let len = f.len();
    let mut r = TSMIndexReader::try_new(f, len).unwrap();
    assert_eq!(r.next().unwrap().unwrap_err().kind, ErrorKind::Decode);
}

#[test]
fn index_rejects_short_key() {
    let mut index = Vec::new();
    push_series(&mut index, &[7u8; 16], 0, &[(0, 1, 0, 4)]);
    let f = file_with_index(8, &index);
    let len = f.len();
    let mut r = TSMIndexReader::try_new(f, len).unwrap();
    assert_eq!(r.next().unwrap().unwrap_err().kind, ErrorKind::Decode);
}

#[test]
fn index_rejects_inconsistent_block() {
    let mut index = Vec::new();
    push_series(&mut index, &series_key("usage"), 0, &[(5, 1, 0, 4)]);
    let f = file_with_index(8, &index);
    let len = f.len();
    let mut r = TSMIndexReader::try_new(f, len).unwrap();
    assert_eq!(r.next().unwrap().unwrap_err().kind, ErrorKind::Decode);

    let mut index = Vec::new();
    push_series(&mut index, &series_key("usage"), 0, &[(0, 1, 4, 5)]);
    let f = file_with_index(8, &index);
    let len = f.len();
    let mut r = TSMIndexReader::try_new(f, len).unwrap();
    assert_eq!(r.next().unwrap().unwrap_err().kind, ErrorKind::Decode);
}

#[test]
fn index_truncated_record_fails_with_io() {
    let mut index = Vec::new();
    push_series(&mut index, &series_key("usage"), 0, &[(0, 1, 0, 4)]);
    index.truncate(index.len() - 11);
    let f = file_with_index(8, &index);
    let len = f.len();
    let mut r = TSMIndexReader::try_new(f, len).unwrap();
    assert_eq!(r.next().unwrap().unwrap_err().kind, ErrorKind::Io);
}

fn payload(block_type: u8, ts_len_varint: &[u8], ts: &[u8], values: &[u8]) -> Vec<u8> {
    let mut p = vec![0xde, 0xad, 0xbe, 0xef, block_type];
    p.extend_from_slice(ts_len_varint);
    p.extend_from_slice(ts);
    p.extend_from_slice(values);
    p
}

#[test]
fn block_split_into_streams() {
    let mut data = vec![9u8; 3];
    let p = payload(1, &[3], &[1, 2, 3], &[4, 5]);
    data.extend_from_slice(&p);
    let r = TSMBlockReader::new(data);
    let b = Block { min_time: 0, max_time: 0, offset: 3, size: p.len() as u32 };
    let got = r.read_block(&b).unwrap();
    assert_eq!(got.block_type, 1);
    assert_eq!(got.ts, vec![1, 2, 3]);
    assert_eq!(got.values, vec![4, 5]);
}

#[test]
fn block_with_two_byte_ts_length() {
    let ts: Vec<u8> = (0..200u32).map(|i| i as u8).collect();
    let p = payload(0, &[0xc8, 0x01], &ts, &[7]);
    let len = p.len() as u32;
    let r = TSMBlockReader::new(p);
    let got = r.read_block(&Block { min_time: 0, max_time: 0, offset: 0, size: len }).unwrap();
    assert_eq!(got.block_type, 0);
    assert_eq!(got.ts, ts);
    assert_eq!(got.values, vec![7]);
}

#[test]
fn block_unsupported_types() {
    for t in [2u8, 3, 4, 9] {
        let p = payload(t, &[1], &[1], &[2]);
        let len = p.len() as u32;
        let r = TSMBlockReader::new(p);
        let e = r.read_block(&Block { min_time: 0, max_time: 0, offset: 0, size: len }).unwrap_err();
        assert_eq!(e.kind, ErrorKind::UnsupportedBlockType);
    }
}

#[test]
fn block_truncated_is_io() {
    let p = payload(1, &[1], &[1], &[2]);
    let len = p.len() as u32;
    let r = TSMBlockReader::new(p);
    let e = r.read_block(&Block { min_time: 0, max_time: 0, offset: 0, size: len + 1 }).unwrap_err();
    assert_eq!(e.kind, ErrorKind::Io);
    let e = r.read_block(&Block { min_time: 0, max_time: 0, offset: 100, size: 1 }).unwrap_err();
    assert_eq!(e.kind, ErrorKind::Io);
}

#[test]
fn block_malformed_is_decode() {
    let r = TSMBlockReader::new(vec![0, 0, 0, 0]);
    let e = r.read_block(&Block { min_time: 0, max_time: 0, offset: 0, size: 4 }).unwrap_err();
    assert_eq!(e.kind, ErrorKind::Decode);

    let p = payload(1, &[5], &[1], &[]);
    let len = p.len() as u32;
    let r = TSMBlockReader::new(p);
    let e = r.read_block(&Block { min_time: 0, max_time: 0, offset: 0, size: len }).unwrap_err();
    assert_eq!(e.kind, ErrorKind::Decode);

    let p = payload(1, &[0x80, 0x80], &[], &[]);
    let len = p.len() as u32;
    let r = TSMBlockReader::new(p);
    let e = r.read_block(&Block { min_time: 0, max_time: 0, offset: 0, size: len }).unwrap_err();
    assert_eq!(e.kind, ErrorKind::Decode);
}

#[test]
fn column_lengths() {
    assert!(check_column_lengths(507, 507).is_ok());
    assert!(check_column_lengths(0, 0).is_ok());
    assert!(check_column_lengths(1000, 1000).is_ok());
    assert_eq!(check_column_lengths(1001, 1001).unwrap_err().kind, ErrorKind::Decode);
    assert_eq!(check_column_lengths(3, 4).unwrap_err().kind, ErrorKind::Decode);
}

#[test]
fn block_varint_overflow_is_decode() {
    let p = payload(1, &[0x80, 0x80, 0x80, 0x80, 0x80, 0x80, 0x80, 0x80, 0x80, 0x02], &[], &[1]);
    let len = p.len() as u32;
    let r = TSMBlockReader::new(p);
    let e = r.read_block(&Block { min_time: 0, max_time: 0, offset: 0, size: len }).unwrap_err();
    assert_eq!(e.kind, ErrorKind::Decode);
}

#[test]
fn block_unknown_marker_named_in_description() {
    for (t, text) in [(9u8, "unsupported block type 9 at offset 0"), (200u8, "unsupported block type 200 at offset 0"), (42u8, "unsupported block type 42 at offset 0")] {
        let p = payload(t, &[1], &[1], &[2]);
        let len = p.len() as u32;
        let r = TSMBlockReader::new(p);
        let e = r.read_block(&Block { min_time: 0, max_time: 0, offset: 0, size: len }).unwrap_err();
        assert_eq!(e.kind, ErrorKind::UnsupportedBlockType);
        assert_eq!(e.description, text);
    }
}

#[test]
fn org_id_from_eight_byte_key() {
    let e = delorean_tsm::IndexEntry {
        key: 0x0102_0304_0506_0708u64.to_be_bytes().to_vec(),
        block_type: 0,
        count: 1,
        block: Block { min_time: 0, max_time: 0, offset: 0, size: 0 },
        curr_block: 1,
    };
    assert_eq!(e.org_id(), InfluxID(0x0102_0304_0506_0708));
}

#[test]
fn index_record_into_trailer_fails_with_io() {
    let mut index = Vec::new();
    push_series(&mut index, &series_key("usage"), 0, &[(0, 1, 0, 4)]);
    index.truncate(index.len() - 3);
    let f = file_with_index(8, &index);
    let len = f.len();
    let mut r = TSMIndexReader::try_new(f, len).unwrap();
    assert_eq!(r.next().unwrap().unwrap_err().kind, ErrorKind::Io);
}

#[test]
fn read_all_counts_every_block() {
    let mut index = Vec::new();
    push_series(&mut index, &series_key("usage"), 0, &[(-5, 10, 0, 20), (11, 30, 20, 20)]);
    push_series(&mut index, &series_key("count"), 1, &[(1, 2, 40, 10)]);
    let f = file_with_index(50, &index);
    let len = f.len();
    let mut r = TSMIndexReader::try_new(f, len).unwrap();
    let all = r.read_all().unwrap();
    assert_eq!(all.len(), 3);
    let declared: usize = all.iter().filter(|e| e.curr_block == 1).map(|e| e.count as usize).sum();
    assert_eq!(declared, 3);
}

#[test]
fn read_all_index_ending_inside_series() {
    let mut index = Vec::new();
    push_series(&mut index, &series_key("usage"), 0, &[(-5, 10, 0, 20), (11, 30, 20, 20)]);
    index.truncate(index.len() - 28);
    let f = file_with_index(50, &index);
    let len = f.len();
    let mut r = TSMIndexReader::try_new(f, len).unwrap();
    assert_eq!(r.read_all().unwrap_err().kind, ErrorKind::Decode);
}

#[test]
fn read_all_empty_index() {
    let f = file_with_index(16, &[]);
    let len = f.len();
    let mut r = TSMIndexReader::try_new(f, len).unwrap();
    assert!(r.read_all().unwrap().is_empty());
}

#[test]
fn error_descriptions_name_offsets() {
    let p = payload(1, &[1], &[1], &[2]);
    let r = TSMBlockReader::new(p);
    let e = r.read_block(&Block { min_time: 0, max_time: 0, offset: 100, size: 1 }).unwrap_err();
    assert_eq!(e.description, "block lies past the end of the file at offset 100");

    let mut data = vec![0u8; 7];
    data.extend_from_slice(&payload(2, &[1], &[1], &[2]));
    let r = TSMBlockReader::new(data);
    let e = r.read_block(&Block { min_time: 0, max_time: 0, offset: 7, size: 8 }).unwrap_err();
    assert_eq!(e.description, "bool block type unsupported at offset 7");

    let mut f = vec![0u8; 16];
    f.extend_from_slice(&1000u64.to_be_bytes());
    let len = f.len();
    let mut ir = TSMIndexReader::try_new(f, len).unwrap();
    let e = ir.next().unwrap().unwrap_err();
    assert_eq!(e.description, "index ends inside a series header at offset 1000");
}

#[test]
fn read_all_reports_offset_of_unfinished_series() {
    let mut index = Vec::new();
    push_series(&mut index, &series_key("usage"), 0, &[(-5, 10, 0, 20), (11, 30, 20, 20)]);
    index.truncate(index.len() - 28);
    let end = 50 + index.len();
    let f = file_with_index(50, &index);
    let len = f.len();
    let mut r = TSMIndexReader::try_new(f, len).unwrap();
    let e = r.read_all().unwrap_err();
    assert_eq!(e.description, format!("index ends inside a series at offset {}", end));
}
