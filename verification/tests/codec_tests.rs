use rnacos_raft::common::byte_utils::{bin_to_id, bin_to_id_result, id_to_bin, IdBytesError};
use rnacos_raft::common::protobuf_utils::{
    inner_sizeof_varint, read_varint64, write_varint64, MessageBufReader, VarintError,
};
use rnacos_raft::raft::filestore::index_record::{decode_raft_index, encode_raft_index, RaftIndex};
use rnacos_raft::raft::filestore::log::{decode_log_record, encode_log_record, DecodeError};
use rnacos_raft::raft::filestore::model::{LogIndexHeaderDo, LogRecordDto, SnapshotRecordDto, HeaderError};
use rnacos_raft::raft::filestore::records::{
    decode_log_range, decode_node_addr, decode_snapshot_range, encode_log_range, encode_node_addr,
    encode_snapshot_range, LogRange, NodeAddrItem, SnapshotRange,
};
use rnacos_raft::raft::filestore::snapshot_record::{
    decode_snapshot_header, decode_snapshot_record, encode_snapshot_header, encode_snapshot_record,
    SnapshotHeader,
};
use rnacos_raft::transfer::model::{TransferFormatError, TransferPrefix};

#[test]
fn varint_known_bytes() {
    assert_eq!(write_varint64(0), vec![0u8]);
    assert_eq!(write_varint64(1), vec![1u8]);
    assert_eq!(write_varint64(127), vec![0x7f]);
    assert_eq!(write_varint64(128), vec![0x80, 0x01]);
    assert_eq!(write_varint64(300), vec![0xac, 0x02]);
    assert_eq!(write_varint64(u64::MAX).len(), 10);
    assert_eq!(inner_sizeof_varint(300), 2);
    assert_eq!(inner_sizeof_varint(u64::MAX), 10);
}

#[test]
fn varint_roundtrip_values() {
    for v in [0u64, 1, 127, 128, 255, 16384, 1 << 35, u64::MAX - 1, u64::MAX] {
        let bytes = write_varint64(v);
        assert_eq!(read_varint64(&bytes), Ok(v));
    }
}

#[test]
fn varint_errors() {
    assert_eq!(read_varint64(&[]), Err(VarintError::UnexpectedEnd));
    assert_eq!(read_varint64(&[0x80, 0x80]), Err(VarintError::UnexpectedEnd));
    assert_eq!(read_varint64(&[0xff; 11]), Err(VarintError::TooLong));
}

#[test]
fn id_bytes_are_big_endian() {
    assert_eq!(id_to_bin(0x0102030405060708), vec![1, 2, 3, 4, 5, 6, 7, 8]);
    assert_eq!(bin_to_id(&[1, 2, 3, 4, 5, 6, 7, 8, 9]), 0x0102030405060708);
    assert_eq!(bin_to_id_result(&[1, 2, 3]), Err(IdBytesError::TooShort));
    assert_eq!(bin_to_id_result(&id_to_bin(42)), Ok(42));
}

#[test]
fn log_record_roundtrip() {
    let record = LogRecordDto { index: 7, term: 3, value: b"hello".to_vec() };
    let frame = encode_log_record(&record);
    // body: tag 8 index, tag 16 term, tag 42 value
    assert_eq!(frame, vec![11, 8, 7, 16, 3, 42, 5, b'h', b'e', b'l', b'l', b'o']);
    let back = decode_log_record(&frame).unwrap();
    assert_eq!(back.index, 7);
    assert_eq!(back.term, 3);
    assert_eq!(back.value, b"hello".to_vec());
}

#[test]
fn log_record_empty_and_errors() {
    let empty = LogRecordDto { index: 0, term: 0, value: vec![] };
    assert_eq!(encode_log_record(&empty), vec![0u8]);
    let back = decode_log_record(&[0u8]).unwrap();
    assert_eq!((back.index, back.term, back.value.len()), (0, 0, 0));
    assert_eq!(decode_log_record(&[5, 8]).err(), Some(DecodeError::BadFrame));
    // a varint field cut short inside the body
    assert_eq!(decode_log_record(&[1, 8]).err(), Some(DecodeError::BadField));
}

#[test]
fn log_index_header_bytes() {
    let header = LogIndexHeaderDo::new();
    assert_eq!(header.magic, 0x42313644);
    assert_eq!(header.data_area_index, 4096);
    assert_eq!(header.index_interval, 128);
    let bytes = header.to_bytes();
    assert_eq!(bytes.len(), 32);
    assert_eq!(&bytes[0..4], &[0x42, 0x31, 0x36, 0x44]);
    assert_eq!(&bytes[22..24], &[0x10, 0x00]);
    let back = LogIndexHeaderDo::from_bytes(&bytes).unwrap();
    assert_eq!(back.magic, header.magic);
    assert_eq!(back.data_area_index, 4096);
    assert!(matches!(LogIndexHeaderDo::from_bytes(&bytes[..31]), Err(HeaderError::TooShort)));
}

#[test]
fn log_range_known_bytes_and_roundtrip() {
    let r = LogRange {
        id: 1,
        pre_term: 2,
        start_index: 3,
        record_count: 4,
        split_off_index: 0,
        is_close: true,
        mark_remove: false,
    };
    let body = encode_log_range(&r);
    assert_eq!(body, vec![8, 1, 16, 2, 24, 3, 32, 4, 48, 1]);
    assert_eq!(decode_log_range(&body, 0, body.len()), Some(r));
    assert_eq!(encode_log_range(&LogRange::default()), Vec::<u8>::new());
}

#[test]
fn log_range_reads_bool_and_skips_unknown() {
    // is_close written as 2 still reads true; field 15 (tag 120) is skipped
    let body = vec![48u8, 2, 120, 9, 8, 5];
    let r = decode_log_range(&body, 0, body.len()).unwrap();
    assert!(r.is_close);
    assert_eq!(r.id, 5);
    // a broken varint makes the body unreadable
    assert_eq!(decode_log_range(&[8u8, 0x80], 0, 2), None);
}

#[test]
fn snapshot_range_roundtrip() {
    let r = SnapshotRange { id: 9, end_index: 1000 };
    let body = encode_snapshot_range(&r);
    assert_eq!(body, vec![8, 9, 16, 0xe8, 0x07]);
    assert_eq!(decode_snapshot_range(&body, 0, body.len()), Some(r));
}

#[test]
fn node_addr_roundtrip_and_bad_utf8() {
    let n = NodeAddrItem { id: 2, addr: "127.0.0.1:9848".to_string() };
    let body = encode_node_addr(&n);
    let back = decode_node_addr(&body, 0, body.len()).unwrap();
    assert_eq!(back.id, 2);
    assert_eq!(back.addr, "127.0.0.1:9848");
    let bad = vec![18u8, 1, 0xff];
    assert!(decode_node_addr(&bad, 0, bad.len()).is_none());
}

fn sample_index() -> RaftIndex {
    RaftIndex {
        logs: vec![
            LogRange { id: 0, pre_term: 0, start_index: 1, record_count: 10, split_off_index: 0, is_close: true, mark_remove: false },
            LogRange { id: 1, pre_term: 2, start_index: 11, record_count: 0, split_off_index: 0, is_close: false, mark_remove: false },
        ],
        current_log: 1,
        snapshots: vec![SnapshotRange { id: 1, end_index: 5 }],
        last_snapshot: 1,
        last_snapshot_index: 5,
        last_snapshot_term: 2,
        current_term: 3,
        voted_for: 1,
        member: vec![1, 2, 3],
        member_after_consensus: vec![],
        node_addrs: vec![
            NodeAddrItem { id: 1, addr: "10.0.0.1:9848".to_string() },
            NodeAddrItem { id: 2, addr: "10.0.0.2:9848".to_string() },
        ],
    }
}

#[test]
fn raft_index_roundtrip() {
    let idx = sample_index();
    let body = encode_raft_index(&idx);
    let back = decode_raft_index(&body, 0, body.len()).unwrap();
    assert_eq!(back.logs, idx.logs);
    assert_eq!(back.current_log, 1);
    assert_eq!(back.snapshots, idx.snapshots);
    assert_eq!(back.current_term, 3);
    assert_eq!(back.voted_for, 1);
    assert_eq!(back.member, vec![1, 2, 3]);
    assert!(back.member_after_consensus.is_empty());
    assert_eq!(back.node_addrs.len(), 2);
    assert_eq!(back.node_addrs[1].addr, "10.0.0.2:9848");
}

#[test]
fn raft_index_empty_body_and_packed_members() {
    let body = encode_raft_index(&RaftIndex::default());
    assert!(body.is_empty());
    let mut idx = RaftIndex::default();
    idx.member = vec![1, 300];
    let body = encode_raft_index(&idx);
    // field 9, packed: tag 74, length 3, varints 1 and 300
    assert_eq!(body, vec![74, 3, 1, 0xac, 0x02]);
    // a later packed chunk replaces the members read so far
    let twice = vec![74u8, 1, 7, 74, 1, 8];
    assert_eq!(decode_raft_index(&twice, 0, twice.len()).unwrap().member, vec![8]);
    // a broken nested log range makes the index unreadable
    let bad = vec![10u8, 2, 8, 0x80];
    assert!(decode_raft_index(&bad, 0, bad.len()).is_none());
}

#[test]
fn snapshot_header_roundtrip() {
    let h = SnapshotHeader {
        last_index: 100,
        last_term: 4,
        member: vec![1, 2],
        member_after_consensus: vec![3],
        node_addrs: vec![NodeAddrItem { id: 3, addr: "n3".to_string() }],
        extend: vec![9, 9],
    };
    let body = encode_snapshot_header(&h);
    let back = decode_snapshot_header(&body, 0, body.len()).unwrap();
    assert_eq!(back.last_index, 100);
    assert_eq!(back.last_term, 4);
    assert_eq!(back.member, vec![1, 2]);
    assert_eq!(back.member_after_consensus, vec![3]);
    assert_eq!(back.node_addrs[0].addr, "n3");
    assert_eq!(back.extend, vec![9, 9]);
}

#[test]
fn snapshot_record_roundtrip() {
    let r = SnapshotRecordDto { tree: "sequence".to_string(), key: b"k".to_vec(), value: vec![0, 1], op_type: 3 };
    let body = encode_snapshot_record(&r);
    let back = decode_snapshot_record(&body, 0, body.len()).unwrap();
    assert_eq!(back.tree, "sequence");
    assert_eq!(back.key, b"k".to_vec());
    assert_eq!(back.value, vec![0, 1]);
    assert_eq!(back.op_type, 3);
    // op_type is read modulo 2^32
    let wide = vec![48u8, 0x81, 0x80, 0x80, 0x80, 0x10];
    assert_eq!(decode_snapshot_record(&wide, 0, wide.len()).unwrap().op_type, 1);
}

#[test]
fn message_buf_reader_cuts_frames() {
    let mut reader = MessageBufReader::new();
    reader.append_next_buf(&[2, 8]);
    assert_eq!(reader.next_message_vec(), None);
    reader.append_next_buf(&[1, 1, 8]);
    assert_eq!(reader.next_message_vec(), Some(vec![2, 8, 1]));
    assert!(!reader.is_empty());
    assert_eq!(reader.next_message_vec(), Some(vec![1, 8]));
    assert!(reader.is_empty());
    assert_eq!(reader.next_message_vec(), None);
    reader.append_next_buf(&[3, 7]);
    assert!(!reader.is_empty());
    assert_eq!(reader.next_message_vec(), None);
    let mut ended = MessageBufReader::new();
    ended.append_next_buf(&[0, 1, 5]);
    assert!(ended.is_empty());
    assert_eq!(ended.next_message_vec(), None);
}

#[test]
fn transfer_prefix_bytes() {
    let p = TransferPrefix::new();
    assert_eq!(p.to_bytes(), vec![0x6e, 0x61, 0x63, 0x6f, 0, 0, 0, 0]);
    let mut data = p.to_bytes();
    data.extend_from_slice(&[1, 2, 3]);
    assert_eq!(TransferPrefix::from_bytes(&data), Ok(p));
    assert_eq!(TransferPrefix::from_bytes(&[0x6e, 0x61]), Err(TransferFormatError::TooShort));
    assert_eq!(
        TransferPrefix::from_bytes(&[0, 0, 0, 0, 0, 0, 0, 0]),
        Err(TransferFormatError::BadMagic)
    );
    assert_eq!(TransferPrefix::default(), p);
}
