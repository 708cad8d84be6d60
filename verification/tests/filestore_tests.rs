use rnacos_raft::common::idmap::IdMap;
use rnacos_raft::raft::filestore::logmanager::{
    batch_result, batch_step, get_log_range_end_index, write_result, LogWriteResult, RaftLogManager,
};
use rnacos_raft::raft::filestore::model::{LogRecordDto, SnapshotRecordDto};
use rnacos_raft::raft::filestore::raftindex::{
    encode_index_file, membership_node_list, read_index_file, IndexFileError, RaftIndexDto,
    RaftIndexError, RaftIndexInnerManager, RaftIndexManager, RaftIndexRequest, RaftIndexResponse,
};
use rnacos_raft::raft::filestore::raftlog::LogWriteMark;
use rnacos_raft::raft::filestore::raftsnapshot::{
    decode_snapshot_header_frame, decode_snapshot_record_frame, encode_snapshot_header_frame,
    encode_snapshot_record_frame, RaftSnapshotManager, RaftSnapshotRequest, RaftSnapshotResponse,
    SnapshotError, SnapshotHeaderDto, SnapshotPoll, SnapshotReadError, SnapshotReader,
};
use rnacos_raft::raft::filestore::records::{LogRange, SnapshotRange};
use rnacos_raft::raft::filestore::storecore::{
    initial_state_of_response, membership_of_response, save_hard_state_request, split_off_index, vec_to_set, write_log_result_to_result, CloseWrite,
    HardState, InitialState, LogIndexInfo, MembershipConfig, StoreError, WriteLogResult,
};

fn sample_dto() -> RaftIndexDto {
    let mut dto = RaftIndexDto::new();
    dto.logs.push(LogRange { id: 0, pre_term: 0, start_index: 1, record_count: 0, split_off_index: 0, is_close: false, mark_remove: false });
    dto.current_term = 2;
    dto.voted_for = 1;
    dto.member = vec![1, 2];
    dto.node_addrs.insert(1, "a:1".to_string());
    dto.node_addrs.insert(2, "b:2".to_string());
    dto
}

#[test]
fn index_file_roundtrip() {
    let dto = sample_dto();
    let file = encode_index_file(77, &dto);
    assert_eq!(&file[0..8], &[0, 0, 0, 0, 0, 0, 0, 77]);
    let (last_applied, back) = read_index_file(&file).unwrap();
    assert_eq!(last_applied, 77);
    assert_eq!(back.logs, dto.logs);
    assert_eq!(back.current_term, 2);
    assert_eq!(back.voted_for, 1);
    assert_eq!(back.member, vec![1, 2]);
    assert_eq!(back.node_addrs.get(2), Some(&"b:2".to_string()));
    assert_eq!(back.node_addrs.len(), 2);
}

#[test]
fn index_file_errors() {
    assert!(matches!(read_index_file(&[1, 2, 3]), Err(IndexFileError::TooShort)));
    assert!(matches!(read_index_file(&[0, 0, 0, 0, 0, 0, 0, 0, 5, 1]), Err(IndexFileError::BadFrame)));
    assert!(matches!(read_index_file(&[0, 0, 0, 0, 0, 0, 0, 0, 2, 10, 9]), Err(IndexFileError::BadIndex)));
}

#[test]
fn new_index_file_bytes() {
    let (m, bytes) = RaftIndexInnerManager::init_new();
    assert_eq!(bytes, vec![8, 0, 0, 0, 0, 0, 0, 0, 0, 0]);
    assert_eq!(m.last_applied_log, 0);
    assert!(m.applied_flush);
    assert!(m.raft_index.logs.is_empty());
}

#[test]
fn index_manager_refuses_before_load() {
    let mut mgr = RaftIndexManager { inner: None };
    let (r, e) = mgr.handle(RaftIndexRequest::SaveLastAppliedLog(3));
    assert!(matches!(r, Err(RaftIndexError::InnerEmpty)));
    assert!(e.last_applied_bytes.is_none() && e.index_frame.is_none());
    let (r, _) = mgr.handle(RaftIndexRequest::GetTargetAddr(1));
    assert!(matches!(r, Ok(RaftIndexResponse::TargetAddr(None))));
    let (r, _) = mgr.handle(RaftIndexRequest::LoadMember);
    assert!(matches!(r, Ok(RaftIndexResponse::Done)));
}

#[test]
fn index_manager_writes_and_reads() {
    let (inner, _) = RaftIndexInnerManager::init_new();
    let mut mgr = RaftIndexManager { inner: Some(inner) };
    let (r, e) = mgr.handle(RaftIndexRequest::SaveLastAppliedLog(9));
    assert!(matches!(r, Ok(RaftIndexResponse::Done)));
    assert_eq!(e.last_applied_bytes, Some(vec![0, 0, 0, 0, 0, 0, 0, 9]));
    assert!(mgr.inner.as_ref().unwrap().needs_flush());

    let (r, e) = mgr.handle(RaftIndexRequest::SaveHardState { current_term: 5, voted_for: 2 });
    assert!(matches!(r, Ok(RaftIndexResponse::Done)));
    assert!(e.notify_nodes.is_none());
    let frame = e.index_frame.unwrap();
    assert!(!mgr.inner.as_ref().unwrap().needs_flush());
    // the frame written after the 8 header bytes reads back as the state
    let mut file = vec![0, 0, 0, 0, 0, 0, 0, 9];
    file.extend_from_slice(&frame);
    let (la, back) = read_index_file(&file).unwrap();
    assert_eq!((la, back.current_term, back.voted_for), (9, 5, 2));

    let (_, e) = mgr.handle(RaftIndexRequest::AddNodeAddr(4, "d:4".to_string()));
    assert!(e.notify_nodes.unwrap().is_empty());
    let (_, e) = mgr.handle(RaftIndexRequest::SaveMember { member: vec![4, 5], member_after_consensus: None, node_addr: None });
    assert_eq!(e.notify_nodes.unwrap(), vec![(4, "d:4".to_string())]);
    match mgr.handle(RaftIndexRequest::GetTargetAddr(4)).0 {
        Ok(RaftIndexResponse::TargetAddr(a)) => assert_eq!(a, Some("d:4".to_string())),
        _ => panic!("unexpected answer"),
    }
    match mgr.handle(RaftIndexRequest::LoadIndexInfo).0 {
        Ok(RaftIndexResponse::RaftIndexInfo { raft_index, last_applied_log }) => {
            assert_eq!(last_applied_log, 9);
            assert_eq!(raft_index.member, vec![4, 5]);
            assert_eq!(raft_index.current_term, 5);
        }
        _ => panic!("unexpected answer"),
    }
    let (_, e) = mgr.handle(RaftIndexRequest::SaveSnapshots(vec![SnapshotRange { id: 1, end_index: 3 }]));
    assert!(e.index_frame.is_some());
    match mgr.handle(RaftIndexRequest::LoadMember).0 {
        Ok(RaftIndexResponse::MemberShip { member, member_after_consensus, node_addrs }) => {
            assert_eq!(member, vec![4, 5]);
            assert!(member_after_consensus.is_empty());
            assert_eq!(node_addrs.len(), 1);
        }
        _ => panic!("unexpected answer"),
    }
}

#[test]
fn membership_nodes_lists() {
    let dto = sample_dto();
    assert_eq!(membership_node_list(&dto, true), vec![(1, "a:1".to_string()), (2, "b:2".to_string())]);
    let mut dto2 = sample_dto();
    dto2.member = vec![2, 9];
    dto2.member_after_consensus = vec![1];
    assert_eq!(membership_node_list(&dto2, true), vec![(2, "b:2".to_string()), (1, "a:1".to_string())]);
    assert_eq!(membership_node_list(&dto2, false).len(), 2);
}

fn header(last_index: u64) -> SnapshotHeaderDto {
    let mut node_addrs = IdMap::new();
    node_addrs.insert(1, "a:1".to_string());
    SnapshotHeaderDto { last_index, last_term: 1, member: vec![1], member_after_consensus: vec![], node_addrs }
}

#[test]
fn snapshot_file_reads_back() {
    let h = header(10);
    let rec = SnapshotRecordDto { tree: "t".to_string(), key: b"k".to_vec(), value: b"v".to_vec(), op_type: 0 };
    let mut file = encode_snapshot_header_frame(&h);
    file.extend_from_slice(&encode_snapshot_record_frame(&rec));
    file.extend_from_slice(&encode_snapshot_record_frame(&rec));
    let back = decode_snapshot_header_frame(&encode_snapshot_header_frame(&h)).unwrap();
    assert_eq!(back.last_index, 10);
    assert_eq!(decode_snapshot_record_frame(&encode_snapshot_record_frame(&rec)).unwrap().key, b"k".to_vec());

    // read in two chunks, the first ending inside the first record
    let cut = encode_snapshot_header_frame(&h).len() + 2;
    let mut reader = SnapshotReader::init(&file[..cut]).unwrap();
    assert_eq!(reader.header.last_index, 10);
    assert!(matches!(reader.poll_record(), Ok(SnapshotPoll::NeedData)));
    reader.feed(&file[cut..]);
    let mut count = 0;
    while let Ok(SnapshotPoll::Record(r)) = reader.poll_record() {
        assert_eq!(r.tree, "t");
        count += 1;
    }
    assert_eq!(count, 2);
    reader.feed(&[]);
    assert!(matches!(reader.poll_record(), Ok(SnapshotPoll::End)));
    assert!(matches!(SnapshotReader::init(&[5, 1]), Err(SnapshotReadError::NoHeader)));
}

#[test]
fn snapshot_manager_keeps_last_two() {
    let mut m = RaftSnapshotManager::new();
    assert_eq!(m.on_index_loaded(vec![SnapshotRange { id: 1, end_index: 5 }]), Some(1));
    assert_eq!(m.on_index_loaded(vec![]), None);
    match m.handle(RaftSnapshotRequest::NewSnapshotForLoad).0 {
        Ok(RaftSnapshotResponse::NewSnapshotForLoad(id)) => assert_eq!(id, 2),
        _ => panic!("unexpected answer"),
    }
    let (_, e) = m.handle(RaftSnapshotRequest::CompleteSnapshot(SnapshotRange { id: 2, end_index: 9 }));
    assert!(e.delete_ids.is_empty());
    assert_eq!(m.snapshots.len(), 2);
    assert_eq!(e.load_header_id, Some(2));
    let (_, e) = m.handle(RaftSnapshotRequest::CompleteSnapshot(SnapshotRange { id: 3, end_index: 12 }));
    assert_eq!(e.delete_ids, vec![1]);
    assert_eq!(m.snapshots, vec![SnapshotRange { id: 2, end_index: 9 }, SnapshotRange { id: 3, end_index: 12 }]);
    assert!(matches!(e.index_requests[0], RaftIndexRequest::SaveSnapshots(_)));
    match m.handle(RaftSnapshotRequest::GetLastSnapshot).0 {
        Ok(RaftSnapshotResponse::LastSnapshot(id, h)) => {
            assert_eq!(id, Some(3));
            assert!(h.is_none());
        }
        _ => panic!("unexpected answer"),
    }
}

#[test]
fn snapshot_manager_install_saves_members() {
    let mut m = RaftSnapshotManager::new();
    m.on_header_loaded(header(4));
    let (_, e) = m.handle(RaftSnapshotRequest::InstallSnapshot { end_index: 20, snapshot_id: 7 });
    assert_eq!(m.snapshots, vec![SnapshotRange { id: 7, end_index: 20 }]);
    assert_eq!(e.index_requests.len(), 2);
    match &e.index_requests[1] {
        RaftIndexRequest::SaveMember { member, member_after_consensus, node_addr } => {
            assert_eq!(member, &vec![1]);
            assert!(member_after_consensus.is_none());
            assert_eq!(node_addr.as_ref().unwrap().len(), 1);
        }
        _ => panic!("unexpected request"),
    }
    m.building = Some(SnapshotRange { id: 8, end_index: 30 });
    assert_eq!(m.get_next_id(), Err(SnapshotError::Building));
}

#[test]
fn log_write_results() {
    let rec = LogRecordDto { index: 1, term: 1, value: vec![] };
    assert!(matches!(write_result(LogWriteMark::Success, 5, rec.clone()), LogWriteResult::Success));
    assert!(matches!(write_result(LogWriteMark::SuccessToEnd, 5, rec.clone()), LogWriteResult::SuccessToEnd(5)));
    assert!(matches!(write_result(LogWriteMark::Failure, 5, rec.clone()), LogWriteResult::Failure(5, _)));
    assert!(matches!(write_result(LogWriteMark::Error, 5, rec), LogWriteResult::Error));
    assert_eq!(batch_step(3, LogWriteMark::Success), (false, 4));
    assert_eq!(batch_step(3, LogWriteMark::Failure), (true, 3));
    assert!(matches!(batch_result(LogWriteMark::SuccessToEnd, 4, 5, 9), LogWriteResult::SuccessToEnd(9)));
    assert!(matches!(batch_result(LogWriteMark::SuccessToEnd, 2, 5, 9), LogWriteResult::FailureBatch(9, 3)));
    assert!(matches!(batch_result(LogWriteMark::Failure, 2, 5, 9), LogWriteResult::FailureBatch(9, 2)));
}

fn closed(id: u64, start: u64, count: u64) -> LogRange {
    LogRange { id, pre_term: 0, start_index: start, record_count: count, split_off_index: 0, is_close: true, mark_remove: false }
}

fn open_range(id: u64, start: u64) -> LogRange {
    LogRange { id, pre_term: 0, start_index: start, record_count: 0, split_off_index: 0, is_close: false, mark_remove: false }
}

#[test]
fn log_manager_build_opens_logs_after_snapshot() {
    assert_eq!(get_log_range_end_index(&closed(0, 1, 10)), 11);
    assert_eq!(get_log_range_end_index(&open_range(1, 11)), u64::MAX);
    let mut m = RaftLogManager::new();
    let e = m.build_log_actor(vec![closed(0, 1, 10), closed(1, 11, 10), open_range(2, 21)], Some(15));
    assert_eq!(e.open, vec![(2, 21), (1, 11)]);
    assert_eq!(m.opened, vec![false, true, true]);
    assert_eq!(m.current, Some(2));
}

#[test]
fn log_manager_switch_and_strip() {
    let mut m = RaftLogManager::new();
    m.build_log_actor(vec![open_range(0, 1)], None);
    let e = m.switch_new_log(11);
    assert_eq!(e.open, vec![(1, 11)]);
    assert_eq!(m.logs, vec![closed(0, 1, 10), open_range(1, 11)]);
    assert_eq!(m.current, Some(1));
    match &e.index_requests[0] {
        RaftIndexRequest::SaveLogs(l) => assert_eq!(l.len(), 2),
        _ => panic!("unexpected request"),
    }
    let (e, rewrite) = m.on_write_result(
        LogWriteResult::Failure(20, LogRecordDto { index: 20, term: 1, value: vec![1] }),
        true,
    );
    assert!(e.is_some());
    assert_eq!(rewrite.unwrap().index, 20);
    assert_eq!(m.logs.len(), 3);
    // stripping before the first log's end: every log is asked, later ones dropped
    let e = m.strip_log_to_index(5);
    assert_eq!(e.strip, vec![0, 1, 2]);
    assert_eq!(m.logs.len(), 1);
    assert_eq!(m.current, Some(0));
    // stripping after the first log's end asks nothing
    let mut m2 = RaftLogManager::new();
    m2.build_log_actor(vec![closed(0, 1, 10), open_range(1, 11)], None);
    let e = m2.strip_log_to_index(15);
    assert!(e.strip.is_empty());
    assert_eq!(m2.logs.len(), 2);
}

#[test]
fn log_manager_read_selection() {
    let mut m = RaftLogManager::new();
    m.build_log_actor(vec![closed(0, 1, 10), open_range(1, 11)], Some(20));
    assert_eq!(m.opened, vec![false, true]);
    let e = m.select_for_read(3, 5);
    assert_eq!(e.targets, vec![0, 1]);
    assert_eq!(e.open, vec![(0, 1)]);
    assert_eq!(m.opened, vec![true, true]);
}

#[test]
fn store_core_helpers() {
    let s = vec_to_set(&vec![3, 1, 3]);
    assert_eq!(s.len(), 2);
    assert!(s.contains(&1) && s.contains(&3));
    let mc = MembershipConfig::from_lists(&vec![1, 2], &vec![]);
    assert!(mc.members_after_consensus.is_none());
    assert_eq!(MembershipConfig::new_initial(7).members.len(), 1);
    let dto = sample_dto();
    let st = InitialState::from_index(LogIndexInfo { index: 4, term: 2 }, &dto, 3);
    assert_eq!(st.hard_state.voted_for, Some(1));
    assert_eq!((st.last_log_index, st.last_applied_log), (4, 3));
    let initial = InitialState::new_initial(5);
    assert!(initial.membership.members.contains(&5));
    match save_hard_state_request(&HardState { current_term: 3, voted_for: None }) {
        RaftIndexRequest::SaveHardState { current_term, voted_for } => assert_eq!((current_term, voted_for), (3, 0)),
        _ => panic!("unexpected request"),
    }
    assert_eq!(write_log_result_to_result(WriteLogResult::Ignore), Ok(()));
    assert_eq!(write_log_result_to_result(WriteLogResult::LogIndexEqualError), Err(StoreError::LogIndexNotEqual));
    assert_eq!(split_off_index(Some(9)), 10);
    assert_eq!(split_off_index(None), 0);
}

#[test]
fn close_write_default_is_false() {
    let store = CloseWrite::new();
    assert!(!store.is_close_write());
}

#[test]
fn close_write_is_one_way_irreversible() {
    let mut store = CloseWrite::new();
    assert!(!store.is_close_write());
    store.set_close_write();
    assert!(store.is_close_write());
    assert!(store.is_close_write());
    store.set_close_write();
    assert!(store.is_close_write());
}

#[test]
fn close_write_refuses_apply() {
    let mut latch = CloseWrite::new();
    assert_eq!(latch.check_apply(), Ok(()));
    latch.set_close_write();
    assert_eq!(latch.check_apply(), Err(StoreError::CloseWrite));
}

#[test]
fn store_reads_index_answers() {
    let resp = RaftIndexResponse::MemberShip { member: vec![1, 2, 2], member_after_consensus: vec![], node_addrs: IdMap::new() };
    let m = membership_of_response(resp, 7);
    assert_eq!(m.members.len(), 2);
    assert!(m.members.contains(&1) && m.members.contains(&2));
    assert!(m.members_after_consensus.is_none());
    let resp = RaftIndexResponse::MemberShip { member: vec![1], member_after_consensus: vec![3], node_addrs: IdMap::new() };
    assert!(membership_of_response(resp, 7).members_after_consensus.unwrap().contains(&3));
    let m = membership_of_response(RaftIndexResponse::Done, 7);
    assert_eq!(m.members.len(), 1);
    assert!(m.members.contains(&7));

    let mut dto = RaftIndexDto::new();
    dto.current_term = 4;
    dto.voted_for = 2;
    dto.member = vec![2, 3];
    let last = LogIndexInfo { index: 10, term: 4 };
    let s = initial_state_of_response(last, RaftIndexResponse::RaftIndexInfo { raft_index: dto, last_applied_log: 9 }, 7);
    assert_eq!((s.last_log_index, s.last_log_term, s.last_applied_log), (10, 4, 9));
    assert_eq!(s.hard_state.current_term, 4);
    assert_eq!(s.hard_state.voted_for, Some(2));
    assert_eq!(s.membership.members.len(), 2);
    let s = initial_state_of_response(last, RaftIndexResponse::Done, 7);
    assert_eq!((s.last_log_index, s.last_applied_log, s.hard_state.voted_for), (0, 0, None));
    assert!(s.membership.members.contains(&7));
}

use rnacos_raft::raft::filestore::raftlog::{
    decode_records, InnerIdxDto, LogInnerManager, MoveScan, ReadPlan, ScanStep, LOG_DATA_AREA_START, LOG_DATA_BUF_SIZE,
};

fn record(i: u64) -> LogRecordDto {
    LogRecordDto { index: i, term: 1, value: vec![(i % 251) as u8; 3] }
}

fn apply_write(file: &mut Vec<u8>, m: &mut LogInnerManager, r: &LogRecordDto) -> LogWriteMark {
    let at = m.data_cursor as usize;
    let plan = m.plan_write(r);
    if let Some(len) = plan.grow_to {
        file.resize(len as usize, 0);
    }
    file[at..at + plan.data.len()].copy_from_slice(&plan.data);
    if let Some((off, bytes)) = plan.index_write {
        let off = off as usize;
        file[off..off + bytes.len()].copy_from_slice(&bytes);
    }
    plan.mark
}

fn scan(file: &[u8], from: InnerIdxDto, start_index: u64, count: u64) -> (u64, u64) {
    let mut s = MoveScan::new(from, start_index, count);
    let mut pos = from.file_index as usize;
    loop {
        let end = std::cmp::min(pos + 1024, file.len());
        match s.step(&file[pos..end]) {
            ScanStep::Done(dc, mc) => return (dc, mc),
            ScanStep::Continue => pos = end,
        }
    }
}

fn read(file: &[u8], plan: ReadPlan) -> Vec<u64> {
    decode_records(&file[plan.from as usize..], plan.skip, plan.count).unwrap().iter().map(|r| r.index).collect()
}

#[test]
fn log_file_write_read_strip() {
    let (mut m, block) = LogInnerManager::init_new(0);
    assert_eq!(block.len(), 256);
    assert_eq!(m.data_cursor, LOG_DATA_AREA_START);
    let mut file = vec![0u8; LOG_DATA_BUF_SIZE as usize];
    file[..256].copy_from_slice(&block);
    for i in 0..300 {
        assert_eq!(apply_write(&mut file, &mut m, &record(i)), LogWriteMark::Success);
    }
    assert_eq!(m.msg_count, 300);
    assert_eq!(m.get_end_index(), 300);
    let logs: Vec<u64> = m.indexs.iter().map(|e| e.log_index).collect();
    assert_eq!(logs, vec![0, 128, 256]);
    assert!(m.is_index_sorted());
    assert_eq!(m.get_start_index(200).log_index, 128);
    assert_eq!(m.get_start_index(128).log_index, 128);
    assert_eq!(m.get_start_index(5).log_index, 0);
    let plan = m.plan_read(130, 135).unwrap();
    assert_eq!((plan.skip, plan.count), (2, 5));
    assert!(m.need_seek_at_write);
    assert_eq!(read(&file, plan), vec![130, 131, 132, 133, 134]);
    assert!(m.plan_read(300, 310).is_none());
    assert!(m.plan_load(290, 310).is_none());
    assert_eq!(read(&file, m.plan_load(290, 300).unwrap()), (290..300).collect::<Vec<u64>>());
    // strip down to the records before 200
    let plan = m.plan_strip(200).unwrap().unwrap();
    assert_eq!(plan.scan_from.log_index, 128);
    assert_eq!(plan.scan_count, 72);
    assert!(plan.index_mark_at.is_some());
    assert_eq!(m.indexs.len(), 2);
    let (dc, mc) = scan(&file, plan.scan_from, m.start_index, plan.scan_count);
    assert_eq!(mc, 200);
    m.finish_strip(dc, mc, plan.scan_count);
    assert_eq!(m.get_end_index(), 200);
    assert!(m.plan_read(200, 210).is_none());
    assert_eq!(read(&file, m.plan_read(198, 210).unwrap()), vec![198, 199]);
    assert!(m.plan_strip(250).unwrap().is_none());
}

#[test]
fn log_file_reload() {
    let (mut m, block) = LogInnerManager::init_new(1);
    let mut file = vec![0u8; LOG_DATA_BUF_SIZE as usize];
    file[..256].copy_from_slice(&block);
    for i in 1..6 {
        apply_write(&mut file, &mut m, &record(i));
    }
    let head = &file[..(LOG_DATA_AREA_START + 10) as usize];
    let mut loaded = LogInnerManager::init_loaded(head, file.len() as u64, 1).unwrap();
    assert_eq!(loaded.indexs.len(), 1);
    assert_eq!(loaded.header.index_interval, 128);
    let last = *loaded.indexs.last().unwrap();
    let (dc, mc) = scan(&file, last, 1, 0xffff);
    loaded.finish_init(dc, mc);
    assert_eq!(loaded.msg_count, 5);
    assert_eq!(loaded.data_cursor, m.data_cursor);
    assert_eq!(read(&file, loaded.plan_read(1, 6).unwrap()), vec![1, 2, 3, 4, 5]);
    assert!(LogInnerManager::init_loaded(&file[..20], 100, 1).is_err());
}

#[test]
fn log_file_strip_at_index_entry_counts_every_record() {
    let (mut m, block) = LogInnerManager::init_new(0);
    let mut file = vec![0u8; LOG_DATA_BUF_SIZE as usize];
    file[..256].copy_from_slice(&block);
    for i in 0..300 {
        apply_write(&mut file, &mut m, &record(i));
    }
    // 128 is the log index of an index entry: nothing is left to skip, and a
    // scan with no count goes on to the end of the data
    let plan = m.plan_strip(128).unwrap().unwrap();
    assert_eq!(plan.scan_from.log_index, 128);
    assert_eq!(plan.scan_count, 0);
    let (dc, mc) = scan(&file, plan.scan_from, m.start_index, plan.scan_count);
    assert_eq!(mc, 300);
    m.finish_strip(dc, mc, plan.scan_count);
    assert_eq!(m.get_end_index(), 300);
}

fn write_bytes_at(file: &mut Vec<u8>, at: usize, data: &[u8]) {
    if file.len() < at + data.len() {
        file.resize(at + data.len(), 0);
    }
    file[at..at + data.len()].copy_from_slice(data);
}

#[test]
fn index_file_reopens_after_writes_on_new_file() {
    let (mut m, bytes) = RaftIndexInnerManager::init_new();
    let mut file = bytes;
    let head = m.write_last_applied_log(42);
    write_bytes_at(&mut file, 0, &head);
    let frame = m.write_index(sample_dto());
    write_bytes_at(&mut file, 8, &frame);
    let (la, back) = read_index_file(&file).unwrap();
    assert_eq!(la, 42);
    assert_eq!(back.member, sample_dto().member);
    assert_eq!(back.node_addrs.get(1), Some(&"a:1".to_string()));
}
