use rnacos_raft::raft::filestore::model::SnapshotRecordDto;
use rnacos_raft::sequence::manager::{
    SequenceAction, SequenceBeforeResult, SequenceManager, SequenceMiddleState, SequenceRequest,
    SequenceResult,
};
use rnacos_raft::sequence::model::{SeqGroup, SeqRange, SequenceRaftReq, SequenceRaftResult};
use rnacos_raft::sequence::seqdb::{SequenceDbManager, SequenceLoadError, SEQUENCE_TREE_NAME};

#[test]
fn seq_range_hands_out_its_ids_in_order() {
    let mut r = SeqRange::new(10, 3);
    assert_eq!((r.start(), r.len()), (10, 3));
    assert!(r.has_next());
    assert_eq!(r.next_id(), Some(10));
    assert_eq!(r.next_id(), Some(11));
    assert_eq!(r.next_id(), Some(12));
    assert!(!r.has_next());
    assert_eq!(r.next_id(), None);
    r.renew(100, 1);
    assert_eq!(r.next_id(), Some(100));
    assert_eq!(r.next_id(), None);
}

#[test]
fn seq_group_switches_blocks() {
    let mut g = SeqGroup::new(100);
    assert_eq!(g.step(), 100);
    assert_eq!(g.next_id(), None);
    assert!(g.need_apply());
    g.mark_apply();
    assert!(!g.need_apply());
    g.apply_range(1, 2);
    g.clear_apply_mark();
    assert_eq!(g.next_id(), Some(1));
    // the other block is still empty, so a refill is wanted
    assert!(g.need_apply());
    g.apply_range(50, 2);
    assert!(!g.need_apply());
    assert_eq!(g.next_id(), Some(2));
    assert_eq!(g.next_id(), Some(50));
    assert_eq!(g.next_id(), Some(51));
    assert_eq!(g.next_id(), None);
}

#[test]
fn sequence_db_next_id_and_range() {
    let mut db = SequenceDbManager::new();
    assert_eq!(db.next_id("a".to_string()), 1);
    assert_eq!(db.next_id("a".to_string()), 2);
    assert_eq!(db.next_range("b".to_string(), 100), 1);
    assert_eq!(db.next_range("b".to_string(), 100), 101);
    assert_eq!(db.get(&"b".to_string()), Some(201));
    assert_eq!(db.get(&"c".to_string()), None);
}

#[test]
fn sequence_db_handle_commands() {
    let mut db = SequenceDbManager::new();
    assert_eq!(db.handle(SequenceRaftReq::NextId("x".to_string())), SequenceRaftResult::NextId(1));
    assert_eq!(
        db.handle(SequenceRaftReq::NextRange("x".to_string(), 10)),
        SequenceRaftResult::NextRange { start: 2, len: 10 }
    );
    assert_eq!(db.handle(SequenceRaftReq::SetId("x".to_string(), 500)), SequenceRaftResult::Done);
    assert_eq!(db.handle(SequenceRaftReq::NextId("x".to_string())), SequenceRaftResult::NextId(500));
    assert_eq!(db.handle(SequenceRaftReq::RemoveId("x".to_string())), SequenceRaftResult::Done);
    assert_eq!(db.get(&"x".to_string()), None);
}

#[test]
fn sequence_db_snapshot_roundtrip() {
    let mut db = SequenceDbManager::new();
    db.next_id("a".to_string());
    db.next_range("b".to_string(), 5);
    let records = db.build_snapshot();
    assert_eq!(records.len(), 2);
    assert_eq!(records[0].tree, SEQUENCE_TREE_NAME);
    assert_eq!(records[0].key, b"a".to_vec());
    assert_eq!(records[0].value, vec![0, 0, 0, 0, 0, 0, 0, 2]);
    let mut other = SequenceDbManager::new();
    for r in records {
        assert_eq!(other.load_snapshot_record(r), Ok(()));
    }
    other.load_completed();
    assert_eq!(other.get(&"a".to_string()), Some(2));
    assert_eq!(other.get(&"b".to_string()), Some(6));
}

#[test]
fn sequence_db_load_errors() {
    let mut db = SequenceDbManager::new();
    let short = SnapshotRecordDto { tree: SEQUENCE_TREE_NAME.to_string(), key: b"a".to_vec(), value: vec![1], op_type: 0 };
    assert!(matches!(db.load_snapshot_record(short), Err(SequenceLoadError::BadValue(_))));
    let bad_key = SnapshotRecordDto { tree: SEQUENCE_TREE_NAME.to_string(), key: vec![0xff], value: vec![0; 8], op_type: 0 };
    assert_eq!(db.load_snapshot_record(bad_key), Err(SequenceLoadError::BadKey));
}

#[test]
fn sequence_manager_first_id_needs_a_block() {
    let mut m = SequenceManager::new();
    assert_eq!(m.seq_step(), 100);
    let state = m.handle(SequenceRequest::GetNextId("k".to_string()));
    let action = match state {
        SequenceMiddleState::NextId(key, id, need) => {
            assert_eq!(key, "k");
            assert_eq!(id, None);
            assert!(need);
            SequenceMiddleState::NextId(key, id, need).plan(m.seq_step())
        }
        _ => panic!("unexpected state"),
    };
    match action {
        SequenceAction::RangeForNextId { key, step } => {
            assert_eq!(key, "k");
            assert_eq!(step, 100);
        }
        _ => panic!("unexpected action"),
    }
    let (result, follow) = m.handle_result(SequenceBeforeResult::UseFromRange { key: "k".to_string(), start: 1, len: 100 });
    assert!(matches!(result, SequenceResult::NextId(1)));
    assert!(follow.is_none());
    match m.handle(SequenceRequest::GetNextId("k".to_string())) {
        SequenceMiddleState::NextId(_, id, _) => assert_eq!(id, Some(2)),
        _ => panic!("unexpected state"),
    }
}

#[test]
fn sequence_manager_fill_and_direct_range() {
    let mut m = SequenceManager::new();
    // an unknown key is not refilled
    assert!(matches!(m.handle(SequenceRequest::FillRange("k".to_string())), SequenceMiddleState::FillIgnore));
    m.handle(SequenceRequest::GetNextId("k".to_string()));
    match m.handle(SequenceRequest::FillRange("k".to_string())) {
        SequenceMiddleState::FillRange(key, step) => {
            assert_eq!(key, "k");
            assert_eq!(step, 100);
        }
        _ => panic!("unexpected state"),
    }
    // a refill under way is not asked for twice
    assert!(matches!(m.handle(SequenceRequest::FillRange("k".to_string())), SequenceMiddleState::FillIgnore));
    let (r, _) = m.handle_result(SequenceBeforeResult::FillRange { key: "k".to_string(), start: 201, len: 100 });
    assert!(matches!(r, SequenceResult::Done));
    match m.handle(SequenceRequest::GetNextId("k".to_string())) {
        SequenceMiddleState::NextId(_, id, _) => assert_eq!(id, Some(201)),
        _ => panic!("unexpected state"),
    }
    assert!(matches!(
        m.handle(SequenceRequest::GetDirectRange("d".to_string(), 7)),
        SequenceMiddleState::GetDirectRange(_, 7)
    ));
    match m.handle_result(SequenceBeforeResult::DirectRange { start: 30, len: 7 }) {
        (SequenceResult::Range(range), None) => {
            assert_eq!(range.start(), 30);
            assert_eq!(range.len(), 7);
        }
        _ => panic!("unexpected result"),
    }
}

#[test]
fn sequence_manager_known_id_asks_refill() {
    let mut m = SequenceManager::new();
    let (r, follow) = m.handle_result(SequenceBeforeResult::NextId("k".to_string(), 9, true));
    assert!(matches!(r, SequenceResult::NextId(9)));
    assert_eq!(follow, Some("k".to_string()));
    let (_, follow) = m.handle_result(SequenceBeforeResult::NextId("k".to_string(), 10, false));
    assert!(follow.is_none());
}
