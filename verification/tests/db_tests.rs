use rnacos_raft::raft::db::sequence::{
    SequenceItem, SequenceItemError, SequenceManager, SequenceRequest, SequenceResult,
};

#[test]
fn db_sequence_manager_moves_ids() {
    let mut m = SequenceManager::new();
    assert_eq!(m.get_last_id(&"a".to_string()), 0);
    assert_eq!(m.next_id("a".to_string(), 10), 10);
    assert_eq!(m.next_id("a".to_string(), 5), 15);
    assert_eq!(m.get_last_id(&"b".to_string()), 0);
    assert_eq!(m.handle(SequenceRequest::GetNextId("b".to_string(), 3)), SequenceResult::NextId(3));
    assert_eq!(m.handle(SequenceRequest::SetLastId("a".to_string(), 100)), SequenceResult::Done);
    assert_eq!(m.handle(SequenceRequest::GetLastId("a".to_string())), SequenceResult::LastId(100));
    assert_eq!(m.handle(SequenceRequest::GetLastId("b".to_string())), SequenceResult::LastId(3));
}

fn last_id_written(r: &Option<SequenceRequest>) -> Option<(String, u64)> {
    match r {
        Some(SequenceRequest::SetLastId(k, v)) => Some((k.clone(), *v)),
        _ => None,
    }
}

#[test]
fn db_sequence_item_needs_init() {
    let mut item = SequenceItem::new("seq_t".to_string(), 10);
    assert_eq!(item.next_id().unwrap_err(), SequenceItemError::NotInit);
    match item.init_request() {
        SequenceRequest::GetLastId(k) => assert_eq!(k, "seq_t"),
        _ => panic!("wrong request"),
    }
    item.init(SequenceResult::Done);
    assert_eq!(item.next_id().unwrap_err(), SequenceItemError::NotInit);
}

#[test]
fn db_sequence_item_reserves_batches() {
    let mut item = SequenceItem::new("seq_t".to_string(), 3);
    item.init(SequenceResult::LastId(20));
    let (id, w) = item.next_id().unwrap();
    assert_eq!(id, 21);
    assert_eq!(last_id_written(&w), Some(("seq_t".to_string(), 23)));
    let (id, w) = item.next_id().unwrap();
    assert_eq!((id, last_id_written(&w)), (22, None));
    let (id, w) = item.next_id().unwrap();
    assert_eq!((id, last_id_written(&w)), (23, None));
    let (id, w) = item.next_id().unwrap();
    assert_eq!(id, 24);
    assert_eq!(last_id_written(&w), Some(("seq_t".to_string(), 26)));
}

#[test]
fn db_sequence_item_jumps_past_table_id() {
    let mut item = SequenceItem::new("seq_t".to_string(), 5);
    item.init(SequenceResult::LastId(0));
    // within the current reservation: nothing changes
    assert!(item.set_table_last_id(5).is_none());
    let w = item.set_table_last_id(50);
    assert_eq!(last_id_written(&w), Some(("seq_t".to_string(), 50)));
    // the batch size is now zero, but one id is still reserved
    let mut fresh = SequenceItem::new("s".to_string(), 2);
    fresh.init(SequenceResult::LastId(0));
    let (id, _) = fresh.next_id().unwrap();
    assert_eq!(id, 1);
    assert!(fresh.set_table_last_id(9).is_some());
    let (id, w) = fresh.next_id().unwrap();
    assert_eq!((id, last_id_written(&w)), (10, None));
}

use rnacos_raft::raft::db::table::{
    CacheNotice, SeqOp, TableDefinition, TableInfo, TableManager, TableManagerError, TableManagerReq, TreeOp,
};

#[test]
fn table_definition_bytes() {
    let d = TableDefinition { name: "ab".to_string(), sequence_step: 5 };
    let b = d.to_bytes();
    assert_eq!(b, vec![10, 2, b'a', b'b', 16, 5]);
    let back = TableDefinition::from_bytes(&b).unwrap();
    assert_eq!(back.name, "ab");
    assert_eq!(back.sequence_step, 5);
    let empty = TableDefinition { name: String::new(), sequence_step: 0 };
    assert!(empty.to_bytes().is_empty());
    // unknown fields are skipped; bad UTF-8 in the name is refused
    assert_eq!(TableDefinition::from_bytes(&[24, 1, 16, 7]).unwrap().sequence_step, 7);
    assert!(TableDefinition::from_bytes(&[10, 1, 0xff]).is_none());
    assert!(TableDefinition::from_bytes(&[10, 5, b'a']).is_none());
}

#[test]
fn table_info_names() {
    let t = TableInfo::new("user".to_string(), 0);
    assert_eq!(t.table_db_name, "t_user");
    assert!(t.seq.is_none());
    let t = TableInfo::new("user".to_string(), 100);
    let s = t.seq.unwrap();
    assert_eq!(s.seq_name, "seq_user");
    assert_eq!(s.step, 100);
}

#[test]
fn table_manager_set_declares_table() {
    let mut m = TableManager::new();
    let plan = m
        .handle(TableManagerReq::SetValue {
            table_name: "cache".to_string(),
            key: b"k".to_vec(),
            value: b"v".to_vec(),
            last_seq_id: Some(3),
        })
        .unwrap();
    match plan.notice {
        Some(CacheNotice::Change { key, value }) => {
            assert_eq!(key, b"k".to_vec());
            assert_eq!(value, b"v".to_vec());
        }
        _ => panic!("cache not told"),
    }
    let reg = plan.registration.unwrap();
    assert_eq!(reg.definition_key, b"cache".to_vec());
    assert_eq!(reg.definition, vec![10, 5, b'c', b'a', b'c', b'h', b'e']);
    assert_eq!(reg.table_db_name, "t_cache");
    assert!(plan.seq_op.is_none());
    match plan.tree_op {
        Some(TreeOp::Insert { tree, key, value }) => {
            assert_eq!(tree, "t_cache");
            assert_eq!(key, b"k".to_vec());
            assert_eq!(value, b"v".to_vec());
        }
        _ => panic!("no insert"),
    }
    assert_eq!(m.get_table_db_names(), vec!["t_cache".to_string()]);
    // the second set finds the table
    let plan = m
        .handle(TableManagerReq::SetValue {
            table_name: "cache".to_string(),
            key: b"k2".to_vec(),
            value: b"v2".to_vec(),
            last_seq_id: None,
        })
        .unwrap();
    assert!(plan.registration.is_none());
}

#[test]
fn table_manager_load_and_sequences() {
    let mut m = TableManager::new();
    let defs = vec![
        TableDefinition { name: "a".to_string(), sequence_step: 10 }.to_bytes(),
        vec![10, 1, 0xff],
        TableDefinition { name: "b".to_string(), sequence_step: 0 }.to_bytes(),
    ];
    let names = m.load_tables(&defs);
    assert_eq!(names, vec!["t_a".to_string(), "t_b".to_string()]);
    let plan = m.handle(TableManagerReq::NextId { table_name: "a".to_string(), seq_step: None }).unwrap();
    match plan.seq_op {
        Some(SeqOp::NextId { seq }) => {
            assert_eq!(seq.seq_name, "seq_a");
            assert_eq!(seq.step, 10);
        }
        _ => panic!("no sequence work"),
    }
    let plan = m.handle(TableManagerReq::NextId { table_name: "b".to_string(), seq_step: Some(5) }).unwrap();
    assert!(plan.seq_op.is_none());
    let plan = m
        .handle(TableManagerReq::SetValue {
            table_name: "a".to_string(),
            key: vec![1],
            value: vec![2],
            last_seq_id: Some(42),
        })
        .unwrap();
    assert!(plan.notice.is_none());
    match plan.seq_op {
        Some(SeqOp::SetTableLastId { seq, last_id }) => {
            assert_eq!(seq.seq_name, "seq_a");
            assert_eq!(last_id, 42);
        }
        _ => panic!("no sequence work"),
    }
    let plan = m.handle(TableManagerReq::Drop("a".to_string())).unwrap();
    match plan.seq_op {
        Some(SeqOp::SetTableLastId { last_id, .. }) => assert_eq!(last_id, 0),
        _ => panic!("sequence not reset"),
    }
    match plan.tree_op {
        Some(TreeOp::Drop { tree }) => assert_eq!(tree, "t_a"),
        _ => panic!("tree not dropped"),
    }
    assert_eq!(m.get_table_db_names(), vec!["t_b".to_string()]);
    assert!(m.table_db_name_of(&"a".to_string()).is_none());
    assert_eq!(
        m.handle(TableManagerReq::SetUseAutoId { table_name: "b".to_string(), value: vec![] }).unwrap_err(),
        TableManagerError::AutoIdNotResolved
    );
    let plan = m.handle(TableManagerReq::Remove { table_name: "zz".to_string(), key: vec![1] }).unwrap();
    assert!(plan.tree_op.is_none());
    assert!(m.handle(TableManagerReq::ReloadTable).unwrap().reload);
}

#[test]
fn table_page_of_rows() {
    let rows: Vec<(Vec<u8>, Vec<u8>)> = (0u8..5).map(|i| (vec![i], vec![i + 10])).collect();
    let keys = |p: &Vec<(Vec<u8>, Vec<u8>)>| p.iter().map(|(k, _)| k[0]).collect::<Vec<u8>>();
    assert_eq!(keys(&TableManager::page_of(&rows, Some(1), Some(2), false)), vec![1, 2]);
    assert_eq!(keys(&TableManager::page_of(&rows, Some(1), Some(2), true)), vec![3, 2]);
    assert_eq!(keys(&TableManager::page_of(&rows, None, None, true)), vec![4, 3, 2, 1, 0]);
    assert_eq!(keys(&TableManager::page_of(&rows, Some(4), Some(10), false)), vec![4]);
    assert_eq!(keys(&TableManager::page_of(&rows, Some(9), None, false)), Vec::<u8>::new());
    // a negative offset wraps to a huge skip; a negative limit to a huge take
    assert_eq!(keys(&TableManager::page_of(&rows, Some(-1), None, false)), Vec::<u8>::new());
    assert_eq!(keys(&TableManager::page_of(&rows, Some(3), Some(-1), false)), vec![3, 4]);
    assert_eq!(TableManager::page_of(&rows, Some(0), Some(1), false)[0].1, vec![10]);
}
