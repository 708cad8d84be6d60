use rnacos_raft::common::idmap::IdMap;
use rnacos_raft::common::strmap::StrMap;
use rnacos_raft::raft::cache::model::{CacheKey, CacheType, CacheValue};
use rnacos_raft::raft::cache::{
    apply_cache_ctx, plan_cache_request, CacheError, CacheLimiterReq, CacheManagerInnerCtx, CacheManagerReq,
    CacheManagerResult, CacheStore, CacheTableWrite,
};
use rnacos_raft::raft::cluster::{
    route_action, route_response, RouteAction, RouteError, RouteKind, RouteReply, RouterRequest, RouterResponse,
};
use rnacos_raft::raft::db::table::{
    table_answer, SeqOp, TableDefinition, TableManager, TableManagerQueryReq, TableManagerReq, TableManagerResult,
    TablePlan, TreeOp,
};
use rnacos_raft::raft::filestore::apply::{
    snapshot_member_request, apply_answer, apply_target, build_snapshot_step, load_target, ApplyError, ApplyRequestDto, ApplyTarget,
    BuildSnapshotAction, BuildSnapshotEvent, BuildSnapshotState, ConfigRaftCmd, EntryPayload, StateApplyManager,
    TargetKind, TargetReply,
};
use rnacos_raft::raft::filestore::raftindex::RaftIndexRequest;
use rnacos_raft::raft::filestore::raftsnapshot::SnapshotHeaderDto;
use rnacos_raft::raft::db::table::TableQueryPlan;
use rnacos_raft::raft::filestore::storecore::LogIndexInfo;
use rnacos_raft::raft::store::innerstore::{InnerStore, StoreAction, StoreEntry, StoreRequest, StoreResponse};
use rnacos_raft::raft::store::{
    ClientRequest, ClientResponse, McpManagerRaftReq, McpManagerRaftResult, NamespaceRaftReq, NamespaceRaftResult,
};
use rnacos_raft::sequence::manager::{
    complete_action, next_range_of, SequenceAction, SequenceBeforeResult, SequenceMiddleState, SequenceRouteError,
};
use rnacos_raft::sequence::model::{SeqGroup, SequenceRaftReq, SequenceRaftResult};
use rnacos_raft::transfer::data_to_sqlite::TableSeq;
use rnacos_raft::transfer::model::TransferImportResponse;

fn plan_with(tree_op: Option<TreeOp>, seq_op: Option<SeqOp>) -> TablePlan {
    TablePlan { notice: None, registration: None, seq_op, tree_op, reload: false }
}

#[test]
fn table_set_and_remove_answer_previous_value() {
    let mut m = TableManager::new();
    let set = TableManagerReq::SetValue {
        table_name: "t".to_string(),
        key: b"k".to_vec(),
        value: b"v".to_vec(),
        last_seq_id: None,
    };
    let plan = m.handle(set).unwrap();
    assert!(matches!(table_answer(&plan, Some(b"old".to_vec()), None), TableManagerResult::Value(v) if v == b"old"));
    assert!(matches!(table_answer(&plan, None, None), TableManagerResult::Done));
    let rm = TableManagerReq::Remove { table_name: "t".to_string(), key: b"k".to_vec() };
    let plan = m.handle(rm).unwrap();
    assert!(matches!(table_answer(&plan, Some(b"v".to_vec()), None), TableManagerResult::Value(v) if v == b"v"));
    let plan = plan_with(Some(TreeOp::Drop { tree: "t_t".to_string() }), None);
    assert!(matches!(table_answer(&plan, Some(b"v".to_vec()), None), TableManagerResult::Done));
}

#[test]
fn table_next_id_answers_new_id() {
    let seq = rnacos_raft::raft::db::table::TableSequenceInfo { seq_name: "seq_t".to_string(), step: 100 };
    let plan = plan_with(None, Some(SeqOp::NextId { seq }));
    assert!(matches!(table_answer(&plan, None, Some(7)), TableManagerResult::NextId(7)));
    assert!(matches!(table_answer(&plan, None, None), TableManagerResult::Done));
    let plan = plan_with(None, None);
    assert!(matches!(table_answer(&plan, None, Some(7)), TableManagerResult::Done));
}

#[test]
fn table_definition_refuses_wrong_wire_type() {
    // field 1 written as a varint
    assert!(TableDefinition::from_bytes(&[8, 1]).is_none());
    // field 2 written as bytes
    assert!(TableDefinition::from_bytes(&[18, 1, 0]).is_none());
    // an unknown field is skipped
    let d = TableDefinition::from_bytes(&[24, 1, 10, 1, b'a']).unwrap();
    assert_eq!(d.name, "a");
}

#[test]
fn apply_target_per_command() {
    assert!(matches!(
        apply_target(ClientRequest::NodeAddr { id: 2, addr: "b:2".to_string() }),
        ApplyTarget::Index(RaftIndexRequest::AddNodeAddr(2, a)) if a == "b:2"
    ));
    assert!(matches!(
        apply_target(ClientRequest::Members(vec![1, 2])),
        ApplyTarget::Index(RaftIndexRequest::SaveMember { member, member_after_consensus: None, node_addr: None })
            if member == vec![1, 2]
    ));
    let set = ClientRequest::ConfigSet {
        key: "k".to_string(),
        value: "v".to_string(),
        config_type: Some("text".to_string()),
        desc: None,
        history_id: 3,
        history_table_id: Some(4),
        op_time: 5,
        op_user: Some("u".to_string()),
    };
    match apply_target(set) {
        ApplyTarget::Config(ConfigRaftCmd::ConfigAdd {
            key,
            value,
            config_type,
            desc,
            history_id,
            history_table_id,
            op_time,
            op_user,
        }) => {
            assert_eq!((key.as_str(), value.as_str()), ("k", "v"));
            assert_eq!(config_type, Some("text".to_string()));
            assert_eq!(desc, None);
            assert_eq!((history_id, history_table_id, op_time), (3, Some(4), 5));
            assert_eq!(op_user, Some("u".to_string()));
        },
        _ => panic!("config set goes to the configuration service"),
    }
    assert!(matches!(
        apply_target(ClientRequest::ConfigFullValue { key: b"k".to_vec(), value: b"v".to_vec(), last_seq_id: Some(9) }),
        ApplyTarget::Config(ConfigRaftCmd::SetFullValue { last_id: Some(9), .. })
    ));
    assert!(matches!(
        apply_target(ClientRequest::ConfigRemove { key: "k".to_string() }),
        ApplyTarget::Config(ConfigRaftCmd::ConfigRemove { key }) if key == "k"
    ));
    assert!(matches!(
        apply_target(ClientRequest::SequenceReq { req: SequenceRaftReq::NextId("s".to_string()) }),
        ApplyTarget::Sequence(SequenceRaftReq::NextId(k)) if k == "s"
    ));
    assert!(matches!(
        apply_target(ClientRequest::TableManagerReq(TableManagerReq::ReloadTable)),
        ApplyTarget::Table(TableManagerReq::ReloadTable)
    ));
    assert!(matches!(
        apply_target(ClientRequest::NamespaceReq(NamespaceRaftReq { body: vec![1] })),
        ApplyTarget::Namespace(_)
    ));
    let t = apply_target(ClientRequest::McpReq { req: McpManagerRaftReq { body: vec![2] } });
    assert_eq!(t.kind(), TargetKind::Mcp);
}

#[test]
fn apply_answer_per_service() {
    let err = || Err(ApplyError { message: "down".to_string() });
    assert!(matches!(apply_answer(TargetKind::Index, err()), Ok(ClientResponse::Success)));
    assert!(matches!(apply_answer(TargetKind::Config, Ok(TargetReply::Done)), Ok(ClientResponse::Success)));
    assert!(matches!(apply_answer(TargetKind::Config, err()), Err(e) if e.message == "down"));
    assert!(matches!(
        apply_answer(TargetKind::Sequence, Ok(TargetReply::Sequence(SequenceRaftResult::NextId(4)))),
        Ok(ClientResponse::SequenceResp { resp: SequenceRaftResult::NextId(4) })
    ));
    assert!(matches!(
        apply_answer(TargetKind::Mcp, Ok(TargetReply::Mcp(McpManagerRaftResult { body: vec![7] }))),
        Ok(ClientResponse::McpResp { resp }) if resp.body == vec![7]
    ));
}

#[test]
fn load_target_skips_entries_without_command() {
    assert!(load_target(EntryPayload::Blank).is_none());
    assert!(load_target(EntryPayload::ConfigChange { members: vec![1], members_after_consensus: vec![] }).is_none());
    assert!(matches!(
        load_target(EntryPayload::Normal(ClientRequest::ConfigRemove { key: "k".to_string() })),
        Some(ApplyTarget::Config(ConfigRaftCmd::ConfigRemove { .. }))
    ));
}

#[test]
fn state_apply_manager_tracks_indexes() {
    let mut m = StateApplyManager::new();
    assert_eq!((m.snapshot_next_index, m.last_applied_log), (1, 0));
    assert_eq!(m.load_log_range(), None);
    m.load_index_info(Some(10), 15);
    assert_eq!(m.load_log_range(), Some((11, 16)));
    let reqs = vec![
        ApplyRequestDto { index: 16, request: ClientRequest::ConfigRemove { key: "a".to_string() } },
        ApplyRequestDto { index: 17, request: ClientRequest::Members(vec![1]) },
    ];
    let (targets, save) = m.apply_batch(reqs);
    assert_eq!(targets.len(), 2);
    assert!(matches!(targets[0], ApplyTarget::Config(_)));
    assert!(matches!(targets[1], ApplyTarget::Index(_)));
    assert!(matches!(save, RaftIndexRequest::SaveLastAppliedLog(17)));
    assert_eq!(m.get_last_applied_log(), 17);
    let (_, save) = m.apply_batch(vec![]);
    assert!(matches!(save, RaftIndexRequest::SaveLastAppliedLog(17)));
    let t = m.apply_request(ApplyRequestDto { index: 18, request: ClientRequest::Members(vec![2]) });
    assert!(matches!(t, ApplyTarget::Index(_)));
    assert_eq!(m.last_applied_log, 18);
}

#[test]
fn build_snapshot_runs_every_step_before_complete() {
    let st = BuildSnapshotState::Idle { last_index: 20 };
    let (st, a) = build_snapshot_step(st, BuildSnapshotEvent::Start);
    assert!(matches!(a, BuildSnapshotAction::QueryLog { start: 20, end: 21 }));
    let (st, a) = build_snapshot_step(st, BuildSnapshotEvent::LastLog { term: None });
    assert!(matches!(a, BuildSnapshotAction::LoadMember));
    assert!(matches!(st, BuildSnapshotState::AwaitMember { last_index: 20, last_term: 0 }));
    let mut addrs = IdMap::new();
    addrs.insert(1, "a:1".to_string());
    let (st, a) = build_snapshot_step(
        st,
        BuildSnapshotEvent::Member { member: vec![1], member_after_consensus: vec![], node_addrs: addrs },
    );
    match &a {
        BuildSnapshotAction::NewSnapshot(h) => {
            assert_eq!((h.last_index, h.last_term), (20, 0));
            assert_eq!(h.member, vec![1]);
        },
        _ => panic!("a new snapshot is asked for"),
    }
    let (st, a) = build_snapshot_step(st, BuildSnapshotEvent::Created { id: 5 });
    assert!(matches!(a, BuildSnapshotAction::WriteConfig));
    let (st, a) = build_snapshot_step(st, BuildSnapshotEvent::Written);
    assert!(matches!(a, BuildSnapshotAction::WriteTable));
    let (st, a) = build_snapshot_step(st, BuildSnapshotEvent::Written);
    assert!(matches!(a, BuildSnapshotAction::WriteNamespace));
    let (st, a) = build_snapshot_step(st, BuildSnapshotEvent::Written);
    assert!(matches!(a, BuildSnapshotAction::Flush));
    let (st, a) = build_snapshot_step(st, BuildSnapshotEvent::Written);
    match a {
        BuildSnapshotAction::CompleteSnapshot(r) => assert_eq!((r.id, r.end_index), (5, 20)),
        _ => panic!("the snapshot is completed after the flush"),
    }
    let (st, a) = build_snapshot_step(st, BuildSnapshotEvent::Completed);
    assert!(matches!(a, BuildSnapshotAction::Finish { id: 5 }));
    assert!(matches!(st, BuildSnapshotState::Finished { id: 5, .. }));
}

#[test]
fn build_snapshot_uses_term_of_last_entry_and_stops_on_failure() {
    let (st, _) = build_snapshot_step(BuildSnapshotState::Idle { last_index: 3 }, BuildSnapshotEvent::Start);
    let (st, _) = build_snapshot_step(st, BuildSnapshotEvent::LastLog { term: Some(2) });
    assert!(matches!(st, BuildSnapshotState::AwaitMember { last_index: 3, last_term: 2 }));
    let (st, a) = build_snapshot_step(st, BuildSnapshotEvent::Failed);
    assert!(matches!(a, BuildSnapshotAction::Abort));
    let (_, a) = build_snapshot_step(st, BuildSnapshotEvent::Written);
    assert!(matches!(a, BuildSnapshotAction::Abort));
    // an event that does not answer the last step fails the build
    let (_, a) = build_snapshot_step(BuildSnapshotState::Idle { last_index: 3 }, BuildSnapshotEvent::Written);
    assert!(matches!(a, BuildSnapshotAction::Abort));
}

#[test]
fn route_actions_per_request() {
    let set = RouterRequest::ConfigSet {
        key: "d\x02g\x02t".to_string(),
        value: "v".to_string(),
        op_user: None,
        config_type: None,
        desc: Some("d".to_string()),
        extend_info: StrMap::new(),
    };
    assert_eq!(set.kind(), RouteKind::ConfigSet);
    assert!(matches!(route_action(set), RouteAction::ConfigAdd { value, desc: Some(_), .. } if value == "v"));
    let join = RouterRequest::JoinNode { node_id: 3, node_addr: "c:3".to_string() };
    assert!(matches!(
        route_action(join),
        RouteAction::JoinNode { node_id: 3, write: ClientRequest::NodeAddr { id: 3, addr } } if addr == "c:3"
    ));
    let ns = RouterRequest::NamespaceReq { req: NamespaceRaftReq { body: vec![1] } };
    assert!(matches!(route_action(ns), RouteAction::RaftWrite(ClientRequest::NamespaceReq(_))));
    let q = RouterRequest::TableManagerQueryReq { req: TableManagerQueryReq::QueryTableNames };
    assert!(matches!(route_action(q), RouteAction::TableQuery(TableManagerQueryReq::QueryTableNames)));
    let lim = RouterRequest::CacheLimiterReq { req: CacheLimiterReq::Second { key: "k".to_string(), limit: 1 } };
    assert!(matches!(route_action(lim), RouteAction::Limiter(_)));
}

#[test]
fn route_responses_per_kind() {
    assert!(matches!(
        route_response(RouteKind::Table, Ok(RouteReply::Table(TableManagerResult::NextId(3)))),
        Ok(RouterResponse::TableManagerResult { result: TableManagerResult::NextId(3) })
    ));
    assert!(matches!(
        route_response(RouteKind::Limiter, Ok(RouteReply::Cache(CacheManagerResult::Limiter(true)))),
        Ok(RouterResponse::CacheManagerResult { result: CacheManagerResult::Limiter(true) })
    ));
    assert!(matches!(
        route_response(RouteKind::Import, Ok(RouteReply::Import(TransferImportResponse::Running))),
        Ok(RouterResponse::ImportResult { result: TransferImportResponse::Running })
    ));
    assert!(matches!(
        route_response(RouteKind::Namespace, Ok(RouteReply::Raft(ClientResponse::Success))),
        Ok(RouterResponse::NamespaceResult { result: NamespaceRaftResult::Done })
    ));
    assert!(matches!(
        route_response(RouteKind::Namespace, Ok(RouteReply::Raft(ClientResponse::Fail))),
        Ok(RouterResponse::Done)
    ));
    assert!(matches!(route_response(RouteKind::JoinNode, Ok(RouteReply::Done)), Ok(RouterResponse::Done)));
    assert!(matches!(
        route_response(RouteKind::ConfigSet, Err(RouteError { message: "no leader".to_string() })),
        Err(e) if e.message == "no leader"
    ));
}

fn skey(name: &str) -> CacheKey {
    CacheKey::new(CacheType::String, name.to_string())
}

#[test]
fn cache_set_needs_route_and_writes_row() {
    let set = CacheManagerReq::SetValue { key: skey("a"), value: CacheValue::String("x".to_string()), ttl: 30 };
    assert!(matches!(plan_cache_request(set, 100, false), Err(CacheError::NoTableRoute)));
    let set = CacheManagerReq::SetValue { key: skey("a"), value: CacheValue::String("x".to_string()), ttl: 30 };
    let plan = plan_cache_request(set, 100, true).unwrap();
    match plan.write {
        Some(CacheTableWrite::SetRow { key, value: CacheValue::String(v), timeout }) => {
            assert_eq!(key.key, "a");
            assert_eq!(v, "x");
            assert_eq!(timeout, 130);
        },
        _ => panic!("a set writes the row"),
    }
    assert!(matches!(plan.ctx, CacheManagerInnerCtx::SetValue { ttl: 30, .. }));
    assert!(matches!(plan_cache_request(CacheManagerReq::Remove(skey("a")), 1, false), Err(CacheError::NoTableRoute)));
    let get = plan_cache_request(CacheManagerReq::Get(skey("a")), 1, false).unwrap();
    assert!(get.write.is_none());
}

#[test]
fn cache_values_expire() {
    let mut c = CacheStore::new();
    let ctx = CacheManagerInnerCtx::SetValue { key: skey("a"), value: CacheValue::String("x".to_string()), ttl: 10 };
    assert!(matches!(apply_cache_ctx(&mut c, ctx, 100).0, CacheManagerResult::Done));
    let (r, _) = apply_cache_ctx(&mut c, CacheManagerInnerCtx::Get(skey("a")), 109);
    assert!(matches!(r, CacheManagerResult::Value(CacheValue::String(v)) if v == "x"));
    let (r, _) = apply_cache_ctx(&mut c, CacheManagerInnerCtx::Get(skey("a")), 110);
    assert!(matches!(r, CacheManagerResult::Done));
    let (r, _) = apply_cache_ctx(&mut c, CacheManagerInnerCtx::Get(skey("b")), 100);
    assert!(matches!(r, CacheManagerResult::Done));
    apply_cache_ctx(&mut c, CacheManagerInnerCtx::Remove(skey("a")), 100);
    let (r, _) = apply_cache_ctx(&mut c, CacheManagerInnerCtx::Get(skey("a")), 101);
    assert!(matches!(r, CacheManagerResult::Done));
}

#[test]
fn cache_notice_of_expired_row_removes_it() {
    let mut c = CacheStore::new();
    let ctx = CacheManagerInnerCtx::NotifyChange {
        db_key: b"1a".to_vec(),
        key: skey("a"),
        value: CacheValue::String("x".to_string()),
        timeout: 100,
    };
    let (_, rm) = apply_cache_ctx(&mut c, ctx, 100);
    match rm {
        Some(TableManagerReq::Remove { table_name, key }) => {
            assert_eq!(table_name, "cache");
            assert_eq!(key, b"1a".to_vec());
        },
        _ => panic!("an expired row is removed"),
    }
    let ctx = CacheManagerInnerCtx::NotifyChange {
        db_key: b"1a".to_vec(),
        key: skey("a"),
        value: CacheValue::String("y".to_string()),
        timeout: 150,
    };
    let (_, rm) = apply_cache_ctx(&mut c, ctx, 100);
    assert!(rm.is_none());
    let (r, _) = apply_cache_ctx(&mut c, CacheManagerInnerCtx::Get(skey("a")), 149);
    assert!(matches!(r, CacheManagerResult::Value(CacheValue::String(v)) if v == "y"));
    apply_cache_ctx(&mut c, CacheManagerInnerCtx::NotifyRemove { key: skey("a") }, 100);
    let (r, _) = apply_cache_ctx(&mut c, CacheManagerInnerCtx::Get(skey("a")), 101);
    assert!(matches!(r, CacheManagerResult::Done));
}

fn entry(index: u64, payload: EntryPayload) -> StoreEntry {
    StoreEntry { index, term: 1, payload }
}

#[test]
fn inner_store_applies_after_last_applied() {
    let mut s = InnerStore::new(1);
    let (_, a) = s.handle(StoreRequest::ApplyEntryToStateMachineRange { start: 0, end: 1 });
    assert!(matches!(a, StoreAction::Nothing));
    let (_, a) = s.handle(StoreRequest::ApplyEntryToStateMachineRange { start: 0, end: 4 });
    assert!(matches!(a, StoreAction::ApplyRange { start: 1, end: 4 }));
    let fx = s.apply_entries(vec![
        entry(1, EntryPayload::Normal(ClientRequest::NodeAddr { id: 2, addr: "b:2".to_string() })),
        entry(2, EntryPayload::Normal(ClientRequest::ConfigRemove { key: "k".to_string() })),
        entry(3, EntryPayload::ConfigChange { members: vec![1, 2], members_after_consensus: vec![] }),
    ]);
    assert_eq!(fx.config_cmds.len(), 1);
    assert!(fx.save_membership);
    assert_eq!(fx.save_last_applied, Some(3));
    assert_eq!(s.last_applied_log, 3);
    assert_eq!(s.get_target_addr(2), Some("b:2".to_string()));
    let (_, a) = s.handle(StoreRequest::ApplyEntryToStateMachineRange { start: 1, end: 4 });
    assert!(matches!(a, StoreAction::Nothing));
    let m = s.get_membership_config();
    assert!(m.members.contains(&2) && m.members_after_consensus.is_none());
}

#[test]
fn inner_store_initial_state_and_log_requests() {
    let mut s = InnerStore::new(7);
    let init = s.get_initial_state(Some(LogIndexInfo { index: 4, term: 2 }));
    assert_eq!((init.last_log_index, init.hard_state.current_term), (0, 0));
    assert!(init.membership.members.contains(&7));
    assert_eq!(s.hard_state, Some((0, None)));
    let (_, a) = s.handle(StoreRequest::SaveHardState { current_term: 3, voted_for: Some(7) });
    assert!(matches!(a, StoreAction::SaveHardState));
    let (r, _) = s.handle(StoreRequest::GetInitialState { last_log: Some(LogIndexInfo { index: 4, term: 2 }) });
    match r {
        StoreResponse::InitialState(i) => {
            assert_eq!((i.last_log_index, i.last_log_term), (4, 2));
            assert_eq!((i.hard_state.current_term, i.hard_state.voted_for), (3, Some(7)));
        },
        _ => panic!("initial state"),
    }
    assert!(matches!(s.handle(StoreRequest::GetLogEntries { start: 5, stop: 5 }).1, StoreAction::Nothing));
    assert!(matches!(
        s.handle(StoreRequest::GetLogEntries { start: 2, stop: 5 }).1,
        StoreAction::ReadLog { start: 2, end: 5 }
    ));
    assert!(matches!(s.handle(StoreRequest::DeleteLogsFrom { start: 6, stop: Some(5) }).1, StoreAction::Nothing));
    assert!(matches!(
        s.handle(StoreRequest::DeleteLogsFrom { start: 6, stop: None }).1,
        StoreAction::DeleteLog { start: 6, end: u64::MAX }
    ));
    assert!(matches!(s.handle(StoreRequest::GetTargetAddr(9)).0, StoreResponse::TargetAddr(None)));
}

#[test]
fn sequence_without_router_refuses_only_block_requests() {
    assert!(matches!(
        SequenceMiddleState::NextId("k".to_string(), None, true).route_plan(100, false),
        Err(SequenceRouteError::NoRaftRouter)
    ));
    assert!(matches!(
        SequenceMiddleState::FillRange("k".to_string(), 100).route_plan(100, false),
        Err(SequenceRouteError::NoRaftRouter)
    ));
    assert!(matches!(
        SequenceMiddleState::GetDirectRange("k".to_string(), 5).route_plan(100, false),
        Err(SequenceRouteError::NoRaftRouter)
    ));
    assert!(matches!(
        SequenceMiddleState::NextId("k".to_string(), Some(4), false).route_plan(100, false),
        Ok(SequenceAction::Ready(SequenceBeforeResult::NextId(_, 4, false)))
    ));
    assert!(matches!(
        SequenceMiddleState::FillIgnore.route_plan(100, false),
        Ok(SequenceAction::Ready(SequenceBeforeResult::FillIgnore))
    ));
    let a = SequenceMiddleState::FillRange("k".to_string(), 50).route_plan(100, true).unwrap();
    assert!(matches!(complete_action(a, 200, 50), SequenceBeforeResult::FillRange { start: 200, len: 50, .. }));
    let resp = ClientResponse::SequenceResp { resp: SequenceRaftResult::NextRange { start: 10, len: 5 } };
    assert_eq!(next_range_of(resp), Ok((10, 5)));
    assert_eq!(next_range_of(ClientResponse::Success), Err(SequenceRouteError::BadRangeResponse));
}

#[test]
fn new_seq_group_needs_refill() {
    let mut g = SeqGroup::new(100);
    assert!(g.need_apply());
    assert_eq!(g.next_id(), None);
    g.mark_apply();
    assert!(!g.need_apply());
    g.clear_apply_mark();
    assert!(g.need_apply());
}

#[test]
fn fresh_table_seq_starts_at_one() {
    let mut t = TableSeq::default();
    assert_eq!(t.next_config_id(), 1);
    assert_eq!(t.next_config_id(), 2);
    let mut n = TableSeq::new();
    assert_eq!(n.next_user_id(), 1);
}

use rnacos_raft::raft::filestore::model::LogRecordDto;
use rnacos_raft::raft::filestore::{LogFormatError, StoreUtils};
use rnacos_raft::transfer::mysql::dao::config::ConfigInfoDO;
use rnacos_raft::transfer::mysql::dao::config_history::ConfigHistoryDO;
use rnacos_raft::transfer::mysql_to_data::build_config_record;

fn history(content: Option<&str>, ts: Option<i64>, op: Option<&str>) -> ConfigHistoryDO {
    ConfigHistoryDO {
        content: content.map(|c| c.to_string()),
        gmt_create_timestamp: ts,
        op_type: op.map(|o| o.to_string()),
        src_user: Some("u".to_string()),
        ..Default::default()
    }
}

#[test]
fn config_record_replays_history_since_last_delete() {
    let mut seq = TableSeq::default();
    let config = ConfigInfoDO {
        content: Some("c3".to_string()),
        gmt_modified_timestamp: Some(5),
        ..Default::default()
    };
    // newest first: two updates after a deletion
    let hs = vec![
        history(Some("c2"), Some(20), Some("U")),
        history(Some("c1"), Some(10), Some("I")),
        history(Some("old"), Some(1), Some("D")),
        history(Some("older"), Some(0), Some("I")),
    ];
    let v = build_config_record(&mut seq, config, hs, 999);
    assert_eq!(v.len(), 3);
    assert_eq!((v[0].content.as_str(), v[0].id, v[0].op_time), ("c1", 1, 10000));
    assert_eq!((v[1].content.as_str(), v[1].id, v[1].op_time), ("c2", 2, 20000));
    assert_eq!(v[1].op_user, Some("u".to_string()));
    // the current content differs from the last version: taken at the later time
    assert_eq!((v[2].content.as_str(), v[2].id, v[2].op_time), ("c3", 3, 20000));
    assert_eq!(v[2].op_user, None);
    assert_eq!(seq.next_config_id(), 4);
}

#[test]
fn config_record_without_new_content_keeps_history() {
    let mut seq = TableSeq::default();
    let config = ConfigInfoDO { content: Some("c1".to_string()), ..Default::default() };
    let hs = vec![history(Some("c1"), None, None), history(None, Some(3), None)];
    let v = build_config_record(&mut seq, config, hs, 777);
    assert_eq!(v.len(), 1);
    assert_eq!((v[0].content.as_str(), v[0].id, v[0].op_time), ("c1", 1, 777));
    let mut seq = TableSeq::default();
    let v = build_config_record(&mut seq, ConfigInfoDO::default(), vec![], 5);
    assert_eq!(v.len(), 1);
    assert_eq!((v[0].content.as_str(), v[0].op_time), ("", 5));
}

#[test]
fn log_record_to_entry_keeps_index_and_term() {
    let rec = LogRecordDto { index: 4, term: 2, value: b"{}".to_vec() };
    let e = StoreUtils::log_record_to_entry(rec, Some(EntryPayload::Blank)).unwrap();
    assert_eq!((e.index, e.term), (4, 2));
    let rec = LogRecordDto { index: 5, term: 2, value: b"x".to_vec() };
    assert!(matches!(StoreUtils::log_record_to_entry(rec, None), Err(LogFormatError { index: 5 })));
}

#[test]
fn page_rows_filtered_by_key_pattern() {
    let rows = vec![
        (b"a1".to_vec(), b"x".to_vec()),
        (b"b1".to_vec(), b"y".to_vec()),
        (b"a2".to_vec(), b"z".to_vec()),
    ];
    let page = TableManager::page_of(&rows, Some(0), None, false);
    let matches: Vec<bool> = page.iter().map(|(k, _)| k.starts_with(b"a")).collect();
    let kept = TableManager::keep_matching(page, &matches);
    assert_eq!(kept, vec![(b"a1".to_vec(), b"x".to_vec()), (b"a2".to_vec(), b"z".to_vec())]);
}

#[test]
fn installed_snapshot_saves_its_members() {
    let mut addrs = IdMap::new();
    addrs.insert(1, "a:1".to_string());
    let h = SnapshotHeaderDto { last_index: 9, last_term: 2, member: vec![1], member_after_consensus: vec![], node_addrs: addrs };
    match snapshot_member_request(h) {
        RaftIndexRequest::SaveMember { member, member_after_consensus, node_addr } => {
            assert_eq!(member, vec![1]);
            assert!(member_after_consensus.is_none());
            assert!(node_addr.is_some());
        },
        _ => panic!("the members are saved"),
    }
    let h = SnapshotHeaderDto { last_index: 9, last_term: 2, member: vec![1], member_after_consensus: vec![1, 2], node_addrs: IdMap::new() };
    assert!(matches!(
        snapshot_member_request(h),
        RaftIndexRequest::SaveMember { member_after_consensus: Some(m), .. } if m == vec![1, 2]
    ));
}

#[test]
fn table_reads_name_the_row_tree() {
    let mut m = TableManager::new();
    let set = TableManagerReq::SetValue { table_name: "t".to_string(), key: b"k".to_vec(), value: b"v".to_vec(), last_seq_id: None };
    m.handle(set).unwrap();
    match m.query_plan(TableManagerQueryReq::Get { table_name: "t".to_string(), key: "k".to_string() }) {
        TableQueryPlan::Lookup { tree, key } => {
            assert_eq!(tree, "t_t");
            assert_eq!(key, b"k".to_vec());
        },
        _ => panic!("a known table is read"),
    }
    assert!(matches!(
        m.query_plan(TableManagerQueryReq::GetByBytes { table_name: "u".to_string(), key: vec![1] }),
        TableQueryPlan::Unknown { page: false }
    ));
    let q = TableManagerQueryReq::QueryPageList { table_name: "t".to_string(), like_key: None, offset: Some(1), limit: None, is_rev: true };
    assert!(matches!(m.query_plan(q), TableQueryPlan::Page { offset: Some(1), is_rev: true, .. }));
    match m.query_plan(TableManagerQueryReq::QueryTableNames) {
        TableQueryPlan::Names(v) => assert_eq!(v, vec!["t_t".to_string()]),
        _ => panic!("the names of the trees"),
    }
}

use rnacos_raft::raft::filestore::apply::{
    apply_request_answer, snapshot_record_target, SnapshotLoadError, SnapshotLoadTarget, SnapshotTreeNames,
};
use rnacos_raft::raft::filestore::model::SnapshotRecordDto;
use rnacos_raft::raft::filestore::raftindex::RaftIndexInnerManager;
use rnacos_raft::raft::filestore::storecore::{compaction_plan, set_to_vec, vec_to_set, MembershipConfig};
use rnacos_raft::raft::join_plan;

#[test]
fn applied_request_tells_index_only_on_success() {
    let (r, save) = apply_request_answer(TargetKind::Config, Ok(TargetReply::Done), 9);
    assert!(matches!(r, Ok(ClientResponse::Success)));
    assert!(matches!(save, Some(RaftIndexRequest::SaveLastAppliedLog(9))));
    let (r, save) = apply_request_answer(TargetKind::Table, Err(ApplyError { message: "x".to_string() }), 9);
    assert!(r.is_err());
    assert!(save.is_none());
    let (r, save) = apply_request_answer(TargetKind::Index, Ok(TargetReply::Done), 3);
    assert!(matches!(r, Ok(ClientResponse::Success)));
    assert!(matches!(save, Some(RaftIndexRequest::SaveLastAppliedLog(3))));
}

fn names() -> SnapshotTreeNames {
    SnapshotTreeNames {
        config: "config".to_string(),
        sequence: "sequence".to_string(),
        user: "users".to_string(),
        cache: "cache".to_string(),
        namespace: "namespace".to_string(),
        mcp_server: "mcp_server".to_string(),
        mcp_tool_spec: "mcp_tool_spec".to_string(),
        seq_key_config: "config".to_string(),
    }
}

fn rec(tree: &str, key: &[u8], value: &[u8]) -> SnapshotRecordDto {
    SnapshotRecordDto { tree: tree.to_string(), key: key.to_vec(), value: value.to_vec(), op_type: 0 }
}

#[test]
fn snapshot_records_go_to_their_services() {
    let n = names();
    assert!(matches!(
        snapshot_record_target(rec("config", b"a\x02b", b"v"), &n),
        Ok(Some(SnapshotLoadTarget::ConfigValue { key, value })) if key == "a\x02b" && value == b"v".to_vec()
    ));
    assert!(matches!(snapshot_record_target(rec("config", &[0xff], b"v"), &n), Err(SnapshotLoadError::BadConfigKey)));
    assert!(matches!(
        snapshot_record_target(rec("sequence", b"config", &[0, 0, 0, 0, 0, 0, 1, 2]), &n),
        Ok(Some(SnapshotLoadTarget::ConfigLastId(258)))
    ));
    assert!(matches!(snapshot_record_target(rec("sequence", b"config", &[1]), &n), Err(SnapshotLoadError::BadLastId)));
    assert!(matches!(
        snapshot_record_target(rec("sequence", b"other", &[1]), &n),
        Ok(Some(SnapshotLoadTarget::Sequence(_)))
    ));
    match snapshot_record_target(rec("users", b"u", b"x"), &n) {
        Ok(Some(SnapshotLoadTarget::Table(TableManagerReq::SetValue { table_name, key, value, last_seq_id }))) => {
            assert_eq!(table_name, "users");
            assert_eq!((key, value, last_seq_id), (b"u".to_vec(), b"x".to_vec(), None));
        },
        _ => panic!("a user row is set in its table"),
    }
    assert!(matches!(snapshot_record_target(rec("cache", b"k", b"x"), &n), Ok(Some(SnapshotLoadTarget::Table(_)))));
    assert!(matches!(snapshot_record_target(rec("namespace", b"k", b"x"), &n), Ok(Some(SnapshotLoadTarget::Namespace(_)))));
    assert!(matches!(snapshot_record_target(rec("mcp_tool_spec", b"k", b"x"), &n), Ok(Some(SnapshotLoadTarget::Mcp(_)))));
    assert!(matches!(snapshot_record_target(rec("other", b"k", b"x"), &n), Ok(None)));
}

#[test]
fn join_changes_membership_only_for_a_new_node() {
    let m = MembershipConfig::from_lists(&vec![1, 2], &vec![]);
    assert!(join_plan(&m, 2).is_none());
    let mut v = join_plan(&m, 3).unwrap();
    v.sort();
    assert_eq!(v, vec![1, 2, 3]);
    let m = MembershipConfig::from_lists(&vec![1], &vec![1, 4]);
    assert!(join_plan(&m, 4).is_none());
    let mut v = join_plan(&m, 5).unwrap();
    v.sort();
    v.dedup();
    assert_eq!(v, vec![1, 4, 5]);
    let mut w = set_to_vec(&vec_to_set(&vec![3, 1, 3]));
    w.sort();
    assert_eq!(w, vec![1, 3]);
}

#[test]
fn page_answer_counts_table_rows() {
    let rows = vec![
        (b"a1".to_vec(), b"x".to_vec()),
        (b"b1".to_vec(), b"y".to_vec()),
        (b"a2".to_vec(), b"z".to_vec()),
    ];
    let flags = vec![true, false, true];
    let (total, page) = TableManager::query_page_answer(&rows, Some(0), Some(2), true, Some(&flags));
    assert_eq!(total, 3);
    assert_eq!(page, vec![(b"a2".to_vec(), b"z".to_vec())]);
    let (total, page) = TableManager::query_page_answer(&rows, Some(1), None, false, None);
    assert_eq!(total, 3);
    assert_eq!(page.len(), 2);
}

#[test]
fn short_index_file_is_written_anew() {
    let (m, bytes) = RaftIndexInnerManager::init_from(&[1, 2, 3]).unwrap();
    assert_eq!(m.last_applied_log, 0);
    assert_eq!(bytes, Some(vec![8, 0, 0, 0, 0, 0, 0, 0, 0, 0]));
}

#[test]
fn compaction_writes_pointer_for_new_snapshot() {
    let h = SnapshotHeaderDto { last_index: 9, last_term: 2, member: vec![1], member_after_consensus: vec![], node_addrs: IdMap::new() };
    let p = compaction_plan(&h, 0);
    assert_eq!((p.term, p.index, p.pointer), (2, 9, None));
    let p = compaction_plan(&h, 7);
    assert_eq!(p.pointer, Some(7));
    assert!(p.membership.members.contains(&1));
}

#[test]
fn inner_store_answers_stored_membership() {
    let mut s = InnerStore::new(1);
    s.apply_entries(vec![entry(1, EntryPayload::ConfigChange { members: vec![1, 2], members_after_consensus: vec![] })]);
    match s.handle(StoreRequest::GetMembershipConfig).0 {
        StoreResponse::MembershipConfig(c) => assert!(c.members.contains(&2)),
        _ => panic!("the membership"),
    }
}
