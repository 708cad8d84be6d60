use rnacos_raft::common::strmap::StrMap;
use rnacos_raft::raft::asyncraft::store::{RaftLog, ShutdownError as AsyncShutdownError, StateMachine};
use rnacos_raft::raft::cache::api::{StringCacheDto, ValueResult, DEFAULT_CACHE_TTL};
use rnacos_raft::raft::cache::model::{CacheKey, CacheType, CacheValue, CacheValueError, UnknownCacheType};
use rnacos_raft::raft::cluster::model::{ConfigKey, DelConfigReq, RouteAddr, SetConfigReq};
use rnacos_raft::raft::cluster::route::{route_addr, route_target, RouteTarget};
use rnacos_raft::raft::db::kvapi::{KvOpParam, KvValueResult};
use rnacos_raft::raft::network::management::{InjectErrorReq, InjectScene};
use rnacos_raft::raft::store::{ClientResponse, ShutdownError};
use rnacos_raft::sequence::model::SequenceRaftResult;
use rnacos_raft::transfer::model::{
    TransferBackupParam, TransferHeaderDto, TransferItem, TransferRecordDto,
};
use rnacos_raft::transfer::sqlite::TableSeq;

#[test]
fn cache_type_bytes() {
    assert_eq!(CacheType::String.get_type_data(), 1);
    assert_eq!(CacheType::KvMap.get_type_data(), 2);
    assert_eq!(CacheType::UserSession.get_type_data(), 10);
    let t = CacheType::default();
    assert_eq!(t, CacheType::String);
    assert_eq!(t.from_data(2), Ok(CacheType::KvMap));
    assert_eq!(t.from_data(10), Ok(CacheType::UserSession));
    assert_eq!(t.from_data(3), Err(UnknownCacheType { value: 3 }));
    for ty in [CacheType::String, CacheType::KvMap, CacheType::UserSession] {
        assert_eq!(t.from_data(ty.get_type_data()), Ok(ty));
    }
}

#[test]
fn cache_value_bytes() {
    let v = CacheValue::String("abc".to_string());
    assert_eq!(v.to_bytes(), b"abc".to_vec());
    match CacheValue::from_bytes(b"abc".to_vec(), CacheType::String) {
        Ok(CacheValue::String(s)) => assert_eq!(s, "abc"),
        _ => panic!("unexpected value"),
    }
    assert!(matches!(CacheValue::from_bytes(vec![0xff], CacheType::String), Err(CacheValueError::BadUtf8)));
    let mut m = StrMap::new();
    m.insert("b".to_string(), "2".to_string());
    m.insert("a".to_string(), "1".to_string());
    let bytes = CacheValue::KvMap(m).to_bytes();
    assert_eq!(bytes, br#"{"a":"1","b":"2"}"#.to_vec());
    match CacheValue::from_bytes(bytes, CacheType::UserSession) {
        Ok(CacheValue::UserSession(back)) => {
            assert_eq!(back.len(), 2);
            assert_eq!(back.get(&"b".to_string()), Some(&"2".to_string()));
        }
        _ => panic!("unexpected value"),
    }
    assert!(matches!(CacheValue::from_bytes(b"[1]".to_vec(), CacheType::KvMap), Err(CacheValueError::BadJson)));
    assert!(matches!(CacheValue::default(), CacheValue::String(s) if s.is_empty()));
}

#[test]
fn cache_api_requests() {
    let dto = StringCacheDto { key: "k".to_string(), value: None, ttl: None };
    let key = dto.to_key();
    assert_eq!(key.cache_type, CacheType::String);
    let (k, v, ttl) = dto.to_set_request();
    assert_eq!(k.key, "k");
    assert!(matches!(v, CacheValue::String(s) if s.is_empty()));
    assert_eq!(ttl, DEFAULT_CACHE_TTL);
    assert_eq!(ttl, 1200);
    let r = ValueResult::from_lookup(Some(CacheValue::String("x".to_string())));
    assert!(r.success);
    assert_eq!(r.value, "x");
    let r = ValueResult::from_lookup(None);
    assert!(!r.success);
    assert_eq!(r.value, "not found key value");
    let mut m = StrMap::new();
    m.insert("a".to_string(), "1".to_string());
    let r = ValueResult::from_lookup(Some(CacheValue::KvMap(m)));
    assert_eq!(r.value, r#"{"a":"1"}"#);
    let ck = CacheKey::new(CacheType::UserSession, "u".to_string());
    assert_eq!(ck.key, "u");
}

#[test]
fn kv_api_values() {
    let p = KvOpParam { table_name: "t".to_string(), key: "k".to_string(), value: Some("é".to_string()) };
    assert_eq!(p.value_bytes(), "é".as_bytes().to_vec());
    let p = KvOpParam { table_name: "t".to_string(), key: "k".to_string(), value: None };
    assert!(p.value_bytes().is_empty());
    let r = KvValueResult::from_lookup(Some(b"v".to_vec()));
    assert!(r.success);
    assert_eq!(r.value, "v");
    let r = KvValueResult::from_lookup(None);
    assert!(!r.success);
    assert_eq!(r.value, "not found key value");
}

#[test]
fn config_requests_and_routes() {
    let key = ConfigKey { data_id: "d".to_string(), group: "g".to_string(), tenant: String::new() };
    let r = SetConfigReq::new(key.clone(), "v".to_string());
    assert!(r.op_user.is_none());
    let r = SetConfigReq::new_with_op_user(key.clone(), "v".to_string(), "admin".to_string());
    assert_eq!(r.op_user, Some("admin".to_string()));
    assert_eq!(DelConfigReq::new(key).config_key.data_id, "d");
    assert_eq!(route_target(Some(1), 1), RouteTarget::Local);
    assert_eq!(route_target(Some(2), 1), RouteTarget::Remote(2));
    assert_eq!(route_target(None, 1), RouteTarget::Unknown);
    assert!(matches!(route_addr(RouteTarget::Remote(2), "h:2".to_string()), RouteAddr::Remote(2, a) if a == "h:2"));
    assert!(matches!(route_addr(RouteTarget::Unknown, String::new()), RouteAddr::Unknown));
}

#[test]
fn store_types() {
    assert!(matches!(ClientResponse::default(), ClientResponse::Success));
    let resp = ClientResponse::SequenceResp { resp: SequenceRaftResult::NextId(3) };
    assert!(matches!(resp, ClientResponse::SequenceResp { resp: SequenceRaftResult::NextId(3) }));
    assert_eq!(ShutdownError::UnsafeStorageError.message(), "unsafe storage error");
    assert_eq!(AsyncShutdownError::UnsafeStorageError.message(), "unsafe storage error");
    let sm = StateMachine::new();
    assert_eq!(sm.last_applied_log, 0);
    assert_eq!(sm.data.len(), 0);
    assert_eq!(RaftLog::default(), RaftLog { index: 0, term: 0 });
}

#[test]
fn inject_error_scenes() {
    let r = InjectErrorReq { scene: "discard_log".to_string(), times: 3 };
    assert_eq!(r.scene_of(), Some(InjectScene::DiscardLog { times: 3 }));
    let r = InjectErrorReq { scene: "other".to_string(), times: 3 };
    assert_eq!(r.scene_of(), None);
}

#[test]
fn transfer_header_numbers_names() {
    let mut h = TransferHeaderDto::new(1, 1000, "0.6.0");
    assert_eq!(h.max_id, 0);
    h.add_name("config".to_string());
    h.add_name("user".to_string());
    h.add_name("config".to_string());
    assert_eq!(h.max_id, 2);
    assert_eq!(h.name_to_id.get(&"config".to_string()), Some(&1));
    assert_eq!(h.name_to_id.get(&"user".to_string()), Some(&2));
    assert_eq!(h.id_to_name.get(&2), Some(&"user".to_string()));
    assert_eq!(h.from_sys, Some("r-nacos_0.6.0".to_string()));
}

#[test]
fn transfer_record_roundtrip() {
    let r = TransferRecordDto { table_name: Some("config".to_string()), table_id: 0, key: b"k".to_vec(), value: b"v".to_vec() };
    let item = r.to_do();
    assert_eq!(item.table_name, "config");
    let back = TransferRecordDto::from_do(item);
    assert_eq!(back.table_name, Some("config".to_string()));
    assert_eq!(back.key, b"k".to_vec());
    let none = TransferRecordDto { table_name: None, table_id: 3, key: vec![], value: vec![] };
    let item = none.to_do();
    assert!(item.table_name.is_empty());
    assert!(TransferRecordDto::from_do(item).table_name.is_none());
    // an empty name reads back as no name
    let empty = TransferRecordDto { table_name: Some(String::new()), table_id: 0, key: vec![], value: vec![] };
    assert!(TransferRecordDto::from_do(empty.to_do()).table_name.is_none());
    let stored = TransferItem { table_name: "t".to_string(), table_id: 4, key: vec![1], value: vec![2] };
    assert_eq!(TransferRecordDto::from_do(stored).table_id, 4);
    let all = TransferBackupParam::all();
    assert!(all.config && all.user && all.cache);
}

#[test]
fn table_seq_counts_up() {
    let mut seq = TableSeq::default();
    assert_eq!(seq.next_config_id(), 1);
    assert_eq!(seq.next_config_id(), 2);
    assert_eq!(seq.next_config_history_id(), 1);
    assert_eq!(seq.next_tenant_id(), 1);
    assert_eq!(seq.next_user_id(), 1);
    assert_eq!(seq.next_user_id(), 2);
    let mut other = rnacos_raft::transfer::data_to_sqlite::TableSeq::default();
    assert_eq!(other.next_tenant_id(), 1);
}

use rnacos_raft::raft::cache::{limiter_key, limiter_timeout, limiter_ttl, CacheLimiterReq};

#[test]
fn cache_limiter_windows() {
    let (w, k, l) = CacheLimiterReq::Second { key: "a".to_string(), limit: 5 }.limit_params();
    assert_eq!((w, k.as_str(), l), (1000, "a", 5));
    assert_eq!(CacheLimiterReq::Minutes { key: "a".to_string(), limit: 5 }.limit_params().0, 601000);
    assert_eq!(CacheLimiterReq::Hour { key: "a".to_string(), limit: 5 }.limit_params().0, 3600000);
    assert_eq!(CacheLimiterReq::Day { key: "a".to_string(), limit: 5 }.limit_params().0, 86400000);
    let p = CacheLimiterReq::OtherMills { key: "b".to_string(), limit: 2, rate_to_ms_conversion: 2500 }.limit_params();
    assert_eq!((p.0, p.2), (2500, 2));
    assert_eq!(limiter_ttl(2500), 2);
    assert_eq!(limiter_ttl(-2500), -2);
    assert_eq!(limiter_timeout(1_700_000_000_500, 1000), 1_700_000_001);
    assert_eq!(limiter_key("x".to_string()).key, "x");
}
