use vstd::prelude::*;
use crate::raft::cache::model::{CacheKey, CacheType, CacheValue, text_map};
use crate::common::strmap::StrMap;
use crate::raft::db::table::TableManagerReq;

pub mod api;
pub mod model;

verus! {

/// A request to count one use of `key` against a limit per time window.
#[derive(Clone, Debug)]
pub enum CacheLimiterReq {
    Second { key: String, limit: i32 },
    Minutes { key: String, limit: i32 },
    Hour { key: String, limit: i32 },
    Day { key: String, limit: i32 },
    OtherMills { key: String, limit: i32, rate_to_ms_conversion: i32 },
}

/// The length in milliseconds of the window of a limiter request; the
/// window of `Minutes` is 601000 ms.
pub open spec fn limiter_window_ms(req: CacheLimiterReq) -> i32 {
    match req {
        CacheLimiterReq::Second { .. } => 1000,
        CacheLimiterReq::Minutes { .. } => 601000,
        CacheLimiterReq::Hour { .. } => 3600000,
        CacheLimiterReq::Day { .. } => 86400000,
        CacheLimiterReq::OtherMills { rate_to_ms_conversion, .. } => rate_to_ms_conversion,
    }
}

/// Division rounded toward zero, as Rust's `/` on integers.
pub open spec fn div_toward_zero(x: int, d: int) -> int {
    if x >= 0 {
        x / d
    } else {
        -((-x) / d)
    }
}

impl CacheLimiterReq {
    /// The window in milliseconds, the key and the limit of the request.
    pub fn limit_params(self) -> (r: (i32, String, i32))
        ensures
            r.0 == limiter_window_ms(self),
            match self {
                CacheLimiterReq::Second { key, limit } => r.1 == key && r.2 == limit,
                CacheLimiterReq::Minutes { key, limit } => r.1 == key && r.2 == limit,
                CacheLimiterReq::Hour { key, limit } => r.1 == key && r.2 == limit,
                CacheLimiterReq::Day { key, limit } => r.1 == key && r.2 == limit,
                CacheLimiterReq::OtherMills { key, limit, .. } => r.1 == key && r.2 == limit,
            },
    {
        match self {
            CacheLimiterReq::Second { key, limit } => (1000, key, limit),
            CacheLimiterReq::Minutes { key, limit } => (601000, key, limit),
            CacheLimiterReq::Hour { key, limit } => (3600000, key, limit),
            CacheLimiterReq::Day { key, limit } => (86400000, key, limit),
            CacheLimiterReq::OtherMills { key, limit, rate_to_ms_conversion } => (rate_to_ms_conversion, key, limit),
        }
    }
}

/// The cache key under which the counter of a limited key is kept.
pub fn limiter_key(key: String) -> (r: CacheKey)
    ensures
        r.cache_type == CacheType::String,
        r.key == key,
{
    CacheKey::new(CacheType::String, key)
}

/// How long, in seconds, a counter stays in the cache: the window in whole
/// seconds.
pub fn limiter_ttl(window_ms: i32) -> (r: i32)
    ensures
        r == div_toward_zero(window_ms as int, 1000),
{
    window_ms / 1000
}

/// The second at which a stored counter expires: the end of the window that
/// starts at `now_ms`, in whole seconds, taken as `i32`.
pub fn limiter_timeout(now_ms: i64, window_ms: i32) -> (r: i32)
    requires
        i64::MIN <= now_ms + window_ms <= i64::MAX,
    ensures
        r == (div_toward_zero(now_ms + window_ms, 1000) as i32),
{
    let end = now_ms + window_ms as i64;
    #[verifier::truncate]
    ((end / 1000) as i32)
}

/// The answer of the cache manager.
pub enum CacheManagerResult {
    /// The request was carried out and has no value to give.
    Done,
    Value(CacheValue),
    /// Whether a limited use was let through.
    Limiter(bool),
}


/// A cached value as values.
pub enum CacheValueView {
    Text(Seq<char>),
    KvMap(Map<Seq<char>, Seq<char>>),
    UserSession(Map<Seq<char>, Seq<char>>),
}

/// What a cached value holds.
pub open spec fn value_view(v: CacheValue) -> CacheValueView {
    match v {
        CacheValue::String(s) => CacheValueView::Text(s@),
        CacheValue::KvMap(m) => CacheValueView::KvMap(text_map(m@)),
        CacheValue::UserSession(m) => CacheValueView::UserSession(text_map(m@)),
    }
}

impl CacheValue {
    /// A copy of the value.
    pub fn duplicate(&self) -> (r: Self)
        ensures
            value_view(r) == value_view(*self),
    {
        match self {
            CacheValue::String(s) => CacheValue::String(s.clone()),
            CacheValue::KvMap(m) => CacheValue::KvMap(m.duplicate()),
            CacheValue::UserSession(m) => CacheValue::UserSession(m.duplicate()),
        }
    }
}

impl CacheKey {
    /// A copy of the key.
    pub fn duplicate(&self) -> (r: Self)
        ensures
            r == *self,
    {
        CacheKey { cache_type: self.cache_type, key: self.key.clone() }
    }
}

/// A value in the cache, with the second at which it expires.
pub struct CacheSlot {
    pub value: CacheValue,
    pub expire_at: i64,
}

/// The cache of values by key, each with the second at which it expires;
/// a value is seen only before that second.
pub struct CacheStore {
    strings: StrMap<CacheSlot>,
    maps: StrMap<CacheSlot>,
    sessions: StrMap<CacheSlot>,
}

impl CacheStore {
    pub closed spec fn wf(&self) -> bool {
        self.strings.wf() && self.maps.wf() && self.sessions.wf()
    }

    closed spec fn part(&self, t: CacheType) -> Map<Seq<char>, CacheSlot> {
        match t {
            CacheType::String => self.strings@,
            CacheType::KvMap => self.maps@,
            CacheType::UserSession => self.sessions@,
        }
    }

    /// The value kept under the key of type `t` and name `name`, with the
    /// second at which it expires.
    pub closed spec fn slot(&self, t: CacheType, name: Seq<char>) -> Option<(CacheValueView, i64)> {
        if self.part(t).contains_key(name) {
            Some((value_view(self.part(t)[name].value), self.part(t)[name].expire_at))
        } else {
            None
        }
    }

    /// The value seen under the key at second `now`: one that has not
    /// expired yet.
    pub open spec fn live(&self, t: CacheType, name: Seq<char>, now: int) -> Option<CacheValueView> {
        match self.slot(t, name) {
            Some((v, e)) => if e > now {
                Some(v)
            } else {
                None
            },
            None => None,
        }
    }

    /// An empty cache.
    pub fn new() -> (r: Self)
        ensures
            r.wf(),
            forall|t: CacheType, n: Seq<char>| #[trigger] r.slot(t, n) is None,
    {
        CacheStore { strings: StrMap::new(), maps: StrMap::new(), sessions: StrMap::new() }
    }

    /// Keeps `value` under `key` until second `expire_at`.
    pub fn set(&mut self, key: CacheKey, value: CacheValue, expire_at: i64)
        requires
            old(self).wf(),
        ensures
            final(self).wf(),
            final(self).slot(key.cache_type, key.key@) == Some((value_view(value), expire_at)),
            forall|t: CacheType, n: Seq<char>|
                !(t == key.cache_type && n == key.key@) ==> #[trigger] final(self).slot(t, n) == old(self).slot(t, n),
    {
        let slot = CacheSlot { value, expire_at };
        match key.cache_type {
            CacheType::String => self.strings.insert(key.key, slot),
            CacheType::KvMap => self.maps.insert(key.key, slot),
            CacheType::UserSession => self.sessions.insert(key.key, slot),
        }
    }

    /// Forgets the value under `key`.
    pub fn remove(&mut self, key: &CacheKey)
        requires
            old(self).wf(),
        ensures
            final(self).wf(),
            final(self).slot(key.cache_type, key.key@) is None,
            forall|t: CacheType, n: Seq<char>|
                !(t == key.cache_type && n == key.key@) ==> #[trigger] final(self).slot(t, n) == old(self).slot(t, n),
    {
        match key.cache_type {
            CacheType::String => self.strings.remove(&key.key),
            CacheType::KvMap => self.maps.remove(&key.key),
            CacheType::UserSession => self.sessions.remove(&key.key),
        }
    }

    /// The value seen under `key` at second `now`.
    pub fn get(&self, key: &CacheKey, now: i64) -> (r: Option<CacheValue>)
        requires
            self.wf(),
        ensures
            match r {
                Some(v) => self.live(key.cache_type, key.key@, now as int) == Some(value_view(v)),
                None => self.live(key.cache_type, key.key@, now as int) is None,
            },
    {
        let found = match key.cache_type {
            CacheType::String => self.strings.get(&key.key),
            CacheType::KvMap => self.maps.get(&key.key),
            CacheType::UserSession => self.sessions.get(&key.key),
        };
        match found {
            Some(slot) => if slot.expire_at > now {
                Some(slot.value.duplicate())
            } else {
                None
            },
            None => None,
        }
    }
}

/// A request to the cache manager.
pub enum CacheManagerReq {
    /// Keep `value` under `key` for `ttl` seconds, everywhere.
    SetValue { key: CacheKey, value: CacheValue, ttl: i32 },
    Get(CacheKey),
    Remove(CacheKey),
    /// A row of the table `cache` was set: the row's key as stored and as
    /// read, the value, and the second at which it expires.
    NotifyChange { db_key: Vec<u8>, key: CacheKey, value: CacheValue, timeout: i32 },
    /// A row of the table `cache` was removed.
    NotifyRemove { key: CacheKey },
}

/// What the cache does in itself once the work that a request asks of the
/// cluster is done.
pub enum CacheManagerInnerCtx {
    Get(CacheKey),
    Remove(CacheKey),
    SetValue { key: CacheKey, value: CacheValue, ttl: i32 },
    NotifyChange { db_key: Vec<u8>, key: CacheKey, value: CacheValue, timeout: i32 },
    NotifyRemove { key: CacheKey },
}

/// A change of the table `cache` to write through raft before the cache
/// itself changes: the row of `key` set to `value` expiring at second
/// `timeout`, or removed. The row's key text and stored bytes are made
/// from these by the cache's own encodings.
pub enum CacheTableWrite {
    SetRow { key: CacheKey, value: CacheValue, timeout: i32 },
    Remove { key: CacheKey },
}

/// The work a cache request asks for: first the write to the table, if
/// any, then the change of the cache.
pub struct CachePlan {
    pub write: Option<CacheTableWrite>,
    pub ctx: CacheManagerInnerCtx,
}

/// Why the cache manager refused a request.
#[derive(Clone, Copy, Debug, PartialEq, Eq)]
pub enum CacheError {
    /// A change was asked for while no route to the tables is known.
    NoTableRoute,
}

/// The work that `msg` asks for at second `now_s`, where `has_route` says
/// whether a route to the tables is known: a set writes the row with the
/// value expiring `ttl` seconds from now, a remove removes the row, both
/// only with a route (otherwise the request is refused); reads and the
/// notices of the table change only the cache.
pub fn plan_cache_request(msg: CacheManagerReq, now_s: i32, has_route: bool) -> (r: Result<CachePlan, CacheError>)
    requires
        msg matches CacheManagerReq::SetValue { ttl, .. } ==> i32::MIN <= now_s + ttl <= i32::MAX,
    ensures
        match msg {
            CacheManagerReq::SetValue { key, value, ttl } => if has_route {
                r matches Ok(p) && p.write matches Some(CacheTableWrite::SetRow { key: k, value: v, timeout }) && k
                    == key && value_view(v) == value_view(value) && timeout == now_s + ttl && p.ctx
                    == (CacheManagerInnerCtx::SetValue { key, value, ttl })
            } else {
                r == Err::<CachePlan, CacheError>(CacheError::NoTableRoute)
            },
            CacheManagerReq::Remove(key) => if has_route {
                r matches Ok(p) && p.write matches Some(CacheTableWrite::Remove { key: k }) && k == key && p.ctx
                    == CacheManagerInnerCtx::Remove(key)
            } else {
                r == Err::<CachePlan, CacheError>(CacheError::NoTableRoute)
            },
            CacheManagerReq::Get(key) => r matches Ok(p) && p.write is None && p.ctx == CacheManagerInnerCtx::Get(
                key,
            ),
            CacheManagerReq::NotifyChange { db_key, key, value, timeout } => r matches Ok(p) && p.write is None
                && p.ctx == (CacheManagerInnerCtx::NotifyChange { db_key, key, value, timeout }),
            CacheManagerReq::NotifyRemove { key } => r matches Ok(p) && p.write is None && p.ctx
                == (CacheManagerInnerCtx::NotifyRemove { key }),
        },
{
    match msg {
        CacheManagerReq::SetValue { key, value, ttl } => {
            if !has_route {
                return Err(CacheError::NoTableRoute);
            }
            let write = CacheTableWrite::SetRow { key: key.duplicate(), value: value.duplicate(), timeout: now_s + ttl };
            Ok(CachePlan { write: Some(write), ctx: CacheManagerInnerCtx::SetValue { key, value, ttl } })
        },
        CacheManagerReq::Remove(key) => {
            if !has_route {
                return Err(CacheError::NoTableRoute);
            }
            let write = CacheTableWrite::Remove { key: key.duplicate() };
            Ok(CachePlan { write: Some(write), ctx: CacheManagerInnerCtx::Remove(key) })
        },
        CacheManagerReq::Get(key) => Ok(CachePlan { write: None, ctx: CacheManagerInnerCtx::Get(key) }),
        CacheManagerReq::NotifyChange { db_key, key, value, timeout } => Ok(
            CachePlan { write: None, ctx: CacheManagerInnerCtx::NotifyChange { db_key, key, value, timeout } },
        ),
        CacheManagerReq::NotifyRemove { key } => Ok(
            CachePlan { write: None, ctx: CacheManagerInnerCtx::NotifyRemove { key } },
        ),
    }
}

/// Whether `req` removes the row `key` of the table `cache`.
pub open spec fn removes_cache_row(req: TableManagerReq, key: Seq<u8>) -> bool {
    req matches TableManagerReq::Remove { table_name, key: k } && table_name@ == "cache"@ && k@ == key
}

/// Changes the cache as `ctx` says, at second `now_s`, and answers: a read
/// gives the value seen under the key, if any; a set keeps the value for
/// `ttl` seconds; a remove forgets it; a notice of a row set keeps the
/// row's value until the row expires, but a row that has already expired
/// is not kept and its removal from the table is asked for; a notice of a
/// removed row forgets it. Only a read has a value to give.
pub fn apply_cache_ctx(cache: &mut CacheStore, ctx: CacheManagerInnerCtx, now_s: i32) -> (r: (
    CacheManagerResult,
    Option<TableManagerReq>,
))
    requires
        old(cache).wf(),
    ensures
        final(cache).wf(),
        match ctx {
            CacheManagerInnerCtx::Get(key) => {
                &&& *final(cache) == *old(cache)
                &&& r.1 is None
                &&& match old(cache).live(key.cache_type, key.key@, now_s as int) {
                    Some(v) => r.0 matches CacheManagerResult::Value(w) && value_view(w) == v,
                    None => r.0 is Done,
                }
            },
            CacheManagerInnerCtx::SetValue { key, value, ttl } => {
                &&& r.0 is Done && r.1 is None
                &&& final(cache).slot(key.cache_type, key.key@) == Some((value_view(value), (now_s + ttl) as i64))
                &&& forall|t: CacheType, n: Seq<char>|
                    !(t == key.cache_type && n == key.key@) ==> #[trigger] final(cache).slot(t, n) == old(cache).slot(t, n)
            },
            CacheManagerInnerCtx::Remove(key) | CacheManagerInnerCtx::NotifyRemove { key } => {
                &&& r.0 is Done && r.1 is None
                &&& final(cache).slot(key.cache_type, key.key@) is None
                &&& forall|t: CacheType, n: Seq<char>|
                    !(t == key.cache_type && n == key.key@) ==> #[trigger] final(cache).slot(t, n) == old(cache).slot(t, n)
            },
            CacheManagerInnerCtx::NotifyChange { db_key, key, value, timeout } => {
                &&& r.0 is Done
                &&& if timeout <= now_s {
                    &&& *final(cache) == *old(cache)
                    &&& r.1 matches Some(req) && removes_cache_row(req, db_key@)
                } else {
                    &&& r.1 is None
                    &&& final(cache).slot(key.cache_type, key.key@) == Some((value_view(value), timeout as i64))
                    &&& forall|t: CacheType, n: Seq<char>|
                        !(t == key.cache_type && n == key.key@) ==> #[trigger] final(cache).slot(t, n) == old(
                            cache,
                        ).slot(t, n)
                }
            },
        },
{
    match ctx {
        CacheManagerInnerCtx::Get(key) => {
            match cache.get(&key, now_s as i64) {
                Some(v) => (CacheManagerResult::Value(v), None),
                None => (CacheManagerResult::Done, None),
            }
        },
        CacheManagerInnerCtx::SetValue { key, value, ttl } => {
            cache.set(key, value, now_s as i64 + ttl as i64);
            (CacheManagerResult::Done, None)
        },
        CacheManagerInnerCtx::Remove(key) => {
            cache.remove(&key);
            (CacheManagerResult::Done, None)
        },
        CacheManagerInnerCtx::NotifyRemove { key } => {
            cache.remove(&key);
            (CacheManagerResult::Done, None)
        },
        CacheManagerInnerCtx::NotifyChange { db_key, key, value, timeout } => {
            if timeout <= now_s {
                proof {
                    reveal_strlit("cache");
                }
                let req = TableManagerReq::Remove { table_name: String::from_str("cache"), key: db_key };
                (CacheManagerResult::Done, Some(req))
            } else {
                cache.set(key, value, timeout as i64);
                (CacheManagerResult::Done, None)
            }
        },
    }
}

/// A value kept under a key until second `e` is seen under that key at
/// every second before `e` and at none from `e` on: what a set with `ttl`
/// seconds at second `now` gives back (with `e == now + ttl`).
pub proof fn law_cache_set_then_get(c: CacheStore, t: CacheType, name: Seq<char>, v: CacheValueView, e: i64, at: int)
    requires
        c.slot(t, name) == Some((v, e)),
    ensures
        at < e ==> c.live(t, name, at) == Some(v),
        at >= e ==> c.live(t, name, at) is None,
{
}

/// A removed key is seen at no second.
pub proof fn law_cache_removed_not_seen(c: CacheStore, t: CacheType, name: Seq<char>, at: int)
    requires
        c.slot(t, name) is None,
    ensures
        c.live(t, name, at) is None,
{
}

} // verus!
