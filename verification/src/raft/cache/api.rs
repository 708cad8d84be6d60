use vstd::prelude::*;
use crate::common::utf8::string_from_utf8;
use crate::raft::cache::model::{CacheKey, CacheType, CacheValue, json_object_bytes, pairs_view};

verus! {

/// The parameters of a request on a text cache entry.
#[derive(Clone, Debug)]
pub struct StringCacheDto {
    pub key: String,
    pub value: Option<String>,
    pub ttl: Option<i32>,
}

/// The answer to a cache read.
#[derive(Clone, Debug)]
pub struct ValueResult {
    pub success: bool,
    pub value: String,
}

/// How long a cache entry lives when the request names no time, in seconds.
pub const DEFAULT_CACHE_TTL: i32 = 1200;

impl StringCacheDto {
    /// The entry that a set request stores: a text value (empty when none
    /// is given) under the text key, living `ttl` seconds or the default.
    pub fn to_set_request(self) -> (r: (CacheKey, CacheValue, i32))
        ensures
            r.0.cache_type == CacheType::String && r.0.key == self.key,
            r.1 matches CacheValue::String(v) && v@ == match self.value {
                Some(s) => s@,
                None => Seq::<char>::empty(),
            },
            r.2 == match self.ttl {
                Some(t) => t,
                None => DEFAULT_CACHE_TTL,
            },
    {
        let value = match self.value {
            Some(v) => v,
            None => String::new(),
        };
        let ttl = match self.ttl {
            Some(t) => t,
            None => DEFAULT_CACHE_TTL,
        };
        (CacheKey::new(CacheType::String, self.key), CacheValue::String(value), ttl)
    }

    /// The key that a read or remove request names.
    pub fn to_key(&self) -> (r: CacheKey)
        ensures
            r.cache_type == CacheType::String && r.key@ == self.key@,
    {
        CacheKey::new(CacheType::String, self.key.clone())
    }
}

/// The text of JSON bytes: their characters when they are UTF-8, else nothing.
pub open spec fn json_text(bytes: Seq<u8>, text: Seq<char>) -> bool {
    if vstd::utf8::valid_utf8(bytes) {
        text == vstd::utf8::decode_utf8(bytes)
    } else {
        text == Seq::<char>::empty()
    }
}

impl ValueResult {
    /// The answer to a read that found `found`, or nothing: text is given
    /// back as it is, a map as its JSON text (empty if that text were not
    /// UTF-8), a missing entry as a failure with a message.
    pub fn from_lookup(found: Option<CacheValue>) -> (r: Self)
        ensures
            match found {
                Some(CacheValue::String(v)) => r.success && r.value == v,
                Some(CacheValue::KvMap(m)) => r.success && json_text(json_object_bytes(pairs_view(m.spec_entries())), r.value@),
                Some(CacheValue::UserSession(m)) => r.success && json_text(json_object_bytes(pairs_view(m.spec_entries())), r.value@),
                None => !r.success && r.value@ == "not found key value"@,
            },
    {
        match found {
            Some(v) => {
                let text = match v {
                    CacheValue::String(s) => s,
                    _ => match string_from_utf8(v.to_bytes()) {
                        Some(s) => s,
                        None => String::new(),
                    },
                };
                ValueResult { success: true, value: text }
            },
            None => ValueResult { success: false, value: String::from_str("not found key value") },
        }
    }
}

} // verus!
