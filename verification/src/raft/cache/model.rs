use vstd::prelude::*;
use crate::common::strmap::{StrMap, keys_unique, has_key, entries_map, lemma_entries_map_at};
use crate::common::utf8::string_from_utf8;

verus! {

/// The kind of a cached value.
#[derive(Clone, Copy, Debug, PartialEq, Eq, Hash)]
pub enum CacheType {
    String,
    KvMap,
    UserSession,
}

/// A byte that names no cache type.
#[derive(Clone, Copy, Debug, PartialEq, Eq)]
pub struct UnknownCacheType {
    pub value: u8,
}

/// The byte that stands for each cache type in storage.
pub open spec fn cache_type_byte(t: CacheType) -> u8 {
    match t {
        CacheType::String => 1,
        CacheType::KvMap => 2,
        CacheType::UserSession => 10,
    }
}

impl Default for CacheType {
    fn default() -> (r: Self)
        ensures
            r == CacheType::String,
    {
        CacheType::String
    }
}

impl CacheType {
    /// The byte stored for this type.
    pub fn get_type_data(&self) -> (r: u8)
        ensures
            r == cache_type_byte(*self),
    {
        match self {
            CacheType::String => 1,
            CacheType::KvMap => 2,
            CacheType::UserSession => 10,
        }
    }

    /// The type that a stored byte stands for; any other byte is refused.
    pub fn from_data(&self, v: u8) -> (r: Result<CacheType, UnknownCacheType>)
        ensures
            match r {
                Ok(t) => cache_type_byte(t) == v,
                Err(e) => e.value == v && forall|t: CacheType| cache_type_byte(t) != v,
            },
    {
        match v {
            1 => Ok(CacheType::String),
            2 => Ok(CacheType::KvMap),
            10 => Ok(CacheType::UserSession),
            _ => {
                proof {
                    assert forall|t: CacheType| cache_type_byte(t) != v by {
                        match t {
                            CacheType::String => {},
                            CacheType::KvMap => {},
                            CacheType::UserSession => {},
                        }
                    }
                }
                Err(UnknownCacheType { value: v })
            },
        }
    }
}

/// A stored type byte reads back as the type: `from_data` undoes `get_type_data`.
pub proof fn law_cache_type_byte_roundtrip(t: CacheType, u: CacheType)
    ensures
        cache_type_byte(t) == cache_type_byte(u) ==> t == u,
{
    match t {
        CacheType::String => {},
        CacheType::KvMap => {},
        CacheType::UserSession => {},
    }
}

/// The key of a cached value: its type and its name.
#[derive(Clone, Debug, Default)]
pub struct CacheKey {
    pub cache_type: CacheType,
    pub key: String,
}

impl CacheKey {
    pub fn new(cache_type: CacheType, key: String) -> (r: Self)
        ensures
            r.cache_type == cache_type,
            r.key == key,
    {
        CacheKey { cache_type, key }
    }
}

/// A cached value: text, or a map of text to text.
pub enum CacheValue {
    String(String),
    KvMap(StrMap<String>),
    UserSession(StrMap<String>),
}

/// Why stored bytes do not read as a cached value of the asked type.
#[derive(Clone, Copy, Debug, PartialEq, Eq)]
pub enum CacheValueError {
    /// Text that is not valid UTF-8.
    BadUtf8,
    /// A map that is not a JSON object of strings.
    BadJson,
}

/// The entries of a map, each key and value taken as text.
pub open spec fn pairs_view(entries: Seq<(String, String)>) -> Seq<(Seq<char>, Seq<char>)> {
    entries.map_values(|e: (String, String)| (e.0@, e.1@))
}

/// The JSON object that serde_json writes for a string-to-string map with
/// the given entries.
pub uninterp spec fn json_object_bytes(pairs: Seq<(Seq<char>, Seq<char>)>) -> Seq<u8>;

/// The entries, in key order, of the JSON object of strings that serde_json
/// reads from `data`, or `None` when `data` is no such object.
pub uninterp spec fn json_object_pairs(data: Seq<u8>) -> Option<Seq<(Seq<char>, Seq<char>)>>;

/// serde_json's `to_vec` on the map of `entries`, which cannot fail on
/// string keys and values; the entries are handed over as a sorted map (the
/// map type serde writes as a JSON object), so the bytes depend on the
/// entries alone. For entries with distinct keys, what serde_json writes,
/// its `from_slice` reads back as the same map; with a repeated key, which
/// value the sorted map keeps is left unsaid, and so is what is read back.
#[verifier::external_body]
fn json_to_vec(entries: &Vec<(String, String)>) -> (r: Vec<u8>)
    ensures
        r@ == json_object_bytes(pairs_view(entries@)),
        json_object_pairs(r@) is Some || !keys_unique(entries@),
        map_of_pairs(json_object_pairs(r@)->0) == map_of_pairs(pairs_view(entries@)) || !keys_unique(entries@),
{
    let m: std::collections::BTreeMap<&String, &String> = entries.iter().map(|e| (&e.0, &e.1)).collect();
    serde_json::to_vec(&m).unwrap_or_default()
}

/// serde_json's `from_slice` into a string-to-string map, handed back as its
/// entries in key order.
#[verifier::external_body]
fn json_from_slice(data: &[u8]) -> (r: Option<Vec<(String, String)>>)
    ensures
        match json_object_pairs(data@) {
            Some(p) => (r matches Some(v) && pairs_view(v@) == p),
            None => r is None,
        },
{
    let m: Option<std::collections::BTreeMap<String, String>> = serde_json::from_slice(data).ok();
    m.map(|m| m.into_iter().collect())
}

/// The map built by inserting `pairs` in order, later keys overriding.
pub open spec fn map_of_pairs(pairs: Seq<(Seq<char>, Seq<char>)>) -> Map<Seq<char>, Seq<char>>
    decreases pairs.len(),
{
    if pairs.len() == 0 {
        Map::empty()
    } else {
        map_of_pairs(pairs.drop_last()).insert(pairs.last().0, pairs.last().1)
    }
}

/// The text values of a map.
pub open spec fn text_map(m: Map<Seq<char>, String>) -> Map<Seq<char>, Seq<char>> {
    m.map_values(|v: String| v@)
}

/// Entries with distinct keys, inserted in order, give the map they stand for.
pub proof fn lemma_map_of_entries(e: Seq<(String, String)>)
    requires
        keys_unique(e),
    ensures
        map_of_pairs(pairs_view(e)) == text_map(entries_map(e)),
    decreases e.len(),
{
    if e.len() == 0 {
        assert(text_map(entries_map(e)) =~= Map::<Seq<char>, Seq<char>>::empty());
    } else {
        let d = e.drop_last();
        let l = e.last();
        assert(keys_unique(d)) by {
            assert forall|i: int, j: int| 0 <= i < d.len() && 0 <= j < d.len() && i != j implies #[trigger] d[i].0@
                != #[trigger] d[j].0@ by {
                assert(d[i] == e[i] && d[j] == e[j]);
            }
        }
        lemma_map_of_entries(d);
        assert(pairs_view(e).drop_last() =~= pairs_view(d));
        assert forall|k: Seq<char>| #[trigger] has_key(e, k) == (has_key(d, k) || k == l.0@) by {
            if has_key(e, k) {
                let i = choose|i: int| 0 <= i < e.len() && #[trigger] e[i].0@ == k;
                if i < d.len() {
                    assert(d[i].0@ == k);
                }
            }
            if has_key(d, k) {
                let i = choose|i: int| 0 <= i < d.len() && #[trigger] d[i].0@ == k;
                assert(e[i].0@ == k);
            }
            if k == l.0@ {
                assert(e[e.len() - 1].0@ == k);
            }
        }
        assert forall|k: Seq<char>| #[trigger] has_key(d, k) implies entries_map(e)[k] == entries_map(d)[k] by {
            let i = choose|i: int| 0 <= i < d.len() && #[trigger] d[i].0@ == k;
            lemma_entries_map_at(d, i);
            assert(e[i] == d[i]);
            lemma_entries_map_at(e, i);
        }
        assert(!has_key(d, l.0@)) by {
            if has_key(d, l.0@) {
                let i = choose|i: int| 0 <= i < d.len() && #[trigger] d[i].0@ == l.0@;
                assert(e[i].0@ != e[e.len() - 1].0@);
            }
        }
        lemma_entries_map_at(e, e.len() - 1);
        assert(text_map(entries_map(e)) =~= text_map(entries_map(d)).insert(l.0@, l.1@));
    }
}

fn strmap_of_pairs(pairs: Vec<(String, String)>) -> (r: StrMap<String>)
    ensures
        r.wf(),
        text_map(r@) == map_of_pairs(pairs_view(pairs@)),
{
    let mut m: StrMap<String> = StrMap::new();
    let mut i: usize = 0;
    while i < pairs.len()
        invariant
            i <= pairs@.len(),
            m.wf(),
            text_map(m@) == map_of_pairs(pairs_view(pairs@.subrange(0, i as int))),
        decreases pairs@.len() - i,
    {
        let k = pairs[i].0.clone();
        let v = pairs[i].1.clone();
        proof {
            let s = pairs_view(pairs@.subrange(0, i as int + 1));
            assert(s.drop_last() == pairs_view(pairs@.subrange(0, i as int)));
            assert(s.last() == (pairs@[i as int].0@, pairs@[i as int].1@));
        }
        m.insert(k, v);
        proof {
            assert(text_map(m@) =~= map_of_pairs(pairs_view(pairs@.subrange(0, i as int + 1))));
        }
        i += 1;
    }
    assert(pairs@.subrange(0, pairs@.len() as int) == pairs@);
    m
}

impl Default for CacheValue {
    fn default() -> (r: Self)
        ensures
            r matches CacheValue::String(s) && s@ == Seq::<char>::empty(),
    {
        CacheValue::String(String::new())
    }
}

impl CacheValue {
    /// The stored bytes of the value: text as UTF-8, a map as a JSON object.
    /// The bytes read back (by `from_bytes`, with the value's type) as the
    /// same text or the same map.
    pub fn to_bytes(&self) -> (r: Vec<u8>)
        ensures
            match self {
                CacheValue::String(v) => r@ == vstd::utf8::encode_utf8(v@) && vstd::utf8::valid_utf8(r@)
                    && vstd::utf8::decode_utf8(r@) == v@,
                CacheValue::KvMap(m) => r@ == json_object_bytes(pairs_view(m.spec_entries())) && (m.wf() ==> (
                json_object_pairs(r@) matches Some(q) && map_of_pairs(q) == text_map(m@))),
                CacheValue::UserSession(m) => r@ == json_object_bytes(pairs_view(m.spec_entries())) && (m.wf()
                    ==> (json_object_pairs(r@) matches Some(q) && map_of_pairs(q) == text_map(m@))),
            },
    {
        match self {
            CacheValue::String(v) => {
                proof {
                    vstd::utf8::encode_utf8_valid_utf8(v@);
                    vstd::utf8::encode_utf8_decode_utf8(v@);
                }
                v.as_str().as_bytes_vec()
            },
            CacheValue::KvMap(m) => {
                proof {
                    if m.wf() {
                        m.lemma_view();
                        lemma_map_of_entries(m.spec_entries());
                    }
                }
                json_to_vec(m.as_vec())
            },
            CacheValue::UserSession(m) => {
                proof {
                    if m.wf() {
                        m.lemma_view();
                        lemma_map_of_entries(m.spec_entries());
                    }
                }
                json_to_vec(m.as_vec())
            },
        }
    }

    /// Reads stored bytes as a value of type `t`.
    pub fn from_bytes(data: Vec<u8>, t: CacheType) -> (r: Result<CacheValue, CacheValueError>)
        ensures
            match t {
                CacheType::String => match r {
                    Ok(CacheValue::String(s)) => vstd::utf8::valid_utf8(data@) && s@ == vstd::utf8::decode_utf8(data@),
                    Ok(_) => false,
                    Err(e) => !vstd::utf8::valid_utf8(data@) && e == CacheValueError::BadUtf8,
                },
                CacheType::KvMap => match r {
                    Ok(CacheValue::KvMap(m)) => m.wf() && (json_object_pairs(data@) matches Some(p)
                        && text_map(m@) == map_of_pairs(p)),
                    Ok(_) => false,
                    Err(e) => json_object_pairs(data@) is None && e == CacheValueError::BadJson,
                },
                CacheType::UserSession => match r {
                    Ok(CacheValue::UserSession(m)) => m.wf() && (json_object_pairs(data@) matches Some(p)
                        && text_map(m@) == map_of_pairs(p)),
                    Ok(_) => false,
                    Err(e) => json_object_pairs(data@) is None && e == CacheValueError::BadJson,
                },
            },
    {
        match t {
            CacheType::String => match string_from_utf8(data) {
                Some(s) => Ok(CacheValue::String(s)),
                None => Err(CacheValueError::BadUtf8),
            },
            CacheType::KvMap => match json_from_slice(data.as_slice()) {
                Some(pairs) => Ok(CacheValue::KvMap(strmap_of_pairs(pairs))),
                None => Err(CacheValueError::BadJson),
            },
            CacheType::UserSession => match json_from_slice(data.as_slice()) {
                Some(pairs) => Ok(CacheValue::UserSession(strmap_of_pairs(pairs))),
                None => Err(CacheValueError::BadJson),
            },
        }
    }
}

} // verus!
