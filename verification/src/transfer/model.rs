use vstd::prelude::*;
use std::collections::HashMap;
use crate::common::endian::{be_bytes, be_value, push_be, read_be, lemma_be_roundtrip, lemma_be_value_bound, lemma_pow256_values};
use crate::common::strmap::StrMap;

verus! {

broadcast use vstd::std_specs::hash::group_hash_axioms;

/// The magic number at the start of a transfer file.
pub const TRANSFER_MAGIC: u32 = 0x6e61636f;

/// The first 8 bytes of a transfer file: a magic number and the format
/// version, both big-endian.
#[derive(Clone, Copy, Debug, PartialEq, Eq)]
pub struct TransferPrefix {
    pub magic: u32,
    pub fmt_version: u32,
}

/// Why the start of a transfer file was refused.
#[derive(Clone, Copy, Debug, PartialEq, Eq)]
pub enum TransferFormatError {
    /// Fewer than 8 bytes.
    TooShort,
    /// The magic number is not the transfer file's.
    BadMagic,
}

/// The stored bytes of a prefix.
pub open spec fn prefix_bytes(p: TransferPrefix) -> Seq<u8> {
    be_bytes(p.magic as nat, 4) + be_bytes(p.fmt_version as nat, 4)
}

/// The prefix that the first 8 bytes of `s` hold.
pub open spec fn prefix_of(s: Seq<u8>) -> TransferPrefix {
    TransferPrefix {
        magic: be_value(s.subrange(0, 4)) as u32,
        fmt_version: be_value(s.subrange(4, 8)) as u32,
    }
}

impl TransferPrefix {
    /// The prefix that this program writes: the magic number and version 0.
    pub fn new() -> (r: Self)
        ensures
            r.magic == TRANSFER_MAGIC,
            r.fmt_version == 0,
    {
        TransferPrefix { magic: TRANSFER_MAGIC, fmt_version: 0 }
    }

    /// The 8 stored bytes.
    pub fn to_bytes(&self) -> (r: Vec<u8>)
        ensures
            r@ == prefix_bytes(*self),
            r@.len() == 8,
    {
        let mut buf: Vec<u8> = Vec::new();
        push_be(&mut buf, self.magic as u64, 4);
        push_be(&mut buf, self.fmt_version as u64, 4);
        proof {
            lemma_pow256_values();
            lemma_be_roundtrip(self.magic as nat, 4);
            lemma_be_roundtrip(self.fmt_version as nat, 4);
        }
        buf
    }

    /// Reads the prefix at the start of a transfer file and checks its
    /// magic number.
    pub fn from_bytes(buf: &[u8]) -> (r: Result<Self, TransferFormatError>)
        ensures
            buf@.len() < 8 ==> r == Err::<TransferPrefix, TransferFormatError>(TransferFormatError::TooShort),
            buf@.len() >= 8 ==> {
                let p = prefix_of(buf@);
                if p.magic == TRANSFER_MAGIC {
                    r == Ok::<TransferPrefix, TransferFormatError>(p)
                } else {
                    r == Err::<TransferPrefix, TransferFormatError>(TransferFormatError::BadMagic)
                }
            },
    {
        if buf.len() < 8 {
            return Err(TransferFormatError::TooShort);
        }
        proof {
            lemma_pow256_values();
            lemma_be_value_bound(buf@.subrange(0, 4));
            lemma_be_value_bound(buf@.subrange(4, 8));
        }
        let p = TransferPrefix { magic: read_be(buf, 0, 4) as u32, fmt_version: read_be(buf, 4, 4) as u32 };
        if p.magic != TRANSFER_MAGIC {
            return Err(TransferFormatError::BadMagic);
        }
        Ok(p)
    }
}

impl Default for TransferPrefix {
    fn default() -> (r: Self)
        ensures
            r.magic == TRANSFER_MAGIC,
            r.fmt_version == 0,
    {
        Self::new()
    }
}

/// A written prefix reads back as itself, whatever follows it.
pub proof fn law_prefix_roundtrip(p: TransferPrefix, rest: Seq<u8>)
    ensures
        (prefix_bytes(p) + rest).len() >= 8,
        prefix_of(prefix_bytes(p) + rest) == p,
{
    lemma_pow256_values();
    lemma_be_roundtrip(p.magic as nat, 4);
    lemma_be_roundtrip(p.fmt_version as nat, 4);
    let s = prefix_bytes(p) + rest;
    assert(s.subrange(0, 4) == be_bytes(p.magic as nat, 4));
    assert(s.subrange(4, 8) == be_bytes(p.fmt_version as nat, 4));
}

/// The header of a transfer file: when and by what it was written, and the
/// numbering of its table names.
pub struct TransferHeaderDto {
    pub version: u64,
    pub modify_time: u64,
    pub from_sys: Option<String>,
    pub name_to_id: StrMap<u32>,
    pub id_to_name: HashMap<u32, String>,
    pub max_id: u32,
    pub extend_info: StrMap<String>,
}

impl TransferHeaderDto {
    /// The two tables number the names one to one: each name has an id
    /// between 1 and `max_id`, that id has that name, and each numbered id
    /// belongs to a name.
    pub open spec fn names_consistent(&self) -> bool {
        &&& self.name_to_id.wf()
        &&& forall|n: Seq<char>| #[trigger] self.name_to_id@.contains_key(n) ==> {
            let id = self.name_to_id@[n];
            &&& 1 <= id <= self.max_id
            &&& self.id_to_name@.contains_key(id)
            &&& self.id_to_name@[id]@ == n
        }
        &&& forall|id: u32| #[trigger] self.id_to_name@.contains_key(id) ==> {
            &&& self.name_to_id@.contains_key(self.id_to_name@[id]@)
            &&& self.name_to_id@[self.id_to_name@[id]@] == id
        }
    }

    /// A header with no table names yet, written by this system at version
    /// `app_version`, at `modify_time` (milliseconds).
    pub fn new(version: u64, modify_time: u64, app_version: &str) -> (r: Self)
        ensures
            r.names_consistent(),
            r.version == version,
            r.modify_time == modify_time,
            r.from_sys matches Some(s) && s@ == "r-nacos_"@ + app_version@,
            r.name_to_id@ == Map::<Seq<char>, u32>::empty(),
            r.id_to_name@ == Map::<u32, String>::empty(),
            r.max_id == 0,
            r.extend_info@ == Map::<Seq<char>, String>::empty(),
    {
        let from_sys = String::from_str("r-nacos_").concat(app_version);
        TransferHeaderDto {
            version,
            modify_time,
            from_sys: Some(from_sys),
            name_to_id: StrMap::new(),
            id_to_name: HashMap::new(),
            max_id: 0,
            extend_info: StrMap::new(),
        }
    }

    /// Numbers a table name: a known name keeps its id, a new one gets the
    /// next id.
    pub fn add_name(&mut self, name: String)
        requires
            old(self).names_consistent(),
            !old(self).name_to_id@.contains_key(name@) ==> old(self).max_id < u32::MAX,
        ensures
            final(self).names_consistent(),
            final(self).version == old(self).version,
            final(self).modify_time == old(self).modify_time,
            final(self).from_sys == old(self).from_sys,
            old(self).name_to_id@.contains_key(name@) ==> {
                &&& final(self).name_to_id@ == old(self).name_to_id@
                &&& final(self).id_to_name@ == old(self).id_to_name@
                &&& final(self).max_id == old(self).max_id
            },
            !old(self).name_to_id@.contains_key(name@) ==> {
                let id = (old(self).max_id + 1) as u32;
                &&& final(self).max_id == id
                &&& final(self).name_to_id@ == old(self).name_to_id@.insert(name@, id)
                &&& final(self).id_to_name@ == old(self).id_to_name@.insert(id, name)
            },
    {
        if self.name_to_id.contains_key(&name) {
            return;
        }
        self.max_id += 1;
        let new_id = self.max_id;
        proof {
            assert(!self.id_to_name@.contains_key(new_id));
        }
        self.id_to_name.insert(new_id, name.clone());
        self.name_to_id.insert(name, new_id);
        proof {
            assert forall|n: Seq<char>| #[trigger] self.name_to_id@.contains_key(n) implies {
                let id = self.name_to_id@[n];
                &&& 1 <= id <= self.max_id
                &&& self.id_to_name@.contains_key(id)
                &&& self.id_to_name@[id]@ == n
            } by {
                if n != name@ {
                    assert(old(self).name_to_id@.contains_key(n));
                }
            }
            assert forall|id: u32| #[trigger] self.id_to_name@.contains_key(id) implies {
                &&& self.name_to_id@.contains_key(self.id_to_name@[id]@)
                &&& self.name_to_id@[self.id_to_name@[id]@] == id
            } by {
                if id != new_id {
                    assert(old(self).id_to_name@.contains_key(id));
                    assert(old(self).name_to_id@.contains_key(old(self).id_to_name@[id]@));
                }
            }
        }
    }
}

/// One record of a transfer file as it is stored: an empty table name
/// stands for none.
#[derive(Clone, Debug, Default)]
pub struct TransferItem {
    pub table_name: String,
    pub table_id: u32,
    pub key: Vec<u8>,
    pub value: Vec<u8>,
}

/// One record of a transfer file: a key and value of a table, named or
/// numbered.
#[derive(Clone, Debug, Default)]
pub struct TransferRecordDto {
    pub table_name: Option<String>,
    pub table_id: u32,
    pub key: Vec<u8>,
    pub value: Vec<u8>,
}

/// A table name as text, if there is one.
pub open spec fn name_view(n: Option<String>) -> Option<Seq<char>> {
    match n {
        Some(s) => Some(s@),
        None => None,
    }
}

/// How a table name is stored: no name as the empty text.
pub open spec fn stored_name(n: Option<Seq<char>>) -> Seq<char> {
    match n {
        Some(s) => s,
        None => Seq::empty(),
    }
}

/// How a stored table name is read: the empty text as no name.
pub open spec fn read_name(s: Seq<char>) -> Option<Seq<char>> {
    if s.len() == 0 {
        None
    } else {
        Some(s)
    }
}

impl TransferRecordDto {
    /// The record as it is stored.
    pub fn to_do(&self) -> (r: TransferItem)
        ensures
            r.table_name@ == stored_name(name_view(self.table_name)),
            r.table_id == self.table_id,
            r.key@ == self.key@,
            r.value@ == self.value@,
    {
        let table_name = match &self.table_name {
            Some(v) => v.clone(),
            None => String::new(),
        };
        TransferItem { table_name, table_id: self.table_id, key: self.key.clone(), value: self.value.clone() }
    }

    /// The record that a stored item holds.
    pub fn from_do(item: TransferItem) -> (r: Self)
        ensures
            name_view(r.table_name) == read_name(item.table_name@),
            r.table_id == item.table_id,
            r.key@ == item.key@,
            r.value@ == item.value@,
    {
        let table_name = if item.table_name.as_str().unicode_len() == 0 {
            None
        } else {
            Some(item.table_name)
        };
        TransferRecordDto { table_name, table_id: item.table_id, key: item.key, value: item.value }
    }
}

/// Storing a record's table name and reading it back gives the name again,
/// unless the name is present but empty, which reads back as no name.
pub proof fn law_record_name_roundtrip(n: Option<Seq<char>>)
    requires
        n matches Some(s) ==> s.len() > 0,
    ensures
        read_name(stored_name(n)) == n,
{
}

/// Requests to the transfer file writer.
pub enum TransferWriterRequest {
    AddTableNameMap(String),
    InitHeader,
    AddRecord(TransferRecordDto),
}

/// Requests to the transfer file writer that wait for the file.
#[derive(Clone, Copy, Debug, PartialEq, Eq)]
pub enum TransferWriterAsyncRequest {
    Flush,
}

/// Answers of the transfer file writer: the written file's path, or nothing.
#[derive(Clone, Debug)]
pub enum TransferWriterResponse {
    Path(String),
    Done,
}

/// Which tables a backup takes.
#[derive(Clone, Copy, Debug, PartialEq, Eq)]
pub struct TransferBackupParam {
    pub config: bool,
    pub user: bool,
    pub cache: bool,
}

impl TransferBackupParam {
    /// A backup of every table.
    pub fn all() -> (r: Self)
        ensures
            r.config && r.user && r.cache,
    {
        TransferBackupParam { config: true, user: true, cache: true }
    }
}

/// Requests to the transfer manager.
#[derive(Clone, Copy, Debug)]
pub enum TransferManagerAsyncRequest {
    Backup(TransferBackupParam),
}

/// Answers of the transfer manager: the path of the backup file.
#[derive(Clone, Debug)]
pub enum TransferManagerResponse {
    BackupFile(String),
}

/// Answers of the table readers of a backup.
#[derive(Clone, Copy, Debug, PartialEq, Eq)]
pub enum TransferDataResponse {
    Done,
}

/// The answer of the importer: an import was started, or there was
/// nothing to start.
#[derive(Clone, Copy, Debug, PartialEq, Eq)]
pub enum TransferImportResponse {
    Running,
    Done,
}

} // verus!
