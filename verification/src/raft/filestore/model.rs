use vstd::prelude::*;

verus! {

/// One raft log entry as the log files store it: its index, its term and
/// the serialized payload.
#[derive(Debug, Clone, Default)]
pub struct LogRecordDto {
    pub index: u64,
    pub term: u64,
    pub value: Vec<u8>,
}

/// The contents of a log record.
pub struct LogRecordView {
    pub index: u64,
    pub term: u64,
    pub value: Seq<u8>,
}

impl View for LogRecordDto {
    type V = LogRecordView;

    open spec fn view(&self) -> LogRecordView {
        LogRecordView { index: self.index, term: self.term, value: self.value@ }
    }
}

/// One record of a snapshot file: a key and value of one data tree.
#[derive(Debug, Clone)]
pub struct SnapshotRecordDto {
    pub tree: String,
    pub key: Vec<u8>,
    pub value: Vec<u8>,
    pub op_type: u32,
}

impl Default for LogIndexHeaderDo {
    fn default() -> (r: Self)
        ensures
            r == LogIndexHeaderDo::spec_default(),
    {
        Self::new()
    }
}

} // verus!

verus! {

use crate::common::endian::{be_bytes, be_value, push_be, read_be, lemma_be_roundtrip, lemma_pow256_values};

/// The number of bytes of a log file header.
pub const LOG_INDEX_HEADER_LEN: u64 = 32;

/// The header at the start of a log file, stored big-endian:
/// magic (4 bytes), version (2), last_term (8), first_index (8),
/// data_area_index (2), index_interval (2), all_index_count (2), then
/// status and three spare bytes.
#[derive(Debug, Clone, Copy)]
pub struct LogIndexHeaderDo {
    /// Magic value `0x42313644`.
    pub magic: u32,
    pub version: u16,
    /// The term before this log.
    pub last_term: u64,
    /// The first index of this log.
    pub first_index: u64,
    /// Where the data area starts: 4096.
    pub data_area_index: u16,
    pub index_interval: u16,
    pub all_index_count: u16,
    pub status: u8,
    pub ext1: u8,
    pub ext2: u8,
    pub ext3: u8,
}

/// The 32 stored bytes of a header.
pub open spec fn log_header_bytes(h: LogIndexHeaderDo) -> Seq<u8> {
    be_bytes(h.magic as nat, 4) + be_bytes(h.version as nat, 2) + be_bytes(h.last_term as nat, 8)
        + be_bytes(h.first_index as nat, 8) + be_bytes(h.data_area_index as nat, 2) + be_bytes(
        h.index_interval as nat,
        2,
    ) + be_bytes(h.all_index_count as nat, 2) + seq![h.status, h.ext1, h.ext2, h.ext3]
}

/// The header that the first 32 bytes of `s` store.
pub open spec fn log_header_of(s: Seq<u8>) -> LogIndexHeaderDo
    recommends
        s.len() >= 32,
{
    LogIndexHeaderDo {
        magic: be_value(s.subrange(0, 4)) as u32,
        version: be_value(s.subrange(4, 6)) as u16,
        last_term: be_value(s.subrange(6, 14)) as u64,
        first_index: be_value(s.subrange(14, 22)) as u64,
        data_area_index: be_value(s.subrange(22, 24)) as u16,
        index_interval: be_value(s.subrange(24, 26)) as u16,
        all_index_count: be_value(s.subrange(26, 28)) as u16,
        status: s[28],
        ext1: s[29],
        ext2: s[30],
        ext3: s[31],
    }
}

/// Why a log file header could not be read.
#[derive(Clone, Copy, Debug, PartialEq, Eq)]
pub enum HeaderError {
    /// Fewer than 32 bytes were given.
    TooShort,
}

impl LogIndexHeaderDo {
    /// The header of a new log file.
    pub open spec fn spec_default() -> LogIndexHeaderDo {
        LogIndexHeaderDo {
            magic: 0x42313644,
            version: 0,
            last_term: 0,
            first_index: 0,
            data_area_index: 4096,
            index_interval: 128,
            all_index_count: 0,
            status: 0,
            ext1: 0,
            ext2: 0,
            ext3: 0,
        }
    }

    /// The header of a new log file.
    pub fn new() -> (r: Self)
        ensures
            r == LogIndexHeaderDo::spec_default(),
            r.magic == 0x42313644,
            r.version == 0,
            r.last_term == 0,
            r.first_index == 0,
            r.data_area_index == 4096,
            r.index_interval == 128,
            r.all_index_count == 0,
            r.status == 0 && r.ext1 == 0 && r.ext2 == 0 && r.ext3 == 0,
    {
        Self {
            magic: 0x42313644,
            version: 0,
            last_term: 0,
            first_index: 0,
            data_area_index: 4096,
            index_interval: 128,
            all_index_count: 0,
            status: 0,
            ext1: 0,
            ext2: 0,
            ext3: 0,
        }
    }

    /// The header's 32 big-endian bytes.
    pub fn to_bytes(&self) -> (r: Vec<u8>)
        ensures
            r@ == log_header_bytes(*self),
            r@.len() == 32,
    {
        let mut buf: Vec<u8> = Vec::new();
        push_be(&mut buf, self.magic as u64, 4);
        push_be(&mut buf, self.version as u64, 2);
        push_be(&mut buf, self.last_term, 8);
        push_be(&mut buf, self.first_index, 8);
        push_be(&mut buf, self.data_area_index as u64, 2);
        push_be(&mut buf, self.index_interval as u64, 2);
        push_be(&mut buf, self.all_index_count as u64, 2);
        buf.push(self.status);
        buf.push(self.ext1);
        buf.push(self.ext2);
        buf.push(self.ext3);
        proof {
            lemma_pow256_values();
            lemma_be_roundtrip(self.magic as nat, 4);
            lemma_be_roundtrip(self.version as nat, 2);
            lemma_be_roundtrip(self.last_term as nat, 8);
            lemma_be_roundtrip(self.first_index as nat, 8);
            lemma_be_roundtrip(self.data_area_index as nat, 2);
            lemma_be_roundtrip(self.index_interval as nat, 2);
            lemma_be_roundtrip(self.all_index_count as nat, 2);
        }
        assert(buf@ =~= log_header_bytes(*self));
        buf
    }

    /// The header stored in the first 32 bytes of `buf`.
    pub fn from_bytes(buf: &[u8]) -> (r: Result<Self, HeaderError>)
        ensures
            buf@.len() >= 32 <==> r is Ok,
            r is Ok ==> r->Ok_0 == log_header_of(buf@),
    {
        if buf.len() < 32 {
            return Err(HeaderError::TooShort);
        }
        proof {
            lemma_pow256_values();
            crate::common::endian::lemma_be_value_bound(buf@.subrange(0, 4));
            crate::common::endian::lemma_be_value_bound(buf@.subrange(4, 6));
            crate::common::endian::lemma_be_value_bound(buf@.subrange(22, 24));
            crate::common::endian::lemma_be_value_bound(buf@.subrange(24, 26));
            crate::common::endian::lemma_be_value_bound(buf@.subrange(26, 28));
        }
        Ok(Self {
            magic: read_be(buf, 0, 4) as u32,
            version: read_be(buf, 4, 2) as u16,
            last_term: read_be(buf, 6, 8),
            first_index: read_be(buf, 14, 8),
            data_area_index: read_be(buf, 22, 2) as u16,
            index_interval: read_be(buf, 24, 2) as u16,
            all_index_count: read_be(buf, 26, 2) as u16,
            status: buf[28],
            ext1: buf[29],
            ext2: buf[30],
            ext3: buf[31],
        })
    }
}

/// A stored header reads back as itself.
pub proof fn lemma_log_header_roundtrip(h: LogIndexHeaderDo, rest: Seq<u8>)
    ensures
        log_header_bytes(h).len() == 32,
        log_header_of(log_header_bytes(h) + rest) == h,
{
    lemma_pow256_values();
    lemma_be_roundtrip(h.magic as nat, 4);
    lemma_be_roundtrip(h.version as nat, 2);
    lemma_be_roundtrip(h.last_term as nat, 8);
    lemma_be_roundtrip(h.first_index as nat, 8);
    lemma_be_roundtrip(h.data_area_index as nat, 2);
    lemma_be_roundtrip(h.index_interval as nat, 2);
    lemma_be_roundtrip(h.all_index_count as nat, 2);
    let s = log_header_bytes(h) + rest;
    assert(s.subrange(0, 4) == be_bytes(h.magic as nat, 4));
    assert(s.subrange(4, 6) == be_bytes(h.version as nat, 2));
    assert(s.subrange(6, 14) == be_bytes(h.last_term as nat, 8));
    assert(s.subrange(14, 22) == be_bytes(h.first_index as nat, 8));
    assert(s.subrange(22, 24) == be_bytes(h.data_area_index as nat, 2));
    assert(s.subrange(24, 26) == be_bytes(h.index_interval as nat, 2));
    assert(s.subrange(26, 28) == be_bytes(h.all_index_count as nat, 2));
}

} // verus!
