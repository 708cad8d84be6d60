use vstd::prelude::*;
use crate::common::byte_utils::{id_bytes, id_of_bytes, id_to_bin, bin_to_id, lemma_id_bytes_roundtrip};
use crate::common::idmap::{IdMap, id_keys_unique, id_entries_map, lemma_id_entries_map_push};
use crate::common::protobuf_utils::{frame_body, read_frame_body, varint_bytes, push_len_delimited, lemma_frame_roundtrip};
use crate::common::pbmsg::varints_bytes;
use crate::raft::filestore::records::{LogRange, SnapshotRange, NodeAddrItem, NodeAddrView};
use crate::raft::filestore::index_record::{
    RaftIndex, RaftIndexView, node_views, raft_index_body, raft_index_decode, encode_raft_index, decode_raft_index,
    law_raft_index_roundtrip, nodes_fit,
};

verus! {

/// The node addresses that a list of entries holds, each id with its address.
pub open spec fn entry_views(e: Seq<(u64, String)>) -> Seq<NodeAddrView> {
    e.map_values(|p: (u64, String)| NodeAddrView { id: p.0, addr: p.1@ })
}

/// The map built by reading node addresses in order, a later address of an
/// id replacing an earlier one.
pub open spec fn nodes_map(ns: Seq<NodeAddrView>) -> Map<u64, Seq<char>>
    decreases ns.len(),
{
    if ns.len() == 0 {
        Map::empty()
    } else {
        nodes_map(ns.drop_last()).insert(ns.last().id, ns.last().addr)
    }
}

/// The addresses of a map of nodes, as text.
pub open spec fn text_values(m: Map<u64, String>) -> Map<u64, Seq<char>> {
    m.map_values(|s: String| s@)
}

/// Reading the entries of a map with distinct ids gives the map back.
pub proof fn lemma_nodes_map_of_entries(e: Seq<(u64, String)>)
    requires
        id_keys_unique(e),
    ensures
        nodes_map(entry_views(e)) == text_values(id_entries_map(e)),
    decreases e.len(),
{
    if e.len() == 0 {
        assert(entry_views(e) =~= Seq::<NodeAddrView>::empty());
        assert(text_values(id_entries_map(e)) =~= Map::<u64, Seq<char>>::empty());
    } else {
        let init = e.drop_last();
        let (k, v) = e.last();
        assert(init.push((k, v)) == e);
        lemma_id_entries_map_push(init, k, v);
        lemma_nodes_map_of_entries(init);
        assert(entry_views(e).drop_last() =~= entry_views(init));
        assert(text_values(id_entries_map(init).insert(k, v)) =~= text_values(id_entries_map(init)).insert(k, v@));
    }
}

/// The raft index as the managers hold it: node addresses kept as a map.
pub struct RaftIndexDto {
    pub logs: Vec<LogRange>,
    pub current_log: u64,
    pub snapshots: Vec<SnapshotRange>,
    pub last_snapshot: u64,
    pub last_snapshot_index: u64,
    pub last_snapshot_term: u64,
    pub current_term: u64,
    pub voted_for: u64,
    pub member: Vec<u64>,
    pub member_after_consensus: Vec<u64>,
    pub node_addrs: IdMap<String>,
}

/// Everything of a stored index but its node addresses is the same.
pub open spec fn same_but_nodes(a: RaftIndexView, b: RaftIndexView) -> bool {
    &&& a.logs == b.logs
    &&& a.current_log == b.current_log
    &&& a.snapshots == b.snapshots
    &&& a.last_snapshot == b.last_snapshot
    &&& a.last_snapshot_index == b.last_snapshot_index
    &&& a.last_snapshot_term == b.last_snapshot_term
    &&& a.current_term == b.current_term
    &&& a.voted_for == b.voted_for
    &&& a.member == b.member
    &&& a.member_after_consensus == b.member_after_consensus
}

impl RaftIndexDto {
    /// The index as it is stored, node addresses in the map's entry order.
    pub open spec fn record_view(&self) -> RaftIndexView {
        RaftIndexView {
            logs: self.logs@,
            current_log: self.current_log,
            snapshots: self.snapshots@,
            last_snapshot: self.last_snapshot,
            last_snapshot_index: self.last_snapshot_index,
            last_snapshot_term: self.last_snapshot_term,
            current_term: self.current_term,
            voted_for: self.voted_for,
            member: self.member@,
            member_after_consensus: self.member_after_consensus@,
            node_addrs: entry_views(self.node_addrs.spec_entries()),
        }
    }

    /// An empty index: no logs, no snapshots, term 0, no members.
    pub fn new() -> (r: Self)
        ensures
            r.node_addrs.wf(),
            r.record_view() == crate::raft::filestore::index_record::empty_raft_index(),
    {
        let r = RaftIndexDto {
            logs: Vec::new(),
            current_log: 0,
            snapshots: Vec::new(),
            last_snapshot: 0,
            last_snapshot_index: 0,
            last_snapshot_term: 0,
            current_term: 0,
            voted_for: 0,
            member: Vec::new(),
            member_after_consensus: Vec::new(),
            node_addrs: IdMap::new(),
        };
        assert(r.record_view() =~= crate::raft::filestore::index_record::empty_raft_index());
        r
    }

    /// A copy of the index.
    pub fn duplicate(&self) -> (r: Self)
        ensures
            r.record_view() == self.record_view(),
            r.node_addrs@ == self.node_addrs@,
            r.node_addrs.spec_entries() == self.node_addrs.spec_entries(),
            r.node_addrs.wf() == self.node_addrs.wf(),
    {
        RaftIndexDto {
            logs: self.logs.clone(),
            current_log: self.current_log,
            snapshots: self.snapshots.clone(),
            last_snapshot: self.last_snapshot,
            last_snapshot_index: self.last_snapshot_index,
            last_snapshot_term: self.last_snapshot_term,
            current_term: self.current_term,
            voted_for: self.voted_for,
            member: self.member.clone(),
            member_after_consensus: self.member_after_consensus.clone(),
            node_addrs: self.node_addrs.duplicate(),
        }
    }

    /// The index as it is stored.
    pub fn to_record_do(&self) -> (r: RaftIndex)
        ensures
            r@ == self.record_view(),
    {
        let entries = self.node_addrs.as_vec();
        let mut nodes: Vec<NodeAddrItem> = Vec::new();
        let mut i: usize = 0;
        while i < entries.len()
            invariant
                i <= entries@.len(),
                entries@ == self.node_addrs.spec_entries(),
                node_views(nodes@) == entry_views(entries@.subrange(0, i as int)),
            decreases entries@.len() - i,
        {
            let item = NodeAddrItem { id: entries[i].0, addr: entries[i].1.clone() };
            let ghost prev = nodes@;
            nodes.push(item);
            proof {
                assert(item@ == NodeAddrView { id: entries@[i as int].0, addr: entries@[i as int].1@ });
                assert(node_views(nodes@) =~= node_views(prev).push(item@));
                assert(entry_views(entries@.subrange(0, i as int + 1)) =~= entry_views(entries@.subrange(0, i as int)).push(
                    NodeAddrView { id: entries@[i as int].0, addr: entries@[i as int].1@ },
                ));
                assert(node_views(nodes@) =~= entry_views(entries@.subrange(0, i as int + 1)));
            }
            i += 1;
        }
        assert(entries@.subrange(0, entries@.len() as int) == entries@);
        let r = RaftIndex {
            logs: self.logs.clone(),
            current_log: self.current_log,
            snapshots: self.snapshots.clone(),
            last_snapshot: self.last_snapshot,
            last_snapshot_index: self.last_snapshot_index,
            last_snapshot_term: self.last_snapshot_term,
            current_term: self.current_term,
            voted_for: self.voted_for,
            member: self.member.clone(),
            member_after_consensus: self.member_after_consensus.clone(),
            node_addrs: nodes,
        };
        assert(r@ =~= self.record_view());
        r
    }

    /// The index that a stored record holds: node addresses are read in
    /// order, a later address of an id replacing an earlier one.
    pub fn from_record(value: RaftIndex) -> (r: Self)
        ensures
            r.node_addrs.wf(),
            same_but_nodes(r.record_view(), value@),
            text_values(r.node_addrs@) == nodes_map(value@.node_addrs),
    {
        let mut node_addrs: IdMap<String> = IdMap::new();
        let ghost vs = node_views(value.node_addrs@);
        let mut i: usize = 0;
        assert(text_values(node_addrs@) =~= nodes_map(vs.subrange(0, 0)));
        while i < value.node_addrs.len()
            invariant
                i <= value.node_addrs@.len(),
                vs == node_views(value.node_addrs@),
                node_addrs.wf(),
                text_values(node_addrs@) == nodes_map(vs.subrange(0, i as int)),
            decreases value.node_addrs@.len() - i,
        {
            let id = value.node_addrs[i].id;
            let addr = value.node_addrs[i].addr.clone();
            node_addrs.insert(id, addr);
            proof {
                assert(vs.subrange(0, i as int + 1).drop_last() == vs.subrange(0, i as int));
                assert(text_values(node_addrs@) =~= nodes_map(vs.subrange(0, i as int + 1)));
            }
            i += 1;
        }
        assert(vs.subrange(0, value.node_addrs@.len() as int) == vs);
        RaftIndexDto {
            logs: value.logs,
            current_log: value.current_log,
            snapshots: value.snapshots,
            last_snapshot: value.last_snapshot,
            last_snapshot_index: value.last_snapshot_index,
            last_snapshot_term: value.last_snapshot_term,
            current_term: value.current_term,
            voted_for: value.voted_for,
            member: value.member,
            member_after_consensus: value.member_after_consensus,
            node_addrs,
        }
    }
}

/// Converting an index to its stored record and back gives the same index,
/// node addresses included.
pub proof fn law_index_record_conversion(dto: RaftIndexDto)
    requires
        dto.node_addrs.wf(),
    ensures
        nodes_map(dto.record_view().node_addrs) == text_values(dto.node_addrs@),
{
    dto.node_addrs.lemma_view();
    lemma_nodes_map_of_entries(dto.node_addrs.spec_entries());
}

// ---- the index file: 8 bytes of the last applied log index, then the
//      raft index message with its varint length ----

/// Why an index file could not be read.
#[derive(Clone, Copy, Debug, PartialEq, Eq)]
pub enum IndexFileError {
    /// Fewer than 8 bytes.
    TooShort,
    /// The message's length prefix is broken or longer than the file.
    BadFrame,
    /// The message body is malformed.
    BadIndex,
}

/// The stored frame of an index: the varint length of the body, then the body.
pub open spec fn index_frame(v: RaftIndexView) -> Seq<u8> {
    varint_bytes(raft_index_body(v).len()) + raft_index_body(v)
}

/// Reading an index file: the last applied log index, then the index.
pub open spec fn index_file_read(s: Seq<u8>) -> Option<(u64, RaftIndexView)> {
    if s.len() < 8 {
        None
    } else {
        let rest = s.subrange(8, s.len() as int);
        match frame_body(rest) {
            Some((a, b)) => match raft_index_decode(rest.subrange(a as int, b as int)) {
                Some(v) => Some((id_of_bytes(s), v)),
                None => None,
            },
            None => None,
        }
    }
}

/// The frame of the index that `write_index` stores after the first 8 bytes.
pub fn encode_index_frame(index: &RaftIndexDto) -> (r: Vec<u8>)
    ensures
        r@ == index_frame(index.record_view()),
{
    let record = index.to_record_do();
    let body = encode_raft_index(&record);
    let mut out: Vec<u8> = Vec::new();
    push_len_delimited(&mut out, body.as_slice());
    assert(out@ =~= index_frame(index.record_view()));
    out
}

/// The bytes of a whole index file.
pub fn encode_index_file(last_applied_log: u64, index: &RaftIndexDto) -> (r: Vec<u8>)
    ensures
        r@ == id_bytes(last_applied_log) + index_frame(index.record_view()),
{
    let mut out = id_to_bin(last_applied_log);
    let mut frame = encode_index_frame(index);
    out.append(&mut frame);
    out
}

/// Reads an index file: the last applied log index and the index.
pub fn read_index_file(data: &[u8]) -> (r: Result<(u64, RaftIndexDto), IndexFileError>)
    ensures
        match index_file_read(data@) {
            Some((la, v)) => r matches Ok((l, dto)) && l == la && dto.node_addrs.wf() && same_but_nodes(
                dto.record_view(),
                v,
            ) && text_values(dto.node_addrs@) == nodes_map(v.node_addrs),
            None => r is Err,
        },
        data@.len() < 8 ==> r == Err::<(u64, RaftIndexDto), IndexFileError>(IndexFileError::TooShort),
{
    if data.len() < 8 {
        return Err(IndexFileError::TooShort);
    }
    let last_applied_log = bin_to_id(data);
    let n = data.len();
    let rest = vstd::slice::slice_subrange(data, 8, n);
    let (a, b) = match read_frame_body(rest) {
        Some(x) => x,
        None => return Err(IndexFileError::BadFrame),
    };
    match decode_raft_index(rest, a, b) {
        Some(idx) => Ok((last_applied_log, RaftIndexDto::from_record(idx))),
        None => Err(IndexFileError::BadIndex),
    }
}

/// What the index file stores reads back: the last applied log index, and
/// an index with the same logs, snapshots, hard state, members and node
/// addresses, for every index whose length-delimited parts fit the reader's
/// 32-bit lengths.
pub proof fn law_index_file_roundtrip(last_applied_log: u64, dto: RaftIndexDto, rest: Seq<u8>)
    requires
        dto.node_addrs.wf(),
        varints_bytes(dto.member@).len() < 0x1_0000_0000,
        varints_bytes(dto.member_after_consensus@).len() < 0x1_0000_0000,
        nodes_fit(dto.record_view().node_addrs),
        raft_index_body(dto.record_view()).len() < 0x1_0000_0000,
    ensures
        index_file_read(id_bytes(last_applied_log) + index_frame(dto.record_view()) + rest) matches Some((la, v))
            && la == last_applied_log && same_but_nodes(v, dto.record_view()) && nodes_map(v.node_addrs)
            == text_values(dto.node_addrs@),
{
    let v = dto.record_view();
    let body = raft_index_body(v);
    let s = id_bytes(last_applied_log) + index_frame(v) + rest;
    lemma_id_bytes_roundtrip(last_applied_log);
    law_raft_index_roundtrip(v);
    lemma_frame_roundtrip(body, rest);
    let tail = s.subrange(8, s.len() as int);
    assert(tail == varint_bytes(body.len()) + body + rest);
    assert(s.subrange(0, 8) == id_bytes(last_applied_log));
    assert(id_of_bytes(s) == id_of_bytes(id_bytes(last_applied_log)));
    law_index_record_conversion(dto);
}

// ---- the index manager's state and decisions ----

/// The in-memory state of the index file: the index, the last applied log
/// index, and whether everything written has been flushed.
pub struct RaftIndexInnerManager {
    pub raft_index: RaftIndexDto,
    pub last_applied_log: u64,
    pub applied_flush: bool,
}

/// The bytes that a new index file starts with: the id 0 and the empty
/// index, each written as a length-delimited chunk.
pub open spec fn initial_index_file() -> Seq<u8> {
    varint_bytes(8) + id_bytes(0) + varint_bytes(0)
}

impl RaftIndexInnerManager {
    pub open spec fn wf(&self) -> bool {
        self.raft_index.node_addrs.wf()
    }

    /// A file of at most 20 bytes holds no index yet: it is written anew.
    pub open spec fn needs_init(file_len: u64) -> bool {
        file_len <= 20
    }

    /// The state and the bytes of a new index file: last applied log 0 and
    /// the empty index.
    pub fn init_new() -> (r: (Self, Vec<u8>))
        ensures
            r.0.wf(),
            r.0.last_applied_log == 0,
            r.0.applied_flush,
            r.0.raft_index.record_view() == crate::raft::filestore::index_record::empty_raft_index(),
            r.0.raft_index.node_addrs@ == Map::<u64, String>::empty(),
            r.1@ == initial_index_file(),
    {
        let index = RaftIndexDto::new();
        let body = encode_raft_index(&index.to_record_do());
        let mut bytes: Vec<u8> = Vec::new();
        let header = id_to_bin(0);
        push_len_delimited(&mut bytes, header.as_slice());
        push_len_delimited(&mut bytes, body.as_slice());
        proof {
            let v = index.record_view();
            assert(crate::common::protobuf_utils::fields_bytes(crate::raft::filestore::index_record::raft_index_fields(v))
                =~= Seq::<u8>::empty()) by {
                assert(crate::raft::filestore::index_record::raft_index_fields(v) =~= Seq::<crate::common::protobuf_utils::PbField>::empty());
            }
            lemma_id_bytes_roundtrip(0);
            assert(bytes@ =~= initial_index_file());
        }
        proof {
            index.node_addrs.lemma_view();
        }
        assert(index.node_addrs@ =~= Map::<u64, String>::empty());
        (RaftIndexInnerManager { raft_index: index, last_applied_log: 0, applied_flush: true }, bytes)
    }

    /// The state that an existing index file holds.
    pub fn init_loaded(data: &[u8]) -> (r: Result<Self, IndexFileError>)
        ensures
            match index_file_read(data@) {
                Some((la, v)) => r matches Ok(m) && m.wf() && m.last_applied_log == la && m.applied_flush
                    && same_but_nodes(m.raft_index.record_view(), v) && text_values(m.raft_index.node_addrs@)
                    == nodes_map(v.node_addrs),
                None => r is Err,
            },
    {
        match read_index_file(data) {
            Ok((last_applied_log, raft_index)) => Ok(
                RaftIndexInnerManager { raft_index, last_applied_log, applied_flush: true },
            ),
            Err(e) => Err(e),
        }
    }

    /// The state of an index file holding `data`: a file of at most 20
    /// bytes holds no index yet and is written anew (the bytes to write are
    /// given back), giving last applied log 0 and the empty index; a longer
    /// one is read as it is.
    pub fn init_from(data: &[u8]) -> (r: Result<(Self, Option<Vec<u8>>), IndexFileError>)
        ensures
            data@.len() <= 20 ==> (r matches Ok((m, Some(bytes))) && m.wf() && m.last_applied_log == 0
                && m.applied_flush && m.raft_index.record_view()
                == crate::raft::filestore::index_record::empty_raft_index() && m.raft_index.node_addrs@ == Map::<
                u64,
                String,
            >::empty() && bytes@ == initial_index_file()),
            data@.len() > 20 ==> match index_file_read(data@) {
                Some((la, v)) => r matches Ok((m, None)) && m.wf() && m.last_applied_log == la && m.applied_flush
                    && same_but_nodes(m.raft_index.record_view(), v) && text_values(m.raft_index.node_addrs@)
                    == nodes_map(v.node_addrs),
                None => r is Err,
            },
    {
        if data.len() <= 20 {
            let (m, bytes) = Self::init_new();
            Ok((m, Some(bytes)))
        } else {
            match Self::init_loaded(data) {
                Ok(m) => Ok((m, None)),
                Err(e) => Err(e),
            }
        }
    }

    /// Records the last applied log index; the 8 bytes returned are to be
    /// written at the start of the file, and a flush is owed.
    pub fn write_last_applied_log(&mut self, last_applied_log: u64) -> (r: Vec<u8>)
        ensures
            final(self).last_applied_log == last_applied_log,
            !final(self).applied_flush,
            final(self).raft_index == old(self).raft_index,
            r@ == id_bytes(last_applied_log),
    {
        self.last_applied_log = last_applied_log;
        self.applied_flush = false;
        id_to_bin(last_applied_log)
    }

    /// Replaces the index; the frame returned is to be written after the
    /// first 8 bytes of the file, and is flushed with it.
    pub fn write_index(&mut self, index: RaftIndexDto) -> (r: Vec<u8>)
        ensures
            final(self).raft_index == index,
            final(self).last_applied_log == old(self).last_applied_log,
            final(self).applied_flush,
            r@ == index_frame(index.record_view()),
    {
        let frame = encode_index_frame(&index);
        self.raft_index = index;
        self.applied_flush = true;
        frame
    }

    /// Whether a flush of the file is owed.
    pub fn needs_flush(&self) -> (r: bool)
        ensures
            r == !self.applied_flush,
    {
        !self.applied_flush
    }
}

/// The nodes of `members` that have an address, in order.
pub open spec fn member_nodes(members: Seq<u64>, addrs: Map<u64, String>) -> Seq<(u64, Seq<char>)>
    decreases members.len(),
{
    if members.len() == 0 {
        Seq::empty()
    } else {
        let rest = member_nodes(members.drop_last(), addrs);
        let id = members.last();
        if addrs.contains_key(id) {
            rest.push((id, addrs[id]@))
        } else {
            rest
        }
    }
}

/// The node list handed to the naming service: after a membership change,
/// the members and then the members after consensus that have an address;
/// otherwise every known address.
pub open spec fn membership_nodes(index: RaftIndexDto, is_change_member: bool) -> Seq<(u64, Seq<char>)> {
    if is_change_member {
        member_nodes(index.member@, index.node_addrs@) + member_nodes(
            index.member_after_consensus@,
            index.node_addrs@,
        )
    } else {
        index.node_addrs.spec_entries().map_values(|p: (u64, String)| (p.0, p.1@))
    }
}

/// The node list as values.
pub open spec fn node_pairs(v: Seq<(u64, String)>) -> Seq<(u64, Seq<char>)> {
    v.map_values(|p: (u64, String)| (p.0, p.1@))
}

fn push_member_nodes(out: &mut Vec<(u64, String)>, members: &Vec<u64>, addrs: &IdMap<String>)
    requires
        addrs.wf(),
    ensures
        node_pairs(final(out)@) == node_pairs(old(out)@) + member_nodes(members@, addrs@),
{
    let mut i: usize = 0;
    assert(members@.subrange(0, 0) =~= Seq::<u64>::empty());
    assert(node_pairs(out@) + member_nodes(Seq::<u64>::empty(), addrs@) =~= node_pairs(out@));
    while i < members.len()
        invariant
            i <= members@.len(),
            addrs.wf(),
            node_pairs(out@) == node_pairs(old(out)@) + member_nodes(members@.subrange(0, i as int), addrs@),
        decreases members@.len() - i,
    {
        let nid = members[i];
        let ghost prev = out@;
        proof {
            assert(members@.subrange(0, i as int + 1).drop_last() == members@.subrange(0, i as int));
        }
        match addrs.get(nid) {
            Some(addr) => {
                out.push((nid, addr.clone()));
                proof {
                    assert(node_pairs(out@) =~= node_pairs(prev).push((nid, addrs@[nid]@)));
                }
            },
            None => {},
        }
        i += 1;
    }
    assert(members@.subrange(0, members@.len() as int) == members@);
}

/// The node list for the naming service.
pub fn membership_node_list(index: &RaftIndexDto, is_change_member: bool) -> (r: Vec<(u64, String)>)
    requires
        index.node_addrs.wf(),
    ensures
        node_pairs(r@) == membership_nodes(*index, is_change_member),
{
    let mut out: Vec<(u64, String)> = Vec::new();
    if is_change_member {
        push_member_nodes(&mut out, &index.member, &index.node_addrs);
        push_member_nodes(&mut out, &index.member_after_consensus, &index.node_addrs);
        assert(node_pairs(Seq::<(u64, String)>::empty()) =~= Seq::<(u64, Seq<char>)>::empty());
    } else {
        let entries = index.node_addrs.as_vec();
        let mut i: usize = 0;
        while i < entries.len()
            invariant
                i <= entries@.len(),
                entries@ == index.node_addrs.spec_entries(),
                node_pairs(out@) == node_pairs(entries@.subrange(0, i as int)),
            decreases entries@.len() - i,
        {
            let ghost prev = out@;
            out.push((entries[i].0, entries[i].1.clone()));
            proof {
                assert(node_pairs(out@) =~= node_pairs(prev).push((entries@[i as int].0, entries@[i as int].1@)));
                assert(node_pairs(entries@.subrange(0, i as int + 1)) =~= node_pairs(entries@.subrange(0, i as int)).push(
                    (entries@[i as int].0, entries@[i as int].1@),
                ));
            }
            i += 1;
        }
        assert(entries@.subrange(0, entries@.len() as int) == entries@);
    }
    out
}

/// A request to the index manager.
pub enum RaftIndexRequest {
    LoadIndexInfo,
    LoadMember,
    GetTargetAddr(u64),
    SaveLogs(Vec<LogRange>),
    SaveSnapshots(Vec<SnapshotRange>),
    SaveLastAppliedLog(u64),
    SaveMember { member: Vec<u64>, member_after_consensus: Option<Vec<u64>>, node_addr: Option<IdMap<String>> },
    AddNodeAddr(u64, String),
    SaveHardState { current_term: u64, voted_for: u64 },
}

/// The index manager's answer.
pub enum RaftIndexResponse {
    /// The request was carried out and has no value to give.
    Done,
    RaftIndexInfo { raft_index: RaftIndexDto, last_applied_log: u64 },
    HardState { current_term: u64, voted_for: u64 },
    MemberShip { member: Vec<u64>, member_after_consensus: Vec<u64>, node_addrs: IdMap<String> },
    TargetAddr(Option<String>),
}

/// Why the index manager refused a request.
#[derive(Clone, Copy, Debug, PartialEq, Eq)]
pub enum RaftIndexError {
    /// The index file has not been loaded.
    InnerEmpty,
}

/// The file work and notification that a request leaves to the caller:
/// bytes to write at the start of the index file, a frame to write after
/// its first 8 bytes (then flush), and a node list for the naming service.
pub struct RaftIndexEffects {
    pub last_applied_bytes: Option<Vec<u8>>,
    pub index_frame: Option<Vec<u8>>,
    pub notify_nodes: Option<Vec<(u64, String)>>,
}

impl RaftIndexEffects {
    pub open spec fn is_none(&self) -> bool {
        self.last_applied_bytes is None && self.index_frame is None && self.notify_nodes is None
    }
}

/// The index manager: the loaded index file, if any.
pub struct RaftIndexManager {
    pub inner: Option<RaftIndexInnerManager>,
}

/// The index `b` is `a` with only the logs replaced.
pub open spec fn index_with_logs(a: RaftIndexDto, b: RaftIndexDto, logs: Seq<LogRange>) -> bool {
    &&& b.logs@ == logs
    &&& b.current_log == a.current_log && b.snapshots@ == a.snapshots@
    &&& b.last_snapshot == a.last_snapshot && b.last_snapshot_index == a.last_snapshot_index
    &&& b.last_snapshot_term == a.last_snapshot_term && b.current_term == a.current_term
    &&& b.voted_for == a.voted_for && b.member@ == a.member@
    &&& b.member_after_consensus@ == a.member_after_consensus@ && b.node_addrs@ == a.node_addrs@
    &&& b.node_addrs.spec_entries() == a.node_addrs.spec_entries()
}

/// The index `b` is `a` with only the snapshots replaced.
pub open spec fn index_with_snapshots(a: RaftIndexDto, b: RaftIndexDto, snapshots: Seq<SnapshotRange>) -> bool {
    &&& b.snapshots@ == snapshots
    &&& b.logs@ == a.logs@ && b.current_log == a.current_log
    &&& b.last_snapshot == a.last_snapshot && b.last_snapshot_index == a.last_snapshot_index
    &&& b.last_snapshot_term == a.last_snapshot_term && b.current_term == a.current_term
    &&& b.voted_for == a.voted_for && b.member@ == a.member@
    &&& b.member_after_consensus@ == a.member_after_consensus@ && b.node_addrs@ == a.node_addrs@
    &&& b.node_addrs.spec_entries() == a.node_addrs.spec_entries()
}

/// The index `b` is `a` with only the hard state replaced.
pub open spec fn index_with_hard_state(a: RaftIndexDto, b: RaftIndexDto, term: u64, voted_for: u64) -> bool {
    &&& b.current_term == term && b.voted_for == voted_for
    &&& b.logs@ == a.logs@ && b.current_log == a.current_log && b.snapshots@ == a.snapshots@
    &&& b.last_snapshot == a.last_snapshot && b.last_snapshot_index == a.last_snapshot_index
    &&& b.last_snapshot_term == a.last_snapshot_term && b.member@ == a.member@
    &&& b.member_after_consensus@ == a.member_after_consensus@ && b.node_addrs@ == a.node_addrs@
    &&& b.node_addrs.spec_entries() == a.node_addrs.spec_entries()
}

/// The index `b` is `a` with only the membership replaced.
pub open spec fn index_with_members(
    a: RaftIndexDto,
    b: RaftIndexDto,
    member: Seq<u64>,
    after: Seq<u64>,
    addrs: Map<u64, String>,
) -> bool {
    &&& b.member@ == member && b.member_after_consensus@ == after && b.node_addrs@ == addrs
    &&& b.logs@ == a.logs@ && b.current_log == a.current_log && b.snapshots@ == a.snapshots@
    &&& b.last_snapshot == a.last_snapshot && b.last_snapshot_index == a.last_snapshot_index
    &&& b.last_snapshot_term == a.last_snapshot_term && b.current_term == a.current_term
    &&& b.voted_for == a.voted_for
}

/// After a request that rewrote the index, the frame to store is the new
/// index's, and a membership change is announced with the new node list.
pub open spec fn rewrote(m: RaftIndexInnerManager, e: RaftIndexEffects, notify: bool) -> bool {
    &&& e.last_applied_bytes is None
    &&& e.index_frame matches Some(f) && f@ == index_frame(m.raft_index.record_view())
    &&& m.applied_flush
    &&& notify ==> (e.notify_nodes matches Some(ns) && node_pairs(ns@) == membership_nodes(m.raft_index, true))
    &&& !notify ==> e.notify_nodes is None
}

impl RaftIndexManager {
    pub open spec fn wf(&self) -> bool {
        self.inner matches Some(m) ==> m.wf()
    }

    /// The nodes to announce when the naming service is first connected:
    /// every known address, or nothing before the index is loaded.
    pub fn initial_nodes(&self) -> (r: Option<Vec<(u64, String)>>)
        requires
            self.wf(),
        ensures
            match self.inner {
                Some(m) => r matches Some(ns) && node_pairs(ns@) == membership_nodes(m.raft_index, false),
                None => r is None,
            },
    {
        match &self.inner {
            Some(m) => Some(membership_node_list(&m.raft_index, false)),
            None => None,
        }
    }

    /// Rewrites the index after a change and says what to store.
    fn rewrite(inner: &mut RaftIndexInnerManager, notify: bool) -> (r: RaftIndexEffects)
        requires
            old(inner).wf(),
        ensures
            final(inner).wf(),
            final(inner).raft_index.record_view() == old(inner).raft_index.record_view(),
            final(inner).raft_index.node_addrs@ == old(inner).raft_index.node_addrs@,
            final(inner).raft_index.node_addrs.spec_entries() == old(inner).raft_index.node_addrs.spec_entries(),
            final(inner).raft_index.logs@ == old(inner).raft_index.logs@,
            final(inner).raft_index.snapshots@ == old(inner).raft_index.snapshots@,
            final(inner).raft_index.member@ == old(inner).raft_index.member@,
            final(inner).raft_index.member_after_consensus@ == old(inner).raft_index.member_after_consensus@,
            final(inner).raft_index.current_log == old(inner).raft_index.current_log,
            final(inner).raft_index.last_snapshot == old(inner).raft_index.last_snapshot,
            final(inner).raft_index.last_snapshot_index == old(inner).raft_index.last_snapshot_index,
            final(inner).raft_index.last_snapshot_term == old(inner).raft_index.last_snapshot_term,
            final(inner).raft_index.current_term == old(inner).raft_index.current_term,
            final(inner).raft_index.voted_for == old(inner).raft_index.voted_for,
            final(inner).last_applied_log == old(inner).last_applied_log,
            rewrote(*final(inner), r, notify),
    {
        let index = inner.raft_index.duplicate();
        let frame = inner.write_index(index);
        let notify_nodes = if notify {
            Some(membership_node_list(&inner.raft_index, true))
        } else {
            None
        };
        RaftIndexEffects { last_applied_bytes: None, index_frame: Some(frame), notify_nodes }
    }

    /// Handles one request: reads answer from the loaded index, writes
    /// change it and say what the file and the naming service are to get.
    /// Every request but `GetTargetAddr` and `LoadMember` is refused before
    /// the index is loaded.
    pub fn handle(&mut self, msg: RaftIndexRequest) -> (r: (Result<RaftIndexResponse, RaftIndexError>, RaftIndexEffects))
        requires
            old(self).wf(),
            msg matches RaftIndexRequest::SaveMember { node_addr: Some(m), .. } ==> m.wf(),
        ensures
            final(self).wf(),
            old(self).inner is None ==> {
                &&& final(self).inner is None
                &&& r.1.is_none()
                &&& match msg {
                    RaftIndexRequest::GetTargetAddr(_) => r.0 matches Ok(RaftIndexResponse::TargetAddr(None)),
                    RaftIndexRequest::LoadMember => r.0 matches Ok(RaftIndexResponse::Done),
                    _ => r.0 == Err::<RaftIndexResponse, RaftIndexError>(RaftIndexError::InnerEmpty),
                }
            },
            old(self).inner matches Some(o) ==> final(self).inner matches Some(n) && match msg {
                RaftIndexRequest::LoadIndexInfo => n == o && r.1.is_none() && (r.0 matches Ok(
                    RaftIndexResponse::RaftIndexInfo { raft_index, last_applied_log },
                ) && raft_index.record_view() == o.raft_index.record_view() && raft_index.node_addrs@
                    == o.raft_index.node_addrs@ && last_applied_log == o.last_applied_log),
                RaftIndexRequest::LoadMember => n == o && r.1.is_none() && (r.0 matches Ok(
                    RaftIndexResponse::MemberShip { member, member_after_consensus, node_addrs },
                ) && member@ == o.raft_index.member@ && member_after_consensus@
                    == o.raft_index.member_after_consensus@ && node_addrs@ == o.raft_index.node_addrs@),
                RaftIndexRequest::GetTargetAddr(id) => n == o && r.1.is_none() && (r.0 matches Ok(
                    RaftIndexResponse::TargetAddr(a),
                ) && (o.raft_index.node_addrs@.contains_key(id) ==> a == Some(o.raft_index.node_addrs@[id]))
                    && (!o.raft_index.node_addrs@.contains_key(id) ==> a is None)),
                RaftIndexRequest::SaveLastAppliedLog(la) => (r.0 matches Ok(RaftIndexResponse::Done))
                    && n.raft_index == o.raft_index && n.last_applied_log == la && !n.applied_flush
                    && (r.1.last_applied_bytes matches Some(b) && b@ == id_bytes(la)) && r.1.index_frame is None
                    && r.1.notify_nodes is None,
                RaftIndexRequest::SaveLogs(logs) => (r.0 matches Ok(RaftIndexResponse::Done)) && index_with_logs(
                    o.raft_index,
                    n.raft_index,
                    logs@,
                ) && n.last_applied_log == o.last_applied_log && rewrote(n, r.1, false),
                RaftIndexRequest::SaveSnapshots(snapshots) => (r.0 matches Ok(RaftIndexResponse::Done))
                    && index_with_snapshots(o.raft_index, n.raft_index, snapshots@) && n.last_applied_log
                    == o.last_applied_log && rewrote(n, r.1, false),
                RaftIndexRequest::SaveHardState { current_term, voted_for } => (r.0 matches Ok(
                    RaftIndexResponse::Done,
                )) && index_with_hard_state(o.raft_index, n.raft_index, current_term, voted_for)
                    && n.last_applied_log == o.last_applied_log && rewrote(n, r.1, false),
                RaftIndexRequest::SaveMember { member, member_after_consensus, node_addr } => (r.0 matches Ok(
                    RaftIndexResponse::Done,
                )) && index_with_members(
                    o.raft_index,
                    n.raft_index,
                    member@,
                    match member_after_consensus {
                        Some(m) => m@,
                        None => o.raft_index.member_after_consensus@,
                    },
                    match node_addr {
                        Some(m) => m@,
                        None => o.raft_index.node_addrs@,
                    },
                ) && n.last_applied_log == o.last_applied_log && rewrote(n, r.1, true),
                RaftIndexRequest::AddNodeAddr(id, addr) => (r.0 matches Ok(RaftIndexResponse::Done))
                    && index_with_members(
                    o.raft_index,
                    n.raft_index,
                    o.raft_index.member@,
                    o.raft_index.member_after_consensus@,
                    o.raft_index.node_addrs@.insert(id, addr),
                ) && n.last_applied_log == o.last_applied_log && rewrote(n, r.1, true),
            },
    {
        let none = RaftIndexEffects { last_applied_bytes: None, index_frame: None, notify_nodes: None };
        match msg {
            RaftIndexRequest::GetTargetAddr(id) => {
                let addr = match &self.inner {
                    Some(m) => match m.raft_index.node_addrs.get(id) {
                        Some(a) => Some(a.clone()),
                        None => None,
                    },
                    None => None,
                };
                (Ok(RaftIndexResponse::TargetAddr(addr)), none)
            },
            RaftIndexRequest::LoadMember => match &self.inner {
                Some(m) => (
                    Ok(
                        RaftIndexResponse::MemberShip {
                            member: m.raft_index.member.clone(),
                            member_after_consensus: m.raft_index.member_after_consensus.clone(),
                            node_addrs: m.raft_index.node_addrs.duplicate(),
                        },
                    ),
                    none,
                ),
                None => (Ok(RaftIndexResponse::Done), none),
            },
            RaftIndexRequest::LoadIndexInfo => match &self.inner {
                Some(m) => (
                    Ok(
                        RaftIndexResponse::RaftIndexInfo {
                            raft_index: m.raft_index.duplicate(),
                            last_applied_log: m.last_applied_log,
                        },
                    ),
                    none,
                ),
                None => (Err(RaftIndexError::InnerEmpty), none),
            },
            RaftIndexRequest::SaveLastAppliedLog(la) => match &mut self.inner {
                Some(m) => {
                    let bytes = m.write_last_applied_log(la);
                    (
                        Ok(RaftIndexResponse::Done),
                        RaftIndexEffects { last_applied_bytes: Some(bytes), index_frame: None, notify_nodes: None },
                    )
                },
                None => (Err(RaftIndexError::InnerEmpty), none),
            },
            RaftIndexRequest::SaveLogs(logs) => match &mut self.inner {
                Some(m) => {
                    m.raft_index.logs = logs;
                    let e = Self::rewrite(m, false);
                    (Ok(RaftIndexResponse::Done), e)
                },
                None => (Err(RaftIndexError::InnerEmpty), none),
            },
            RaftIndexRequest::SaveSnapshots(snapshots) => match &mut self.inner {
                Some(m) => {
                    m.raft_index.snapshots = snapshots;
                    let e = Self::rewrite(m, false);
                    (Ok(RaftIndexResponse::Done), e)
                },
                None => (Err(RaftIndexError::InnerEmpty), none),
            },
            RaftIndexRequest::SaveHardState { current_term, voted_for } => match &mut self.inner {
                Some(m) => {
                    m.raft_index.current_term = current_term;
                    m.raft_index.voted_for = voted_for;
                    let e = Self::rewrite(m, false);
                    (Ok(RaftIndexResponse::Done), e)
                },
                None => (Err(RaftIndexError::InnerEmpty), none),
            },
            RaftIndexRequest::SaveMember { member, member_after_consensus, node_addr } => match &mut self.inner {
                Some(m) => {
                    m.raft_index.member = member;
                    match member_after_consensus {
                        Some(v) => {
                            m.raft_index.member_after_consensus = v;
                        },
                        None => {},
                    }
                    match node_addr {
                        Some(v) => {
                            m.raft_index.node_addrs = v;
                        },
                        None => {},
                    }
                    let e = Self::rewrite(m, true);
                    (Ok(RaftIndexResponse::Done), e)
                },
                None => (Err(RaftIndexError::InnerEmpty), none),
            },
            RaftIndexRequest::AddNodeAddr(id, addr) => match &mut self.inner {
                Some(m) => {
                    m.raft_index.node_addrs.insert(id, addr);
                    let e = Self::rewrite(m, true);
                    (Ok(RaftIndexResponse::Done), e)
                },
                None => (Err(RaftIndexError::InnerEmpty), none),
            },
        }
    }
}

// ---- what the index file holds across writes ----

/// The bytes `f` of the index file read back as the state `m`: its last
/// applied log index and an index with the same contents.
pub open spec fn index_file_holds(m: RaftIndexInnerManager, f: Seq<u8>) -> bool {
    index_file_read(f) matches Some((la, v)) && la == m.last_applied_log && same_but_nodes(
        v,
        m.raft_index.record_view(),
    ) && nodes_map(v.node_addrs) == text_values(m.raft_index.node_addrs@)
}

/// Writing the 8 bytes that `write_last_applied_log` gives at the start of
/// a file that reads back as the state keeps it reading back as the new
/// state.
pub proof fn law_index_last_applied_write(m: RaftIndexInnerManager, f: Seq<u8>, last_applied_log: u64)
    requires
        index_file_holds(m, f),
    ensures
        index_file_holds(
            RaftIndexInnerManager { last_applied_log, applied_flush: false, ..m },
            crate::raft::filestore::logfile::write_at(f, 0, id_bytes(last_applied_log)),
        ),
{
    lemma_id_bytes_roundtrip(last_applied_log);
    let g = crate::raft::filestore::logfile::write_at(f, 0, id_bytes(last_applied_log));
    assert(g.len() == f.len());
    assert(g.subrange(8, g.len() as int) =~= f.subrange(8, f.len() as int));
    assert(g.subrange(0, 8) =~= id_bytes(last_applied_log));
    let b = id_bytes(last_applied_log);
    assert(id_of_bytes(g) == id_of_bytes(b)) by {
        assert(g[0] == b[0] && g[1] == b[1] && g[2] == b[2] && g[3] == b[3]);
        assert(g[4] == b[4] && g[5] == b[5] && g[6] == b[6] && g[7] == b[7]);
    }
}

/// Writing the frame that `write_index` gives after the first 8 bytes of a
/// file that reads back as the state keeps it reading back as the new
/// state, for every index whose length-delimited parts fit the reader's
/// 32-bit lengths; whatever an older, longer frame left after it is not read.
pub proof fn law_index_frame_write(m: RaftIndexInnerManager, f: Seq<u8>, dto: RaftIndexDto)
    requires
        index_file_holds(m, f),
        dto.node_addrs.wf(),
        varints_bytes(dto.member@).len() < 0x1_0000_0000,
        varints_bytes(dto.member_after_consensus@).len() < 0x1_0000_0000,
        nodes_fit(dto.record_view().node_addrs),
        raft_index_body(dto.record_view()).len() < 0x1_0000_0000,
    ensures
        index_file_holds(
            RaftIndexInnerManager { raft_index: dto, applied_flush: true, ..m },
            crate::raft::filestore::logfile::write_at(f, 8, index_frame(dto.record_view())),
        ),
{
    let fr = index_frame(dto.record_view());
    let g = crate::raft::filestore::logfile::write_at(f, 8, fr);
    let tail = if 8 + fr.len() <= f.len() {
        f.subrange(8 + fr.len() as int, f.len() as int)
    } else {
        Seq::<u8>::empty()
    };
    let head = f.subrange(0, 8);
    assert(g =~= head + fr + tail);
    let v = dto.record_view();
    let body = raft_index_body(v);
    law_raft_index_roundtrip(v);
    lemma_frame_roundtrip(body, tail);
    assert(g.subrange(8, g.len() as int) =~= varint_bytes(body.len()) + body + tail);
    assert(id_of_bytes(g) == id_of_bytes(f)) by {
        assert(g[0] == f[0] && g[1] == f[1] && g[2] == f[2] && g[3] == f[3]);
        assert(g[4] == f[4] && g[5] == f[5] && g[6] == f[6] && g[7] == f[7]);
    }
    law_index_record_conversion(dto);
}

/// Reopening the index file after the last applied index `n` and the index
/// `dto` were written gives them back: whatever the file held before, a new
/// file included, once the 8 bytes of `write_last_applied_log(n)` are at
/// its start and the frame of `write_index(dto)` after them, in either
/// order of writing (the frame first only on a file of at least 8 bytes),
/// it reads back as `n` and an index with the same contents, for every
/// index whose length-delimited parts fit the reader's 32-bit lengths.
pub proof fn law_index_reopen(f: Seq<u8>, n: u64, dto: RaftIndexDto)
    requires
        dto.node_addrs.wf(),
        varints_bytes(dto.member@).len() < 0x1_0000_0000,
        varints_bytes(dto.member_after_consensus@).len() < 0x1_0000_0000,
        nodes_fit(dto.record_view().node_addrs),
        raft_index_body(dto.record_view()).len() < 0x1_0000_0000,
    ensures
        ({
            let g = crate::raft::filestore::logfile::write_at(
                crate::raft::filestore::logfile::write_at(f, 0, id_bytes(n)),
                8,
                index_frame(dto.record_view()),
            );
            index_file_read(g) matches Some((la, v)) && la == n && same_but_nodes(v, dto.record_view())
                && nodes_map(v.node_addrs) == text_values(dto.node_addrs@)
        }),
        f.len() >= 8 ==> ({
            let g = crate::raft::filestore::logfile::write_at(
                crate::raft::filestore::logfile::write_at(f, 8, index_frame(dto.record_view())),
                0,
                id_bytes(n),
            );
            index_file_read(g) matches Some((la, v)) && la == n && same_but_nodes(v, dto.record_view())
                && nodes_map(v.node_addrs) == text_values(dto.node_addrs@)
        }),
{
    let fr = index_frame(dto.record_view());
    let b = id_bytes(n);
    lemma_id_bytes_roundtrip(n);
    assert(b.len() == 8);
    let f1 = crate::raft::filestore::logfile::write_at(f, 0, b);
    assert(f1.len() >= 8);
    assert(f1.subrange(0, 8) =~= b);
    let g = crate::raft::filestore::logfile::write_at(f1, 8, fr);
    let tail = if 8 + fr.len() <= f1.len() {
        f1.subrange(8 + fr.len() as int, f1.len() as int)
    } else {
        Seq::<u8>::empty()
    };
    assert(g =~= b + fr + tail);
    law_index_file_roundtrip(n, dto, tail);
    if f.len() >= 8 {
        let h1 = crate::raft::filestore::logfile::write_at(f, 8, fr);
        let h = crate::raft::filestore::logfile::write_at(h1, 0, b);
        let tail2 = if 8 + fr.len() <= f.len() {
            f.subrange(8 + fr.len() as int, f.len() as int)
        } else {
            Seq::<u8>::empty()
        };
        assert(h1.len() >= 8);
        assert(h =~= b + fr + tail2);
        law_index_file_roundtrip(n, dto, tail2);
    }
}

} // verus!
