use vstd::prelude::*;
use crate::common::idmap::{IdMap, id_keys_unique, id_entries_map, lemma_id_entries_map_push};
use crate::common::protobuf_utils::{
    MessageBufReader, frame_body, read_frame_body, varint_bytes, push_len_delimited, lemma_frame_roundtrip,
    next_frame_len, frames_of, lemma_frames_of_step, lemma_varint_roundtrip, read_varint,
};
use crate::common::pbmsg::varints_bytes;
use crate::raft::filestore::log::DecodeError;
use crate::raft::filestore::model::SnapshotRecordDto;
use crate::raft::filestore::records::{SnapshotRange, NodeAddrItem, NodeAddrView};
use crate::raft::filestore::index_record::{node_views, nodes_fit};
use crate::raft::filestore::raftindex::{entry_views, nodes_map, text_values, lemma_nodes_map_of_entries};
use crate::raft::filestore::snapshot_record::{
    SnapshotHeader, SnapshotHeaderView, SnapshotRecordView, snapshot_header_body, snapshot_header_decode,
    encode_snapshot_header, decode_snapshot_header, law_snapshot_header_roundtrip, snapshot_record_body,
    snapshot_record_decode, encode_snapshot_record, decode_snapshot_record, law_snapshot_record_roundtrip,
};

verus! {

/// The header of a snapshot as the managers hold it: node addresses kept
/// as a map.
pub struct SnapshotHeaderDto {
    pub last_index: u64,
    pub last_term: u64,
    pub member: Vec<u64>,
    pub member_after_consensus: Vec<u64>,
    pub node_addrs: IdMap<String>,
}

impl SnapshotHeaderDto {
    /// The header as it is stored, with no extension bytes.
    pub open spec fn record_view(&self) -> SnapshotHeaderView {
        SnapshotHeaderView {
            last_index: self.last_index,
            last_term: self.last_term,
            member: self.member@,
            member_after_consensus: self.member_after_consensus@,
            node_addrs: entry_views(self.node_addrs.spec_entries()),
            extend: Seq::empty(),
        }
    }

    /// A copy of the header.
    pub fn duplicate(&self) -> (r: Self)
        ensures
            r.record_view() == self.record_view(),
            r.node_addrs@ == self.node_addrs@,
            r.node_addrs.spec_entries() == self.node_addrs.spec_entries(),
            r.node_addrs.wf() == self.node_addrs.wf(),
    {
        SnapshotHeaderDto {
            last_index: self.last_index,
            last_term: self.last_term,
            member: self.member.clone(),
            member_after_consensus: self.member_after_consensus.clone(),
            node_addrs: self.node_addrs.duplicate(),
        }
    }

    /// The header as it is stored.
    pub fn to_record_do(&self) -> (r: SnapshotHeader)
        ensures
            r@ == self.record_view(),
    {
        let entries = self.node_addrs.as_vec();
        let mut nodes: Vec<NodeAddrItem> = Vec::new();
        let mut i: usize = 0;
        while i < entries.len()
            invariant
                i <= entries@.len(),
                entries@ == self.node_addrs.spec_entries(),
                node_views(nodes@) == entry_views(entries@.subrange(0, i as int)),
            decreases entries@.len() - i,
        {
            let item = NodeAddrItem { id: entries[i].0, addr: entries[i].1.clone() };
            let ghost prev = nodes@;
            nodes.push(item);
            proof {
                assert(item@ == NodeAddrView { id: entries@[i as int].0, addr: entries@[i as int].1@ });
                assert(node_views(nodes@) =~= node_views(prev).push(item@));
                assert(entry_views(entries@.subrange(0, i as int + 1)) =~= entry_views(entries@.subrange(0, i as int)).push(
                    NodeAddrView { id: entries@[i as int].0, addr: entries@[i as int].1@ },
                ));
            }
            i += 1;
        }
        assert(entries@.subrange(0, entries@.len() as int) == entries@);
        let r = SnapshotHeader {
            last_index: self.last_index,
            last_term: self.last_term,
            member: self.member.clone(),
            member_after_consensus: self.member_after_consensus.clone(),
            node_addrs: nodes,
            extend: Vec::new(),
        };
        assert(r@ =~= self.record_view());
        r
    }

    /// The header that a stored record holds: node addresses are read in
    /// order, a later address of an id replacing an earlier one; the
    /// extension bytes are dropped.
    pub fn from_record(value: SnapshotHeader) -> (r: Self)
        ensures
            r.node_addrs.wf(),
            r.last_index == value.last_index,
            r.last_term == value.last_term,
            r.member@ == value.member@,
            r.member_after_consensus@ == value.member_after_consensus@,
            text_values(r.node_addrs@) == nodes_map(value@.node_addrs),
    {
        let mut node_addrs: IdMap<String> = IdMap::new();
        let ghost vs = node_views(value.node_addrs@);
        let mut i: usize = 0;
        assert(text_values(node_addrs@) =~= nodes_map(vs.subrange(0, 0)));
        while i < value.node_addrs.len()
            invariant
                i <= value.node_addrs@.len(),
                vs == node_views(value.node_addrs@),
                node_addrs.wf(),
                text_values(node_addrs@) == nodes_map(vs.subrange(0, i as int)),
            decreases value.node_addrs@.len() - i,
        {
            let id = value.node_addrs[i].id;
            let addr = value.node_addrs[i].addr.clone();
            node_addrs.insert(id, addr);
            proof {
                assert(vs.subrange(0, i as int + 1).drop_last() == vs.subrange(0, i as int));
                assert(text_values(node_addrs@) =~= nodes_map(vs.subrange(0, i as int + 1)));
            }
            i += 1;
        }
        assert(vs.subrange(0, value.node_addrs@.len() as int) == vs);
        SnapshotHeaderDto {
            last_index: value.last_index,
            last_term: value.last_term,
            member: value.member,
            member_after_consensus: value.member_after_consensus,
            node_addrs,
        }
    }
}

// ---- snapshot files: the header frame, then one frame per record ----

/// A message as it is stored: the varint length of the body, then the body.
pub open spec fn frame_of(body: Seq<u8>) -> Seq<u8> {
    varint_bytes(body.len()) + body
}

/// The stored header of a snapshot file.
pub open spec fn header_frame(h: SnapshotHeaderView) -> Seq<u8> {
    frame_of(snapshot_header_body(h))
}

/// The stored form of one snapshot record.
pub open spec fn record_frame(r: SnapshotRecordView) -> Seq<u8> {
    frame_of(snapshot_record_body(r))
}

/// The stored records, one frame after another.
pub open spec fn records_bytes(rs: Seq<SnapshotRecordView>) -> Seq<u8>
    decreases rs.len(),
{
    if rs.len() == 0 {
        Seq::empty()
    } else {
        record_frame(rs[0]) + records_bytes(rs.drop_first())
    }
}

/// A whole snapshot file.
pub open spec fn snapshot_file(h: SnapshotHeaderView, rs: Seq<SnapshotRecordView>) -> Seq<u8> {
    header_frame(h) + records_bytes(rs)
}

/// Reading a stored frame as a header.
pub open spec fn header_of_frame(f: Seq<u8>) -> Option<SnapshotHeaderView> {
    match frame_body(f) {
        Some((a, b)) => snapshot_header_decode(f.subrange(a as int, b as int)),
        None => None,
    }
}

/// Reading a stored frame as a record.
pub open spec fn record_of_frame(f: Seq<u8>) -> Option<SnapshotRecordView> {
    match frame_body(f) {
        Some((a, b)) => snapshot_record_decode(f.subrange(a as int, b as int)),
        None => None,
    }
}

/// The frame in which `SnapshotWriter::init` stores a header.
pub fn encode_snapshot_header_frame(header: &SnapshotHeaderDto) -> (r: Vec<u8>)
    ensures
        r@ == header_frame(header.record_view()),
{
    let body = encode_snapshot_header(&header.to_record_do());
    let mut out: Vec<u8> = Vec::new();
    push_len_delimited(&mut out, body.as_slice());
    out
}

/// The frame in which `SnapshotWriter::write_record` stores a record.
pub fn encode_snapshot_record_frame(record: &SnapshotRecordDto) -> (r: Vec<u8>)
    ensures
        r@ == record_frame(record@),
{
    let body = encode_snapshot_record(record);
    let mut out: Vec<u8> = Vec::new();
    push_len_delimited(&mut out, body.as_slice());
    out
}

/// Reads a stored header frame.
pub fn decode_snapshot_header_frame(frame: &[u8]) -> (r: Result<SnapshotHeaderDto, DecodeError>)
    ensures
        match header_of_frame(frame@) {
            Some(v) => r matches Ok(h) && h.node_addrs.wf() && h.last_index == v.last_index && h.last_term
                == v.last_term && h.member@ == v.member && h.member_after_consensus@ == v.member_after_consensus
                && text_values(h.node_addrs@) == nodes_map(v.node_addrs),
            None => r is Err,
        },
{
    let (a, b) = match read_frame_body(frame) {
        Some(x) => x,
        None => return Err(DecodeError::BadFrame),
    };
    match decode_snapshot_header(frame, a, b) {
        Some(h) => Ok(SnapshotHeaderDto::from_record(h)),
        None => Err(DecodeError::BadField),
    }
}

/// Reads a stored record frame.
pub fn decode_snapshot_record_frame(frame: &[u8]) -> (r: Result<SnapshotRecordDto, DecodeError>)
    ensures
        match record_of_frame(frame@) {
            Some(v) => r matches Ok(x) && x@ == v,
            None => r is Err,
        },
{
    let (a, b) = match read_frame_body(frame) {
        Some(x) => x,
        None => return Err(DecodeError::BadFrame),
    };
    match decode_snapshot_record(frame, a, b) {
        Some(x) => Ok(x),
        None => Err(DecodeError::BadField),
    }
}

/// A frame of a body that is neither empty nor 4 GiB long is cut out of a
/// stream as itself, whatever follows it.
pub proof fn lemma_next_frame_of(body: Seq<u8>, rest: Seq<u8>)
    requires
        0 < body.len() < 0x1_0000_0000,
    ensures
        next_frame_len(frame_of(body) + rest) == Some(frame_of(body).len()),
        (frame_of(body) + rest).subrange(0, frame_of(body).len() as int) == frame_of(body),
        (frame_of(body) + rest).subrange(frame_of(body).len() as int, (frame_of(body) + rest).len() as int) == rest,
        frame_body(frame_of(body)) == Some((varint_bytes(body.len()).len(), frame_of(body).len())),
        frame_of(body).subrange(varint_bytes(body.len()).len() as int, frame_of(body).len() as int) == body,
{
    let s = frame_of(body) + rest;
    lemma_varint_roundtrip(body.len(), body + rest);
    assert(s == varint_bytes(body.len()) + (body + rest));
    lemma_frame_roundtrip(body, Seq::empty());
    assert(frame_of(body) + Seq::<u8>::empty() == frame_of(body));
    assert(varint_bytes(body.len()) + body + Seq::<u8>::empty() == frame_of(body));
}

/// Each record of a snapshot file has a body that the stream reader can
/// cut out: not empty, and under 4 GiB.
pub open spec fn records_fit(rs: Seq<SnapshotRecordView>) -> bool {
    forall|i: int| 0 <= i < rs.len() ==> {
        &&& 0 < snapshot_record_body(#[trigger] rs[i]).len() < 0x1_0000_0000
        &&& vstd::utf8::encode_utf8(rs[i].tree).len() < 0x1_0000_0000
        &&& rs[i].key.len() < 0x1_0000_0000
        &&& rs[i].value.len() < 0x1_0000_0000
    }
}

proof fn lemma_records_frames(rs: Seq<SnapshotRecordView>)
    requires
        records_fit(rs),
    ensures
        frames_of(records_bytes(rs)) == rs.map_values(|r: SnapshotRecordView| record_frame(r)),
    decreases rs.len(),
{
    if rs.len() == 0 {
        assert(records_bytes(rs) =~= Seq::<u8>::empty());
        assert(rs.map_values(|r: SnapshotRecordView| record_frame(r)) =~= Seq::<Seq<u8>>::empty());
    } else {
        let t = rs.drop_first();
        assert(records_fit(t)) by {
            assert forall|i: int| 0 <= i < t.len() implies {
                &&& 0 < snapshot_record_body(#[trigger] t[i]).len() < 0x1_0000_0000
                &&& vstd::utf8::encode_utf8(t[i].tree).len() < 0x1_0000_0000
                &&& t[i].key.len() < 0x1_0000_0000
                &&& t[i].value.len() < 0x1_0000_0000
            } by {
                assert(t[i] == rs[i + 1]);
            }
        }
        lemma_records_frames(t);
        let body = snapshot_record_body(rs[0]);
        assert(0 < body.len() < 0x1_0000_0000);
        lemma_next_frame_of(body, records_bytes(t));
        let s = records_bytes(rs);
        lemma_frames_of_step(s, frame_of(body).len());
        assert(rs.map_values(|r: SnapshotRecordView| record_frame(r)) =~= seq![record_frame(rs[0])]
            + t.map_values(|r: SnapshotRecordView| record_frame(r)));
    }
}

/// What a snapshot writer stores reads back: cutting the file into frames
/// gives the header's frame and then each record's frame, and each frame
/// reads back as what was written, for every snapshot whose header and
/// records have non-empty bodies that fit the reader's 32-bit lengths.
pub proof fn law_snapshot_file_roundtrip(h: SnapshotHeaderView, rs: Seq<SnapshotRecordView>)
    requires
        0 < snapshot_header_body(h).len() < 0x1_0000_0000,
        varints_bytes(h.member).len() < 0x1_0000_0000,
        varints_bytes(h.member_after_consensus).len() < 0x1_0000_0000,
        nodes_fit(h.node_addrs),
        h.extend.len() < 0x1_0000_0000,
        records_fit(rs),
    ensures
        frames_of(snapshot_file(h, rs)) == seq![header_frame(h)] + rs.map_values(|r: SnapshotRecordView| record_frame(r)),
        header_of_frame(header_frame(h)) == Some(h),
        forall|i: int| 0 <= i < rs.len() ==> record_of_frame(#[trigger] record_frame(rs[i])) == Some(rs[i]),
{
    let hb = snapshot_header_body(h);
    lemma_next_frame_of(hb, records_bytes(rs));
    lemma_frames_of_step(snapshot_file(h, rs), frame_of(hb).len());
    lemma_records_frames(rs);
    law_snapshot_header_roundtrip(h);
    assert forall|i: int| 0 <= i < rs.len() implies record_of_frame(#[trigger] record_frame(rs[i])) == Some(rs[i]) by {
        let b = snapshot_record_body(rs[i]);
        lemma_next_frame_of(b, Seq::empty());
        law_snapshot_record_roundtrip(rs[i]);
    }
}

// ---- reading a snapshot file chunk by chunk ----

/// Why a snapshot file could not be read.
#[derive(Clone, Copy, Debug, PartialEq, Eq)]
pub enum SnapshotReadError {
    /// The first chunk holds no complete header frame.
    NoHeader,
    /// A frame does not decode.
    Decode(DecodeError),
}

/// What the next read of a snapshot file gives.
pub enum SnapshotPoll {
    /// The next record.
    Record(SnapshotRecordDto),
    /// More of the file is needed to complete a frame.
    NeedData,
    /// The file has ended.
    End,
}

/// A snapshot file being read: its header, the bytes read and not yet
/// used, and whether the file has ended.
pub struct SnapshotReader {
    pub header: SnapshotHeaderDto,
    pub message_reader: MessageBufReader,
    pub is_end: bool,
}

impl SnapshotReader {
    pub open spec fn wf(&self) -> bool {
        self.message_reader.wf() && self.header.node_addrs.wf()
    }

    /// Starts reading with the first chunk of the file, which must hold the
    /// whole header frame.
    pub fn init(first: &[u8]) -> (r: Result<SnapshotReader, SnapshotReadError>)
        ensures
            match next_frame_len(first@) {
                Some(n) => match header_of_frame(first@.subrange(0, n as int)) {
                    Some(h) => r matches Ok(rd) && rd.wf() && !rd.is_end && rd.message_reader@ == first@.subrange(
                        n as int,
                        first@.len() as int,
                    ) && rd.header.last_index == h.last_index && rd.header.last_term == h.last_term
                        && rd.header.member@ == h.member && rd.header.member_after_consensus@
                        == h.member_after_consensus && text_values(rd.header.node_addrs@) == nodes_map(
                        h.node_addrs,
                    ),
                    None => r matches Err(SnapshotReadError::Decode(_)),
                },
                None => r == Err::<SnapshotReader, SnapshotReadError>(SnapshotReadError::NoHeader),
            },
    {
        let mut message_reader = MessageBufReader::new();
        message_reader.append_next_buf(first);
        assert(message_reader@ =~= first@);
        match message_reader.next_message_vec() {
            Some(v) => match decode_snapshot_header_frame(v.as_slice()) {
                Ok(header) => Ok(SnapshotReader { header, message_reader, is_end: false }),
                Err(e) => Err(SnapshotReadError::Decode(e)),
            },
            None => Err(SnapshotReadError::NoHeader),
        }
    }

    /// The next record, if the bytes read hold its whole frame; the end once
    /// the file has ended; otherwise a request for more of the file.
    pub fn poll_record(&mut self) -> (r: Result<SnapshotPoll, SnapshotReadError>)
        requires
            old(self).wf(),
        ensures
            final(self).wf(),
            final(self).header == old(self).header,
            final(self).is_end == old(self).is_end,
            old(self).is_end ==> (r matches Ok(SnapshotPoll::End)) && final(self).message_reader@ == old(
                self,
            ).message_reader@,
            !old(self).is_end ==> match next_frame_len(old(self).message_reader@) {
                Some(n) => {
                    &&& final(self).message_reader@ == old(self).message_reader@.subrange(
                        n as int,
                        old(self).message_reader@.len() as int,
                    )
                    &&& match record_of_frame(old(self).message_reader@.subrange(0, n as int)) {
                        Some(v) => r matches Ok(SnapshotPoll::Record(x)) && x@ == v,
                        None => r matches Err(SnapshotReadError::Decode(_)),
                    }
                },
                None => (r matches Ok(SnapshotPoll::NeedData)) && final(self).message_reader@ == old(
                    self,
                ).message_reader@,
            },
    {
        if self.is_end {
            return Ok(SnapshotPoll::End);
        }
        match self.message_reader.next_message_vec() {
            Some(v) => match decode_snapshot_record_frame(v.as_slice()) {
                Ok(x) => Ok(SnapshotPoll::Record(x)),
                Err(e) => Err(SnapshotReadError::Decode(e)),
            },
            None => Ok(SnapshotPoll::NeedData),
        }
    }

    /// Hands over the next chunk of the file; an empty chunk marks its end.
    pub fn feed(&mut self, data: &[u8])
        requires
            old(self).wf(),
        ensures
            final(self).wf(),
            final(self).header == old(self).header,
            data@.len() == 0 ==> final(self).is_end && final(self).message_reader@ == old(self).message_reader@,
            data@.len() > 0 ==> final(self).is_end == old(self).is_end && final(self).message_reader@ == old(
                self,
            ).message_reader@ + data@,
    {
        if data.len() == 0 {
            self.is_end = true;
        } else {
            self.message_reader.append_next_buf(data);
        }
    }
}

// ---- the snapshot manager's state and decisions ----

/// Why the snapshot manager refused a request.
#[derive(Clone, Copy, Debug, PartialEq, Eq)]
pub enum SnapshotError {
    /// A snapshot is being packaged.
    Building,
}

/// A request to the snapshot manager.
pub enum RaftSnapshotRequest {
    GetLastSnapshot,
    NewSnapshot(SnapshotHeaderDto),
    NewSnapshotForLoad,
    CompleteSnapshot(SnapshotRange),
    InstallSnapshot { end_index: u64, snapshot_id: u64 },
}

/// The snapshot manager's answer; snapshots are named by their ids, whose
/// files the caller locates.
pub enum RaftSnapshotResponse {
    /// The last snapshot's id and header, if there are.
    LastSnapshot(Option<u64>, Option<SnapshotHeaderDto>),
    /// A writer is to be started for the new snapshot with this header and id.
    NewSnapshot(SnapshotHeaderDto, u64),
    /// The id under which a received snapshot is to be stored.
    NewSnapshotForLoad(u64),
    /// The request was carried out and has no value to give.
    Done,
}

/// The work that a request leaves to the caller: snapshot files to delete,
/// requests for the index manager, and a snapshot whose header is to be
/// loaded.
pub struct SnapshotEffects {
    pub delete_ids: Vec<u64>,
    pub index_requests: Vec<crate::raft::filestore::raftindex::RaftIndexRequest>,
    pub load_header_id: Option<u64>,
}

/// The snapshot manager: the snapshots kept, the header of the last one,
/// and the snapshot being packaged.
pub struct RaftSnapshotManager {
    pub snapshots: Vec<SnapshotRange>,
    pub last_header: Option<SnapshotHeaderDto>,
    pub building: Option<SnapshotRange>,
    pub is_init: bool,
}

/// The id of the next snapshot: one past the last, or 1.
pub open spec fn next_snapshot_id(snapshots: Seq<SnapshotRange>) -> int {
    if snapshots.len() > 0 {
        snapshots.last().id + 1
    } else {
        1
    }
}

/// The snapshots kept after `range` completes: all of them and `range`
/// while at most one is kept, else the last one and `range`.
pub open spec fn kept_snapshots(snapshots: Seq<SnapshotRange>, range: SnapshotRange) -> Seq<SnapshotRange> {
    if snapshots.len() <= 1 {
        snapshots.push(range)
    } else {
        seq![snapshots.last(), range]
    }
}

/// The snapshots whose files go when `range` completes: all but the last,
/// once more than one is kept.
pub open spec fn dropped_snapshot_ids(snapshots: Seq<SnapshotRange>) -> Seq<u64> {
    if snapshots.len() <= 1 {
        Seq::empty()
    } else {
        snapshots.subrange(0, snapshots.len() - 1).map_values(|r: SnapshotRange| r.id)
    }
}

/// Completing a snapshot keeps at most two: the new one last, after the one
/// that was last before it; every other snapshot is dropped, and the next
/// id follows the new one.
pub proof fn law_snapshot_retention(snapshots: Seq<SnapshotRange>, range: SnapshotRange)
    ensures
        kept_snapshots(snapshots, range).len() <= 2,
        kept_snapshots(snapshots, range).last() == range,
        snapshots.len() > 0 ==> kept_snapshots(snapshots, range)[kept_snapshots(snapshots, range).len() - 2]
            == snapshots.last(),
        dropped_snapshot_ids(snapshots).len() + kept_snapshots(snapshots, range).len() == snapshots.len() + 1,
        next_snapshot_id(kept_snapshots(snapshots, range)) == range.id + 1,
{
}

impl RaftSnapshotManager {
    pub open spec fn wf(&self) -> bool {
        self.last_header matches Some(h) ==> h.node_addrs.wf()
    }

    /// A manager that has not loaded the index yet.
    pub fn new() -> (r: Self)
        ensures
            r.wf(),
            r.snapshots@.len() == 0,
            r.last_header is None,
            r.building is None,
            !r.is_init,
    {
        RaftSnapshotManager { snapshots: Vec::new(), last_header: None, building: None, is_init: false }
    }

    /// Takes the snapshots of the loaded index, once; the last one's header
    /// is then to be loaded.
    pub fn on_index_loaded(&mut self, snapshots: Vec<SnapshotRange>) -> (r: Option<u64>)
        requires
            old(self).wf(),
        ensures
            final(self).wf(),
            old(self).is_init ==> *final(self) == *old(self) && r is None,
            !old(self).is_init ==> {
                &&& final(self).is_init
                &&& final(self).snapshots@ == snapshots@
                &&& final(self).last_header == old(self).last_header
                &&& final(self).building == old(self).building
                &&& r == if snapshots@.len() > 0 {
                    Some(snapshots@.last().id)
                } else {
                    None::<u64>
                }
            },
    {
        if self.is_init {
            return None;
        }
        self.is_init = true;
        self.snapshots = snapshots;
        match self.snapshots.last() {
            Some(last) => Some(last.id),
            None => None,
        }
    }

    /// Keeps a header that was loaded.
    pub fn on_header_loaded(&mut self, header: SnapshotHeaderDto)
        requires
            header.node_addrs.wf(),
        ensures
            final(self).wf(),
            final(self).last_header == Some(header),
            final(self).snapshots == old(self).snapshots,
            final(self).building == old(self).building,
            final(self).is_init == old(self).is_init,
    {
        self.last_header = Some(header);
    }

    /// The id of the next snapshot, refused while one is being packaged.
    pub fn get_next_id(&self) -> (r: Result<u64, SnapshotError>)
        requires
            self.snapshots@.len() > 0 ==> self.snapshots@.last().id < u64::MAX,
        ensures
            self.building is Some ==> r == Err::<u64, SnapshotError>(SnapshotError::Building),
            self.building is None ==> (r matches Ok(id) && id == next_snapshot_id(self.snapshots@)),
    {
        if self.building.is_some() {
            return Err(SnapshotError::Building);
        }
        match self.snapshots.last() {
            Some(last) => Ok(last.id + 1),
            None => Ok(1),
        }
    }

    /// Records a completed snapshot: keeps it with at most the last one
    /// before it, says which files to delete, and asks the index manager to
    /// store the snapshots kept and the last one's header to be loaded.
    pub fn complete_snapshot(&mut self, snapshot_range: SnapshotRange) -> (r: SnapshotEffects)
        requires
            old(self).wf(),
        ensures
            final(self).wf(),
            final(self).building is None,
            final(self).last_header == old(self).last_header,
            final(self).is_init == old(self).is_init,
            final(self).snapshots@ == kept_snapshots(old(self).snapshots@, snapshot_range),
            r.delete_ids@ == dropped_snapshot_ids(old(self).snapshots@),
            r.index_requests@.len() == 1,
            r.index_requests@[0] matches crate::raft::filestore::raftindex::RaftIndexRequest::SaveSnapshots(s) && s@
                == final(self).snapshots@,
            r.load_header_id == Some(snapshot_range.id),
    {
        self.building = None;
        let n = self.snapshots.len();
        let mut delete_ids: Vec<u64> = Vec::new();
        if n > 1 {
            let mut i: usize = 0;
            while i < n - 1
                invariant
                    n == self.snapshots@.len(),
                    n > 1,
                    i <= n - 1,
                    delete_ids@ == self.snapshots@.subrange(0, i as int).map_values(|r: SnapshotRange| r.id),
                decreases n - 1 - i,
            {
                delete_ids.push(self.snapshots[i].id);
                proof {
                    assert(delete_ids@ =~= self.snapshots@.subrange(0, i as int + 1).map_values(
                        |r: SnapshotRange| r.id,
                    ));
                }
                i += 1;
            }
            let last = self.snapshots[n - 1];
            let mut kept: Vec<SnapshotRange> = Vec::new();
            kept.push(last);
            kept.push(snapshot_range);
            self.snapshots = kept;
            assert(self.snapshots@ =~= kept_snapshots(old(self).snapshots@, snapshot_range));
        } else {
            self.snapshots.push(snapshot_range);
            assert(delete_ids@ =~= dropped_snapshot_ids(old(self).snapshots@));
        }
        let mut index_requests = Vec::new();
        index_requests.push(crate::raft::filestore::raftindex::RaftIndexRequest::SaveSnapshots(self.snapshots.clone()));
        SnapshotEffects { delete_ids, index_requests, load_header_id: Some(snapshot_range.id) }
    }

    /// Handles one request.
    pub fn handle(&mut self, msg: RaftSnapshotRequest) -> (r: (Result<RaftSnapshotResponse, SnapshotError>, SnapshotEffects))
        requires
            old(self).wf(),
            (msg is NewSnapshot || msg is NewSnapshotForLoad) ==> (old(self).snapshots@.len() > 0
                ==> old(self).snapshots@.last().id < u64::MAX),
        ensures
            final(self).wf(),
            final(self).is_init == old(self).is_init,
            match msg {
                RaftSnapshotRequest::GetLastSnapshot => *final(self) == *old(self) && r.1.delete_ids@.len() == 0
                    && r.1.index_requests@.len() == 0 && r.1.load_header_id is None && (r.0 matches Ok(
                    RaftSnapshotResponse::LastSnapshot(id, header),
                ) && id == (if old(self).snapshots@.len() > 0 {
                    Some(old(self).snapshots@.last().id)
                } else {
                    None::<u64>
                }) && (old(self).last_header is None ==> header is None) && (old(self).last_header matches Some(
                    h,
                ) ==> (header matches Some(c) && c.record_view() == h.record_view() && c.node_addrs@
                    == h.node_addrs@))),
                RaftSnapshotRequest::NewSnapshot(header) => *final(self) == *old(self) && r.1.delete_ids@.len()
                    == 0 && r.1.index_requests@.len() == 0 && r.1.load_header_id is None && (old(
                    self,
                ).building is Some ==> r.0 matches Err(SnapshotError::Building)) && (old(self).building is None ==> (
                r.0 matches Ok(RaftSnapshotResponse::NewSnapshot(hd, id)) && hd == header && id
                    == next_snapshot_id(old(self).snapshots@))),
                RaftSnapshotRequest::NewSnapshotForLoad => *final(self) == *old(self) && r.1.delete_ids@.len() == 0
                    && r.1.index_requests@.len() == 0 && r.1.load_header_id is None && (old(self).building is Some
                    ==> r.0 matches Err(SnapshotError::Building)) && (old(self).building is None ==> (r.0 matches Ok(
                    RaftSnapshotResponse::NewSnapshotForLoad(id),
                ) && id == next_snapshot_id(old(self).snapshots@))),
                RaftSnapshotRequest::CompleteSnapshot(range) => (r.0 matches Ok(RaftSnapshotResponse::Done))
                    && final(self).snapshots@ == kept_snapshots(old(self).snapshots@, range) && final(self).building
                    is None && final(self).last_header == old(self).last_header && r.1.delete_ids@
                    == dropped_snapshot_ids(old(self).snapshots@) && r.1.index_requests@.len() == 1 && (
                r.1.index_requests@[0] matches crate::raft::filestore::raftindex::RaftIndexRequest::SaveSnapshots(s)
                    && s@ == final(self).snapshots@) && r.1.load_header_id == Some(range.id),
                RaftSnapshotRequest::InstallSnapshot { end_index, snapshot_id } => {
                    let range = SnapshotRange { id: snapshot_id, end_index };
                    &&& r.0 matches Ok(RaftSnapshotResponse::Done)
                    &&& final(self).snapshots@ == kept_snapshots(old(self).snapshots@, range)
                    &&& final(self).building is None
                    &&& final(self).last_header == old(self).last_header
                    &&& r.1.delete_ids@ == dropped_snapshot_ids(old(self).snapshots@)
                    &&& r.1.load_header_id == Some(snapshot_id)
                    &&& r.1.index_requests@.len() >= 1
                    &&& r.1.index_requests@[0] matches crate::raft::filestore::raftindex::RaftIndexRequest::SaveSnapshots(s)
                        && s@ == final(self).snapshots@
                    &&& old(self).last_header is None ==> r.1.index_requests@.len() == 1
                    &&& old(self).last_header matches Some(h) ==> {
                        &&& r.1.index_requests@.len() == 2
                        &&& r.1.index_requests@[1] matches crate::raft::filestore::raftindex::RaftIndexRequest::SaveMember {
                            member,
                            member_after_consensus,
                            node_addr,
                        } && member@ == h.member@ && (h.member_after_consensus@.len() == 0
                            ==> member_after_consensus is None) && (h.member_after_consensus@.len() > 0 ==> (
                        member_after_consensus matches Some(m) && m@ == h.member_after_consensus@)) && (
                        node_addr matches Some(a) && a@ == h.node_addrs@ && a.wf())
                    }
                },
            },
    {
        let none = SnapshotEffects { delete_ids: Vec::new(), index_requests: Vec::new(), load_header_id: None };
        match msg {
            RaftSnapshotRequest::GetLastSnapshot => {
                let id = match self.snapshots.last() {
                    Some(last) => Some(last.id),
                    None => None,
                };
                let header = match &self.last_header {
                    Some(h) => Some(h.duplicate()),
                    None => None,
                };
                (Ok(RaftSnapshotResponse::LastSnapshot(id, header)), none)
            },
            RaftSnapshotRequest::NewSnapshot(header) => match self.get_next_id() {
                Ok(id) => (Ok(RaftSnapshotResponse::NewSnapshot(header, id)), none),
                Err(e) => (Err(e), none),
            },
            RaftSnapshotRequest::NewSnapshotForLoad => match self.get_next_id() {
                Ok(id) => (Ok(RaftSnapshotResponse::NewSnapshotForLoad(id)), none),
                Err(e) => (Err(e), none),
            },
            RaftSnapshotRequest::CompleteSnapshot(range) => {
                let e = self.complete_snapshot(range);
                (Ok(RaftSnapshotResponse::Done), e)
            },
            RaftSnapshotRequest::InstallSnapshot { end_index, snapshot_id } => {
                let mut e = self.complete_snapshot(SnapshotRange { id: snapshot_id, end_index });
                match &self.last_header {
                    Some(header) => {
                        let member_after_consensus = if header.member_after_consensus.len() == 0 {
                            None
                        } else {
                            Some(header.member_after_consensus.clone())
                        };
                        let req = crate::raft::filestore::raftindex::RaftIndexRequest::SaveMember {
                            member: header.member.clone(),
                            member_after_consensus,
                            node_addr: Some(header.node_addrs.duplicate()),
                        };
                        e.index_requests.push(req);
                    },
                    None => {},
                }
                (Ok(RaftSnapshotResponse::Done), e)
            },
        }
    }
}

} // verus!
