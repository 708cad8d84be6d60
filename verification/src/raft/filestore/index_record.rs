use vstd::prelude::*;
use crate::common::protobuf_utils::{
    PbField, FieldKind, field_at, fields_of, fields_bytes, field_bytes, field_writable, varint_bytes,
    push_varint_field, push_chunk_field, lemma_fields_bytes_push, lemma_fields_roundtrip, lemma_varint_roundtrip,
};
use crate::common::pbmsg::{
    fold_fields, decode_body, fields_at, collect_fields, lemma_fold_push, lemma_fold_append, lemma_fold_none_extends,
    varints_bytes, varints_of, packed_varints, read_packed_varints, lemma_varints_roundtrip,
};
use crate::raft::filestore::log::lemma_fields_bytes_append;
use crate::raft::filestore::records::{
    opt_push, all_writable, lemma_fold_opt_push, lemma_bytes_opt_push, chunk_bytes, put_varint, put_chunk, LogRange, SnapshotRange,
    NodeAddrItem, NodeAddrView, log_range_body, log_range_decode, log_range_fields, encode_log_range,
    decode_log_range, lemma_log_range_roundtrip, snapshot_range_body, snapshot_range_decode,
    snapshot_range_fields, encode_snapshot_range, decode_snapshot_range, lemma_snapshot_range_roundtrip,
    node_addr_body, node_addr_decode, encode_node_addr, decode_node_addr, lemma_node_addr_roundtrip,
};

verus! {

// ---- RaftIndex: 1 logs (repeated LogRange), 2 current_log, 3 snapshots
//      (repeated SnapshotRange), 4 last_snapshot, 5 last_snapshot_index,
//      6 last_snapshot_term, 7 current_term, 8 voted_for, 9 member (packed),
//      10 member_after_consensus (packed), 11 node_addrs (repeated) ----

/// The raft index as it is stored: the log files, the snapshots, the hard
/// state and the membership.
#[derive(Clone, Debug, Default)]
pub struct RaftIndex {
    pub logs: Vec<LogRange>,
    pub current_log: u64,
    pub snapshots: Vec<SnapshotRange>,
    pub last_snapshot: u64,
    pub last_snapshot_index: u64,
    pub last_snapshot_term: u64,
    pub current_term: u64,
    pub voted_for: u64,
    pub member: Vec<u64>,
    pub member_after_consensus: Vec<u64>,
    pub node_addrs: Vec<NodeAddrItem>,
}

/// A stored raft index as values.
#[verifier::ext_equal]
pub struct RaftIndexView {
    pub logs: Seq<LogRange>,
    pub current_log: u64,
    pub snapshots: Seq<SnapshotRange>,
    pub last_snapshot: u64,
    pub last_snapshot_index: u64,
    pub last_snapshot_term: u64,
    pub current_term: u64,
    pub voted_for: u64,
    pub member: Seq<u64>,
    pub member_after_consensus: Seq<u64>,
    pub node_addrs: Seq<NodeAddrView>,
}

pub open spec fn node_views(ns: Seq<NodeAddrItem>) -> Seq<NodeAddrView> {
    ns.map_values(|n: NodeAddrItem| n@)
}

impl View for RaftIndex {
    type V = RaftIndexView;

    open spec fn view(&self) -> RaftIndexView {
        RaftIndexView {
            logs: self.logs@,
            current_log: self.current_log,
            snapshots: self.snapshots@,
            last_snapshot: self.last_snapshot,
            last_snapshot_index: self.last_snapshot_index,
            last_snapshot_term: self.last_snapshot_term,
            current_term: self.current_term,
            voted_for: self.voted_for,
            member: self.member@,
            member_after_consensus: self.member_after_consensus@,
            node_addrs: node_views(self.node_addrs@),
        }
    }
}

pub open spec fn empty_raft_index() -> RaftIndexView {
    RaftIndexView {
        logs: Seq::empty(),
        current_log: 0,
        snapshots: Seq::empty(),
        last_snapshot: 0,
        last_snapshot_index: 0,
        last_snapshot_term: 0,
        current_term: 0,
        voted_for: 0,
        member: Seq::empty(),
        member_after_consensus: Seq::empty(),
        node_addrs: Seq::empty(),
    }
}

pub open spec fn log_chunks(ls: Seq<LogRange>) -> Seq<PbField> {
    ls.map_values(|l: LogRange| PbField::Chunk { tag: 10, data: log_range_body(l) })
}

pub open spec fn snapshot_chunks(ss: Seq<SnapshotRange>) -> Seq<PbField> {
    ss.map_values(|s: SnapshotRange| PbField::Chunk { tag: 26, data: snapshot_range_body(s) })
}

pub open spec fn node_chunks(ns: Seq<NodeAddrView>) -> Seq<PbField> {
    ns.map_values(|n: NodeAddrView| PbField::Chunk { tag: 90, data: node_addr_body(n) })
}

/// The fields written for a raft index, in the writer's order: every log
/// range and snapshot range and node address as a message of its own, the
/// members packed, zero numbers and empty member lists left out.
pub open spec fn raft_index_fields(v: RaftIndexView) -> Seq<PbField> {
    raft_index_mid(v) + node_chunks(v.node_addrs)
}

/// The fields up to the snapshots.
pub open spec fn raft_index_head(v: RaftIndexView) -> Seq<PbField> {
    let a = log_chunks(v.logs);
    let b = opt_push(a, v.current_log != 0, PbField::Varint { tag: 16, value: v.current_log });
    b + snapshot_chunks(v.snapshots)
}

/// The fields up to the members.
pub open spec fn raft_index_mid(v: RaftIndexView) -> Seq<PbField> {
    let c = raft_index_head(v);
    let d1 = opt_push(c, v.last_snapshot != 0, PbField::Varint { tag: 32, value: v.last_snapshot });
    let d2 = opt_push(d1, v.last_snapshot_index != 0, PbField::Varint { tag: 40, value: v.last_snapshot_index });
    let d3 = opt_push(d2, v.last_snapshot_term != 0, PbField::Varint { tag: 48, value: v.last_snapshot_term });
    let d4 = opt_push(d3, v.current_term != 0, PbField::Varint { tag: 56, value: v.current_term });
    let d5 = opt_push(d4, v.voted_for != 0, PbField::Varint { tag: 64, value: v.voted_for });
    let d6 = opt_push(d5, v.member.len() > 0, PbField::Chunk { tag: 74, data: varints_bytes(v.member) });
    opt_push(
        d6,
        v.member_after_consensus.len() > 0,
        PbField::Chunk { tag: 82, data: varints_bytes(v.member_after_consensus) },
    )
}

/// The body of a raft index message.
pub open spec fn raft_index_body(v: RaftIndexView) -> Seq<u8> {
    fields_bytes(raft_index_fields(v))
}

/// One field read into a raft index: repeated messages are appended, packed
/// members replace the list read so far, and a nested message or packed
/// list that cannot be read makes the index unreadable.
pub open spec fn raft_index_step(acc: RaftIndexView, f: PbField) -> Option<RaftIndexView> {
    match f {
        PbField::Varint { tag, value } => Some(
            if tag == 16 {
                RaftIndexView { current_log: value, ..acc }
            } else if tag == 32 {
                RaftIndexView { last_snapshot: value, ..acc }
            } else if tag == 40 {
                RaftIndexView { last_snapshot_index: value, ..acc }
            } else if tag == 48 {
                RaftIndexView { last_snapshot_term: value, ..acc }
            } else if tag == 56 {
                RaftIndexView { current_term: value, ..acc }
            } else if tag == 64 {
                RaftIndexView { voted_for: value, ..acc }
            } else {
                acc
            },
        ),
        PbField::Chunk { tag, data } => if tag == 10 {
            match log_range_decode(data) {
                Some(l) => Some(RaftIndexView { logs: acc.logs.push(l), ..acc }),
                None => None,
            }
        } else if tag == 26 {
            match snapshot_range_decode(data) {
                Some(s) => Some(RaftIndexView { snapshots: acc.snapshots.push(s), ..acc }),
                None => None,
            }
        } else if tag == 74 {
            match varints_of(data) {
                Some(vs) => Some(RaftIndexView { member: vs, ..acc }),
                None => None,
            }
        } else if tag == 82 {
            match varints_of(data) {
                Some(vs) => Some(RaftIndexView { member_after_consensus: vs, ..acc }),
                None => None,
            }
        } else if tag == 90 {
            match node_addr_decode(data) {
                Some(n) => Some(RaftIndexView { node_addrs: acc.node_addrs.push(n), ..acc }),
                None => None,
            }
        } else {
            Some(acc)
        },
        PbField::Fixed { tag } => Some(acc),
    }
}

pub open spec fn raft_index_stepper() -> spec_fn(RaftIndexView, PbField) -> Option<RaftIndexView> {
    |acc: RaftIndexView, f: PbField| raft_index_step(acc, f)
}

/// Reading a raft index message body.
pub open spec fn raft_index_decode(s: Seq<u8>) -> Option<RaftIndexView> {
    decode_body(raft_index_stepper(), empty_raft_index(), s)
}

// ---- encoding ----

/// The bytes of a field that is written when `c` holds.
pub open spec fn opt_bytes(c: bool, f: PbField) -> Seq<u8> {
    if c {
        field_bytes(f)
    } else {
        Seq::empty()
    }
}

/// The body of a raft index, part by part.
pub proof fn lemma_raft_index_body_parts(v: RaftIndexView)
    ensures
        raft_index_body(v) == fields_bytes(log_chunks(v.logs))
            + opt_bytes(v.current_log != 0, PbField::Varint { tag: 16, value: v.current_log })
            + fields_bytes(snapshot_chunks(v.snapshots))
            + opt_bytes(v.last_snapshot != 0, PbField::Varint { tag: 32, value: v.last_snapshot })
            + opt_bytes(v.last_snapshot_index != 0, PbField::Varint { tag: 40, value: v.last_snapshot_index })
            + opt_bytes(v.last_snapshot_term != 0, PbField::Varint { tag: 48, value: v.last_snapshot_term })
            + opt_bytes(v.current_term != 0, PbField::Varint { tag: 56, value: v.current_term })
            + opt_bytes(v.voted_for != 0, PbField::Varint { tag: 64, value: v.voted_for })
            + opt_bytes(v.member.len() > 0, PbField::Chunk { tag: 74, data: varints_bytes(v.member) })
            + opt_bytes(
                v.member_after_consensus.len() > 0,
                PbField::Chunk { tag: 82, data: varints_bytes(v.member_after_consensus) },
            ) + fields_bytes(node_chunks(v.node_addrs)),
{
    let a = log_chunks(v.logs);
    let b = opt_push(a, v.current_log != 0, PbField::Varint { tag: 16, value: v.current_log });
    let c = b + snapshot_chunks(v.snapshots);
    let d1 = opt_push(c, v.last_snapshot != 0, PbField::Varint { tag: 32, value: v.last_snapshot });
    let d2 = opt_push(d1, v.last_snapshot_index != 0, PbField::Varint { tag: 40, value: v.last_snapshot_index });
    let d3 = opt_push(d2, v.last_snapshot_term != 0, PbField::Varint { tag: 48, value: v.last_snapshot_term });
    let d4 = opt_push(d3, v.current_term != 0, PbField::Varint { tag: 56, value: v.current_term });
    let d5 = opt_push(d4, v.voted_for != 0, PbField::Varint { tag: 64, value: v.voted_for });
    let d6 = opt_push(d5, v.member.len() > 0, PbField::Chunk { tag: 74, data: varints_bytes(v.member) });
    let d7 = opt_push(
        d6,
        v.member_after_consensus.len() > 0,
        PbField::Chunk { tag: 82, data: varints_bytes(v.member_after_consensus) },
    );
    lemma_bytes_opt_push(a, v.current_log != 0, PbField::Varint { tag: 16, value: v.current_log });
    lemma_fields_bytes_append(b, snapshot_chunks(v.snapshots));
    lemma_bytes_opt_push(c, v.last_snapshot != 0, PbField::Varint { tag: 32, value: v.last_snapshot });
    lemma_bytes_opt_push(d1, v.last_snapshot_index != 0, PbField::Varint { tag: 40, value: v.last_snapshot_index });
    lemma_bytes_opt_push(d2, v.last_snapshot_term != 0, PbField::Varint { tag: 48, value: v.last_snapshot_term });
    lemma_bytes_opt_push(d3, v.current_term != 0, PbField::Varint { tag: 56, value: v.current_term });
    lemma_bytes_opt_push(d4, v.voted_for != 0, PbField::Varint { tag: 64, value: v.voted_for });
    lemma_bytes_opt_push(d5, v.member.len() > 0, PbField::Chunk { tag: 74, data: varints_bytes(v.member) });
    lemma_bytes_opt_push(
        d6,
        v.member_after_consensus.len() > 0,
        PbField::Chunk { tag: 82, data: varints_bytes(v.member_after_consensus) },
    );
    lemma_fields_bytes_append(d7, node_chunks(v.node_addrs));
}

/// Appends every log range as a nested message under field 1.
fn push_log_chunks(buf: &mut Vec<u8>, logs: &Vec<LogRange>)
    ensures
        final(buf)@ == old(buf)@ + fields_bytes(log_chunks(logs@)),
{
    let ghost mut fs: Seq<PbField> = Seq::empty();
    assert(fields_bytes(fs) =~= Seq::<u8>::empty());
    assert(old(buf)@ + fields_bytes(fs) == old(buf)@);
    let mut i: usize = 0;
    while i < logs.len()
        invariant
            i <= logs@.len(),
            fs == log_chunks(logs@.subrange(0, i as int)),
            buf@ == old(buf)@ + fields_bytes(fs),
        decreases logs@.len() - i,
    {
        let body = encode_log_range(&logs[i]);
        push_chunk_field(buf, 10, body.as_slice());
        proof {
            let f = PbField::Chunk { tag: 10, data: log_range_body(logs@[i as int]) };
            lemma_fields_bytes_push(fs, f);
            fs = fs.push(f);
            assert(fs =~= log_chunks(logs@.subrange(0, i as int + 1)));
        }
        i += 1;
    }
    assert(logs@.subrange(0, logs@.len() as int) == logs@);
}

/// Appends every snapshot range as a nested message under field 3.
fn push_snapshot_chunks(buf: &mut Vec<u8>, snapshots: &Vec<SnapshotRange>)
    ensures
        final(buf)@ == old(buf)@ + fields_bytes(snapshot_chunks(snapshots@)),
{
    let ghost mut fs: Seq<PbField> = Seq::empty();
    assert(fields_bytes(fs) =~= Seq::<u8>::empty());
    assert(old(buf)@ + fields_bytes(fs) == old(buf)@);
    let mut i: usize = 0;
    while i < snapshots.len()
        invariant
            i <= snapshots@.len(),
            fs == snapshot_chunks(snapshots@.subrange(0, i as int)),
            buf@ == old(buf)@ + fields_bytes(fs),
        decreases snapshots@.len() - i,
    {
        let body = encode_snapshot_range(&snapshots[i]);
        push_chunk_field(buf, 26, body.as_slice());
        proof {
            let f = PbField::Chunk { tag: 26, data: snapshot_range_body(snapshots@[i as int]) };
            lemma_fields_bytes_push(fs, f);
            fs = fs.push(f);
            assert(fs =~= snapshot_chunks(snapshots@.subrange(0, i as int + 1)));
        }
        i += 1;
    }
    assert(snapshots@.subrange(0, snapshots@.len() as int) == snapshots@);
}

/// Appends every node address as a nested message under `tag`.
pub(crate) fn push_node_chunks(buf: &mut Vec<u8>, tag: u32, nodes: &Vec<NodeAddrItem>)
    ensures
        final(buf)@ == old(buf)@ + fields_bytes(
            node_views(nodes@).map_values(|n: NodeAddrView| PbField::Chunk { tag, data: node_addr_body(n) }),
        ),
{
    let ghost mut fs: Seq<PbField> = Seq::empty();
    assert(fields_bytes(fs) =~= Seq::<u8>::empty());
    assert(old(buf)@ + fields_bytes(fs) == old(buf)@);
    let mut i: usize = 0;
    while i < nodes.len()
        invariant
            i <= nodes@.len(),
            fs == node_views(nodes@.subrange(0, i as int)).map_values(
                |n: NodeAddrView| PbField::Chunk { tag, data: node_addr_body(n) },
            ),
            buf@ == old(buf)@ + fields_bytes(fs),
        decreases nodes@.len() - i,
    {
        let body = encode_node_addr(&nodes[i]);
        push_chunk_field(buf, tag, body.as_slice());
        proof {
            let f = PbField::Chunk { tag, data: node_addr_body(nodes@[i as int]@) };
            lemma_fields_bytes_push(fs, f);
            fs = fs.push(f);
            assert(fs =~= node_views(nodes@.subrange(0, i as int + 1)).map_values(
                |n: NodeAddrView| PbField::Chunk { tag, data: node_addr_body(n) },
            ));
        }
        i += 1;
    }
    assert(nodes@.subrange(0, nodes@.len() as int) == nodes@);
}

/// The body of a raft index message, as `write_message` lays it out.
pub fn encode_raft_index(idx: &RaftIndex) -> (out: Vec<u8>)
    ensures
        out@ == raft_index_body(idx@),
{
    let mut buf: Vec<u8> = Vec::new();
    push_log_chunks(&mut buf, &idx.logs);
    put_varint(&mut buf, idx.current_log != 0, 16, idx.current_log);
    push_snapshot_chunks(&mut buf, &idx.snapshots);
    put_varint(&mut buf, idx.last_snapshot != 0, 32, idx.last_snapshot);
    put_varint(&mut buf, idx.last_snapshot_index != 0, 40, idx.last_snapshot_index);
    put_varint(&mut buf, idx.last_snapshot_term != 0, 48, idx.last_snapshot_term);
    put_varint(&mut buf, idx.current_term != 0, 56, idx.current_term);
    put_varint(&mut buf, idx.voted_for != 0, 64, idx.voted_for);
    let member = packed_varints(&idx.member);
    put_chunk(&mut buf, idx.member.len() > 0, 74, member.as_slice());
    let mac = packed_varints(&idx.member_after_consensus);
    put_chunk(&mut buf, idx.member_after_consensus.len() > 0, 82, mac.as_slice());
    push_node_chunks(&mut buf, 90, &idx.node_addrs);
    proof {
        lemma_raft_index_body_parts(idx@);
        assert(buf@ =~= raft_index_body(idx@));
    }
    buf
}

// ---- decoding ----

/// Reads the raft index message body `buf[start..end]`.
pub fn decode_raft_index(buf: &[u8], start: usize, end: usize) -> (r: Option<RaftIndex>)
    requires
        start <= end <= buf@.len(),
    ensures
        match raft_index_decode(buf@.subrange(start as int, end as int)) {
            Some(v) => r matches Some(idx) && idx@ == v,
            None => r is None,
        },
{
    let ps = match collect_fields(buf, start, end) {
        Ok(ps) => ps,
        Err(_) => return None,
    };
    let ghost fs = fields_at(buf@, ps@);
    let ghost st = raft_index_stepper();
    let mut acc = RaftIndex {
        logs: Vec::new(),
        current_log: 0,
        snapshots: Vec::new(),
        last_snapshot: 0,
        last_snapshot_index: 0,
        last_snapshot_term: 0,
        current_term: 0,
        voted_for: 0,
        member: Vec::new(),
        member_after_consensus: Vec::new(),
        node_addrs: Vec::new(),
    };
    proof {
        assert(acc@ =~= empty_raft_index());
    }
    let mut i: usize = 0;
    while i < ps.len()
        invariant
            i <= ps@.len(),
            st == raft_index_stepper(),
            fs == fields_at(buf@, ps@),
            end <= buf@.len(),
            fields_of(buf@.subrange(start as int, end as int)) == Some(fs),
            forall|j: int|
                0 <= j < ps@.len() ==> #[trigger] ps@[j].kind == FieldKind::Chunk ==> start <= ps@[j].start
                    && ps@[j].start + ps@[j].len <= end,
            fold_fields(st, empty_raft_index(), fs.subrange(0, i as int)) == Some(acc@),
        decreases ps@.len() - i,
    {
        let p = ps[i];
        let ghost old_acc = acc@;
        proof {
            lemma_fold_push(st, empty_raft_index(), fs.subrange(0, i as int), fs[i as int]);
            assert(fs.subrange(0, i as int).push(fs[i as int]) == fs.subrange(0, i as int + 1));
            assert(fs[i as int] == field_at(buf@, p));
        }
        let ok: bool = match p.kind {
            FieldKind::Varint => {
                if p.tag == 16 {
                    acc.current_log = p.value;
                } else if p.tag == 32 {
                    acc.last_snapshot = p.value;
                } else if p.tag == 40 {
                    acc.last_snapshot_index = p.value;
                } else if p.tag == 48 {
                    acc.last_snapshot_term = p.value;
                } else if p.tag == 56 {
                    acc.current_term = p.value;
                } else if p.tag == 64 {
                    acc.voted_for = p.value;
                }
                true
            },
            FieldKind::Chunk => {
                let e = p.start + p.len;
                if p.tag == 10 {
                    match decode_log_range(buf, p.start, e) {
                        Some(l) => {
                            acc.logs.push(l);
                            true
                        },
                        None => false,
                    }
                } else if p.tag == 26 {
                    match decode_snapshot_range(buf, p.start, e) {
                        Some(x) => {
                            acc.snapshots.push(x);
                            true
                        },
                        None => false,
                    }
                } else if p.tag == 74 {
                    match read_packed_varints(buf, p.start, e) {
                        Some(vs) => {
                            acc.member = vs;
                            true
                        },
                        None => false,
                    }
                } else if p.tag == 82 {
                    match read_packed_varints(buf, p.start, e) {
                        Some(vs) => {
                            acc.member_after_consensus = vs;
                            true
                        },
                        None => false,
                    }
                } else if p.tag == 90 {
                    match decode_node_addr(buf, p.start, e) {
                        Some(n) => {
                            let ghost prev = acc.node_addrs@;
                            acc.node_addrs.push(n);
                            proof {
                                assert(node_views(acc.node_addrs@) =~= node_views(prev).push(n@));
                            }
                            true
                        },
                        None => false,
                    }
                } else {
                    true
                }
            },
            FieldKind::Fixed => true,
        };
        if !ok {
            proof {
                lemma_fold_none_extends(st, empty_raft_index(), fs, i as int + 1);
                assert(fs.subrange(0, ps@.len() as int) == fs);
            }
            return None;
        }
        proof {
            assert(acc@ =~= raft_index_step(old_acc, fs[i as int])->0);
        }
        i += 1;
    }
    assert(fs.subrange(0, ps@.len() as int) == fs);
    Some(acc)
}

// ---- the stored index reads back ----

/// A list of varint fields takes at most 20 bytes per field.
proof fn lemma_varint_fields_len(fs: Seq<PbField>)
    requires
        forall|i: int| 0 <= i < fs.len() ==> #[trigger] fs[i] is Varint,
    ensures
        fields_bytes(fs).len() <= 20 * fs.len(),
    decreases fs.len(),
{
    if fs.len() > 0 {
        let t = fs.drop_first();
        assert forall|i: int| 0 <= i < t.len() implies #[trigger] t[i] is Varint by {
            assert(t[i] == fs[i + 1]);
        }
        lemma_varint_fields_len(t);
        assert(fs[0] is Varint);
        match fs[0] {
            PbField::Varint { tag, value } => {
                lemma_varint_roundtrip(tag as nat, Seq::empty());
                lemma_varint_roundtrip(value as nat, Seq::empty());
            },
            _ => {},
        }
        assert(20 * t.len() + 20 == 20 * fs.len()) by (nonlinear_arith)
            requires
                t.len() + 1 == fs.len(),
        ;
    }
}

/// A stored log range is short.
proof fn lemma_log_range_body_len(r: LogRange)
    ensures
        log_range_body(r).len() < 0x1_0000_0000,
{
    let fs = log_range_fields(r);
    assert(fs.len() <= 7);
    assert forall|i: int| 0 <= i < fs.len() implies #[trigger] fs[i] is Varint by {}
    lemma_varint_fields_len(fs);
}

/// A stored snapshot range is short.
proof fn lemma_snapshot_range_body_len(r: SnapshotRange)
    ensures
        snapshot_range_body(r).len() < 0x1_0000_0000,
{
    let fs = snapshot_range_fields(r);
    assert(fs.len() <= 2);
    assert forall|i: int| 0 <= i < fs.len() implies #[trigger] fs[i] is Varint by {}
    lemma_varint_fields_len(fs);
}

proof fn lemma_fold_log_chunks(acc: RaftIndexView, ls: Seq<LogRange>)
    ensures
        fold_fields(raft_index_stepper(), acc, log_chunks(ls)) == Some(RaftIndexView { logs: acc.logs + ls, ..acc }),
        all_writable(log_chunks(ls)),
    decreases ls.len(),
{
    if ls.len() == 0 {
        assert(log_chunks(ls) =~= Seq::<PbField>::empty());
        assert(acc.logs + ls =~= acc.logs);
        assert(RaftIndexView { logs: acc.logs + ls, ..acc } =~= acc);
    } else {
        let init = ls.drop_last();
        let l = ls.last();
        lemma_fold_log_chunks(acc, init);
        let f = PbField::Chunk { tag: 10, data: log_range_body(l) };
        assert(log_chunks(ls) =~= log_chunks(init).push(f));
        lemma_fold_push(raft_index_stepper(), acc, log_chunks(init), f);
        lemma_log_range_roundtrip(l);
        lemma_log_range_body_len(l);
        assert((acc.logs + init).push(l) =~= acc.logs + ls);
        assert forall|i: int| 0 <= i < log_chunks(ls).len() implies field_writable(#[trigger] log_chunks(ls)[i]) by {
            lemma_log_range_body_len(ls[i]);
        }
    }
}

proof fn lemma_fold_snapshot_chunks(acc: RaftIndexView, ss: Seq<SnapshotRange>)
    ensures
        fold_fields(raft_index_stepper(), acc, snapshot_chunks(ss)) == Some(
            RaftIndexView { snapshots: acc.snapshots + ss, ..acc },
        ),
        all_writable(snapshot_chunks(ss)),
    decreases ss.len(),
{
    if ss.len() == 0 {
        assert(snapshot_chunks(ss) =~= Seq::<PbField>::empty());
        assert(acc.snapshots + ss =~= acc.snapshots);
        assert(RaftIndexView { snapshots: acc.snapshots + ss, ..acc } =~= acc);
    } else {
        let init = ss.drop_last();
        let x = ss.last();
        lemma_fold_snapshot_chunks(acc, init);
        let f = PbField::Chunk { tag: 26, data: snapshot_range_body(x) };
        assert(snapshot_chunks(ss) =~= snapshot_chunks(init).push(f));
        lemma_fold_push(raft_index_stepper(), acc, snapshot_chunks(init), f);
        lemma_snapshot_range_roundtrip(x);
        assert((acc.snapshots + init).push(x) =~= acc.snapshots + ss);
        assert forall|i: int| 0 <= i < snapshot_chunks(ss).len() implies field_writable(
            #[trigger] snapshot_chunks(ss)[i],
        ) by {
            lemma_snapshot_range_body_len(ss[i]);
        }
    }
}

/// Every node address fits the reader's 32-bit lengths.
pub open spec fn nodes_fit(ns: Seq<NodeAddrView>) -> bool {
    forall|i: int| 0 <= i < ns.len() ==> {
        &&& vstd::utf8::encode_utf8(#[trigger] ns[i].addr).len() < 0x1_0000_0000
        &&& node_addr_body(ns[i]).len() < 0x1_0000_0000
    }
}

proof fn lemma_fold_node_chunks(acc: RaftIndexView, ns: Seq<NodeAddrView>)
    requires
        nodes_fit(ns),
    ensures
        fold_fields(raft_index_stepper(), acc, node_chunks(ns)) == Some(
            RaftIndexView { node_addrs: acc.node_addrs + ns, ..acc },
        ),
        all_writable(node_chunks(ns)),
    decreases ns.len(),
{
    if ns.len() == 0 {
        assert(node_chunks(ns) =~= Seq::<PbField>::empty());
        assert(acc.node_addrs + ns =~= acc.node_addrs);
        assert(RaftIndexView { node_addrs: acc.node_addrs + ns, ..acc } =~= acc);
    } else {
        let init = ns.drop_last();
        let n = ns.last();
        assert(nodes_fit(init)) by {
            assert forall|i: int| 0 <= i < init.len() implies {
                &&& vstd::utf8::encode_utf8(#[trigger] init[i].addr).len() < 0x1_0000_0000
                &&& node_addr_body(init[i]).len() < 0x1_0000_0000
            } by {
                assert(init[i] == ns[i]);
            }
        }
        lemma_fold_node_chunks(acc, init);
        let f = PbField::Chunk { tag: 90, data: node_addr_body(n) };
        assert(node_chunks(ns) =~= node_chunks(init).push(f));
        lemma_fold_push(raft_index_stepper(), acc, node_chunks(init), f);
        assert(vstd::utf8::encode_utf8(ns[ns.len() - 1].addr).len() < 0x1_0000_0000);
        lemma_node_addr_roundtrip(n);
        assert((acc.node_addrs + init).push(n) =~= acc.node_addrs + ns);
        assert forall|i: int| 0 <= i < node_chunks(ns).len() implies field_writable(#[trigger] node_chunks(ns)[i]) by {
            assert(node_addr_body(ns[i]).len() < 0x1_0000_0000);
        }
    }
}

/// Reading the fields up to the snapshots.
proof fn lemma_fold_head(v: RaftIndexView)
    ensures
        fold_fields(raft_index_stepper(), empty_raft_index(), raft_index_head(v)) == Some(
            RaftIndexView { logs: v.logs, current_log: v.current_log, snapshots: v.snapshots, ..empty_raft_index() },
        ),
        all_writable(raft_index_head(v)),
{
    let st = raft_index_stepper();
    let z = empty_raft_index();
    let a = log_chunks(v.logs);
    let b = opt_push(a, v.current_log != 0, PbField::Varint { tag: 16, value: v.current_log });
    let sc = snapshot_chunks(v.snapshots);
    lemma_fold_log_chunks(z, v.logs);
    let s1 = RaftIndexView { logs: v.logs, ..z };
    assert(z.logs + v.logs =~= v.logs);
    assert(fold_fields(st, z, a) == Some(s1));
    lemma_fold_opt_push(st, z, a, v.current_log != 0, PbField::Varint { tag: 16, value: v.current_log });
    let s2 = RaftIndexView { current_log: v.current_log, ..s1 };
    assert(fold_fields(st, z, b) == Some(s2));
    lemma_fold_append(st, z, b, sc);
    lemma_fold_snapshot_chunks(s2, v.snapshots);
    assert(s2.snapshots + v.snapshots =~= v.snapshots);
    let c = b + sc;
    assert forall|i: int| 0 <= i < c.len() implies field_writable(#[trigger] c[i]) by {
        if i < a.len() {
            assert(c[i] == a[i]);
        } else if i >= b.len() {
            assert(c[i] == sc[i - b.len()]);
        }
    }
}

/// Reading the fields up to the members.
#[verifier::rlimit(40)]
proof fn lemma_fold_mid(v: RaftIndexView)
    requires
        varints_bytes(v.member).len() < 0x1_0000_0000,
        varints_bytes(v.member_after_consensus).len() < 0x1_0000_0000,
    ensures
        fold_fields(raft_index_stepper(), empty_raft_index(), raft_index_mid(v)) == Some(
            RaftIndexView { node_addrs: Seq::empty(), ..v },
        ),
        all_writable(raft_index_mid(v)),
{
    let st = raft_index_stepper();
    let z = empty_raft_index();
    let c = raft_index_head(v);
    lemma_fold_head(v);
    let s3 = RaftIndexView { logs: v.logs, current_log: v.current_log, snapshots: v.snapshots, ..z };
    let d1 = opt_push(c, v.last_snapshot != 0, PbField::Varint { tag: 32, value: v.last_snapshot });
    let d2 = opt_push(d1, v.last_snapshot_index != 0, PbField::Varint { tag: 40, value: v.last_snapshot_index });
    let d3 = opt_push(d2, v.last_snapshot_term != 0, PbField::Varint { tag: 48, value: v.last_snapshot_term });
    let d4 = opt_push(d3, v.current_term != 0, PbField::Varint { tag: 56, value: v.current_term });
    let d5 = opt_push(d4, v.voted_for != 0, PbField::Varint { tag: 64, value: v.voted_for });
    let mf = PbField::Chunk { tag: 74, data: varints_bytes(v.member) };
    let d6 = opt_push(d5, v.member.len() > 0, mf);
    let af = PbField::Chunk { tag: 82, data: varints_bytes(v.member_after_consensus) };
    let d7 = opt_push(d6, v.member_after_consensus.len() > 0, af);
    lemma_fold_opt_push(st, z, c, v.last_snapshot != 0, PbField::Varint { tag: 32, value: v.last_snapshot });
    let s4 = RaftIndexView { last_snapshot: v.last_snapshot, ..s3 };
    assert(fold_fields(st, z, d1) == Some(s4));
    lemma_fold_opt_push(st, z, d1, v.last_snapshot_index != 0, PbField::Varint { tag: 40, value: v.last_snapshot_index });
    let s5 = RaftIndexView { last_snapshot_index: v.last_snapshot_index, ..s4 };
    assert(fold_fields(st, z, d2) == Some(s5));
    lemma_fold_opt_push(st, z, d2, v.last_snapshot_term != 0, PbField::Varint { tag: 48, value: v.last_snapshot_term });
    let s6 = RaftIndexView { last_snapshot_term: v.last_snapshot_term, ..s5 };
    assert(fold_fields(st, z, d3) == Some(s6));
    lemma_fold_opt_push(st, z, d3, v.current_term != 0, PbField::Varint { tag: 56, value: v.current_term });
    let s7 = RaftIndexView { current_term: v.current_term, ..s6 };
    assert(fold_fields(st, z, d4) == Some(s7));
    lemma_fold_opt_push(st, z, d4, v.voted_for != 0, PbField::Varint { tag: 64, value: v.voted_for });
    let s8 = RaftIndexView { voted_for: v.voted_for, ..s7 };
    assert(fold_fields(st, z, d5) == Some(s8));
    lemma_varints_roundtrip(v.member);
    lemma_fold_opt_push(st, z, d5, v.member.len() > 0, mf);
    let s9 = RaftIndexView { member: v.member, ..s8 };
    if v.member.len() == 0 {
        assert(v.member =~= Seq::<u64>::empty());
    }
    assert(fold_fields(st, z, d6) == Some(s9));
    lemma_varints_roundtrip(v.member_after_consensus);
    lemma_fold_opt_push(st, z, d6, v.member_after_consensus.len() > 0, af);
    let s10 = RaftIndexView { member_after_consensus: v.member_after_consensus, ..s9 };
    if v.member_after_consensus.len() == 0 {
        assert(v.member_after_consensus =~= Seq::<u64>::empty());
    }
    assert(s10 =~= RaftIndexView { node_addrs: Seq::empty(), ..v });
    assert(fold_fields(st, z, d7) == Some(s10));
    assert forall|i: int| 0 <= i < d7.len() implies field_writable(#[trigger] d7[i]) by {
        if i < c.len() {
            assert(d7[i] == c[i]);
        }
    }
}

/// What a raft index writes reads back as itself: decoding the body of an
/// encoded index gives the same logs, snapshots, hard state, members and
/// node addresses, for every index whose length-delimited parts fit the
/// reader's 32-bit lengths.
pub proof fn law_raft_index_roundtrip(v: RaftIndexView)
    requires
        varints_bytes(v.member).len() < 0x1_0000_0000,
        varints_bytes(v.member_after_consensus).len() < 0x1_0000_0000,
        nodes_fit(v.node_addrs),
    ensures
        raft_index_decode(raft_index_body(v)) == Some(v),
{
    let st = raft_index_stepper();
    let z = empty_raft_index();
    let d7 = raft_index_mid(v);
    let nc = node_chunks(v.node_addrs);
    let fs = d7 + nc;
    lemma_fold_mid(v);
    let s10 = RaftIndexView { node_addrs: Seq::empty(), ..v };
    lemma_fold_append(st, z, d7, nc);
    lemma_fold_node_chunks(s10, v.node_addrs);
    assert(s10.node_addrs + v.node_addrs =~= v.node_addrs);
    assert(RaftIndexView { node_addrs: s10.node_addrs + v.node_addrs, ..s10 } =~= v);
    assert forall|i: int| 0 <= i < fs.len() implies field_writable(#[trigger] fs[i]) by {
        if i < d7.len() {
            assert(fs[i] == d7[i]);
        } else {
            assert(fs[i] == nc[i - d7.len()]);
        }
    }
    lemma_fields_roundtrip(fs);
}

} // verus!
