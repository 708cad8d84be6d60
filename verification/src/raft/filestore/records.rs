use vstd::prelude::*;
use crate::common::protobuf_utils::{
    PbField, FieldKind, FieldPos, field_at, fields_of, fields_bytes, field_bytes, field_writable,
    push_varint_field, push_chunk_field, lemma_fields_bytes_push, lemma_fields_roundtrip,
};
use crate::common::pbmsg::{
    fold_fields, decode_body, fields_at, collect_fields, lemma_fold_push, lemma_fold_append, lemma_fold_none_extends,
    varints_bytes, varints_of, packed_varints, read_packed_varints, lemma_varints_roundtrip,
};
use crate::common::utf8::string_from_utf8;

verus! {

/// `fs` with `f` appended when `c` holds.
pub open spec fn opt_push(fs: Seq<PbField>, c: bool, f: PbField) -> Seq<PbField> {
    if c {
        fs.push(f)
    } else {
        fs
    }
}

/// Reading a field that may have been left out.
pub proof fn lemma_fold_opt_push<A>(step: spec_fn(A, PbField) -> Option<A>, init: A, fs: Seq<PbField>, c: bool, f: PbField)
    ensures
        fold_fields(step, init, opt_push(fs, c, f)) == if c {
            match fold_fields(step, init, fs) {
                Some(a) => step(a, f),
                None => None,
            }
        } else {
            fold_fields(step, init, fs)
        },
{
    if c {
        lemma_fold_push(step, init, fs, f);
    }
}

/// The bytes of a field that may have been left out.
pub proof fn lemma_bytes_opt_push(fs: Seq<PbField>, c: bool, f: PbField)
    ensures
        fields_bytes(opt_push(fs, c, f)) == fields_bytes(fs) + if c {
            field_bytes(f)
        } else {
            Seq::<u8>::empty()
        },
{
    if c {
        lemma_fields_bytes_push(fs, f);
    } else {
        assert(fields_bytes(fs) + Seq::<u8>::empty() == fields_bytes(fs));
    }
}

/// All fields of a list can be written.
pub open spec fn all_writable(fs: Seq<PbField>) -> bool {
    forall|i: int| 0 <= i < fs.len() ==> field_writable(#[trigger] fs[i])
}

/// Appends a varint field when `c` holds.
pub(crate) fn put_varint(buf: &mut Vec<u8>, c: bool, tag: u32, v: u64)
    ensures
        final(buf)@ == old(buf)@ + if c {
            field_bytes(PbField::Varint { tag, value: v })
        } else {
            Seq::<u8>::empty()
        },
{
    if c {
        push_varint_field(buf, tag, v);
    } else {
        assert(old(buf)@ + Seq::<u8>::empty() == old(buf)@);
    }
}

/// Appends a length-delimited field when `c` holds.
pub(crate) fn put_chunk(buf: &mut Vec<u8>, c: bool, tag: u32, data: &[u8])
    ensures
        final(buf)@ == old(buf)@ + if c {
            field_bytes(PbField::Chunk { tag, data: data@ })
        } else {
            Seq::<u8>::empty()
        },
{
    if c {
        push_chunk_field(buf, tag, data);
    } else {
        assert(old(buf)@ + Seq::<u8>::empty() == old(buf)@);
    }
}

/// The bytes of a length-delimited field of the body `buf[..]`.
pub fn chunk_bytes(buf: &[u8], p: FieldPos) -> (r: Vec<u8>)
    requires
        p.start + p.len <= buf@.len(),
    ensures
        r@ == buf@.subrange(p.start as int, (p.start + p.len) as int),
{
    let n = buf.len();
    let data = vstd::slice::slice_subrange(buf, p.start, p.start + p.len);
    vstd::slice::slice_to_vec(data)
}

/// Reads a protobuf `bool`: a varint taken modulo `2^32`, true unless zero.
pub open spec fn pb_bool(v: u64) -> bool {
    v % 0x1_0000_0000 != 0
}

/// Reads a protobuf `uint32`: a varint taken modulo `2^32`.
pub open spec fn pb_u32(v: u64) -> u32 {
    (v % 0x1_0000_0000) as u32
}

// ---- LogRange: 1 id, 2 pre_term, 3 start_index, 4 record_count,
//      5 split_off_index, 6 is_close (bool), 7 mark_remove (bool) ----

/// The entry of one log file in the raft index: its id, the term before
/// its first record, the index of its first record, how many records it
/// holds, where it was split, and whether it is closed or to be removed.
#[derive(Clone, Copy, Debug, Default, PartialEq, Eq, Structural)]
pub struct LogRange {
    pub id: u64,
    pub pre_term: u64,
    pub start_index: u64,
    pub record_count: u64,
    pub split_off_index: u64,
    pub is_close: bool,
    pub mark_remove: bool,
}

pub open spec fn empty_log_range() -> LogRange {
    LogRange { id: 0, pre_term: 0, start_index: 0, record_count: 0, split_off_index: 0, is_close: false, mark_remove: false }
}

/// The fields written for a log range: zero numbers and false flags are
/// left out.
pub open spec fn log_range_fields(r: LogRange) -> Seq<PbField> {
    let f1 = opt_push(Seq::empty(), r.id != 0, PbField::Varint { tag: 8, value: r.id });
    let f2 = opt_push(f1, r.pre_term != 0, PbField::Varint { tag: 16, value: r.pre_term });
    let f3 = opt_push(f2, r.start_index != 0, PbField::Varint { tag: 24, value: r.start_index });
    let f4 = opt_push(f3, r.record_count != 0, PbField::Varint { tag: 32, value: r.record_count });
    let f5 = opt_push(f4, r.split_off_index != 0, PbField::Varint { tag: 40, value: r.split_off_index });
    let f6 = opt_push(f5, r.is_close, PbField::Varint { tag: 48, value: 1 });
    opt_push(f6, r.mark_remove, PbField::Varint { tag: 56, value: 1 })
}

/// The body of a log range message.
pub open spec fn log_range_body(r: LogRange) -> Seq<u8> {
    fields_bytes(log_range_fields(r))
}

/// One field read into a log range; unknown fields are skipped.
pub open spec fn log_range_step(acc: LogRange, f: PbField) -> Option<LogRange> {
    match f {
        PbField::Varint { tag, value } => Some(
            if tag == 8 {
                LogRange { id: value, ..acc }
            } else if tag == 16 {
                LogRange { pre_term: value, ..acc }
            } else if tag == 24 {
                LogRange { start_index: value, ..acc }
            } else if tag == 32 {
                LogRange { record_count: value, ..acc }
            } else if tag == 40 {
                LogRange { split_off_index: value, ..acc }
            } else if tag == 48 {
                LogRange { is_close: pb_bool(value), ..acc }
            } else if tag == 56 {
                LogRange { mark_remove: pb_bool(value), ..acc }
            } else {
                acc
            },
        ),
        _ => Some(acc),
    }
}

pub open spec fn log_range_stepper() -> spec_fn(LogRange, PbField) -> Option<LogRange> {
    |acc: LogRange, f: PbField| log_range_step(acc, f)
}

/// Reading a log range message body.
pub open spec fn log_range_decode(s: Seq<u8>) -> Option<LogRange> {
    decode_body(log_range_stepper(), empty_log_range(), s)
}

/// The body of a log range message, as `write_message` lays it out.
pub fn encode_log_range(r: &LogRange) -> (out: Vec<u8>)
    ensures
        out@ == log_range_body(*r),
{
    let mut buf: Vec<u8> = Vec::new();
    let ghost e = Seq::<PbField>::empty();
    let ghost f1 = opt_push(e, r.id != 0, PbField::Varint { tag: 8, value: r.id });
    let ghost f2 = opt_push(f1, r.pre_term != 0, PbField::Varint { tag: 16, value: r.pre_term });
    let ghost f3 = opt_push(f2, r.start_index != 0, PbField::Varint { tag: 24, value: r.start_index });
    let ghost f4 = opt_push(f3, r.record_count != 0, PbField::Varint { tag: 32, value: r.record_count });
    let ghost f5 = opt_push(f4, r.split_off_index != 0, PbField::Varint { tag: 40, value: r.split_off_index });
    let ghost f6 = opt_push(f5, r.is_close, PbField::Varint { tag: 48, value: 1 });
    let ghost f7 = opt_push(f6, r.mark_remove, PbField::Varint { tag: 56, value: 1 });
    put_varint(&mut buf, r.id != 0, 8, r.id);
    put_varint(&mut buf, r.pre_term != 0, 16, r.pre_term);
    put_varint(&mut buf, r.start_index != 0, 24, r.start_index);
    put_varint(&mut buf, r.record_count != 0, 32, r.record_count);
    put_varint(&mut buf, r.split_off_index != 0, 40, r.split_off_index);
    put_varint(&mut buf, r.is_close, 48, 1);
    put_varint(&mut buf, r.mark_remove, 56, 1);
    proof {
        assert(fields_bytes(e) =~= Seq::<u8>::empty());
        lemma_bytes_opt_push(e, r.id != 0, PbField::Varint { tag: 8, value: r.id });
        lemma_bytes_opt_push(f1, r.pre_term != 0, PbField::Varint { tag: 16, value: r.pre_term });
        lemma_bytes_opt_push(f2, r.start_index != 0, PbField::Varint { tag: 24, value: r.start_index });
        lemma_bytes_opt_push(f3, r.record_count != 0, PbField::Varint { tag: 32, value: r.record_count });
        lemma_bytes_opt_push(f4, r.split_off_index != 0, PbField::Varint { tag: 40, value: r.split_off_index });
        lemma_bytes_opt_push(f5, r.is_close, PbField::Varint { tag: 48, value: 1 });
        lemma_bytes_opt_push(f6, r.mark_remove, PbField::Varint { tag: 56, value: 1 });
        assert(buf@ =~= fields_bytes(f7));
    }
    buf
}

/// Reads the log range message body `buf[start..end]`.
pub fn decode_log_range(buf: &[u8], start: usize, end: usize) -> (r: Option<LogRange>)
    requires
        start <= end <= buf@.len(),
    ensures
        r == log_range_decode(buf@.subrange(start as int, end as int)),
{
    let ps = match collect_fields(buf, start, end) {
        Ok(ps) => ps,
        Err(_) => return None,
    };
    let ghost fs = fields_at(buf@, ps@);
    let mut acc = LogRange { id: 0, pre_term: 0, start_index: 0, record_count: 0, split_off_index: 0, is_close: false, mark_remove: false };
    let mut i: usize = 0;
    while i < ps.len()
        invariant
            i <= ps@.len(),
            fs == fields_at(buf@, ps@),
            fold_fields(log_range_stepper(), empty_log_range(), fs.subrange(0, i as int)) == Some(acc),
        decreases ps@.len() - i,
    {
        let p = ps[i];
        proof {
            lemma_fold_push(log_range_stepper(), empty_log_range(), fs.subrange(0, i as int), fs[i as int]);
            assert(fs.subrange(0, i as int).push(fs[i as int]) == fs.subrange(0, i as int + 1));
        }
        match p.kind {
            FieldKind::Varint => {
                if p.tag == 8 {
                    acc.id = p.value;
                } else if p.tag == 16 {
                    acc.pre_term = p.value;
                } else if p.tag == 24 {
                    acc.start_index = p.value;
                } else if p.tag == 32 {
                    acc.record_count = p.value;
                } else if p.tag == 40 {
                    acc.split_off_index = p.value;
                } else if p.tag == 48 {
                    acc.is_close = p.value % 0x1_0000_0000 != 0;
                } else if p.tag == 56 {
                    acc.mark_remove = p.value % 0x1_0000_0000 != 0;
                }
            },
            _ => {},
        }
        i += 1;
    }
    assert(fs.subrange(0, ps@.len() as int) == fs);
    Some(acc)
}

/// A written log range reads back as itself.
pub proof fn lemma_log_range_roundtrip(r: LogRange)
    ensures
        log_range_decode(log_range_body(r)) == Some(r),
        all_writable(log_range_fields(r)),
{
    let st = log_range_stepper();
    let e = Seq::<PbField>::empty();
    let z = empty_log_range();
    let f1 = opt_push(e, r.id != 0, PbField::Varint { tag: 8, value: r.id });
    let f2 = opt_push(f1, r.pre_term != 0, PbField::Varint { tag: 16, value: r.pre_term });
    let f3 = opt_push(f2, r.start_index != 0, PbField::Varint { tag: 24, value: r.start_index });
    let f4 = opt_push(f3, r.record_count != 0, PbField::Varint { tag: 32, value: r.record_count });
    let f5 = opt_push(f4, r.split_off_index != 0, PbField::Varint { tag: 40, value: r.split_off_index });
    let f6 = opt_push(f5, r.is_close, PbField::Varint { tag: 48, value: 1 });
    let f7 = opt_push(f6, r.mark_remove, PbField::Varint { tag: 56, value: 1 });
    assert(fold_fields(st, z, e) == Some(z));
    lemma_fold_opt_push(st, z, e, r.id != 0, PbField::Varint { tag: 8, value: r.id });
    let a1 = LogRange { id: r.id, ..z };
    assert(fold_fields(st, z, f1) == Some(a1));
    lemma_fold_opt_push(st, z, f1, r.pre_term != 0, PbField::Varint { tag: 16, value: r.pre_term });
    let a2 = LogRange { pre_term: r.pre_term, ..a1 };
    assert(fold_fields(st, z, f2) == Some(a2));
    lemma_fold_opt_push(st, z, f2, r.start_index != 0, PbField::Varint { tag: 24, value: r.start_index });
    let a3 = LogRange { start_index: r.start_index, ..a2 };
    assert(fold_fields(st, z, f3) == Some(a3));
    lemma_fold_opt_push(st, z, f3, r.record_count != 0, PbField::Varint { tag: 32, value: r.record_count });
    let a4 = LogRange { record_count: r.record_count, ..a3 };
    assert(fold_fields(st, z, f4) == Some(a4));
    lemma_fold_opt_push(st, z, f4, r.split_off_index != 0, PbField::Varint { tag: 40, value: r.split_off_index });
    let a5 = LogRange { split_off_index: r.split_off_index, ..a4 };
    assert(fold_fields(st, z, f5) == Some(a5));
    lemma_fold_opt_push(st, z, f5, r.is_close, PbField::Varint { tag: 48, value: 1 });
    let a6 = LogRange { is_close: r.is_close, ..a5 };
    assert(fold_fields(st, z, f6) == Some(a6));
    lemma_fold_opt_push(st, z, f6, r.mark_remove, PbField::Varint { tag: 56, value: 1 });
    assert(fold_fields(st, z, f7) == Some(r));
    assert(all_writable(f7));
    lemma_fields_roundtrip(f7);
}

// ---- SnapshotRange: 1 id, 2 end_index ----

/// The entry of one snapshot in the raft index: its id and the last log
/// index it covers.
#[derive(Clone, Copy, Debug, Default, PartialEq, Eq, Structural)]
pub struct SnapshotRange {
    pub id: u64,
    pub end_index: u64,
}

pub open spec fn snapshot_range_fields(r: SnapshotRange) -> Seq<PbField> {
    let f1 = opt_push(Seq::empty(), r.id != 0, PbField::Varint { tag: 8, value: r.id });
    opt_push(f1, r.end_index != 0, PbField::Varint { tag: 16, value: r.end_index })
}

pub open spec fn snapshot_range_body(r: SnapshotRange) -> Seq<u8> {
    fields_bytes(snapshot_range_fields(r))
}

pub open spec fn snapshot_range_step(acc: SnapshotRange, f: PbField) -> Option<SnapshotRange> {
    match f {
        PbField::Varint { tag, value } => Some(
            if tag == 8 {
                SnapshotRange { id: value, ..acc }
            } else if tag == 16 {
                SnapshotRange { end_index: value, ..acc }
            } else {
                acc
            },
        ),
        _ => Some(acc),
    }
}

pub open spec fn snapshot_range_stepper() -> spec_fn(SnapshotRange, PbField) -> Option<SnapshotRange> {
    |acc: SnapshotRange, f: PbField| snapshot_range_step(acc, f)
}

pub open spec fn snapshot_range_decode(s: Seq<u8>) -> Option<SnapshotRange> {
    decode_body(snapshot_range_stepper(), SnapshotRange { id: 0, end_index: 0 }, s)
}

/// The body of a snapshot range message.
pub fn encode_snapshot_range(r: &SnapshotRange) -> (out: Vec<u8>)
    ensures
        out@ == snapshot_range_body(*r),
{
    let mut buf: Vec<u8> = Vec::new();
    let ghost e = Seq::<PbField>::empty();
    let ghost f1 = opt_push(e, r.id != 0, PbField::Varint { tag: 8, value: r.id });
    put_varint(&mut buf, r.id != 0, 8, r.id);
    put_varint(&mut buf, r.end_index != 0, 16, r.end_index);
    proof {
        assert(fields_bytes(e) =~= Seq::<u8>::empty());
        lemma_bytes_opt_push(e, r.id != 0, PbField::Varint { tag: 8, value: r.id });
        lemma_bytes_opt_push(f1, r.end_index != 0, PbField::Varint { tag: 16, value: r.end_index });
        assert(buf@ =~= snapshot_range_body(*r));
    }
    buf
}

/// Reads the snapshot range message body `buf[start..end]`.
pub fn decode_snapshot_range(buf: &[u8], start: usize, end: usize) -> (r: Option<SnapshotRange>)
    requires
        start <= end <= buf@.len(),
    ensures
        r == snapshot_range_decode(buf@.subrange(start as int, end as int)),
{
    let ps = match collect_fields(buf, start, end) {
        Ok(ps) => ps,
        Err(_) => return None,
    };
    let ghost fs = fields_at(buf@, ps@);
    let mut acc = SnapshotRange { id: 0, end_index: 0 };
    let mut i: usize = 0;
    while i < ps.len()
        invariant
            i <= ps@.len(),
            fs == fields_at(buf@, ps@),
            fold_fields(snapshot_range_stepper(), SnapshotRange { id: 0, end_index: 0 }, fs.subrange(0, i as int))
                == Some(acc),
        decreases ps@.len() - i,
    {
        let p = ps[i];
        proof {
            lemma_fold_push(snapshot_range_stepper(), SnapshotRange { id: 0, end_index: 0 }, fs.subrange(0, i as int), fs[i as int]);
            assert(fs.subrange(0, i as int).push(fs[i as int]) == fs.subrange(0, i as int + 1));
        }
        match p.kind {
            FieldKind::Varint => {
                if p.tag == 8 {
                    acc.id = p.value;
                } else if p.tag == 16 {
                    acc.end_index = p.value;
                }
            },
            _ => {},
        }
        i += 1;
    }
    assert(fs.subrange(0, ps@.len() as int) == fs);
    Some(acc)
}

/// A written snapshot range reads back as itself.
pub proof fn lemma_snapshot_range_roundtrip(r: SnapshotRange)
    ensures
        snapshot_range_decode(snapshot_range_body(r)) == Some(r),
        all_writable(snapshot_range_fields(r)),
{
    let st = snapshot_range_stepper();
    let e = Seq::<PbField>::empty();
    let z = SnapshotRange { id: 0, end_index: 0 };
    let f1 = opt_push(e, r.id != 0, PbField::Varint { tag: 8, value: r.id });
    let f2 = opt_push(f1, r.end_index != 0, PbField::Varint { tag: 16, value: r.end_index });
    assert(fold_fields(st, z, e) == Some(z));
    lemma_fold_opt_push(st, z, e, r.id != 0, PbField::Varint { tag: 8, value: r.id });
    assert(fold_fields(st, z, f1) == Some(SnapshotRange { id: r.id, ..z }));
    lemma_fold_opt_push(st, z, f1, r.end_index != 0, PbField::Varint { tag: 16, value: r.end_index });
    assert(fold_fields(st, z, f2) == Some(r));
    assert(all_writable(f2));
    lemma_fields_roundtrip(f2);
}

// ---- NodeAddrItem: 1 id, 2 addr (string) ----

/// The address of a raft node.
#[derive(Clone, Debug, Default)]
pub struct NodeAddrItem {
    pub id: u64,
    pub addr: String,
}

/// A node address as values.
pub struct NodeAddrView {
    pub id: u64,
    pub addr: Seq<char>,
}

impl View for NodeAddrItem {
    type V = NodeAddrView;

    open spec fn view(&self) -> NodeAddrView {
        NodeAddrView { id: self.id, addr: self.addr@ }
    }
}

pub open spec fn node_addr_fields(n: NodeAddrView) -> Seq<PbField> {
    let f1 = opt_push(Seq::empty(), n.id != 0, PbField::Varint { tag: 8, value: n.id });
    opt_push(f1, n.addr.len() > 0, PbField::Chunk { tag: 18, data: vstd::utf8::encode_utf8(n.addr) })
}

pub open spec fn node_addr_body(n: NodeAddrView) -> Seq<u8> {
    fields_bytes(node_addr_fields(n))
}

/// One field read into a node address: the address must be UTF-8.
pub open spec fn node_addr_step(acc: NodeAddrView, f: PbField) -> Option<NodeAddrView> {
    match f {
        PbField::Varint { tag, value } => Some(if tag == 8 { NodeAddrView { id: value, ..acc } } else { acc }),
        PbField::Chunk { tag, data } => if tag == 18 {
            if vstd::utf8::valid_utf8(data) {
                Some(NodeAddrView { addr: vstd::utf8::decode_utf8(data), ..acc })
            } else {
                None
            }
        } else {
            Some(acc)
        },
        _ => Some(acc),
    }
}

pub open spec fn node_addr_stepper() -> spec_fn(NodeAddrView, PbField) -> Option<NodeAddrView> {
    |acc: NodeAddrView, f: PbField| node_addr_step(acc, f)
}

pub open spec fn empty_node_addr() -> NodeAddrView {
    NodeAddrView { id: 0, addr: Seq::empty() }
}

pub open spec fn node_addr_decode(s: Seq<u8>) -> Option<NodeAddrView> {
    decode_body(node_addr_stepper(), empty_node_addr(), s)
}

/// The body of a node address message.
pub fn encode_node_addr(n: &NodeAddrItem) -> (out: Vec<u8>)
    ensures
        out@ == node_addr_body(n@),
{
    let mut buf: Vec<u8> = Vec::new();
    let ghost e = Seq::<PbField>::empty();
    let ghost f1 = opt_push(e, n.id != 0, PbField::Varint { tag: 8, value: n.id });
    put_varint(&mut buf, n.id != 0, 8, n.id);
    let bytes = n.addr.as_str().as_bytes_vec();
    let nonempty = n.addr.as_str().unicode_len() > 0;
    put_chunk(&mut buf, nonempty, 18, bytes.as_slice());
    proof {
        assert(fields_bytes(e) =~= Seq::<u8>::empty());
        lemma_bytes_opt_push(e, n.id != 0, PbField::Varint { tag: 8, value: n.id });
        lemma_bytes_opt_push(f1, n.addr@.len() > 0, PbField::Chunk { tag: 18, data: vstd::utf8::encode_utf8(n.addr@) });
        assert(buf@ =~= node_addr_body(n@));
    }
    buf
}

/// Reads the node address message body `buf[start..end]`.
pub fn decode_node_addr(buf: &[u8], start: usize, end: usize) -> (r: Option<NodeAddrItem>)
    requires
        start <= end <= buf@.len(),
    ensures
        match node_addr_decode(buf@.subrange(start as int, end as int)) {
            Some(v) => r matches Some(n) && n@ == v,
            None => r is None,
        },
{
    let ps = match collect_fields(buf, start, end) {
        Ok(ps) => ps,
        Err(_) => return None,
    };
    let ghost fs = fields_at(buf@, ps@);
    let mut acc = NodeAddrItem { id: 0, addr: String::new() };
    let mut i: usize = 0;
    while i < ps.len()
        invariant
            i <= ps@.len(),
            fs == fields_at(buf@, ps@),
            forall|j: int|
                0 <= j < ps@.len() ==> #[trigger] ps@[j].kind == FieldKind::Chunk ==> start <= ps@[j].start
                    && ps@[j].start + ps@[j].len <= end,
            end <= buf@.len(),
            fields_of(buf@.subrange(start as int, end as int)) == Some(fs),
            fold_fields(node_addr_stepper(), empty_node_addr(), fs.subrange(0, i as int)) == Some(acc@),
        decreases ps@.len() - i,
    {
        let p = ps[i];
        proof {
            lemma_fold_push(node_addr_stepper(), empty_node_addr(), fs.subrange(0, i as int), fs[i as int]);
            assert(fs.subrange(0, i as int).push(fs[i as int]) == fs.subrange(0, i as int + 1));
        }
        match p.kind {
            FieldKind::Varint => {
                if p.tag == 8 {
                    acc.id = p.value;
                }
            },
            FieldKind::Chunk => {
                if p.tag == 18 {
                    let data = chunk_bytes(buf, p);
                    match string_from_utf8(data) {
                        Some(s) => {
                            acc.addr = s;
                        },
                        None => {
                            proof {
                                assert(fs[i as int] == field_at(buf@, p));
                                assert(fold_fields(node_addr_stepper(), empty_node_addr(), fs.subrange(0, i as int + 1)) is None);
                                crate::common::pbmsg::lemma_fold_none_extends(node_addr_stepper(), empty_node_addr(), fs, i as int + 1);
                                assert(fs.subrange(0, ps@.len() as int) == fs);
                            }
                            return None;
                        },
                    }
                }
            },
            _ => {},
        }
        i += 1;
    }
    assert(fs.subrange(0, ps@.len() as int) == fs);
    Some(acc)
}

/// A written node address reads back as itself.
pub proof fn lemma_node_addr_roundtrip(n: NodeAddrView)
    requires
        vstd::utf8::encode_utf8(n.addr).len() < 0x1_0000_0000,
    ensures
        node_addr_decode(node_addr_body(n)) == Some(n),
        all_writable(node_addr_fields(n)),
{
    let st = node_addr_stepper();
    let e = Seq::<PbField>::empty();
    let z = empty_node_addr();
    let f1 = opt_push(e, n.id != 0, PbField::Varint { tag: 8, value: n.id });
    let f2 = opt_push(f1, n.addr.len() > 0, PbField::Chunk { tag: 18, data: vstd::utf8::encode_utf8(n.addr) });
    vstd::utf8::encode_utf8_valid_utf8(n.addr);
    vstd::utf8::encode_utf8_decode_utf8(n.addr);
    assert(fold_fields(st, z, e) == Some(z));
    lemma_fold_opt_push(st, z, e, n.id != 0, PbField::Varint { tag: 8, value: n.id });
    assert(fold_fields(st, z, f1) == Some(NodeAddrView { id: n.id, ..z }));
    lemma_fold_opt_push(st, z, f1, n.addr.len() > 0, PbField::Chunk { tag: 18, data: vstd::utf8::encode_utf8(n.addr) });
    if n.addr.len() == 0 {
        assert(n.addr =~= Seq::<char>::empty());
    }
    assert(fold_fields(st, z, f2) == Some(n));
    assert(all_writable(f2));
    lemma_fields_roundtrip(f2);
}

} // verus!
