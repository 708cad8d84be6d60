use vstd::prelude::*;
use crate::common::protobuf_utils::{
    PbField, FieldKind, field_at, fields_of, fields_bytes, field_bytes, field_writable, varint_bytes,
    push_chunk_field, lemma_fields_bytes_push, lemma_fields_roundtrip, lemma_varint_roundtrip,
};
use crate::common::pbmsg::{
    fold_fields, decode_body, fields_at, collect_fields, lemma_fold_push, lemma_fold_append, lemma_fold_none_extends,
    varints_bytes, varints_of, packed_varints, read_packed_varints, lemma_varints_roundtrip,
};
use crate::common::utf8::string_from_utf8;
use crate::raft::filestore::log::lemma_fields_bytes_append;
use crate::raft::filestore::model::SnapshotRecordDto;
use crate::raft::filestore::records::{
    opt_push, all_writable, lemma_fold_opt_push, lemma_bytes_opt_push, chunk_bytes, put_varint, put_chunk, pb_u32,
    NodeAddrItem, NodeAddrView, node_addr_body, node_addr_decode, decode_node_addr, lemma_node_addr_roundtrip,
};
use crate::raft::filestore::index_record::{node_views, nodes_fit, push_node_chunks};

verus! {

// ---- SnapshotHeader: 1 last_index, 2 last_term, 3 member (packed),
//      4 member_after_consensus (packed), 5 node_addrs (repeated), 6 extend ----

/// The header of a snapshot file: the last log entry it covers and the
/// membership at that point.
#[derive(Clone, Debug, Default)]
pub struct SnapshotHeader {
    pub last_index: u64,
    pub last_term: u64,
    pub member: Vec<u64>,
    pub member_after_consensus: Vec<u64>,
    pub node_addrs: Vec<NodeAddrItem>,
    pub extend: Vec<u8>,
}

/// A stored snapshot header as values.
#[verifier::ext_equal]
pub struct SnapshotHeaderView {
    pub last_index: u64,
    pub last_term: u64,
    pub member: Seq<u64>,
    pub member_after_consensus: Seq<u64>,
    pub node_addrs: Seq<NodeAddrView>,
    pub extend: Seq<u8>,
}

impl View for SnapshotHeader {
    type V = SnapshotHeaderView;

    open spec fn view(&self) -> SnapshotHeaderView {
        SnapshotHeaderView {
            last_index: self.last_index,
            last_term: self.last_term,
            member: self.member@,
            member_after_consensus: self.member_after_consensus@,
            node_addrs: node_views(self.node_addrs@),
            extend: self.extend@,
        }
    }
}

pub open spec fn empty_snapshot_header() -> SnapshotHeaderView {
    SnapshotHeaderView {
        last_index: 0,
        last_term: 0,
        member: Seq::empty(),
        member_after_consensus: Seq::empty(),
        node_addrs: Seq::empty(),
        extend: Seq::empty(),
    }
}

pub open spec fn header_node_chunks(ns: Seq<NodeAddrView>) -> Seq<PbField> {
    ns.map_values(|n: NodeAddrView| PbField::Chunk { tag: 42, data: node_addr_body(n) })
}

/// The fields before the node addresses.
pub open spec fn snapshot_header_head(h: SnapshotHeaderView) -> Seq<PbField> {
    let f1 = opt_push(Seq::empty(), h.last_index != 0, PbField::Varint { tag: 8, value: h.last_index });
    let f2 = opt_push(f1, h.last_term != 0, PbField::Varint { tag: 16, value: h.last_term });
    let f3 = opt_push(f2, h.member.len() > 0, PbField::Chunk { tag: 26, data: varints_bytes(h.member) });
    opt_push(
        f3,
        h.member_after_consensus.len() > 0,
        PbField::Chunk { tag: 34, data: varints_bytes(h.member_after_consensus) },
    )
}

/// The fields written for a snapshot header, in the writer's order.
pub open spec fn snapshot_header_fields(h: SnapshotHeaderView) -> Seq<PbField> {
    opt_push(
        snapshot_header_head(h) + header_node_chunks(h.node_addrs),
        h.extend.len() > 0,
        PbField::Chunk { tag: 50, data: h.extend },
    )
}

pub open spec fn snapshot_header_body(h: SnapshotHeaderView) -> Seq<u8> {
    fields_bytes(snapshot_header_fields(h))
}

/// One field read into a snapshot header.
pub open spec fn snapshot_header_step(acc: SnapshotHeaderView, f: PbField) -> Option<SnapshotHeaderView> {
    match f {
        PbField::Varint { tag, value } => Some(
            if tag == 8 {
                SnapshotHeaderView { last_index: value, ..acc }
            } else if tag == 16 {
                SnapshotHeaderView { last_term: value, ..acc }
            } else {
                acc
            },
        ),
        PbField::Chunk { tag, data } => if tag == 26 {
            match varints_of(data) {
                Some(vs) => Some(SnapshotHeaderView { member: vs, ..acc }),
                None => None,
            }
        } else if tag == 34 {
            match varints_of(data) {
                Some(vs) => Some(SnapshotHeaderView { member_after_consensus: vs, ..acc }),
                None => None,
            }
        } else if tag == 42 {
            match node_addr_decode(data) {
                Some(n) => Some(SnapshotHeaderView { node_addrs: acc.node_addrs.push(n), ..acc }),
                None => None,
            }
        } else if tag == 50 {
            Some(SnapshotHeaderView { extend: data, ..acc })
        } else {
            Some(acc)
        },
        PbField::Fixed { tag } => Some(acc),
    }
}

pub open spec fn snapshot_header_stepper() -> spec_fn(SnapshotHeaderView, PbField) -> Option<SnapshotHeaderView> {
    |acc: SnapshotHeaderView, f: PbField| snapshot_header_step(acc, f)
}

/// Reading a snapshot header message body.
pub open spec fn snapshot_header_decode(s: Seq<u8>) -> Option<SnapshotHeaderView> {
    decode_body(snapshot_header_stepper(), empty_snapshot_header(), s)
}

/// The body of a snapshot header, part by part.
proof fn lemma_snapshot_header_body_parts(h: SnapshotHeaderView)
    ensures
        snapshot_header_body(h) == fields_bytes(snapshot_header_head(h)) + fields_bytes(header_node_chunks(h.node_addrs))
            + if h.extend.len() > 0 {
            field_bytes(PbField::Chunk { tag: 50, data: h.extend })
        } else {
            Seq::<u8>::empty()
        },
{
    let a = snapshot_header_head(h);
    let b = header_node_chunks(h.node_addrs);
    lemma_fields_bytes_append(a, b);
    lemma_bytes_opt_push(a + b, h.extend.len() > 0, PbField::Chunk { tag: 50, data: h.extend });
}

/// The body of a snapshot header message.
pub fn encode_snapshot_header(h: &SnapshotHeader) -> (out: Vec<u8>)
    ensures
        out@ == snapshot_header_body(h@),
{
    let mut buf: Vec<u8> = Vec::new();
    let ghost v = h@;
    let ghost e = Seq::<PbField>::empty();
    let ghost f1 = opt_push(e, v.last_index != 0, PbField::Varint { tag: 8, value: v.last_index });
    let ghost f2 = opt_push(f1, v.last_term != 0, PbField::Varint { tag: 16, value: v.last_term });
    let ghost f3 = opt_push(f2, v.member.len() > 0, PbField::Chunk { tag: 26, data: varints_bytes(v.member) });
    put_varint(&mut buf, h.last_index != 0, 8, h.last_index);
    put_varint(&mut buf, h.last_term != 0, 16, h.last_term);
    let member = packed_varints(&h.member);
    put_chunk(&mut buf, h.member.len() > 0, 26, member.as_slice());
    let mac = packed_varints(&h.member_after_consensus);
    put_chunk(&mut buf, h.member_after_consensus.len() > 0, 34, mac.as_slice());
    proof {
        assert(fields_bytes(e) =~= Seq::<u8>::empty());
        lemma_bytes_opt_push(e, v.last_index != 0, PbField::Varint { tag: 8, value: v.last_index });
        lemma_bytes_opt_push(f1, v.last_term != 0, PbField::Varint { tag: 16, value: v.last_term });
        lemma_bytes_opt_push(f2, v.member.len() > 0, PbField::Chunk { tag: 26, data: varints_bytes(v.member) });
        lemma_bytes_opt_push(
            f3,
            v.member_after_consensus.len() > 0,
            PbField::Chunk { tag: 34, data: varints_bytes(v.member_after_consensus) },
        );
        assert(buf@ =~= fields_bytes(snapshot_header_head(v)));
    }
    push_node_chunks(&mut buf, 42, &h.node_addrs);
    put_chunk(&mut buf, h.extend.len() > 0, 50, h.extend.as_slice());
    proof {
        lemma_snapshot_header_body_parts(v);
        assert(node_views(h.node_addrs@).map_values(
            |n: NodeAddrView| PbField::Chunk { tag: 42, data: node_addr_body(n) },
        ) =~= header_node_chunks(v.node_addrs));
        assert(buf@ =~= snapshot_header_body(v));
    }
    buf
}

/// Reads the snapshot header message body `buf[start..end]`.
pub fn decode_snapshot_header(buf: &[u8], start: usize, end: usize) -> (r: Option<SnapshotHeader>)
    requires
        start <= end <= buf@.len(),
    ensures
        match snapshot_header_decode(buf@.subrange(start as int, end as int)) {
            Some(v) => r matches Some(h) && h@ == v,
            None => r is None,
        },
{
    let ps = match collect_fields(buf, start, end) {
        Ok(ps) => ps,
        Err(_) => return None,
    };
    let ghost fs = fields_at(buf@, ps@);
    let ghost st = snapshot_header_stepper();
    let mut acc = SnapshotHeader {
        last_index: 0,
        last_term: 0,
        member: Vec::new(),
        member_after_consensus: Vec::new(),
        node_addrs: Vec::new(),
        extend: Vec::new(),
    };
    proof {
        assert(acc@ =~= empty_snapshot_header());
    }
    let mut i: usize = 0;
    while i < ps.len()
        invariant
            i <= ps@.len(),
            st == snapshot_header_stepper(),
            fs == fields_at(buf@, ps@),
            end <= buf@.len(),
            fields_of(buf@.subrange(start as int, end as int)) == Some(fs),
            forall|j: int|
                0 <= j < ps@.len() ==> #[trigger] ps@[j].kind == FieldKind::Chunk ==> start <= ps@[j].start
                    && ps@[j].start + ps@[j].len <= end,
            fold_fields(st, empty_snapshot_header(), fs.subrange(0, i as int)) == Some(acc@),
        decreases ps@.len() - i,
    {
        let p = ps[i];
        let ghost old_acc = acc@;
        proof {
            lemma_fold_push(st, empty_snapshot_header(), fs.subrange(0, i as int), fs[i as int]);
            assert(fs.subrange(0, i as int).push(fs[i as int]) == fs.subrange(0, i as int + 1));
            assert(fs[i as int] == field_at(buf@, p));
        }
        let ok: bool = match p.kind {
            FieldKind::Varint => {
                if p.tag == 8 {
                    acc.last_index = p.value;
                } else if p.tag == 16 {
                    acc.last_term = p.value;
                }
                true
            },
            FieldKind::Chunk => {
                let e = p.start + p.len;
                if p.tag == 26 {
                    match read_packed_varints(buf, p.start, e) {
                        Some(vs) => {
                            acc.member = vs;
                            true
                        },
                        None => false,
                    }
                } else if p.tag == 34 {
                    match read_packed_varints(buf, p.start, e) {
                        Some(vs) => {
                            acc.member_after_consensus = vs;
                            true
                        },
                        None => false,
                    }
                } else if p.tag == 42 {
                    match decode_node_addr(buf, p.start, e) {
                        Some(n) => {
                            let ghost prev = acc.node_addrs@;
                            acc.node_addrs.push(n);
                            proof {
                                assert(node_views(acc.node_addrs@) =~= node_views(prev).push(n@));
                            }
                            true
                        },
                        None => false,
                    }
                } else if p.tag == 50 {
                    acc.extend = chunk_bytes(buf, p);
                    true
                } else {
                    true
                }
            },
            FieldKind::Fixed => true,
        };
        if !ok {
            proof {
                lemma_fold_none_extends(st, empty_snapshot_header(), fs, i as int + 1);
                assert(fs.subrange(0, ps@.len() as int) == fs);
            }
            return None;
        }
        proof {
            assert(acc@ =~= snapshot_header_step(old_acc, fs[i as int])->0);
        }
        i += 1;
    }
    assert(fs.subrange(0, ps@.len() as int) == fs);
    Some(acc)
}

proof fn lemma_fold_header_node_chunks(acc: SnapshotHeaderView, ns: Seq<NodeAddrView>)
    requires
        nodes_fit(ns),
    ensures
        fold_fields(snapshot_header_stepper(), acc, header_node_chunks(ns)) == Some(
            SnapshotHeaderView { node_addrs: acc.node_addrs + ns, ..acc },
        ),
        all_writable(header_node_chunks(ns)),
    decreases ns.len(),
{
    if ns.len() == 0 {
        assert(header_node_chunks(ns) =~= Seq::<PbField>::empty());
        assert(acc.node_addrs + ns =~= acc.node_addrs);
        assert(SnapshotHeaderView { node_addrs: acc.node_addrs + ns, ..acc } =~= acc);
    } else {
        let init = ns.drop_last();
        let n = ns.last();
        assert(nodes_fit(init)) by {
            assert forall|i: int| 0 <= i < init.len() implies {
                &&& vstd::utf8::encode_utf8(#[trigger] init[i].addr).len() < 0x1_0000_0000
                &&& node_addr_body(init[i]).len() < 0x1_0000_0000
            } by {
                assert(init[i] == ns[i]);
            }
        }
        lemma_fold_header_node_chunks(acc, init);
        let f = PbField::Chunk { tag: 42, data: node_addr_body(n) };
        assert(header_node_chunks(ns) =~= header_node_chunks(init).push(f));
        lemma_fold_push(snapshot_header_stepper(), acc, header_node_chunks(init), f);
        assert(vstd::utf8::encode_utf8(ns[ns.len() - 1].addr).len() < 0x1_0000_0000);
        lemma_node_addr_roundtrip(n);
        assert((acc.node_addrs + init).push(n) =~= acc.node_addrs + ns);
        assert forall|i: int| 0 <= i < header_node_chunks(ns).len() implies field_writable(
            #[trigger] header_node_chunks(ns)[i],
        ) by {
            assert(node_addr_body(ns[i]).len() < 0x1_0000_0000);
        }
    }
}

proof fn lemma_fold_header_head(h: SnapshotHeaderView)
    requires
        varints_bytes(h.member).len() < 0x1_0000_0000,
        varints_bytes(h.member_after_consensus).len() < 0x1_0000_0000,
    ensures
        fold_fields(snapshot_header_stepper(), empty_snapshot_header(), snapshot_header_head(h)) == Some(
            SnapshotHeaderView { node_addrs: Seq::empty(), extend: Seq::empty(), ..h },
        ),
        all_writable(snapshot_header_head(h)),
{
    let st = snapshot_header_stepper();
    let z = empty_snapshot_header();
    let e = Seq::<PbField>::empty();
    let f1 = opt_push(e, h.last_index != 0, PbField::Varint { tag: 8, value: h.last_index });
    let f2 = opt_push(f1, h.last_term != 0, PbField::Varint { tag: 16, value: h.last_term });
    let mf = PbField::Chunk { tag: 26, data: varints_bytes(h.member) };
    let f3 = opt_push(f2, h.member.len() > 0, mf);
    let af = PbField::Chunk { tag: 34, data: varints_bytes(h.member_after_consensus) };
    let f4 = opt_push(f3, h.member_after_consensus.len() > 0, af);
    assert(fold_fields(st, z, e) == Some(z));
    lemma_fold_opt_push(st, z, e, h.last_index != 0, PbField::Varint { tag: 8, value: h.last_index });
    let s1 = SnapshotHeaderView { last_index: h.last_index, ..z };
    assert(fold_fields(st, z, f1) == Some(s1));
    lemma_fold_opt_push(st, z, f1, h.last_term != 0, PbField::Varint { tag: 16, value: h.last_term });
    let s2 = SnapshotHeaderView { last_term: h.last_term, ..s1 };
    assert(fold_fields(st, z, f2) == Some(s2));
    lemma_varints_roundtrip(h.member);
    lemma_fold_opt_push(st, z, f2, h.member.len() > 0, mf);
    let s3 = SnapshotHeaderView { member: h.member, ..s2 };
    if h.member.len() == 0 {
        assert(h.member =~= Seq::<u64>::empty());
    }
    assert(fold_fields(st, z, f3) == Some(s3));
    lemma_varints_roundtrip(h.member_after_consensus);
    lemma_fold_opt_push(st, z, f3, h.member_after_consensus.len() > 0, af);
    if h.member_after_consensus.len() == 0 {
        assert(h.member_after_consensus =~= Seq::<u64>::empty());
    }
    assert(SnapshotHeaderView { member_after_consensus: h.member_after_consensus, ..s3 } =~= SnapshotHeaderView {
        node_addrs: Seq::empty(),
        extend: Seq::empty(),
        ..h
    });
    assert(all_writable(f4));
}

/// What a snapshot header writes reads back as itself, for every header
/// whose length-delimited parts fit the reader's 32-bit lengths.
pub proof fn law_snapshot_header_roundtrip(h: SnapshotHeaderView)
    requires
        varints_bytes(h.member).len() < 0x1_0000_0000,
        varints_bytes(h.member_after_consensus).len() < 0x1_0000_0000,
        nodes_fit(h.node_addrs),
        h.extend.len() < 0x1_0000_0000,
    ensures
        snapshot_header_decode(snapshot_header_body(h)) == Some(h),
{
    let st = snapshot_header_stepper();
    let z = empty_snapshot_header();
    let a = snapshot_header_head(h);
    let nc = header_node_chunks(h.node_addrs);
    let xf = PbField::Chunk { tag: 50, data: h.extend };
    let fs = opt_push(a + nc, h.extend.len() > 0, xf);
    lemma_fold_header_head(h);
    let s4 = SnapshotHeaderView { node_addrs: Seq::empty(), extend: Seq::empty(), ..h };
    lemma_fold_append(st, z, a, nc);
    lemma_fold_header_node_chunks(s4, h.node_addrs);
    assert(s4.node_addrs + h.node_addrs =~= h.node_addrs);
    let s5 = SnapshotHeaderView { node_addrs: h.node_addrs, ..s4 };
    assert(fold_fields(st, z, a + nc) == Some(s5));
    lemma_fold_opt_push(st, z, a + nc, h.extend.len() > 0, xf);
    if h.extend.len() == 0 {
        assert(h.extend =~= Seq::<u8>::empty());
    }
    assert(SnapshotHeaderView { extend: h.extend, ..s5 } =~= h);
    assert(fold_fields(st, z, fs) == Some(h));
    assert forall|i: int| 0 <= i < fs.len() implies field_writable(#[trigger] fs[i]) by {
        if i < a.len() {
            assert(fs[i] == a[i]);
        } else if i < a.len() + nc.len() {
            assert(fs[i] == nc[i - a.len()]);
        }
    }
    lemma_fields_roundtrip(fs);
}

// ---- LogSnapshotItem: 1 tree (string), 4 key, 5 value, 6 op_type (uint32) ----

/// A snapshot record as values.
pub struct SnapshotRecordView {
    pub tree: Seq<char>,
    pub key: Seq<u8>,
    pub value: Seq<u8>,
    pub op_type: u32,
}

impl View for SnapshotRecordDto {
    type V = SnapshotRecordView;

    open spec fn view(&self) -> SnapshotRecordView {
        SnapshotRecordView { tree: self.tree@, key: self.key@, value: self.value@, op_type: self.op_type }
    }
}

pub open spec fn empty_snapshot_record() -> SnapshotRecordView {
    SnapshotRecordView { tree: Seq::empty(), key: Seq::empty(), value: Seq::empty(), op_type: 0 }
}

/// The fields written for a snapshot record: empty parts and a zero type
/// are left out.
pub open spec fn snapshot_record_fields(r: SnapshotRecordView) -> Seq<PbField> {
    let f1 = opt_push(Seq::empty(), r.tree.len() > 0, PbField::Chunk { tag: 10, data: vstd::utf8::encode_utf8(r.tree) });
    let f2 = opt_push(f1, r.key.len() > 0, PbField::Chunk { tag: 34, data: r.key });
    let f3 = opt_push(f2, r.value.len() > 0, PbField::Chunk { tag: 42, data: r.value });
    opt_push(f3, r.op_type != 0, PbField::Varint { tag: 48, value: r.op_type as u64 })
}

pub open spec fn snapshot_record_body(r: SnapshotRecordView) -> Seq<u8> {
    fields_bytes(snapshot_record_fields(r))
}

/// One field read into a snapshot record: the tree name must be UTF-8.
pub open spec fn snapshot_record_step(acc: SnapshotRecordView, f: PbField) -> Option<SnapshotRecordView> {
    match f {
        PbField::Varint { tag, value } => Some(
            if tag == 48 {
                SnapshotRecordView { op_type: pb_u32(value), ..acc }
            } else {
                acc
            },
        ),
        PbField::Chunk { tag, data } => if tag == 10 {
            if vstd::utf8::valid_utf8(data) {
                Some(SnapshotRecordView { tree: vstd::utf8::decode_utf8(data), ..acc })
            } else {
                None
            }
        } else if tag == 34 {
            Some(SnapshotRecordView { key: data, ..acc })
        } else if tag == 42 {
            Some(SnapshotRecordView { value: data, ..acc })
        } else {
            Some(acc)
        },
        PbField::Fixed { tag } => Some(acc),
    }
}

pub open spec fn snapshot_record_stepper() -> spec_fn(SnapshotRecordView, PbField) -> Option<SnapshotRecordView> {
    |acc: SnapshotRecordView, f: PbField| snapshot_record_step(acc, f)
}

/// Reading a snapshot record message body.
pub open spec fn snapshot_record_decode(s: Seq<u8>) -> Option<SnapshotRecordView> {
    decode_body(snapshot_record_stepper(), empty_snapshot_record(), s)
}

/// The body of a snapshot record message.
pub fn encode_snapshot_record(r: &SnapshotRecordDto) -> (out: Vec<u8>)
    ensures
        out@ == snapshot_record_body(r@),
{
    let mut buf: Vec<u8> = Vec::new();
    let ghost v = r@;
    let ghost e = Seq::<PbField>::empty();
    let ghost f1 = opt_push(e, v.tree.len() > 0, PbField::Chunk { tag: 10, data: vstd::utf8::encode_utf8(v.tree) });
    let ghost f2 = opt_push(f1, v.key.len() > 0, PbField::Chunk { tag: 34, data: v.key });
    let ghost f3 = opt_push(f2, v.value.len() > 0, PbField::Chunk { tag: 42, data: v.value });
    let tree = r.tree.as_str().as_bytes_vec();
    put_chunk(&mut buf, r.tree.as_str().unicode_len() > 0, 10, tree.as_slice());
    put_chunk(&mut buf, r.key.len() > 0, 34, r.key.as_slice());
    put_chunk(&mut buf, r.value.len() > 0, 42, r.value.as_slice());
    put_varint(&mut buf, r.op_type != 0, 48, r.op_type as u64);
    proof {
        assert(fields_bytes(e) =~= Seq::<u8>::empty());
        lemma_bytes_opt_push(e, v.tree.len() > 0, PbField::Chunk { tag: 10, data: vstd::utf8::encode_utf8(v.tree) });
        lemma_bytes_opt_push(f1, v.key.len() > 0, PbField::Chunk { tag: 34, data: v.key });
        lemma_bytes_opt_push(f2, v.value.len() > 0, PbField::Chunk { tag: 42, data: v.value });
        lemma_bytes_opt_push(f3, v.op_type != 0, PbField::Varint { tag: 48, value: v.op_type as u64 });
        assert(buf@ =~= snapshot_record_body(v));
    }
    buf
}

/// Reads the snapshot record message body `buf[start..end]`.
pub fn decode_snapshot_record(buf: &[u8], start: usize, end: usize) -> (r: Option<SnapshotRecordDto>)
    requires
        start <= end <= buf@.len(),
    ensures
        match snapshot_record_decode(buf@.subrange(start as int, end as int)) {
            Some(v) => r matches Some(x) && x@ == v,
            None => r is None,
        },
{
    let ps = match collect_fields(buf, start, end) {
        Ok(ps) => ps,
        Err(_) => return None,
    };
    let ghost fs = fields_at(buf@, ps@);
    let ghost st = snapshot_record_stepper();
    let mut acc = SnapshotRecordDto { tree: String::new(), key: Vec::new(), value: Vec::new(), op_type: 0 };
    proof {
        assert(acc@ =~= empty_snapshot_record());
    }
    let mut i: usize = 0;
    while i < ps.len()
        invariant
            i <= ps@.len(),
            st == snapshot_record_stepper(),
            fs == fields_at(buf@, ps@),
            end <= buf@.len(),
            fields_of(buf@.subrange(start as int, end as int)) == Some(fs),
            forall|j: int|
                0 <= j < ps@.len() ==> #[trigger] ps@[j].kind == FieldKind::Chunk ==> start <= ps@[j].start
                    && ps@[j].start + ps@[j].len <= end,
            fold_fields(st, empty_snapshot_record(), fs.subrange(0, i as int)) == Some(acc@),
        decreases ps@.len() - i,
    {
        let p = ps[i];
        let ghost old_acc = acc@;
        proof {
            lemma_fold_push(st, empty_snapshot_record(), fs.subrange(0, i as int), fs[i as int]);
            assert(fs.subrange(0, i as int).push(fs[i as int]) == fs.subrange(0, i as int + 1));
            assert(fs[i as int] == field_at(buf@, p));
        }
        let ok: bool = match p.kind {
            FieldKind::Varint => {
                if p.tag == 48 {
                    acc.op_type = (p.value % 0x1_0000_0000u64) as u32;
                }
                true
            },
            FieldKind::Chunk => {
                if p.tag == 10 {
                    match string_from_utf8(chunk_bytes(buf, p)) {
                        Some(s) => {
                            acc.tree = s;
                            true
                        },
                        None => false,
                    }
                } else if p.tag == 34 {
                    acc.key = chunk_bytes(buf, p);
                    true
                } else if p.tag == 42 {
                    acc.value = chunk_bytes(buf, p);
                    true
                } else {
                    true
                }
            },
            FieldKind::Fixed => true,
        };
        if !ok {
            proof {
                lemma_fold_none_extends(st, empty_snapshot_record(), fs, i as int + 1);
                assert(fs.subrange(0, ps@.len() as int) == fs);
            }
            return None;
        }
        proof {
            assert(acc@ == snapshot_record_step(old_acc, fs[i as int])->0);
        }
        i += 1;
    }
    assert(fs.subrange(0, ps@.len() as int) == fs);
    Some(acc)
}

/// What a snapshot record writes reads back as itself, for every record
/// whose parts fit the reader's 32-bit lengths.
pub proof fn law_snapshot_record_roundtrip(r: SnapshotRecordView)
    requires
        vstd::utf8::encode_utf8(r.tree).len() < 0x1_0000_0000,
        r.key.len() < 0x1_0000_0000,
        r.value.len() < 0x1_0000_0000,
    ensures
        snapshot_record_decode(snapshot_record_body(r)) == Some(r),
{
    let st = snapshot_record_stepper();
    let z = empty_snapshot_record();
    let e = Seq::<PbField>::empty();
    let tf = PbField::Chunk { tag: 10, data: vstd::utf8::encode_utf8(r.tree) };
    let f1 = opt_push(e, r.tree.len() > 0, tf);
    let f2 = opt_push(f1, r.key.len() > 0, PbField::Chunk { tag: 34, data: r.key });
    let f3 = opt_push(f2, r.value.len() > 0, PbField::Chunk { tag: 42, data: r.value });
    let f4 = opt_push(f3, r.op_type != 0, PbField::Varint { tag: 48, value: r.op_type as u64 });
    vstd::utf8::encode_utf8_valid_utf8(r.tree);
    vstd::utf8::encode_utf8_decode_utf8(r.tree);
    assert(fold_fields(st, z, e) == Some(z));
    lemma_fold_opt_push(st, z, e, r.tree.len() > 0, tf);
    if r.tree.len() == 0 {
        assert(r.tree =~= Seq::<char>::empty());
    }
    let s1 = SnapshotRecordView { tree: r.tree, ..z };
    assert(fold_fields(st, z, f1) == Some(s1));
    lemma_fold_opt_push(st, z, f1, r.key.len() > 0, PbField::Chunk { tag: 34, data: r.key });
    if r.key.len() == 0 {
        assert(r.key =~= Seq::<u8>::empty());
    }
    let s2 = SnapshotRecordView { key: r.key, ..s1 };
    assert(fold_fields(st, z, f2) == Some(s2));
    lemma_fold_opt_push(st, z, f2, r.value.len() > 0, PbField::Chunk { tag: 42, data: r.value });
    if r.value.len() == 0 {
        assert(r.value =~= Seq::<u8>::empty());
    }
    let s3 = SnapshotRecordView { value: r.value, ..s2 };
    assert(fold_fields(st, z, f3) == Some(s3));
    lemma_fold_opt_push(st, z, f3, r.op_type != 0, PbField::Varint { tag: 48, value: r.op_type as u64 });
    assert(pb_u32(r.op_type as u64) == r.op_type);
    assert(fold_fields(st, z, f4) == Some(r));
    assert(all_writable(f4));
    lemma_fields_roundtrip(f4);
}

} // verus!
