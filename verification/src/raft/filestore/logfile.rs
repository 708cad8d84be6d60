use vstd::prelude::*;
use crate::common::protobuf_utils::{frames_of, varint_bytes};
use crate::raft::filestore::log::{
    log_record_frame, log_record_body, log_record_decode, lemma_log_record_roundtrip, lemma_log_record_body_len,
};
use crate::raft::filestore::model::LogRecordView;
use crate::raft::filestore::raftlog::{
    LogInnerManager, InnerIdxDto, indexs_sorted, start_entry_pos, selected_frames, lemma_start_entry_le,
    LOG_DATA_AREA_START, LogWritePlan, LogWriteMark, write_planned, log_full, StripPlan, strip_planned,
    strip_finished, back_scan, scan_frames,
};
use crate::raft::filestore::raftsnapshot::lemma_next_frame_of;

verus! {

// What the bytes of a log file hold, as the log file's bookkeeping plans
// its writes and reads.

/// The stored frames of records, one after another.
pub open spec fn log_frames(rs: Seq<LogRecordView>) -> Seq<u8>
    decreases rs.len(),
{
    if rs.len() == 0 {
        Seq::empty()
    } else {
        log_record_frame(rs[0]) + log_frames(rs.drop_first())
    }
}

/// A record that a log file can store and give back: its body is not empty
/// (an empty frame ends a stream) and its value is short enough.
pub open spec fn record_storable(r: LogRecordView) -> bool {
    0 < log_record_body(r).len() && r.value.len() < 0x1_0000_0000 - 64
}

/// The index entry `e` points at the first stored byte of the record with
/// its log index, among the records `rs` stored from `start` on.
pub open spec fn entry_points_at(start: u64, rs: Seq<LogRecordView>, e: InnerIdxDto) -> bool {
    &&& start <= e.log_index <= start + rs.len()
    &&& e.file_index == LOG_DATA_AREA_START + log_frames(rs.take(e.log_index - start)).len()
}

/// The bytes `f` of a log file hold the records `rs` as `m` describes them:
/// the data area holds their frames up to the data cursor, every index entry
/// points at its record, and the file has the length `m` gave it. Index
/// entries are numbered from the header's first index, so this is kept only
/// when that is the file's start index.
pub open spec fn log_file_holds(m: LogInnerManager, f: Seq<u8>, rs: Seq<LogRecordView>) -> bool {
    &&& m.wf()
    &&& m.header.first_index == m.start_index
    &&& m.header.data_area_index <= LOG_DATA_AREA_START
    &&& rs.len() == m.msg_count
    &&& forall|i: int| 0 <= i < rs.len() ==> record_storable(#[trigger] rs[i])
    &&& f.len() == m.file_len
    &&& m.data_cursor == LOG_DATA_AREA_START + log_frames(rs).len()
    &&& m.data_cursor < f.len()
    &&& m.index_cursor < m.header.data_area_index
    &&& f.subrange(LOG_DATA_AREA_START as int, m.data_cursor as int) == log_frames(rs)
    &&& indexs_sorted(m.indexs@)
    &&& m.indexs@[0].log_index == m.start_index
    &&& forall|k: int| 0 <= k < m.indexs@.len() ==> entry_points_at(m.start_index, rs, #[trigger] m.indexs@[k])
}

/// The frames of two runs of records are the frames of the first, then of
/// the second.
pub proof fn lemma_log_frames_append(a: Seq<LogRecordView>, b: Seq<LogRecordView>)
    ensures
        log_frames(a + b) == log_frames(a) + log_frames(b),
    decreases a.len(),
{
    if a.len() == 0 {
        assert(a + b =~= b);
        assert(log_frames(a) + log_frames(b) =~= log_frames(b));
    } else {
        assert((a + b).drop_first() =~= a.drop_first() + b);
        assert((a + b)[0] == a[0]);
        lemma_log_frames_append(a.drop_first(), b);
        let x = log_record_frame(a[0]);
        let y = log_frames(a.drop_first());
        let z = log_frames(b);
        assert(x + (y + z) =~= (x + y) + z);
    }
}

/// The frames of records with one more record.
pub proof fn lemma_log_frames_push(rs: Seq<LogRecordView>, r: LogRecordView)
    ensures
        log_frames(rs.push(r)) == log_frames(rs) + log_record_frame(r),
{
    reveal_with_fuel(log_frames, 2);
    lemma_log_frames_append(rs, seq![r]);
    assert(rs + seq![r] == rs.push(r));
    assert(seq![r].drop_first() =~= Seq::<LogRecordView>::empty());
    assert(log_frames(seq![r]) =~= log_record_frame(r));
}

/// The stream of frames that stored records start is their frames, then
/// whatever the bytes after them hold.
pub proof fn lemma_log_frames_read(rs: Seq<LogRecordView>, rest: Seq<u8>)
    requires
        forall|i: int| 0 <= i < rs.len() ==> record_storable(#[trigger] rs[i]),
    ensures
        frames_of(log_frames(rs) + rest) == rs.map_values(|r: LogRecordView| log_record_frame(r)) + frames_of(rest),
    decreases rs.len(),
{
    if rs.len() == 0 {
        assert(log_frames(rs) + rest =~= rest);
        assert(rs.map_values(|r: LogRecordView| log_record_frame(r)) + frames_of(rest) =~= frames_of(rest));
    } else {
        let r = rs[0];
        let t = rs.drop_first();
        assert(record_storable(rs[0]));
        assert forall|i: int| 0 <= i < t.len() implies record_storable(#[trigger] t[i]) by {
            assert(t[i] == rs[i + 1]);
        }
        let body = log_record_body(r);
        lemma_log_record_body_len(r);
        let s = log_frames(rs) + rest;
        assert(s == log_record_frame(r) + (log_frames(t) + rest));
        lemma_next_frame_of(body, log_frames(t) + rest);
        crate::common::protobuf_utils::lemma_frames_of_step(s, log_record_frame(r).len());
        lemma_log_frames_read(t, rest);
        assert(rs.map_values(|r: LogRecordView| log_record_frame(r)) =~= seq![log_record_frame(r)]
            + t.map_values(|r: LogRecordView| log_record_frame(r)));
        assert(frames_of(s) =~= rs.map_values(|r: LogRecordView| log_record_frame(r)) + frames_of(rest));
    }
}

/// Reading after writing: in a file that holds the records `rs`, the read
/// of the log indexes `[s, e)` that `plan_read` plans (from the index entry
/// at or before `s`, skipping to `s`, taking `e - s` records) decodes
/// exactly the records with those indexes.
pub proof fn law_log_read_after_write(m: LogInnerManager, f: Seq<u8>, rs: Seq<LogRecordView>, s: u64, e: u64)
    requires
        log_file_holds(m, f, rs),
        m.start_index <= s < e <= m.start_index + rs.len(),
    ensures
        ({
            let entry = m.indexs@[start_entry_pos(m.indexs@, s)];
            let sel = selected_frames(
                f.subrange(entry.file_index as int, f.len() as int),
                (s - entry.log_index) as nat,
                (e - s) as nat,
            );
            &&& sel.len() == e - s
            &&& forall|i: int| 0 <= i < sel.len() ==> log_record_decode(#[trigger] sel[i]) == Some(rs[s - m.start_index + i])
        }),
{
    let idx = m.indexs@;
    let start = m.start_index;
    lemma_start_entry_le(idx, s);
    let pos = start_entry_pos(idx, s);
    let entry = idx[pos];
    assert(entry_points_at(start, rs, idx[pos]));
    let p = (entry.log_index - start) as int;
    let head = rs.take(p);
    let tail = rs.skip(p);
    assert(head + tail =~= rs);
    lemma_log_frames_append(head, tail);
    let dc = m.data_cursor as int;
    let fi = entry.file_index as int;
    let lf = log_frames(rs);
    assert(f.subrange(fi, dc) =~= lf.subrange(log_frames(head).len() as int, lf.len() as int));
    assert(lf.subrange(log_frames(head).len() as int, lf.len() as int) =~= log_frames(tail));
    let rest = f.subrange(dc, f.len() as int);
    let buf = f.subrange(fi, f.len() as int);
    assert(buf =~= log_frames(tail) + rest);
    assert forall|i: int| 0 <= i < tail.len() implies record_storable(#[trigger] tail[i]) by {
        assert(tail[i] == rs[p + i]);
    }
    lemma_log_frames_read(tail, rest);
    let fs = frames_of(buf);
    let tm = tail.map_values(|r: LogRecordView| log_record_frame(r));
    assert(fs == tm + frames_of(rest));
    let lo = (s - entry.log_index) as int;
    let cnt = (e - s) as int;
    assert(lo + cnt <= tail.len());
    let sel = selected_frames(buf, lo as nat, cnt as nat);
    assert(sel =~= fs.subrange(lo, lo + cnt));
    assert forall|i: int| 0 <= i < sel.len() implies log_record_decode(#[trigger] sel[i]) == Some(
        rs[s - start + i],
    ) by {
        assert(sel[i] == fs[lo + i]);
        assert(fs[lo + i] == tm[lo + i]);
        assert(tail[lo + i] == rs[s - start + i]);
        let r = rs[s - start + i];
        assert(record_storable(r));
        lemma_log_record_roundtrip(r, Seq::empty());
        assert(log_record_frame(r) + Seq::<u8>::empty() =~= log_record_frame(r));
    }
}

/// The bytes `f` after the file is set to length `len`: cut, or padded
/// with zeros.
pub open spec fn set_len(f: Seq<u8>, len: nat) -> Seq<u8> {
    if len <= f.len() {
        f.subrange(0, len as int)
    } else {
        f + Seq::new((len - f.len()) as nat, |i: int| 0u8)
    }
}

/// The bytes `f` with `d` written at `at` (at most `f.len()`).
pub open spec fn write_at(f: Seq<u8>, at: int, d: Seq<u8>) -> Seq<u8> {
    if at + d.len() <= f.len() {
        f.subrange(0, at) + d + f.subrange(at + d.len(), f.len() as int)
    } else {
        f.subrange(0, at) + d
    }
}

/// The bytes of a log file after a write planned at the data cursor `at` is
/// carried out: the file grown when asked, the record written at the
/// cursor, then the index delta written in the index area.
pub open spec fn carry_out_write(f: Seq<u8>, at: u64, plan: LogWritePlan) -> Seq<u8> {
    let f1 = match plan.grow_to {
        Some(len) => set_len(f, len as nat),
        None => f,
    };
    let f2 = write_at(f1, at as int, plan.data@);
    match plan.index_write {
        Some((off, bytes)) => write_at(f2, off as int, bytes@),
        None => f2,
    }
}

/// Writing keeps what a file holds: carrying out a planned write of a
/// storable record into a file that holds `rs` gives a file that holds
/// `rs` with the record after them.
pub proof fn law_log_write_keeps(
    m: LogInnerManager,
    n: LogInnerManager,
    f: Seq<u8>,
    rs: Seq<LogRecordView>,
    r: LogRecordView,
    plan: LogWritePlan,
)
    requires
        log_file_holds(m, f, rs),
        write_planned(m, n, r, plan),
        plan.mark != LogWriteMark::Failure,
        record_storable(r),
    ensures
        log_file_holds(n, carry_out_write(f, m.data_cursor, plan), rs.push(r)),
{
    let start = m.start_index;
    let rs2 = rs.push(r);
    assert(!log_full(m.index_cursor, m.header.data_area_index, m.data_cursor));
    let frame = log_record_frame(r);
    let len = frame.len();
    let dc = m.data_cursor as int;
    let cursor = dc + len;
    assert(n.data_cursor == cursor);
    lemma_log_frames_push(rs, r);
    assert(log_frames(rs2) == log_frames(rs) + frame);
    // the file after growing
    let f1 = match plan.grow_to {
        Some(l) => set_len(f, l as nat),
        None => f,
    };
    assert(f1.len() == n.file_len);
    assert(cursor < f1.len());
    assert(f1.subrange(LOG_DATA_AREA_START as int, dc) == log_frames(rs)) by {
        if plan.grow_to is Some {
            assert(f1.subrange(0, f.len() as int) =~= f);
            assert(f1.subrange(LOG_DATA_AREA_START as int, dc) =~= f.subrange(LOG_DATA_AREA_START as int, dc));
        }
    }
    // the file after the record is written
    let f2 = write_at(f1, dc, frame);
    assert(f2.len() == f1.len());
    assert(f2.subrange(LOG_DATA_AREA_START as int, cursor) =~= f1.subrange(LOG_DATA_AREA_START as int, dc) + frame);
    // the file after the index delta is written
    let f3 = carry_out_write(f, m.data_cursor, plan);
    assert(f3.len() == f2.len() && f3.subrange(LOG_DATA_AREA_START as int, cursor) == f2.subrange(
        LOG_DATA_AREA_START as int,
        cursor,
    )) by {
        match plan.index_write {
            Some((off, bytes)) => {
                let delta = (cursor - m.indexs@.last().file_index) as nat;
                crate::common::protobuf_utils::lemma_varint_roundtrip(delta, Seq::empty());
                assert(bytes@.len() <= 10);
                assert(off + bytes@.len() <= LOG_DATA_AREA_START);
                assert(f3 == write_at(f2, off as int, bytes@));
                assert(f3.subrange(LOG_DATA_AREA_START as int, cursor) =~= f2.subrange(
                    LOG_DATA_AREA_START as int,
                    cursor,
                ));
            },
            None => {},
        }
    }
    assert(f3.subrange(LOG_DATA_AREA_START as int, n.data_cursor as int) == log_frames(rs2));
    assert(n.index_cursor < n.header.data_area_index) by {
        let delta = (cursor - m.indexs@.last().file_index) as nat;
        crate::common::protobuf_utils::lemma_varint_roundtrip(delta, Seq::empty());
    }
    // the index entries
    assert forall|k: int| 0 <= k < n.indexs@.len() implies entry_points_at(start, rs2, #[trigger] n.indexs@[k]) by {
        let e = n.indexs@[k];
        if k < m.indexs@.len() {
            assert(e == m.indexs@[k]);
            assert(entry_points_at(start, rs, m.indexs@[k]));
            let q = e.log_index - start;
            assert(rs2.take(q) =~= rs.take(q));
        } else {
            assert(e.log_index == start + rs2.len());
            assert(rs2.take(rs2.len() as int) =~= rs2);
        }
    }
    assert(indexs_sorted(n.indexs@)) by {
        if n.indexs@.len() > m.indexs@.len() {
            assert forall|i: int, j: int| 0 <= i < j < n.indexs@.len() implies #[trigger] n.indexs@[i].log_index
                < #[trigger] n.indexs@[j].log_index by {
                if j == n.indexs@.len() - 1 {
                    assert(entry_points_at(start, rs, m.indexs@[i]));
                } else {
                    assert(n.indexs@[i] == m.indexs@[i] && n.indexs@[j] == m.indexs@[j]);
                }
            }
        }
    }
    assert(n.indexs@[0] == m.indexs@[0]);
    assert forall|i: int| 0 <= i < rs2.len() implies record_storable(#[trigger] rs2[i]) by {
        if i < rs.len() {
            assert(rs2[i] == rs[i]);
        }
    }
}

/// A new log file holds no records: the block that `init_new` gives,
/// padded to the file's first length, with the manager `init_new` gives for
/// start index 0 (index entries count from the header's first index, 0).
pub proof fn law_log_new_holds(m: LogInnerManager, block: Seq<u8>)
    requires
        m.wf(),
        m.header == crate::raft::filestore::model::LogIndexHeaderDo::spec_default(),
        m.start_index == 0,
        m.indexs@ == seq![InnerIdxDto { log_index: 0, file_index: LOG_DATA_AREA_START }],
        m.file_len == crate::raft::filestore::raftlog::LOG_DATA_BUF_SIZE,
        m.data_cursor == LOG_DATA_AREA_START,
        m.index_cursor == crate::raft::filestore::raftlog::LOG_INDEX_AREA_START,
        m.msg_count == 0,
        block.len() == 256,
    ensures
        log_file_holds(m, set_len(block, crate::raft::filestore::raftlog::LOG_DATA_BUF_SIZE as nat), Seq::empty()),
{
    let rs = Seq::<LogRecordView>::empty();
    let f = set_len(block, crate::raft::filestore::raftlog::LOG_DATA_BUF_SIZE as nat);
    assert(f.subrange(LOG_DATA_AREA_START as int, LOG_DATA_AREA_START as int) =~= log_frames(rs));
    assert(rs.take(0) =~= rs);
    assert(entry_points_at(0, rs, m.indexs@[0]));
}

/// Scanning stored records for `k` more frames stops right after the
/// `k`-th one.
pub proof fn lemma_scan_log_frames(t: Seq<LogRecordView>, rest: Seq<u8>, c0: nat, count: nat, d0: nat, k: nat)
    requires
        forall|i: int| 0 <= i < t.len() ==> record_storable(#[trigger] t[i]),
        0 < k <= t.len(),
        c0 + k == count,
    ensures
        scan_frames(log_frames(t) + rest, c0, count, d0) == (
            log_frames(t.skip(k as int)) + rest,
            count,
            d0 + log_frames(t.take(k as int)).len(),
            true,
        ),
    decreases k,
{
    let r = t[0];
    let u = t.drop_first();
    assert(record_storable(t[0]));
    assert forall|i: int| 0 <= i < u.len() implies record_storable(#[trigger] u[i]) by {
        assert(u[i] == t[i + 1]);
    }
    lemma_log_record_body_len(r);
    let s = log_frames(t) + rest;
    assert(s == log_record_frame(r) + (log_frames(u) + rest));
    lemma_next_frame_of(log_record_body(r), log_frames(u) + rest);
    let n = log_record_frame(r).len();
    assert(s.subrange(n as int, s.len() as int) == log_frames(u) + rest);
    if k == 1 {
        assert(t.skip(1) =~= u);
        reveal_with_fuel(log_frames, 2);
        assert(t.take(1) =~= seq![r]);
        assert(seq![r].drop_first() =~= Seq::<LogRecordView>::empty());
        assert(log_frames(t.take(1)) =~= log_record_frame(r));
    } else {
        lemma_scan_log_frames(u, rest, c0 + 1, count, d0 + n, (k - 1) as nat);
        assert(u.skip(k - 1) =~= t.skip(k as int));
        assert(t.take(k as int) =~= seq![r] + u.take(k - 1));
        lemma_log_frames_append(seq![r], u.take(k - 1));
        reveal_with_fuel(log_frames, 2);
        assert(seq![r].drop_first() =~= Seq::<LogRecordView>::empty());
        assert(log_frames(seq![r]) =~= log_record_frame(r));
    }
}

/// The backward search passes one index byte at least for each entry it
/// drops, and never moves the count back.
pub proof fn lemma_back_scan_bytes(
    idx: Seq<InnerIdxDto>,
    j: int,
    last: InnerIdxDto,
    flen: nat,
    pop: nat,
    target: u64,
)
    ensures
        back_scan(idx, j, last, flen, pop, target) matches Some((item, f2, p2)) ==> p2 >= pop && f2 >= flen + (p2
            - pop) && p2 - pop <= j + 1,
    decreases j + 1,
{
    if 0 <= j < idx.len() {
        let item = idx[j];
        let changed = item.log_index != last.log_index;
        let last2 = if changed { item } else { last };
        let d = (last.log_index - item.log_index) as nat;
        let flen2 = if changed { flen + varint_bytes(d).len() } else { flen };
        let pop2 = if changed { pop + 1 } else { pop };
        assert(varint_bytes(d).len() >= 1);
        if item.log_index > target {
            lemma_back_scan_bytes(idx, j - 1, last2, flen2, pop2, target);
        }
    }
}

/// The bytes of a log file after a strip is carried out: the end mark
/// (`0, 1`) written where the index area now ends, when entries were
/// dropped, then at the new end of the data.
pub open spec fn carry_out_strip(f: Seq<u8>, index_mark_at: Option<u64>, data_end: u64) -> Seq<u8> {
    let f1 = match index_mark_at {
        Some(at) => write_at(f, at as int, seq![0u8, 1u8]),
        None => f,
    };
    write_at(f1, data_end as int, seq![0u8, 1u8])
}

/// Stripping keeps what a file holds: in a file that holds `rs`, planning a
/// strip down to the records before `end_index` (not itself the log index
/// of an index entry, where the scan would count every record), scanning
/// the data from the planned entry, completing the strip with what the scan
/// found and writing the end marks gives a file that holds the records
/// before `end_index`.
#[verifier::spinoff_prover]
#[verifier::rlimit(40)]
pub proof fn law_log_strip_keeps(
    m: LogInnerManager,
    m1: LogInnerManager,
    m2: LogInnerManager,
    f: Seq<u8>,
    rs: Seq<LogRecordView>,
    end_index: u64,
    plan: StripPlan,
    data_cursor: u64,
    msg_count: u64,
)
    requires
        log_file_holds(m, f, rs),
        strip_planned(m, m1, end_index, Ok(Some(plan))),
        plan.scan_count > 0,
        ({
            let from = plan.scan_from.file_index;
            let (rest, c, d, hit) = scan_frames(f.subrange(from as int, f.len() as int), 0, plan.scan_count as nat, from as nat);
            &&& data_cursor == d
            &&& msg_count == plan.scan_from.log_index - m.start_index + c
        }),
        strip_finished(m1, m2, data_cursor, msg_count, plan.scan_count),
    ensures
        log_file_holds(m2, carry_out_strip(f, plan.index_mark_at, data_cursor), rs.take(end_index - m.start_index)),
{
    let start = m.start_index;
    let idx = m.indexs@;
    assert(end_index < m.end_index());
    let bs = back_scan(idx, idx.len() - 1, idx.last(), 0, 0, end_index);
    assert(bs is Some);
    let (item, flen, pop) = bs->0;
    lemma_back_scan_bytes(idx, idx.len() - 1, idx.last(), 0, 0, end_index);
    assert(plan.scan_from == item);
    let kept_len = m1.indexs@.len();
    assert(pop <= idx.len());
    assert(m1.indexs@ == idx.subrange(0, idx.len() - pop));
    assert(kept_len == idx.len() - pop);
    assert(item == idx[kept_len - 1]);
    assert(entry_points_at(start, rs, idx[kept_len - 1]));
    let p = (item.log_index - start) as int;
    let e = (end_index - start) as int;
    let c = plan.scan_count as int;
    assert(p + c == e);
    assert(e < rs.len());
    // the data from the entry on
    let head = rs.take(p);
    let tail = rs.skip(p);
    assert(head + tail =~= rs);
    lemma_log_frames_append(head, tail);
    let dc = m.data_cursor as int;
    let fi = item.file_index as int;
    let lf = log_frames(rs);
    assert(f.subrange(fi, dc) =~= lf.subrange(log_frames(head).len() as int, lf.len() as int));
    assert(lf.subrange(log_frames(head).len() as int, lf.len() as int) =~= log_frames(tail));
    let rest = f.subrange(dc, f.len() as int);
    assert(f.subrange(fi, f.len() as int) =~= log_frames(tail) + rest);
    assert forall|i: int| 0 <= i < tail.len() implies record_storable(#[trigger] tail[i]) by {
        assert(tail[i] == rs[p + i]);
    }
    lemma_scan_log_frames(tail, rest, 0, c as nat, fi as nat, c as nat);
    // the records kept
    let kept = rs.take(e);
    assert(head + tail.take(c) =~= kept);
    lemma_log_frames_append(head, tail.take(c));
    assert(data_cursor == LOG_DATA_AREA_START + log_frames(kept).len());
    assert(msg_count == kept.len());
    let dropped = rs.skip(e);
    assert(kept + dropped =~= rs);
    lemma_log_frames_append(kept, dropped);
    assert(dropped[0] == rs[e]);
    assert(record_storable(rs[e]));
    assert(log_frames(dropped) == log_record_frame(dropped[0]) + log_frames(dropped.drop_first()));
    crate::common::protobuf_utils::lemma_varint_roundtrip(log_record_body(rs[e]).len(), Seq::empty());
    assert(data_cursor + 2 <= m.data_cursor);
    // the end marks fall outside the kept data
    let f1 = match plan.index_mark_at {
        Some(at) => write_at(f, at as int, seq![0u8, 1u8]),
        None => f,
    };
    assert(f1.len() == f.len() && f1.subrange(LOG_DATA_AREA_START as int, dc) == f.subrange(
        LOG_DATA_AREA_START as int,
        dc,
    )) by {
        match plan.index_mark_at {
            Some(at) => {
                assert(pop > 0);
                assert(at + 2 <= LOG_DATA_AREA_START);
                assert(f1.subrange(LOG_DATA_AREA_START as int, dc) =~= f.subrange(LOG_DATA_AREA_START as int, dc));
            },
            None => {},
        }
    }
    let f2 = carry_out_strip(f, plan.index_mark_at, data_cursor);
    assert(f2.len() == f.len());
    assert(f2.subrange(LOG_DATA_AREA_START as int, data_cursor as int) =~= f1.subrange(
        LOG_DATA_AREA_START as int,
        data_cursor as int,
    ));
    assert(f1.subrange(LOG_DATA_AREA_START as int, data_cursor as int) =~= lf.subrange(
        0,
        log_frames(kept).len() as int,
    ));
    assert(lf.subrange(0, log_frames(kept).len() as int) =~= log_frames(kept));
    // the index entries kept
    assert forall|k: int| 0 <= k < m2.indexs@.len() implies entry_points_at(start, kept, #[trigger] m2.indexs@[k]) by {
        assert(m2.indexs@[k] == idx[k]);
        assert(entry_points_at(start, rs, idx[k]));
        if k < kept_len - 1 {
            assert(idx[k].log_index < idx[kept_len - 1].log_index);
        }
        let q = idx[k].log_index - start;
        assert(kept.take(q) =~= rs.take(q));
    }
    assert(m2.indexs@[0] == idx[0]);
    assert forall|i: int| 0 <= i < kept.len() implies record_storable(#[trigger] kept[i]) by {
        assert(kept[i] == rs[i]);
    }
}

/// Scanning stored records followed by the end mark counts every one of
/// them and stops at the mark, when the wanted count (0: none) is not
/// reached first.
pub proof fn lemma_scan_to_end_mark(t: Seq<LogRecordView>, rest: Seq<u8>, c0: nat, count: nat, d0: nat)
    requires
        forall|i: int| 0 <= i < t.len() ==> record_storable(#[trigger] t[i]),
        rest.len() > 0,
        rest[0] == 0,
        count == 0 || c0 + t.len() < count,
    ensures
        scan_frames(log_frames(t) + rest, c0, count, d0) == (rest, c0 + t.len(), d0 + log_frames(t).len(), false),
    decreases t.len(),
{
    if t.len() == 0 {
        assert(log_frames(t) + rest =~= rest);
        crate::common::protobuf_utils::lemma_varint_roundtrip(0, rest.drop_first());
        assert(varint_bytes(0) =~= seq![0u8]);
        assert(varint_bytes(0) + rest.drop_first() =~= rest);
    } else {
        let r = t[0];
        let u = t.drop_first();
        assert(record_storable(t[0]));
        assert forall|i: int| 0 <= i < u.len() implies record_storable(#[trigger] u[i]) by {
            assert(u[i] == t[i + 1]);
        }
        lemma_log_record_body_len(r);
        let s = log_frames(t) + rest;
        assert(s == log_record_frame(r) + (log_frames(u) + rest));
        lemma_next_frame_of(log_record_body(r), log_frames(u) + rest);
        let n = log_record_frame(r).len();
        assert(s.subrange(n as int, s.len() as int) == log_frames(u) + rest);
        lemma_scan_to_end_mark(u, rest, c0 + 1, count, d0 + n);
        assert(log_frames(t) == log_record_frame(r) + log_frames(u));
    }
}

/// Reopening a log file that holds the records `rs`: the data scan, started
/// (in one go) at the last index entry and taken until the end mark that
/// follows the data, counts the records from that entry on and ends at the
/// data cursor, so the end index of the reopened file is the start index
/// plus the number of records; this holds when the byte at the data cursor
/// is the end mark 0 (as in a file written only by `init_new` and writes:
/// `law_log_new_zero_tail`, `law_log_write_keeps_zero_tail`) and the scan's
/// limit (0: none) is above the number of records after the entry.
pub proof fn law_log_reopen_end_index(m: LogInnerManager, f: Seq<u8>, rs: Seq<LogRecordView>, count: nat)
    requires
        log_file_holds(m, f, rs),
        f[m.data_cursor as int] == 0,
        count == 0 || rs.len() - (m.indexs@.last().log_index - m.start_index) < count,
    ensures
        ({
            let e = m.indexs@.last();
            let (rest, c, dc, hit) = scan_frames(f.subrange(e.file_index as int, f.len() as int), 0, count, e.file_index as nat);
            &&& !hit
            &&& dc == m.data_cursor
            &&& m.start_index + (e.log_index - m.start_index) + c == m.start_index + rs.len()
        }),
{
    let e = m.indexs@.last();
    assert(entry_points_at(m.start_index, rs, m.indexs@[m.indexs@.len() - 1]));
    let k = (e.log_index - m.start_index) as int;
    lemma_log_frames_append(rs.take(k), rs.skip(k));
    assert(rs.take(k) + rs.skip(k) =~= rs);
    let a = LOG_DATA_AREA_START as int;
    let fk = log_frames(rs.take(k)).len() as int;
    let tail = f.subrange(m.data_cursor as int, f.len() as int);
    assert(f.subrange(e.file_index as int, f.len() as int) =~= log_frames(rs.skip(k)) + tail) by {
        assert(f.subrange(a, m.data_cursor as int) == log_frames(rs));
        assert forall|i: int| 0 <= i < log_frames(rs.skip(k)).len() implies f[e.file_index + i] == log_frames(
            rs.skip(k),
        )[i] by {
            assert(f[a + fk + i] == f.subrange(a, m.data_cursor as int)[fk + i]);
        }
    }
    assert forall|i: int| 0 <= i < rs.skip(k).len() implies record_storable(#[trigger] rs.skip(k)[i]) by {
        assert(rs.skip(k)[i] == rs[k + i]);
    }
    lemma_scan_to_end_mark(rs.skip(k), tail, 0, count, e.file_index as nat);
}

/// Every byte of `f` from `c` on is 0: nothing was written after the data.
pub open spec fn zero_tail(f: Seq<u8>, c: int) -> bool {
    forall|i: int| c <= i < f.len() ==> f[i] == 0
}

/// A new log file has nothing but zeros after its data cursor.
pub proof fn law_log_new_zero_tail(block: Seq<u8>, len: nat, c: int)
    requires
        block.len() <= c,
        forall|i: int| c <= i < block.len() ==> block[i] == 0,
    ensures
        zero_tail(set_len(block, len), c),
{
}

/// A planned write into a file with nothing but zeros after its data keeps
/// it so: the file grows with zeros, the record is written at the data
/// cursor and the index delta before the data area.
pub proof fn law_log_write_keeps_zero_tail(
    m: LogInnerManager,
    n: LogInnerManager,
    f: Seq<u8>,
    rs: Seq<LogRecordView>,
    r: LogRecordView,
    plan: LogWritePlan,
)
    requires
        log_file_holds(m, f, rs),
        write_planned(m, n, r, plan),
        plan.mark != LogWriteMark::Failure,
        record_storable(r),
        zero_tail(f, m.data_cursor as int),
    ensures
        zero_tail(carry_out_write(f, m.data_cursor, plan), n.data_cursor as int),
{
    law_log_write_keeps(m, n, f, rs, r, plan);
    let frame = log_record_frame(r);
    let dc = m.data_cursor as int;
    let cursor = dc + frame.len();
    assert(n.data_cursor == cursor);
    let f1 = match plan.grow_to {
        Some(l) => set_len(f, l as nat),
        None => f,
    };
    assert(zero_tail(f1, dc)) by {
        if plan.grow_to is Some {
            assert forall|i: int| dc <= i < f1.len() implies f1[i] == 0 by {
                if i < f.len() {
                    assert(f1[i] == f[i]);
                }
            }
        }
    }
    let f2 = write_at(f1, dc, frame);
    assert(cursor < f1.len());
    assert(zero_tail(f2, cursor)) by {
        assert forall|i: int| cursor <= i < f2.len() implies f2[i] == 0 by {
            assert(f2[i] == f1[i]);
        }
    }
    let f3 = carry_out_write(f, m.data_cursor, plan);
    match plan.index_write {
        Some((off, bytes)) => {
            let delta = (cursor - m.indexs@.last().file_index) as nat;
            crate::common::protobuf_utils::lemma_varint_roundtrip(delta, Seq::empty());
            assert(off + bytes@.len() <= LOG_DATA_AREA_START);
            assert(f3 == write_at(f2, off as int, bytes@));
            assert forall|i: int| cursor <= i < f3.len() implies f3[i] == 0 by {
                assert(f3[i] == f2[i]);
            }
        },
        None => {},
    }
}

} // verus!
