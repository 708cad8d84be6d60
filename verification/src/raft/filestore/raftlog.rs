use vstd::prelude::*;
use crate::common::protobuf_utils::{
    MessageBufReader, next_frame_len, frames_of, frame_len_at, lemma_frames_of_step, lemma_frames_of_none,
    varint_bytes, read_varint, read_varint_at, read_varint64_offset, inner_sizeof_varint,
    lemma_varint_roundtrip,
};

verus! {

/// The size by which a log data file is grown.
pub const LOG_DATA_BUF_SIZE: u64 = 1048576;

/// A log file takes no more records once its data reaches this offset.
pub const LOG_DATA_LIMIT: u64 = 2000000000;

/// Where the index area of a log file starts.
pub const LOG_INDEX_AREA_START: u64 = 24;

/// Where the data area of a log file starts.
pub const LOG_DATA_AREA_START: u64 = 4096;

/// A sparse index entry: the record with log index `log_index` starts at
/// byte `file_index` of the log file.
#[derive(Debug, Default, Clone, Copy, PartialEq, Eq)]
pub struct InnerIdxDto {
    pub log_index: u64,
    pub file_index: u64,
}

/// The deltas stored in the index area from `offset` on, given the delta
/// `next` already read there, and the offset at which reading stopped:
/// reading goes on while the delta is not 0 and the next delta starts
/// before the last ten bytes of the area.
pub open spec fn index_scan(buf: Seq<u8>, offset: nat, next: u64) -> (Seq<u64>, nat)
    decreases buf.len() - offset,
{
    if next == 0 || buf.len() < 10 || offset > buf.len() || varint_bytes(next as nat).len() == 0 {
        (Seq::empty(), offset)
    } else {
        let o2 = offset + varint_bytes(next as nat).len();
        if o2 > buf.len() - 10 {
            (seq![next], o2)
        } else {
            let n2 = match read_varint(buf.subrange(o2 as int, buf.len() as int)) {
                Some((v, _)) => v,
                None => 0,
            };
            let (d, f) = index_scan(buf, o2, n2);
            (seq![next] + d, f)
        }
    }
}

/// The sum of the first `k` deltas.
pub open spec fn delta_sum(d: Seq<u64>, k: nat) -> nat
    decreases k,
{
    if k == 0 || k > d.len() {
        0
    } else {
        delta_sum(d, (k - 1) as nat) + d[k - 1] as nat
    }
}

/// `k` times `interval`.
pub open spec fn times(k: nat, interval: nat) -> nat
    decreases k,
{
    if k == 0 {
        0
    } else {
        times((k - 1) as nat, interval) + interval
    }
}

/// The index entries that the deltas stand for: entry `k` is `k` intervals
/// after the first entry in log index, and the first `k` deltas after it in
/// the file.
pub open spec fn index_entries_fit(first: InnerIdxDto, interval: u64, d: Seq<u64>) -> bool {
    &&& first.log_index + times(d.len(), interval as nat) <= u64::MAX
    &&& first.file_index + delta_sum(d, d.len()) <= u64::MAX
}

pub open spec fn index_entry(first: InnerIdxDto, interval: u64, d: Seq<u64>, k: nat) -> InnerIdxDto {
    InnerIdxDto {
        log_index: (first.log_index + times(k, interval as nat)) as u64,
        file_index: (first.file_index + delta_sum(d, k)) as u64,
    }
}

proof fn lemma_times_mono(a: nat, b: nat, i: nat)
    requires
        a <= b,
    ensures
        times(a, i) <= times(b, i),
    decreases b,
{
    if a < b {
        lemma_times_mono(a, (b - 1) as nat, i);
    }
}

proof fn lemma_delta_sum_mono(d: Seq<u64>, a: nat, b: nat)
    requires
        a <= b <= d.len(),
    ensures
        delta_sum(d, a) <= delta_sum(d, b),
    decreases b,
{
    if a < b {
        lemma_delta_sum_mono(d, a, (b - 1) as nat);
    }
}

proof fn lemma_delta_sum_push(d: Seq<u64>, x: u64, k: nat)
    requires
        k <= d.len(),
    ensures
        delta_sum(d.push(x), k) == delta_sum(d, k),
    decreases k,
{
    if k > 0 {
        lemma_delta_sum_push(d, x, (k - 1) as nat);
        assert(d.push(x)[k - 1] == d[k - 1]);
    }
}

/// Why the index area could not be read.
#[derive(Clone, Copy, Debug, PartialEq, Eq)]
pub enum IndexReadError {
    /// The first delta is not a readable varint.
    BadVarint,
    /// The entries' positions do not fit in 64 bits.
    Overflow,
}

/// Reads the sparse index of a log file from its index area: the first entry
/// is `first_index`, each stored delta gives the next entry, one interval
/// further. Returns the entries and the offset after the last delta read.
pub fn read_indexs(index_buf: &[u8], first_index: InnerIdxDto, index_interval: u64) -> (r: Result<
    (Vec<InnerIdxDto>, u64),
    IndexReadError,
>)
    requires
        index_buf@.len() >= 10,
    ensures
        ({
            let first_read = read_varint(index_buf@);
            match first_read {
                None => r == Err::<(Vec<InnerIdxDto>, u64), IndexReadError>(IndexReadError::BadVarint),
                Some((v, _)) => {
                    let (d, end) = index_scan(index_buf@, 0, v);
                    if index_entries_fit(first_index, index_interval, d) {
                        &&& r is Ok
                        &&& r->Ok_0.0@.len() == d.len() + 1
                        &&& forall|k: int|
                            0 <= k <= d.len() ==> #[trigger] r->Ok_0.0@[k] == index_entry(
                                first_index,
                                index_interval,
                                d,
                                k as nat,
                            )
                        &&& r->Ok_0.1 == end
                        &&& end <= index_buf@.len()
                    } else {
                        r == Err::<(Vec<InnerIdxDto>, u64), IndexReadError>(IndexReadError::Overflow)
                    }
                },
            }
        }),
{
    let ghost buf = index_buf@;
    let last_end = index_buf.len() - 10;
    let mut offset: usize = 0;
    let mut last_log_index = first_index.log_index;
    let mut last_file_index = first_index.file_index;
    let mut indexs: Vec<InnerIdxDto> = Vec::new();
    indexs.push(first_index);
    assert(buf.subrange(0, buf.len() as int) =~= buf);
    let mut next_index = match read_varint64_offset(index_buf, offset) {
        Ok(v) => v,
        Err(_) => return Err(IndexReadError::BadVarint),
    };
    let ghost v0 = next_index;
    let ghost total = index_scan(buf, 0, v0);
    let ghost mut done: Seq<u64> = Seq::empty();
    let mut overflow = false;
    while next_index > 0
        invariant_except_break
            !overflow,
            offset <= last_end,
            ({
                let (d, f) = index_scan(buf, offset as nat, next_index);
                &&& total.0 == done + d
                &&& total.1 == f
            }),
        invariant
            buf == index_buf@,
            buf.len() >= 10,
            last_end == buf.len() - 10,
            last_end + 10 == index_buf.len(),
            indexs@.len() == done.len() + 1,
            forall|k: int|
                0 <= k <= done.len() ==> #[trigger] indexs@[k] == index_entry(
                    first_index,
                    index_interval,
                    done,
                    k as nat,
                ),
            last_log_index == first_index.log_index + times(done.len(), index_interval as nat),
            last_file_index == first_index.file_index + delta_sum(done, done.len()),
        ensures
            offset <= buf.len(),
            !overflow ==> total.0 == done && total.1 == offset,
            overflow ==> !index_entries_fit(first_index, index_interval, total.0),
            indexs@.len() == done.len() + 1,
            forall|k: int|
                0 <= k <= done.len() ==> #[trigger] indexs@[k] == index_entry(
                    first_index,
                    index_interval,
                    done,
                    k as nat,
                ),
        decreases buf.len() - offset,
    {
        proof {
            lemma_varint_roundtrip(next_index as nat, Seq::empty());
        }
        let ghost old_done = done;
        let ghost (d_here, f_here) = index_scan(buf, offset as nat, next_index);
        if index_interval > u64::MAX - last_log_index || next_index > u64::MAX - last_file_index {
            proof {
                let full = total.0;
                let k = (done.len() + 1) as nat;
                assert(full == done + d_here);
                assert(d_here[0] == next_index);
                assert(full[done.len() as int] == next_index);
                lemma_times_mono(k, full.len(), index_interval as nat);
                lemma_delta_sum_prefix(full, done);
                assert(delta_sum(full, k) == delta_sum(full, done.len()) + next_index);
                lemma_delta_sum_mono(full, k, full.len());
            }
            overflow = true;
            break;
        }
        last_log_index += index_interval;
        last_file_index += next_index;
        let index_obj = InnerIdxDto { log_index: last_log_index, file_index: last_file_index };
        indexs.push(index_obj);
        proof {
            done = done.push(next_index);
            lemma_delta_sum_push(old_done, next_index, old_done.len());
            assert forall|k: int| 0 <= k <= done.len() implies #[trigger] indexs@[k] == index_entry(
                first_index,
                index_interval,
                done,
                k as nat,
            ) by {
                if k < done.len() {
                    lemma_delta_sum_push(old_done, next_index, k as nat);
                }
            }
        }
        offset += inner_sizeof_varint(next_index);
        if offset > last_end {
            proof {
                assert(d_here == seq![next_index]);
                assert(done + Seq::<u64>::empty() == old_done + d_here);
            }
            break;
        }
        next_index = match read_varint64_offset(index_buf, offset) {
            Ok(v) => v,
            Err(_) => 0,
        };
        proof {
            assert(old_done + d_here == done + index_scan(buf, offset as nat, next_index).0);
        }
    }
    if overflow {
        return Err(IndexReadError::Overflow);
    }
    proof {
        lemma_times_mono(done.len(), done.len(), index_interval as nat);
    }
    Ok((indexs, offset as u64))
}

proof fn lemma_delta_sum_prefix(full: Seq<u64>, pre: Seq<u64>)
    requires
        pre.len() <= full.len(),
        forall|i: int| 0 <= i < pre.len() ==> pre[i] == full[i],
    ensures
        delta_sum(full, pre.len()) == delta_sum(pre, pre.len()),
    decreases pre.len(),
{
    if pre.len() > 0 {
        let p2 = pre.drop_last();
        lemma_delta_sum_prefix(full, p2);
        lemma_delta_sum_push(p2, pre.last(), p2.len());
        assert(p2.push(pre.last()) == pre);
    }
}

} // verus!

verus! {

use crate::raft::filestore::model::{LogIndexHeaderDo, LogRecordDto, LogRecordView};
use crate::raft::filestore::log::{encode_log_record, log_record_frame, decode_log_record, log_record_decode, DecodeError};
use crate::common::protobuf_utils::write_varint64;

/// The outcome of writing one record into a log file.
#[derive(Clone, Copy, Debug, PartialEq, Eq)]
pub enum LogWriteMark {
    /// Written; the file can take more.
    Success,
    /// Written; the file is now full.
    SuccessToEnd,
    /// Not written: the file was already full.
    Failure,
    /// Writing failed.
    Error,
}

/// What the caller has to do on disk to carry out one planned write.
pub struct LogWritePlan {
    pub mark: LogWriteMark,
    /// The new length of the data file, when it has to grow first.
    pub grow_to: Option<u64>,
    /// Where to move the file position before writing, when a read moved it.
    pub seek_to: Option<u64>,
    /// The stored bytes of the record, to write at the data cursor.
    pub data: Vec<u8>,
    /// An index delta to write into the index area at the given offset.
    pub index_write: Option<(u64, Vec<u8>)>,
}

/// The bookkeeping of one log file: its header, its sparse index, and the
/// cursors of its index and data areas. The file itself stays with the
/// caller, which carries out the plans that the methods return.
pub struct LogInnerManager {
    pub header: LogIndexHeaderDo,
    pub indexs: Vec<InnerIdxDto>,
    pub start_index: u64,
    pub index_cursor: u64,
    pub file_len: u64,
    pub data_cursor: u64,
    pub msg_count: u64,
    pub current_index_count: u16,
    pub need_seek_at_write: bool,
}

/// The index entries are in strictly increasing log index order.
pub open spec fn indexs_sorted(idx: Seq<InnerIdxDto>) -> bool {
    forall|i: int, j: int| 0 <= i < j < idx.len() ==> #[trigger] idx[i].log_index < #[trigger] idx[j].log_index
}

/// The entry that the search for `start` settles on: the last entry whose
/// log index is at most `start`, or the first entry when there is none.
pub open spec fn start_entry_pos(idx: Seq<InnerIdxDto>, start: u64) -> int {
    if exists|i: int| 0 <= i < idx.len() && idx[i].log_index <= start {
        choose|i: int|
            0 <= i < idx.len() && #[trigger] idx[i].log_index <= start && (i + 1 == idx.len() || idx[i
                + 1].log_index > start)
    } else {
        0
    }
}

/// A binary search of the entries for the log index `start`: on sorted
/// entries, `Ok` with the position that holds it, or `Err` with the
/// position where it would be inserted to keep the order; on any entries,
/// a position within them (or at their end for `Err`).
fn search_log_index(idx: &Vec<InnerIdxDto>, start: u64) -> (r: Result<usize, usize>)
    ensures
        match r {
            Ok(i) => i < idx@.len(),
            Err(i) => i <= idx@.len(),
        },
        indexs_sorted(idx@) ==> match r {
            Ok(i) => i < idx@.len() && idx@[i as int].log_index == start,
            Err(i) => i <= idx@.len() && (forall|j: int| 0 <= j < i ==> idx@[j].log_index < start) && (
            forall|j: int| i <= j < idx@.len() ==> idx@[j].log_index > start),
        },
{
    let mut lo: usize = 0;
    let mut hi: usize = idx.len();
    while lo < hi
        invariant
            lo <= hi <= idx@.len(),
            indexs_sorted(idx@) ==> forall|j: int| 0 <= j < lo ==> idx@[j].log_index < start,
            indexs_sorted(idx@) ==> forall|j: int| hi <= j < idx@.len() ==> idx@[j].log_index > start,
        decreases hi - lo,
    {
        let mid = lo + (hi - lo) / 2;
        let v = idx[mid].log_index;
        if v == start {
            return Ok(mid);
        } else if v < start {
            lo = mid + 1;
        } else {
            hi = mid;
        }
    }
    Err(lo)
}

/// The log index at which the backward search for the entry at or before
/// `target` stops, with the bytes of index deltas and the number of entries
/// passed on the way: entries are passed from the end, each change of log
/// index counting the varint size of the change and one popped entry.
pub open spec fn back_scan(
    idx: Seq<InnerIdxDto>,
    j: int,
    last: InnerIdxDto,
    flen: nat,
    pop: nat,
    target: u64,
) -> Option<(InnerIdxDto, nat, nat)>
    decreases j + 1,
{
    if j < 0 || j >= idx.len() {
        None
    } else {
        let item = idx[j];
        let changed = item.log_index != last.log_index;
        let last2 = if changed { item } else { last };
        let flen2 = if changed {
            flen + varint_bytes((last.log_index - item.log_index) as nat).len()
        } else {
            flen
        };
        let pop2 = if changed { pop + 1 } else { pop };
        if item.log_index <= target {
            Some((item, flen2, pop2))
        } else {
            back_scan(idx, j - 1, last2, flen2, pop2, target)
        }
    }
}

/// What stripping the log down to `end_index` changes before the data area
/// is scanned again.
pub struct StripPlan {
    /// Where to write the end mark of the index area, when entries were dropped.
    pub index_mark_at: Option<u64>,
    /// The index entry from which the data area is scanned again.
    pub scan_from: InnerIdxDto,
    /// How many records to keep after that entry.
    pub scan_count: u64,
}

/// Why a strip could not be planned.
#[derive(Clone, Copy, Debug, PartialEq, Eq)]
pub enum StripError {
    /// No index entry lies at or before the end index.
    NotFound,
}

/// On sorted entries, the last entry at or before `start` (or the first
/// entry when none is) is the one `start_entry_pos` names.
proof fn lemma_start_entry_pos(idx: Seq<InnerIdxDto>, start: u64, i: int)
    requires
        indexs_sorted(idx),
        0 <= i < idx.len(),
        (idx[i].log_index <= start && (i + 1 == idx.len() || idx[i + 1].log_index > start)) || (i == 0
            && forall|j: int| 0 <= j < idx.len() ==> idx[j].log_index > start),
    ensures
        start_entry_pos(idx, start) == i,
{
    if exists|k: int| 0 <= k < idx.len() && idx[k].log_index <= start {
        let p = start_entry_pos(idx, start);
        assert(idx[p].log_index <= start && (p + 1 == idx.len() || idx[p + 1].log_index > start));
        if p < i {
            assert(idx[p + 1].log_index <= idx[i].log_index);
        }
        if i < p {
            assert(idx[i + 1].log_index <= idx[p].log_index);
        }
    }
}

impl LogInnerManager {
    /// The state is consistent: there is a first index entry, the data
    /// cursor is past the last one, and the counters fit.
    pub open spec fn wf(&self) -> bool {
        &&& self.indexs@.len() >= 1
        &&& self.indexs@.last().file_index <= self.data_cursor
        &&& self.index_cursor < 0x1_0000_0000
        &&& self.start_index + self.msg_count <= u64::MAX
    }

    /// One past the log index of the last record in the file.
    pub open spec fn end_index(&self) -> int {
        self.start_index + self.msg_count
    }

    pub fn get_end_index(&self) -> (r: u64)
        requires
            self.wf(),
        ensures
            r == self.end_index(),
    {
        self.start_index + self.msg_count
    }

    /// Whether the index entries are in strictly increasing log index order.
    pub fn is_index_sorted(&self) -> (r: bool)
        ensures
            r == indexs_sorted(self.indexs@),
    {
        let n = self.indexs.len();
        let mut i: usize = 1;
        while i < n
            invariant
                n == self.indexs@.len(),
                1 <= i || n == 0,
                i <= n || n == 0,
                forall|a: int, b: int| 0 <= a < b < i && b < n ==> #[trigger] self.indexs@[a].log_index
                    < #[trigger] self.indexs@[b].log_index,
            decreases n - i,
        {
            if self.indexs[i - 1].log_index >= self.indexs[i].log_index {
                return false;
            }
            proof {
                assert forall|a: int, b: int| 0 <= a < b < i + 1 && b < n implies #[trigger] self.indexs@[a].log_index
                    < #[trigger] self.indexs@[b].log_index by {
                    if b == i && a < i - 1 {
                        assert(self.indexs@[a].log_index < self.indexs@[i - 1].log_index);
                    }
                }
            }
            i += 1;
        }
        true
    }

    /// The index entry from which to look for the record with log index
    /// `start`: on sorted entries, the last one at or before `start`.
    pub fn get_start_index(&self, start: u64) -> (r: &InnerIdxDto)
        requires
            self.indexs@.len() >= 1,
        ensures
            exists|i: int| 0 <= i < self.indexs@.len() && *r == self.indexs@[i],
            indexs_sorted(self.indexs@) ==> *r == self.indexs@[start_entry_pos(self.indexs@, start)],
    {
        let n = self.indexs.len();
        let i = match search_log_index(&self.indexs, start) {
            Ok(i) => i,
            Err(i) => if i == 0 {
                0
            } else {
                i - 1
            },
        };
        let i = if i < n { i } else { n - 1 };
        proof {
            if indexs_sorted(self.indexs@) {
                lemma_start_entry_pos(self.indexs@, start, i as int);
            }
        }
        &self.indexs[i]
    }
}


impl LogInnerManager {
    /// Searches the index from its end for the last entry at or before
    /// `log_index`; returns it with the number of index bytes and of entries
    /// that come after it (as the index area counts them).
    pub fn get_file_index_by_log_index(&self, log_index: u64) -> (r: Result<(InnerIdxDto, u64, u64), StripError>)
        requires
            1 <= self.indexs@.len() < 0x1_0000_0000,
            indexs_sorted(self.indexs@),
        ensures
            match back_scan(
                self.indexs@,
                self.indexs@.len() - 1,
                self.indexs@.last(),
                0,
                0,
                log_index,
            ) {
                Some((item, flen, pop)) => r matches Ok((a, b, c)) && a == item && b == flen && c == pop,
                None => r == Err::<(InnerIdxDto, u64, u64), StripError>(StripError::NotFound),
            },
    {
        let ghost idx = self.indexs@;
        let n = self.indexs.len();
        let mut file_index_len: u64 = 0;
        let mut pop_index_count: u64 = 0;
        let mut last_index = self.indexs[n - 1];
        let mut j: usize = n;
        while j > 0
            invariant
                idx == self.indexs@,
                n == idx.len(),
                n >= 1,
                n < 0x1_0000_0000,
                indexs_sorted(idx),
                j <= n,
                j < n ==> last_index == idx[j as int] || last_index.log_index == idx[j as int].log_index,
                j == n ==> last_index == idx[n - 1],
                exists|k: int| j <= k < n && last_index == idx[k] || (j == n && k == n - 1 && last_index == idx[k]),
                file_index_len <= 10 * (n - j),
                pop_index_count <= n - j,
                back_scan(idx, n - 1, idx[n - 1], 0, 0, log_index) == back_scan(
                    idx,
                    j - 1,
                    last_index,
                    file_index_len as nat,
                    pop_index_count as nat,
                    log_index,
                ),
            decreases j,
        {
            let item = self.indexs[j - 1];
            proof {
                let k = choose|k: int| j <= k < n && last_index == idx[k] || (j == n && k == n - 1 && last_index == idx[k]);
                if k != j - 1 {
                    assert(idx[j - 1].log_index < idx[k].log_index);
                }
                lemma_varint_roundtrip((last_index.log_index - item.log_index) as nat, Seq::empty());
            }
            if item.log_index != last_index.log_index {
                file_index_len += inner_sizeof_varint(last_index.log_index - item.log_index) as u64;
                last_index = item;
                pop_index_count += 1;
            }
            if item.log_index <= log_index {
                return Ok((item, file_index_len, pop_index_count));
            }
            j -= 1;
        }
        Err(StripError::NotFound)
    }
}

/// On sorted entries the backward search stops at the last entry at or
/// before the target, having passed every entry after it.
pub proof fn lemma_back_scan_sorted(
    idx: Seq<InnerIdxDto>,
    j: int,
    last: InnerIdxDto,
    flen: nat,
    pop: nat,
    target: u64,
)
    requires
        indexs_sorted(idx),
        -1 <= j < idx.len(),
        j == idx.len() - 1 ==> last == idx[j],
        j < idx.len() - 1 ==> last == idx[j + 1],
    ensures
        back_scan(idx, j, last, flen, pop, target) matches Some((item, _, pp)) ==> exists|p: int|
            0 <= p <= j && item == #[trigger] idx[p] && idx[p].log_index <= target && (p == j || idx[p
                + 1].log_index > target) && pp == pop + (if j == idx.len() - 1 {
                j - p
            } else {
                j - p + 1
            }),
        back_scan(idx, j, last, flen, pop, target) is None ==> forall|p: int|
            0 <= p <= j ==> idx[p].log_index > target,
    decreases j + 1,
{
    if j >= 0 {
        let item = idx[j];
        let changed = item.log_index != last.log_index;
        assert(j < idx.len() - 1 ==> changed) by {
            if j < idx.len() - 1 {
                assert(idx[j].log_index < idx[j + 1].log_index);
            }
        }
        let last2 = if changed { item } else { last };
        let flen2 = if changed {
            flen + varint_bytes((last.log_index - item.log_index) as nat).len()
        } else {
            flen
        };
        let pop2 = if changed { pop + 1 } else { pop };
        if item.log_index > target {
            lemma_back_scan_sorted(idx, j - 1, last2, flen2, pop2, target);
            match back_scan(idx, j, last, flen, pop, target) {
                Some((it, _, pp)) => {
                    let p = choose|p: int|
                        0 <= p <= j - 1 && it == #[trigger] idx[p] && idx[p].log_index <= target && (p == j - 1
                            || idx[p + 1].log_index > target) && pp == pop2 + (j - 1 - p + 1);
                    assert(0 <= p <= j && it == idx[p]);
                },
                None => {},
            }
        }
    }
}

/// The effect of `finish_strip`'s `u16` conversion of the kept count.
pub open spec fn low16(v: u64) -> u16 {
    (v % 0x1_0000) as u16
}

/// `n` is `o` after planning a strip down to the records before
/// `end_index`, and `r` is the outcome: what `plan_strip` promises.
pub open spec fn strip_planned(o: LogInnerManager, n: LogInnerManager, end_index: u64, r: Result<Option<StripPlan>, StripError>) -> bool {
    &&& n.indexs@.len() >= 1
    &&& indexs_sorted(n.indexs@)
    &&& end_index >= o.end_index() ==> (r matches Ok(None)) && n == o
    &&& end_index < o.end_index() ==> match back_scan(o.indexs@, o.indexs@.len() - 1, o.indexs@.last(), 0, 0, end_index) {
        None => r == Err::<Option<StripPlan>, StripError>(StripError::NotFound) && n == o,
        Some((item, flen, pop)) => {
            &&& r matches Ok(Some(plan))
            &&& plan.scan_from == item
            &&& plan.scan_count == end_index - item.log_index
            &&& n.indexs@ == o.indexs@.subrange(0, o.indexs@.len() - pop)
            &&& n.indexs@.last() == item
            &&& (pop > 0 ==> plan.index_mark_at == Some((o.index_cursor - flen) as u64) && n.index_cursor
                == o.index_cursor - flen)
            &&& (pop == 0 ==> plan.index_mark_at is None && n.index_cursor == o.index_cursor)
            &&& n.header == o.header
            &&& n.start_index == o.start_index
            &&& n.file_len == o.file_len
            &&& n.data_cursor == o.data_cursor
            &&& n.msg_count == o.msg_count
            &&& n.current_index_count == o.current_index_count
            &&& n.need_seek_at_write == o.need_seek_at_write
        },
    }
}

/// `n` is `o` after a strip is completed with the data cursor, record
/// count and kept count that the scan found: what `finish_strip` promises.
pub open spec fn strip_finished(o: LogInnerManager, n: LogInnerManager, data_cursor: u64, msg_count: u64, kept: u64) -> bool {
    &&& n.wf()
    &&& n.data_cursor == data_cursor
    &&& n.msg_count == msg_count
    &&& n.current_index_count == low16(kept)
    &&& n.indexs == o.indexs
    &&& n.header == o.header
    &&& n.start_index == o.start_index
    &&& n.index_cursor == o.index_cursor
    &&& n.file_len == o.file_len
    &&& n.need_seek_at_write == o.need_seek_at_write
}

impl LogInnerManager {
    /// Plans stripping the file down to the records before `end_index`:
    /// nothing when it holds none from there on; otherwise drops the index
    /// entries after the last one at or before `end_index` and says from
    /// which entry, and over how many records, the data area is to be
    /// scanned again before `finish_strip`.
    pub fn plan_strip(&mut self, end_index: u64) -> (r: Result<Option<StripPlan>, StripError>)
        requires
            old(self).wf(),
            old(self).indexs@.len() < 0x1_0000_0000,
            indexs_sorted(old(self).indexs@),
            back_scan(
                old(self).indexs@,
                old(self).indexs@.len() - 1,
                old(self).indexs@.last(),
                0,
                0,
                end_index,
            ) matches Some((_, flen, _)) ==> flen <= old(self).index_cursor,
        ensures
            strip_planned(*old(self), *final(self), end_index, r),
    {
        if end_index >= self.get_end_index() {
            return Ok(None);
        }
        let ghost idx = self.indexs@;
        proof {
            lemma_back_scan_sorted(idx, idx.len() - 1, idx.last(), 0, 0, end_index);
        }
        let (item, flen, pop) = match self.get_file_index_by_log_index(end_index) {
            Ok(x) => x,
            Err(e) => return Err(e),
        };
        let ghost p = choose|p: int|
            0 <= p <= idx.len() - 1 && item == #[trigger] idx[p] && idx[p].log_index <= end_index && (p
                == idx.len() - 1 || idx[p + 1].log_index > end_index) && pop == 0 + (idx.len() - 1 - p);
        let mut index_mark_at: Option<u64> = None;
        if pop > 0 {
            let keep = self.indexs.len() - pop as usize;
            self.indexs.truncate(keep);
            self.index_cursor -= flen;
            index_mark_at = Some(self.index_cursor);
        }
        proof {
            assert(self.indexs@ =~= idx.subrange(0, idx.len() - pop));
            assert(self.indexs@.last() == idx[p]);
        }
        Ok(Some(StripPlan { index_mark_at, scan_from: item, scan_count: end_index - item.log_index }))
    }

    /// Completes a strip once the data area has been scanned again: the
    /// cursor and record count that the scan found become the file's, and
    /// the kept count (taken as `u16`) the count since the last index entry.
    /// Returns where to write the end mark of the data area.
    pub fn finish_strip(&mut self, data_cursor: u64, msg_count: u64, kept: u64) -> (r: u64)
        requires
            old(self).wf(),
            old(self).indexs@.last().file_index <= data_cursor,
            old(self).start_index + msg_count <= u64::MAX,
        ensures
            r == data_cursor,
            strip_finished(*old(self), *final(self), data_cursor, msg_count, kept),
    {
        self.data_cursor = data_cursor;
        self.msg_count = msg_count;
        self.current_index_count = (kept % 0x1_0000) as u16;
        data_cursor
    }
}

/// Whether a log file with these cursors takes no more records.
pub open spec fn log_full(index_cursor: u64, data_area_index: u16, data_cursor: u64) -> bool {
    index_cursor + 10 >= data_area_index || data_cursor >= LOG_DATA_LIMIT
}

/// The larger of two numbers.
pub open spec fn max_u64(a: u64, b: u64) -> u64 {
    if a >= b {
        a
    } else {
        b
    }
}

/// `n` is `o` after planning to write `record`, and `plan` is the plan:
/// what `plan_write` promises.
pub open spec fn write_planned(o: LogInnerManager, n: LogInnerManager, record: LogRecordView, plan: LogWritePlan) -> bool {
    &&& n.wf()
    &&& n.header == o.header
    &&& n.start_index == o.start_index
    &&& log_full(o.index_cursor, o.header.data_area_index, o.data_cursor) ==> {
        &&& plan.mark == LogWriteMark::Failure
        &&& plan.grow_to is None && plan.seek_to is None && plan.index_write is None
        &&& plan.data@.len() == 0
        &&& n == o
    }
    &&& !log_full(o.index_cursor, o.header.data_area_index, o.data_cursor) ==> {
        let len = log_record_frame(record).len();
        let cursor = o.data_cursor + len;
        let count = o.current_index_count + 1;
        &&& plan.data@ == log_record_frame(record)
        &&& n.msg_count == o.msg_count + 1
        &&& n.data_cursor == cursor
        &&& !n.need_seek_at_write
        &&& plan.seek_to == (if o.need_seek_at_write {
            Some(o.data_cursor)
        } else {
            None
        })
        &&& (o.file_len <= cursor ==> n.file_len == o.file_len
            + max_u64(len as u64, LOG_DATA_BUF_SIZE) && plan.grow_to == Some(n.file_len))
        &&& (o.file_len > cursor ==> n.file_len == o.file_len
            && plan.grow_to is None)
        &&& (count == o.header.index_interval ==> {
            let delta = varint_bytes((cursor - o.indexs@.last().file_index) as nat);
            &&& n.current_index_count == 0
            &&& (plan.index_write matches Some((at, bytes)) && at == o.index_cursor
                && bytes@ == delta)
            &&& n.index_cursor == o.index_cursor + delta.len()
            &&& n.indexs@ == o.indexs@.push(
                InnerIdxDto {
                    log_index: (o.msg_count + 1 + o.header.first_index) as u64,
                    file_index: cursor as u64,
                },
            )
        })
        &&& (count != o.header.index_interval ==> {
            &&& n.current_index_count == count
            &&& plan.index_write is None
            &&& n.index_cursor == o.index_cursor
            &&& n.indexs == o.indexs
        })
        &&& plan.mark == (if log_full(
            n.index_cursor,
            n.header.data_area_index,
            n.data_cursor,
        ) {
            LogWriteMark::SuccessToEnd
        } else {
            LogWriteMark::Success
        })
    }
}

impl LogInnerManager {
    /// Plans writing one record at the end of the file and updates the
    /// bookkeeping as if the plan were carried out: a full file takes
    /// nothing (`Failure`); otherwise the stored record goes at the data
    /// cursor, the file grows by at least `LOG_DATA_BUF_SIZE` when the
    /// record would reach its end, and every `index_interval` records an
    /// index delta (the data cursor's distance from the last index entry)
    /// is added to the index area and a new entry to the index.
    pub fn plan_write(&mut self, record: &LogRecordDto) -> (r: LogWritePlan)
        requires
            old(self).wf(),
            record.value@.len() < 0x1_0000_0000 - 64,
            old(self).start_index + old(self).msg_count < u64::MAX,
            old(self).msg_count + old(self).header.first_index < u64::MAX,
            old(self).current_index_count < 0xffff,
        ensures
            write_planned(*old(self), *final(self), record@, r),
    {
        if self.index_cursor + 10 >= self.header.data_area_index as u64 || self.data_cursor
            >= LOG_DATA_LIMIT {
            return LogWritePlan {
                mark: LogWriteMark::Failure,
                grow_to: None,
                seek_to: None,
                data: Vec::new(),
                index_write: None,
            };
        }
        let buf = encode_log_record(record);
        proof {
            crate::raft::filestore::log::lemma_log_record_frame_len(record@);
        }
        let len = buf.len() as u64;
        let mut grow_to: Option<u64> = None;
        if self.file_len <= self.data_cursor + len {
            let step = if len >= LOG_DATA_BUF_SIZE { len } else { LOG_DATA_BUF_SIZE };
            self.file_len += step;
            grow_to = Some(self.file_len);
        }
        let mut seek_to: Option<u64> = None;
        if self.need_seek_at_write {
            seek_to = Some(self.data_cursor);
            self.need_seek_at_write = false;
        }
        self.msg_count += 1;
        self.data_cursor += len;
        self.current_index_count += 1;
        let mut index_write: Option<(u64, Vec<u8>)> = None;
        if self.current_index_count == self.header.index_interval {
            self.current_index_count = 0;
            let last_file_index = self.indexs[self.indexs.len() - 1].file_index;
            let index_data = write_varint64(self.data_cursor - last_file_index);
            let at = self.index_cursor;
            self.index_cursor += index_data.len() as u64;
            self.indexs.push(
                InnerIdxDto {
                    log_index: self.msg_count + self.header.first_index,
                    file_index: self.data_cursor,
                },
            );
            index_write = Some((at, index_data));
        }
        let mark = if self.index_cursor + 10 >= self.header.data_area_index as u64 || self.data_cursor
            >= LOG_DATA_LIMIT {
            LogWriteMark::SuccessToEnd
        } else {
            LogWriteMark::Success
        };
        LogWritePlan { mark, grow_to, seek_to, data: buf, index_write }
    }
}

/// Why a log file could not be opened.
#[derive(Clone, Copy, Debug, PartialEq, Eq)]
pub enum LogInitError {
    /// The head of the file is shorter than the header and index area need.
    HeadTooShort,
    /// The index area could not be read.
    Index(IndexReadError),
}

/// What scanning the data area from an index entry finds: the bytes of
/// frames still to look at, how many frames were counted, the cursor after
/// them, and whether the wanted count was reached.
pub open spec fn scan_frames(s: Seq<u8>, c: nat, count: nat, dc: nat) -> (Seq<u8>, nat, nat, bool)
    decreases s.len(),
{
    match next_frame_len(s) {
        None => (s, c, dc, false),
        Some(n) => if n == 0 || n > s.len() {
            (s, c, dc, false)
        } else if c + 1 == count {
            (s.subrange(n as int, s.len() as int), c + 1, dc + n, true)
        } else {
            scan_frames(s.subrange(n as int, s.len() as int), c + 1, count, dc + n)
        },
    }
}

/// The outcome of feeding one chunk of the data file to a scan.
#[derive(Clone, Copy, Debug, PartialEq, Eq)]
pub enum ScanStep {
    /// Read the next chunk and feed it.
    Continue,
    /// The scan is over: the data cursor and the record count.
    Done(u64, u64),
}

/// A scan of the data area from an index entry that counts the stored
/// records, fed chunk by chunk with what the data file holds from there.
pub struct MoveScan {
    pub data_cursor: u64,
    pub base_count: u64,
    pub counted: u64,
    pub count: u64,
    pub reader: MessageBufReader,
}

impl MoveScan {
    pub open spec fn pending(&self) -> Seq<u8> {
        self.reader@
    }

    pub open spec fn wf(&self) -> bool {
        self.reader.wf()
    }

    /// Starts a scan from the index entry `from` of a file whose first
    /// record has log index `start_index`, stopping after `count` records
    /// (0: no limit). The caller reads the data file from `from.file_index`.
    pub fn new(from: InnerIdxDto, start_index: u64, count: u64) -> (r: Self)
        requires
            start_index <= from.log_index,
        ensures
            r.wf(),
            r.pending() == Seq::<u8>::empty(),
            r.data_cursor == from.file_index,
            r.base_count == from.log_index - start_index,
            r.counted == 0,
            r.count == count,
    {
        MoveScan {
            data_cursor: from.file_index,
            base_count: from.log_index - start_index,
            counted: 0,
            count,
            reader: MessageBufReader::new(),
        }
    }

    /// Feeds the next chunk of the file (empty at the end of the file).
    /// At the end of the file the scan ends with the base count; otherwise
    /// it counts the complete frames now available, and ends when the
    /// wanted count is reached or the pending bytes are used up or start
    /// with the end mark.
    pub fn step(&mut self, chunk: &[u8]) -> (r: ScanStep)
        requires
            old(self).wf(),
            old(self).count == 0 || old(self).counted < old(self).count,
            old(self).data_cursor + old(self).pending().len() + chunk@.len() <= u64::MAX,
            old(self).base_count + old(self).counted + old(self).pending().len() + chunk@.len()
                <= u64::MAX,
        ensures
            final(self).wf(),
            final(self).count == old(self).count,
            final(self).base_count == old(self).base_count,
            chunk@.len() == 0 ==> r == ScanStep::Done(old(self).data_cursor, old(self).base_count)
                && *final(self) == *old(self),
            chunk@.len() > 0 ==> {
                let (rest, c, dc, hit) = scan_frames(
                    old(self).pending() + chunk@,
                    old(self).counted as nat,
                    old(self).count as nat,
                    old(self).data_cursor as nat,
                );
                &&& final(self).pending() == rest
                &&& final(self).counted == c
                &&& final(self).data_cursor == dc
                &&& (hit ==> r == ScanStep::Done(dc as u64, (old(self).base_count + c) as u64))
                &&& (!hit && (rest.len() == 0 || rest[0] == 0) ==> r == ScanStep::Done(
                    dc as u64,
                    (old(self).base_count + c) as u64,
                ))
                &&& (!hit && !(rest.len() == 0 || rest[0] == 0) ==> r == ScanStep::Continue
                    && (final(self).count == 0 || final(self).counted < final(self).count))
            },
    {
        if chunk.len() == 0 {
            return ScanStep::Done(self.data_cursor, self.base_count);
        }
        self.reader.append_next_buf(chunk);
        let ghost s0 = self.reader@;
        let ghost c0 = self.counted;
        let ghost dc0 = self.data_cursor;
        let ghost total = scan_frames(s0, c0 as nat, self.count as nat, dc0 as nat);
        loop
            invariant
                chunk@.len() > 0,
                s0 == old(self).pending() + chunk@,
                c0 == old(self).counted,
                dc0 == old(self).data_cursor,
                self.reader.wf(),
                self.count == old(self).count,
                self.base_count == old(self).base_count,
                total == scan_frames(s0, c0 as nat, self.count as nat, dc0 as nat),
                self.count == 0 || self.counted < self.count,
                scan_frames(self.reader@, self.counted as nat, self.count as nat, self.data_cursor as nat)
                    == total,
                self.data_cursor + self.reader@.len() <= u64::MAX,
                self.base_count + self.counted + self.reader@.len() <= u64::MAX,
            decreases self.reader@.len(),
        {
            let ghost s = self.reader@;
            match self.reader.next_message_vec() {
                Some(v) => {
                    let ghost n = next_frame_len(s)->0;
                    proof {
                        assert(n > 0) by {
                            crate::common::protobuf_utils::lemma_next_frame_len_pos(s);
                        }
                    }
                    self.counted += 1;
                    self.data_cursor += v.len() as u64;
                    if self.counted == self.count {
                        return ScanStep::Done(self.data_cursor, self.base_count + self.counted);
                    }
                },
                None => {
                    if self.reader.is_empty() {
                        return ScanStep::Done(self.data_cursor, self.base_count + self.counted);
                    }
                    return ScanStep::Continue;
                },
            }
        }
    }
}

impl LogInnerManager {
    /// The bookkeeping of a new, empty log file whose first record will have
    /// log index `start_index`, and the first 256 bytes to write into it:
    /// the header, then zeros. The file is then grown to
    /// `LOG_DATA_BUF_SIZE` and scanned from the data area with `MoveScan`.
    pub fn init_new(start_index: u64) -> (r: (Self, Vec<u8>))
        ensures
            r.0.header == LogIndexHeaderDo::spec_default(),
            r.0.indexs@ == seq![InnerIdxDto { log_index: start_index, file_index: LOG_DATA_AREA_START }],
            r.0.start_index == start_index,
            r.0.index_cursor == LOG_INDEX_AREA_START,
            r.0.file_len == LOG_DATA_BUF_SIZE,
            r.0.data_cursor == LOG_DATA_AREA_START,
            r.0.msg_count == 0,
            r.0.current_index_count == 0,
            !r.0.need_seek_at_write,
            r.0.wf(),
            r.1@.len() == 256,
            r.1@.subrange(0, 32) == crate::raft::filestore::model::log_header_bytes(r.0.header),
            forall|i: int| 32 <= i < 256 ==> r.1@[i] == 0,
    {
        let header = LogIndexHeaderDo::new();
        let mut block = header.to_bytes();
        while block.len() < 256
            invariant
                32 <= block@.len() <= 256,
                block@.subrange(0, 32) == crate::raft::filestore::model::log_header_bytes(header),
                forall|i: int| 32 <= i < block@.len() ==> block@[i] == 0,
            decreases 256 - block@.len(),
        {
            block.push(0u8);
            proof {
                assert(block@.subrange(0, 32) == block@.drop_last().subrange(0, 32));
            }
        }
        let mut indexs: Vec<InnerIdxDto> = Vec::new();
        indexs.push(InnerIdxDto { log_index: start_index, file_index: LOG_DATA_AREA_START });
        let m = LogInnerManager {
            header,
            indexs,
            start_index,
            index_cursor: LOG_INDEX_AREA_START,
            file_len: LOG_DATA_BUF_SIZE,
            data_cursor: LOG_DATA_AREA_START,
            msg_count: 0,
            current_index_count: 0,
            need_seek_at_write: false,
        };
        (m, block)
    }

    /// The bookkeeping of an existing log file of length `file_len`, from the
    /// first bytes of the file (`head`, zero padded to 4106 bytes when the
    /// file is shorter): its header, and its index read from offset 24 on.
    /// The file is then scanned from the last index entry with `MoveScan`.
    pub fn init_loaded(head: &[u8], file_len: u64, start_index: u64) -> (r: Result<Self, LogInitError>)
        ensures
            head@.len() < 34 ==> r == Err::<Self, LogInitError>(LogInitError::HeadTooShort),
            head@.len() >= 34 ==> {
                let first = InnerIdxDto { log_index: start_index, file_index: LOG_DATA_AREA_START };
                let area = head@.subrange(24, head@.len() as int);
                let header = crate::raft::filestore::model::log_header_of(head@);
                match read_varint(area) {
                    None => r == Err::<Self, LogInitError>(LogInitError::Index(IndexReadError::BadVarint)),
                    Some((v, _)) => {
                        let (d, end) = index_scan(area, 0, v);
                        if index_entries_fit(first, header.index_interval as u64, d) {
                            &&& r is Ok
                            &&& r->Ok_0.header == header
                            &&& r->Ok_0.indexs@.len() == d.len() + 1
                            &&& forall|k: int| 0 <= k <= d.len() ==> #[trigger] r->Ok_0.indexs@[k]
                                == index_entry(first, header.index_interval as u64, d, k as nat)
                            &&& r->Ok_0.index_cursor == end + 24
                            &&& r->Ok_0.start_index == start_index
                            &&& r->Ok_0.file_len == file_len
                            &&& r->Ok_0.data_cursor == r->Ok_0.indexs@.last().file_index
                            &&& r->Ok_0.msg_count == 0
                            &&& r->Ok_0.current_index_count == 0
                            &&& !r->Ok_0.need_seek_at_write
                        } else {
                            r == Err::<Self, LogInitError>(LogInitError::Index(IndexReadError::Overflow))
                        }
                    },
                }
            },
    {
        if head.len() < 34 {
            return Err(LogInitError::HeadTooShort);
        }
        let header = match LogIndexHeaderDo::from_bytes(head) {
            Ok(h) => h,
            Err(_) => return Err(LogInitError::HeadTooShort),
        };
        let area = vstd::slice::slice_subrange(head, 24, head.len());
        let first = InnerIdxDto { log_index: start_index, file_index: LOG_DATA_AREA_START };
        let (indexs, offset) = match read_indexs(area, first, header.index_interval as u64) {
            Ok(x) => x,
            Err(e) => return Err(LogInitError::Index(e)),
        };
        proof {
            assert(area@ == head@.subrange(24, head@.len() as int));
        }
        let n = indexs.len();
        let data_cursor = indexs[n - 1].file_index;
        Ok(LogInnerManager {
            header,
            indexs,
            start_index,
            index_cursor: offset + 24,
            file_len,
            data_cursor,
            msg_count: 0,
            current_index_count: 0,
            need_seek_at_write: false,
        })
    }

    /// Completes opening a file once its data area has been scanned: the
    /// cursor and record count that the scan found become the file's, and
    /// the count modulo the index interval the count since the last entry.
    pub fn finish_init(&mut self, data_cursor: u64, msg_count: u64)
        requires
            old(self).header.index_interval > 0,
            old(self).indexs@.len() >= 1,
            old(self).indexs@.last().file_index <= data_cursor,
            old(self).index_cursor < 0x1_0000_0000,
            old(self).start_index + msg_count <= u64::MAX,
        ensures
            final(self).wf(),
            final(self).data_cursor == data_cursor,
            final(self).msg_count == msg_count,
            final(self).current_index_count == msg_count % (old(self).header.index_interval as u64),
            final(self).indexs == old(self).indexs,
            final(self).header == old(self).header,
            final(self).start_index == old(self).start_index,
            final(self).index_cursor == old(self).index_cursor,
            final(self).file_len == old(self).file_len,
            final(self).need_seek_at_write == old(self).need_seek_at_write,
    {
        self.data_cursor = data_cursor;
        self.msg_count = msg_count;
        self.current_index_count = (msg_count % (self.header.index_interval as u64)) as u16;
    }
}

/// Where to read records in a log file: skip `skip` stored records from
/// byte `from` on, then take `count` records.
#[derive(Clone, Copy, Debug, PartialEq, Eq)]
pub struct ReadPlan {
    pub from: u64,
    pub skip: u64,
    pub count: u64,
}

/// The smaller of two numbers.
pub open spec fn min_int(a: int, b: int) -> int {
    if a <= b {
        a
    } else {
        b
    }
}

/// The frames that `decode_records` decodes.
pub open spec fn selected_frames(s: Seq<u8>, skip: nat, count: nat) -> Seq<Seq<u8>> {
    let fs = frames_of(s);
    let lo = min_int(skip as int, fs.len() as int);
    let hi = min_int(lo + count, fs.len() as int);
    fs.subrange(lo, hi)
}

/// On sorted entries that start at or before `start`, the search settles on
/// an entry at or before `start`.
pub(crate) proof fn lemma_start_entry_le(idx: Seq<InnerIdxDto>, start: u64)
    requires
        idx.len() >= 1,
        idx[0].log_index <= start,
    ensures
        0 <= start_entry_pos(idx, start) < idx.len(),
        idx[start_entry_pos(idx, start)].log_index <= start,
{
    // the last entry at or before `start` among the first ones is a witness
    assert(exists|i: int| 0 <= i < idx.len() && #[trigger] idx[i].log_index <= start && (i + 1
        == idx.len() || idx[i + 1].log_index > start)) by {
        lemma_last_le_exists(idx, start, 0);
    }
}

proof fn lemma_last_le_exists(idx: Seq<InnerIdxDto>, start: u64, k: int)
    requires
        0 <= k < idx.len(),
        idx[k].log_index <= start,
    ensures
        exists|i: int| 0 <= i < idx.len() && #[trigger] idx[i].log_index <= start && (i + 1
            == idx.len() || idx[i + 1].log_index > start),
    decreases idx.len() - k,
{
    if k + 1 < idx.len() && idx[k + 1].log_index <= start {
        lemma_last_le_exists(idx, start, k + 1);
    } else {
        assert(idx[k].log_index <= start && (k + 1 == idx.len() || idx[k + 1].log_index > start));
    }
}

impl LogInnerManager {
    /// Equal to `other` in everything but the seek flag.
    pub open spec fn same_but_seek(&self, other: LogInnerManager) -> bool {
        &&& self.header == other.header
        &&& self.indexs == other.indexs
        &&& self.start_index == other.start_index
        &&& self.index_cursor == other.index_cursor
        &&& self.file_len == other.file_len
        &&& self.data_cursor == other.data_cursor
        &&& self.msg_count == other.msg_count
        &&& self.current_index_count == other.current_index_count
    }

    /// Plans reading the records with log index in `[start, end)`, clamped to
    /// the records in the file; `None` when none is left. A read moves the
    /// file position, so the next write seeks first.
    pub fn plan_read(&mut self, start: u64, end: u64) -> (r: Option<ReadPlan>)
        requires
            old(self).wf(),
            indexs_sorted(old(self).indexs@),
            old(self).indexs@[0].log_index <= old(self).start_index,
        ensures
            ({
                let s = if start >= old(self).start_index { start } else { old(self).start_index };
                let e = if end <= old(self).end_index() { end as int } else { old(self).end_index() };
                let entry = old(self).indexs@[start_entry_pos(old(self).indexs@, s)];
                &&& s >= e ==> r is None && *final(self) == *old(self)
                &&& s < e ==> r == Some(ReadPlan {
                    from: entry.file_index,
                    skip: (s - entry.log_index) as u64,
                    count: (e - s) as u64,
                }) && final(self).need_seek_at_write && final(self).same_but_seek(*old(self))
            }),
    {
        let end_index = self.get_end_index();
        let start = if start >= self.start_index { start } else { self.start_index };
        let end = if end <= end_index { end } else { end_index };
        if start >= end {
            return None;
        }
        let index = *self.get_start_index(start);
        proof {
            lemma_start_entry_le(self.indexs@, start);
        }
        self.need_seek_at_write = true;
        Some(ReadPlan { from: index.file_index, skip: start - index.log_index, count: end - start })
    }

    /// Plans loading the records with log index in `[start, end)`: nothing
    /// unless the range is non-empty and lies within the file.
    pub fn plan_load(&mut self, start: u64, end: u64) -> (r: Option<ReadPlan>)
        requires
            old(self).wf(),
            indexs_sorted(old(self).indexs@),
            old(self).indexs@[0].log_index <= old(self).start_index,
        ensures
            ({
                let ok = start < end && start < old(self).end_index() && start >= old(self).start_index
                    && end <= old(self).end_index();
                let entry = old(self).indexs@[start_entry_pos(old(self).indexs@, start)];
                &&& !ok ==> r is None && *final(self) == *old(self)
                &&& ok ==> r == Some(ReadPlan {
                    from: entry.file_index,
                    skip: (start - entry.log_index) as u64,
                    count: (end - start) as u64,
                }) && final(self).need_seek_at_write && final(self).same_but_seek(*old(self))
            }),
    {
        let end_index = self.start_index + self.msg_count;
        if start >= end || start >= end_index {
            return None;
        }
        if start < self.start_index || end > end_index {
            return None;
        }
        let index = *self.get_start_index(start);
        proof {
            lemma_start_entry_le(self.indexs@, start);
        }
        self.need_seek_at_write = true;
        Some(ReadPlan { from: index.file_index, skip: start - index.log_index, count: end - start })
    }
}

/// Decodes the stored records that a read plan selects from `buf`, the
/// bytes of the data file from the plan's `from` on: `skip` frames are
/// passed over, then up to `count` frames are decoded; the stream ends at an
/// incomplete frame or at the end mark.
pub fn decode_records(buf: &[u8], skip: u64, count: u64) -> (r: Result<Vec<LogRecordDto>, DecodeError>)
    ensures
        ({
            let sel = selected_frames(buf@, skip as nat, count as nat);
            if forall|i: int| 0 <= i < sel.len() ==> #[trigger] log_record_decode(sel[i]) is Some {
                &&& r is Ok
                &&& r->Ok_0@.len() == sel.len()
                &&& forall|i: int|
                    0 <= i < sel.len() ==> #[trigger] r->Ok_0@[i]@ == log_record_decode(sel[i])->0
            } else {
                r is Err
            }
        }),
{
    let ghost all = frames_of(buf@);
    let blen = buf.len();
    let mut pos: usize = 0;
    let mut skipped: u64 = 0;
    assert(buf@.subrange(0, buf@.len() as int) =~= buf@);
    assert(all.subrange(0, all.len() as int) =~= all);
    while skipped < skip
        invariant
            blen == buf@.len(),
            pos <= buf@.len(),
            skipped <= skip,
            skipped <= all.len(),
            frames_of(buf@.subrange(pos as int, buf@.len() as int)) == all.subrange(skipped as int, all.len() as int),
        ensures
            pos <= buf@.len(),
            skipped <= skip,
            skipped <= all.len(),
            frames_of(buf@.subrange(pos as int, buf@.len() as int)) == all.subrange(skipped as int, all.len() as int),
            skipped == skip || skipped == all.len(),
        decreases skip - skipped,
    {
        let ghost rest = buf@.subrange(pos as int, buf@.len() as int);
        match frame_len_at(buf, pos) {
            Some(n) => {
                proof {
                    lemma_frames_of_step(rest, n as nat);
                    assert(rest.subrange(n as int, rest.len() as int) == buf@.subrange(
                        (pos + n) as int,
                        buf@.len() as int,
                    ));
                    assert(all.subrange(skipped + 1, all.len() as int) == all.subrange(
                        skipped as int,
                        all.len() as int,
                    ).drop_first());
                }
                pos = pos + n;
                skipped += 1;
            },
            None => {
                proof {
                    lemma_frames_of_none(rest);
                    assert(all.subrange(skipped as int, all.len() as int).len() == 0);
                }
                break;
            },
        }
    }
    let ghost lo = skipped as int;
    let ghost sel = selected_frames(buf@, skip as nat, count as nat);
    proof {
        assert(lo == min_int(skip as int, all.len() as int));
    }
    let mut out: Vec<LogRecordDto> = Vec::new();
    let mut taken: u64 = 0;
    while taken < count
        invariant
            all == frames_of(buf@),
            blen == buf@.len(),
            pos <= buf@.len(),
            lo == min_int(skip as int, all.len() as int),
            sel == selected_frames(buf@, skip as nat, count as nat),
            taken <= count,
            lo + taken <= all.len(),
            frames_of(buf@.subrange(pos as int, buf@.len() as int)) == all.subrange(lo + taken, all.len() as int),
            out@.len() == taken,
            forall|i: int| 0 <= i < taken ==> log_record_decode(#[trigger] sel[i]) is Some && out@[i]@
                == log_record_decode(sel[i])->0,
        ensures
            out@.len() == taken,
            lo + taken <= all.len(),
            taken == count || lo + taken == all.len(),
            forall|i: int| 0 <= i < taken ==> log_record_decode(#[trigger] sel[i]) is Some && out@[i]@
                == log_record_decode(sel[i])->0,
        decreases count - taken,
    {
        let ghost rest = buf@.subrange(pos as int, buf@.len() as int);
        match frame_len_at(buf, pos) {
            Some(n) => {
                let frame = vstd::slice::slice_subrange(buf, pos, pos + n);
                proof {
                    lemma_frames_of_step(rest, n as nat);
                    assert(rest.subrange(n as int, rest.len() as int) == buf@.subrange(
                        (pos + n) as int,
                        buf@.len() as int,
                    ));
                    assert(frame@ == rest.subrange(0, n as int));
                    assert(frames_of(rest)[0] == rest.subrange(0, n as int));
                    assert(all.subrange(lo + taken, all.len() as int)[0] == all[lo + taken]);
                    assert(all[lo + taken] == frame@);
                    assert(lo + taken < all.len());
                    let hi = min_int(lo + count, all.len() as int);
                    assert(sel == all.subrange(lo, hi));
                    assert(taken < hi - lo);
                    assert(sel[taken as int] == all[lo + taken]);
                    assert(all.subrange(lo + taken + 1, all.len() as int) == all.subrange(
                        lo + taken,
                        all.len() as int,
                    ).drop_first());
                }
                match decode_log_record(frame) {
                    Ok(rec) => {
                        out.push(rec);
                    },
                    Err(e) => {
                        proof {
                            assert(log_record_decode(sel[taken as int]) is None);
                        }
                        return Err(e);
                    },
                }
                pos = pos + n;
                taken += 1;
            },
            None => {
                proof {
                    lemma_frames_of_none(rest);
                    assert(all.subrange(lo + taken, all.len() as int).len() == 0);
                }
                break;
            },
        }
    }
    proof {
        assert(sel.len() == taken);
    }
    Ok(out)
}
} // verus!
