use vstd::prelude::*;
use crate::raft::filestore::model::LogRecordDto;
use crate::raft::filestore::raftlog::LogWriteMark;
use crate::raft::filestore::records::LogRange;
use crate::raft::filestore::raftindex::RaftIndexRequest;

verus! {

// ---- one log file's writer ----

/// What a write into one log file tells the log manager.
pub enum LogWriteResult {
    /// Written; the file can take more.
    Success,
    /// Written; the file is now full and the next log starts at this index.
    SuccessToEnd(u64),
    /// Not written, the file being full: the next log starts at this index
    /// and the record is handed back.
    Failure(u64, LogRecordDto),
    /// A batch stopped at a full file: the next log starts at this index,
    /// and the records from this position on are still to be written.
    FailureBatch(u64, usize),
    /// Writing failed.
    Error,
}

/// The result of one write into a log file whose records now end at
/// `end_index`.
pub fn write_result(mark: LogWriteMark, end_index: u64, record: LogRecordDto) -> (r: LogWriteResult)
    ensures
        match mark {
            LogWriteMark::Success => r is Success,
            LogWriteMark::SuccessToEnd => r matches LogWriteResult::SuccessToEnd(e) && e == end_index,
            LogWriteMark::Failure => r matches LogWriteResult::Failure(e, x) && e == end_index && x == record,
            LogWriteMark::Error => r is Error,
        },
{
    match mark {
        LogWriteMark::Success => LogWriteResult::Success,
        LogWriteMark::SuccessToEnd => LogWriteResult::SuccessToEnd(end_index),
        LogWriteMark::Failure => LogWriteResult::Failure(end_index, record),
        LogWriteMark::Error => LogWriteResult::Error,
    }
}

/// One record of a batch was written with `mark`: a full file stops the
/// batch, anything else moves on to the next record.
pub fn batch_step(last_index: usize, mark: LogWriteMark) -> (r: (bool, usize))
    requires
        last_index < usize::MAX,
    ensures
        mark == LogWriteMark::Failure ==> r == (true, last_index),
        mark != LogWriteMark::Failure ==> r == (false, (last_index + 1) as usize),
{
    match mark {
        LogWriteMark::Failure => (true, last_index),
        _ => (false, last_index + 1),
    }
}

/// The result of a batch whose last write gave `mark`, after `last_index`
/// records of a list of `len`: a file filled by the last record of the
/// list ends the log, one filled earlier leaves the rest for the next log.
pub fn batch_result(mark: LogWriteMark, last_index: usize, len: usize, end_index: u64) -> (r: LogWriteResult)
    requires
        last_index < usize::MAX,
    ensures
        match mark {
            LogWriteMark::Success => r is Success,
            LogWriteMark::SuccessToEnd => if last_index + 1 == len {
                r matches LogWriteResult::SuccessToEnd(e) && e == end_index
            } else {
                r matches LogWriteResult::FailureBatch(e, p) && e == end_index && p == last_index + 1
            },
            LogWriteMark::Failure => r matches LogWriteResult::FailureBatch(e, p) && e == end_index && p
                == last_index,
            LogWriteMark::Error => r is Error,
        },
{
    match mark {
        LogWriteMark::Success => LogWriteResult::Success,
        LogWriteMark::SuccessToEnd => {
            if last_index + 1 == len {
                LogWriteResult::SuccessToEnd(end_index)
            } else {
                LogWriteResult::FailureBatch(end_index, last_index + 1)
            }
        },
        LogWriteMark::Failure => LogWriteResult::FailureBatch(end_index, last_index),
        LogWriteMark::Error => LogWriteResult::Error,
    }
}

// ---- the log manager: the log files of the raft index ----

/// The first index after a log range: the end of a closed log, and no end
/// for the open one.
pub open spec fn range_end(r: LogRange) -> u64 {
    if r.is_close {
        (r.start_index + r.record_count) as u64
    } else {
        u64::MAX
    }
}

/// A closed log's end fits in a `u64`.
pub open spec fn range_fits(r: LogRange) -> bool {
    r.is_close ==> r.start_index + r.record_count <= u64::MAX
}

/// The first index after a log range.
pub fn get_log_range_end_index(r: &LogRange) -> (e: u64)
    requires
        range_fits(*r),
    ensures
        e == range_end(*r),
{
    if r.is_close {
        r.start_index + r.record_count
    } else {
        u64::MAX
    }
}

/// What the log manager asks of the log file writers and the index manager.
pub struct LogManagerEffects {
    /// Log files whose writers are to be started: id and first index.
    pub open: Vec<(u64, u64)>,
    /// Log files that are to strip their records after an index.
    pub strip: Vec<u64>,
    /// Log files that are asked for their records, in order.
    pub targets: Vec<u64>,
    /// Requests for the index manager.
    pub index_requests: Vec<RaftIndexRequest>,
}

/// The log manager: the log files of the raft index, which of them have a
/// running writer, and the one that takes new records.
pub struct RaftLogManager {
    pub logs: Vec<LogRange>,
    pub opened: Vec<bool>,
    pub current: Option<u64>,
}

/// Where the longest run of log ranges at the end that reach past `start`
/// begins.
pub open spec fn open_suffix_start(rs: Seq<LogRange>, start: u64) -> int
    decreases rs.len(),
{
    if rs.len() == 0 {
        0
    } else if range_end(rs.last()) > start {
        open_suffix_start(rs.drop_last(), start)
    } else {
        rs.len() as int
    }
}

/// How many logs from the first one reach past `end_index`.
pub open spec fn strip_run(rs: Seq<LogRange>, end_index: u64) -> int {
    if exists|k: int| 0 <= k < rs.len() && end_index >= range_end(#[trigger] rs[k]) {
        choose|k: int|
            0 <= k < rs.len() && end_index >= range_end(#[trigger] rs[k]) && forall|m: int|
                0 <= m < k ==> end_index < range_end(#[trigger] rs[m])
    } else {
        rs.len() as int
    }
}

/// How many of the first `k` logs start after `end_index`.
pub open spec fn pop_count(rs: Seq<LogRange>, end_index: u64, k: int) -> int
    decreases k,
{
    if k <= 0 {
        0
    } else {
        pop_count(rs, end_index, k - 1) + if end_index < rs[k - 1].start_index {
            1int
        } else {
            0int
        }
    }
}

/// Where the scan of `strip_log_to_index` stops.
proof fn lemma_strip_run(rs: Seq<LogRange>, end_index: u64, i: int, done: bool)
    requires
        0 <= i <= rs.len(),
        forall|k: int| 0 <= k < i ==> end_index < range_end(#[trigger] rs[k]),
        done ==> i < rs.len() && end_index >= range_end(rs[i]),
        !done ==> i == rs.len(),
    ensures
        strip_run(rs, end_index) == i,
{
    if done {
        assert(exists|k: int| 0 <= k < rs.len() && end_index >= range_end(#[trigger] rs[k]));
        let c = choose|k: int|
            0 <= k < rs.len() && end_index >= range_end(#[trigger] rs[k]) && forall|m: int|
                0 <= m < k ==> end_index < range_end(#[trigger] rs[m]);
        assert(0 <= i < rs.len() && end_index >= range_end(rs[i]) && forall|m: int|
            0 <= m < i ==> end_index < range_end(#[trigger] rs[m]));
        if c < i {
            assert(end_index < range_end(rs[c]));
        }
        if c > i {
            assert(end_index < range_end(rs[i]));
        }
    } else {
        if exists|k: int| 0 <= k < rs.len() && end_index >= range_end(#[trigger] rs[k]) {
            let k = choose|k: int| 0 <= k < rs.len() && end_index >= range_end(#[trigger] rs[k]);
            assert(end_index < range_end(rs[k]));
        }
    }
}

/// The ids of log ranges, in order.
pub open spec fn range_ids(rs: Seq<LogRange>) -> Seq<u64> {
    rs.map_values(|r: LogRange| r.id)
}

/// The log ranges that a read of `[start, end)` asks: a range is asked
/// when the read starts before its end or ends at or after its start (so
/// nearly every range is asked).
pub open spec fn read_selects(r: LogRange, start: u64, end: u64) -> bool {
    start < range_end(r) || end >= r.start_index
}

/// The ids of the log ranges that a read of `[start, end)` asks.
pub open spec fn selected_ids(rs: Seq<LogRange>, start: u64, end: u64) -> Seq<u64>
    decreases rs.len(),
{
    if rs.len() == 0 {
        Seq::empty()
    } else if read_selects(rs.last(), start, end) {
        selected_ids(rs.drop_last(), start, end).push(rs.last().id)
    } else {
        selected_ids(rs.drop_last(), start, end)
    }
}

/// `f` is `o` after the current log was closed at `next_index` and the next
/// one started, and `e` is the work that asks for: the last log is marked
/// closed with the records up to `next_index`, a new open log with the next
/// id starts there, the index manager stores the ranges, and the new log's
/// writer takes new records.
pub open spec fn switched_log(o: RaftLogManager, f: RaftLogManager, next_index: u64, e: LogManagerEffects) -> bool {
    let n = o.logs@.len();
    let id: u64 = if n > 0 {
        (o.logs@.last().id + 1) as u64
    } else {
        0
    };
    let fresh = LogRange {
        id,
        pre_term: 0,
        start_index: next_index,
        record_count: 0,
        split_off_index: 0,
        is_close: false,
        mark_remove: false,
    };
    let closed = if n > 0 {
        o.logs@.update(
            n - 1,
            LogRange {
                is_close: true,
                record_count: (next_index - o.logs@.last().start_index) as u64,
                ..o.logs@.last()
            },
        )
    } else {
        o.logs@
    };
    &&& f.logs@ == closed.push(fresh)
    &&& f.opened@ == o.opened@.push(true)
    &&& f.current == Some(id)
    &&& e.open@ == seq![(id, next_index)]
    &&& e.index_requests@.len() == 1
    &&& e.index_requests@[0] matches RaftIndexRequest::SaveLogs(l) && l@ == f.logs@
    &&& e.strip@.len() == 0 && e.targets@.len() == 0
}

/// The log ranges follow one another: ids increase, and every log but the
/// last is closed where the next one starts.
pub open spec fn logs_chained(rs: Seq<LogRange>) -> bool {
    &&& forall|i: int, j: int| 0 <= i < j < rs.len() ==> #[trigger] rs[i].id < #[trigger] rs[j].id
    &&& forall|i: int|
        0 <= i < rs.len() - 1 ==> #[trigger] rs[i].is_close && range_end(rs[i]) == rs[i + 1].start_index
}

/// Switching to a new log keeps the logs chained: the current log is closed
/// where the new one starts, and the new one, open, has the next id.
pub proof fn law_switch_keeps_chain(o: RaftLogManager, f: RaftLogManager, next_index: u64, e: LogManagerEffects)
    requires
        logs_chained(o.logs@),
        o.logs@.len() > 0 ==> o.logs@.last().start_index <= next_index && o.logs@.last().id < u64::MAX,
        switched_log(o, f, next_index, e),
    ensures
        logs_chained(f.logs@),
        !f.logs@.last().is_close,
        f.logs@.last().start_index == next_index,
{
    let n = o.logs@.len();
    let rs = f.logs@;
    assert forall|i: int, j: int| 0 <= i < j < rs.len() implies #[trigger] rs[i].id < #[trigger] rs[j].id by {
        if j < n as int {
            assert(rs[i].id == o.logs@[i].id && rs[j].id == o.logs@[j].id);
        } else if n > 0 {
            assert(rs[i].id == o.logs@[i].id);
            if i < n - 1 {
                assert(o.logs@[i].id < o.logs@[n - 1].id);
            }
        }
    }
    assert forall|i: int| 0 <= i < rs.len() - 1 implies #[trigger] rs[i].is_close && range_end(rs[i])
        == rs[i + 1].start_index by {
        if i < n - 1 {
            assert(rs[i] == o.logs@[i]);
            assert(rs[i + 1].start_index == o.logs@[i + 1].start_index);
        }
    }
}

impl RaftLogManager {
    pub open spec fn wf(&self) -> bool {
        &&& self.opened@.len() == self.logs@.len()
        &&& forall|i: int| 0 <= i < self.logs@.len() ==> range_fits(#[trigger] self.logs@[i])
    }

    /// A manager with no log files yet.
    pub fn new() -> (r: Self)
        ensures
            r.wf(),
            r.logs@.len() == 0,
            r.current is None,
    {
        RaftLogManager { logs: Vec::new(), opened: Vec::new(), current: None }
    }

    /// Takes the log ranges of the loaded index and starts a writer for each
    /// log, from the last one back, whose records reach past the last
    /// snapshot; the last log's writer takes new records.
    pub fn build_log_actor(&mut self, logs: Vec<LogRange>, last_snapshot_end: Option<u64>) -> (r: LogManagerEffects)
        requires
            old(self).wf(),
            forall|i: int| 0 <= i < logs@.len() ==> range_fits(#[trigger] logs@[i]),
            last_snapshot_end matches Some(e) ==> e < u64::MAX,
        ensures
            final(self).wf(),
            final(self).logs@ == logs@,
            r.strip@.len() == 0 && r.targets@.len() == 0 && r.index_requests@.len() == 0,
            ({
                let start: u64 = match last_snapshot_end {
                    Some(e) => (e + 1) as u64,
                    None => 0,
                };
                let from = open_suffix_start(logs@, start);
                &&& forall|i: int| 0 <= i < logs@.len() ==> (#[trigger] final(self).opened@[i] <==> from <= i)
                &&& r.open@ == logs@.subrange(from, logs@.len() as int).reverse().map_values(
                    |l: LogRange| (l.id, l.start_index),
                )
                &&& logs@.len() > 0 ==> final(self).current == if from < logs@.len() {
                    Some(logs@[logs@.len() - 1].id)
                } else {
                    None::<u64>
                }
                &&& logs@.len() == 0 ==> final(self).current == old(self).current
            }),
    {
        let n = logs.len();
        let mut opened: Vec<bool> = Vec::new();
        let mut i: usize = 0;
        while i < n
            invariant
                i <= n == logs@.len(),
                opened@.len() == i,
                forall|k: int| 0 <= k < i ==> !#[trigger] opened@[k],
            decreases n - i,
        {
            opened.push(false);
            i += 1;
        }
        let mut open: Vec<(u64, u64)> = Vec::new();
        if n == 0 {
            self.logs = logs;
            self.opened = opened;
            proof {
                assert(open@ =~= logs@.subrange(0, 0).reverse().map_values(|l: LogRange| (l.id, l.start_index)));
            }
            return LogManagerEffects { open, strip: Vec::new(), targets: Vec::new(), index_requests: Vec::new() };
        }
        let start: u64 = match last_snapshot_end {
            Some(e) => e + 1,
            None => 0,
        };
        let mut j: usize = n;
        let mut done = false;
        assert(logs@.subrange(0, n as int) == logs@);
        assert(open@ =~= logs@.subrange(n as int, n as int).reverse().map_values(|l: LogRange| (l.id, l.start_index)));
        while j > 0 && !done
            invariant
                j <= n == logs@.len(),
                opened@.len() == n,
                forall|k: int| 0 <= k < n ==> range_fits(#[trigger] logs@[k]),
                forall|k: int| 0 <= k < n ==> (#[trigger] opened@[k] <==> j <= k),
                open_suffix_start(logs@, start) == open_suffix_start(logs@.subrange(0, j as int), start),
                done ==> j > 0 && open_suffix_start(logs@.subrange(0, j as int), start) == j,
                open@ == logs@.subrange(j as int, n as int).reverse().map_values(|l: LogRange| (l.id, l.start_index)),
            decreases 2 * j + if done { 0int } else { 1int },
        {
            let e = get_log_range_end_index(&logs[j - 1]);
            proof {
                assert(logs@.subrange(0, j as int).drop_last() == logs@.subrange(0, j as int - 1));
                assert(logs@.subrange(0, j as int).last() == logs@[j - 1]);
            }
            if e > start {
                opened.set(j - 1, true);
                open.push((logs[j - 1].id, logs[j - 1].start_index));
                proof {
                    assert(open@ =~= logs@.subrange(j as int - 1, n as int).reverse().map_values(
                        |l: LogRange| (l.id, l.start_index),
                    ));
                }
                j -= 1;
            } else {
                done = true;
            }
        }
        proof {
            if !done {
                assert(logs@.subrange(0, 0) =~= Seq::<LogRange>::empty());
            }
        }
        self.current = if opened[n - 1] {
            Some(logs[n - 1].id)
        } else {
            None
        };
        self.logs = logs;
        self.opened = opened;
        LogManagerEffects { open, strip: Vec::new(), targets: Vec::new(), index_requests: Vec::new() }
    }

    /// The log files that a read of `[start, end)` asks, in order; each one
    /// without a writer gets one started.
    pub fn select_for_read(&mut self, start: u64, end: u64) -> (r: LogManagerEffects)
        requires
            old(self).wf(),
        ensures
            final(self).wf(),
            final(self).logs == old(self).logs,
            final(self).current == old(self).current,
            r.targets@ == selected_ids(old(self).logs@, start, end),
            forall|i: int| 0 <= i < old(self).logs@.len() ==> #[trigger] final(self).opened@[i] == (old(self).opened@[i]
                || read_selects(old(self).logs@[i], start, end)),
            r.strip@.len() == 0 && r.index_requests@.len() == 0,
    {
        let n = self.logs.len();
        let mut targets: Vec<u64> = Vec::new();
        let mut open: Vec<(u64, u64)> = Vec::new();
        let mut i: usize = 0;
        while i < n
            invariant
                i <= n == self.logs@.len(),
                self.logs == old(self).logs,
                self.current == old(self).current,
                self.opened@.len() == n,
                forall|k: int| 0 <= k < n ==> range_fits(#[trigger] self.logs@[k]),
                targets@ == selected_ids(self.logs@.subrange(0, i as int), start, end),
                forall|k: int| 0 <= k < n ==> #[trigger] self.opened@[k] == (old(self).opened@[k] || (k < i
                    && read_selects(old(self).logs@[k], start, end))),
            decreases n - i,
        {
            let item = self.logs[i];
            let e = get_log_range_end_index(&item);
            proof {
                assert(self.logs@.subrange(0, i as int + 1).drop_last() == self.logs@.subrange(0, i as int));
                assert(self.logs@.subrange(0, i as int + 1).last() == self.logs@[i as int]);
            }
            if start < e || end >= item.start_index {
                if !self.opened[i] {
                    open.push((item.id, item.start_index));
                    self.opened.set(i, true);
                }
                targets.push(item.id);
            }
            i += 1;
        }
        assert(self.logs@.subrange(0, n as int) == self.logs@);
        LogManagerEffects { open, strip: Vec::new(), targets, index_requests: Vec::new() }
    }

    /// Closes the current log at `next_index` and starts the next one: the
    /// last log is marked closed with the records up to `next_index`, a new
    /// open log with the next id starts there, the index manager stores the
    /// ranges, and the new log's writer takes new records.
    pub fn switch_new_log(&mut self, next_index: u64) -> (r: LogManagerEffects)
        requires
            old(self).wf(),
            old(self).logs@.len() > 0 ==> old(self).logs@.last().start_index <= next_index,
            old(self).logs@.len() > 0 ==> old(self).logs@.last().id < u64::MAX,
        ensures
            final(self).wf(),
            switched_log(*old(self), *final(self), next_index, r),
    {
        let n = self.logs.len();
        let next_log_id: u64 = if n > 0 {
            let mut last = self.logs[n - 1];
            last.is_close = true;
            last.record_count = next_index - last.start_index;
            let id = last.id + 1;
            self.logs.set(n - 1, last);
            id
        } else {
            0
        };
        let fresh = LogRange {
            id: next_log_id,
            pre_term: 0,
            start_index: next_index,
            record_count: 0,
            split_off_index: 0,
            is_close: false,
            mark_remove: false,
        };
        self.logs.push(fresh);
        self.opened.push(true);
        self.current = Some(next_log_id);
        let mut index_requests: Vec<RaftIndexRequest> = Vec::new();
        index_requests.push(RaftIndexRequest::SaveLogs(self.logs.clone()));
        let mut open: Vec<(u64, u64)> = Vec::new();
        open.push((next_log_id, next_index));
        proof {
            assert forall|k: int| 0 <= k < self.logs@.len() implies range_fits(#[trigger] self.logs@[k]) by {
                if k < n as int - 1 {
                    assert(self.logs@[k] == old(self).logs@[k]);
                }
            }
        }
        LogManagerEffects { open, strip: Vec::new(), targets: Vec::new(), index_requests }
    }

    /// Follows up a single write: a filled log is closed and the next one
    /// started; a record refused by a full log is handed back to be written
    /// once more into the next log when `can_rewrite` holds.
    pub fn on_write_result(&mut self, result: LogWriteResult, can_rewrite: bool) -> (r: (
        Option<LogManagerEffects>,
        Option<LogRecordDto>,
    ))
        requires
            old(self).wf(),
            match result {
                LogWriteResult::SuccessToEnd(next) => old(self).logs@.len() > 0 ==> old(self).logs@.last().start_index
                    <= next && old(self).logs@.last().id < u64::MAX,
                LogWriteResult::Failure(next, _) => old(self).logs@.len() > 0 ==> old(self).logs@.last().start_index
                    <= next && old(self).logs@.last().id < u64::MAX,
                _ => true,
            },
        ensures
            final(self).wf(),
            match result {
                LogWriteResult::SuccessToEnd(next) => (r.0 matches Some(e) && switched_log(
                    *old(self),
                    *final(self),
                    next,
                    e,
                )) && r.1 is None,
                LogWriteResult::Failure(next, record) => (r.0 matches Some(e) && switched_log(
                    *old(self),
                    *final(self),
                    next,
                    e,
                )) && (can_rewrite ==> r.1 == Some(record)) && (!can_rewrite ==> r.1 is None),
                _ => r.0 is None && r.1 is None && *final(self) == *old(self),
            },
    {
        match result {
            LogWriteResult::SuccessToEnd(next) => (Some(self.switch_new_log(next)), None),
            LogWriteResult::Failure(next, record) => {
                let e = self.switch_new_log(next);
                if can_rewrite {
                    (Some(e), Some(record))
                } else {
                    (Some(e), None)
                }
            },
            _ => (None, None),
        }
    }

    /// Follows up a batch write: a filled log is closed and the next one
    /// started; a batch cut short by a full log resumes from the position
    /// handed back.
    pub fn on_write_batch_result(&mut self, result: LogWriteResult) -> (r: (Option<LogManagerEffects>, Option<usize>))
        requires
            old(self).wf(),
            match result {
                LogWriteResult::SuccessToEnd(next) => old(self).logs@.len() > 0 ==> old(self).logs@.last().start_index
                    <= next && old(self).logs@.last().id < u64::MAX,
                LogWriteResult::FailureBatch(next, _) => old(self).logs@.len() > 0
                    ==> old(self).logs@.last().start_index <= next && old(self).logs@.last().id < u64::MAX,
                _ => true,
            },
        ensures
            final(self).wf(),
            match result {
                LogWriteResult::SuccessToEnd(next) => (r.0 matches Some(e) && switched_log(
                    *old(self),
                    *final(self),
                    next,
                    e,
                )) && r.1 is None,
                LogWriteResult::FailureBatch(next, pos) => (r.0 matches Some(e) && switched_log(
                    *old(self),
                    *final(self),
                    next,
                    e,
                )) && r.1 == Some(pos),
                _ => r.0 is None && r.1 is None && *final(self) == *old(self),
            },
    {
        match result {
            LogWriteResult::SuccessToEnd(next) => (Some(self.switch_new_log(next)), None),
            LogWriteResult::FailureBatch(next, pos) => (Some(self.switch_new_log(next)), Some(pos)),
            _ => (None, None),
        }
    }

    /// Strips the records after `end_index`: going from the first log, each
    /// log whose records reach past `end_index` is asked to strip them, until
    /// the first log that does not; as many logs as started after
    /// `end_index` are then dropped from the end, and the last log left
    /// takes new records.
    pub fn strip_log_to_index(&mut self, end_index: u64) -> (r: LogManagerEffects)
        requires
            old(self).wf(),
        ensures
            final(self).wf(),
            ({
                let k = strip_run(old(self).logs@, end_index);
                let pop = pop_count(old(self).logs@, end_index, k);
                let n = old(self).logs@.len();
                &&& r.strip@ == range_ids(old(self).logs@.subrange(0, k))
                &&& pop == 0 ==> *final(self) == *old(self)
                &&& pop > 0 ==> {
                    &&& final(self).logs@ == old(self).logs@.subrange(0, n - pop)
                    &&& (n - pop > 0 ==> final(self).current == Some(old(self).logs@[n - pop - 1].id))
                    &&& (n - pop == 0 ==> final(self).current == old(self).current)
                }
            }),
    {
        let n = self.logs.len();
        let mut strip: Vec<u64> = Vec::new();
        let mut open: Vec<(u64, u64)> = Vec::new();
        let mut pop: usize = 0;
        let mut i: usize = 0;
        let mut done = false;
        while i < n && !done
            invariant
                i <= n == self.logs@.len(),
                n == self.opened@.len(),
                *self == *old(self),
                forall|k: int| 0 <= k < n ==> range_fits(#[trigger] self.logs@[k]),
                !done ==> forall|k: int| 0 <= k < i ==> end_index < range_end(#[trigger] self.logs@[k]),
                done ==> i < n && end_index >= range_end(self.logs@[i as int]) && forall|k: int| 0 <= k < i
                    ==> end_index < range_end(#[trigger] self.logs@[k]),
                strip@ == range_ids(self.logs@.subrange(0, i as int)),
                pop == pop_count(self.logs@, end_index, i as int),
                pop <= i,
            decreases 2 * (n - i) + if done { 0int } else { 1int },
        {
            let item = self.logs[i];
            let e = get_log_range_end_index(&item);
            if end_index < e {
                if !self.opened[i] {
                    open.push((item.id, item.start_index));
                }
                strip.push(item.id);
                proof {
                    assert(strip@ =~= range_ids(self.logs@.subrange(0, i as int + 1)));
                }
                if end_index < item.start_index {
                    pop += 1;
                }
                i += 1;
            } else {
                done = true;
            }
        }
        proof {
            lemma_strip_run(self.logs@, end_index, i as int, done);
        }
        if pop > 0 {
            let keep = n - pop;
            let mut logs: Vec<LogRange> = Vec::new();
            let mut opened: Vec<bool> = Vec::new();
            let mut j: usize = 0;
            while j < keep
                invariant
                    j <= keep <= n == self.logs@.len() == self.opened@.len(),
                    logs@ == self.logs@.subrange(0, j as int),
                    opened@ == self.opened@.subrange(0, j as int),
                decreases keep - j,
            {
                logs.push(self.logs[j]);
                opened.push(self.opened[j]);
                proof {
                    assert(logs@ =~= self.logs@.subrange(0, j as int + 1));
                    assert(opened@ =~= self.opened@.subrange(0, j as int + 1));
                }
                j += 1;
            }
            if keep > 0 {
                if !opened[keep - 1] {
                    open.push((logs[keep - 1].id, logs[keep - 1].start_index));
                    opened.set(keep - 1, true);
                }
                self.current = Some(logs[keep - 1].id);
            }
            self.logs = logs;
            self.opened = opened;
        }
        LogManagerEffects { open, strip, targets: Vec::new(), index_requests: Vec::new() }
    }
}

} // verus!
