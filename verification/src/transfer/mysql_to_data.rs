use vstd::prelude::*;
use crate::transfer::data_to_sqlite::TableSeq;
use crate::transfer::mysql::dao::config::ConfigInfoDO;
use crate::transfer::mysql::dao::config_history::ConfigHistoryDO;

verus! {

/// One version of a configuration's content, in the order the
/// configuration's value takes them in: the content, its history id, when
/// it was made (milliseconds) and by whom.
pub struct ConfigVersion {
    pub content: String,
    pub id: u64,
    pub op_time: i64,
    pub op_user: Option<String>,
}

/// A version as values.
pub struct ConfigVersionView {
    pub content: Seq<char>,
    pub id: u64,
    pub op_time: int,
    pub op_user: Option<Seq<char>>,
}

pub open spec fn opt_text(s: Option<String>) -> Option<Seq<char>> {
    match s {
        Some(t) => Some(t@),
        None => None,
    }
}

impl ConfigVersion {
    pub open spec fn view_of(&self) -> ConfigVersionView {
        ConfigVersionView { content: self.content@, id: self.id, op_time: self.op_time as int, op_user: opt_text(self.op_user) }
    }
}

pub open spec fn versions_view(v: Seq<ConfigVersion>) -> Seq<ConfigVersionView> {
    v.map_values(|x: ConfigVersion| x.view_of())
}

/// A history row that records a deletion.
pub open spec fn is_delete(h: ConfigHistoryDO) -> bool {
    h.op_type matches Some(t) && t@ == "D"@
}

/// How many history rows, newest first, come before the first deletion.
pub open spec fn kept_len(h: Seq<ConfigHistoryDO>) -> nat
    decreases h.len(),
{
    if h.len() == 0 || is_delete(h[0]) {
        0
    } else {
        1 + kept_len(h.drop_first())
    }
}

/// A timestamp in seconds as milliseconds; `now` when there is none.
pub open spec fn millis_or(ts: Option<i64>, now: i64) -> int {
    match ts {
        Some(v) => v * 1000,
        None => now as int,
    }
}

/// Whether a timestamp in seconds can be taken to milliseconds in an `i64`.
pub open spec fn millis_fit(ts: Option<i64>) -> bool {
    match ts {
        Some(v) => i64::MIN <= v * 1000 <= i64::MAX,
        None => true,
    }
}

/// The versions that history rows give, taken oldest first (`rows` in the
/// order they are taken): each row with a content gives a version, with
/// the next id after `first_id - 1` and its creation time.
pub open spec fn history_versions(rows: Seq<ConfigHistoryDO>, first_id: int, now: i64) -> Seq<ConfigVersionView>
    decreases rows.len(),
{
    if rows.len() == 0 {
        Seq::empty()
    } else {
        let p = history_versions(rows.drop_last(), first_id, now);
        match rows.last().content {
            Some(c) => p.push(
                ConfigVersionView {
                    content: c@,
                    id: (first_id + p.len()) as u64,
                    op_time: millis_or(rows.last().gmt_create_timestamp, now),
                    op_user: opt_text(rows.last().src_user),
                },
            ),
            None => p,
        }
    }
}

/// The history rows that are replayed, oldest first: those newer than the
/// last deletion.
pub open spec fn replayed_rows(h: Seq<ConfigHistoryDO>) -> Seq<ConfigHistoryDO> {
    h.subrange(0, kept_len(h) as int).reverse()
}

/// All the versions of a configuration: those of its history since the
/// last deletion, oldest first, then the current content when it differs
/// from the last of them (or when there is none), made at the later of its
/// modification time and the last version's time.
pub open spec fn config_versions(
    content: Seq<char>,
    modified: Option<i64>,
    h: Seq<ConfigHistoryDO>,
    first_id: int,
    now: i64,
) -> Seq<ConfigVersionView> {
    let hv = history_versions(replayed_rows(h), first_id, now);
    let last_time: int = if hv.len() == 0 { 0 } else { hv.last().op_time };
    let t = millis_or(modified, now);
    if hv.len() > 0 && hv.last().content == content {
        hv
    } else {
        hv.push(
            ConfigVersionView {
                content,
                id: (first_id + hv.len()) as u64,
                op_time: if t >= last_time { t } else { last_time },
                op_user: None,
            },
        )
    }
}

/// How many of the rows `g` have a content.
pub open spec fn content_count(g: Seq<ConfigHistoryDO>) -> nat
    decreases g.len(),
{
    if g.len() == 0 {
        0
    } else {
        (if g[0].content is Some { 1nat } else { 0nat }) + content_count(g.drop_first())
    }
}

/// The content of the first of the rows `g` that has one: with rows newest
/// first, the newest content.
pub open spec fn newest_content(g: Seq<ConfigHistoryDO>) -> Option<Seq<char>>
    decreases g.len(),
{
    if g.len() == 0 {
        None
    } else {
        match g[0].content {
            Some(c) => Some(c@),
            None => newest_content(g.drop_first()),
        }
    }
}

/// The rows `g` that have a content, in the order of `g`, each as its
/// content, its creation time in milliseconds (`now` when missing) and its
/// user.
pub open spec fn row_contents(g: Seq<ConfigHistoryDO>, now: i64) -> Seq<(Seq<char>, int, Option<Seq<char>>)>
    decreases g.len(),
{
    if g.len() == 0 {
        Seq::empty()
    } else {
        match g[0].content {
            Some(c) => seq![(c@, millis_or(g[0].gmt_create_timestamp, now), opt_text(g[0].src_user))] + row_contents(
                g.drop_first(),
                now,
            ),
            None => row_contents(g.drop_first(), now),
        }
    }
}

/// A version's content, time and user.
pub open spec fn version_parts(x: ConfigVersionView) -> (Seq<char>, int, Option<Seq<char>>) {
    (x.content, x.op_time, x.op_user)
}

/// The creation time (milliseconds; `now` when missing) of the first of the
/// rows `g` that has a content, or 0 when none has.
pub open spec fn newest_time(g: Seq<ConfigHistoryDO>, now: i64) -> int
    decreases g.len(),
{
    if g.len() == 0 {
        0
    } else {
        match g[0].content {
            Some(_) => millis_or(g[0].gmt_create_timestamp, now),
            None => newest_time(g.drop_first(), now),
        }
    }
}

/// The history rows since the last deletion, newest first.
pub open spec fn kept_rows(h: Seq<ConfigHistoryDO>) -> Seq<ConfigHistoryDO> {
    h.subrange(0, kept_len(h) as int)
}

proof fn lemma_history_versions_rev(g: Seq<ConfigHistoryDO>, first_id: int, now: i64)
    ensures
        history_versions(g.reverse(), first_id, now).len() == content_count(g),
        history_versions(g.reverse(), first_id, now).len() == 0 <==> newest_content(g) is None,
        history_versions(g.reverse(), first_id, now).len() > 0 ==> newest_content(g) == Some(
            history_versions(g.reverse(), first_id, now).last().content,
        ),
        history_versions(g.reverse(), first_id, now).len() > 0 ==> newest_time(g, now)
            == history_versions(g.reverse(), first_id, now).last().op_time,
        history_versions(g.reverse(), first_id, now).len() == 0 ==> newest_time(g, now) == 0,
        history_versions(g.reverse(), first_id, now).map_values(|x: ConfigVersionView| version_parts(x))
            == row_contents(g, now).reverse(),
        forall|i: int|
            0 <= i < history_versions(g.reverse(), first_id, now).len() ==> #[trigger] history_versions(
                g.reverse(),
                first_id,
                now,
            )[i].id == (first_id + i) as u64,
    decreases g.len(),
{
    if g.len() > 0 {
        let rows = g.reverse();
        assert(rows.drop_last() =~= g.drop_first().reverse());
        assert(rows.last() == g[0]);
        lemma_history_versions_rev(g.drop_first(), first_id, now);
        let p = history_versions(g.drop_first().reverse(), first_id, now);
        let hv = history_versions(rows, first_id, now);
        match g[0].content {
            Some(c) => {
                let e = (c@, millis_or(g[0].gmt_create_timestamp, now), opt_text(g[0].src_user));
                assert(row_contents(g, now) == seq![e] + row_contents(g.drop_first(), now));
                assert(hv.map_values(|x: ConfigVersionView| version_parts(x)) =~= p.map_values(
                    |x: ConfigVersionView| version_parts(x),
                ).push(e));
                assert((seq![e] + row_contents(g.drop_first(), now)).reverse() =~= row_contents(
                    g.drop_first(),
                    now,
                ).reverse().push(e));
            },
            None => {},
        }
    } else {
        assert(g.reverse().len() == 0);
        assert(history_versions(g.reverse(), first_id, now).map_values(|x: ConfigVersionView| version_parts(x))
            =~= row_contents(g, now).reverse());
    }
}

/// What importing a configuration gives, over its history rows `h` (newest
/// first) and current content `content`: one version for each row since the
/// last deletion that has a content, oldest first, with its content, time
/// and user, and then the current
/// content as one more version exactly when there is no such row or the
/// newest of them has another content, made at the later of its
/// modification time and that newest row's time; either way the last
/// version holds the current content, and the versions take consecutive ids
/// from `first_id`.
pub proof fn law_config_versions_current(
    content: Seq<char>,
    modified: Option<i64>,
    h: Seq<ConfigHistoryDO>,
    first_id: int,
    now: i64,
)
    ensures
        ({
            let v = config_versions(content, modified, h, first_id, now);
            let g = kept_rows(h);
            &&& v.len() == content_count(g) + (if newest_content(g) == Some(content) { 0nat } else { 1nat })
            &&& v.len() > 0
            &&& v.last().content == content
            &&& forall|i: int| 0 <= i < v.len() ==> #[trigger] v[i].id == (first_id + i) as u64
            &&& forall|i: int|
                0 <= i < content_count(g) ==> #[trigger] version_parts(v[i]) == row_contents(g, now).reverse()[i]
            &&& newest_content(g) != Some(content) ==> {
                let t = millis_or(modified, now);
                let l = newest_time(g, now);
                v.last().op_time == if t >= l { t } else { l }
            }
        }),
{
    let g = kept_rows(h);
    assert(replayed_rows(h) == g.reverse());
    lemma_history_versions_rev(g, first_id, now);
    let hv = history_versions(g.reverse(), first_id, now);
    assert forall|i: int| 0 <= i < content_count(g) implies #[trigger] version_parts(
        config_versions(content, modified, h, first_id, now)[i],
    ) == row_contents(g, now).reverse()[i] by {
        assert(hv.map_values(|x: ConfigVersionView| version_parts(x))[i] == version_parts(hv[i]));
    }
}

/// The rows kept from a history, newest first, are those before its newest
/// deletion: none of them is a deletion, and the row after them, if any,
/// is one.
pub proof fn law_kept_rows_stop_at_deletion(h: Seq<ConfigHistoryDO>)
    ensures
        kept_len(h) <= h.len(),
        forall|j: int| 0 <= j < kept_len(h) ==> !is_delete(#[trigger] h[j]),
        kept_len(h) < h.len() ==> is_delete(h[kept_len(h) as int]),
    decreases h.len(),
{
    if h.len() > 0 && !is_delete(h[0]) {
        law_kept_rows_stop_at_deletion(h.drop_first());
        assert forall|j: int| 0 <= j < kept_len(h) implies !is_delete(#[trigger] h[j]) by {
            if j > 0 {
                assert(h[j] == h.drop_first()[j - 1]);
            }
        }
        if kept_len(h) < h.len() {
            assert(h[kept_len(h) as int] == h.drop_first()[kept_len(h.drop_first()) as int]);
        }
    }
}

proof fn lemma_kept_len(h: Seq<ConfigHistoryDO>, i: int)
    requires
        0 <= i <= h.len(),
        forall|j: int| 0 <= j < i ==> !is_delete(#[trigger] h[j]),
        i == h.len() || is_delete(h[i]),
    ensures
        kept_len(h) == i,
    decreases i,
{
    if i > 0 {
        assert forall|j: int| 0 <= j < i - 1 implies !is_delete(#[trigger] h.drop_first()[j]) by {
            assert(h.drop_first()[j] == h[j + 1]);
        }
        lemma_kept_len(h.drop_first(), i - 1);
    }
}

/// Whether the content `a` equals `b`.
fn same_text(a: &String, b: &String) -> (r: bool)
    ensures
        r == (a@ == b@),
{
    *a == *b
}

/// Whether a history row records a deletion.
fn row_is_delete(h: &ConfigHistoryDO) -> (r: bool)
    ensures
        r == is_delete(*h),
{
    match &h.op_type {
        Some(t) => {
            let d = String::from_str("D");
            proof {
                reveal_strlit("D");
            }
            *t == d
        },
        None => false,
    }
}

/// A timestamp in seconds as milliseconds, `now` when there is none.
fn millis(ts: Option<i64>, now: i64) -> (r: i64)
    requires
        millis_fit(ts),
    ensures
        r == millis_or(ts, now),
{
    match ts {
        Some(v) => v * 1000,
        None => now,
    }
}

fn copy_text(s: &Option<String>) -> (r: Option<String>)
    ensures
        opt_text(r) == opt_text(*s),
{
    match s {
        Some(t) => Some(t.clone()),
        None => None,
    }
}

/// The versions of the configuration `config_do` with its history rows
/// `histories` (newest first), as they are written to the backup: the
/// history since the last deletion, oldest first, each row with a content
/// taking the next config id of `table_seq`, then the current content when
/// it differs from the last of those (or when there is none), at the later
/// of its modification time and the last version's time. Timestamps are in
/// seconds; a missing one is `now_ms`.
pub fn build_config_record(
    table_seq: &mut TableSeq,
    config_do: ConfigInfoDO,
    histories: Vec<ConfigHistoryDO>,
    now_ms: i64,
) -> (r: Vec<ConfigVersion>)
    requires
        old(table_seq).spec_config_id() + histories@.len() + 1 < i64::MAX,
        millis_fit(config_do.gmt_modified_timestamp),
        forall|i: int| 0 <= i < histories@.len() ==> millis_fit(#[trigger] histories@[i].gmt_create_timestamp),
    ensures
        ({
            let content = match config_do.content {
                Some(c) => c@,
                None => Seq::<char>::empty(),
            };
            versions_view(r@) == config_versions(
                content,
                config_do.gmt_modified_timestamp,
                histories@,
                old(table_seq).spec_config_id() + 1,
                now_ms,
            )
        }),
        ({
            let content = match config_do.content {
                Some(c) => c@,
                None => Seq::<char>::empty(),
            };
            let g = kept_rows(histories@);
            &&& r@.len() == content_count(g) + (if newest_content(g) == Some(content) { 0nat } else { 1nat })
            &&& r@.len() > 0
            &&& r@.last().content@ == content
        }),
        final(table_seq).spec_config_id() == old(table_seq).spec_config_id() + r@.len(),
        final(table_seq).spec_config_history_id() == old(table_seq).spec_config_history_id(),
        final(table_seq).spec_tenant_id() == old(table_seq).spec_tenant_id(),
        final(table_seq).spec_user_id() == old(table_seq).spec_user_id(),
{
    let current = match &config_do.content {
        Some(c) => c.clone(),
        None => String::new(),
    };
    let ghost h = histories@;
    let ghost first_id = old(table_seq).spec_config_id() + 1;
    let n = histories.len();
    let mut k: usize = 0;
    let mut stop = false;
    while k < n && !stop
        invariant
            k <= n,
            n == h.len(),
            h == histories@,
            forall|j: int| 0 <= j < k ==> !is_delete(#[trigger] h[j]),
            stop ==> k < n && is_delete(h[k as int]),
        decreases (n - k) + (if stop { 0int } else { 1int }),
    {
        if row_is_delete(&histories[k]) {
            stop = true;
        } else {
            k += 1;
        }
    }
    proof {
        lemma_kept_len(h, k as int);
    }
    let ghost rows = replayed_rows(h);
    assert(rows.len() == k);
    let mut out: Vec<ConfigVersion> = Vec::new();
    let mut i: usize = 0;
    while i < k
        invariant
            i <= k <= n,
            n == h.len(),
            h == histories@,
            k == kept_len(h),
            rows == replayed_rows(h),
            rows.len() == k,
            first_id == old(table_seq).spec_config_id() + 1,
            versions_view(out@) == history_versions(rows.take(i as int), first_id, now_ms),
            out@.len() <= i,
            table_seq.spec_config_id() == old(table_seq).spec_config_id() + out@.len(),
            table_seq.spec_config_history_id() == old(table_seq).spec_config_history_id(),
            table_seq.spec_tenant_id() == old(table_seq).spec_tenant_id(),
            table_seq.spec_user_id() == old(table_seq).spec_user_id(),
            old(table_seq).spec_config_id() + histories@.len() + 1 < i64::MAX,
            forall|j: int| 0 <= j < histories@.len() ==> millis_fit(#[trigger] histories@[j].gmt_create_timestamp),
        decreases k - i,
    {
        let item = &histories[k - 1 - i];
        proof {
            assert(rows[i as int] == h[k - 1 - i]);
            assert(rows.take(i as int + 1).drop_last() =~= rows.take(i as int));
            assert(rows.take(i as int + 1).last() == rows[i as int]);
        }
        match &item.content {
            Some(c) => {
                let op_time = millis(item.gmt_create_timestamp, now_ms);
                let id = table_seq.next_config_id();
                let v = ConfigVersion { content: c.clone(), id: id as u64, op_time, op_user: copy_text(&item.src_user) };
                let ghost before = out@;
                out.push(v);
                proof {
                    assert(versions_view(out@) =~= versions_view(before).push(v.view_of()));
                }
            },
            None => {},
        }
        i += 1;
    }
    assert(rows.take(k as int) =~= rows);
    let ghost hv = history_versions(rows, first_id, now_ms);
    let len = out.len();
    let need_pull = if len == 0 {
        true
    } else {
        !same_text(&out[len - 1].content, &current)
    };
    proof {
        let cv = match config_do.content {
            Some(c) => c@,
            None => Seq::<char>::empty(),
        };
        law_config_versions_current(cv, config_do.gmt_modified_timestamp, h, first_id, now_ms);
    }
    if need_pull {
        let last_time: i64 = if len == 0 {
            0
        } else {
            out[len - 1].op_time
        };
        let t = millis(config_do.gmt_modified_timestamp, now_ms);
        let op_time = if t >= last_time {
            t
        } else {
            last_time
        };
        let id = table_seq.next_config_id();
        let v = ConfigVersion { content: current, id: id as u64, op_time, op_user: None };
        let ghost before = out@;
        out.push(v);
        proof {
            assert(versions_view(out@) =~= versions_view(before).push(v.view_of()));
        }
    }
    out
}

} // verus!
