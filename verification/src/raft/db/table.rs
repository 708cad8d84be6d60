use vstd::prelude::*;
use crate::common::protobuf_utils::{
    PbField, FieldKind, field_at, fields_of, fields_bytes, lemma_fields_roundtrip,
};
use crate::common::pbmsg::{fold_fields, decode_body, fields_at, collect_fields, lemma_fold_push, lemma_fold_none_extends};
use crate::common::utf8::string_from_utf8;
use crate::common::strmap::StrMap;
use crate::raft::filestore::records::{
    opt_push, all_writable, put_varint, put_chunk, chunk_bytes, pb_u32, lemma_fold_opt_push, lemma_bytes_opt_push,
};

verus! {

// ---- TableDefinition: 1 name (string), 2 sequence_step (uint32) ----

/// How a table is declared: its name and the step of its id sequence
/// (zero: the table has no sequence).
#[derive(Clone, Debug, Default)]
pub struct TableDefinition {
    pub name: String,
    pub sequence_step: u32,
}

/// A table definition as values.
pub struct TableDefinitionView {
    pub name: Seq<char>,
    pub sequence_step: u32,
}

impl View for TableDefinition {
    type V = TableDefinitionView;

    open spec fn view(&self) -> TableDefinitionView {
        TableDefinitionView { name: self.name@, sequence_step: self.sequence_step }
    }
}

pub open spec fn table_definition_fields(d: TableDefinitionView) -> Seq<PbField> {
    let f1 = opt_push(Seq::empty(), d.name.len() > 0, PbField::Chunk { tag: 10, data: vstd::utf8::encode_utf8(d.name) });
    opt_push(f1, d.sequence_step != 0, PbField::Varint { tag: 16, value: d.sequence_step as u64 })
}

/// The stored bytes of a table definition.
pub open spec fn table_definition_bytes(d: TableDefinitionView) -> Seq<u8> {
    fields_bytes(table_definition_fields(d))
}

/// One field read into a table definition: the name must be UTF-8, the
/// step is taken modulo `2^32`, a known field with a wire type other than
/// its own is refused, other fields are skipped.
pub open spec fn table_definition_step(acc: TableDefinitionView, f: PbField) -> Option<TableDefinitionView> {
    match f {
        PbField::Varint { tag, value } => if tag == 8 {
            None
        } else if tag == 16 {
            Some(TableDefinitionView { sequence_step: pb_u32(value), ..acc })
        } else {
            Some(acc)
        },
        PbField::Chunk { tag, data } => if tag == 18 {
            None
        } else if tag == 10 {
            if vstd::utf8::valid_utf8(data) {
                Some(TableDefinitionView { name: vstd::utf8::decode_utf8(data), ..acc })
            } else {
                None
            }
        } else {
            Some(acc)
        },
        PbField::Fixed { tag } => if tag / 8 == 1 || tag / 8 == 2 {
            None
        } else {
            Some(acc)
        },
    }
}

pub open spec fn table_definition_stepper() -> spec_fn(TableDefinitionView, PbField) -> Option<TableDefinitionView> {
    |acc: TableDefinitionView, f: PbField| table_definition_step(acc, f)
}

pub open spec fn empty_table_definition() -> TableDefinitionView {
    TableDefinitionView { name: Seq::empty(), sequence_step: 0 }
}

/// The table definition that `s` holds, if it holds one.
pub open spec fn table_definition_decode(s: Seq<u8>) -> Option<TableDefinitionView> {
    decode_body(table_definition_stepper(), empty_table_definition(), s)
}

impl TableDefinition {
    /// The stored bytes of this definition.
    pub fn to_bytes(&self) -> (out: Vec<u8>)
        ensures
            out@ == table_definition_bytes(self@),
    {
        let mut buf: Vec<u8> = Vec::new();
        let ghost e = Seq::<PbField>::empty();
        let bytes = self.name.as_str().as_bytes_vec();
        let nonempty = self.name.as_str().unicode_len() > 0;
        let ghost f1 = opt_push(e, nonempty, PbField::Chunk { tag: 10, data: vstd::utf8::encode_utf8(self.name@) });
        put_chunk(&mut buf, nonempty, 10, bytes.as_slice());
        put_varint(&mut buf, self.sequence_step != 0, 16, self.sequence_step as u64);
        proof {
            assert(fields_bytes(e) =~= Seq::<u8>::empty());
            lemma_bytes_opt_push(e, nonempty, PbField::Chunk { tag: 10, data: vstd::utf8::encode_utf8(self.name@) });
            lemma_bytes_opt_push(f1, self.sequence_step != 0, PbField::Varint { tag: 16, value: self.sequence_step as u64 });
            assert(buf@ =~= table_definition_bytes(self@));
        }
        buf
    }

    /// Reads a stored definition; `None` when the bytes hold none.
    pub fn from_bytes(v: &[u8]) -> (r: Option<TableDefinition>)
        ensures
            match table_definition_decode(v@) {
                Some(d) => r matches Some(t) && t@ == d,
                None => r is None,
            },
    {
        let end = v.len();
        let ps = match collect_fields(v, 0, end) {
            Ok(ps) => ps,
            Err(_) => {
                assert(v@.subrange(0, end as int) =~= v@);
                return None;
            },
        };
        assert(v@.subrange(0, end as int) =~= v@);
        let ghost fs = fields_at(v@, ps@);
        let mut acc = TableDefinition { name: String::new(), sequence_step: 0 };
        let mut i: usize = 0;
        while i < ps.len()
            invariant
                i <= ps@.len(),
                end == v@.len(),
                fs == fields_at(v@, ps@),
                forall|j: int|
                    0 <= j < ps@.len() ==> #[trigger] ps@[j].kind == FieldKind::Chunk ==> 0 <= ps@[j].start
                        && ps@[j].start + ps@[j].len <= end,
                fields_of(v@) == Some(fs),
                fold_fields(table_definition_stepper(), empty_table_definition(), fs.subrange(0, i as int))
                    == Some(acc@),
            decreases ps@.len() - i,
        {
            let p = ps[i];
            proof {
                lemma_fold_push(table_definition_stepper(), empty_table_definition(), fs.subrange(0, i as int), fs[i as int]);
                assert(fs.subrange(0, i as int).push(fs[i as int]) == fs.subrange(0, i as int + 1));
            }
            let refused = match p.kind {
                FieldKind::Varint => p.tag == 8,
                FieldKind::Chunk => p.tag == 18,
                FieldKind::Fixed => p.tag / 8 == 1 || p.tag / 8 == 2,
            };
            if refused {
                proof {
                    assert(fs[i as int] == field_at(v@, p));
                    lemma_fold_none_extends(table_definition_stepper(), empty_table_definition(), fs, i as int + 1);
                    assert(fs.subrange(0, ps@.len() as int) == fs);
                }
                return None;
            }
            match p.kind {
                FieldKind::Varint => {
                    if p.tag == 16 {
                        acc.sequence_step = (p.value % 0x1_0000_0000) as u32;
                    }
                },
                FieldKind::Chunk => {
                    if p.tag == 10 {
                        let data = chunk_bytes(v, p);
                        match string_from_utf8(data) {
                            Some(s) => {
                                acc.name = s;
                            },
                            None => {
                                proof {
                                    assert(fs[i as int] == field_at(v@, p));
                                    lemma_fold_none_extends(table_definition_stepper(), empty_table_definition(), fs, i as int + 1);
                                    assert(fs.subrange(0, ps@.len() as int) == fs);
                                }
                                return None;
                            },
                        }
                    }
                },
                _ => {},
            }
            i += 1;
        }
        assert(fs.subrange(0, ps@.len() as int) == fs);
        Some(acc)
    }
}

/// A stored definition reads back as itself.
pub proof fn law_table_definition_roundtrip(d: TableDefinitionView)
    requires
        vstd::utf8::encode_utf8(d.name).len() < 0x1_0000_0000,
    ensures
        table_definition_decode(table_definition_bytes(d)) == Some(d),
{
    let st = table_definition_stepper();
    let e = Seq::<PbField>::empty();
    let z = empty_table_definition();
    let c1 = PbField::Chunk { tag: 10, data: vstd::utf8::encode_utf8(d.name) };
    let c2 = PbField::Varint { tag: 16, value: d.sequence_step as u64 };
    let f1 = opt_push(e, d.name.len() > 0, c1);
    let f2 = opt_push(f1, d.sequence_step != 0, c2);
    vstd::utf8::encode_utf8_valid_utf8(d.name);
    vstd::utf8::encode_utf8_decode_utf8(d.name);
    assert(fold_fields(st, z, e) == Some(z));
    lemma_fold_opt_push(st, z, e, d.name.len() > 0, c1);
    if d.name.len() == 0 {
        assert(d.name =~= Seq::<char>::empty());
    }
    assert(fold_fields(st, z, f1) == Some(TableDefinitionView { name: d.name, ..z }));
    lemma_fold_opt_push(st, z, f1, d.sequence_step != 0, c2);
    assert(pb_u32(d.sequence_step as u64) == d.sequence_step);
    assert(fold_fields(st, z, f2) == Some(d));
    assert(all_writable(f2));
    lemma_fields_roundtrip(f2);
}

// ---- tables ----

/// The name of the tree that holds the rows of table `name`.
pub open spec fn db_name_of(name: Seq<char>) -> Seq<char> {
    seq!['t', '_'] + name
}

/// The name of the id sequence of table `name`.
pub open spec fn seq_name_of(name: Seq<char>) -> Seq<char> {
    seq!['s', 'e', 'q', '_'] + name
}

/// The id sequence of a table: the name it is stored under and its step.
#[derive(Clone, Debug)]
pub struct TableSequenceInfo {
    pub seq_name: String,
    pub step: u64,
}

/// A known table: its name, the tree of its rows and its id sequence.
#[derive(Clone, Debug)]
pub struct TableInfo {
    pub name: String,
    pub table_db_name: String,
    pub seq: Option<TableSequenceInfo>,
}

/// The sequence step of a table (zero: no sequence).
pub open spec fn step_of(t: TableInfo) -> u32 {
    match t.seq {
        Some(s) => s.step as u32,
        None => 0,
    }
}

/// `t` is the table `name` declared with `step`.
pub open spec fn is_table_info(t: TableInfo, name: Seq<char>, step: u32) -> bool {
    &&& t.name@ == name
    &&& t.table_db_name@ == db_name_of(name)
    &&& if step == 0 {
        t.seq is None
    } else {
        (t.seq matches Some(s) && s.seq_name@ == seq_name_of(name) && s.step == step as u64)
    }
}

impl TableSequenceInfo {
    /// A copy of this sequence's description.
    pub fn duplicate(&self) -> (r: Self)
        ensures
            r == *self,
    {
        TableSequenceInfo { seq_name: self.seq_name.clone(), step: self.step }
    }
}

impl TableInfo {
    /// A copy of this table's description.
    pub fn duplicate(&self) -> (r: Self)
        ensures
            r == *self,
    {
        let seq = match &self.seq {
            Some(s) => Some(s.duplicate()),
            None => None,
        };
        TableInfo { name: self.name.clone(), table_db_name: self.table_db_name.clone(), seq }
    }

    /// The table `name` declared with `sequence_step`.
    pub fn new(name: String, sequence_step: u32) -> (r: Self)
        ensures
            is_table_info(r, name@, sequence_step),
            step_of(r) == sequence_step,
    {
        proof {
            reveal_strlit("t_");
            reveal_strlit("seq_");
            assert("t_"@ =~= seq!['t', '_']);
            assert("seq_"@ =~= seq!['s', 'e', 'q', '_']);
        }
        let table_db_name = String::from_str("t_").concat(name.as_str());
        let seq = if sequence_step == 0 {
            None
        } else {
            Some(TableSequenceInfo { seq_name: String::from_str("seq_").concat(name.as_str()), step: sequence_step as u64 })
        };
        TableInfo { name, table_db_name, seq }
    }
}

/// What a cache listens for: a row of the table `cache` set or removed.
#[derive(Clone, Debug)]
pub enum CacheNotice {
    Change { key: Vec<u8>, value: Vec<u8> },
    Remove { key: Vec<u8> },
}

/// A table seen for the first time: the definition to store under its name,
/// and the tree to open for it.
#[derive(Clone, Debug)]
pub struct TableRegistration {
    pub definition_key: Vec<u8>,
    pub definition: Vec<u8>,
    pub table_db_name: String,
}

/// Work on the id sequence of a table.
#[derive(Clone, Debug)]
pub enum SeqOp {
    /// Moves the sequence past an id the table already holds.
    SetTableLastId { seq: TableSequenceInfo, last_id: u64 },
    /// Takes the next id; its value answers the request.
    NextId { seq: TableSequenceInfo },
}

/// Work on the tree of a table's rows; what an insert or a remove gives
/// back answers the request.
#[derive(Clone, Debug)]
pub enum TreeOp {
    Insert { tree: String, key: Vec<u8>, value: Vec<u8> },
    Remove { tree: String, key: Vec<u8> },
    Drop { tree: String },
}

/// The work that one request asks for, in this order: tell the cache, store
/// a new table's definition and open its tree, work on the sequence, work on
/// the rows, and read the stored definitions again.
#[derive(Clone, Debug)]
pub struct TablePlan {
    pub notice: Option<CacheNotice>,
    pub registration: Option<TableRegistration>,
    pub seq_op: Option<SeqOp>,
    pub tree_op: Option<TreeOp>,
    pub reload: bool,
}

/// A change to the tables.
#[derive(Clone, Debug)]
pub enum TableManagerReq {
    SetValue { table_name: String, key: Vec<u8>, value: Vec<u8>, last_seq_id: Option<u64> },
    SetUseAutoId { table_name: String, value: Vec<u8> },
    Remove { table_name: String, key: Vec<u8> },
    Drop(String),
    NextId { table_name: String, seq_step: Option<u32> },
    SetSeqId { table_name: String, last_seq_id: u64 },
    ReloadTable,
}

/// Why a change was refused.
#[derive(Clone, Copy, Debug, PartialEq, Eq, Structural)]
pub enum TableManagerError {
    /// A row with an automatic id must be turned into a plain set first.
    AutoIdNotResolved,
}

/// The tables known, by name.
pub struct TableManager {
    pub table_map: StrMap<TableInfo>,
}

impl View for TableManager {
    /// Each table's sequence step (zero: no sequence).
    type V = Map<Seq<char>, u32>;

    open spec fn view(&self) -> Map<Seq<char>, u32> {
        self.table_map@.map_values(|t: TableInfo| step_of(t))
    }
}

/// The steps after reading the stored definitions `defs` in order; bytes that
/// hold no definition are skipped.
pub open spec fn load_definitions(m: Map<Seq<char>, u32>, defs: Seq<Seq<u8>>) -> Map<Seq<char>, u32>
    decreases defs.len(),
{
    if defs.len() == 0 {
        m
    } else {
        let m1 = match table_definition_decode(defs[0]) {
            Some(d) => m.insert(d.name, d.sequence_step),
            None => m,
        };
        load_definitions(m1, defs.drop_first())
    }
}

/// Reading one more definition.
pub proof fn lemma_load_definitions_push(m: Map<Seq<char>, u32>, defs: Seq<Seq<u8>>, d: Seq<u8>)
    ensures
        load_definitions(m, defs.push(d)) == match table_definition_decode(d) {
            Some(t) => load_definitions(m, defs).insert(t.name, t.sequence_step),
            None => load_definitions(m, defs),
        },
    decreases defs.len(),
{
    reveal_with_fuel(load_definitions, 2);
    assert(defs.push(d)[0] == if defs.len() == 0 { d } else { defs[0] });
    if defs.len() == 0 {
        assert(defs.push(d).drop_first() =~= Seq::<Seq<u8>>::empty());
    } else {
        let m1 = match table_definition_decode(defs[0]) {
            Some(t) => m.insert(t.name, t.sequence_step),
            None => m,
        };
        assert(defs.push(d).drop_first() =~= defs.drop_first().push(d));
        lemma_load_definitions_push(m1, defs.drop_first(), d);
    }
}

/// A stored definition, read back when the tables are loaded again,
/// declares its table with the same step.
pub proof fn law_definition_reload(m: Map<Seq<char>, u32>, d: TableDefinitionView)
    requires
        vstd::utf8::encode_utf8(d.name).len() < 0x1_0000_0000,
    ensures
        load_definitions(m, seq![table_definition_bytes(d)]) == m.insert(d.name, d.sequence_step),
{
    law_table_definition_roundtrip(d);
    reveal_with_fuel(load_definitions, 2);
    assert(seq![table_definition_bytes(d)].drop_first() =~= Seq::<Seq<u8>>::empty());
}

impl TableManager {
    /// Every entry is the table of its name, declared with its step.
    pub open spec fn wf(&self) -> bool {
        &&& self.table_map.wf()
        &&& forall|k: Seq<char>| #[trigger] self.table_map@.contains_key(k) ==> is_table_info(self.table_map@[k], k, step_of(self.table_map@[k]))
    }

    /// The row trees of the tables, in the order the tables became known.
    pub open spec fn db_names(&self) -> Seq<Seq<char>> {
        let e = self.table_map.spec_entries();
        Seq::new(e.len(), |i: int| e[i].1.table_db_name@)
    }

    pub fn new() -> (r: Self)
        ensures
            r.wf(),
            r@ == Map::<Seq<char>, u32>::empty(),
    {
        let r = TableManager { table_map: StrMap::new() };
        assert(r@ =~= Map::<Seq<char>, u32>::empty());
        r
    }

    /// Adds or replaces the table `t`, named `name`.
    fn put_table(&mut self, name: String, t: TableInfo)
        requires
            old(self).wf(),
            is_table_info(t, name@, step_of(t)),
        ensures
            final(self).wf(),
            final(self)@ == old(self)@.insert(name@, step_of(t)),
            final(self).table_map@ == old(self).table_map@.insert(name@, t),
    {
        let ghost k = name@;
        self.table_map.insert(name, t);
        assert(self@ =~= old(self)@.insert(k, step_of(t)));
    }

    /// The row trees of all tables, in the order the tables became known.
    pub fn get_table_db_names(&self) -> (r: Vec<String>)
        ensures
            r@.len() == self.db_names().len(),
            forall|i: int| 0 <= i < r@.len() ==> #[trigger] r@[i]@ == self.db_names()[i],
    {
        let entries = self.table_map.as_vec();
        let mut r: Vec<String> = Vec::new();
        let mut i: usize = 0;
        while i < entries.len()
            invariant
                i <= entries@.len(),
                entries@ == self.table_map.spec_entries(),
                r@.len() == i,
                forall|j: int| 0 <= j < i ==> #[trigger] r@[j]@ == entries@[j].1.table_db_name@,
            decreases entries@.len() - i,
        {
            r.push(entries[i].1.table_db_name.clone());
            i += 1;
        }
        r
    }

    /// Reads the stored definitions `defs` in order, each bytes that hold a
    /// definition declaring its table, and gives back the row trees of all
    /// tables, which the store must open.
    pub fn load_tables(&mut self, defs: &Vec<Vec<u8>>) -> (r: Vec<String>)
        requires
            old(self).wf(),
        ensures
            final(self).wf(),
            final(self)@ == load_definitions(old(self)@, defs@.map_values(|d: Vec<u8>| d@)),
            r@.len() == final(self).db_names().len(),
            forall|i: int| 0 <= i < r@.len() ==> #[trigger] r@[i]@ == final(self).db_names()[i],
    {
        let ghost start = self@;
        let mut i: usize = 0;
        while i < defs.len()
            invariant
                i <= defs@.len(),
                self.wf(),
                self@ == load_definitions(start, defs@.subrange(0, i as int).map_values(|d: Vec<u8>| d@)),
            decreases defs@.len() - i,
        {
            let ghost before = defs@.subrange(0, i as int).map_values(|d: Vec<u8>| d@);
            proof {
                assert(defs@.subrange(0, i as int + 1).map_values(|d: Vec<u8>| d@) =~= before.push(defs@[i as int]@));
                lemma_load_definitions_push(start, before, defs@[i as int]@);
            }
            match TableDefinition::from_bytes(defs[i].as_slice()) {
                Some(d) => {
                    let t = TableInfo::new(d.name.clone(), d.sequence_step);
                    self.put_table(d.name, t);
                },
                None => {},
            }
            i += 1;
        }
        assert(defs@.subrange(0, defs@.len() as int) =~= defs@);
        self.get_table_db_names()
    }

    /// Forgets the table `name` and gives back what was known of it: its
    /// sequence is then set back to zero and its row tree dropped.
    pub fn drop_table(&mut self, name: &String) -> (r: Option<TableInfo>)
        requires
            old(self).wf(),
        ensures
            final(self).wf(),
            final(self)@ == old(self)@.remove(name@),
            old(self)@.contains_key(name@) ==> (r matches Some(t) && is_table_info(t, name@, old(self)@[name@])),
            !old(self)@.contains_key(name@) ==> r is None,
    {
        let found = match self.table_map.get(name) {
            Some(t) => Some(t.duplicate()),
            None => None,
        };
        self.table_map.remove(name);
        assert(self@ =~= old(self)@.remove(name@));
        found
    }
}

/// `s` is the sequence of table `name` with step `step`.
pub open spec fn seq_is(s: TableSequenceInfo, name: Seq<char>, step: u32) -> bool {
    s.seq_name@ == seq_name_of(name) && s.step == step as u64
}

/// The plan asks for no work.
pub open spec fn plan_is_empty(p: TablePlan) -> bool {
    &&& p.notice is None
    &&& p.registration is None
    &&& p.seq_op is None
    &&& p.tree_op is None
    &&& !p.reload
}

/// The cache notice for a change of the table `table`.
pub open spec fn notice_fits(p: TablePlan, table: Seq<char>, key: Seq<u8>, value: Option<Seq<u8>>) -> bool {
    if table == "cache"@ {
        match value {
            Some(v) => p.notice matches Some(CacheNotice::Change { key: k, value: w }) && k@ == key && w@ == v,
            None => p.notice matches Some(CacheNotice::Remove { key: k }) && k@ == key,
        }
    } else {
        p.notice is None
    }
}

/// The work on the sequence of a known table that moves it past `id`.
pub open spec fn seq_set_fits(p: TablePlan, name: Seq<char>, step: u32, id: Option<u64>) -> bool {
    match id {
        Some(v) => if step != 0 {
            p.seq_op matches Some(SeqOp::SetTableLastId { seq, last_id }) && seq_is(seq, name, step) && last_id == v
        } else {
            p.seq_op is None
        },
        None => p.seq_op is None,
    }
}

/// Whether the tables can take `msg`: an id cannot be asked of a table that
/// was never declared.
pub open spec fn table_request_fits(m: Map<Seq<char>, u32>, msg: TableManagerReq) -> bool {
    match msg {
        TableManagerReq::NextId { table_name, seq_step } => m.contains_key(table_name@),
        _ => true,
    }
}

/// A plan that asks for no work.
fn empty_plan() -> (p: TablePlan)
    ensures
        plan_is_empty(p),
{
    TablePlan { notice: None, registration: None, seq_op: None, tree_op: None, reload: false }
}

impl TableManager {
    /// The work that the change `msg` asks for, with the tables updated: a
    /// row set in an unknown table declares that table without a sequence;
    /// a dropped table is forgotten. The answer to the request is what the
    /// work on the rows or on the sequence gives back.
    pub fn handle(&mut self, msg: TableManagerReq) -> (r: Result<TablePlan, TableManagerError>)
        requires
            old(self).wf(),
            table_request_fits(old(self)@, msg),
        ensures
            final(self).wf(),
            match msg {
                TableManagerReq::SetValue { table_name, key, value, last_seq_id } => {
                    let name = table_name@;
                    r matches Ok(p) && {
                        &&& notice_fits(p, name, key@, Some(value@))
                        &&& p.tree_op matches Some(TreeOp::Insert { tree, key: k, value: v }) && tree@ == db_name_of(name)
                            && k@ == key@ && v@ == value@
                        &&& !p.reload
                        &&& if old(self)@.contains_key(name) {
                            &&& final(self)@ == old(self)@
                            &&& p.registration is None
                            &&& seq_set_fits(p, name, old(self)@[name], last_seq_id)
                        } else {
                            &&& final(self)@ == old(self)@.insert(name, 0)
                            &&& p.registration matches Some(reg) && reg.definition_key@ == vstd::utf8::encode_utf8(name)
                                && reg.definition@ == table_definition_bytes(TableDefinitionView { name, sequence_step: 0 })
                                && reg.table_db_name@ == db_name_of(name)
                            &&& p.seq_op is None
                        }
                    }
                },
                TableManagerReq::SetUseAutoId { table_name, value } => r == Err::<TablePlan, TableManagerError>(
                    TableManagerError::AutoIdNotResolved,
                ) && final(self)@ == old(self)@,
                TableManagerReq::Remove { table_name, key } => {
                    let name = table_name@;
                    r matches Ok(p) && {
                        &&& final(self)@ == old(self)@
                        &&& notice_fits(p, name, key@, None)
                        &&& p.registration is None
                        &&& p.seq_op is None
                        &&& !p.reload
                        &&& if old(self)@.contains_key(name) {
                            p.tree_op matches Some(TreeOp::Remove { tree, key: k }) && tree@ == db_name_of(name) && k@ == key@
                        } else {
                            p.tree_op is None
                        }
                    }
                },
                TableManagerReq::Drop(table_name) => {
                    let name = table_name@;
                    r matches Ok(p) && {
                        &&& final(self)@ == old(self)@.remove(name)
                        &&& p.notice is None
                        &&& p.registration is None
                        &&& !p.reload
                        &&& if old(self)@.contains_key(name) {
                            &&& seq_set_fits(p, name, old(self)@[name], Some(0u64))
                            &&& p.tree_op matches Some(TreeOp::Drop { tree }) && tree@ == db_name_of(name)
                        } else {
                            p.seq_op is None && p.tree_op is None
                        }
                    }
                },
                TableManagerReq::NextId { table_name, seq_step } => {
                    let name = table_name@;
                    r matches Ok(p) && {
                        &&& final(self)@ == old(self)@
                        &&& p.notice is None
                        &&& p.registration is None
                        &&& p.tree_op is None
                        &&& !p.reload
                        &&& if old(self)@[name] != 0 {
                            p.seq_op matches Some(SeqOp::NextId { seq }) && seq_is(seq, name, old(self)@[name])
                        } else {
                            p.seq_op is None
                        }
                    }
                },
                TableManagerReq::SetSeqId { table_name, last_seq_id } => {
                    let name = table_name@;
                    r matches Ok(p) && {
                        &&& final(self)@ == old(self)@
                        &&& p.notice is None
                        &&& p.registration is None
                        &&& p.tree_op is None
                        &&& !p.reload
                        &&& if old(self)@.contains_key(name) {
                            seq_set_fits(p, name, old(self)@[name], Some(last_seq_id))
                        } else {
                            p.seq_op is None
                        }
                    }
                },
                TableManagerReq::ReloadTable => r matches Ok(p) && {
                    &&& final(self)@ == old(self)@
                    &&& p.notice is None
                    &&& p.registration is None
                    &&& p.seq_op is None
                    &&& p.tree_op is None
                    &&& p.reload
                },
            },
    {
        match msg {
            TableManagerReq::SetValue { table_name, key, value, last_seq_id } => {
                let mut plan = empty_plan();
                if is_cache_table(&table_name) {
                    plan.notice = Some(CacheNotice::Change { key: copy_bytes(&key), value: copy_bytes(&value) });
                }
                let tree: String;
                match self.table_map.get(&table_name) {
                    Some(t) => {
                        plan.seq_op = seq_set_op(t, last_seq_id);
                        tree = t.table_db_name.clone();
                    },
                    None => {
                        let definition = TableDefinition { name: table_name.clone(), sequence_step: 0 };
                        let t = TableInfo::new(table_name.clone(), 0);
                        tree = t.table_db_name.clone();
                        plan.registration = Some(TableRegistration {
                            definition_key: table_name.as_str().as_bytes_vec(),
                            definition: definition.to_bytes(),
                            table_db_name: t.table_db_name.clone(),
                        });
                        self.put_table(table_name, t);
                    },
                }
                plan.tree_op = Some(TreeOp::Insert { tree, key, value });
                Ok(plan)
            },
            TableManagerReq::SetUseAutoId { table_name, value } => Err(TableManagerError::AutoIdNotResolved),
            TableManagerReq::Remove { table_name, key } => {
                let mut plan = empty_plan();
                if is_cache_table(&table_name) {
                    plan.notice = Some(CacheNotice::Remove { key: copy_bytes(&key) });
                }
                match self.table_map.get(&table_name) {
                    Some(t) => {
                        plan.tree_op = Some(TreeOp::Remove { tree: t.table_db_name.clone(), key });
                    },
                    None => {},
                }
                Ok(plan)
            },
            TableManagerReq::Drop(table_name) => {
                let mut plan = empty_plan();
                match self.drop_table(&table_name) {
                    Some(t) => {
                        plan.seq_op = seq_set_op(&t, Some(0));
                        plan.tree_op = Some(TreeOp::Drop { tree: t.table_db_name });
                    },
                    None => {},
                }
                Ok(plan)
            },
            TableManagerReq::NextId { table_name, seq_step } => {
                let mut plan = empty_plan();
                match self.table_map.get(&table_name) {
                    Some(t) => {
                        match &t.seq {
                            Some(s) => {
                                plan.seq_op = Some(SeqOp::NextId { seq: s.duplicate() });
                            },
                            None => {},
                        }
                    },
                    None => {},
                }
                Ok(plan)
            },
            TableManagerReq::SetSeqId { table_name, last_seq_id } => {
                let mut plan = empty_plan();
                match self.table_map.get(&table_name) {
                    Some(t) => {
                        plan.seq_op = seq_set_op(t, Some(last_seq_id));
                    },
                    None => {},
                }
                Ok(plan)
            },
            TableManagerReq::ReloadTable => {
                let mut plan = empty_plan();
                plan.reload = true;
                Ok(plan)
            },
        }
    }
}

/// Whether `name` is the table that a cache listens to.
fn is_cache_table(name: &String) -> (r: bool)
    ensures
        r == (name@ == "cache"@),
{
    let cache = String::from_str("cache");
    *name == cache
}

/// A copy of `v`.
fn copy_bytes(v: &Vec<u8>) -> (r: Vec<u8>)
    ensures
        r@ == v@,
{
    vstd::slice::slice_to_vec(v.as_slice())
}

/// The work that moves the sequence of table `t`, if it has one, past `id`.
fn seq_set_op(t: &TableInfo, id: Option<u64>) -> (r: Option<SeqOp>)
    ensures
        match (t.seq, id) {
            (Some(s), Some(v)) => r matches Some(SeqOp::SetTableLastId { seq, last_id }) && seq == s && last_id == v,
            _ => r is None,
        },
{
    match (&t.seq, id) {
        (Some(s), Some(v)) => Some(SeqOp::SetTableLastId { seq: s.duplicate(), last_id: v }),
        _ => None,
    }
}

/// Where a page starts among `total` rows: the offset read as `usize` (a
/// negative one wraps around), at most `total`.
pub open spec fn page_start(total: nat, offset: Option<i64>) -> nat {
    let s: nat = match offset {
        Some(o) => (o as usize) as nat,
        None => 0,
    };
    if s < total {
        s
    } else {
        total
    }
}

/// Where a page ends among `total` rows: `limit` rows after its start (a
/// negative limit wraps around), at most `total`.
pub open spec fn page_end(total: nat, offset: Option<i64>, limit: Option<i64>) -> nat {
    let st = page_start(total, offset);
    match limit {
        Some(l) => if st + (l as usize) < total {
            (st + (l as usize)) as nat
        } else {
            total
        },
        None => total,
    }
}

/// The position, in key order, of the `i`-th row of a page.
pub open spec fn page_row(total: nat, offset: Option<i64>, is_rev: bool, i: int) -> int {
    visit_position(total, is_rev, page_start(total, offset) + i)
}

/// The position, in key order, of the `i`-th row visited when the rows are
/// walked forwards or backwards.
pub open spec fn visit_position(total: nat, is_rev: bool, i: int) -> int {
    if is_rev {
        total - 1 - i
    } else {
        i
    }
}

impl TableManager {
    /// The row tree of the table `name`, if the table is known.
    pub fn table_db_name_of(&self, name: &String) -> (r: Option<String>)
        requires
            self.wf(),
        ensures
            self@.contains_key(name@) ==> (r matches Some(t) && t@ == db_name_of(name@)),
            !self@.contains_key(name@) ==> r is None,
    {
        match self.table_map.get(name) {
            Some(t) => Some(t.table_db_name.clone()),
            None => None,
        }
    }

    /// One page of `rows`, given in key order: the rows are walked forwards,
    /// or backwards when `is_rev`, `offset` of them are skipped and at most
    /// `limit` taken.
    pub fn page_of(rows: &Vec<(Vec<u8>, Vec<u8>)>, offset: Option<i64>, limit: Option<i64>, is_rev: bool) -> (r: Vec<
        (Vec<u8>, Vec<u8>),
    >)
        ensures
            r@.len() == page_end(rows@.len(), offset, limit) - page_start(rows@.len(), offset),
            forall|i: int|
                #![trigger r@[i]]
                0 <= i < r@.len() ==> 0 <= page_row(rows@.len(), offset, is_rev, i) < rows@.len() && r@[i].0@
                    == rows@[page_row(rows@.len(), offset, is_rev, i)].0@ && r@[i].1@ == rows@[page_row(
                    rows@.len(),
                    offset,
                    is_rev,
                    i,
                )].1@,
    {
        let total = rows.len();
        let skip: usize = match offset {
            Some(o) => #[verifier::truncate] (o as usize),
            None => 0,
        };
        let start = if skip < total {
            skip
        } else {
            total
        };
        let end = match limit {
            Some(l) => {
                let take = #[verifier::truncate] (l as usize);
                if take < total - start {
                    start + take
                } else {
                    total
                }
            },
            None => total,
        };
        assert(start == page_start(total as nat, offset));
        assert(end == page_end(total as nat, offset, limit));
        let mut r: Vec<(Vec<u8>, Vec<u8>)> = Vec::new();
        let mut i = start;
        while i < end
            invariant
                start <= i <= end <= total,
                total == rows@.len(),
                start == page_start(total as nat, offset),
                r@.len() == i - start,
                forall|j: int|
                    #![trigger r@[j]]
                    0 <= j < r@.len() ==> 0 <= page_row(total as nat, offset, is_rev, j) < total && r@[j].0@
                        == rows@[page_row(total as nat, offset, is_rev, j)].0@ && r@[j].1@ == rows@[page_row(
                        total as nat,
                        offset,
                        is_rev,
                        j,
                    )].1@,
            decreases end - i,
        {
            let p = if is_rev {
                total - 1 - i
            } else {
                i
            };
            r.push((copy_bytes(&rows[p].0), copy_bytes(&rows[p].1)));
            i += 1;
        }
        r
    }
}


/// A read of the tables.
#[derive(Clone, Debug)]
pub enum TableManagerQueryReq {
    QueryTableNames,
    Get { table_name: String, key: String },
    GetByArcKey { table_name: String, key: String },
    GetByBytes { table_name: String, key: Vec<u8> },
    QueryPageList { table_name: String, like_key: Option<String>, offset: Option<i64>, limit: Option<i64>, is_rev: bool },
}

/// What the tables answer to a request.
#[derive(Clone, Debug)]
pub enum TableManagerResult {
    /// The request was carried out and has no value to give.
    Done,
    Value(Vec<u8>),
    NextId(u64),
    TableNames(Vec<String>),
    PageListResult(usize, Vec<(Vec<u8>, Vec<u8>)>),
}

/// The answer to a request, from the work that its plan `plan` asked for:
/// a set or a remove of a row is answered with the value that the row held
/// before, or nothing when it held none; a request for an id with the id
/// taken, or nothing when none could be taken; any other request with
/// nothing.
pub fn table_answer(plan: &TablePlan, previous: Option<Vec<u8>>, next_id: Option<u64>) -> (r: TableManagerResult)
    ensures
        match plan.tree_op {
            Some(TreeOp::Insert { .. }) | Some(TreeOp::Remove { .. }) => match previous {
                Some(v) => r matches TableManagerResult::Value(w) && w@ == v@,
                None => r is Done,
            },
            _ => match plan.seq_op {
                Some(SeqOp::NextId { .. }) => match next_id {
                    Some(n) => r == TableManagerResult::NextId(n),
                    None => r is Done,
                },
                _ => r is Done,
            },
        },
{
    match &plan.tree_op {
        Some(TreeOp::Insert { .. }) | Some(TreeOp::Remove { .. }) => {
            return match previous {
                Some(v) => TableManagerResult::Value(v),
                None => TableManagerResult::Done,
            };
        },
        _ => {},
    }
    match &plan.seq_op {
        Some(SeqOp::NextId { .. }) => match next_id {
            Some(n) => TableManagerResult::NextId(n),
            None => TableManagerResult::Done,
        },
        _ => TableManagerResult::Done,
    }
}

/// The reading that a table read asks for.
pub enum TableQueryPlan {
    /// Answer with these row trees.
    Names(Vec<String>),
    /// Look the key up in the row tree and answer with its value, if any.
    Lookup { tree: String, key: Vec<u8> },
    /// Read a page of the row tree (the rows walked forwards, or backwards
    /// when `is_rev`, `offset` skipped, at most `limit` taken), keep the rows
    /// whose key matches `like_key` when one is given, and answer with the
    /// tree's number of rows and those rows.
    Page { tree: String, like_key: Option<String>, offset: Option<i64>, limit: Option<i64>, is_rev: bool },
    /// The table is unknown: a lookup answers with nothing, a page with no
    /// rows out of 0.
    Unknown { page: bool },
}

impl TableManager {
    /// What the read `msg` asks for: the names of the row trees, or a read
    /// of the named table's row tree; a key given as text is looked up by
    /// its UTF-8 bytes.
    pub fn query_plan(&self, msg: TableManagerQueryReq) -> (r: TableQueryPlan)
        requires
            self.wf(),
        ensures
            match msg {
                TableManagerQueryReq::QueryTableNames => r matches TableQueryPlan::Names(v) && v@.len()
                    == self.db_names().len() && forall|i: int| 0 <= i < v@.len() ==> #[trigger] v@[i]@
                    == self.db_names()[i],
                TableManagerQueryReq::Get { table_name, key } | TableManagerQueryReq::GetByArcKey { table_name, key } =>
                    if self@.contains_key(table_name@) {
                    r matches TableQueryPlan::Lookup { tree, key: k } && tree@ == db_name_of(table_name@) && k@
                        == vstd::utf8::encode_utf8(key@)
                } else {
                    r == TableQueryPlan::Unknown { page: false }
                },
                TableManagerQueryReq::GetByBytes { table_name, key } => if self@.contains_key(table_name@) {
                    r matches TableQueryPlan::Lookup { tree, key: k } && tree@ == db_name_of(table_name@) && k == key
                } else {
                    r == TableQueryPlan::Unknown { page: false }
                },
                TableManagerQueryReq::QueryPageList { table_name, like_key, offset, limit, is_rev } => if self@.contains_key(
                    table_name@,
                ) {
                    r matches TableQueryPlan::Page { tree, like_key: lk, offset: o, limit: l, is_rev: rv } && tree@
                        == db_name_of(table_name@) && lk == like_key && o == offset && l == limit && rv == is_rev
                } else {
                    r == TableQueryPlan::Unknown { page: true }
                },
            },
    {
        match msg {
            TableManagerQueryReq::QueryTableNames => TableQueryPlan::Names(self.get_table_db_names()),
            TableManagerQueryReq::Get { table_name, key } | TableManagerQueryReq::GetByArcKey { table_name, key } => {
                match self.table_db_name_of(&table_name) {
                    Some(tree) => TableQueryPlan::Lookup { tree, key: key.as_str().as_bytes_vec() },
                    None => TableQueryPlan::Unknown { page: false },
                }
            },
            TableManagerQueryReq::GetByBytes { table_name, key } => match self.table_db_name_of(&table_name) {
                Some(tree) => TableQueryPlan::Lookup { tree, key },
                None => TableQueryPlan::Unknown { page: false },
            },
            TableManagerQueryReq::QueryPageList { table_name, like_key, offset, limit, is_rev } => {
                match self.table_db_name_of(&table_name) {
                    Some(tree) => TableQueryPlan::Page { tree, like_key, offset, limit, is_rev },
                    None => TableQueryPlan::Unknown { page: true },
                }
            },
        }
    }
}

/// Rows as values.
pub open spec fn rows_view(rows: Seq<(Vec<u8>, Vec<u8>)>) -> Seq<(Seq<u8>, Seq<u8>)> {
    rows.map_values(|r: (Vec<u8>, Vec<u8>)| (r.0@, r.1@))
}

/// The rows `rows` whose flag in `keep` is set, in order.
pub open spec fn kept_rows(rows: Seq<(Seq<u8>, Seq<u8>)>, keep: Seq<bool>) -> Seq<(Seq<u8>, Seq<u8>)>
    decreases rows.len(),
{
    if rows.len() == 0 {
        Seq::empty()
    } else {
        let p = kept_rows(rows.drop_last(), keep.drop_last());
        if keep.last() {
            p.push(rows.last())
        } else {
            p
        }
    }
}

impl TableManager {
    /// The rows of a page that match a key pattern, in order: `matches[i]`
    /// says whether the key of row `i`, read as text, matches the pattern.
    pub fn keep_matching(rows: Vec<(Vec<u8>, Vec<u8>)>, matches: &Vec<bool>) -> (r: Vec<(Vec<u8>, Vec<u8>)>)
        requires
            matches@.len() == rows@.len(),
        ensures
            rows_view(r@) == kept_rows(rows_view(rows@), matches@),
    {
        let ghost orig = rows@;
        let n = rows.len();
        let mut rest = rows;
        let mut out: Vec<(Vec<u8>, Vec<u8>)> = Vec::new();
        let mut i: usize = 0;
        while i < n
            invariant
                i <= n,
                n == orig.len(),
                matches@.len() == n,
                rest@ == orig.subrange(i as int, n as int),
                rows_view(out@) == kept_rows(rows_view(orig.take(i as int)), matches@.take(i as int)),
            decreases n - i,
        {
            let row = rest.remove(0);
            assert(row == orig[i as int]);
            proof {
                assert(rows_view(orig.take(i as int + 1)).drop_last() =~= rows_view(orig.take(i as int)));
                assert(matches@.take(i as int + 1).drop_last() =~= matches@.take(i as int));
                assert(rows_view(orig.take(i as int + 1)).last() == (row.0@, row.1@));
                assert(matches@.take(i as int + 1).last() == matches@[i as int]);
            }
            if matches[i] {
                let ghost before = out@;
                out.push(row);
                proof {
                    assert(rows_view(out@) =~= rows_view(before).push((row.0@, row.1@)));
                }
            }
            proof {
                assert(rest@ =~= orig.subrange(i + 1, n as int));
            }
            i += 1;
        }
        assert(orig.take(n as int) =~= orig);
        assert(matches@.take(n as int) =~= matches@);
        out
    }
}

/// The rows of a page, as values.
pub open spec fn page_view(rows: Seq<(Vec<u8>, Vec<u8>)>, offset: Option<i64>, limit: Option<i64>, is_rev: bool) -> Seq<
    (Seq<u8>, Seq<u8>),
> {
    let total = rows.len();
    Seq::new(
        (page_end(total, offset, limit) - page_start(total, offset)) as nat,
        |j: int| rows_view(rows)[page_row(total, offset, is_rev, j)],
    )
}

/// The flags of the rows of a page, taken from the flags `flags` of all rows.
pub open spec fn page_flags(total: nat, flags: Seq<bool>, offset: Option<i64>, limit: Option<i64>, is_rev: bool) -> Seq<bool> {
    Seq::new(
        (page_end(total, offset, limit) - page_start(total, offset)) as nat,
        |j: int| flags[page_row(total, offset, is_rev, j)],
    )
}

impl TableManager {
    /// The answer to a page read of a table whose rows, in key order, are
    /// `rows`: the number of rows of the table, and the rows of the page
    /// (see `page_of`), kept only where the key matches the pattern when one
    /// is given; `like_flags[i]` says whether the key of row `i`, read
    /// as text, matches it.
    pub fn query_page_answer(
        rows: &Vec<(Vec<u8>, Vec<u8>)>,
        offset: Option<i64>,
        limit: Option<i64>,
        is_rev: bool,
        like_flags: Option<&Vec<bool>>,
    ) -> (r: (usize, Vec<(Vec<u8>, Vec<u8>)>))
        requires
            like_flags matches Some(fl) ==> fl@.len() == rows@.len(),
        ensures
            r.0 == rows@.len(),
            match like_flags {
                None => rows_view(r.1@) == page_view(rows@, offset, limit, is_rev),
                Some(fl) => rows_view(r.1@) == kept_rows(
                    page_view(rows@, offset, limit, is_rev),
                    page_flags(rows@.len(), fl@, offset, limit, is_rev),
                ),
            },
    {
        let total = rows.len();
        let page = TableManager::page_of(rows, offset, limit, is_rev);
        assert(rows_view(page@) =~= page_view(rows@, offset, limit, is_rev));
        match like_flags {
            None => (total, page),
            Some(fl) => {
                let skip: usize = match offset {
                    Some(o) => #[verifier::truncate] (o as usize),
                    None => 0,
                };
                let start = if skip < total {
                    skip
                } else {
                    total
                };
                assert(start == page_start(total as nat, offset));
                let n = page.len();
                let mut pf: Vec<bool> = Vec::new();
                let mut j: usize = 0;
                while j < n
                    invariant
                        j <= n,
                        n == page@.len(),
                        n == page_end(total as nat, offset, limit) - page_start(total as nat, offset),
                        start == page_start(total as nat, offset),
                        total == rows@.len(),
                        fl@.len() == total,
                        page_start(total as nat, offset) <= page_end(total as nat, offset, limit) <= total,
                        pf@ == page_flags(total as nat, fl@, offset, limit, is_rev).take(j as int),
                    decreases n - j,
                {
                    let p = if is_rev {
                        total - 1 - (start + j)
                    } else {
                        start + j
                    };
                    assert(p == page_row(total as nat, offset, is_rev, j as int));
                    pf.push(fl[p]);
                    proof {
                        assert(pf@ =~= page_flags(total as nat, fl@, offset, limit, is_rev).take(j as int + 1));
                    }
                    j += 1;
                }
                assert(pf@ =~= page_flags(total as nat, fl@, offset, limit, is_rev));
                (total, TableManager::keep_matching(page, &pf))
            },
        }
    }
}

} // verus!
