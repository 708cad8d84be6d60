use vstd::prelude::*;
use crate::raft::store::{ClientRequest, ClientResponse, NamespaceRaftReq, McpManagerRaftReq, McpManagerRaftResult};
use crate::raft::db::table::TableManagerReq;
use crate::sequence::model::{SequenceRaftReq, SequenceRaftResult};
use crate::raft::filestore::raftindex::RaftIndexRequest;
use crate::raft::filestore::raftsnapshot::SnapshotHeaderDto;
use crate::raft::filestore::records::SnapshotRange;
use crate::common::idmap::IdMap;
use crate::common::utf8::string_from_utf8;
use crate::common::byte_utils::{bin_to_id_result, id_of_bytes};
use crate::raft::filestore::model::SnapshotRecordDto;

verus! {

/// A command for the configuration service.
#[derive(Clone, Debug)]
pub enum ConfigRaftCmd {
    ConfigAdd {
        key: String,
        value: String,
        config_type: Option<String>,
        desc: Option<String>,
        history_id: u64,
        history_table_id: Option<u64>,
        op_time: i64,
        op_user: Option<String>,
    },
    /// A whole stored value, in the bytes the configuration service stores
    /// it in, which that service reads.
    SetFullValue { key: Vec<u8>, value: Vec<u8>, last_id: Option<u64> },
    ConfigRemove { key: String },
}

/// The service that an applied command goes to, with the message it gets.
pub enum ApplyTarget {
    Index(RaftIndexRequest),
    Sequence(SequenceRaftReq),
    Config(ConfigRaftCmd),
    Table(TableManagerReq),
    Namespace(NamespaceRaftReq),
    Mcp(McpManagerRaftReq),
}

/// The services that commands go to.
#[derive(Clone, Copy, Debug, PartialEq, Eq, Structural)]
pub enum TargetKind {
    Index,
    Sequence,
    Config,
    Table,
    Namespace,
    Mcp,
}

/// Where a command goes and what it is told there: node addresses and
/// members to the index, configuration changes to the configuration
/// service (every field carried over), and the other requests, unchanged,
/// to their own services.
pub open spec fn apply_target_of(req: ClientRequest) -> ApplyTarget {
    match req {
        ClientRequest::NodeAddr { id, addr } => ApplyTarget::Index(RaftIndexRequest::AddNodeAddr(id, addr)),
        ClientRequest::Members(m) => ApplyTarget::Index(
            RaftIndexRequest::SaveMember { member: m, member_after_consensus: None, node_addr: None },
        ),
        ClientRequest::ConfigSet { key, value, config_type, desc, history_id, history_table_id, op_time, op_user } =>
            ApplyTarget::Config(
            ConfigRaftCmd::ConfigAdd { key, value, config_type, desc, history_id, history_table_id, op_time, op_user },
        ),
        ClientRequest::ConfigFullValue { key, value, last_seq_id } => ApplyTarget::Config(
            ConfigRaftCmd::SetFullValue { key, value, last_id: last_seq_id },
        ),
        ClientRequest::ConfigRemove { key } => ApplyTarget::Config(ConfigRaftCmd::ConfigRemove { key }),
        ClientRequest::TableManagerReq(req) => ApplyTarget::Table(req),
        ClientRequest::NamespaceReq(req) => ApplyTarget::Namespace(req),
        ClientRequest::SequenceReq { req } => ApplyTarget::Sequence(req),
        ClientRequest::McpReq { req } => ApplyTarget::Mcp(req),
    }
}

/// Routing a command carries its fields over unchanged: node addresses
/// and members go to the index, configuration changes to the configuration
/// service with each field where the command had it (a whole value is
/// stored under the command's key, with the command's last id), and the
/// other requests, as they are, to their own services.
pub proof fn law_apply_target_carries_fields(req: ClientRequest, r: ApplyTarget)
    requires
        r == apply_target_of(req),
    ensures
        match req {
            ClientRequest::NodeAddr { id, addr } => r matches ApplyTarget::Index(RaftIndexRequest::AddNodeAddr(i, a))
                && i == id && a == addr,
            ClientRequest::Members(m) => r matches ApplyTarget::Index(
                RaftIndexRequest::SaveMember { member, member_after_consensus, node_addr },
            ) && member == m && member_after_consensus is None && node_addr is None,
            ClientRequest::ConfigSet { key, value, config_type, desc, history_id, history_table_id, op_time, op_user } =>
                r matches ApplyTarget::Config(
                ConfigRaftCmd::ConfigAdd {
                    key: k,
                    value: v,
                    config_type: ct,
                    desc: d,
                    history_id: hi,
                    history_table_id: ht,
                    op_time: ot,
                    op_user: ou,
                },
            ) && k == key && v == value && ct == config_type && d == desc && hi == history_id && ht == history_table_id
                && ot == op_time && ou == op_user,
            ClientRequest::ConfigFullValue { key, value, last_seq_id } => r matches ApplyTarget::Config(
                ConfigRaftCmd::SetFullValue { key: k, value: v, last_id },
            ) && k == key && v == value && last_id == last_seq_id,
            ClientRequest::ConfigRemove { key } => r matches ApplyTarget::Config(ConfigRaftCmd::ConfigRemove { key: k })
                && k == key,
            ClientRequest::TableManagerReq(t) => r matches ApplyTarget::Table(x) && x == t,
            ClientRequest::NamespaceReq(n) => r matches ApplyTarget::Namespace(x) && x == n,
            ClientRequest::SequenceReq { req: q } => r matches ApplyTarget::Sequence(x) && x == q,
            ClientRequest::McpReq { req: q } => r matches ApplyTarget::Mcp(x) && x == q,
        },
{
}

/// The service a target names.
pub open spec fn kind_of(t: ApplyTarget) -> TargetKind {
    match t {
        ApplyTarget::Index(_) => TargetKind::Index,
        ApplyTarget::Sequence(_) => TargetKind::Sequence,
        ApplyTarget::Config(_) => TargetKind::Config,
        ApplyTarget::Table(_) => TargetKind::Table,
        ApplyTarget::Namespace(_) => TargetKind::Namespace,
        ApplyTarget::Mcp(_) => TargetKind::Mcp,
    }
}

/// Where the command `req` goes, and the message it is sent there.
pub fn apply_target(req: ClientRequest) -> (r: ApplyTarget)
    ensures
        r == apply_target_of(req),
        match req {
            ClientRequest::NodeAddr { id, addr } => r matches ApplyTarget::Index(RaftIndexRequest::AddNodeAddr(i, a))
                && i == id && a == addr,
            ClientRequest::Members(m) => r matches ApplyTarget::Index(
                RaftIndexRequest::SaveMember { member, member_after_consensus, node_addr },
            ) && member == m && member_after_consensus is None && node_addr is None,
            ClientRequest::ConfigSet { key, value, config_type, desc, history_id, history_table_id, op_time, op_user } =>
                r matches ApplyTarget::Config(
                ConfigRaftCmd::ConfigAdd {
                    key: k,
                    value: v,
                    config_type: ct,
                    desc: d,
                    history_id: hi,
                    history_table_id: ht,
                    op_time: ot,
                    op_user: ou,
                },
            ) && k == key && v == value && ct == config_type && d == desc && hi == history_id && ht == history_table_id
                && ot == op_time && ou == op_user,
            ClientRequest::ConfigFullValue { key, value, last_seq_id } => r matches ApplyTarget::Config(
                ConfigRaftCmd::SetFullValue { key: k, value: v, last_id },
            ) && k == key && v == value && last_id == last_seq_id,
            ClientRequest::ConfigRemove { key } => r matches ApplyTarget::Config(ConfigRaftCmd::ConfigRemove { key: k })
                && k == key,
            ClientRequest::TableManagerReq(t) => r matches ApplyTarget::Table(x) && x == t,
            ClientRequest::NamespaceReq(n) => r matches ApplyTarget::Namespace(x) && x == n,
            ClientRequest::SequenceReq { req: q } => r matches ApplyTarget::Sequence(x) && x == q,
            ClientRequest::McpReq { req: q } => r matches ApplyTarget::Mcp(x) && x == q,
        },
{
    match req {
        ClientRequest::NodeAddr { id, addr } => ApplyTarget::Index(RaftIndexRequest::AddNodeAddr(id, addr)),
        ClientRequest::Members(m) => ApplyTarget::Index(
            RaftIndexRequest::SaveMember { member: m, member_after_consensus: None, node_addr: None },
        ),
        ClientRequest::ConfigSet { key, value, config_type, desc, history_id, history_table_id, op_time, op_user } =>
            ApplyTarget::Config(
            ConfigRaftCmd::ConfigAdd { key, value, config_type, desc, history_id, history_table_id, op_time, op_user },
        ),
        ClientRequest::ConfigFullValue { key, value, last_seq_id } => ApplyTarget::Config(
            ConfigRaftCmd::SetFullValue { key, value, last_id: last_seq_id },
        ),
        ClientRequest::ConfigRemove { key } => ApplyTarget::Config(ConfigRaftCmd::ConfigRemove { key }),
        ClientRequest::TableManagerReq(req) => ApplyTarget::Table(req),
        ClientRequest::NamespaceReq(req) => ApplyTarget::Namespace(req),
        ClientRequest::SequenceReq { req } => ApplyTarget::Sequence(req),
        ClientRequest::McpReq { req } => ApplyTarget::Mcp(req),
    }
}

impl ApplyTarget {
    /// The service this target names.
    pub fn kind(&self) -> (r: TargetKind)
        ensures
            r == kind_of(*self),
    {
        match self {
            ApplyTarget::Index(_) => TargetKind::Index,
            ApplyTarget::Sequence(_) => TargetKind::Sequence,
            ApplyTarget::Config(_) => TargetKind::Config,
            ApplyTarget::Table(_) => TargetKind::Table,
            ApplyTarget::Namespace(_) => TargetKind::Namespace,
            ApplyTarget::Mcp(_) => TargetKind::Mcp,
        }
    }
}

/// What a service answered to an applied command.
#[derive(Clone, Debug)]
pub enum TargetReply {
    /// The command was carried out and has no value to give.
    Done,
    Sequence(SequenceRaftResult),
    Mcp(McpManagerRaftResult),
}

/// Why a service could not carry out a command: its own message, or that
/// of the mailbox that could not reach it.
#[derive(Clone, Debug)]
pub struct ApplyError {
    pub message: String,
}

/// The sequence service answers with a sequence result, the MCP service
/// with an MCP result, every other service with no value.
pub open spec fn reply_fits(kind: TargetKind, reply: Result<TargetReply, ApplyError>) -> bool {
    match reply {
        Ok(TargetReply::Sequence(_)) => kind == TargetKind::Sequence,
        Ok(TargetReply::Mcp(_)) => kind == TargetKind::Mcp,
        Ok(TargetReply::Done) => kind != TargetKind::Sequence && kind != TargetKind::Mcp,
        Err(_) => true,
    }
}

/// The answer to a command applied to the state machine, from the reply
/// of the service it went to: the index is told without waiting, so such a
/// command succeeds; a sequence result and an MCP result are handed back;
/// any other service that carried it out gives `Success`; a service's
/// error is handed back as it is.
pub fn apply_answer(kind: TargetKind, reply: Result<TargetReply, ApplyError>) -> (r: Result<ClientResponse, ApplyError>)
    requires
        reply_fits(kind, reply),
    ensures
        kind == TargetKind::Index ==> r matches Ok(ClientResponse::Success),
        kind != TargetKind::Index ==> match reply {
            Err(e) => r == Err::<ClientResponse, ApplyError>(e),
            Ok(TargetReply::Sequence(res)) => r == Ok::<ClientResponse, ApplyError>(ClientResponse::SequenceResp { resp: res }),
            Ok(TargetReply::Mcp(res)) => r == Ok::<ClientResponse, ApplyError>(ClientResponse::McpResp { resp: res }),
            Ok(TargetReply::Done) => r matches Ok(ClientResponse::Success),
        },
{
    if kind == TargetKind::Index {
        return Ok(ClientResponse::Success);
    }
    match reply {
        Err(e) => Err(e),
        Ok(TargetReply::Sequence(res)) => Ok(ClientResponse::SequenceResp { resp: res }),
        Ok(TargetReply::Mcp(res)) => Ok(ClientResponse::McpResp { resp: res }),
        Ok(TargetReply::Done) => Ok(ClientResponse::Success),
    }
}

/// The answer to one command applied at log index `index` and waited for,
/// with what the index is told: the answer of `apply_answer`, and the new
/// last applied index only once the command was carried out; a failed
/// command leaves the index untold.
pub fn apply_request_answer(kind: TargetKind, reply: Result<TargetReply, ApplyError>, index: u64) -> (r: (
    Result<ClientResponse, ApplyError>,
    Option<RaftIndexRequest>,
))
    requires
        reply_fits(kind, reply),
    ensures
        kind == TargetKind::Index ==> r.0 matches Ok(ClientResponse::Success),
        kind != TargetKind::Index ==> match reply {
            Err(e) => r.0 == Err::<ClientResponse, ApplyError>(e),
            Ok(TargetReply::Sequence(res)) => r.0 == Ok::<ClientResponse, ApplyError>(ClientResponse::SequenceResp { resp: res }),
            Ok(TargetReply::Mcp(res)) => r.0 == Ok::<ClientResponse, ApplyError>(ClientResponse::McpResp { resp: res }),
            Ok(TargetReply::Done) => r.0 matches Ok(ClientResponse::Success),
        },
        r.0 is Ok ==> r.1 == Some(RaftIndexRequest::SaveLastAppliedLog(index)),
        r.0 is Err ==> r.1 is None,
{
    let answer = apply_answer(kind, reply);
    match answer {
        Ok(resp) => (Ok(resp), Some(RaftIndexRequest::SaveLastAppliedLog(index))),
        Err(e) => (Err(e), None),
    }
}

/// What a raft log entry carries.
pub enum EntryPayload {
    /// An entry with no command, written by a new leader.
    Blank,
    Normal(ClientRequest),
    /// A change of the members, with the members after it (empty when
    /// the change is complete).
    ConfigChange { members: Vec<u64>, members_after_consensus: Vec<u64> },
    /// Where the log continues in a snapshot.
    SnapshotPointer { id: String },
}

/// The target that reloading an entry of the log sends its command to: the
/// entries that carry a command are replayed as they were applied, the
/// others are skipped. A replay does not wait on the answer: it goes on
/// whatever the service gives back.
pub fn load_target(payload: EntryPayload) -> (r: Option<ApplyTarget>)
    ensures
        match payload {
            EntryPayload::Normal(req) => r == Some(apply_target_of(req)),
            _ => r is None,
        },
{
    match payload {
        EntryPayload::Normal(req) => Some(apply_target(req)),
        _ => None,
    }
}

/// A command to apply, with the index of its log entry.
#[derive(Clone, Debug)]
pub struct ApplyRequestDto {
    pub index: u64,
    pub request: ClientRequest,
}

/// What the state machine knows of where it stands: the first log index
/// after the last snapshot, and the last log index applied.
pub struct StateApplyManager {
    pub snapshot_next_index: u64,
    pub last_applied_log: u64,
}

impl StateApplyManager {
    /// Before anything is loaded: the log starts at 1, nothing is applied.
    pub fn new() -> (r: Self)
        ensures
            r.snapshot_next_index == 1,
            r.last_applied_log == 0,
    {
        StateApplyManager { snapshot_next_index: 1, last_applied_log: 0 }
    }

    /// Takes in what the index file holds: the end of the last snapshot,
    /// if there is one, and the last applied index.
    pub fn load_index_info(&mut self, last_snapshot_end: Option<u64>, last_applied_log: u64)
        requires
            last_snapshot_end matches Some(e) ==> e < u64::MAX,
        ensures
            final(self).last_applied_log == last_applied_log,
            final(self).snapshot_next_index == match last_snapshot_end {
                Some(e) => (e + 1) as u64,
                None => old(self).snapshot_next_index,
            },
    {
        match last_snapshot_end {
            Some(e) => {
                self.snapshot_next_index = e + 1;
            },
            None => {},
        }
        self.last_applied_log = last_applied_log;
    }

    /// The range of log entries to replay after the snapshot was loaded:
    /// from the first index after the snapshot up to the last applied one;
    /// none when nothing was applied.
    pub fn load_log_range(&self) -> (r: Option<(u64, u64)>)
        requires
            self.last_applied_log < u64::MAX,
        ensures
            self.last_applied_log == 0 ==> r is None,
            self.last_applied_log != 0 ==> r == Some((self.snapshot_next_index, (self.last_applied_log + 1) as u64)),
    {
        if self.last_applied_log == 0 {
            None
        } else {
            Some((self.snapshot_next_index, self.last_applied_log + 1))
        }
    }

    /// The last applied log index.
    pub fn get_last_applied_log(&self) -> (r: u64)
        ensures
            r == self.last_applied_log,
    {
        self.last_applied_log
    }

    /// Applies a batch of commands: the last applied index becomes that of
    /// the batch's last command (unchanged for an empty batch); each command
    /// goes to its target, in order; the index is then told the last
    /// applied index.
    pub fn apply_batch(&mut self, requests: Vec<ApplyRequestDto>) -> (r: (Vec<ApplyTarget>, RaftIndexRequest))
        ensures
            final(self).snapshot_next_index == old(self).snapshot_next_index,
            final(self).last_applied_log == if requests@.len() == 0 {
                old(self).last_applied_log
            } else {
                requests@.last().index
            },
            r.0@.len() == requests@.len(),
            forall|i: int| 0 <= i < requests@.len() ==> #[trigger] r.0@[i] == apply_target_of(requests@[i].request),
            r.1 == RaftIndexRequest::SaveLastAppliedLog(final(self).last_applied_log),
    {
        let n = requests.len();
        if n > 0 {
            self.last_applied_log = requests[n - 1].index;
        }
        let ghost orig = requests@;
        let mut rest = requests;
        let mut targets: Vec<ApplyTarget> = Vec::new();
        let mut i: usize = 0;
        while i < n
            invariant
                i <= n,
                n == orig.len(),
                rest@ == orig.subrange(i as int, n as int),
                targets@.len() == i,
                forall|j: int| 0 <= j < i ==> #[trigger] targets@[j] == apply_target_of(orig[j].request),
            decreases n - i,
        {
            let req = rest.remove(0);
            assert(req == orig[i as int]);
            targets.push(apply_target(req.request));
            proof {
                assert(rest@ =~= orig.subrange(i + 1, n as int));
            }
            i += 1;
        }
        (targets, RaftIndexRequest::SaveLastAppliedLog(self.last_applied_log))
    }

    /// Takes one command to apply and wait for: the last applied index
    /// becomes the command's, and the command goes to its target; what the
    /// index is told follows the answer (`apply_request_answer`).
    pub fn apply_request(&mut self, request: ApplyRequestDto) -> (r: ApplyTarget)
        ensures
            final(self).snapshot_next_index == old(self).snapshot_next_index,
            final(self).last_applied_log == request.index,
            r == apply_target_of(request.request),
    {
        self.last_applied_log = request.index;
        apply_target(request.request)
    }
}


/// What installing a snapshot tells the index: the snapshot's members, the
/// members after a change (none when that list is empty) and its node
/// addresses.
pub fn snapshot_member_request(header: SnapshotHeaderDto) -> (r: RaftIndexRequest)
    ensures
        r matches RaftIndexRequest::SaveMember { member, member_after_consensus, node_addr } && member
            == header.member && node_addr == Some(header.node_addrs) && if header.member_after_consensus@.len()
            == 0 {
            member_after_consensus is None
        } else {
            member_after_consensus == Some(header.member_after_consensus)
        },
{
    let after = if header.member_after_consensus.len() == 0 {
        None
    } else {
        Some(header.member_after_consensus)
    };
    RaftIndexRequest::SaveMember { member: header.member, member_after_consensus: after, node_addr: Some(header.node_addrs) }
}

/// The names of the trees that a snapshot holds records of, and the key
/// under which the sequence tree keeps the last configuration history id.
pub struct SnapshotTreeNames {
    pub config: String,
    pub sequence: String,
    pub user: String,
    pub cache: String,
    pub namespace: String,
    pub mcp_server: String,
    pub mcp_tool_spec: String,
    pub seq_key_config: String,
}

/// Where a record read from a snapshot goes.
pub enum SnapshotLoadTarget {
    /// A configuration's stored value, under its key text; the configuration
    /// service reads the value.
    ConfigValue { key: String, value: Vec<u8> },
    /// The last configuration history id.
    ConfigLastId(u64),
    /// A record of the sequence service.
    Sequence(SnapshotRecordDto),
    /// A row set in a table.
    Table(TableManagerReq),
    Namespace(SnapshotRecordDto),
    Mcp(SnapshotRecordDto),
}

/// Why a snapshot record cannot be loaded.
#[derive(Clone, Copy, Debug, PartialEq, Eq)]
pub enum SnapshotLoadError {
    /// A configuration key that is not UTF-8.
    BadConfigKey,
    /// A last id stored in fewer than 8 bytes.
    BadLastId,
}

/// Where the snapshot record `record` goes, by its tree (checked in this
/// order): a configuration to the configuration service under its key
/// read as UTF-8; in the sequence tree, the configuration key's value as
/// the last configuration history id (its first 8 bytes, big-endian) and
/// any other key to the sequence service; user and cache rows set in their
/// table; namespace and MCP records to their services; a record of any
/// other tree is skipped.
pub fn snapshot_record_target(record: SnapshotRecordDto, names: &SnapshotTreeNames) -> (r: Result<
    Option<SnapshotLoadTarget>,
    SnapshotLoadError,
>)
    ensures
        ({
            let t = record.tree@;
            if t == names.config@ {
                if vstd::utf8::valid_utf8(record.key@) {
                    r matches Ok(Some(SnapshotLoadTarget::ConfigValue { key, value })) && key@
                        == vstd::utf8::decode_utf8(record.key@) && value == record.value
                } else {
                    r == Err::<Option<SnapshotLoadTarget>, SnapshotLoadError>(SnapshotLoadError::BadConfigKey)
                }
            } else if t == names.sequence@ {
                if record.key@ == vstd::utf8::encode_utf8(names.seq_key_config@) {
                    if record.value@.len() >= 8 {
                        r matches Ok(Some(SnapshotLoadTarget::ConfigLastId(id))) && id == id_of_bytes(record.value@)
                    } else {
                        r == Err::<Option<SnapshotLoadTarget>, SnapshotLoadError>(SnapshotLoadError::BadLastId)
                    }
                } else {
                    r matches Ok(Some(SnapshotLoadTarget::Sequence(x))) && x == record
                }
            } else if t == names.user@ || t == names.cache@ {
                r matches Ok(Some(SnapshotLoadTarget::Table(TableManagerReq::SetValue { table_name, key, value, last_seq_id })))
                    && table_name@ == t && key == record.key && value == record.value && last_seq_id is None
            } else if t == names.namespace@ {
                r matches Ok(Some(SnapshotLoadTarget::Namespace(x))) && x == record
            } else if t == names.mcp_server@ || t == names.mcp_tool_spec@ {
                r matches Ok(Some(SnapshotLoadTarget::Mcp(x))) && x == record
            } else {
                r matches Ok(None)
            }
        }),
{
    if record.tree == names.config {
        let SnapshotRecordDto { tree, key, value, op_type } = record;
        return match string_from_utf8(key) {
            Some(k) => Ok(Some(SnapshotLoadTarget::ConfigValue { key: k, value })),
            None => Err(SnapshotLoadError::BadConfigKey),
        };
    }
    if record.tree == names.sequence {
        let config_key = names.seq_key_config.as_str().as_bytes_vec();
        if same_bytes(&record.key, &config_key) {
            return match bin_to_id_result(record.value.as_slice()) {
                Ok(id) => Ok(Some(SnapshotLoadTarget::ConfigLastId(id))),
                Err(_) => Err(SnapshotLoadError::BadLastId),
            };
        }
        return Ok(Some(SnapshotLoadTarget::Sequence(record)));
    }
    if record.tree == names.user || record.tree == names.cache {
        let SnapshotRecordDto { tree, key, value, op_type } = record;
        return Ok(Some(SnapshotLoadTarget::Table(TableManagerReq::SetValue { table_name: tree, key, value, last_seq_id: None })));
    }
    if record.tree == names.namespace {
        return Ok(Some(SnapshotLoadTarget::Namespace(record)));
    }
    if record.tree == names.mcp_server || record.tree == names.mcp_tool_spec {
        return Ok(Some(SnapshotLoadTarget::Mcp(record)));
    }
    Ok(None)
}

/// Whether two byte strings are equal.
fn same_bytes(a: &Vec<u8>, b: &Vec<u8>) -> (r: bool)
    ensures
        r == (a@ == b@),
{
    if a.len() != b.len() {
        return false;
    }
    let mut i: usize = 0;
    while i < a.len()
        invariant
            i <= a@.len(),
            a@.len() == b@.len(),
            forall|j: int| 0 <= j < i ==> a@[j] == b@[j],
        decreases a@.len() - i,
    {
        if a[i] != b[i] {
            return false;
        }
        i += 1;
    }
    assert(a@ =~= b@);
    true
}

/// Where building a snapshot of the state machine stands.
pub enum BuildSnapshotState {
    /// Not started; the snapshot is to end at `last_index`.
    Idle { last_index: u64 },
    /// The log entry at `last_index` was asked for.
    AwaitLog { last_index: u64 },
    /// The membership was asked for.
    AwaitMember { last_index: u64, last_term: u64 },
    /// A new snapshot file was asked for.
    AwaitSnapshot { header: SnapshotHeaderDto },
    /// Writing the data: `written` of the configurations, the tables, the
    /// namespaces and the flush have succeeded, in that order.
    Writing { header: SnapshotHeaderDto, id: u64, written: u8 },
    /// The snapshot manager was told that the snapshot is complete.
    AwaitComplete { header: SnapshotHeaderDto, id: u64 },
    Finished { header: SnapshotHeaderDto, id: u64 },
    Failed,
}

/// What came back from the last step of building a snapshot.
pub enum BuildSnapshotEvent {
    Start,
    /// The term of the log entry that was asked for, if the log holds it.
    LastLog { term: Option<u64> },
    Member { member: Vec<u64>, member_after_consensus: Vec<u64>, node_addrs: IdMap<String> },
    /// The new snapshot file, by its id.
    Created { id: u64 },
    /// A write, or the flush, succeeded.
    Written,
    Completed,
    /// A call failed, or answered with something else than was asked.
    Failed,
}

/// What to do next to build a snapshot.
pub enum BuildSnapshotAction {
    QueryLog { start: u64, end: u64 },
    LoadMember,
    NewSnapshot(SnapshotHeaderDto),
    WriteConfig,
    WriteTable,
    WriteNamespace,
    Flush,
    CompleteSnapshot(SnapshotRange),
    /// The snapshot `id` is built; its header is the state's.
    Finish { id: u64 },
    /// Building failed; nothing more is done.
    Abort,
}

/// The stages of building a snapshot, without their data.
#[derive(Clone, Copy, Debug, PartialEq, Eq, Structural)]
pub enum BuildStage {
    Idle,
    AwaitLog,
    AwaitMember,
    AwaitSnapshot,
    Writing(u8),
    AwaitComplete,
    Finished,
    Failed,
}

/// The kinds of events, without their data.
#[derive(Clone, Copy, Debug, PartialEq, Eq, Structural)]
pub enum BuildEventKind {
    Start,
    LastLog,
    Member,
    Created,
    Written,
    Completed,
    Failed,
}

pub open spec fn stage_of(s: BuildSnapshotState) -> BuildStage {
    match s {
        BuildSnapshotState::Idle { .. } => BuildStage::Idle,
        BuildSnapshotState::AwaitLog { .. } => BuildStage::AwaitLog,
        BuildSnapshotState::AwaitMember { .. } => BuildStage::AwaitMember,
        BuildSnapshotState::AwaitSnapshot { .. } => BuildStage::AwaitSnapshot,
        BuildSnapshotState::Writing { written, .. } => BuildStage::Writing(written),
        BuildSnapshotState::AwaitComplete { .. } => BuildStage::AwaitComplete,
        BuildSnapshotState::Finished { .. } => BuildStage::Finished,
        BuildSnapshotState::Failed => BuildStage::Failed,
    }
}

pub open spec fn event_kind(e: BuildSnapshotEvent) -> BuildEventKind {
    match e {
        BuildSnapshotEvent::Start => BuildEventKind::Start,
        BuildSnapshotEvent::LastLog { .. } => BuildEventKind::LastLog,
        BuildSnapshotEvent::Member { .. } => BuildEventKind::Member,
        BuildSnapshotEvent::Created { .. } => BuildEventKind::Created,
        BuildSnapshotEvent::Written => BuildEventKind::Written,
        BuildSnapshotEvent::Completed => BuildEventKind::Completed,
        BuildSnapshotEvent::Failed => BuildEventKind::Failed,
    }
}

/// The stage after an event: each step goes on only with the event it
/// waits for; anything else fails, and a failed build stays failed.
pub open spec fn next_stage(st: BuildStage, ev: BuildEventKind) -> BuildStage {
    match (st, ev) {
        (BuildStage::Idle, BuildEventKind::Start) => BuildStage::AwaitLog,
        (BuildStage::AwaitLog, BuildEventKind::LastLog) => BuildStage::AwaitMember,
        (BuildStage::AwaitMember, BuildEventKind::Member) => BuildStage::AwaitSnapshot,
        (BuildStage::AwaitSnapshot, BuildEventKind::Created) => BuildStage::Writing(0),
        (BuildStage::Writing(k), BuildEventKind::Written) => if k < 3 {
            BuildStage::Writing((k + 1) as u8)
        } else if k == 3 {
            BuildStage::AwaitComplete
        } else {
            BuildStage::Failed
        },
        (BuildStage::AwaitComplete, BuildEventKind::Completed) => BuildStage::Finished,
        _ => BuildStage::Failed,
    }
}

/// One step of building a snapshot ending at a log index: ask for that
/// log entry; take its term (0 when the log does not hold it) and ask for
/// the membership; make the header of both and ask for a new snapshot with
/// it; write the configurations, the tables and the namespaces, and flush;
/// only then tell the snapshot manager that the snapshot, up to the header's
/// last index, is complete; finish once it acknowledged. Any failure, or an
/// event that does not answer the last step, ends the build.
pub fn build_snapshot_step(st: BuildSnapshotState, ev: BuildSnapshotEvent) -> (r: (BuildSnapshotState, BuildSnapshotAction))
    requires
        st matches BuildSnapshotState::Idle { last_index } ==> last_index < u64::MAX,
    ensures
        stage_of(r.0) == next_stage(stage_of(st), event_kind(ev)),
        r.0 is Failed <==> r.1 is Abort,
        r.1 is CompleteSnapshot ==> stage_of(st) == BuildStage::Writing(3) && ev is Written,
        match (st, ev) {
            (BuildSnapshotState::Idle { last_index }, BuildSnapshotEvent::Start) => r.0
                == BuildSnapshotState::AwaitLog { last_index } && r.1 == BuildSnapshotAction::QueryLog {
                start: last_index,
                end: (last_index + 1) as u64,
            },
            (BuildSnapshotState::AwaitLog { last_index }, BuildSnapshotEvent::LastLog { term }) => r.0
                == BuildSnapshotState::AwaitMember {
                last_index,
                last_term: match term {
                    Some(t) => t,
                    None => 0,
                },
            } && r.1 is LoadMember,
            (
                BuildSnapshotState::AwaitMember { last_index, last_term },
                BuildSnapshotEvent::Member { member, member_after_consensus, node_addrs },
            ) => {
                let header = SnapshotHeaderDto { last_index, last_term, member, member_after_consensus, node_addrs };
                &&& r.0 == BuildSnapshotState::AwaitSnapshot { header }
                &&& r.1 matches BuildSnapshotAction::NewSnapshot(h) && h.record_view() == header.record_view()
                    && h.node_addrs@ == node_addrs@
            },
            (BuildSnapshotState::AwaitSnapshot { header }, BuildSnapshotEvent::Created { id }) => r.0
                == BuildSnapshotState::Writing { header, id, written: 0 } && r.1 is WriteConfig,
            (BuildSnapshotState::Writing { header, id, written }, BuildSnapshotEvent::Written) => if written
                == 0 {
                r.0 == BuildSnapshotState::Writing { header, id, written: 1 } && r.1 is WriteTable
            } else if written == 1 {
                r.0 == BuildSnapshotState::Writing { header, id, written: 2 } && r.1 is WriteNamespace
            } else if written == 2 {
                r.0 == BuildSnapshotState::Writing { header, id, written: 3 } && r.1 is Flush
            } else if written == 3 {
                r.0 == BuildSnapshotState::AwaitComplete { header, id } && r.1
                    == BuildSnapshotAction::CompleteSnapshot(SnapshotRange { id, end_index: header.last_index })
            } else {
                r.0 is Failed
            },
            (BuildSnapshotState::AwaitComplete { header, id }, BuildSnapshotEvent::Completed) => r.0
                == BuildSnapshotState::Finished { header, id } && r.1 == BuildSnapshotAction::Finish { id },
            _ => r.0 is Failed,
        },
{
    match (st, ev) {
        (BuildSnapshotState::Idle { last_index }, BuildSnapshotEvent::Start) => (
            BuildSnapshotState::AwaitLog { last_index },
            BuildSnapshotAction::QueryLog { start: last_index, end: last_index + 1 },
        ),
        (BuildSnapshotState::AwaitLog { last_index }, BuildSnapshotEvent::LastLog { term }) => {
            let last_term = match term {
                Some(t) => t,
                None => 0,
            };
            (BuildSnapshotState::AwaitMember { last_index, last_term }, BuildSnapshotAction::LoadMember)
        },
        (
            BuildSnapshotState::AwaitMember { last_index, last_term },
            BuildSnapshotEvent::Member { member, member_after_consensus, node_addrs },
        ) => {
            let header = SnapshotHeaderDto { last_index, last_term, member, member_after_consensus, node_addrs };
            let h = header.duplicate();
            (BuildSnapshotState::AwaitSnapshot { header }, BuildSnapshotAction::NewSnapshot(h))
        },
        (BuildSnapshotState::AwaitSnapshot { header }, BuildSnapshotEvent::Created { id }) => (
            BuildSnapshotState::Writing { header, id, written: 0 },
            BuildSnapshotAction::WriteConfig,
        ),
        (BuildSnapshotState::Writing { header, id, written }, BuildSnapshotEvent::Written) => {
            if written == 0 {
                (BuildSnapshotState::Writing { header, id, written: 1 }, BuildSnapshotAction::WriteTable)
            } else if written == 1 {
                (BuildSnapshotState::Writing { header, id, written: 2 }, BuildSnapshotAction::WriteNamespace)
            } else if written == 2 {
                (BuildSnapshotState::Writing { header, id, written: 3 }, BuildSnapshotAction::Flush)
            } else if written == 3 {
                let end_index = header.last_index;
                (
                    BuildSnapshotState::AwaitComplete { header, id },
                    BuildSnapshotAction::CompleteSnapshot(SnapshotRange { id, end_index }),
                )
            } else {
                (BuildSnapshotState::Failed, BuildSnapshotAction::Abort)
            }
        },
        (BuildSnapshotState::AwaitComplete { header, id }, BuildSnapshotEvent::Completed) => (
            BuildSnapshotState::Finished { header, id },
            BuildSnapshotAction::Finish { id },
        ),
        _ => (BuildSnapshotState::Failed, BuildSnapshotAction::Abort),
    }
}

/// The stage reached from `st` after the events `evs`, in order.
pub open spec fn run_stage(st: BuildStage, evs: Seq<BuildEventKind>) -> BuildStage
    decreases evs.len(),
{
    if evs.len() == 0 {
        st
    } else {
        next_stage(run_stage(st, evs.drop_last()), evs.last())
    }
}

/// The events of a build that succeeds, in order.
pub open spec fn build_path() -> Seq<BuildEventKind> {
    seq![
        BuildEventKind::Start,
        BuildEventKind::LastLog,
        BuildEventKind::Member,
        BuildEventKind::Created,
        BuildEventKind::Written,
        BuildEventKind::Written,
        BuildEventKind::Written,
        BuildEventKind::Written,
        BuildEventKind::Completed,
    ]
}

/// The stage reached after the first `n` events of a build that succeeds.
pub open spec fn path_stage(n: nat) -> BuildStage {
    if n == 0 {
        BuildStage::Idle
    } else if n == 1 {
        BuildStage::AwaitLog
    } else if n == 2 {
        BuildStage::AwaitMember
    } else if n == 3 {
        BuildStage::AwaitSnapshot
    } else if n <= 7 {
        BuildStage::Writing((n - 4) as u8)
    } else if n == 8 {
        BuildStage::AwaitComplete
    } else {
        BuildStage::Finished
    }
}

/// A build that has not failed has seen the first events of the
/// succeeding build, in order, and stands where that build stands.
proof fn lemma_unfailed_run(evs: Seq<BuildEventKind>)
    requires
        run_stage(BuildStage::Idle, evs) != BuildStage::Failed,
    ensures
        evs.len() <= 9,
        evs == build_path().take(evs.len() as int),
        run_stage(BuildStage::Idle, evs) == path_stage(evs.len()),
    decreases evs.len(),
{
    if evs.len() > 0 {
        let p = evs.drop_last();
        if run_stage(BuildStage::Idle, p) == BuildStage::Failed {
            assert(next_stage(BuildStage::Failed, evs.last()) == BuildStage::Failed);
        } else {
            lemma_unfailed_run(p);
            let n = p.len();
            assert(evs =~= p.push(evs.last()));
            assert(build_path().take(n as int + 1) =~= build_path().take(n as int).push(build_path()[n as int]));
        }
    }
}

/// Building a snapshot tells the snapshot manager that it is complete
/// (which happens only from the stage `Writing(3)`, on a success) only
/// after the log entry, the membership and the new snapshot were had and
/// the three writes and the flush succeeded, in that order.
pub proof fn law_complete_after_every_write(evs: Seq<BuildEventKind>)
    ensures
        run_stage(BuildStage::Idle, evs) == BuildStage::Writing(3) ==> evs == build_path().take(7),
{
    if run_stage(BuildStage::Idle, evs) == BuildStage::Writing(3) {
        lemma_unfailed_run(evs);
    }
}

/// Once any step of a build failed, the build stays failed: no later event
/// brings it to the stage from which the snapshot is marked complete.
pub proof fn law_failure_is_final(evs: Seq<BuildEventKind>, i: int)
    requires
        0 <= i < evs.len(),
        evs[i] == BuildEventKind::Failed,
    ensures
        run_stage(BuildStage::Idle, evs) == BuildStage::Failed,
{
    if run_stage(BuildStage::Idle, evs) != BuildStage::Failed {
        lemma_unfailed_run(evs);
        assert(build_path().take(evs.len() as int)[i] == build_path()[i]);
    }
}

} // verus!
