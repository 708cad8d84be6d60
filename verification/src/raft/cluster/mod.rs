use vstd::prelude::*;
use crate::common::strmap::StrMap;
use crate::raft::cache::{CacheLimiterReq, CacheManagerResult};
use crate::raft::db::table::{TableManagerReq, TableManagerQueryReq, TableManagerResult};
use crate::raft::store::{ClientRequest, ClientResponse, NamespaceRaftReq, NamespaceRaftResult};
use crate::transfer::model::TransferImportResponse;

pub mod model;
pub mod route;

verus! {

/// A request that a node hands to the leader of the cluster.
pub enum RouterRequest {
    ConfigSet {
        key: String,
        value: String,
        op_user: Option<String>,
        config_type: Option<String>,
        desc: Option<String>,
        extend_info: StrMap<String>,
    },
    ConfigDel { key: String, extend_info: StrMap<String> },
    JoinNode { node_id: u64, node_addr: String },
    TableManagerReq { req: TableManagerReq },
    TableManagerQueryReq { req: TableManagerQueryReq },
    CacheLimiterReq { req: CacheLimiterReq },
    NamespaceReq { req: NamespaceRaftReq },
    /// Data to import, with the import's parameters in serialized form.
    ImportData { data: Vec<u8>, param: Vec<u8> },
}

/// The leader's answer to a routed request.
pub enum RouterResponse {
    /// The request was carried out and has no value to give.
    Done,
    TableManagerResult { result: TableManagerResult },
    CacheManagerResult { result: CacheManagerResult },
    NamespaceResult { result: NamespaceRaftResult },
    ImportResult { result: TransferImportResponse },
}

/// What the leader does for a routed request.
pub enum RouteAction {
    /// Tell the configuration service to set the configuration named by
    /// the key text.
    ConfigAdd { key: String, value: String, op_user: Option<String>, config_type: Option<String>, desc: Option<String> },
    /// Tell the configuration service to delete it.
    ConfigDelete { key: String },
    /// Write the node's address through raft, then add the node to the
    /// cluster as a non-voter, then let it join.
    JoinNode { node_id: u64, write: ClientRequest },
    /// Hand the change to the tables, which write it through raft.
    Table(TableManagerReq),
    /// Read the tables.
    TableQuery(TableManagerQueryReq),
    /// Count a use against a limit in the cache.
    Limiter(CacheLimiterReq),
    /// Write the command through raft.
    RaftWrite(ClientRequest),
    /// Hand the data to the importer.
    Import { data: Vec<u8>, param: Vec<u8> },
}

/// The kinds of routed requests.
#[derive(Clone, Copy, Debug, PartialEq, Eq, Structural)]
pub enum RouteKind {
    ConfigSet,
    ConfigDel,
    JoinNode,
    Table,
    TableQuery,
    Limiter,
    Namespace,
    Import,
}

/// The kind of a routed request.
pub open spec fn route_kind_of(req: RouterRequest) -> RouteKind {
    match req {
        RouterRequest::ConfigSet { .. } => RouteKind::ConfigSet,
        RouterRequest::ConfigDel { .. } => RouteKind::ConfigDel,
        RouterRequest::JoinNode { .. } => RouteKind::JoinNode,
        RouterRequest::TableManagerReq { .. } => RouteKind::Table,
        RouterRequest::TableManagerQueryReq { .. } => RouteKind::TableQuery,
        RouterRequest::CacheLimiterReq { .. } => RouteKind::Limiter,
        RouterRequest::NamespaceReq { .. } => RouteKind::Namespace,
        RouterRequest::ImportData { .. } => RouteKind::Import,
    }
}

impl RouterRequest {
    /// The kind of this request.
    pub fn kind(&self) -> (r: RouteKind)
        ensures
            r == route_kind_of(*self),
    {
        match self {
            RouterRequest::ConfigSet { .. } => RouteKind::ConfigSet,
            RouterRequest::ConfigDel { .. } => RouteKind::ConfigDel,
            RouterRequest::JoinNode { .. } => RouteKind::JoinNode,
            RouterRequest::TableManagerReq { .. } => RouteKind::Table,
            RouterRequest::TableManagerQueryReq { .. } => RouteKind::TableQuery,
            RouterRequest::CacheLimiterReq { .. } => RouteKind::Limiter,
            RouterRequest::NamespaceReq { .. } => RouteKind::Namespace,
            RouterRequest::ImportData { .. } => RouteKind::Import,
        }
    }
}

/// What the leader does for the routed request `req`: a configuration set
/// or delete goes to the configuration service (the extension fields are
/// not read); a join writes the node's address through raft, as a
/// `NodeAddr` command, before the node is added; table changes, table
/// reads, limiter counts and imports go to their services unchanged; a
/// namespace request is written through raft.
pub fn route_action(req: RouterRequest) -> (r: RouteAction)
    ensures
        match req {
            RouterRequest::ConfigSet { key, value, op_user, config_type, desc, .. } => r
                == RouteAction::ConfigAdd { key, value, op_user, config_type, desc },
            RouterRequest::ConfigDel { key, .. } => r == RouteAction::ConfigDelete { key },
            RouterRequest::JoinNode { node_id, node_addr } => r == RouteAction::JoinNode {
                node_id,
                write: ClientRequest::NodeAddr { id: node_id, addr: node_addr },
            },
            RouterRequest::TableManagerReq { req } => r == RouteAction::Table(req),
            RouterRequest::TableManagerQueryReq { req } => r == RouteAction::TableQuery(req),
            RouterRequest::CacheLimiterReq { req } => r == RouteAction::Limiter(req),
            RouterRequest::NamespaceReq { req } => r == RouteAction::RaftWrite(ClientRequest::NamespaceReq(req)),
            RouterRequest::ImportData { data, param } => r == RouteAction::Import { data, param },
        },
{
    match req {
        RouterRequest::ConfigSet { key, value, op_user, config_type, desc, extend_info } => RouteAction::ConfigAdd {
            key,
            value,
            op_user,
            config_type,
            desc,
        },
        RouterRequest::ConfigDel { key, extend_info } => RouteAction::ConfigDelete { key },
        RouterRequest::JoinNode { node_id, node_addr } => RouteAction::JoinNode {
            node_id,
            write: ClientRequest::NodeAddr { id: node_id, addr: node_addr },
        },
        RouterRequest::TableManagerReq { req } => RouteAction::Table(req),
        RouterRequest::TableManagerQueryReq { req } => RouteAction::TableQuery(req),
        RouterRequest::CacheLimiterReq { req } => RouteAction::Limiter(req),
        RouterRequest::NamespaceReq { req } => RouteAction::RaftWrite(ClientRequest::NamespaceReq(req)),
        RouterRequest::ImportData { data, param } => RouteAction::Import { data, param },
    }
}

/// What a service gave back for a routed request.
pub enum RouteReply {
    /// The work was done and gave no value.
    Done,
    Table(TableManagerResult),
    Cache(CacheManagerResult),
    Import(TransferImportResponse),
    /// The answer of the state machine to a command written through raft.
    Raft(ClientResponse),
}

/// Why a routed request failed: the message of the service or of the
/// mailbox that could not reach it.
#[derive(Clone, Debug)]
pub struct RouteError {
    pub message: String,
}

/// Each service answers in its own kind: the tables with a table result,
/// the limiter with a cache result, the importer with an import answer,
/// raft with the state machine's answer, the others with no value.
pub open spec fn route_reply_fits(kind: RouteKind, reply: Result<RouteReply, RouteError>) -> bool {
    match reply {
        Ok(RouteReply::Table(_)) => kind == RouteKind::Table || kind == RouteKind::TableQuery,
        Ok(RouteReply::Cache(_)) => kind == RouteKind::Limiter,
        Ok(RouteReply::Import(_)) => kind == RouteKind::Import,
        Ok(RouteReply::Raft(_)) => kind == RouteKind::Namespace,
        Ok(RouteReply::Done) => kind == RouteKind::ConfigSet || kind == RouteKind::ConfigDel || kind
            == RouteKind::JoinNode,
        Err(_) => true,
    }
}

/// The leader's answer to a routed request of kind `kind`, from what its
/// service gave back: a table change or read answers with the tables'
/// result, a limiter count with the cache's, an import with the importer's;
/// a namespace request that the state machine answered `Success` answers
/// with the namespace service's empty result, and any other answer of it
/// with no value, as do configuration changes and joins; an error is
/// handed back as it is.
pub fn route_response(kind: RouteKind, reply: Result<RouteReply, RouteError>) -> (r: Result<RouterResponse, RouteError>)
    requires
        route_reply_fits(kind, reply),
    ensures
        match reply {
            Err(e) => r == Err::<RouterResponse, RouteError>(e),
            Ok(RouteReply::Table(result)) => r == Ok::<RouterResponse, RouteError>(
                RouterResponse::TableManagerResult { result },
            ),
            Ok(RouteReply::Cache(result)) => r == Ok::<RouterResponse, RouteError>(
                RouterResponse::CacheManagerResult { result },
            ),
            Ok(RouteReply::Import(result)) => r == Ok::<RouterResponse, RouteError>(
                RouterResponse::ImportResult { result },
            ),
            Ok(RouteReply::Raft(resp)) => if resp is Success {
                r == Ok::<RouterResponse, RouteError>(
                    RouterResponse::NamespaceResult { result: NamespaceRaftResult::Done },
                )
            } else {
                r matches Ok(RouterResponse::Done)
            },
            Ok(RouteReply::Done) => r matches Ok(RouterResponse::Done),
        },
{
    match reply {
        Err(e) => Err(e),
        Ok(RouteReply::Table(result)) => Ok(RouterResponse::TableManagerResult { result }),
        Ok(RouteReply::Cache(result)) => Ok(RouterResponse::CacheManagerResult { result }),
        Ok(RouteReply::Import(result)) => Ok(RouterResponse::ImportResult { result }),
        Ok(RouteReply::Raft(resp)) => match resp {
            ClientResponse::Success => Ok(RouterResponse::NamespaceResult { result: NamespaceRaftResult::Done }),
            _ => Ok(RouterResponse::Done),
        },
        Ok(RouteReply::Done) => Ok(RouterResponse::Done),
    }
}

} // verus!
