use vstd::prelude::*;

verus! {

/// The identity of a configuration: its data id, group and tenant.
#[derive(Clone, Debug, Default)]
pub struct ConfigKey {
    pub data_id: String,
    pub group: String,
    pub tenant: String,
}

/// Where a request is to be carried out: on this node, on the leader at a
/// known address, or nowhere known yet.
#[derive(Clone, Debug)]
pub enum RouteAddr {
    Local,
    Remote(u64, String),
    Unknown,
}

/// A request to set a configuration's value.
#[derive(Clone, Debug)]
pub struct SetConfigReq {
    pub config_key: ConfigKey,
    pub value: String,
    pub op_user: Option<String>,
}

impl SetConfigReq {
    /// A request with no operating user.
    pub fn new(config_key: ConfigKey, value: String) -> (r: Self)
        ensures
            r.config_key == config_key,
            r.value == value,
            r.op_user is None,
    {
        SetConfigReq { config_key, value, op_user: None }
    }

    /// A request made by `op_user`.
    pub fn new_with_op_user(config_key: ConfigKey, value: String, op_user: String) -> (r: Self)
        ensures
            r.config_key == config_key,
            r.value == value,
            r.op_user == Some(op_user),
    {
        SetConfigReq { config_key, value, op_user: Some(op_user) }
    }
}

/// A request to delete a configuration.
#[derive(Clone, Debug)]
pub struct DelConfigReq {
    pub config_key: ConfigKey,
}

impl DelConfigReq {
    pub fn new(config_key: ConfigKey) -> (r: Self)
        ensures
            r.config_key == config_key,
    {
        DelConfigReq { config_key }
    }
}

} // verus!
