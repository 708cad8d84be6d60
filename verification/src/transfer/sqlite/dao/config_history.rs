use vstd::prelude::*;

verus! {

/// A row of the config history table.
#[derive(Clone, Debug, Default)]
pub struct ConfigHistoryDO {
    pub id: Option<i64>,
    pub data_id: Option<String>,
    pub group_id: Option<String>,
    pub tenant_id: Option<String>,
    pub content: Option<String>,
    pub config_type: Option<String>,
    pub config_desc: Option<String>,
    pub op_user: Option<String>,
    pub last_time: Option<i64>,
}

/// The filters and paging of a config history query.
#[derive(Clone, Debug, Default)]
pub struct ConfigHistoryParam {
    pub id: Option<i64>,
    pub data_id: Option<String>,
    pub group_id: Option<String>,
    pub tenant_id: Option<String>,
    pub limit: Option<i64>,
    pub offset: Option<i64>,
}

/// The SQL statements on the config history table.
#[derive(Clone, Copy, Debug, Default)]
pub struct ConfigHistorySql {}

} // verus!
