use vstd::prelude::*;

verus! {

/// A row of the config history table.
#[derive(Clone, Debug, Default)]
pub struct ConfigHistoryDO {
    pub id: Option<u64>,
    pub nid: Option<u64>,
    pub data_id: Option<String>,
    pub group_id: Option<String>,
    pub app_name: Option<String>,
    pub content: Option<String>,
    pub md5: Option<String>,
    pub gmt_create_timestamp: Option<i64>,
    pub src_user: Option<String>,
    pub src_ip: Option<String>,
    pub op_type: Option<String>,
    pub tenant_id: Option<String>,
    pub encrypted_data_key: Option<String>,
}

/// The filters, order and paging of a config history query.
#[derive(Clone, Debug, Default)]
pub struct ConfigHistoryParam {
    pub id: Option<i64>,
    pub limit: Option<i64>,
    pub offset: Option<i64>,
    pub data_id: Option<String>,
    pub group_id: Option<String>,
    pub tenant_id: Option<String>,
    pub order_by_gmt_create_desc: bool,
}

/// The SQL statements on the config history table.
#[derive(Clone, Copy, Debug, Default)]
pub struct ConfigHistorySql {}

} // verus!
