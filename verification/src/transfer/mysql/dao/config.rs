use vstd::prelude::*;

verus! {

/// A row of the config table.
#[derive(Clone, Debug, Default)]
pub struct ConfigInfoDO {
    pub id: Option<i64>,
    pub data_id: Option<String>,
    pub group_id: Option<String>,
    pub content: Option<String>,
    pub md5: Option<String>,
    pub gmt_modified_timestamp: Option<i64>,
    pub src_user: Option<String>,
    pub src_ip: Option<String>,
    pub app_name: Option<String>,
    pub tenant_id: Option<String>,
    pub c_desc: Option<String>,
    pub c_use: Option<String>,
    pub effect: Option<String>,
    pub config_type: Option<String>,
    pub c_schema: Option<String>,
    pub encrypted_data_key: Option<String>,
}

/// The filters and paging of a config query.
#[derive(Clone, Copy, Debug, Default)]
pub struct ConfigInfoParam {
    pub id: Option<i64>,
    pub limit: Option<i64>,
    pub offset: Option<i64>,
}

/// The SQL statements on the config table.
#[derive(Clone, Copy, Debug, Default)]
pub struct ConfigInfoSql {}

/// Queries on the config table through an executor of the database.
pub struct ConfigInfoDao<E> {
    executor: E,
    inner: ConfigInfoSql,
}

impl<E> ConfigInfoDao<E> {
    pub closed spec fn spec_executor(&self) -> E {
        self.executor
    }

    pub fn new(executor: E) -> (r: Self)
        ensures
            r.spec_executor() == executor,
    {
        ConfigInfoDao { executor, inner: ConfigInfoSql {} }
    }
}

} // verus!
