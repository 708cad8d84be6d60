use vstd::prelude::*;

verus! {

/// A row of the tenant table.
#[derive(Clone, Debug, Default)]
pub struct TenantDO {
    pub id: Option<i64>,
    pub tenant_id: Option<String>,
    pub tenant_name: Option<String>,
    pub tenant_desc: Option<String>,
}

/// The filters and paging of a tenant query.
#[derive(Clone, Copy, Debug, Default)]
pub struct TenantParam {
    pub id: Option<i64>,
    pub limit: Option<i64>,
    pub offset: Option<i64>,
}

/// The SQL statements on the tenant table.
#[derive(Clone, Copy, Debug, Default)]
pub struct TenantSql {}

} // verus!
