use vstd::prelude::*;

verus! {

/// A row of the user table.
#[derive(Clone, Debug, Default)]
pub struct UserDO {
    pub username: Option<String>,
    pub password: Option<String>,
    pub enabled: Option<i64>,
}

/// The filters and paging of a user query.
#[derive(Clone, Copy, Debug, Default)]
pub struct UserParam {
    pub id: Option<i64>,
    pub limit: Option<i64>,
    pub offset: Option<i64>,
}

/// The SQL statements on the user table.
#[derive(Clone, Copy, Debug, Default)]
pub struct UserSql {}

/// Queries on the user table through an executor of the database.
pub struct UserDao<E> {
    executor: E,
    inner: UserSql,
}

impl<E> UserDao<E> {
    pub closed spec fn spec_executor(&self) -> E {
        self.executor
    }

    pub fn new(executor: E) -> (r: Self)
        ensures
            r.spec_executor() == executor,
    {
        UserDao { executor, inner: UserSql {} }
    }
}

} // verus!
