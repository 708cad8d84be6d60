use vstd::prelude::*;


verus! {

/// The last ids given to rows of each table written to a database.
#[derive(Clone, Copy, Debug, PartialEq, Eq)]
pub struct TableSeq {
    pub(crate) config_id: i64,
    pub(crate) config_history_id: i64,
    pub(crate) tenant_id: i64,
    pub(crate) user_id: i64,
}

impl Default for TableSeq {
    /// No row written yet: every last id is 0.
    fn default() -> (r: Self)
        ensures
            r.spec_config_id() == 0,
            r.spec_config_history_id() == 0,
            r.spec_tenant_id() == 0,
            r.spec_user_id() == 0,
    {
        TableSeq { config_id: 0, config_history_id: 0, tenant_id: 0, user_id: 0 }
    }
}

impl TableSeq {
    /// No row written yet: every last id is 0.
    pub fn new() -> (r: Self)
        ensures
            r.spec_config_id() == 0,
            r.spec_config_history_id() == 0,
            r.spec_tenant_id() == 0,
            r.spec_user_id() == 0,
    {
        TableSeq { config_id: 0, config_history_id: 0, tenant_id: 0, user_id: 0 }
    }

    pub closed spec fn spec_config_id(&self) -> i64 {
        self.config_id
    }

    pub closed spec fn spec_config_history_id(&self) -> i64 {
        self.config_history_id
    }

    pub closed spec fn spec_tenant_id(&self) -> i64 {
        self.tenant_id
    }

    pub closed spec fn spec_user_id(&self) -> i64 {
        self.user_id
    }

    /// The next config row id: one more than the last.
    pub fn next_config_id(&mut self) -> (r: i64)
        requires
            old(self).spec_config_id() < i64::MAX,
        ensures
            r == old(self).spec_config_id() + 1,
            final(self).spec_config_id() == r,
            final(self).spec_config_history_id() == old(self).spec_config_history_id(),
            final(self).spec_tenant_id() == old(self).spec_tenant_id(),
            final(self).spec_user_id() == old(self).spec_user_id(),
    {
        self.config_id += 1;
        self.config_id
    }

    /// The next config history row id: one more than the last.
    pub fn next_config_history_id(&mut self) -> (r: i64)
        requires
            old(self).spec_config_history_id() < i64::MAX,
        ensures
            r == old(self).spec_config_history_id() + 1,
            final(self).spec_config_history_id() == r,
            final(self).spec_config_id() == old(self).spec_config_id(),
            final(self).spec_tenant_id() == old(self).spec_tenant_id(),
            final(self).spec_user_id() == old(self).spec_user_id(),
    {
        self.config_history_id += 1;
        self.config_history_id
    }

    /// The next tenant row id: one more than the last.
    pub fn next_tenant_id(&mut self) -> (r: i64)
        requires
            old(self).spec_tenant_id() < i64::MAX,
        ensures
            r == old(self).spec_tenant_id() + 1,
            final(self).spec_tenant_id() == r,
            final(self).spec_config_id() == old(self).spec_config_id(),
            final(self).spec_config_history_id() == old(self).spec_config_history_id(),
            final(self).spec_user_id() == old(self).spec_user_id(),
    {
        self.tenant_id += 1;
        self.tenant_id
    }

    /// The next user row id: one more than the last.
    pub fn next_user_id(&mut self) -> (r: i64)
        requires
            old(self).spec_user_id() < i64::MAX,
        ensures
            r == old(self).spec_user_id() + 1,
            final(self).spec_user_id() == r,
            final(self).spec_config_id() == old(self).spec_config_id(),
            final(self).spec_config_history_id() == old(self).spec_config_history_id(),
            final(self).spec_tenant_id() == old(self).spec_tenant_id(),
    {
        self.user_id += 1;
        self.user_id
    }
}

} // verus!
