//! Effective access rights from the grants on a shared object.
use vstd::prelude::*;

verus! {

/// The rights (a bitmap) granted to one account.
#[derive(Clone, Copy, Debug, PartialEq, Eq, Structural)]
pub struct AclGrant {
    pub account_id: u32,
    pub grants: u64,
}

/// Who is asking: an account and the groups it belongs to.
pub struct AccessToken {
    pub primary_id: u32,
    pub member_of: Vec<u32>,
}

impl AccessToken {
    pub open spec fn member_spec(&self, account_id: u32) -> bool {
        self.primary_id == account_id || self.member_of@.contains(account_id)
    }

    /// Whether the token speaks for `account_id`: it is that account or one of
    /// its groups.
    pub fn is_member(&self, account_id: u32) -> (r: bool)
        ensures
            r == self.member_spec(account_id),
    {
        if self.primary_id == account_id {
            return true;
        }
        let mut i: usize = 0;
        while i < self.member_of.len()
            invariant
                i <= self.member_of@.len(),
                forall|j: int| 0 <= j < i ==> self.member_of@[j] != account_id,
            decreases self.member_of@.len() - i,
        {
            if self.member_of[i] == account_id {
                return true;
            }
            i = i + 1;
        }
        false
    }
}

/// The union of the rights of the first `k` grants that apply to the token.
pub open spec fn acl_union(grants: Seq<AclGrant>, token: &AccessToken, k: int) -> u64
    decreases k,
{
    if k <= 0 {
        0
    } else if token.member_spec(grants[k - 1].account_id) {
        acl_union(grants, token, k - 1) | grants[k - 1].grants
    } else {
        acl_union(grants, token, k - 1)
    }
}

/// Objects that carry a list of grants.
pub trait EffectiveAcl {
    spec fn grant_list(&self) -> Seq<AclGrant>;

    /// The rights that the grants give the token: the union of those granted to
    /// it or to its groups.
    fn effective_acl(&self, access_token: &AccessToken) -> (r: u64)
        ensures
            r == acl_union(self.grant_list(), access_token, self.grant_list().len() as int),
    ;
}

impl EffectiveAcl for Vec<AclGrant> {
    open spec fn grant_list(&self) -> Seq<AclGrant> {
        self@
    }

    fn effective_acl(&self, access_token: &AccessToken) -> (r: u64) {
        let mut acl: u64 = 0;
        let mut i: usize = 0;
        while i < self.len()
            invariant
                i <= self@.len(),
                acl == acl_union(self@, access_token, i as int),
            decreases self@.len() - i,
        {
            if access_token.is_member(self[i].account_id) {
                acl = acl | self[i].grants;
            }
            i = i + 1;
        }
        acl
    }
}

} // verus!
