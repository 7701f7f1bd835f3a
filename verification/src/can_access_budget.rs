//! Collaborator access: a grant gives a non-owner user access to a budget.
use vstd::prelude::*;

verus! {

/// Wire shape of an access pair keyed by numeric user id.
pub struct CanAccessBudget {
    pub budget_id: i64,
    pub user_id: i64,
}

impl CanAccessBudget {
    pub fn new(budget_id: i64, user_id: i64) -> (r: CanAccessBudget)
        ensures
            r.budget_id == budget_id,
            r.user_id == user_id,
    {
        CanAccessBudget { budget_id, user_id }
    }
}

/// A stored collaborator grant: (budget, collaborator identity) pair.
/// The owner of a budget never appears as a grantee of that budget.
#[derive(Debug)]
pub struct Grant {
    pub budget_id: i64,
    pub email: String,
}

impl Clone for Grant {
    fn clone(&self) -> (r: Grant)
        ensures
            r == *self,
    {
        Grant { budget_id: self.budget_id, email: self.email.clone() }
    }
}

} // verus!
