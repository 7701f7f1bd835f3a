//! A budget: a named spending container with an owner, a spend limit, a
//! recurring period length in days, and an anchoring start date.
use vstd::prelude::*;

verus! {

/// Monetary amounts are integers in the currency's minor unit.
/// `start_date` is a "YYYY-MM-DD" string; `period_length` is in days.
#[derive(Debug)]
pub struct Budget {
    pub budget_id: Option<i64>,
    pub owner: Option<String>,
    pub name: String,
    pub spend_limit: i64,
    pub period_length: i64,
    pub start_date: String,
}

impl Budget {
    pub fn new(name: String, spend_limit: i64, period_length: i64, start_date: String) -> (r:
        Budget)
        ensures
            r == (Budget {
                budget_id: None,
                owner: None,
                name: name,
                spend_limit: spend_limit,
                period_length: period_length,
                start_date: start_date,
            }),
    {
        Budget { budget_id: None, owner: None, name, spend_limit, period_length, start_date }
    }
}

impl Clone for Budget {
    fn clone(&self) -> (r: Budget)
        ensures
            r == *self,
    {
        Budget {
            budget_id: self.budget_id,
            owner: match &self.owner {
                Some(o) => Some(o.clone()),
                None => None,
            },
            name: self.name.clone(),
            spend_limit: self.spend_limit,
            period_length: self.period_length,
            start_date: self.start_date.clone(),
        }
    }
}

} // verus!
