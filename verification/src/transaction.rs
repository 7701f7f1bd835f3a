//! A transaction: an immutable spend record on a budget. The timestamp is a
//! "YYYY-MM-DD HH:MM:SS.mmm" string; the recurrence fields are stored hints
//! and are never expanded into future transactions.
use vstd::prelude::*;

verus! {

/// `amount` is an integer in the currency's minor unit, signed.
#[derive(Debug)]
pub struct Transaction {
    pub transaction_id: Option<i64>,
    pub budget_id: i64,
    pub email: Option<String>,
    pub name: String,
    pub description: String,
    pub date: Option<String>,
    pub amount: i64,
    pub recur_days: Option<i64>,
    pub recur_until: Option<String>,
}

impl Transaction {
    pub fn new(
        budget_id: i64,
        name: String,
        description: String,
        amount: i64,
        recur_days: Option<i64>,
        recur_until: Option<String>,
    ) -> (r: Transaction)
        ensures
            r == (Transaction {
                transaction_id: None,
                budget_id: budget_id,
                email: None,
                name: name,
                description: description,
                date: None,
                amount: amount,
                recur_days: recur_days,
                recur_until: recur_until,
            }),
    {
        Transaction {
            transaction_id: None,
            budget_id,
            email: None,
            name,
            description,
            date: None,
            amount,
            recur_days,
            recur_until,
        }
    }
}

impl Clone for Transaction {
    fn clone(&self) -> (r: Transaction)
        ensures
            r == *self,
    {
        Transaction {
            transaction_id: self.transaction_id,
            budget_id: self.budget_id,
            email: match &self.email {
                Some(e) => Some(e.clone()),
                None => None,
            },
            name: self.name.clone(),
            description: self.description.clone(),
            date: match &self.date {
                Some(d) => Some(d.clone()),
                None => None,
            },
            amount: self.amount,
            recur_days: self.recur_days,
            recur_until: match &self.recur_until {
                Some(u) => Some(u.clone()),
                None => None,
            },
        }
    }
}

} // verus!
