//! Request forms and typed results shared with clients of the service.
//! Every operation answers with a `ResultStatus` plus an optional payload.
use crate::budget::Budget;
use crate::budget_period::BudgetPeriod;
use crate::transaction::Transaction;
use vstd::prelude::*;

verus! {

pub enum ResultStatus {
    Success,
    InvalidCredentials,
    InvalidAccessToken,
    EntryDoesNotExist,
    Error(String),
}

// --- Forms ---

pub struct CredentialForm {
    pub email: String,
    pub password: String,
}

pub struct ChangePasswordForm {
    pub access_token: String,
    pub current_password: String,
    pub new_password: String,
}

pub struct RegisterAccountForm {
    pub email: String,
    pub first_name: String,
    pub last_name: String,
    pub password: String,
}

pub struct AccessTokenForm {
    pub access_token: String,
}

pub struct SelectForm {
    pub access_token: String,
    pub id: i64,
}

pub struct AddBudgetForm {
    pub access_token: String,
    pub budget_name: String,
    pub budget_spend_limit: i64,
    pub budget_period_length: i64,
    pub budget_start_date: Option<String>,
}

pub struct CanAccessBudgetForm {
    pub access_token: String,
    pub budget_id: i64,
    pub email: String,
}

pub struct AddTransactionForm {
    pub access_token: String,
    pub budget_id: i64,
    pub transaction_name: String,
    pub transaction_description: String,
    pub transaction_amount: i64,
    pub transaction_recur_days: Option<i64>,
    pub transaction_recur_until: Option<String>,
}

pub struct BudgetPeriodForm {
    pub access_token: String,
    pub budget_id: i64,
    pub period_id: i64,
}

// --- Results ---

pub struct AccessTokenResult {
    pub status: ResultStatus,
    pub access_token: Option<String>,
}

pub struct StatusResult {
    pub status: ResultStatus,
}

pub struct BudgetListResult {
    pub status: ResultStatus,
    pub budgets: Option<Vec<Budget>>,
}

pub struct BudgetResult {
    pub status: ResultStatus,
    pub budget: Option<Budget>,
}

pub struct UserListResult {
    pub status: ResultStatus,
    pub users: Option<Vec<String>>,
}

pub struct TransactionListResult {
    pub status: ResultStatus,
    pub transactions: Option<Vec<Transaction>>,
}

pub struct TransactionResult {
    pub status: ResultStatus,
    pub transaction: Option<Transaction>,
}

pub struct BudgetPeriodListResult {
    pub status: ResultStatus,
    pub budget_periods: Option<Vec<BudgetPeriod>>,
}

pub struct BudgetBalanceResult {
    pub status: ResultStatus,
    pub spent: Option<i128>,
}

pub struct BudgetPeriodResult {
    pub status: ResultStatus,
    pub budget_period: Option<BudgetPeriod>,
}

} // verus!
