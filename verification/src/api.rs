//! The operations as the service exposes them: each resolves the caller,
//! runs one store operation, and wraps the answer in a typed status.
use crate::budget::Budget;
use crate::database::{
    available_budget_spec, budget_available, budget_read_gate, budget_start_day,
    current_period_result_ok, delete_budget_outcome, find_budget, find_user_by_email,
    find_user_by_token, grant_access_outcome, hash_of, is_budget_member,
    periods_list_result_ok, revoke_access_outcome, sorted_desc, sum_amounts, token_of, tx_day,
    user_idx_by_email, user_idx_by_token, Database, Error, User,
};
use crate::shared::{
    AccessTokenForm, AccessTokenResult, AddBudgetForm, AddTransactionForm, BudgetBalanceResult,
    BudgetListResult, BudgetPeriodForm, BudgetPeriodListResult, BudgetPeriodResult, BudgetResult,
    CanAccessBudgetForm, ChangePasswordForm, CredentialForm, RegisterAccountForm, ResultStatus,
    SelectForm, StatusResult, TransactionListResult, TransactionResult, UserListResult,
};
use crate::transaction::Transaction;
use vstd::prelude::*;
use vstd::string::StringExecFns;

verus! {

/// How a store failure is reported to a client.
pub open spec fn status_of(e: Error, s: ResultStatus) -> bool {
    match e {
        Error::InvalidCredentials => s matches ResultStatus::InvalidCredentials,
        Error::InvalidAccessToken => s matches ResultStatus::InvalidAccessToken,
        Error::LoadFileError => s matches ResultStatus::Error(m) && m@ == "LoadFileError"@,
        Error::CreateAdminError => s matches ResultStatus::Error(m) && m@ == "CreateAdminError"@,
        Error::EntryNotFound => s matches ResultStatus::Error(m) && m@ == "EntryNotFound"@,
        Error::UserAlreadyExists => s matches ResultStatus::Error(m) && m@
            == "UserAlreadyExists"@,
        Error::AlreadyGranted => s matches ResultStatus::Error(m) && m@ == "AlreadyGranted"@,
        Error::UpdateEntryMissingID => s matches ResultStatus::Error(m) && m@
            == "UpdateEntryMissingID"@,
        Error::UserDeniedError => s matches ResultStatus::Error(m) && m@ == "UserDeniedError"@,
        Error::AccessRecursionError => s matches ResultStatus::Error(m) && m@
            == "AccessRecursionError"@,
        Error::NotYetStarted => s matches ResultStatus::Error(m) && m@ == "NotYetStarted"@,
        Error::UnknownError => s matches ResultStatus::Error(m) && m@ == "UnknownError"@,
    }
}

fn error_status(e: &Error) -> (r: ResultStatus)
    ensures
        status_of(*e, r),
{
    match e {
        Error::InvalidCredentials => ResultStatus::InvalidCredentials,
        Error::InvalidAccessToken => ResultStatus::InvalidAccessToken,
        Error::LoadFileError => ResultStatus::Error(String::from_str("LoadFileError")),
        Error::CreateAdminError => ResultStatus::Error(String::from_str("CreateAdminError")),
        Error::EntryNotFound => ResultStatus::Error(String::from_str("EntryNotFound")),
        Error::UserAlreadyExists => ResultStatus::Error(String::from_str("UserAlreadyExists")),
        Error::AlreadyGranted => ResultStatus::Error(String::from_str("AlreadyGranted")),
        Error::UpdateEntryMissingID => ResultStatus::Error(
            String::from_str("UpdateEntryMissingID"),
        ),
        Error::UserDeniedError => ResultStatus::Error(String::from_str("UserDeniedError")),
        Error::AccessRecursionError => ResultStatus::Error(
            String::from_str("AccessRecursionError"),
        ),
        Error::NotYetStarted => ResultStatus::Error(String::from_str("NotYetStarted")),
        Error::UnknownError => ResultStatus::Error(String::from_str("UnknownError")),
    }
}

/// Registers a new account and answers its access token.
pub fn register_user(database: &mut Database, json: &RegisterAccountForm) -> (r: AccessTokenResult)
    requires
        old(database).wf(),
    ensures
        final(database).wf(),
        ({
            let m = old(database)@;
            let hpw = hash_of(json.password@, m.secret);
            let tok = token_of(json.email@, hpw, m.secret);
            if find_user_by_email(m.users, json.email@) is Some {
                &&& status_of(Error::UserAlreadyExists, r.status)
                &&& r.access_token is None
                &&& final(database)@ == m
            } else {
                &&& r.status matches ResultStatus::Success
                &&& r.access_token matches Some(t) && t@ == tok
                &&& final(database)@.users.len() == m.users.len() + 1
                &&& final(database)@ == (crate::database::DbModel {
                    users: m.users.push(final(database)@.users.last()),
                    ..m
                })
                &&& final(database)@.users.last().email@ == json.email@
                &&& final(database)@.users.last().first_name@ == json.first_name@
                &&& final(database)@.users.last().last_name@ == json.last_name@
                &&& final(database)@.users.last().password@ == hpw
                &&& final(database)@.users.last().access_token@ == tok
                &&& final(database)@.users.last().is_admin == false
            }
        }),
{
    let user = User::new(
        database,
        &json.email,
        &json.first_name,
        &json.last_name,
        &json.password,
        false,
    );
    let token = user.access_token.clone();
    match database.insert_user(&user) {
        Ok(_) => AccessTokenResult { status: ResultStatus::Success, access_token: Some(token) },
        Err(e) => AccessTokenResult { status: error_status(&e), access_token: None },
    }
}

/// Logs in: answers the account's access token when the password matches.
pub fn get_access_token(database: &Database, json: &CredentialForm) -> (r: AccessTokenResult)
    ensures
        ({
            let m = database@;
            match find_user_by_email(m.users, json.email@) {
                None => r.status matches ResultStatus::InvalidCredentials && r.access_token
                    is None,
                Some(u) => {
                    if u.password@ == hash_of(json.password@, m.secret) {
                        r.status matches ResultStatus::Success && r.access_token matches Some(t)
                            && t@ == u.access_token@
                    } else {
                        r.status matches ResultStatus::InvalidCredentials && r.access_token
                            is None
                    }
                },
            }
        }),
{
    let user = match database.get_user_by_email(json.email.as_str()) {
        Some(u) => u,
        None => {
            return AccessTokenResult {
                status: ResultStatus::InvalidCredentials,
                access_token: None,
            }
        },
    };
    let hashed = database.hash(&json.password);
    if user.password == hashed {
        AccessTokenResult { status: ResultStatus::Success, access_token: Some(user.access_token) }
    } else {
        AccessTokenResult { status: ResultStatus::InvalidCredentials, access_token: None }
    }
}

/// Changes the password of the caller's account and answers the new access
/// token; every token issued before the change stops resolving.
pub fn change_password(database: &mut Database, json: &ChangePasswordForm) -> (r:
    AccessTokenResult)
    requires
        old(database).wf(),
    ensures
        final(database).wf(),
        ({
            let m = old(database)@;
            match find_user_by_token(m.users, json.access_token@) {
                None => r.status matches ResultStatus::InvalidAccessToken && r.access_token
                    is None && final(database)@ == m,
                Some(u) => {
                    if u.password@ != hash_of(json.current_password@, m.secret) {
                        r.status matches ResultStatus::InvalidCredentials && r.access_token
                            is None && final(database)@ == m
                    } else {
                        let i = user_idx_by_token(m.users, json.access_token@);
                        let hnew = hash_of(json.new_password@, m.secret);
                        let tok = token_of(u.email@, hnew, m.secret);
                        &&& r.status matches ResultStatus::Success
                        &&& r.access_token matches Some(t) && t@ == tok
                        &&& final(database)@ == (crate::database::DbModel {
                            users: m.users.update(i, final(database)@.users[i]),
                            ..m
                        })
                        &&& final(database)@.users[i].email@ == u.email@
                        &&& final(database)@.users[i].password@ == hnew
                        &&& final(database)@.users[i].access_token@ == tok
                        &&& final(database)@.users[i].first_name@ == u.first_name@
                        &&& final(database)@.users[i].last_name@ == u.last_name@
                        &&& final(database)@.users[i].is_admin == u.is_admin
                    }
                },
            }
        }),
{
    let mut user = match database.get_user_by_access_token(json.access_token.as_str()) {
        Some(u) => u,
        None => {
            return AccessTokenResult {
                status: ResultStatus::InvalidAccessToken,
                access_token: None,
            }
        },
    };
    let hashed = database.hash(&json.current_password);
    if user.password != hashed {
        return AccessTokenResult { status: ResultStatus::InvalidCredentials, access_token: None };
    }
    let hnew = database.hash(&json.new_password);
    user.change_password(database, &hnew);
    proof {
        let m = database@;
        let ti = user_idx_by_token(m.users, json.access_token@);
        crate::database::lemma_user_idx_by_token_props(m.users, json.access_token@, 0);
        crate::database::lemma_user_idx_by_email_props(m.users, user.email@, 0);
        let ei = user_idx_by_email(m.users, user.email@);
        if ei != ti {
            // two distinct indices with the same identity contradict the
            // uniqueness of identities
            assert(m.users[ei].email@ == m.users[ti].email@);
            assert(false);
        }
    }
    match database.update_user(&user) {
        Ok(_) => AccessTokenResult {
            status: ResultStatus::Success,
            access_token: Some(user.access_token),
        },
        Err(e) => AccessTokenResult { status: error_status(&e), access_token: None },
    }
}

/// Lists the budgets the caller owns or collaborates on.
pub fn list_budgets(database: &Database, json: &AccessTokenForm) -> (r: BudgetListResult)
    requires
        database.wf(),
    ensures
        r.status matches ResultStatus::Success,
        r.budgets matches Some(bs) && bs@ == (match find_user_by_token(
            database@.users,
            json.access_token@,
        ) {
            Some(u) => database@.budgets.filter(
                |b: Budget| budget_available(database@, b, u.email@),
            ),
            None => Seq::<Budget>::empty(),
        }),
{
    let budgets = database.get_available_budgets(json.access_token.as_str());
    BudgetListResult { status: ResultStatus::Success, budgets: Some(budgets) }
}

/// Creates a budget from a form; a missing start date means today.
pub fn add_budget(database: &mut Database, json: &AddBudgetForm) -> (r: BudgetResult)
    requires
        old(database).wf(),
    ensures
        final(database).wf(),
        ({
            let m = old(database)@;
            match find_user_by_token(m.users, json.access_token@) {
                None => r.status matches ResultStatus::InvalidAccessToken && r.budget is None
                    && final(database)@ == m,
                Some(u) => {
                    if (r.status matches ResultStatus::Success) {
                        &&& r.budget matches Some(nb)
                        &&& nb.budget_id == Some(m.next_budget_id as i64)
                        &&& nb.owner matches Some(o) && o@ == u.email@
                        &&& nb.name@ == json.budget_name@
                        &&& nb.spend_limit == json.budget_spend_limit
                        &&& nb.period_length == json.budget_period_length
                        &&& crate::dates::str_to_date(nb.start_date@) is Some
                        &&& (json.budget_start_date matches Some(sd) ==> nb.start_date@ == sd@)
                        &&& final(database)@.budgets.len() == m.budgets.len() + 1
                        &&& final(database)@ == (crate::database::DbModel {
                            budgets: m.budgets.push(final(database)@.budgets.last()),
                            next_budget_id: m.next_budget_id + 1,
                            ..m
                        })
                        &&& final(database)@.budgets.last().budget_id == nb.budget_id
                        &&& final(database)@.budgets.last().start_date@ == nb.start_date@
                        &&& final(database)@.budgets.last().period_length == nb.period_length
                        &&& final(database)@.budgets.last().spend_limit == nb.spend_limit
                        &&& final(database)@.budgets.last().name@ == nb.name@
                    } else {
                        &&& status_of(Error::UnknownError, r.status)
                        &&& r.budget is None
                        &&& final(database)@ == m
                        &&& (json.budget_period_length < 1 || (json.budget_start_date matches
                            Some(sd) && crate::dates::str_to_date(sd@) is None)
                            || m.next_budget_id >= i64::MAX)
                    }
                },
            }
        }),
{
    let start_date = match &json.budget_start_date {
        Some(x) => x.clone(),
        None => crate::util::get_current_date(),
    };
    let budget = Budget::new(
        json.budget_name.clone(),
        json.budget_spend_limit,
        json.budget_period_length,
        start_date,
    );
    match database.add_budget(json.access_token.as_str(), &budget) {
        Ok(nb) => BudgetResult { status: ResultStatus::Success, budget: Some(nb) },
        Err(e) => BudgetResult { status: error_status(&e), budget: None },
    }
}

/// Deletes a budget; only its owner may.
pub fn delete_budget(database: &mut Database, json: &SelectForm) -> (r: StatusResult)
    requires
        old(database).wf(),
    ensures
        final(database).wf(),
        ({
            let o = delete_budget_outcome(old(database)@, json.access_token@, json.id);
            match o {
                Ok(v) => r.status matches ResultStatus::Success && final(database)@ == (
                crate::database::DbModel {
                    budgets: old(database)@.budgets.filter(
                        |b: Budget| b.budget_id != Some(json.id),
                    ),
                    grants: old(database)@.grants.filter(
                        |g: crate::can_access_budget::Grant| g.budget_id != json.id,
                    ),
                    transactions: old(database)@.transactions.filter(
                        |t: Transaction| t.budget_id != json.id,
                    ),
                    ..old(database)@
                }),
                Err(e) => status_of(e, r.status) && final(database)@ == old(database)@,
            }
        }),
{
    match database.delete_budget(json.access_token.as_str(), json.id) {
        Ok(_) => StatusResult { status: ResultStatus::Success },
        Err(e) => StatusResult { status: error_status(&e) },
    }
}

/// Reads one budget, if the caller may see it.
pub fn get_budget(database: &Database, json: &SelectForm) -> (r: BudgetResult)
    requires
        database.wf(),
    ensures
        r.status matches ResultStatus::Success,
        r.budget == available_budget_spec(database@, json.access_token@, json.id),
{
    let budget = database.get_available_budget(json.access_token.as_str(), json.id);
    BudgetResult { status: ResultStatus::Success, budget }
}

/// The amount spent inside one spend window of a budget.
pub fn get_budget_spent(database: &Database, json: &BudgetPeriodForm) -> (r: BudgetBalanceResult)
    requires
        database.wf(),
    ensures
        ({
            let m = database@;
            match budget_read_gate(m, json.access_token@, json.budget_id) {
                Ok(b) => {
                    let sday = budget_start_day(b);
                    let wsd = crate::budget_period::window_start_day(
                        sday,
                        b.period_length as int,
                        json.period_id as int,
                    );
                    let wed = crate::budget_period::window_end_day(
                        sday,
                        b.period_length as int,
                        json.period_id as int,
                    );
                    if json.period_id < 0 || !crate::budget_period::day_has_date(wsd)
                        || !crate::budget_period::day_has_date(wed) {
                        status_of(Error::EntryNotFound, r.status) && r.spent is None
                    } else {
                        r.status matches ResultStatus::Success && r.spent == Some(
                            sum_amounts(
                                m.transactions.filter(
                                    |t: Transaction| t.budget_id == json.budget_id && wsd
                                        <= tx_day(t) <= wed,
                                ),
                            ) as i128,
                        )
                    }
                },
                Err(e) => status_of(e, r.status) && r.spent is None,
            }
        }),
{
    match database.get_budget_period_amount_spent(
        json.access_token.as_str(),
        json.budget_id,
        json.period_id,
    ) {
        Ok(spent) => BudgetBalanceResult { status: ResultStatus::Success, spent: Some(spent) },
        Err(e) => BudgetBalanceResult { status: error_status(&e), spent: None },
    }
}

/// Lists everyone with access to a budget: the owner and all collaborators.
pub fn list_can_access_budget(database: &Database, json: &SelectForm) -> (r: UserListResult)
    requires
        database.wf(),
    ensures
        ({
            let m = database@;
            let members = m.users.filter(|u: User| is_budget_member(m, json.id, u));
            match find_user_by_token(m.users, json.access_token@) {
                None => status_of(Error::InvalidAccessToken, r.status) && r.users is None,
                Some(u) => {
                    if members.len() == 0 {
                        status_of(Error::EntryNotFound, r.status) && r.users is None
                    } else if !is_budget_member(m, json.id, u) {
                        status_of(Error::UserDeniedError, r.status) && r.users is None
                    } else {
                        r.status matches ResultStatus::Success && r.users matches Some(list)
                            && list@.len() == members.len() && (forall|i: int|
                            0 <= i < members.len() ==> (#[trigger] list@[i])@
                                == members[i].email@)
                    }
                },
            }
        }),
{
    match database.get_available_can_access_budget_users(json.access_token.as_str(), json.id) {
        Ok(users) => UserListResult { status: ResultStatus::Success, users: Some(users) },
        Err(e) => UserListResult { status: error_status(&e), users: None },
    }
}

/// Grants a collaborator access to a budget.
pub fn add_can_access_budget(database: &mut Database, json: &CanAccessBudgetForm) -> (r:
    StatusResult)
    requires
        old(database).wf(),
    ensures
        final(database).wf(),
        ({
            let o = grant_access_outcome(
                old(database)@,
                json.access_token@,
                json.budget_id,
                json.email@,
            );
            match o {
                Ok(v) => {
                    let g = final(database)@.grants.last();
                    &&& r.status matches ResultStatus::Success
                    &&& g.budget_id == json.budget_id
                    &&& g.email@ == json.email@
                    &&& final(database)@ == (crate::database::DbModel {
                        grants: old(database)@.grants.push(g),
                        ..old(database)@
                    })
                },
                Err(e) => status_of(e, r.status) && final(database)@ == old(database)@,
            }
        }),
{
    match database.add_can_access_budget(
        json.access_token.as_str(),
        json.budget_id,
        json.email.as_str(),
    ) {
        Ok(_) => StatusResult { status: ResultStatus::Success },
        Err(e) => StatusResult { status: error_status(&e) },
    }
}

/// Revokes a collaborator's access to a budget.
pub fn delete_can_access_budget(database: &mut Database, json: &CanAccessBudgetForm) -> (r:
    StatusResult)
    requires
        old(database).wf(),
    ensures
        final(database).wf(),
        ({
            let o = revoke_access_outcome(
                old(database)@,
                json.access_token@,
                json.budget_id,
                json.email@,
            );
            match o {
                Ok(v) => r.status matches ResultStatus::Success && final(database)@ == (
                crate::database::DbModel {
                    grants: old(database)@.grants.filter(
                        |g: crate::can_access_budget::Grant| !(g.budget_id == json.budget_id
                            && g.email@ == json.email@),
                    ),
                    ..old(database)@
                }),
                Err(e) => status_of(e, r.status) && final(database)@ == old(database)@,
            }
        }),
{
    match database.delete_can_access_budget(
        json.access_token.as_str(),
        json.budget_id,
        json.email.as_str(),
    ) {
        Ok(_) => StatusResult { status: ResultStatus::Success },
        Err(e) => StatusResult { status: error_status(&e) },
    }
}

/// All transactions on a budget, newest first.
pub fn list_transactions(database: &Database, json: &SelectForm) -> (r: TransactionListResult)
    requires
        database.wf(),
    ensures
        ({
            let m = database@;
            match budget_read_gate(m, json.access_token@, json.id) {
                Ok(b) => r.status matches ResultStatus::Success && r.transactions matches Some(
                    list,
                ) && list@.to_multiset() == m.transactions.filter(
                    |t: Transaction| t.budget_id == json.id,
                ).to_multiset() && sorted_desc(list@),
                Err(e) => status_of(e, r.status) && r.transactions is None,
            }
        }),
{
    match database.get_budget_transactions(json.access_token.as_str(), json.id) {
        Ok(transactions) => TransactionListResult {
            status: ResultStatus::Success,
            transactions: Some(transactions),
        },
        Err(e) => TransactionListResult { status: error_status(&e), transactions: None },
    }
}

/// The transactions inside one spend window, newest first.
pub fn list_transactions_period(database: &Database, json: &BudgetPeriodForm) -> (r:
    TransactionListResult)
    requires
        database.wf(),
    ensures
        ({
            let m = database@;
            match budget_read_gate(m, json.access_token@, json.budget_id) {
                Ok(b) => {
                    let sday = budget_start_day(b);
                    let wsd = crate::budget_period::window_start_day(
                        sday,
                        b.period_length as int,
                        json.period_id as int,
                    );
                    let wed = crate::budget_period::window_end_day(
                        sday,
                        b.period_length as int,
                        json.period_id as int,
                    );
                    if json.period_id < 0 || !crate::budget_period::day_has_date(wsd)
                        || !crate::budget_period::day_has_date(wed) {
                        status_of(Error::EntryNotFound, r.status) && r.transactions is None
                    } else {
                        r.status matches ResultStatus::Success && r.transactions matches Some(
                            list,
                        ) && list@.to_multiset() == m.transactions.filter(
                            |t: Transaction| t.budget_id == json.budget_id && wsd <= tx_day(t)
                                <= wed,
                        ).to_multiset() && sorted_desc(list@)
                    }
                },
                Err(e) => status_of(e, r.status) && r.transactions is None,
            }
        }),
{
    match database.get_budget_transactions_in_period(
        json.access_token.as_str(),
        json.budget_id,
        json.period_id,
    ) {
        Ok(transactions) => TransactionListResult {
            status: ResultStatus::Success,
            transactions: Some(transactions),
        },
        Err(e) => TransactionListResult { status: error_status(&e), transactions: None },
    }
}

/// Records a transaction on a budget the caller may access; the timestamp
/// is the server's current time.
pub fn add_transaction(database: &mut Database, json: &AddTransactionForm) -> (r:
    TransactionResult)
    requires
        old(database).wf(),
    ensures
        final(database).wf(),
        ({
            let m = old(database)@;
            match find_user_by_token(m.users, json.access_token@) {
                None => status_of(Error::InvalidAccessToken, r.status) && r.transaction is None
                    && final(database)@ == m,
                Some(u) => match find_budget(m.budgets, json.budget_id) {
                    None => status_of(Error::EntryNotFound, r.status) && r.transaction is None
                        && final(database)@ == m,
                    Some(b) => {
                        if !budget_available(m, b, u.email@) {
                            status_of(Error::UserDeniedError, r.status) && r.transaction is None
                                && final(database)@ == m
                        } else if m.next_transaction_id >= i64::MAX {
                            status_of(Error::UnknownError, r.status) && r.transaction is None
                                && final(database)@ == m
                        } else {
                            &&& r.status matches ResultStatus::Success
                            &&& r.transaction matches Some(nt)
                            &&& nt.transaction_id == Some(m.next_transaction_id as i64)
                            &&& nt.budget_id == json.budget_id
                            &&& nt.email matches Some(e) && e@ == u.email@
                            &&& nt.name@ == json.transaction_name@
                            &&& nt.description@ == json.transaction_description@
                            &&& nt.amount == json.transaction_amount
                            &&& nt.recur_days == json.transaction_recur_days
                            &&& crate::database::tx_parses(nt)
                            &&& final(database)@.transactions.len() == m.transactions.len() + 1
                            &&& final(database)@ == (crate::database::DbModel {
                                transactions: m.transactions.push(
                                    final(database)@.transactions.last(),
                                ),
                                next_transaction_id: m.next_transaction_id + 1,
                                ..m
                            })
                            &&& final(database)@.transactions.last().budget_id == json.budget_id
                            &&& final(database)@.transactions.last().amount
                                == json.transaction_amount
                        }
                    },
                },
            }
        }),
{
    let transaction = Transaction::new(
        json.budget_id,
        json.transaction_name.clone(),
        json.transaction_description.clone(),
        json.transaction_amount,
        json.transaction_recur_days,
        match &json.transaction_recur_until {
            Some(u) => Some(u.clone()),
            None => None,
        },
    );
    match database.add_transaction(json.access_token.as_str(), &transaction) {
        Ok(t) => TransactionResult { status: ResultStatus::Success, transaction: Some(t) },
        Err(e) => TransactionResult { status: error_status(&e), transaction: None },
    }
}

/// All spend windows from the budget's start date through today, newest
/// first.
pub fn list_budget_periods(database: &Database, json: &SelectForm) -> (r: BudgetPeriodListResult)
    requires
        database.wf(),
    ensures
        exists|d: crate::dates::Date|
            crate::dates::date_valid(d) && ({
                let m = database@;
                match budget_read_gate(m, json.access_token@, json.id) {
                    Ok(b) => (r.status matches ResultStatus::Success && r.budget_periods matches
                        Some(list) && periods_list_result_ok(
                        m,
                        json.access_token@,
                        json.id,
                        crate::dates::day_number(d),
                        Ok(list),
                    )) || (status_of(Error::UnknownError, r.status) && r.budget_periods is None
                        && periods_list_result_ok(
                        m,
                        json.access_token@,
                        json.id,
                        crate::dates::day_number(d),
                        Err(Error::UnknownError),
                    )),
                    Err(e) => status_of(e, r.status) && r.budget_periods is None,
                }
            }),
{
    let res = database.get_budget_periods(json.access_token.as_str(), json.id);
    match res {
        Ok(budget_periods) => BudgetPeriodListResult {
            status: ResultStatus::Success,
            budget_periods: Some(budget_periods),
        },
        Err(e) => BudgetPeriodListResult { status: error_status(&e), budget_periods: None },
    }
}

/// The spend window containing today.
pub fn get_budget_current_period(database: &Database, json: &SelectForm) -> (r:
    BudgetPeriodResult)
    requires
        database.wf(),
    ensures
        exists|d: crate::dates::Date|
            crate::dates::date_valid(d) && ({
                let m = database@;
                match budget_read_gate(m, json.access_token@, json.id) {
                    Ok(b) => (r.status matches ResultStatus::Success && r.budget_period matches
                        Some(bp) && current_period_result_ok(
                        m,
                        json.access_token@,
                        json.id,
                        crate::dates::day_number(d),
                        Ok(bp),
                    )) || (r.budget_period is None && (status_of(Error::NotYetStarted, r.status)
                        && current_period_result_ok(
                        m,
                        json.access_token@,
                        json.id,
                        crate::dates::day_number(d),
                        Err(Error::NotYetStarted),
                    ) || status_of(Error::UnknownError, r.status) && current_period_result_ok(
                        m,
                        json.access_token@,
                        json.id,
                        crate::dates::day_number(d),
                        Err(Error::UnknownError),
                    ))),
                    Err(e) => status_of(e, r.status) && r.budget_period is None,
                }
            }),
{
    let res = database.get_current_budget_period(json.access_token.as_str(), json.id);
    match res {
        Ok(budget_period) => BudgetPeriodResult {
            status: ResultStatus::Success,
            budget_period: Some(budget_period),
        },
        Err(e) => BudgetPeriodResult { status: error_status(&e), budget_period: None },
    }
}

/// One spend window of a budget by index.
pub fn get_budget_period(database: &Database, json: &BudgetPeriodForm) -> (r: BudgetPeriodResult)
    requires
        database.wf(),
    ensures
        ({
            let m = database@;
            match budget_read_gate(m, json.access_token@, json.budget_id) {
                Ok(b) => {
                    let sday = budget_start_day(b);
                    let wsd = crate::budget_period::window_start_day(
                        sday,
                        b.period_length as int,
                        json.period_id as int,
                    );
                    let wed = crate::budget_period::window_end_day(
                        sday,
                        b.period_length as int,
                        json.period_id as int,
                    );
                    if json.period_id < 0 || !crate::budget_period::day_has_date(wsd)
                        || !crate::budget_period::day_has_date(wed) {
                        r.status matches ResultStatus::Success && r.budget_period is None
                    } else {
                        r.status matches ResultStatus::Success && r.budget_period matches Some(
                            bp,
                        ) && bp.period_id == json.period_id && bp.start_date@
                            == crate::dates::date_to_str(crate::budget_period::date_of_day(wsd))
                            && bp.end_date@ == crate::dates::date_to_str(
                            crate::budget_period::date_of_day(wed),
                        )
                    }
                },
                Err(e) => status_of(e, r.status) && r.budget_period is None,
            }
        }),
{
    match database.get_budget_period(
        json.access_token.as_str(),
        json.budget_id,
        json.period_id,
    ) {
        Ok(budget_period) => BudgetPeriodResult { status: ResultStatus::Success, budget_period },
        Err(e) => BudgetPeriodResult { status: error_status(&e), budget_period: None },
    }
}

} // verus!
