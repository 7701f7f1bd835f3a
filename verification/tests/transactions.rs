use budget_tracker::api;
use budget_tracker::database::{Database, Error};
use budget_tracker::shared::{
    AddBudgetForm, AddTransactionForm, RegisterAccountForm, ResultStatus,
};
use budget_tracker::transaction::Transaction;

fn setup() -> (Database, String, i64) {
    let mut db = Database::new(String::from("s"));
    let reg = api::register_user(
        &mut db,
        &RegisterAccountForm {
            email: String::from("owner@x.com"),
            first_name: String::from("F"),
            last_name: String::from("L"),
            password: String::from("p"),
        },
    );
    let token = reg.access_token.unwrap();
    let added = api::add_budget(
        &mut db,
        &AddBudgetForm {
            access_token: token.clone(),
            budget_name: String::from("b"),
            budget_spend_limit: 1000,
            budget_period_length: 7,
            budget_start_date: Some(String::from("2024-01-01")),
        },
    );
    let id = added.budget.unwrap().budget_id.unwrap();
    (db, token, id)
}

fn tx(budget_id: i64, stamp: &str, amount: i64) -> Transaction {
    let mut t = Transaction::new(
        budget_id,
        String::from("item"),
        String::from("desc"),
        amount,
        None,
        None,
    );
    t.date = Some(String::from(stamp));
    t
}

#[test]
fn empty_period_spends_zero() {
    let (db, token, id) = setup();
    assert_eq!(db.get_budget_period_amount_spent(&token, id, 3).unwrap(), 0);
}

#[test]
fn amounts_sum_inside_the_window_only() {
    let (mut db, token, id) = setup();
    // period 3 runs 2024-01-22 through 2024-01-28
    db.add_transaction(&token, &tx(id, "2024-01-22 00:00:00.000", 150)).unwrap();
    db.add_transaction(&token, &tx(id, "2024-01-25 12:30:00.500", 200)).unwrap();
    db.add_transaction(&token, &tx(id, "2024-01-28 23:59:59.999", -50)).unwrap();
    db.add_transaction(&token, &tx(id, "2024-01-21 23:59:59.999", 999)).unwrap();
    db.add_transaction(&token, &tx(id, "2024-01-29 00:00:00.000", 999)).unwrap();
    assert_eq!(db.get_budget_period_amount_spent(&token, id, 3).unwrap(), 300);
    // neighbouring periods hold the two outliers
    assert_eq!(db.get_budget_period_amount_spent(&token, id, 2).unwrap(), 999);
    assert_eq!(db.get_budget_period_amount_spent(&token, id, 4).unwrap(), 999);
}

#[test]
fn transactions_list_newest_first() {
    let (mut db, token, id) = setup();
    db.add_transaction(&token, &tx(id, "2024-01-02 08:00:00.000", 1)).unwrap();
    db.add_transaction(&token, &tx(id, "2024-01-04 08:00:00.000", 3)).unwrap();
    db.add_transaction(&token, &tx(id, "2024-01-03 08:00:00.000", 2)).unwrap();
    db.add_transaction(&token, &tx(id, "2024-01-03 09:00:00.000", 4)).unwrap();
    let list = db.get_budget_transactions(&token, id).unwrap();
    let amounts: Vec<i64> = list.iter().map(|t| t.amount).collect();
    assert_eq!(amounts, vec![3, 4, 2, 1]);
}

#[test]
fn period_listing_filters_and_orders() {
    let (mut db, token, id) = setup();
    db.add_transaction(&token, &tx(id, "2024-01-22 08:00:00.000", 10)).unwrap();
    db.add_transaction(&token, &tx(id, "2024-01-27 08:00:00.000", 30)).unwrap();
    db.add_transaction(&token, &tx(id, "2024-01-24 08:00:00.000", 20)).unwrap();
    db.add_transaction(&token, &tx(id, "2024-01-02 08:00:00.000", 99)).unwrap();
    let list = db.get_budget_transactions_in_period(&token, id, 3).unwrap();
    let amounts: Vec<i64> = list.iter().map(|t| t.amount).collect();
    assert_eq!(amounts, vec![30, 20, 10]);
}

#[test]
fn server_stamps_recorder_and_timestamp() {
    let (mut db, token, id) = setup();
    let stored = db
        .add_transaction(
            &token,
            &Transaction::new(id, String::from("n"), String::from("d"), 5, Some(30), None),
        )
        .unwrap();
    assert_eq!(stored.email.as_deref(), Some("owner@x.com"));
    assert_eq!(stored.recur_days, Some(30));
    let stamp = stored.date.expect("the store must stamp a timestamp");
    assert!(budget_tracker::dates::parse_timestamp(&stamp).is_some());
}

#[test]
fn malformed_timestamp_is_rejected() {
    let (mut db, token, id) = setup();
    let r = db.add_transaction(&token, &tx(id, "2024-01-22", 10));
    assert_eq!(r.unwrap_err(), Error::UnknownError);
    assert!(db.get_budget_transactions(&token, id).unwrap().is_empty());
}

#[test]
fn adding_to_missing_budget_is_not_found() {
    let (mut db, token, id) = setup();
    let r = db.add_transaction(&token, &tx(id + 9, "2024-01-22 00:00:00.000", 10));
    assert_eq!(r.unwrap_err(), Error::EntryNotFound);
}

#[test]
fn outsider_cannot_record_or_read() {
    let (mut db, token, id) = setup();
    let reg = api::register_user(
        &mut db,
        &RegisterAccountForm {
            email: String::from("other@x.com"),
            first_name: String::from("O"),
            last_name: String::from("T"),
            password: String::from("p"),
        },
    );
    let other = reg.access_token.unwrap();
    let r = db.add_transaction(&other, &tx(id, "2024-01-22 00:00:00.000", 10));
    assert_eq!(r.unwrap_err(), Error::UserDeniedError);
    assert_eq!(db.get_budget_transactions(&other, id).unwrap_err(), Error::UserDeniedError);
    assert_eq!(
        db.get_budget_period_amount_spent(&other, id, 0).unwrap_err(),
        Error::UserDeniedError
    );
    let _ = token;
}

#[test]
fn deleting_a_budget_removes_its_transactions() {
    let (mut db, token, id) = setup();
    db.add_transaction(&token, &tx(id, "2024-01-22 00:00:00.000", 10)).unwrap();
    let added = api::add_budget(
        &mut db,
        &AddBudgetForm {
            access_token: token.clone(),
            budget_name: String::from("second"),
            budget_spend_limit: 10,
            budget_period_length: 7,
            budget_start_date: Some(String::from("2024-01-01")),
        },
    );
    let id2 = added.budget.unwrap().budget_id.unwrap();
    db.add_transaction(&token, &tx(id2, "2024-01-22 00:00:00.000", 77)).unwrap();
    db.delete_budget(&token, id).unwrap();
    assert!(db.get_budget(id).is_none());
    let left = db.get_budget_transactions(&token, id2).unwrap();
    assert_eq!(left.len(), 1);
    assert_eq!(left[0].amount, 77);
}

#[test]
fn api_add_transaction_reports_success() {
    let (mut db, token, id) = setup();
    let r = api::add_transaction(
        &mut db,
        &AddTransactionForm {
            access_token: token,
            budget_id: id,
            transaction_name: String::from("coffee"),
            transaction_description: String::from("beans"),
            transaction_amount: 450,
            transaction_recur_days: None,
            transaction_recur_until: None,
        },
    );
    assert!(matches!(r.status, ResultStatus::Success));
    let t = r.transaction.unwrap();
    assert_eq!(t.amount, 450);
    assert_eq!(t.budget_id, id);
}
