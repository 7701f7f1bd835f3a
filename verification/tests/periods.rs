use budget_tracker::api;
use budget_tracker::database::Database;
use budget_tracker::database::Error;
use budget_tracker::dates::{format_date, from_day_number, parse_date, to_day_number, Date};
use budget_tracker::shared::{AddBudgetForm, RegisterAccountForm, ResultStatus};

fn setup_budget(start_date: &str, period_length: i64) -> (Database, String, i64) {
    let mut db = Database::new(String::from("test-secret"));
    let reg = api::register_user(
        &mut db,
        &RegisterAccountForm {
            email: String::from("owner@example.com"),
            first_name: String::from("Olive"),
            last_name: String::from("Owner"),
            password: String::from("pw1"),
        },
    );
    let token = reg.access_token.expect("registration should answer a token");
    let added = api::add_budget(
        &mut db,
        &AddBudgetForm {
            access_token: token.clone(),
            budget_name: String::from("groceries"),
            budget_spend_limit: 10_000,
            budget_period_length: period_length,
            budget_start_date: Some(String::from(start_date)),
        },
    );
    let budget = added.budget.expect("budget should be created");
    (db, token, budget.budget_id.unwrap())
}

#[test]
fn window_for_weekly_budget() {
    let (db, token, id) = setup_budget("2024-01-01", 7);
    let p0 = db.get_budget_period(&token, id, 0).unwrap().unwrap();
    assert_eq!(p0.start_date, "2024-01-01");
    assert_eq!(p0.end_date, "2024-01-07");
    let p3 = db.get_budget_period(&token, id, 3).unwrap().unwrap();
    assert_eq!(p3.start_date, "2024-01-22");
    assert_eq!(p3.end_date, "2024-01-28");
}

#[test]
fn current_period_index_is_three() {
    let (db, token, id) = setup_budget("2024-01-01", 7);
    let today = Date { year: 2024, month: 1, day: 25 };
    let bp = db.get_current_budget_period_as_of(&token, id, &today).unwrap();
    assert_eq!(bp.period_id, 3);
    assert_eq!(bp.start_date, "2024-01-22");
    assert_eq!(bp.end_date, "2024-01-28");
}

#[test]
fn windows_are_adjacent_and_cover_length() {
    let (db, token, id) = setup_budget("2023-11-20", 30);
    for p in 0..6 {
        let w = db.get_budget_period(&token, id, p).unwrap().unwrap();
        let ws = parse_date(&w.start_date).unwrap();
        let we = parse_date(&w.end_date).unwrap();
        assert_eq!(to_day_number(&we) - to_day_number(&ws) + 1, 30);
        let next = db.get_budget_period(&token, id, p + 1).unwrap().unwrap();
        let ns = parse_date(&next.start_date).unwrap();
        assert_eq!(to_day_number(&ns), to_day_number(&we) + 1);
    }
}

#[test]
fn list_periods_newest_first() {
    let (db, token, id) = setup_budget("2024-01-01", 7);
    let today = Date { year: 2024, month: 1, day: 25 };
    let periods = db.get_budget_periods_as_of(&token, id, &today).unwrap();
    assert_eq!(periods.len(), 4);
    assert_eq!(periods[0].period_id, 3);
    assert_eq!(periods[3].period_id, 0);
    assert_eq!(periods[0].start_date, "2024-01-22");
    assert_eq!(periods[3].start_date, "2024-01-01");
}

#[test]
fn list_periods_before_start_has_only_first_window() {
    let (db, token, id) = setup_budget("2024-06-01", 14);
    let today = Date { year: 2024, month: 5, day: 1 };
    let periods = db.get_budget_periods_as_of(&token, id, &today).unwrap();
    assert_eq!(periods.len(), 1);
    assert_eq!(periods[0].period_id, 0);
    assert_eq!(periods[0].start_date, "2024-06-01");
    assert_eq!(periods[0].end_date, "2024-06-14");
}

#[test]
fn current_period_before_start_is_not_yet_started() {
    let (db, token, id) = setup_budget("2024-06-01", 14);
    let today = Date { year: 2024, month: 5, day: 31 };
    let r = db.get_current_budget_period_as_of(&token, id, &today);
    assert_eq!(r.unwrap_err(), Error::NotYetStarted);
}

#[test]
fn negative_period_index_has_no_window() {
    let (db, token, id) = setup_budget("2024-01-01", 7);
    assert!(db.get_budget_period(&token, id, -1).unwrap().is_none());
}

#[test]
fn date_round_trip_canonical_strings() {
    for s in [
        "2024-01-01",
        "2024-02-29",
        "1999-12-31",
        "0001-01-01",
        "0000-01-01",
        "9999-12-31",
        "2023-06-15",
    ] {
        let d = parse_date(s).expect(s);
        assert_eq!(format_date(&d), s);
    }
}

#[test]
fn malformed_dates_are_rejected() {
    for s in [
        "2023-02-29",
        "2024-13-01",
        "2024-00-10",
        "2024-04-31",
        "2024-1-5",
        "24-01-01",
        "2024/01/01",
        "2024-01-01 ",
        "",
    ] {
        assert!(parse_date(s).is_none(), "{} should not parse", s);
    }
}

#[test]
fn day_numbers_round_trip() {
    for s in ["2024-02-29", "0000-01-01", "9999-12-31", "1970-01-01"] {
        let d = parse_date(s).unwrap();
        let n = to_day_number(&d);
        let back = from_day_number(n).unwrap();
        assert_eq!(format_date(&back), s);
    }
    // one fixed point: 2000-03-01 is day 730545 from 0000-01-01
    let d = parse_date("2000-03-01").unwrap();
    assert_eq!(to_day_number(&d), 730545);
}

#[test]
fn day_number_past_calendar_end_has_no_date() {
    assert!(from_day_number(3_652_425).is_none());
    assert!(from_day_number(u64::MAX).is_none());
}

#[test]
fn current_date_is_well_formed() {
    let today = budget_tracker::util::get_current_date();
    assert!(parse_date(&today).is_some());
    let now = budget_tracker::util::get_current_date_time();
    assert!(budget_tracker::dates::parse_timestamp(&now).is_some());
}

#[test]
fn bad_start_date_is_rejected_at_creation() {
    let mut db = Database::new(String::from("s"));
    let reg = api::register_user(
        &mut db,
        &RegisterAccountForm {
            email: String::from("a@b.c"),
            first_name: String::from("A"),
            last_name: String::from("B"),
            password: String::from("p"),
        },
    );
    let token = reg.access_token.unwrap();
    let r = api::add_budget(
        &mut db,
        &AddBudgetForm {
            access_token: token.clone(),
            budget_name: String::from("bad"),
            budget_spend_limit: 1,
            budget_period_length: 7,
            budget_start_date: Some(String::from("not-a-date")),
        },
    );
    match r.status {
        ResultStatus::Error(m) => assert_eq!(m, "UnknownError"),
        _ => panic!("expected an error status"),
    }
    // a period length below one day is rejected too
    let r2 = api::add_budget(
        &mut db,
        &AddBudgetForm {
            access_token: token,
            budget_name: String::from("bad2"),
            budget_spend_limit: 1,
            budget_period_length: 0,
            budget_start_date: Some(String::from("2024-01-01")),
        },
    );
    match r2.status {
        ResultStatus::Error(m) => assert_eq!(m, "UnknownError"),
        _ => panic!("expected an error status"),
    }
}
