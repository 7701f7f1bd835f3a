use budget_tracker::api;
use budget_tracker::database::Database;
use budget_tracker::dates::{parse_date, to_day_number};
use budget_tracker::shared::{
    AddBudgetForm, BudgetPeriodForm, RegisterAccountForm, ResultStatus, SelectForm,
};

fn setup(start_date: &str, period_length: i64) -> (Database, String, i64) {
    let mut db = Database::new(String::from("s"));
    let reg = api::register_user(
        &mut db,
        &RegisterAccountForm {
            email: String::from("o@x.com"),
            first_name: String::from("F"),
            last_name: String::from("L"),
            password: String::from("p"),
        },
    );
    let token = reg.access_token.unwrap();
    let added = api::add_budget(
        &mut db,
        &AddBudgetForm {
            access_token: token.clone(),
            budget_name: String::from("b"),
            budget_spend_limit: 1,
            budget_period_length: period_length,
            budget_start_date: Some(String::from(start_date)),
        },
    );
    let id = added.budget.unwrap().budget_id.unwrap();
    (db, token, id)
}

#[test]
fn api_get_budget_period_renders_window() {
    let (db, token, id) = setup("2024-01-01", 7);
    let r = api::get_budget_period(
        &db,
        &BudgetPeriodForm { access_token: token, budget_id: id, period_id: 3 },
    );
    assert!(matches!(r.status, ResultStatus::Success));
    let bp = r.budget_period.unwrap();
    assert_eq!(bp.start_date, "2024-01-22");
    assert_eq!(bp.end_date, "2024-01-28");
}

#[test]
fn api_current_period_contains_today() {
    let (db, token, id) = setup("2020-01-01", 7);
    let r = api::get_budget_current_period(&db, &SelectForm { access_token: token, id });
    assert!(matches!(r.status, ResultStatus::Success));
    let bp = r.budget_period.unwrap();
    assert!(bp.period_id >= 0);
    let ws = parse_date(&bp.start_date).unwrap();
    let we = parse_date(&bp.end_date).unwrap();
    assert_eq!(to_day_number(&we) - to_day_number(&ws) + 1, 7);
    let today = parse_date(&budget_tracker::util::get_current_date()).unwrap();
    let t = to_day_number(&today);
    assert!(to_day_number(&ws) <= t && t <= to_day_number(&we));
}

#[test]
fn api_list_periods_counts_elapsed_windows() {
    let (db, token, id) = setup("2020-01-01", 7);
    let r = api::list_budget_periods(&db, &SelectForm { access_token: token, id });
    assert!(matches!(r.status, ResultStatus::Success));
    let periods = r.budget_periods.unwrap();
    assert!(periods.len() >= 2);
    // newest first, adjacent, one week each
    for w in periods.windows(2) {
        assert_eq!(w[0].period_id, w[1].period_id + 1);
        let prev_end = to_day_number(&parse_date(&w[1].end_date).unwrap());
        let next_start = to_day_number(&parse_date(&w[0].start_date).unwrap());
        assert_eq!(next_start, prev_end + 1);
    }
    assert_eq!(periods.last().unwrap().period_id, 0);
    assert_eq!(periods.last().unwrap().start_date, "2020-01-01");
}

#[test]
fn window_past_calendar_end_does_not_exist() {
    let (db, token, id) = setup("9999-12-01", 7);
    // window 0 still fits; window 5 would run past 9999-12-31
    assert!(db.get_budget_period(&token, id, 0).unwrap().is_some());
    assert!(db.get_budget_period(&token, id, 5).unwrap().is_none());
    assert!(db.get_budget_period(&token, id, i64::MAX).unwrap().is_none());
}

#[test]
fn leap_day_window_arithmetic() {
    let (db, token, id) = setup("2024-02-28", 3);
    let p0 = db.get_budget_period(&token, id, 0).unwrap().unwrap();
    assert_eq!(p0.start_date, "2024-02-28");
    assert_eq!(p0.end_date, "2024-03-01");
    // a non-leap year skips the 29th
    let (db2, token2, id2) = setup("2023-02-28", 3);
    let q0 = db2.get_budget_period(&token2, id2, 0).unwrap().unwrap();
    assert_eq!(q0.end_date, "2023-03-02");
}

#[test]
fn year_boundary_window() {
    let (db, token, id) = setup("2023-12-30", 5);
    let p0 = db.get_budget_period(&token, id, 0).unwrap().unwrap();
    assert_eq!(p0.start_date, "2023-12-30");
    assert_eq!(p0.end_date, "2024-01-03");
    let p1 = db.get_budget_period(&token, id, 1).unwrap().unwrap();
    assert_eq!(p1.start_date, "2024-01-04");
    assert_eq!(p1.end_date, "2024-01-08");
}

#[test]
fn one_day_periods() {
    let (db, token, id) = setup("2024-01-01", 1);
    let p5 = db.get_budget_period(&token, id, 5).unwrap().unwrap();
    assert_eq!(p5.start_date, "2024-01-06");
    assert_eq!(p5.end_date, "2024-01-06");
    let today = budget_tracker::dates::Date { year: 2024, month: 1, day: 6 };
    let cur = db.get_current_budget_period_as_of(&token, id, &today).unwrap();
    assert_eq!(cur.period_id, 5);
}

#[test]
fn oversized_period_length_is_reported() {
    let (db, token, id) = setup("2020-01-01", 1_000_000_000);
    let today = budget_tracker::dates::Date { year: 2024, month: 6, day: 1 };
    let r = db.get_budget_periods_as_of(&token, id, &today);
    assert_eq!(r.unwrap_err(), budget_tracker::database::Error::UnknownError);
    let c = db.get_current_budget_period_as_of(&token, id, &today);
    assert_eq!(c.unwrap_err(), budget_tracker::database::Error::UnknownError);
    assert!(db.get_budget_period(&token, id, 0).unwrap().is_none());
}
