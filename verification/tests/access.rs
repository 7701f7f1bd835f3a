use budget_tracker::api;
use budget_tracker::database::{Database, Error};
use budget_tracker::shared::{
    AddBudgetForm, CanAccessBudgetForm, ChangePasswordForm, CredentialForm, RegisterAccountForm,
    ResultStatus, SelectForm,
};

fn register(db: &mut Database, email: &str, password: &str) -> String {
    let r = api::register_user(
        db,
        &RegisterAccountForm {
            email: String::from(email),
            first_name: String::from("F"),
            last_name: String::from("L"),
            password: String::from(password),
        },
    );
    r.access_token.expect("registration should answer a token")
}

fn add_budget(db: &mut Database, token: &str) -> i64 {
    let r = api::add_budget(
        db,
        &AddBudgetForm {
            access_token: String::from(token),
            budget_name: String::from("shared"),
            budget_spend_limit: 500,
            budget_period_length: 7,
            budget_start_date: Some(String::from("2024-01-01")),
        },
    );
    r.budget.expect("budget should be created").budget_id.unwrap()
}

#[test]
fn collaborator_cannot_delete_budget() {
    let mut db = Database::new(String::from("s"));
    let owner = register(&mut db, "owner@x.com", "opw");
    let collab = register(&mut db, "b@x.com", "cpw");
    let id = add_budget(&mut db, &owner);
    let granted = api::add_can_access_budget(
        &mut db,
        &CanAccessBudgetForm {
            access_token: owner.clone(),
            budget_id: id,
            email: String::from("b@x.com"),
        },
    );
    assert!(matches!(granted.status, ResultStatus::Success));
    let r = api::delete_budget(&mut db, &SelectForm { access_token: collab, id });
    match r.status {
        ResultStatus::Error(m) => assert_eq!(m, "UserDeniedError"),
        _ => panic!("a collaborator must be denied deletion"),
    }
    // the owner still can
    let r2 = api::delete_budget(&mut db, &SelectForm { access_token: owner, id });
    assert!(matches!(r2.status, ResultStatus::Success));
}

#[test]
fn granting_owner_their_own_budget_is_recursion() {
    let mut db = Database::new(String::from("s"));
    let owner = register(&mut db, "owner@x.com", "opw");
    let id = add_budget(&mut db, &owner);
    let r = db.add_can_access_budget(&owner, id, "owner@x.com");
    assert_eq!(r.unwrap_err(), Error::AccessRecursionError);
}

#[test]
fn duplicate_grant_is_reported() {
    let mut db = Database::new(String::from("s"));
    let owner = register(&mut db, "owner@x.com", "opw");
    register(&mut db, "b@x.com", "cpw");
    let id = add_budget(&mut db, &owner);
    assert!(db.add_can_access_budget(&owner, id, "b@x.com").is_ok());
    assert_eq!(db.add_can_access_budget(&owner, id, "b@x.com").unwrap_err(), Error::AlreadyGranted);
}

#[test]
fn granting_to_unknown_user_is_not_found() {
    let mut db = Database::new(String::from("s"));
    let owner = register(&mut db, "owner@x.com", "opw");
    let id = add_budget(&mut db, &owner);
    assert_eq!(db.add_can_access_budget(&owner, id, "ghost@x.com").unwrap_err(), Error::EntryNotFound);
}

#[test]
fn revoking_missing_grant_is_not_found() {
    let mut db = Database::new(String::from("s"));
    let owner = register(&mut db, "owner@x.com", "opw");
    register(&mut db, "b@x.com", "cpw");
    let id = add_budget(&mut db, &owner);
    assert_eq!(db.delete_can_access_budget(&owner, id, "b@x.com").unwrap_err(), Error::EntryNotFound);
    assert!(db.add_can_access_budget(&owner, id, "b@x.com").is_ok());
    assert!(db.delete_can_access_budget(&owner, id, "b@x.com").is_ok());
    assert_eq!(db.delete_can_access_budget(&owner, id, "b@x.com").unwrap_err(), Error::EntryNotFound);
}

#[test]
fn member_list_has_owner_and_collaborators() {
    let mut db = Database::new(String::from("s"));
    let owner = register(&mut db, "owner@x.com", "opw");
    let collab = register(&mut db, "b@x.com", "cpw");
    let outsider = register(&mut db, "c@x.com", "xpw");
    let id = add_budget(&mut db, &owner);
    assert!(db.add_can_access_budget(&owner, id, "b@x.com").is_ok());
    let list = db.get_available_can_access_budget_users(&owner, id).unwrap();
    assert_eq!(list, vec![String::from("owner@x.com"), String::from("b@x.com")]);
    let list2 = db.get_available_can_access_budget_users(&collab, id).unwrap();
    assert_eq!(list2.len(), 2);
    assert_eq!(
        db.get_available_can_access_budget_users(&outsider, id).unwrap_err(),
        Error::UserDeniedError
    );
    assert_eq!(
        db.get_available_can_access_budget_users(&owner, id + 7).unwrap_err(),
        Error::EntryNotFound
    );
}

#[test]
fn collaborator_sees_budget_owner_keeps_it() {
    let mut db = Database::new(String::from("s"));
    let owner = register(&mut db, "owner@x.com", "opw");
    let collab = register(&mut db, "b@x.com", "cpw");
    let id = add_budget(&mut db, &owner);
    assert!(db.get_available_budget(&collab, id).is_none());
    assert!(db.add_can_access_budget(&owner, id, "b@x.com").is_ok());
    let seen = db.get_available_budget(&collab, id).unwrap();
    assert_eq!(seen.budget_id, Some(id));
    assert_eq!(db.get_available_budgets(&collab).len(), 1);
    assert_eq!(db.get_available_budgets(&owner).len(), 1);
    assert_eq!(db.get_available_budgets("bogus-token").len(), 0);
}

#[test]
fn login_checks_password() {
    let mut db = Database::new(String::from("s"));
    let token = register(&mut db, "u@x.com", "right");
    let ok = api::get_access_token(
        &db,
        &CredentialForm { email: String::from("u@x.com"), password: String::from("right") },
    );
    assert!(matches!(ok.status, ResultStatus::Success));
    assert_eq!(ok.access_token.unwrap(), token);
    let bad = api::get_access_token(
        &db,
        &CredentialForm { email: String::from("u@x.com"), password: String::from("wrong") },
    );
    assert!(matches!(bad.status, ResultStatus::InvalidCredentials));
    assert!(bad.access_token.is_none());
    let unknown = api::get_access_token(
        &db,
        &CredentialForm { email: String::from("nobody@x.com"), password: String::from("p") },
    );
    assert!(matches!(unknown.status, ResultStatus::InvalidCredentials));
}

#[test]
fn duplicate_registration_is_reported() {
    let mut db = Database::new(String::from("s"));
    register(&mut db, "u@x.com", "p1");
    let again = api::register_user(
        &mut db,
        &RegisterAccountForm {
            email: String::from("u@x.com"),
            first_name: String::from("F"),
            last_name: String::from("L"),
            password: String::from("p2"),
        },
    );
    match again.status {
        ResultStatus::Error(m) => assert_eq!(m, "UserAlreadyExists"),
        _ => panic!("duplicate identity must be reported"),
    }
}

#[test]
fn password_change_invalidates_old_token() {
    let mut db = Database::new(String::from("s"));
    let old_token = register(&mut db, "u@x.com", "first");
    let changed = api::change_password(
        &mut db,
        &ChangePasswordForm {
            access_token: old_token.clone(),
            current_password: String::from("first"),
            new_password: String::from("second"),
        },
    );
    assert!(matches!(changed.status, ResultStatus::Success));
    let new_token = changed.access_token.unwrap();
    assert_ne!(new_token, old_token);
    // the old token no longer resolves
    assert!(db.get_user_by_access_token(&old_token).is_none());
    assert!(db.get_user_by_access_token(&new_token).is_some());
    // logging in with the new password answers the new token
    let login = api::get_access_token(
        &db,
        &CredentialForm { email: String::from("u@x.com"), password: String::from("second") },
    );
    assert_eq!(login.access_token.unwrap(), new_token);
    // a change with a wrong current password is refused
    let refused = api::change_password(
        &mut db,
        &ChangePasswordForm {
            access_token: new_token,
            current_password: String::from("first"),
            new_password: String::from("third"),
        },
    );
    assert!(matches!(refused.status, ResultStatus::InvalidCredentials));
}

#[test]
fn bad_token_is_invalid_access_token() {
    let mut db = Database::new(String::from("s"));
    let owner = register(&mut db, "owner@x.com", "opw");
    let id = add_budget(&mut db, &owner);
    assert_eq!(db.delete_budget("no-such-token", id).unwrap_err(), Error::InvalidAccessToken);
    assert_eq!(db.get_budget_transactions("no-such-token", id).unwrap_err(), Error::InvalidAccessToken);
}

#[test]
fn deleting_missing_budget_is_not_found() {
    let mut db = Database::new(String::from("s"));
    let owner = register(&mut db, "owner@x.com", "opw");
    assert_eq!(db.delete_budget(&owner, 42).unwrap_err(), Error::EntryNotFound);
}

#[test]
fn updating_missing_user_is_reported() {
    let mut db = Database::new(String::from("s"));
    register(&mut db, "u@x.com", "p");
    let mut ghost_user = db.get_user_by_email("u@x.com").unwrap();
    ghost_user.email = String::from("ghost@x.com");
    assert_eq!(db.update_user(&ghost_user).unwrap_err(), Error::UpdateEntryMissingID);
}

#[test]
fn hash_is_a_sha256_hex_digest() {
    let db = Database::new(String::from("server-secret"));
    let h = db.hash(&String::from("value"));
    assert_eq!(h.len(), 64);
    assert!(h.chars().all(|c| c.is_ascii_hexdigit()));
    // deterministic, and not the identity
    assert_eq!(h, db.hash(&String::from("value")));
    assert_ne!(h, String::from("value"));
    // the salt matters
    let other = Database::new(String::from("another-secret"));
    assert_ne!(other.hash(&String::from("value")), h);
}
