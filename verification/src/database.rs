//! The store and its rules: users, budgets, collaborator grants and
//! transactions, with the two-tier owner/collaborator access model enforced
//! by every budget-scoped operation. The store is an in-memory table set
//! behind one handle; a caller serialises whole operations on it, so every
//! check-then-act sequence below is observed as atomic.
use crate::budget::Budget;
use crate::budget_period::BudgetPeriod;
use crate::can_access_budget::Grant;
use crate::transaction::Transaction;
use crate::util::str_eq;
use vstd::prelude::*;
use vstd::string::StringExecFns;

verus! {

/// Every failure a store operation can answer with.
#[derive(Clone, Copy, Debug, PartialEq, Eq, Structural)]
pub enum Error {
    LoadFileError,
    CreateAdminError,
    EntryNotFound,
    UserAlreadyExists,
    AlreadyGranted,
    UpdateEntryMissingID,
    InvalidCredentials,
    InvalidAccessToken,
    UserDeniedError,
    AccessRecursionError,
    NotYetStarted,
    UnknownError,
}

/// A registered account. `password` holds the salted hash, never plaintext;
/// `access_token` is derived from the identity and the password hash, so a
/// password change invalidates every prior token.
#[derive(Debug)]
pub struct User {
    pub email: String,
    pub first_name: String,
    pub last_name: String,
    pub password: String,
    pub access_token: String,
    pub is_admin: bool,
}

impl Clone for User {
    fn clone(&self) -> (r: User)
        ensures
            r == *self,
    {
        User {
            email: self.email.clone(),
            first_name: self.first_name.clone(),
            last_name: self.last_name.clone(),
            password: self.password.clone(),
            access_token: self.access_token.clone(),
            is_admin: self.is_admin,
        }
    }
}

/// The hex form of the SHA-256 digest of a string's bytes.
pub uninterp spec fn sha256_hex_of(s: Seq<char>) -> Seq<char>;

/// Relies on crypto's `Sha256` (`Digest::input_str` then `result_str`): the
/// digest depends on the input characters alone, and `result_str` renders
/// the 32-byte digest as 64 hex characters.
#[verifier::external_body]
fn sha256_hex(s: &str) -> (r: String)
    ensures
        r@ == sha256_hex_of(s@),
        r@.len() == 64,
{
    let mut hasher = crypto::sha2::Sha256::new();
    crypto::digest::Digest::input_str(&mut hasher, s);
    crypto::digest::Digest::result_str(&mut hasher)
}

/// What `Database::hash` answers: the salted digest of a string.
pub open spec fn hash_of(s: Seq<char>, secret: Seq<char>) -> Seq<char> {
    sha256_hex_of(s + secret)
}

/// The access token derived from an identity and a password hash.
pub open spec fn token_of(email: Seq<char>, hashed_password: Seq<char>, secret: Seq<char>) -> Seq<
    char,
> {
    hash_of(email + "::::"@ + hashed_password, secret)
}

/// The abstract state of a store.
pub struct DbModel {
    pub secret: Seq<char>,
    pub users: Seq<User>,
    pub budgets: Seq<Budget>,
    pub grants: Seq<Grant>,
    pub transactions: Seq<Transaction>,
    pub next_budget_id: int,
    pub next_transaction_id: int,
}

/// The store: all tables in memory, plus the server secret that salts
/// hashes, and the id counters the store assigns from.
pub struct Database {
    secret: String,
    users: Vec<User>,
    budgets: Vec<Budget>,
    grants: Vec<Grant>,
    transactions: Vec<Transaction>,
    next_budget_id: i64,
    next_transaction_id: i64,
}

impl View for Database {
    type V = DbModel;

    closed spec fn view(&self) -> DbModel {
        DbModel {
            secret: self.secret@,
            users: self.users@,
            budgets: self.budgets@,
            grants: self.grants@,
            transactions: self.transactions@,
            next_budget_id: self.next_budget_id as int,
            next_transaction_id: self.next_transaction_id as int,
        }
    }
}

// --- First-match lookups ---

pub open spec fn user_idx_by_email_from(us: Seq<User>, email: Seq<char>, i: int) -> int
    decreases us.len() - i when 0 <= i <= us.len()
{
    if i >= us.len() {
        -1
    } else if us[i].email@ == email {
        i
    } else {
        user_idx_by_email_from(us, email, i + 1)
    }
}

pub open spec fn user_idx_by_email(us: Seq<User>, email: Seq<char>) -> int {
    user_idx_by_email_from(us, email, 0)
}

pub open spec fn find_user_by_email(us: Seq<User>, email: Seq<char>) -> Option<User> {
    let i = user_idx_by_email(us, email);
    if i >= 0 {
        Some(us[i])
    } else {
        None
    }
}

pub open spec fn user_idx_by_token_from(us: Seq<User>, token: Seq<char>, i: int) -> int
    decreases us.len() - i when 0 <= i <= us.len()
{
    if i >= us.len() {
        -1
    } else if us[i].access_token@ == token {
        i
    } else {
        user_idx_by_token_from(us, token, i + 1)
    }
}

pub open spec fn user_idx_by_token(us: Seq<User>, token: Seq<char>) -> int {
    user_idx_by_token_from(us, token, 0)
}

pub open spec fn find_user_by_token(us: Seq<User>, token: Seq<char>) -> Option<User> {
    let i = user_idx_by_token(us, token);
    if i >= 0 {
        Some(us[i])
    } else {
        None
    }
}

pub open spec fn budget_idx_from(bs: Seq<Budget>, id: i64, i: int) -> int
    decreases bs.len() - i when 0 <= i <= bs.len()
{
    if i >= bs.len() {
        -1
    } else if bs[i].budget_id == Some(id) {
        i
    } else {
        budget_idx_from(bs, id, i + 1)
    }
}

pub open spec fn budget_idx(bs: Seq<Budget>, id: i64) -> int {
    budget_idx_from(bs, id, 0)
}

pub open spec fn find_budget(bs: Seq<Budget>, id: i64) -> Option<Budget> {
    let i = budget_idx(bs, id);
    if i >= 0 {
        Some(bs[i])
    } else {
        None
    }
}

/// Whether a collaborator grant for (budget, identity) is on file.
pub open spec fn has_grant(gs: Seq<Grant>, id: i64, email: Seq<char>) -> bool {
    exists|i: int| 0 <= i < gs.len() && gs[i].budget_id == id && gs[i].email@ == email
}

// --- Well-formedness ---

pub open spec fn budget_stored_wf(b: Budget, next_id: int) -> bool {
    &&& b.budget_id is Some
    &&& 0 <= b.budget_id->0 < next_id
    &&& b.owner is Some
    &&& b.period_length >= 1
    &&& crate::dates::str_to_date(b.start_date@) is Some
}

pub open spec fn tx_stored_wf(t: Transaction, next_id: int) -> bool {
    &&& t.transaction_id is Some
    &&& 0 <= t.transaction_id->0 < next_id
    &&& t.email is Some
    &&& t.date is Some
    &&& crate::dates::str_to_timestamp(t.date->0@) is Some
}

/// Whether some account has the given identity.
pub open spec fn has_user_email(us: Seq<User>, email: Seq<char>) -> bool {
    exists|i: int| 0 <= i < us.len() && (#[trigger] us[i]).email@ == email
}

/// Whether some stored budget has the given id, owned by someone other than
/// `email`.
pub open spec fn has_budget_not_owned(bs: Seq<Budget>, id: i64, email: Seq<char>) -> bool {
    exists|i: int|
        0 <= i < bs.len() && (#[trigger] bs[i]).budget_id == Some(id) && bs[i].owner->0@ != email
}

/// A stored grant names an existing budget whose owner is not the grantee,
/// and an existing account.
pub open spec fn grant_stored_wf(m: DbModel, g: Grant) -> bool {
    &&& has_budget_not_owned(m.budgets, g.budget_id, g.email@)
    &&& has_user_email(m.users, g.email@)
}

pub open spec fn db_wf(m: DbModel) -> bool {
    &&& m.next_budget_id >= 0
    &&& m.next_transaction_id >= 0
    &&& forall|i: int, j: int|
        0 <= i < j < m.users.len() ==> #[trigger] m.users[i].email@ != #[trigger] m.users[j].email@
    &&& forall|i: int|
        0 <= i < m.budgets.len() ==> budget_stored_wf(#[trigger] m.budgets[i], m.next_budget_id)
    &&& forall|i: int, j: int|
        0 <= i < j < m.budgets.len() ==> #[trigger] m.budgets[i].budget_id != #[trigger] m.budgets[j].budget_id
    &&& forall|i: int| 0 <= i < m.grants.len() ==> grant_stored_wf(m, #[trigger] m.grants[i])
    &&& forall|i: int, j: int|
        0 <= i < j < m.grants.len() ==> !((#[trigger] m.grants[i]).budget_id == (#[trigger] m.grants[j]).budget_id
            && m.grants[i].email@ == m.grants[j].email@)
    &&& forall|i: int|
        0 <= i < m.transactions.len() ==> tx_stored_wf(
            #[trigger] m.transactions[i],
            m.next_transaction_id,
        )
    &&& forall|i: int, j: int|
        0 <= i < j < m.transactions.len() ==> #[trigger] m.transactions[i].transaction_id
            != #[trigger] m.transactions[j].transaction_id
}

impl Database {
    pub open spec fn wf(&self) -> bool {
        db_wf(self@)
    }

    /// A fresh, empty store salted with `secret`.
    pub fn new(secret: String) -> (db: Database)
        ensures
            db.wf(),
            db@.secret == secret@,
            db@.users == Seq::<User>::empty(),
            db@.budgets == Seq::<Budget>::empty(),
            db@.grants == Seq::<Grant>::empty(),
            db@.transactions == Seq::<Transaction>::empty(),
            db@.next_budget_id == 0,
            db@.next_transaction_id == 0,
    {
        Database {
            secret,
            users: Vec::new(),
            budgets: Vec::new(),
            grants: Vec::new(),
            transactions: Vec::new(),
            next_budget_id: 0,
            next_transaction_id: 0,
        }
    }

    /// The salted digest used for both password hashes and access tokens.
    pub fn hash(&self, s: &String) -> (r: String)
        ensures
            r@ == hash_of(s@, self@.secret),
    {
        let mut input = s.clone();
        input.append(self.secret.as_str());
        sha256_hex(input.as_str())
    }

    /// Adds an account; the identity must be new.
    pub fn insert_user(&mut self, user: &User) -> (r: Result<(), Error>)
        requires
            old(self).wf(),
        ensures
            final(self).wf(),
            if find_user_by_email(old(self)@.users, user.email@) is Some {
                &&& r matches Err(Error::UserAlreadyExists)
                &&& final(self)@ == old(self)@
            } else {
                &&& r matches Ok(v)
                &&& final(self)@ == (DbModel { users: old(self)@.users.push(*user), ..old(self)@ })
            },
    {
        if self.get_user_by_email(user.email.as_str()).is_some() {
            return Err(Error::UserAlreadyExists);
        }
        proof {
            lemma_no_idx_means_no_match_email(self@.users, user.email@);
        }
        self.users.push(user.clone());
        proof {
            let m = old(self)@;
            let m2 = self@;
            assert forall|i: int| 0 <= i < m2.grants.len() implies grant_stored_wf(
                m2,
                #[trigger] m2.grants[i],
            ) by {
                let g = m.grants[i];
                assert(grant_stored_wf(m, g));
                let k = choose|k: int| 0 <= k < m.users.len() && (#[trigger] m.users[k]).email@
                    == g.email@;
                assert(m2.users[k] == m.users[k]);
            }
        }
        Ok(())
    }

    /// Looks an account up by identity; answers the first (only) match.
    pub fn get_user_by_email(&self, email: &str) -> (r: Option<User>)
        ensures
            r == find_user_by_email(self@.users, email@),
    {
        let n = self.users.len();
        let mut i: usize = 0;
        while i < n
            invariant
                0 <= i <= n,
                n == self.users.len(),
                user_idx_by_email(self@.users, email@) == user_idx_by_email_from(
                    self@.users,
                    email@,
                    i as int,
                ),
            decreases n - i,
        {
            if str_eq(self.users[i].email.as_str(), email) {
                return Some(self.users[i].clone());
            }
            i = i + 1;
        }
        None
    }

    /// Resolves a bearer access token to the account it names.
    pub fn get_user_by_access_token(&self, access_token: &str) -> (r: Option<User>)
        ensures
            r == find_user_by_token(self@.users, access_token@),
    {
        let n = self.users.len();
        let mut i: usize = 0;
        while i < n
            invariant
                0 <= i <= n,
                n == self.users.len(),
                user_idx_by_token(self@.users, access_token@) == user_idx_by_token_from(
                    self@.users,
                    access_token@,
                    i as int,
                ),
            decreases n - i,
        {
            if str_eq(self.users[i].access_token.as_str(), access_token) {
                return Some(self.users[i].clone());
            }
            i = i + 1;
        }
        None
    }

    /// Replaces the stored account with the same identity.
    pub fn update_user(&mut self, user: &User) -> (r: Result<(), Error>)
        requires
            old(self).wf(),
        ensures
            final(self).wf(),
            ({
                let i = user_idx_by_email(old(self)@.users, user.email@);
                if i >= 0 {
                    &&& r matches Ok(v)
                    &&& final(self)@ == (DbModel {
                        users: old(self)@.users.update(i, *user),
                        ..old(self)@
                    })
                } else {
                    &&& r matches Err(Error::UpdateEntryMissingID)
                    &&& final(self)@ == old(self)@
                }
            }),
    {
        let n = self.users.len();
        let mut i: usize = 0;
        while i < n
            invariant
                0 <= i <= n,
                n == self.users.len(),
                self == old(self),
                old(self).wf(),
                user_idx_by_email(self@.users, user.email@) == user_idx_by_email_from(
                    self@.users,
                    user.email@,
                    i as int,
                ),
            decreases n - i,
        {
            if str_eq(self.users[i].email.as_str(), user.email.as_str()) {
                self.users.set(i, user.clone());
                proof {
                    let m = old(self)@;
                    let m2 = self@;
                    let ii = i as int;
                    assert forall|a: int, b: int|
                        0 <= a < b < m2.users.len() implies #[trigger] m2.users[a].email@
                        != #[trigger] m2.users[b].email@ by {
                        assert(m.users[a].email@ != m.users[b].email@);
                    }
                    assert forall|k: int| 0 <= k < m2.grants.len() implies grant_stored_wf(
                        m2,
                        #[trigger] m2.grants[k],
                    ) by {
                        let g = m.grants[k];
                        assert(grant_stored_wf(m, g));
                        let w = choose|w: int| 0 <= w < m.users.len() && (#[trigger] m.users[w]).email@
                            == g.email@;
                        if w == ii {
                            assert(m2.users[w].email@ == g.email@);
                        } else {
                            assert(m2.users[w] == m.users[w]);
                        }
                    }
                }
                return Ok(());
            }
            i = i + 1;
        }
        Err(Error::UpdateEntryMissingID)
    }
}

/// When the scan index runs off the end, there is no match at all.
proof fn lemma_no_idx_means_no_match_email(us: Seq<User>, email: Seq<char>)
    ensures
        user_idx_by_email(us, email) < 0 ==> forall|i: int|
            0 <= i < us.len() ==> (#[trigger] us[i]).email@ != email,
{
    lemma_user_idx_by_email_props(us, email, 0);
}

pub proof fn lemma_user_idx_by_email_props(us: Seq<User>, email: Seq<char>, i: int)
    requires
        0 <= i <= us.len(),
    ensures
        user_idx_by_email_from(us, email, i) < 0 ==> forall|k: int|
            i <= k < us.len() ==> (#[trigger] us[k]).email@ != email,
        user_idx_by_email_from(us, email, i) >= 0 ==> i <= user_idx_by_email_from(us, email, i)
            < us.len() && us[user_idx_by_email_from(us, email, i)].email@ == email,
    decreases us.len() - i,
{
    if i < us.len() {
        lemma_user_idx_by_email_props(us, email, i + 1);
    }
}

pub proof fn lemma_user_idx_by_token_props(us: Seq<User>, token: Seq<char>, i: int)
    requires
        0 <= i <= us.len(),
    ensures
        user_idx_by_token_from(us, token, i) < 0 ==> forall|k: int|
            i <= k < us.len() ==> (#[trigger] us[k]).access_token@ != token,
        user_idx_by_token_from(us, token, i) >= 0 ==> i <= user_idx_by_token_from(us, token, i)
            < us.len() && us[user_idx_by_token_from(us, token, i)].access_token@ == token,
    decreases us.len() - i,
{
    if i < us.len() {
        lemma_user_idx_by_token_props(us, token, i + 1);
    }
}

impl User {
    /// Constructs a new account. `password` is plaintext here and is salted
    /// and hashed before it is stored.
    pub fn new(
        database: &Database,
        email: &String,
        first_name: &String,
        last_name: &String,
        password: &String,
        is_admin: bool,
    ) -> (r: User)
        ensures
            r.email@ == email@,
            r.first_name@ == first_name@,
            r.last_name@ == last_name@,
            r.password@ == hash_of(password@, database@.secret),
            r.access_token@ == token_of(email@, r.password@, database@.secret),
            r.is_admin == is_admin,
    {
        let hpassword = database.hash(password);
        let access_token = User::generate_access_token(database, email, &hpassword);
        User {
            email: email.clone(),
            first_name: first_name.clone(),
            last_name: last_name.clone(),
            password: hpassword,
            access_token,
            is_admin,
        }
    }

    fn generate_access_token(database: &Database, email: &String, hpassword: &String) -> (r:
        String)
        ensures
            r@ == token_of(email@, hpassword@, database@.secret),
    {
        let mut s = email.clone();
        s.append("::::");
        s.append(hpassword.as_str());
        database.hash(&s)
    }

    /// Stores an already-hashed password and re-derives the access token,
    /// invalidating every token issued before the change.
    pub fn change_password(&mut self, database: &Database, hpassword: &String)
        ensures
            final(self).password@ == hpassword@,
            final(self).access_token@ == token_of(
                old(self).email@,
                hpassword@,
                database@.secret,
            ),
            final(self).email == old(self).email,
            final(self).first_name == old(self).first_name,
            final(self).last_name == old(self).last_name,
            final(self).is_admin == old(self).is_admin,
    {
        self.password = hpassword.clone();
        self.access_token = User::generate_access_token(database, &self.email, &self.password);
    }
}

// --- The access control gate ---

/// A user's authorization level for a budget.
#[derive(Clone, Copy, Debug, PartialEq, Eq, Structural)]
pub enum Authorization {
    Owner,
    Collaborator,
    NoAccess,
}

/// Resolves an identity's authorization level for a stored budget: `Owner`
/// exactly when the identity owns the budget, `Collaborator` exactly when a
/// grant is on file, else `NoAccess`.
pub open spec fn authorization_of(m: DbModel, b: Budget, email: Seq<char>) -> Authorization {
    if b.owner->0@ == email {
        Authorization::Owner
    } else if has_grant(m.grants, b.budget_id->0, email) {
        Authorization::Collaborator
    } else {
        Authorization::NoAccess
    }
}

/// Whether the identity may read the budget (owner or collaborator).
pub open spec fn budget_available(m: DbModel, b: Budget, email: Seq<char>) -> bool {
    authorization_of(m, b, email) != Authorization::NoAccess
}

/// The owner of a budget is always authorized for it, as the owner.
pub proof fn lemma_owner_always_authorized(m: DbModel, b: Budget, email: Seq<char>)
    requires
        b.owner is Some,
        b.owner->0@ == email,
    ensures
        authorization_of(m, b, email) == Authorization::Owner,
        budget_available(m, b, email),
{
}

impl Database {
    /// Whether a collaborator grant for (budget, identity) is on file.
    fn has_grant_for(&self, budget_id: i64, email: &str) -> (r: bool)
        ensures
            r == has_grant(self@.grants, budget_id, email@),
    {
        let n = self.grants.len();
        let mut i: usize = 0;
        while i < n
            invariant
                0 <= i <= n,
                n == self.grants.len(),
                forall|k: int|
                    0 <= k < i ==> !((#[trigger] self@.grants[k]).budget_id == budget_id
                        && self@.grants[k].email@ == email@),
            decreases n - i,
        {
            if self.grants[i].budget_id == budget_id && str_eq(
                self.grants[i].email.as_str(),
                email,
            ) {
                return true;
            }
            i = i + 1;
        }
        proof {
            if has_grant(self@.grants, budget_id, email@) {
                let k = choose|k: int|
                    0 <= k < self@.grants.len() && self@.grants[k].budget_id == budget_id
                        && self@.grants[k].email@ == email@;
                assert(!((self@.grants[k]).budget_id == budget_id && self@.grants[k].email@
                    == email@));
            }
        }
        false
    }

    /// The authorization level of an identity for a stored budget.
    pub fn authorization(&self, b: &Budget, email: &str) -> (r: Authorization)
        requires
            b.budget_id is Some,
            b.owner is Some,
        ensures
            r == authorization_of(self@, *b, email@),
    {
        let owner = match &b.owner {
            Some(o) => o,
            None => { return Authorization::NoAccess },
        };
        if str_eq(owner.as_str(), email) {
            return Authorization::Owner;
        }
        let id = match b.budget_id {
            Some(id) => id,
            None => { return Authorization::NoAccess },
        };
        if self.has_grant_for(id, email) {
            Authorization::Collaborator
        } else {
            Authorization::NoAccess
        }
    }
}

// --- Generic filter-preservation lemmas ---

/// Filtering keeps pairwise-distinct budget ids distinct.
proof fn lemma_filter_budgets_distinct(bs: Seq<Budget>, pred: spec_fn(Budget) -> bool)
    requires
        forall|i: int, j: int|
            0 <= i < j < bs.len() ==> #[trigger] bs[i].budget_id != #[trigger] bs[j].budget_id,
    ensures
        forall|i: int, j: int|
            0 <= i < j < bs.filter(pred).len() ==> #[trigger] bs.filter(pred)[i].budget_id
                != #[trigger] bs.filter(pred)[j].budget_id,
    decreases bs.len(),
{
    reveal(Seq::filter);
    if bs.len() > 0 {
        let rest = bs.drop_last();
        let last = bs.last();
        assert forall|i: int, j: int|
            0 <= i < j < rest.len() implies #[trigger] rest[i].budget_id
            != #[trigger] rest[j].budget_id by {
            assert(rest[i] == bs[i] && rest[j] == bs[j]);
        }
        lemma_filter_budgets_distinct(rest, pred);
        let rf = rest.filter(pred);
        if pred(last) {
            assert(bs.filter(pred) == rf.push(last));
            assert forall|i: int| 0 <= i < rf.len() implies (#[trigger] rf[i]).budget_id
                != last.budget_id by {
                assert(rf.contains(rf[i]));
                rest.lemma_filter_contains_rev(pred, rf[i]);
                let k = choose|k: int| 0 <= k < rest.len() && rest[k] == rf[i];
                assert(bs[k].budget_id != bs[bs.len() - 1].budget_id);
            }
            assert forall|i: int, j: int|
                0 <= i < j < bs.filter(pred).len() implies #[trigger] bs.filter(
                pred,
            )[i].budget_id != #[trigger] bs.filter(pred)[j].budget_id by {
                if j == rf.len() {
                    assert(bs.filter(pred)[j] == last && bs.filter(pred)[i] == rf[i]);
                } else {
                    assert(bs.filter(pred)[i] == rf[i] && bs.filter(pred)[j] == rf[j]);
                }
            }
        }
    }
}

/// Filtering keeps pairwise-distinct grant pairs distinct.
proof fn lemma_filter_grants_distinct(gs: Seq<Grant>, pred: spec_fn(Grant) -> bool)
    requires
        forall|i: int, j: int|
            0 <= i < j < gs.len() ==> !((#[trigger] gs[i]).budget_id == (#[trigger] gs[j]).budget_id
                && gs[i].email@ == gs[j].email@),
    ensures
        forall|i: int, j: int|
            0 <= i < j < gs.filter(pred).len() ==> !((#[trigger] gs.filter(pred)[i]).budget_id == (
            #[trigger] gs.filter(pred)[j]).budget_id && gs.filter(pred)[i].email@ == gs.filter(
                pred,
            )[j].email@),
    decreases gs.len(),
{
    reveal(Seq::filter);
    if gs.len() > 0 {
        let rest = gs.drop_last();
        let last = gs.last();
        assert forall|i: int, j: int|
            0 <= i < j < rest.len() implies !((#[trigger] rest[i]).budget_id
            == (#[trigger] rest[j]).budget_id && rest[i].email@ == rest[j].email@) by {
            assert(rest[i] == gs[i] && rest[j] == gs[j]);
        }
        lemma_filter_grants_distinct(rest, pred);
        let rf = rest.filter(pred);
        if pred(last) {
            assert(gs.filter(pred) == rf.push(last));
            assert forall|i: int| 0 <= i < rf.len() implies !((#[trigger] rf[i]).budget_id
                == last.budget_id && rf[i].email@ == last.email@) by {
                assert(rf.contains(rf[i]));
                rest.lemma_filter_contains_rev(pred, rf[i]);
                let k = choose|k: int| 0 <= k < rest.len() && rest[k] == rf[i];
                assert(!(gs[k].budget_id == gs[gs.len() - 1].budget_id && gs[k].email@ == gs[gs.len()
                    - 1].email@));
            }
            assert forall|i: int, j: int|
                0 <= i < j < gs.filter(pred).len() implies !((#[trigger] gs.filter(
                pred,
            )[i]).budget_id == (#[trigger] gs.filter(pred)[j]).budget_id && gs.filter(
                pred,
            )[i].email@ == gs.filter(pred)[j].email@) by {
                if j == rf.len() {
                    assert(gs.filter(pred)[j] == last && gs.filter(pred)[i] == rf[i]);
                } else {
                    assert(gs.filter(pred)[i] == rf[i] && gs.filter(pred)[j] == rf[j]);
                }
            }
        }
    }
}

/// Filtering keeps pairwise-distinct transaction ids distinct.
proof fn lemma_filter_txs_distinct(ts: Seq<Transaction>, pred: spec_fn(Transaction) -> bool)
    requires
        forall|i: int, j: int|
            0 <= i < j < ts.len() ==> #[trigger] ts[i].transaction_id
                != #[trigger] ts[j].transaction_id,
    ensures
        forall|i: int, j: int|
            0 <= i < j < ts.filter(pred).len() ==> #[trigger] ts.filter(pred)[i].transaction_id
                != #[trigger] ts.filter(pred)[j].transaction_id,
    decreases ts.len(),
{
    reveal(Seq::filter);
    if ts.len() > 0 {
        let rest = ts.drop_last();
        let last = ts.last();
        assert forall|i: int, j: int|
            0 <= i < j < rest.len() implies #[trigger] rest[i].transaction_id
            != #[trigger] rest[j].transaction_id by {
            assert(rest[i] == ts[i] && rest[j] == ts[j]);
        }
        lemma_filter_txs_distinct(rest, pred);
        let rf = rest.filter(pred);
        if pred(last) {
            assert(ts.filter(pred) == rf.push(last));
            assert forall|i: int| 0 <= i < rf.len() implies (#[trigger] rf[i]).transaction_id
                != last.transaction_id by {
                assert(rf.contains(rf[i]));
                rest.lemma_filter_contains_rev(pred, rf[i]);
                let k = choose|k: int| 0 <= k < rest.len() && rest[k] == rf[i];
                assert(ts[k].transaction_id != ts[ts.len() - 1].transaction_id);
            }
            assert forall|i: int, j: int|
                0 <= i < j < ts.filter(pred).len() implies #[trigger] ts.filter(
                pred,
            )[i].transaction_id != #[trigger] ts.filter(pred)[j].transaction_id by {
                if j == rf.len() {
                    assert(ts.filter(pred)[j] == last && ts.filter(pred)[i] == rf[i]);
                } else {
                    assert(ts.filter(pred)[i] == rf[i] && ts.filter(pred)[j] == rf[j]);
                }
            }
        }
    }
}

/// Every element of a filtered sequence sits somewhere in the original.
proof fn lemma_filter_elem_index<A>(s: Seq<A>, pred: spec_fn(A) -> bool, i: int) -> (k: int)
    requires
        0 <= i < s.filter(pred).len(),
    ensures
        0 <= k < s.len(),
        s[k] == s.filter(pred)[i],
        pred(s[k]),
{
    broadcast use Seq::lemma_filter_pred;

    assert(s.filter(pred).contains(s.filter(pred)[i]));
    s.lemma_filter_contains_rev(pred, s.filter(pred)[i]);
    choose|k: int| 0 <= k < s.len() && s[k] == s.filter(pred)[i]
}

// --- Budget-scoped operations ---

/// What a read of a single budget answers, given who asks.
pub open spec fn available_budget_spec(m: DbModel, token: Seq<char>, id: i64) -> Option<Budget> {
    match find_user_by_token(m.users, token) {
        Some(u) => match find_budget(m.budgets, id) {
            Some(b) => if budget_available(m, b, u.email@) {
                Some(b)
            } else {
                None
            },
            None => None,
        },
        None => None,
    }
}

/// How a deletion request resolves: only the budget's owner may delete it.
pub open spec fn delete_budget_outcome(m: DbModel, token: Seq<char>, id: i64) -> Result<
    (),
    Error,
> {
    match find_user_by_token(m.users, token) {
        None => Err(Error::InvalidAccessToken),
        Some(u) => match find_budget(m.budgets, id) {
            None => Err(Error::EntryNotFound),
            Some(b) => if b.owner->0@ != u.email@ {
                Err(Error::UserDeniedError)
            } else {
                Ok(())
            },
        },
    }
}

/// Deleting succeeds exactly for the owner; a collaborator is denied.
pub proof fn lemma_only_owner_deletes(m: DbModel, token: Seq<char>, id: i64)
    ensures
        delete_budget_outcome(m, token, id) is Ok ==> ({
            &&& find_user_by_token(m.users, token) is Some
            &&& find_budget(m.budgets, id) is Some
            &&& find_budget(m.budgets, id)->0.owner->0@ == find_user_by_token(
                m.users,
                token,
            )->0.email@
        }),
        (find_user_by_token(m.users, token) matches Some(u) && find_budget(m.budgets, id) matches
            Some(b) && b.owner->0@ != u.email@) ==> delete_budget_outcome(m, token, id) == Err::<
            (),
            Error,
        >(Error::UserDeniedError),
{
}

fn budgets_without(v: &Vec<Budget>, id: i64) -> (r: Vec<Budget>)
    ensures
        r@ == v@.filter(|b: Budget| b.budget_id != Some(id)),
{
    let ghost pred = |b: Budget| b.budget_id != Some(id);
    let mut r: Vec<Budget> = Vec::new();
    let n = v.len();
    let mut i: usize = 0;
    while i < n
        invariant
            0 <= i <= n,
            n == v@.len(),
            pred == (|b: Budget| b.budget_id != Some(id)),
            r@ == v@.take(i as int).filter(pred),
        decreases n - i,
    {
        proof {
            reveal_with_fuel(Seq::<_>::filter, 1);
            assert(v@.take(i + 1).drop_last() =~= v@.take(i as int));
            assert(v@.take(i + 1).last() == v@[i as int]);
            assert(v@.take(i + 1).filter(pred) == if pred(v@[i as int]) {
                v@.take(i as int).filter(pred).push(v@[i as int])
            } else {
                v@.take(i as int).filter(pred)
            });
        }
        let keep = match v[i].budget_id {
            Some(b) => b != id,
            None => true,
        };
        if keep {
            r.push(v[i].clone());
        }
        i = i + 1;
    }
    proof {
        assert(v@.take(n as int) =~= v@);
    }
    r
}

fn grants_without_budget(v: &Vec<Grant>, id: i64) -> (r: Vec<Grant>)
    ensures
        r@ == v@.filter(|g: Grant| g.budget_id != id),
{
    let ghost pred = |g: Grant| g.budget_id != id;
    let mut r: Vec<Grant> = Vec::new();
    let n = v.len();
    let mut i: usize = 0;
    while i < n
        invariant
            0 <= i <= n,
            n == v@.len(),
            pred == (|g: Grant| g.budget_id != id),
            r@ == v@.take(i as int).filter(pred),
        decreases n - i,
    {
        proof {
            reveal_with_fuel(Seq::<_>::filter, 1);
            assert(v@.take(i + 1).drop_last() =~= v@.take(i as int));
            assert(v@.take(i + 1).last() == v@[i as int]);
            assert(v@.take(i + 1).filter(pred) == if pred(v@[i as int]) {
                v@.take(i as int).filter(pred).push(v@[i as int])
            } else {
                v@.take(i as int).filter(pred)
            });
        }
        if v[i].budget_id != id {
            r.push(v[i].clone());
        }
        i = i + 1;
    }
    proof {
        assert(v@.take(n as int) =~= v@);
    }
    r
}

fn txs_without_budget(v: &Vec<Transaction>, id: i64) -> (r: Vec<Transaction>)
    ensures
        r@ == v@.filter(|t: Transaction| t.budget_id != id),
{
    let ghost pred = |t: Transaction| t.budget_id != id;
    let mut r: Vec<Transaction> = Vec::new();
    let n = v.len();
    let mut i: usize = 0;
    while i < n
        invariant
            0 <= i <= n,
            n == v@.len(),
            pred == (|t: Transaction| t.budget_id != id),
            r@ == v@.take(i as int).filter(pred),
        decreases n - i,
    {
        proof {
            reveal_with_fuel(Seq::<_>::filter, 1);
            assert(v@.take(i + 1).drop_last() =~= v@.take(i as int));
            assert(v@.take(i + 1).last() == v@[i as int]);
            assert(v@.take(i + 1).filter(pred) == if pred(v@[i as int]) {
                v@.take(i as int).filter(pred).push(v@[i as int])
            } else {
                v@.take(i as int).filter(pred)
            });
        }
        if v[i].budget_id != id {
            r.push(v[i].clone());
        }
        i = i + 1;
    }
    proof {
        assert(v@.take(n as int) =~= v@);
    }
    r
}

impl Database {
    /// The position of the budget with the given id.
    fn budget_pos(&self, budget_id: i64) -> (r: Option<usize>)
        ensures
            match r {
                Some(i) => budget_idx(self@.budgets, budget_id) == i as int && i
                    < self@.budgets.len() && self@.budgets[i as int].budget_id == Some(budget_id),
                None => budget_idx(self@.budgets, budget_id) == -1 && find_budget(
                    self@.budgets,
                    budget_id,
                ) is None,
            },
    {
        let n = self.budgets.len();
        let mut i: usize = 0;
        while i < n
            invariant
                0 <= i <= n,
                n == self@.budgets.len(),
                budget_idx(self@.budgets, budget_id) == budget_idx_from(
                    self@.budgets,
                    budget_id,
                    i as int,
                ),
            decreases n - i,
        {
            let found = match self.budgets[i].budget_id {
                Some(b) => b == budget_id,
                None => false,
            };
            if found {
                return Some(i);
            }
            i = i + 1;
        }
        None
    }

    /// Looks a budget up by id, with no access check.
    pub fn get_budget(&self, budget_id: i64) -> (r: Option<Budget>)
        ensures
            r == find_budget(self@.budgets, budget_id),
    {
        match self.budget_pos(budget_id) {
            Some(i) => Some(self.budgets[i].clone()),
            None => None,
        }
    }

    /// Looks a budget up by id, answering it only to its owner or a
    /// collaborator.
    pub fn get_available_budget(&self, access_token: &str, budget_id: i64) -> (r: Option<Budget>)
        requires
            self.wf(),
        ensures
            r == available_budget_spec(self@, access_token@, budget_id),
    {
        let user = match self.get_user_by_access_token(access_token) {
            Some(u) => u,
            None => { return None },
        };
        let i = match self.budget_pos(budget_id) {
            Some(i) => i,
            None => { return None },
        };
        let auth = self.authorization(&self.budgets[i], user.email.as_str());
        if auth != Authorization::NoAccess {
            Some(self.budgets[i].clone())
        } else {
            None
        }
    }

    /// Every budget the caller owns or collaborates on.
    pub fn get_available_budgets(&self, access_token: &str) -> (r: Vec<Budget>)
        requires
            self.wf(),
        ensures
            match find_user_by_token(self@.users, access_token@) {
                Some(u) => r@ == self@.budgets.filter(
                    |b: Budget| budget_available(self@, b, u.email@),
                ),
                None => r@ == Seq::<Budget>::empty(),
            },
    {
        let user = match self.get_user_by_access_token(access_token) {
            Some(u) => u,
            None => { return Vec::new() },
        };
        let ghost pred = |b: Budget| budget_available(self@, b, user.email@);
        let mut r: Vec<Budget> = Vec::new();
        let n = self.budgets.len();
        let mut i: usize = 0;
        while i < n
            invariant
                0 <= i <= n,
                self.wf(),
                n == self@.budgets.len(),
                pred == (|b: Budget| budget_available(self@, b, user.email@)),
                r@ == self@.budgets.take(i as int).filter(pred),
            decreases n - i,
        {
            proof {
                reveal_with_fuel(Seq::<_>::filter, 1);
                assert(self@.budgets.take(i + 1).drop_last() =~= self@.budgets.take(i as int));
                assert(self@.budgets.take(i + 1).last() == self@.budgets[i as int]);
                assert(self@.budgets.take(i + 1).filter(pred) == if pred(self@.budgets[i as int]) {
                    self@.budgets.take(i as int).filter(pred).push(self@.budgets[i as int])
                } else {
                    self@.budgets.take(i as int).filter(pred)
                });
            }
            let auth = self.authorization(&self.budgets[i], user.email.as_str());
            if auth != Authorization::NoAccess {
                r.push(self.budgets[i].clone());
            }
            i = i + 1;
        }
        proof {
            assert(self@.budgets.take(n as int) =~= self@.budgets);
        }
        r
    }

    /// Creates a budget owned by the caller; the store assigns its id. The
    /// start date must be a valid "YYYY-MM-DD" date and the period length at
    /// least one day.
    pub fn add_budget(&mut self, access_token: &str, budget: &Budget) -> (r: Result<Budget, Error>)
        requires
            old(self).wf(),
        ensures
            final(self).wf(),
            ({
                let m = old(self)@;
                match find_user_by_token(m.users, access_token@) {
                    None => r matches Err(Error::InvalidAccessToken) && final(self)@ == m,
                    Some(u) => {
                        if budget.period_length < 1 || crate::dates::str_to_date(
                            budget.start_date@,
                        ) is None || m.next_budget_id >= i64::MAX {
                            r matches Err(Error::UnknownError) && final(self)@ == m
                        } else {
                            r matches Ok(nb) && {
                                &&& nb.budget_id == Some(m.next_budget_id as i64)
                                &&& nb.owner matches Some(o) && o@ == u.email@
                                &&& nb.name@ == budget.name@
                                &&& nb.spend_limit == budget.spend_limit
                                &&& nb.period_length == budget.period_length
                                &&& nb.start_date@ == budget.start_date@
                                &&& final(self)@ == (DbModel {
                                    budgets: m.budgets.push(nb),
                                    next_budget_id: m.next_budget_id + 1,
                                    ..m
                                })
                            }
                        }
                    },
                }
            }),
    {
        let user = match self.get_user_by_access_token(access_token) {
            Some(u) => u,
            None => { return Err(Error::InvalidAccessToken) },
        };
        if budget.period_length < 1 {
            return Err(Error::UnknownError);
        }
        if crate::dates::parse_date(budget.start_date.as_str()).is_none() {
            return Err(Error::UnknownError);
        }
        if self.next_budget_id == i64::MAX {
            return Err(Error::UnknownError);
        }
        let nb = Budget {
            budget_id: Some(self.next_budget_id),
            owner: Some(user.email.clone()),
            name: budget.name.clone(),
            spend_limit: budget.spend_limit,
            period_length: budget.period_length,
            start_date: budget.start_date.clone(),
        };
        let out = nb.clone();
        self.budgets.push(nb);
        self.next_budget_id = self.next_budget_id + 1;
        proof {
            let m = old(self)@;
            let m2 = self@;
            let nbv = m2.budgets[m.budgets.len() as int];
            assert forall|k: int| 0 <= k < m2.budgets.len() implies budget_stored_wf(
                #[trigger] m2.budgets[k],
                m2.next_budget_id,
            ) by {
                if k < m.budgets.len() {
                    assert(m2.budgets[k] == m.budgets[k]);
                    assert(budget_stored_wf(m.budgets[k], m.next_budget_id));
                } else {
                    assert(m2.budgets[k] == nbv);
                    assert(nbv.budget_id == Some(m.next_budget_id as i64));
                    assert(budget_stored_wf(nbv, m2.next_budget_id));
                }
            }
            assert forall|i: int, j: int|
                0 <= i < j < m2.budgets.len() implies #[trigger] m2.budgets[i].budget_id
                != #[trigger] m2.budgets[j].budget_id by {
                if j < m.budgets.len() {
                    assert(m2.budgets[i] == m.budgets[i] && m2.budgets[j] == m.budgets[j]);
                } else {
                    assert(m2.budgets[j] == nbv);
                    assert(m2.budgets[i] == m.budgets[i]);
                    assert(budget_stored_wf(m.budgets[i], m.next_budget_id));
                }
            }
            assert forall|i: int| 0 <= i < m2.grants.len() implies grant_stored_wf(
                m2,
                #[trigger] m2.grants[i],
            ) by {
                let g = m.grants[i];
                assert(grant_stored_wf(m, g));
                let k = choose|k: int|
                    0 <= k < m.budgets.len() && (#[trigger] m.budgets[k]).budget_id == Some(
                        g.budget_id,
                    ) && m.budgets[k].owner->0@ != g.email@;
                assert(m2.budgets[k] == m.budgets[k]);
            }
        }
        Ok(out)
    }

    /// Deletes a budget, with its grants and transactions; owner only.
    pub fn delete_budget(&mut self, access_token: &str, budget_id: i64) -> (r: Result<(), Error>)
        requires
            old(self).wf(),
        ensures
            final(self).wf(),
            r == delete_budget_outcome(old(self)@, access_token@, budget_id),
            r is Ok ==> final(self)@ == (DbModel {
                budgets: old(self)@.budgets.filter(|b: Budget| b.budget_id != Some(budget_id)),
                grants: old(self)@.grants.filter(|g: Grant| g.budget_id != budget_id),
                transactions: old(self)@.transactions.filter(
                    |t: Transaction| t.budget_id != budget_id,
                ),
                ..old(self)@
            }),
            r is Err ==> final(self)@ == old(self)@,
    {
        let user = match self.get_user_by_access_token(access_token) {
            Some(u) => u,
            None => { return Err(Error::InvalidAccessToken) },
        };
        let i = match self.budget_pos(budget_id) {
            Some(i) => i,
            None => { return Err(Error::EntryNotFound) },
        };
        let is_owner = match &self.budgets[i].owner {
            Some(o) => str_eq(o.as_str(), user.email.as_str()),
            None => false,
        };
        if !is_owner {
            return Err(Error::UserDeniedError);
        }
        let new_budgets = budgets_without(&self.budgets, budget_id);
        let new_grants = grants_without_budget(&self.grants, budget_id);
        let new_txs = txs_without_budget(&self.transactions, budget_id);
        self.budgets = new_budgets;
        self.grants = new_grants;
        self.transactions = new_txs;
        proof {
            let m = old(self)@;
            let m2 = self@;
            let bpred = |b: Budget| b.budget_id != Some(budget_id);
            let gpred = |g: Grant| g.budget_id != budget_id;
            let tpred = |t: Transaction| t.budget_id != budget_id;
            broadcast use Seq::lemma_filter_pred;
            broadcast use Seq::lemma_filter_contains;

            lemma_filter_budgets_distinct(m.budgets, bpred);
            lemma_filter_grants_distinct(m.grants, gpred);
            lemma_filter_txs_distinct(m.transactions, tpred);
            assert forall|k: int| 0 <= k < m2.budgets.len() implies budget_stored_wf(
                #[trigger] m2.budgets[k],
                m2.next_budget_id,
            ) by {
                let w = lemma_filter_elem_index(m.budgets, bpred, k);
                assert(budget_stored_wf(m.budgets[w], m.next_budget_id));
            }
            assert forall|k: int| 0 <= k < m2.transactions.len() implies tx_stored_wf(
                #[trigger] m2.transactions[k],
                m2.next_transaction_id,
            ) by {
                let w = lemma_filter_elem_index(m.transactions, tpred, k);
                assert(tx_stored_wf(m.transactions[w], m.next_transaction_id));
            }
            assert forall|k: int| 0 <= k < m2.grants.len() implies grant_stored_wf(
                m2,
                #[trigger] m2.grants[k],
            ) by {
                let w = lemma_filter_elem_index(m.grants, gpred, k);
                let g = m.grants[w];
                assert(grant_stored_wf(m, g));
                assert(gpred(g));
                let bw = choose|bw: int|
                    0 <= bw < m.budgets.len() && (#[trigger] m.budgets[bw]).budget_id == Some(
                        g.budget_id,
                    ) && m.budgets[bw].owner->0@ != g.email@;
                assert(bpred(m.budgets[bw]));
                assert(m.budgets.filter(bpred).contains(m.budgets[bw]));
                let nb = choose|nb: int|
                    0 <= nb < m2.budgets.len() && m2.budgets[nb] == m.budgets[bw];
                assert(has_budget_not_owned(m2.budgets, g.budget_id, g.email@));
            }
        }
        Ok(())
    }
}

// --- Collaborator grant operations ---

/// How a grant request resolves: the owner grants, never to themselves,
/// only to an existing account, and only once.
pub open spec fn grant_access_outcome(
    m: DbModel,
    token: Seq<char>,
    id: i64,
    grantee: Seq<char>,
) -> Result<(), Error> {
    match find_user_by_token(m.users, token) {
        None => Err(Error::InvalidAccessToken),
        Some(u) => match find_budget(m.budgets, id) {
            None => Err(Error::EntryNotFound),
            Some(b) => if b.owner->0@ != u.email@ {
                Err(Error::UserDeniedError)
            } else if grantee == u.email@ {
                Err(Error::AccessRecursionError)
            } else if !has_user_email(m.users, grantee) {
                Err(Error::EntryNotFound)
            } else if has_grant(m.grants, id, grantee) {
                Err(Error::AlreadyGranted)
            } else {
                Ok(())
            },
        },
    }
}

/// Granting the owner access to their own budget always fails with
/// `AccessRecursionError`, whatever else the store holds.
pub proof fn lemma_grant_to_owner_is_recursion(m: DbModel, token: Seq<char>, id: i64)
    requires
        find_user_by_token(m.users, token) is Some,
        find_budget(m.budgets, id) is Some,
        find_budget(m.budgets, id)->0.owner->0@ == find_user_by_token(m.users, token)->0.email@,
    ensures
        grant_access_outcome(m, token, id, find_user_by_token(m.users, token)->0.email@) == Err::<
            (),
            Error,
        >(Error::AccessRecursionError),
{
}

/// How a revocation resolves: the owner revokes an existing grant; revoking
/// a grant that is not on file is `EntryNotFound`.
pub open spec fn revoke_access_outcome(
    m: DbModel,
    token: Seq<char>,
    id: i64,
    grantee: Seq<char>,
) -> Result<(), Error> {
    match find_user_by_token(m.users, token) {
        None => Err(Error::InvalidAccessToken),
        Some(u) => match find_budget(m.budgets, id) {
            None => Err(Error::EntryNotFound),
            Some(b) => if b.owner->0@ != u.email@ {
                Err(Error::UserDeniedError)
            } else if !has_grant(m.grants, id, grantee) {
                Err(Error::EntryNotFound)
            } else {
                Ok(())
            },
        },
    }
}

/// Whether a user is the owner of, or a collaborator on, the budget.
pub open spec fn is_budget_member(m: DbModel, id: i64, u: User) -> bool {
    ||| (find_budget(m.budgets, id) matches Some(b) && b.owner->0@ == u.email@)
    ||| has_grant(m.grants, id, u.email@)
}

fn grants_without_pair(v: &Vec<Grant>, id: i64, email: &str) -> (r: Vec<Grant>)
    ensures
        r@ == v@.filter(|g: Grant| !(g.budget_id == id && g.email@ == email@)),
{
    let ghost pred = |g: Grant| !(g.budget_id == id && g.email@ == email@);
    let mut r: Vec<Grant> = Vec::new();
    let n = v.len();
    let mut i: usize = 0;
    while i < n
        invariant
            0 <= i <= n,
            n == v@.len(),
            pred == (|g: Grant| !(g.budget_id == id && g.email@ == email@)),
            r@ == v@.take(i as int).filter(pred),
        decreases n - i,
    {
        proof {
            reveal_with_fuel(Seq::<_>::filter, 1);
            assert(v@.take(i + 1).drop_last() =~= v@.take(i as int));
            assert(v@.take(i + 1).last() == v@[i as int]);
            assert(v@.take(i + 1).filter(pred) == if pred(v@[i as int]) {
                v@.take(i as int).filter(pred).push(v@[i as int])
            } else {
                v@.take(i as int).filter(pred)
            });
        }
        let keep = !(v[i].budget_id == id && str_eq(v[i].email.as_str(), email));
        if keep {
            r.push(v[i].clone());
        }
        i = i + 1;
    }
    proof {
        assert(v@.take(n as int) =~= v@);
    }
    r
}

impl Database {
    /// Grants a collaborator access to a budget; owner only, never to the
    /// owner themselves, and only once per pair.
    pub fn add_can_access_budget(
        &mut self,
        access_token: &str,
        budget_id: i64,
        email: &str,
    ) -> (r: Result<(), Error>)
        requires
            old(self).wf(),
        ensures
            final(self).wf(),
            r == grant_access_outcome(old(self)@, access_token@, budget_id, email@),
            r is Ok ==> ({
                let g = final(self)@.grants.last();
                &&& g.budget_id == budget_id
                &&& g.email@ == email@
                &&& final(self)@ == (DbModel {
                    grants: old(self)@.grants.push(g),
                    ..old(self)@
                })
            }),
            r is Err ==> final(self)@ == old(self)@,
    {
        let user = match self.get_user_by_access_token(access_token) {
            Some(u) => u,
            None => { return Err(Error::InvalidAccessToken) },
        };
        let i = match self.budget_pos(budget_id) {
            Some(i) => i,
            None => { return Err(Error::EntryNotFound) },
        };
        let is_owner = match &self.budgets[i].owner {
            Some(o) => str_eq(o.as_str(), user.email.as_str()),
            None => false,
        };
        if !is_owner {
            return Err(Error::UserDeniedError);
        }
        if str_eq(email, user.email.as_str()) {
            return Err(Error::AccessRecursionError);
        }
        proof {
            lemma_user_idx_by_email_props(self@.users, email@, 0);
        }
        if self.get_user_by_email(email).is_none() {
            return Err(Error::EntryNotFound);
        }
        if self.has_grant_for(budget_id, email) {
            return Err(Error::AlreadyGranted);
        }
        let g = Grant { budget_id, email: String::from_str(email) };
        self.grants.push(g);
        proof {
            let m = old(self)@;
            let m2 = self@;
            let gl = m2.grants.last();
            assert forall|a: int, b: int|
                0 <= a < b < m2.grants.len() implies !((#[trigger] m2.grants[a]).budget_id == (
            #[trigger] m2.grants[b]).budget_id && m2.grants[a].email@ == m2.grants[b].email@) by {
                if b < m.grants.len() {
                    assert(m2.grants[a] == m.grants[a] && m2.grants[b] == m.grants[b]);
                } else {
                    assert(m2.grants[b] == gl);
                    assert(m2.grants[a] == m.grants[a]);
                    if m.grants[a].budget_id == budget_id && m.grants[a].email@ == email@ {
                        assert(has_grant(m.grants, budget_id, email@));
                    }
                }
            }
            assert forall|k: int| 0 <= k < m2.grants.len() implies grant_stored_wf(
                m2,
                #[trigger] m2.grants[k],
            ) by {
                if k < m.grants.len() {
                    assert(m2.grants[k] == m.grants[k]);
                    assert(grant_stored_wf(m, m.grants[k]));
                } else {
                    assert(m2.grants[k] == gl);
                    let bi = i as int;
                    assert(m.budgets[bi].budget_id == Some(budget_id));
                    assert(m.budgets[bi].owner->0@ != email@);
                    assert(has_budget_not_owned(m.budgets, budget_id, email@));
                    let ui = user_idx_by_email(m.users, email@);
                    lemma_user_idx_by_email_props(m.users, email@, 0);
                    assert(has_user_email(m.users, email@));
                }
            }
        }
        Ok(())
    }

    /// Revokes a collaborator's access; owner only.
    pub fn delete_can_access_budget(
        &mut self,
        access_token: &str,
        budget_id: i64,
        email: &str,
    ) -> (r: Result<(), Error>)
        requires
            old(self).wf(),
        ensures
            final(self).wf(),
            r == revoke_access_outcome(old(self)@, access_token@, budget_id, email@),
            r is Ok ==> final(self)@ == (DbModel {
                grants: old(self)@.grants.filter(
                    |g: Grant| !(g.budget_id == budget_id && g.email@ == email@),
                ),
                ..old(self)@
            }),
            r is Err ==> final(self)@ == old(self)@,
    {
        let user = match self.get_user_by_access_token(access_token) {
            Some(u) => u,
            None => { return Err(Error::InvalidAccessToken) },
        };
        let i = match self.budget_pos(budget_id) {
            Some(i) => i,
            None => { return Err(Error::EntryNotFound) },
        };
        let is_owner = match &self.budgets[i].owner {
            Some(o) => str_eq(o.as_str(), user.email.as_str()),
            None => false,
        };
        if !is_owner {
            return Err(Error::UserDeniedError);
        }
        if !self.has_grant_for(budget_id, email) {
            return Err(Error::EntryNotFound);
        }
        let new_grants = grants_without_pair(&self.grants, budget_id, email);
        self.grants = new_grants;
        proof {
            let m = old(self)@;
            let m2 = self@;
            let gpred = |g: Grant| !(g.budget_id == budget_id && g.email@ == email@);
            broadcast use Seq::lemma_filter_pred;
            broadcast use Seq::lemma_filter_contains;

            lemma_filter_grants_distinct(m.grants, gpred);
            assert forall|k: int| 0 <= k < m2.grants.len() implies grant_stored_wf(
                m2,
                #[trigger] m2.grants[k],
            ) by {
                let w = lemma_filter_elem_index(m.grants, gpred, k);
                let g = m.grants[w];
                assert(grant_stored_wf(m, g));
            }
        }
        Ok(())
    }

    /// Every identity with access to the budget: the owner plus all
    /// collaborators, in account order. The caller must be one of them.
    pub fn get_available_can_access_budget_users(
        &self,
        access_token: &str,
        budget_id: i64,
    ) -> (r: Result<Vec<String>, Error>)
        requires
            self.wf(),
        ensures
            ({
                let m = self@;
                let members = m.users.filter(|u: User| is_budget_member(m, budget_id, u));
                match find_user_by_token(m.users, access_token@) {
                    None => r matches Err(Error::InvalidAccessToken),
                    Some(u) => {
                        if members.len() == 0 {
                            r matches Err(Error::EntryNotFound)
                        } else if !is_budget_member(m, budget_id, u) {
                            r matches Err(Error::UserDeniedError)
                        } else {
                            r matches Ok(list) && list@.len() == members.len() && (forall|i: int|
                                0 <= i < members.len() ==> (#[trigger] list@[i])@
                                    == members[i].email@)
                        }
                    },
                }
            }),
    {
        let user = match self.get_user_by_access_token(access_token) {
            Some(u) => u,
            None => { return Err(Error::InvalidAccessToken) },
        };
        let ghost m = self@;
        let ghost pred = |u: User| is_budget_member(m, budget_id, u);
        let pos = self.budget_pos(budget_id);
        let mut list: Vec<String> = Vec::new();
        let n = self.users.len();
        let mut i: usize = 0;
        while i < n
            invariant
                0 <= i <= n,
                self.wf(),
                n == self@.users.len(),
                m == self@,
                pred == (|u: User| is_budget_member(m, budget_id, u)),
                match pos {
                    Some(p) => budget_idx(m.budgets, budget_id) == p as int && p < m.budgets.len()
                        && m.budgets[p as int].budget_id == Some(budget_id),
                    None => budget_idx(m.budgets, budget_id) == -1 && find_budget(
                        m.budgets,
                        budget_id,
                    ) is None,
                },
                list@.len() == m.users.take(i as int).filter(pred).len(),
                forall|k: int|
                    0 <= k < list@.len() ==> (#[trigger] list@[k])@ == m.users.take(
                        i as int,
                    ).filter(pred)[k].email@,
            decreases n - i,
        {
            proof {
                reveal_with_fuel(Seq::<_>::filter, 1);
                assert(m.users.take(i + 1).drop_last() =~= m.users.take(i as int));
                assert(m.users.take(i + 1).last() == m.users[i as int]);
                assert(m.users.take(i + 1).filter(pred) == if pred(m.users[i as int]) {
                    m.users.take(i as int).filter(pred).push(m.users[i as int])
                } else {
                    m.users.take(i as int).filter(pred)
                });
            }
            let is_owner = match pos {
                Some(p) => match &self.budgets[p].owner {
                    Some(o) => str_eq(o.as_str(), self.users[i].email.as_str()),
                    None => false,
                },
                None => false,
            };
            let member = is_owner || self.has_grant_for(budget_id, self.users[i].email.as_str());
            if member {
                list.push(self.users[i].email.clone());
            }
            i = i + 1;
        }
        proof {
            assert(m.users.take(n as int) =~= m.users);
        }
        if list.len() == 0 {
            return Err(Error::EntryNotFound);
        }
        let caller_is_owner = match pos {
            Some(p) => match &self.budgets[p].owner {
                Some(o) => str_eq(o.as_str(), user.email.as_str()),
                None => false,
            },
            None => false,
        };
        let caller_member = caller_is_owner || self.has_grant_for(
            budget_id,
            user.email.as_str(),
        );
        if !caller_member {
            return Err(Error::UserDeniedError);
        }
        Ok(list)
    }
}

// --- Transactions: keys, ordering, aggregation ---

/// Whether a transaction carries a well-formed timestamp.
pub open spec fn tx_parses(t: Transaction) -> bool {
    t.date is Some && crate::dates::str_to_timestamp(t.date->0@) is Some
}

/// The timestamp of a well-formed transaction.
pub open spec fn tx_timestamp(t: Transaction) -> crate::dates::Timestamp {
    crate::dates::str_to_timestamp(t.date->0@)->0
}

/// Milliseconds since the calendar epoch: the sort key of a transaction.
pub open spec fn tx_key(t: Transaction) -> int {
    crate::dates::timestamp_key(tx_timestamp(t))
}

/// The day number of the date component of a transaction's timestamp.
pub open spec fn tx_day(t: Transaction) -> int {
    crate::dates::day_number(tx_timestamp(t).date)
}

/// Newest first: keys never increase along the sequence.
pub open spec fn sorted_desc(s: Seq<Transaction>) -> bool {
    forall|i: int, j: int| 0 <= i < j < s.len() ==> tx_key(#[trigger] s[i]) >= tx_key(#[trigger] s[j])
}

pub open spec fn all_parse(s: Seq<Transaction>) -> bool {
    forall|i: int| 0 <= i < s.len() ==> tx_parses(#[trigger] s[i])
}

/// The sum of the amounts of a sequence of transactions.
pub open spec fn sum_amounts(s: Seq<Transaction>) -> int
    decreases s.len(),
{
    if s.len() == 0 {
        0
    } else {
        sum_amounts(s.drop_last()) + s.last().amount
    }
}

/// A period with no transactions sums to exactly zero.
pub proof fn lemma_no_transactions_spend_zero(s: Seq<Transaction>, pred: spec_fn(Transaction) -> bool)
    requires
        forall|i: int| 0 <= i < s.len() ==> !pred(#[trigger] s[i]),
    ensures
        sum_amounts(s.filter(pred)) == 0,
{
    s.lemma_all_neg_filter_empty(pred);
}

/// The sort key of a well-formed transaction, computed.
fn tx_key_exec(t: &Transaction) -> (k: i64)
    requires
        tx_parses(*t),
    ensures
        k == tx_key(*t),
{
    let s = match &t.date {
        Some(s) => s,
        None => { proof { assert(false); } return 0 },
    };
    let ts = match crate::dates::parse_timestamp(s.as_str()) {
        Some(ts) => ts,
        None => { proof { assert(false); } return 0 },
    };
    let day = crate::dates::to_day_number(&ts.date);
    (day as i64) * 86400000 + (ts.hour as i64) * 3600000 + (ts.minute as i64) * 60000 + (
    ts.second as i64) * 1000 + (ts.milli as i64)
}

/// Inserting splits a sequence around the insertion point, so the
/// multiset gains exactly the new element.
proof fn lemma_insert_multiset(s: Seq<Transaction>, i: int, t: Transaction)
    requires
        0 <= i <= s.len(),
    ensures
        s.insert(i, t).to_multiset() == s.to_multiset().insert(t),
{
    broadcast use vstd::multiset::group_multiset_axioms;

    let pre = s.subrange(0, i);
    let post = s.subrange(i, s.len() as int);
    assert(s.insert(i, t) == pre.push(t) + post);
    vstd::seq_lib::lemma_multiset_commutative(pre.push(t), post);
    vstd::seq_lib::lemma_multiset_commutative(pre, post);
    assert(pre + post =~= s);
    pre.to_multiset_ensures();
    assert(pre.push(t).to_multiset() =~= pre.to_multiset().insert(t));
    assert(s.insert(i, t).to_multiset() =~= pre.to_multiset().insert(t).add(post.to_multiset()));
    assert(s.to_multiset() =~= pre.to_multiset().add(post.to_multiset()));
    assert(pre.to_multiset().insert(t).add(post.to_multiset()) =~= pre.to_multiset().add(
        post.to_multiset(),
    ).insert(t));
}

/// Inserting at the first position whose key is below the new element's
/// keeps a newest-first sequence ordered.
proof fn lemma_insert_sorted(s: Seq<Transaction>, i: int, t: Transaction)
    requires
        0 <= i <= s.len(),
        sorted_desc(s),
        forall|k: int| 0 <= k < i ==> tx_key(#[trigger] s[k]) >= tx_key(t),
        i < s.len() ==> tx_key(s[i]) < tx_key(t),
    ensures
        sorted_desc(s.insert(i, t)),
{
    let v = s.insert(i, t);
    s.insert_ensures(i, t);
    assert forall|a: int, b: int| 0 <= a < b < v.len() implies tx_key(#[trigger] v[a]) >= tx_key(
        #[trigger] v[b],
    ) by {
        if a < i && b == i {
            assert(v[a] == s[a] && v[b] == t);
        } else if a == i && b > i {
            assert(v[a] == t && v[b] == s[b - 1]);
            assert(tx_key(s[i]) < tx_key(t));
            assert(tx_key(s[b - 1]) <= tx_key(s[i]));
        } else if a < i && b > i {
            assert(v[a] == s[a] && v[b] == s[b - 1]);
        } else if b < i {
            assert(v[a] == s[a] && v[b] == s[b]);
        } else if a > i {
            assert(v[a] == s[a - 1] && v[b] == s[b - 1]);
        }
    }
}

proof fn lemma_insert_all_parse(s: Seq<Transaction>, i: int, t: Transaction)
    requires
        0 <= i <= s.len(),
        all_parse(s),
        tx_parses(t),
    ensures
        all_parse(s.insert(i, t)),
{
    s.insert_ensures(i, t);
    assert forall|k: int| 0 <= k < s.insert(i, t).len() implies tx_parses(
        #[trigger] s.insert(i, t)[k],
    ) by {
        if k < i {
            assert(s.insert(i, t)[k] == s[k]);
        } else if k == i {
            assert(s.insert(i, t)[k] == t);
        } else {
            assert(s.insert(i, t)[k] == s[k - 1]);
        }
    }
}

/// Inserts a transaction into a newest-first list, keeping the order.
fn insert_sorted_desc(v: &mut Vec<Transaction>, t: Transaction)
    requires
        sorted_desc(old(v)@),
        all_parse(old(v)@),
        tx_parses(t),
    ensures
        sorted_desc(final(v)@),
        all_parse(final(v)@),
        final(v)@.to_multiset() == old(v)@.to_multiset().insert(t),
{
    let key = tx_key_exec(&t);
    let n = v.len();
    let mut i: usize = 0;
    while i < n
        invariant
            0 <= i <= n,
            n == v@.len(),
            sorted_desc(v@),
            all_parse(v@),
            tx_parses(t),
            v == old(v),
            key == tx_key(t),
            forall|k: int| 0 <= k < i ==> tx_key(#[trigger] v@[k]) >= key,
        ensures
            0 <= i <= n,
            n == v@.len(),
            v == old(v),
            key == tx_key(t),
            forall|k: int| 0 <= k < i ==> tx_key(#[trigger] v@[k]) >= key,
            i < n ==> tx_key(v@[i as int]) < key,
        decreases n - i,
    {
        if tx_key_exec(&v[i]) < key {
            break ;
        }
        i = i + 1;
    }
    let ghost oldv = v@;
    let ghost ii = i as int;
    v.insert(i, t);
    proof {
        assert(v@ == oldv.insert(ii, t));
        lemma_insert_sorted(oldv, ii, t);
        lemma_insert_all_parse(oldv, ii, t);
        lemma_insert_multiset(oldv, ii, t);
    }
}

// --- Budget-scoped reads and the period calculator ---

/// The common gate for budget-scoped reads: resolve the caller, find the
/// budget, and require owner or collaborator access.
pub open spec fn budget_read_gate(m: DbModel, token: Seq<char>, id: i64) -> Result<Budget, Error> {
    match find_user_by_token(m.users, token) {
        None => Err(Error::InvalidAccessToken),
        Some(u) => match find_budget(m.budgets, id) {
            None => Err(Error::EntryNotFound),
            Some(b) => if budget_available(m, b, u.email@) {
                Ok(b)
            } else {
                Err(Error::UserDeniedError)
            },
        },
    }
}

/// The day number of a stored budget's start date.
pub open spec fn budget_start_day(b: Budget) -> int {
    crate::dates::day_number(crate::dates::str_to_date(b.start_date@)->0)
}

impl Database {
    fn budget_read_pos(&self, access_token: &str, budget_id: i64) -> (r: Result<usize, Error>)
        requires
            self.wf(),
        ensures
            match r {
                Ok(p) => p < self@.budgets.len() && budget_idx(self@.budgets, budget_id)
                    == p as int && budget_read_gate(self@, access_token@, budget_id) == Ok::<
                    Budget,
                    Error,
                >(self@.budgets[p as int]),
                Err(e) => budget_read_gate(self@, access_token@, budget_id) == Err::<
                    Budget,
                    Error,
                >(e),
            },
    {
        let user = match self.get_user_by_access_token(access_token) {
            Some(u) => u,
            None => { return Err(Error::InvalidAccessToken) },
        };
        let p = match self.budget_pos(budget_id) {
            Some(p) => p,
            None => { return Err(Error::EntryNotFound) },
        };
        let auth = self.authorization(&self.budgets[p], user.email.as_str());
        if auth != Authorization::NoAccess {
            Ok(p)
        } else {
            Err(Error::UserDeniedError)
        }
    }

    /// All transactions on a budget, newest first.
    pub fn get_budget_transactions(&self, access_token: &str, budget_id: i64) -> (r: Result<
        Vec<Transaction>,
        Error,
    >)
        requires
            self.wf(),
        ensures
            ({
                let m = self@;
                match budget_read_gate(m, access_token@, budget_id) {
                    Ok(b) => r matches Ok(list) && list@.to_multiset() == m.transactions.filter(
                        |t: Transaction| t.budget_id == budget_id,
                    ).to_multiset() && sorted_desc(list@),
                    Err(e) => r == Err::<Vec<Transaction>, Error>(e),
                }
            }),
    {
        match self.budget_read_pos(access_token, budget_id) {
            Ok(p) => p,
            Err(e) => { return Err(e) },
        };
        let ghost pred = |t: Transaction| t.budget_id == budget_id;
        let mut list: Vec<Transaction> = Vec::new();
        proof {
            reveal_with_fuel(Seq::<_>::filter, 1);
            assert(self@.transactions.take(0).filter(pred) =~= list@);
        }
        let n = self.transactions.len();
        let mut i: usize = 0;
        while i < n
            invariant
                0 <= i <= n,
                self.wf(),
                n == self@.transactions.len(),
                pred == (|t: Transaction| t.budget_id == budget_id),
                sorted_desc(list@),
                all_parse(list@),
                list@.to_multiset() == self@.transactions.take(i as int).filter(
                    pred,
                ).to_multiset(),
            decreases n - i,
        {
            proof {
                reveal_with_fuel(Seq::<_>::filter, 1);
                assert(self@.transactions.take(i + 1).drop_last() =~= self@.transactions.take(
                    i as int,
                ));
                assert(self@.transactions.take(i + 1).last() == self@.transactions[i as int]);
                assert(self@.transactions.take(i + 1).filter(pred) == if pred(
                    self@.transactions[i as int],
                ) {
                    self@.transactions.take(i as int).filter(pred).push(
                        self@.transactions[i as int],
                    )
                } else {
                    self@.transactions.take(i as int).filter(pred)
                });
                self@.transactions.take(i as int).filter(pred).to_multiset_ensures();
                assert(tx_stored_wf(self@.transactions[i as int], self@.next_transaction_id));
            }
            if self.transactions[i].budget_id == budget_id {
                insert_sorted_desc(&mut list, self.transactions[i].clone());
            }
            i = i + 1;
        }
        proof {
            assert(self@.transactions.take(n as int) =~= self@.transactions);
        }
        Ok(list)
    }

    /// The transactions of one spend window of a budget, newest first.
    pub fn get_budget_transactions_in_period(
        &self,
        access_token: &str,
        budget_id: i64,
        period_id: i64,
    ) -> (r: Result<Vec<Transaction>, Error>)
        requires
            self.wf(),
        ensures
            ({
                let m = self@;
                match budget_read_gate(m, access_token@, budget_id) {
                    Ok(b) => {
                        let sday = budget_start_day(b);
                        let wsd = crate::budget_period::window_start_day(
                            sday,
                            b.period_length as int,
                            period_id as int,
                        );
                        let wed = crate::budget_period::window_end_day(
                            sday,
                            b.period_length as int,
                            period_id as int,
                        );
                        if period_id < 0 || !crate::budget_period::day_has_date(wsd)
                            || !crate::budget_period::day_has_date(wed) {
                            r == Err::<Vec<Transaction>, Error>(Error::EntryNotFound)
                        } else {
                            r matches Ok(list) && list@.to_multiset() == m.transactions.filter(
                                |t: Transaction| t.budget_id == budget_id && wsd <= tx_day(t)
                                    <= wed,
                            ).to_multiset() && sorted_desc(list@)
                        }
                    },
                    Err(e) => r == Err::<Vec<Transaction>, Error>(e),
                }
            }),
    {
        let p = match self.budget_read_pos(access_token, budget_id) {
            Ok(p) => p,
            Err(e) => { return Err(e) },
        };
        proof {
            assert(budget_stored_wf(self@.budgets[p as int], self@.next_budget_id));
        }
        let sd = match crate::dates::parse_date(self.budgets[p].start_date.as_str()) {
            Some(d) => d,
            None => {
                proof {
                    assert(false);
                }
                return Err(Error::UnknownError)
            },
        };
        if period_id < 0 {
            return Err(Error::EntryNotFound);
        }
        let start_day = crate::dates::to_day_number(&sd);
        let len = self.budgets[p].period_length;
        let (ws, we) = match crate::budget_period::window_for(start_day, len, period_id) {
            Some(w) => w,
            None => { return Err(Error::EntryNotFound) },
        };
        let wsd = crate::dates::to_day_number(&ws);
        let wed = crate::dates::to_day_number(&we);
        let ghost gwsd = crate::budget_period::window_start_day(
            budget_start_day(self@.budgets[p as int]),
            len as int,
            period_id as int,
        );
        let ghost gwed = crate::budget_period::window_end_day(
            budget_start_day(self@.budgets[p as int]),
            len as int,
            period_id as int,
        );
        let ghost pred = |t: Transaction| t.budget_id == budget_id && gwsd <= tx_day(t) <= gwed;
        let mut list: Vec<Transaction> = Vec::new();
        proof {
            reveal_with_fuel(Seq::<_>::filter, 1);
            assert(self@.transactions.take(0).filter(pred) =~= list@);
        }
        let n = self.transactions.len();
        let mut i: usize = 0;
        while i < n
            invariant
                0 <= i <= n,
                self.wf(),
                n == self@.transactions.len(),
                wsd == gwsd,
                wed == gwed,
                pred == (|t: Transaction| t.budget_id == budget_id && gwsd <= tx_day(t) <= gwed),
                sorted_desc(list@),
                all_parse(list@),
                list@.to_multiset() == self@.transactions.take(i as int).filter(
                    pred,
                ).to_multiset(),
            decreases n - i,
        {
            proof {
                reveal_with_fuel(Seq::<_>::filter, 1);
                assert(self@.transactions.take(i + 1).drop_last() =~= self@.transactions.take(
                    i as int,
                ));
                assert(self@.transactions.take(i + 1).last() == self@.transactions[i as int]);
                assert(self@.transactions.take(i + 1).filter(pred) == if pred(
                    self@.transactions[i as int],
                ) {
                    self@.transactions.take(i as int).filter(pred).push(
                        self@.transactions[i as int],
                    )
                } else {
                    self@.transactions.take(i as int).filter(pred)
                });
                self@.transactions.take(i as int).filter(pred).to_multiset_ensures();
                assert(tx_stored_wf(self@.transactions[i as int], self@.next_transaction_id));
            }
            let t = &self.transactions[i];
            if t.budget_id == budget_id {
                let d = tx_day_exec(t);
                if wsd <= d && d <= wed {
                    insert_sorted_desc(&mut list, self.transactions[i].clone());
                }
            }
            i = i + 1;
        }
        proof {
            assert(self@.transactions.take(n as int) =~= self@.transactions);
        }
        Ok(list)
    }

    /// The sum of the amounts spent on a budget inside one spend window;
    /// a window with no transactions sums to zero.
    pub fn get_budget_period_amount_spent(
        &self,
        access_token: &str,
        budget_id: i64,
        period_id: i64,
    ) -> (r: Result<i128, Error>)
        requires
            self.wf(),
        ensures
            ({
                let m = self@;
                match budget_read_gate(m, access_token@, budget_id) {
                    Ok(b) => {
                        let sday = budget_start_day(b);
                        let wsd = crate::budget_period::window_start_day(
                            sday,
                            b.period_length as int,
                            period_id as int,
                        );
                        let wed = crate::budget_period::window_end_day(
                            sday,
                            b.period_length as int,
                            period_id as int,
                        );
                        if period_id < 0 || !crate::budget_period::day_has_date(wsd)
                            || !crate::budget_period::day_has_date(wed) {
                            r == Err::<i128, Error>(Error::EntryNotFound)
                        } else {
                            r == Ok::<i128, Error>(
                                sum_amounts(
                                    m.transactions.filter(
                                        |t: Transaction| t.budget_id == budget_id && wsd <= tx_day(
                                            t,
                                        ) <= wed,
                                    ),
                                ) as i128,
                            )
                        }
                    },
                    Err(e) => r == Err::<i128, Error>(e),
                }
            }),
    {
        let p = match self.budget_read_pos(access_token, budget_id) {
            Ok(p) => p,
            Err(e) => { return Err(e) },
        };
        proof {
            assert(budget_stored_wf(self@.budgets[p as int], self@.next_budget_id));
        }
        let sd = match crate::dates::parse_date(self.budgets[p].start_date.as_str()) {
            Some(d) => d,
            None => {
                proof {
                    assert(false);
                }
                return Err(Error::UnknownError)
            },
        };
        if period_id < 0 {
            return Err(Error::EntryNotFound);
        }
        let start_day = crate::dates::to_day_number(&sd);
        let len = self.budgets[p].period_length;
        let (ws, we) = match crate::budget_period::window_for(start_day, len, period_id) {
            Some(w) => w,
            None => { return Err(Error::EntryNotFound) },
        };
        let wsd = crate::dates::to_day_number(&ws);
        let wed = crate::dates::to_day_number(&we);
        let ghost gwsd = crate::budget_period::window_start_day(
            budget_start_day(self@.budgets[p as int]),
            len as int,
            period_id as int,
        );
        let ghost gwed = crate::budget_period::window_end_day(
            budget_start_day(self@.budgets[p as int]),
            len as int,
            period_id as int,
        );
        let ghost pred = |t: Transaction| t.budget_id == budget_id && gwsd <= tx_day(t) <= gwed;
        let mut acc: i128 = 0;
        let n = self.transactions.len();
        let mut i: usize = 0;
        while i < n
            invariant
                0 <= i <= n,
                self.wf(),
                n == self@.transactions.len(),
                wsd == gwsd,
                wed == gwed,
                pred == (|t: Transaction| t.budget_id == budget_id && gwsd <= tx_day(t) <= gwed),
                acc == sum_amounts(self@.transactions.take(i as int).filter(pred)),
                -(i as int) * 0x8000000000000000 <= acc <= (i as int) * 0x7fffffffffffffff,
            decreases n - i,
        {
            proof {
                reveal_with_fuel(Seq::<_>::filter, 1);
                assert(self@.transactions.take(i + 1).drop_last() =~= self@.transactions.take(
                    i as int,
                ));
                assert(self@.transactions.take(i + 1).last() == self@.transactions[i as int]);
                assert(self@.transactions.take(i + 1).filter(pred) == if pred(
                    self@.transactions[i as int],
                ) {
                    self@.transactions.take(i as int).filter(pred).push(
                        self@.transactions[i as int],
                    )
                } else {
                    self@.transactions.take(i as int).filter(pred)
                });
                let f = self@.transactions.take(i as int).filter(pred);
                let t0 = self@.transactions[i as int];
                assert(f.push(t0).drop_last() =~= f);
                assert(f.push(t0).last() == t0);
                assert(sum_amounts(f.push(t0)) == sum_amounts(f) + t0.amount);
                assert(tx_stored_wf(self@.transactions[i as int], self@.next_transaction_id));
            }
            let t = &self.transactions[i];
            if t.budget_id == budget_id {
                let d = tx_day_exec(t);
                if wsd <= d && d <= wed {
                    acc = acc + (t.amount as i128);
                }
            }
            i = i + 1;
        }
        proof {
            assert(self@.transactions.take(n as int) =~= self@.transactions);
        }
        Ok(acc)
    }

    /// Records a transaction on a budget the caller may access. The store
    /// stamps the recording identity and, when the caller gave none, the
    /// current timestamp; a caller-given timestamp must be well-formed.
    pub fn add_transaction(&mut self, access_token: &str, transaction: &Transaction) -> (r: Result<
        Transaction,
        Error,
    >)
        requires
            old(self).wf(),
        ensures
            final(self).wf(),
            ({
                let m = old(self)@;
                match find_user_by_token(m.users, access_token@) {
                    None => r matches Err(Error::InvalidAccessToken) && final(self)@ == m,
                    Some(u) => match find_budget(m.budgets, transaction.budget_id) {
                        None => r matches Err(Error::EntryNotFound) && final(self)@ == m,
                        Some(b) => {
                            if !budget_available(m, b, u.email@) {
                                r matches Err(Error::UserDeniedError) && final(self)@ == m
                            } else if (transaction.date matches Some(d) &&
                            crate::dates::str_to_timestamp(d@) is None) || m.next_transaction_id
                                >= i64::MAX {
                                r matches Err(Error::UnknownError) && final(self)@ == m
                            } else {
                                r matches Ok(nt) && {
                                    &&& nt.transaction_id == Some(m.next_transaction_id as i64)
                                    &&& nt.budget_id == transaction.budget_id
                                    &&& nt.email matches Some(e) && e@ == u.email@
                                    &&& nt.name@ == transaction.name@
                                    &&& nt.description@ == transaction.description@
                                    &&& nt.amount == transaction.amount
                                    &&& nt.recur_days == transaction.recur_days
                                    &&& (match transaction.recur_until {
                                        Some(ru) => nt.recur_until matches Some(ru2) && ru2@
                                            == ru@,
                                        None => nt.recur_until is None,
                                    })
                                    &&& tx_parses(nt)
                                    &&& (transaction.date matches Some(d) ==> nt.date->0@ == d@)
                                    &&& final(self)@ == (DbModel {
                                        transactions: m.transactions.push(nt),
                                        next_transaction_id: m.next_transaction_id + 1,
                                        ..m
                                    })
                                }
                            }
                        },
                    },
                }
            }),
    {
        let user = match self.get_user_by_access_token(access_token) {
            Some(u) => u,
            None => { return Err(Error::InvalidAccessToken) },
        };
        let p = match self.budget_pos(transaction.budget_id) {
            Some(p) => p,
            None => { return Err(Error::EntryNotFound) },
        };
        let auth = self.authorization(&self.budgets[p], user.email.as_str());
        if auth == Authorization::NoAccess {
            return Err(Error::UserDeniedError);
        }
        let date: String = match &transaction.date {
            Some(d) => {
                if crate::dates::parse_timestamp(d.as_str()).is_none() {
                    return Err(Error::UnknownError);
                }
                d.clone()
            },
            None => crate::util::get_current_date_time(),
        };
        if self.next_transaction_id == i64::MAX {
            return Err(Error::UnknownError);
        }
        let nt = Transaction {
            transaction_id: Some(self.next_transaction_id),
            budget_id: transaction.budget_id,
            email: Some(user.email.clone()),
            name: transaction.name.clone(),
            description: transaction.description.clone(),
            date: Some(date),
            amount: transaction.amount,
            recur_days: transaction.recur_days,
            recur_until: match &transaction.recur_until {
                Some(u0) => Some(u0.clone()),
                None => None,
            },
        };
        let out = nt.clone();
        self.transactions.push(nt);
        self.next_transaction_id = self.next_transaction_id + 1;
        proof {
            let m = old(self)@;
            let m2 = self@;
            let ntv = m2.transactions[m.transactions.len() as int];
            assert forall|k: int| 0 <= k < m2.transactions.len() implies tx_stored_wf(
                #[trigger] m2.transactions[k],
                m2.next_transaction_id,
            ) by {
                if k < m.transactions.len() {
                    assert(m2.transactions[k] == m.transactions[k]);
                    assert(tx_stored_wf(m.transactions[k], m.next_transaction_id));
                } else {
                    assert(m2.transactions[k] == ntv);
                }
            }
            assert forall|i: int, j: int|
                0 <= i < j < m2.transactions.len() implies #[trigger] m2.transactions[i].transaction_id
                != #[trigger] m2.transactions[j].transaction_id by {
                if j < m.transactions.len() {
                    assert(m2.transactions[i] == m.transactions[i] && m2.transactions[j]
                        == m.transactions[j]);
                } else {
                    assert(m2.transactions[j] == ntv);
                    assert(m2.transactions[i] == m.transactions[i]);
                    assert(tx_stored_wf(m.transactions[i], m.next_transaction_id));
                }
            }
        }
        Ok(out)
    }
}

/// The day of a well-formed transaction, computed.
fn tx_day_exec(t: &Transaction) -> (d: u64)
    requires
        tx_parses(*t),
    ensures
        d == tx_day(*t),
{
    let s = match &t.date {
        Some(s) => s,
        None => {
            proof {
                assert(false);
            }
            return 0
        },
    };
    let ts = match crate::dates::parse_timestamp(s.as_str()) {
        Some(ts) => ts,
        None => {
            proof {
                assert(false);
            }
            return 0
        },
    };
    crate::dates::to_day_number(&ts.date)
}

// --- Period queries ---

/// What a current-period request answers as of day `tday`: `NotYetStarted`
/// before the budget's start date, else the unique window containing `tday`,
/// rendered; `UnknownError` when that window leaves the representable
/// calendar.
pub open spec fn current_period_result_ok(
    m: DbModel,
    token: Seq<char>,
    id: i64,
    tday: int,
    r: Result<BudgetPeriod, Error>,
) -> bool {
    match budget_read_gate(m, token, id) {
        Err(e) => r == Err::<BudgetPeriod, Error>(e),
        Ok(b) => {
            let sday = budget_start_day(b);
            let len = b.period_length as int;
            let p = crate::budget_period::period_index_of(sday, len, tday);
            let wsd = crate::budget_period::window_start_day(sday, len, p);
            let wed = crate::budget_period::window_end_day(sday, len, p);
            if tday < sday {
                r == Err::<BudgetPeriod, Error>(Error::NotYetStarted)
            } else if !crate::budget_period::day_has_date(wsd)
                || !crate::budget_period::day_has_date(wed) {
                r == Err::<BudgetPeriod, Error>(Error::UnknownError)
            } else {
                r matches Ok(bp) && bp.period_id == p && bp.start_date@ == crate::dates::date_to_str(
                    crate::budget_period::date_of_day(wsd),
                ) && bp.end_date@ == crate::dates::date_to_str(
                    crate::budget_period::date_of_day(wed),
                )
            }
        },
    }
}

/// Whether window `k` of a budget lies inside the representable calendar.
pub open spec fn window_ok(b: Budget, k: int) -> bool {
    &&& crate::budget_period::day_has_date(
        crate::budget_period::window_start_day(budget_start_day(b), b.period_length as int, k),
    )
    &&& crate::budget_period::day_has_date(
        crate::budget_period::window_end_day(budget_start_day(b), b.period_length as int, k),
    )
}

/// What a period-list request answers as of day `tday`: windows 0 through
/// the current index (just window 0 before the start date), newest first.
pub open spec fn periods_list_result_ok(
    m: DbModel,
    token: Seq<char>,
    id: i64,
    tday: int,
    r: Result<Vec<BudgetPeriod>, Error>,
) -> bool {
    match budget_read_gate(m, token, id) {
        Err(e) => r == Err::<Vec<BudgetPeriod>, Error>(e),
        Ok(b) => {
            let sday = budget_start_day(b);
            let len = b.period_length as int;
            let count = if tday < sday {
                1int
            } else {
                crate::budget_period::period_index_of(sday, len, tday) + 1
            };
            if forall|q: int| 0 <= q < count ==> #[trigger] window_ok(b, q) {
                r matches Ok(list) && list@.len() == count && (forall|i: int|
                    0 <= i < count ==> {
                        let q = count - 1 - i;
                        &&& (#[trigger] list@[i]).period_id == q
                        &&& list@[i].start_date@ == crate::dates::date_to_str(
                            crate::budget_period::date_of_day(
                                crate::budget_period::window_start_day(sday, len, q),
                            ),
                        )
                        &&& list@[i].end_date@ == crate::dates::date_to_str(
                            crate::budget_period::date_of_day(
                                crate::budget_period::window_end_day(sday, len, q),
                            ),
                        )
                    })
            } else {
                r == Err::<Vec<BudgetPeriod>, Error>(Error::UnknownError)
            }
        },
    }
}

impl Database {
    /// One spend window of a budget by index, rendered; `Ok(None)` for a
    /// negative index or a window past the representable calendar.
    pub fn get_budget_period(&self, access_token: &str, budget_id: i64, period_id: i64) -> (r:
        Result<Option<BudgetPeriod>, Error>)
        requires
            self.wf(),
        ensures
            ({
                let m = self@;
                match budget_read_gate(m, access_token@, budget_id) {
                    Err(e) => r == Err::<Option<BudgetPeriod>, Error>(e),
                    Ok(b) => {
                        let sday = budget_start_day(b);
                        let len = b.period_length as int;
                        let wsd = crate::budget_period::window_start_day(
                            sday,
                            len,
                            period_id as int,
                        );
                        let wed = crate::budget_period::window_end_day(sday, len, period_id as int);
                        if period_id < 0 || !crate::budget_period::day_has_date(wsd)
                            || !crate::budget_period::day_has_date(wed) {
                            r matches Ok(op) && op is None
                        } else {
                            r matches Ok(op) && op matches Some(bp) && bp.period_id == period_id
                                && bp.start_date@ == crate::dates::date_to_str(
                                crate::budget_period::date_of_day(wsd),
                            ) && bp.end_date@ == crate::dates::date_to_str(
                                crate::budget_period::date_of_day(wed),
                            )
                        }
                    },
                }
            }),
    {
        let p = match self.budget_read_pos(access_token, budget_id) {
            Ok(p) => p,
            Err(e) => { return Err(e) },
        };
        proof {
            assert(budget_stored_wf(self@.budgets[p as int], self@.next_budget_id));
        }
        let sd = match crate::dates::parse_date(self.budgets[p].start_date.as_str()) {
            Some(d) => d,
            None => {
                proof {
                    assert(false);
                }
                return Err(Error::UnknownError)
            },
        };
        if period_id < 0 {
            return Ok(None);
        }
        let start_day = crate::dates::to_day_number(&sd);
        let len = self.budgets[p].period_length;
        match crate::budget_period::window_for(start_day, len, period_id) {
            Some(w) => Ok(
                Some(
                    crate::budget_period::BudgetPeriod::new(
                        period_id,
                        crate::dates::format_date(&w.0),
                        crate::dates::format_date(&w.1),
                    ),
                ),
            ),
            None => Ok(None),
        }
    }

    /// The window containing `today`.
    pub fn get_current_budget_period_as_of(
        &self,
        access_token: &str,
        budget_id: i64,
        today: &crate::dates::Date,
    ) -> (r: Result<BudgetPeriod, Error>)
        requires
            self.wf(),
            crate::dates::date_valid(*today),
        ensures
            current_period_result_ok(
                self@,
                access_token@,
                budget_id,
                crate::dates::day_number(*today),
                r,
            ),
    {
        let p = match self.budget_read_pos(access_token, budget_id) {
            Ok(p) => p,
            Err(e) => { return Err(e) },
        };
        proof {
            assert(budget_stored_wf(self@.budgets[p as int], self@.next_budget_id));
        }
        let sd = match crate::dates::parse_date(self.budgets[p].start_date.as_str()) {
            Some(d) => d,
            None => {
                proof {
                    assert(false);
                }
                return Err(Error::UnknownError)
            },
        };
        let start_day = crate::dates::to_day_number(&sd);
        let tday = crate::dates::to_day_number(today);
        if tday < start_day {
            return Err(Error::NotYetStarted);
        }
        let len = self.budgets[p].period_length;
        let pid: i64 = ((tday - start_day) / (len as u64)) as i64;
        proof {
            assert(pid as int == crate::budget_period::period_index_of(
                budget_start_day(self@.budgets[p as int]),
                len as int,
                tday as int,
            )) by {
                vstd::arithmetic::div_mod::lemma_fundamental_div_mod(
                    tday - start_day,
                    len as int,
                );
            }
        }
        match crate::budget_period::window_for(start_day, len, pid) {
            Some(w) => Ok(
                crate::budget_period::BudgetPeriod::new(
                    pid,
                    crate::dates::format_date(&w.0),
                    crate::dates::format_date(&w.1),
                ),
            ),
            None => Err(Error::UnknownError),
        }
    }

    /// The window containing the server's current date.
    pub fn get_current_budget_period(&self, access_token: &str, budget_id: i64) -> (r: Result<
        BudgetPeriod,
        Error,
    >)
        requires
            self.wf(),
        ensures
            exists|d: crate::dates::Date|
                crate::dates::date_valid(d) && current_period_result_ok(
                    self@,
                    access_token@,
                    budget_id,
                    crate::dates::day_number(d),
                    r,
                ),
    {
        let now = crate::util::get_now();
        let r = self.get_current_budget_period_as_of(access_token, budget_id, &now.date);
        proof {
            assert(crate::dates::date_valid(now.date) && current_period_result_ok(
                self@,
                access_token@,
                budget_id,
                crate::dates::day_number(now.date),
                r,
            ));
        }
        r
    }

    /// All windows from the start date through `today`, newest first.
    pub fn get_budget_periods_as_of(
        &self,
        access_token: &str,
        budget_id: i64,
        today: &crate::dates::Date,
    ) -> (r: Result<Vec<BudgetPeriod>, Error>)
        requires
            self.wf(),
            crate::dates::date_valid(*today),
        ensures
            periods_list_result_ok(
                self@,
                access_token@,
                budget_id,
                crate::dates::day_number(*today),
                r,
            ),
    {
        let p = match self.budget_read_pos(access_token, budget_id) {
            Ok(p) => p,
            Err(e) => { return Err(e) },
        };
        proof {
            assert(budget_stored_wf(self@.budgets[p as int], self@.next_budget_id));
        }
        let sd = match crate::dates::parse_date(self.budgets[p].start_date.as_str()) {
            Some(d) => d,
            None => {
                proof {
                    assert(false);
                }
                return Err(Error::UnknownError)
            },
        };
        let start_day = crate::dates::to_day_number(&sd);
        let tday = crate::dates::to_day_number(today);
        let len = self.budgets[p].period_length;
        let count: i64 = if tday < start_day {
            1
        } else {
            proof {
                vstd::arithmetic::div_mod::lemma_fundamental_div_mod(
                    tday - start_day,
                    len as int,
                );
                vstd::arithmetic::div_mod::lemma_mod_bound(tday - start_day, len as int);
            }
            ((tday - start_day) / (len as u64)) as i64 + 1
        };
        let ghost sday = budget_start_day(self@.budgets[p as int]);
        let mut list: Vec<BudgetPeriod> = Vec::new();
        let mut q: i64 = count - 1;
        while q >= 0
            invariant
                self.wf(),
                -1 <= q <= count - 1,
                1 <= count <= 3660001,
                budget_read_gate(self@, access_token@, budget_id) == Ok::<Budget, Error>(
                    self@.budgets[budget_idx(self@.budgets, budget_id)],
                ),
                count == (if crate::dates::day_number(*today) < sday {
                    1int
                } else {
                    crate::budget_period::period_index_of(
                        sday,
                        len as int,
                        crate::dates::day_number(*today),
                    ) + 1
                }),
                len == self@.budgets[budget_idx(self@.budgets, budget_id)].period_length,
                len >= 1,
                sday == budget_start_day(self@.budgets[budget_idx(self@.budgets, budget_id)]),
                0 <= budget_idx(self@.budgets, budget_id) < self@.budgets.len(),
                start_day == sday,
                start_day < 3660000,
                list@.len() == count - 1 - q,
                forall|k: int|
                    q < k < count ==> #[trigger] window_ok(
                        self@.budgets[budget_idx(self@.budgets, budget_id)],
                        k,
                    ),
                forall|i: int|
                    0 <= i < list@.len() ==> {
                        let k = count - 1 - i;
                        &&& (#[trigger] list@[i]).period_id == k
                        &&& list@[i].start_date@ == crate::dates::date_to_str(
                            crate::budget_period::date_of_day(
                                crate::budget_period::window_start_day(sday, len as int, k),
                            ),
                        )
                        &&& list@[i].end_date@ == crate::dates::date_to_str(
                            crate::budget_period::date_of_day(
                                crate::budget_period::window_end_day(sday, len as int, k),
                            ),
                        )
                    },
            decreases q + 1,
        {
            match crate::budget_period::window_for(start_day, len, q) {
                Some(w) => {
                    proof {
                        assert(window_ok(
                            self@.budgets[budget_idx(self@.budgets, budget_id)],
                            q as int,
                        ));
                    }
                    list.push(
                        crate::budget_period::BudgetPeriod::new(
                            q,
                            crate::dates::format_date(&w.0),
                            crate::dates::format_date(&w.1),
                        ),
                    );
                },
                None => {
                    proof {
                        assert(!window_ok(
                            self@.budgets[budget_idx(self@.budgets, budget_id)],
                            q as int,
                        ));
                    }
                    return Err(Error::UnknownError)
                },
            }
            q = q - 1;
        }
        proof {
            let b0 = self@.budgets[budget_idx(self@.budgets, budget_id)];
            assert(forall|kk: int| 0 <= kk < count ==> #[trigger] window_ok(b0, kk));
        }
        Ok(list)
    }

    /// All windows from the start date through the server's current date,
    /// newest first.
    pub fn get_budget_periods(&self, access_token: &str, budget_id: i64) -> (r: Result<
        Vec<BudgetPeriod>,
        Error,
    >)
        requires
            self.wf(),
        ensures
            exists|d: crate::dates::Date|
                crate::dates::date_valid(d) && periods_list_result_ok(
                    self@,
                    access_token@,
                    budget_id,
                    crate::dates::day_number(d),
                    r,
                ),
    {
        let now = crate::util::get_now();
        let r = self.get_budget_periods_as_of(access_token, budget_id, &now.date);
        proof {
            assert(crate::dates::date_valid(now.date) && periods_list_result_ok(
                self@,
                access_token@,
                budget_id,
                crate::dates::day_number(now.date),
                r,
            ));
        }
        r
    }
}

} // verus!
