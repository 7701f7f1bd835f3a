//! A verified budget-tracking core: recurring spend windows derived from a
//! budget's start date and period length, a two-tier owner/collaborator
//! access model, transaction aggregation inside a window, and bearer-token
//! session resolution.
pub mod api;
pub mod budget;
pub mod budget_period;
pub mod can_access_budget;
pub mod config;
pub mod database;
pub mod dates;
pub mod shared;
pub mod transaction;
pub mod util;
