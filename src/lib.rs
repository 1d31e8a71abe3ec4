//! A per-user financial ledger: transactions with per-currency balances,
//! budgets, savings goals, notifications, wallet addresses and exchange rates.
pub mod text;
pub mod arith;
pub mod utils;
pub mod models;
pub mod transaction;
pub mod budget;
pub mod goal;
pub mod notification;
pub mod bitcoin;
pub mod currency;
pub mod user;
pub mod api;
pub mod portfolio;
