//! A personal finance ledger engine.
//!
//! Money movements are recorded as journal postings; balances, net worth,
//! budget consumption and credit-card statements are derived from the
//! journal on every query, never from stored running totals.
//!
//! All money is held in minor units (hundredths of the currency unit) as
//! integers, and every date that the journal holds is a day of the
//! calendar.

pub mod accounts;
pub mod analytics;
pub mod balance;
pub mod budgets;
pub mod categories;
pub mod credit_cards;
pub mod currency;
pub mod date;
pub mod export;
pub mod installments;
pub mod ledger;
pub mod model;
pub mod money;
pub mod networth;
pub mod photos;
pub mod recurring;
pub mod reports;
pub mod security;
pub mod settings;
pub mod sums;
pub mod templates;
pub mod text;
pub mod transactions;
