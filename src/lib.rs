//! Household inventory: the rules that govern item quantities, category
//! grouping, restock notifications and per-account isolation.

pub mod auth;
pub mod color;
pub mod error;
pub mod grouping;
pub mod model;
pub mod notify;
pub mod order;
pub mod store;
