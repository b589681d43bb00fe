//! Order keeping for a restaurant: the rules by which requests are routed,
//! orders are stored and looked up, and outcomes become responses.

pub mod api;
pub mod guarantees;
pub mod models;
pub mod route;
pub mod service;
pub mod sql;
pub mod store;
pub mod utils;
