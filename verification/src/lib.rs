//! In-memory user service: a table of user records keyed by a generated
//! 128-bit identifier, and the five request handlers (create, get-one,
//! list with pagination, update, delete) that operate on it.

pub mod model;
pub mod user_service;
