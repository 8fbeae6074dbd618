//! The test host: a transaction type of its own, and applications that check it.
pub mod app;
pub mod error;
pub mod node;
