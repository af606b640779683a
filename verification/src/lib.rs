//! Verified core of a time-series service: decoding readings from delimited
//! text, seeding them into a store without duplicates, and serving grouped
//! sums per period together with an audit trail of every request.

pub mod db;
pub mod decimal;
pub mod file_reader;
pub mod model;
pub mod route;
pub mod store;
pub mod timestamp;
