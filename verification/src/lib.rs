//! An in-memory store of person records, with a verified calendar-date
//! codec and exact contracts on every store operation.

pub mod date;
pub mod person;
pub mod store;
