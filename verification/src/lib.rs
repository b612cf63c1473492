//! A capability-scoped key-value host: a bounded handle table gated by an
//! allow-list of store names, a delegating store manager that routes names to
//! inner managers, and a write-behind caching decorator that keeps
//! read-your-writes consistency while backend writes land in submission order.

pub mod errors;
pub mod store;
pub mod memory;
pub mod lru_cache;
pub mod caching;
pub mod delegating;
pub mod dispatch;
