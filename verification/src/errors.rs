//! The error taxonomies of the host and the translations between them.
//!
//! The primary taxonomy distinguishes the locally decided failures
//! (`AccessDenied`, `StoreTableFull`), an unresolvable store name
//! (`NoSuchStore`), and opaque backend failures (`Other`).  The legacy
//! protocol and the wasi-style protocol each carry their own taxonomy, mapped
//! one-to-one from the primary one at the boundary.

use vstd::prelude::*;

verus! {

/// The primary error taxonomy of the key-value host.
#[derive(Debug, Clone, PartialEq, Eq)]
pub enum Error {
    /// The store name is not in the allow-list; checked before any backend
    /// call, so it never reveals whether the name exists.
    AccessDenied,
    /// The allow-listed name could not be resolved by the store manager.
    NoSuchStore,
    /// The handle table was at capacity when a store was opened.
    StoreTableFull,
    /// An opaque backend failure, including failures surfaced asynchronously
    /// through a later flush.
    Other(String),
}

/// The legacy protocol's error taxonomy: the primary taxonomy plus a
/// missing-key error for a get on an absent key.
#[derive(Debug, Clone, PartialEq, Eq)]
pub enum LegacyError {
    StoreTableFull,
    NoSuchStore,
    AccessDenied,
    NoSuchKey,
    Io(String),
}

/// The wasi-style protocol's error taxonomy.
#[derive(Debug, Clone, PartialEq, Eq)]
pub enum WasiError {
    NoSuchStore,
    AccessDenied,
    Other(String),
}

/// How a primary error corresponds to its legacy counterpart.
pub open spec fn legacy_of(e: Error, l: LegacyError) -> bool {
    match e {
        Error::StoreTableFull => l == LegacyError::StoreTableFull,
        Error::NoSuchStore => l == LegacyError::NoSuchStore,
        Error::AccessDenied => l == LegacyError::AccessDenied,
        Error::Other(s) => l matches LegacyError::Io(m) && m == s,
    }
}

/// How a primary error corresponds to its wasi-style counterpart.
pub open spec fn wasi_of(e: Error, w: WasiError) -> bool {
    match e {
        Error::AccessDenied => w == WasiError::AccessDenied,
        Error::NoSuchStore => w == WasiError::NoSuchStore,
        Error::StoreTableFull => w matches WasiError::Other(m) && m@ == "store table full"@,
        Error::Other(s) => w matches WasiError::Other(m) && m == s,
    }
}

/// Translates a primary error into the legacy taxonomy.
pub fn to_legacy_error(value: Error) -> (r: LegacyError)
    ensures
        legacy_of(value, r),
        value == Error::StoreTableFull ==> r == LegacyError::StoreTableFull,
        value == Error::NoSuchStore ==> r == LegacyError::NoSuchStore,
        value == Error::AccessDenied ==> r == LegacyError::AccessDenied,
        value matches Error::Other(s) ==> (r matches LegacyError::Io(m) && m == s),
{
    match value {
        Error::StoreTableFull => LegacyError::StoreTableFull,
        Error::NoSuchStore => LegacyError::NoSuchStore,
        Error::AccessDenied => LegacyError::AccessDenied,
        Error::Other(s) => LegacyError::Io(s),
    }
}

/// Translates a primary error into the wasi-style taxonomy.  `StoreTableFull`
/// has no counterpart there and becomes an opaque message.
pub fn to_wasi_err(e: Error) -> (r: WasiError)
    ensures
        wasi_of(e, r),
        e == Error::AccessDenied ==> r == WasiError::AccessDenied,
        e == Error::NoSuchStore ==> r == WasiError::NoSuchStore,
        e == Error::StoreTableFull ==> (r matches WasiError::Other(m) && m@ == "store table full"@),
        e matches Error::Other(s) ==> (r matches WasiError::Other(m) && m == s),
{
    match e {
        Error::AccessDenied => WasiError::AccessDenied,
        Error::NoSuchStore => WasiError::NoSuchStore,
        Error::StoreTableFull => WasiError::Other("store table full".to_string()),
        Error::Other(s) => WasiError::Other(s),
    }
}

} // verus!
