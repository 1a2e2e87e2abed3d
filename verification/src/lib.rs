//! Query-plan layer of a small relational engine.
//!
//! A parsed, type-checked statement (a `SELECT` or an `INSERT` intermediate
//! representation) is translated into an executable plan: a full-table scan
//! that pulls rows one at a time, or a single-table insert that is run to
//! completion. Table identity is carried as a stable catalog index that is
//! re-resolved on every plan operation, so the catalog may be mutated freely
//! between calls.

pub mod error;
pub mod ir;
pub mod plan;
pub mod storage;
pub mod values;
