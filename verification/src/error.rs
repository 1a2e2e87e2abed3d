use vstd::prelude::*;

verus! {

/// The faults a plan operation can surface.
///
/// End of a scan is not an error: `get_next_row` signals it as `Ok(None)`,
/// on a channel distinct from these faults.
#[derive(Debug, PartialEq, Eq)]
pub enum PlanError {
    /// Name resolution failed at build time: no live table has this name.
    TableNotFound(String),
    /// Index resolution failed at run time: the slot a plan addresses no
    /// longer holds a live table (dropped since the plan was built).
    TableMissing,
    /// The storage layer holds no row for the requested row id.
    RowNotFound,
    /// A row handed to storage does not span one value per table column.
    RowWidthMismatch,
    /// The statement uses a shape this layer does not handle, such as a
    /// FROM clause whose source is not a bare named table.
    UnsupportedConstruct,
}

} // verus!
