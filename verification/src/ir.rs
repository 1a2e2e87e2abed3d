use crate::values::LiteralValue;
use vstd::prelude::*;

verus! {

/// A resolved reference to a table: the catalog index it was assigned.
#[derive(Debug, Clone, Copy, PartialEq, Eq, Structural)]
pub struct TableRef {
    pub table_index: usize,
}

/// A resolved reference to a column: its position within the table's rows.
#[derive(Debug, Clone, Copy, PartialEq, Eq, Structural)]
pub struct ColumnRef {
    pub column_index: usize,
}

/// One source in a FROM clause. This layer only handles a bare named table;
/// any other shape is an unsupported construct.
#[derive(Debug)]
pub enum SelectFromTable {
    NamedTable(String),
    Subquery(Box<SelectStmt>),
}

/// A type-checked SELECT: the sources it reads from.
#[derive(Debug)]
pub struct SelectStmt {
    pub from: Vec<SelectFromTable>,
}

/// A type-checked INSERT: the resolved target table and two parallel lists
/// of equal length, `columns[i]` receiving `values[i]`.
#[derive(Debug)]
pub struct InsertIr {
    pub table: TableRef,
    pub columns: Vec<ColumnRef>,
    pub values: Vec<LiteralValue>,
}

} // verus!
