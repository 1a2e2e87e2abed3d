use vstd::prelude::*;

verus! {

/// A single cell value: NULL or one of the engine's scalar types.
///
/// Plan code treats values as cheaply cloneable and never inspects them; it
/// only moves them into position.
#[derive(Debug, PartialEq, Eq)]
pub enum LiteralValue {
    Null,
    Integer(i64),
    Text(String),
}

impl Clone for LiteralValue {
    /// A clone is equal to the value it was cloned from.
    fn clone(&self) -> (r: Self)
        ensures
            r == *self,
    {
        match self {
            LiteralValue::Null => LiteralValue::Null,
            LiteralValue::Integer(i) => LiteralValue::Integer(*i),
            LiteralValue::Text(s) => LiteralValue::Text(s.clone()),
        }
    }
}

} // verus!
