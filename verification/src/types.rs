//! Small value types shared by the evaluator's fast paths.

use vstd::prelude::*;

verus! {

/// Arithmetic operation types for fast path evaluation.
#[derive(Debug, Clone, Copy, PartialEq, Eq, Structural)]
pub enum ArithOp {
    Add,
    Sub,
    Mul,
    Div,
}

/// Comparison operation types.
#[derive(Debug, Clone, Copy, PartialEq, Eq, Structural)]
pub enum CompOp {
    Eq,
    StrictEq,
    Ne,
    StrictNe,
    Lt,
    Le,
    Gt,
    Ge,
}

/// Array quantifier types.
#[derive(Debug, Clone, Copy, PartialEq, Eq, Structural)]
pub enum Quantifier {
    All,
    Any,
    NoElement,
}

/// Compact representation of a scalar lookup value for zero-allocation cache keys.
#[derive(Debug, Clone, Copy, PartialEq, Eq, Structural, Hash)]
pub enum LookupValueKey {
    /// The bits of a number.
    Num(u64),
    /// A hash of a string.
    StrHash(u64),
    Bool(bool),
    Null,
}

/// A zero-allocation cache key for combined array lookups.
#[derive(Debug, Clone, Copy, PartialEq, Eq, Structural, Hash)]
pub struct CombinedLookupKey {
    pub arr_ptr: usize,
    pub field_hash: u64,
    pub is_range: bool,
    pub val_key: LookupValueKey,
}

} // verus!
