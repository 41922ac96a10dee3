//! Runtime error conditions.
//!
//! Type, range, resource and control errors unwind through the catch
//! chain like an explicit throw; format errors are detected at load
//! time and are always fatal.

use vstd::prelude::*;

verus! {

/// A raised runtime condition.
#[derive(Debug, Clone, Copy, PartialEq, Eq, Structural)]
pub enum Error {
    /// Operand of the wrong type handed to a primitive.
    TypeError,
    /// Out-of-bounds index into a vector, string or the port table.
    RangeError,
    /// Attempted destructive mutation of a cell flagged immutable.
    ConstMutation,
    /// Node pool exhausted even after a collection.
    HeapExhausted,
    /// Vector pool exhausted even after a collection.
    VectorExhausted,
    /// Every port-table slot is already open.
    PortTableFull,
    /// Arithmetic result does not fit in a machine word.
    Overflow,
    /// Throw with no matching catch tag on the chain.
    UncaughtThrow,
    /// Malformed bytecode rejected at load time.
    BadProgram,
    /// Malformed or incompatible heap image rejected at load time.
    BadImage,
}

impl Error {
    /// A short stable name for diagnostics.
    pub fn name(&self) -> (r: &'static str)
    {
        match self {
            Error::TypeError => "type-error",
            Error::RangeError => "range-error",
            Error::ConstMutation => "const-mutation",
            Error::HeapExhausted => "heap-exhausted",
            Error::VectorExhausted => "vector-exhausted",
            Error::PortTableFull => "port-table-full",
            Error::Overflow => "overflow",
            Error::UncaughtThrow => "uncaught-throw",
            Error::BadProgram => "bad-program",
            Error::BadImage => "bad-image",
        }
    }
}

} // verus!
