//! Execution core of a minimal Lisp runtime: a fixed-size tagged-cell
//! heap with a mark-and-sweep collector, a bounded port table, a heap
//! image codec, and a bytecode virtual machine with proper tail calls
//! and escape-only continuations.

use vstd::prelude::*;

pub mod heap;
pub mod image;
pub mod cell;
pub mod pool;
pub mod error;
pub mod gc;
pub mod ports;
pub mod tag;
pub mod vm;

verus! {

/// Default number of nodes in the node pool.
pub const NNODES: usize = 262144;

/// Default number of cells in the vector pool.
pub const NVCELLS: usize = 262144;

/// Maximum number of simultaneously open I/O ports.
pub const NPORTS: usize = 20;

} // verus!
