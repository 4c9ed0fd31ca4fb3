//! An expression graph over scalars and short float vectors (one to four
//! lanes), together with two backends: a native evaluator and a compiler
//! that turns a graph into the text of a stack-machine module.
//!
//! Every float is carried as the 32-bit pattern of an IEEE-754 single
//! (a `u32`); arithmetic on lanes is delegated to a caller-supplied table
//! of builtin operations, mirroring the builtin imports that the compiled
//! module declares.

use vstd::prelude::*;

pub mod array2d;
pub mod dtype;
pub mod eval;
pub mod graph;
pub mod highlevel;
pub mod inputs;
pub mod ndarray;
pub mod numtext;
pub mod value;
pub mod wat;

verus! {

} // verus!
