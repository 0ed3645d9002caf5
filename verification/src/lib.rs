//! A minimal PLONK-style arithmetization engine.
//!
//! A computation is described as a fixed-width table of cells subject to
//! polynomial gate constraints and equality (copy) constraints. Witness
//! values are assigned into the table through relocatable regions, and a
//! satisfiability checker evaluates every gate at every selector-active row
//! and every copy constraint, reporting the complete list of violations.

pub mod check;
pub mod field;
pub mod fibonacci;
pub mod ir;
pub mod layout;
pub mod rangecheck;
pub mod system;
