//! Control-flow narrowing core of a structural type checker.
//!
//! The library maintains *conditional facts*: per-branch refinements of the
//! apparent type of each named location.  Facts flow through `if`/`else`,
//! `switch` dispatch, ternary expressions, destructuring assignment and
//! iterative loops, and compose by a small algebra (sequential composition,
//! parallel join, negation).  Everything here is pure data and logic: the
//! surrounding visitor evaluates expressions and hands the resulting types
//! and outcomes to the functions of this crate.

pub mod analyzer;
pub mod assign;
pub mod assoc;
pub mod ast;
pub mod branch;
pub mod cond_facts;
pub mod error;
pub mod facts;
pub mod forin;
pub mod instance;
pub mod loops;
pub mod name;
pub mod narrow;
pub mod scope;
pub mod span;
pub mod stmt;
pub mod ternary;
pub mod type_facts;
pub mod types;
pub mod typeops;
pub mod union;
pub mod util;
