//! A small type-checking kernel for a pure type system with a hierarchy of
//! universes, dependent products and lambda abstraction.
//!
//! Terms address their binders by name and occurrence count. The crate has
//! two layers. The mathematical layer works on [`model::Term`], whose
//! levels and counts are unbounded: `model` defines shifting,
//! substitution, reduction and equivalence, `typing` the judgement, and
//! `scoping`, `normal` and `equivalence` prove the laws that hold of them.
//! The executable layer works on [`ast::Type`], whose view is a `Term`:
//! every function there returns exactly what the model defines.
//!
//! The numbers of an executable term are `usize`, and reduction need not
//! end. `limits` says when a computation stays within the machine range;
//! the plain functions ask that of their caller, and the functions of
//! `bounded` test it and return `None` otherwise.

pub mod ast;
pub mod bounded;
pub mod equivalence;
pub mod limits;
pub mod model;
pub mod normal;
pub mod scoping;
pub mod typing;
