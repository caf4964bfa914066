//! A decompiler for a flat, branch-addressed intermediate representation:
//! it reconstructs readable pseudo-source — typed signatures, variable
//! bindings, nested `if`/`else` blocks — from a program model of type and
//! operator catalogs, one shared statement list, and function entry points.
//!
//! Every emitter is specified by a spec-level text definition and proved to
//! produce exactly that text; `laws` holds the walker's and resolver's
//! global guarantees.

pub mod checker;
pub mod emitter;
pub mod ir;
pub mod laws;
pub mod resolver;
pub mod text;
pub mod walker;
