//! flowc: a verified translator from the Flow scripting notation to C++ source
//! text.
//!
//! Flow is a small line-oriented language (`say`, `let`, `if … then`,
//! `loop … times`, `while … do`, `define … end`, …).  [`transpile`] turns a
//! Flow program into one self-contained C++ translation unit, as a single
//! total function on strings: it never fails, and its output is pinned down
//! exactly by the specification function [`transpiler::spec_transpile`].

pub mod classify;

pub mod expr;

pub mod laws;

pub mod numeral;

pub mod text;

pub mod transpiler;

pub use transpiler::transpile;

