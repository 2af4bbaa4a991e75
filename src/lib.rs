//! The core of a terminal editor for proof files: files of syntax
//! definitions, axioms and theorems written with italic metavariables.
//!
//! - `formula` reduces a line to one styled well-formed formula by rewriting
//!   with the library's syntaxes, and reads new syntax definitions;
//! - `sections`, `proof_section` and `parser` split a file into its titled
//!   sections and style every line;
//! - `editor` and `events` keep the styled lines in step with each edit and
//!   move the cursor;
//! - `laws` states what holds across these functions.

use vstd::prelude::*;

pub mod types;
pub mod library;
pub mod text;
pub mod formula;
pub mod sections;
pub mod proof_section;
pub mod parser;
pub mod editor;
pub mod events;
pub mod laws;

verus! {

} // verus!
