//! A verified front end, intermediate representation and interpreter for the
//! small Aether language.

use vstd::prelude::*;

pub mod text;
pub mod source;
pub mod diagnostics;
pub mod token;
pub mod lexer;
pub mod ast;
pub mod parser;
pub mod pretty;
pub mod air;
pub mod air_print;
pub mod air_verify;
pub mod lower;
pub mod interp;
pub mod render;
pub mod cli;
pub mod driver;
pub mod safety;

verus! {
} // verus!
