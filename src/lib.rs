//! A single-pass lexical scanner for a small dynamically typed language.
//!
//! `lexical` states what a scan produces as spec functions over the source's
//! characters; `scanner` is the executable scanner proved against it; `laws`
//! holds general facts about every scan.
use vstd::prelude::*;

pub mod laws;
pub mod lexical;
pub mod scanner;
pub mod token;

verus! {

} // verus!
