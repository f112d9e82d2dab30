//! Script compiler and cooperative runtime for an interactive narrative player.
use vstd::prelude::*;

pub mod ast;
pub mod builder;
pub mod expr;
pub mod grammar;
pub mod intelligence;
pub mod invoke;
pub mod loader;
pub mod readiness;
pub mod runtime;
pub mod tree;

verus! {

} // verus!
