pub mod core_project;
pub mod lowering;

use vstd::prelude::*;
use crate::general::types::Type;

verus! {

/// An instruction of the intermediate form.
#[derive(Debug)]
pub enum Instruction {
    Init(String, Type),
    If,
    Break,
    Continue,
    Loop,
}

} // verus!
