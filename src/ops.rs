use vstd::prelude::*;

verus! {

/// A primitive operation: one recognised source character.
#[derive(Clone, Copy, Debug, PartialEq, Eq, Structural)]
pub enum OpCode {
    IncPtr,
    DecPtr,
    Inc,
    Dec,
    Write,
    Read,
    LoopStart,
    LoopStop,
}

/// A structurally resolved instruction; a loop owns its body.
#[derive(Debug, PartialEq)]
pub enum Instruction {
    IncPtr,
    DecPtr,
    Inc,
    Dec,
    Write,
    Read,
    Loop(Vec<Instruction>),
}

} // verus!
