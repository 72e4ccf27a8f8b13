use vstd::prelude::*;

verus! {

/// One lexed instruction token, before loops are resolved.
#[derive(Clone, Copy, Debug, PartialEq, Eq, Structural)]
pub enum OpCode {
    IncrementPointer,
    DecrementPointer,
    Increment,
    Decrement,
    Write,
    Read,
    LoopBegin,
    LoopEnd,
}

/// One node of a structured program; a loop owns its body.
#[derive(Debug)]
pub enum Instruction {
    IncrementPointer,
    DecrementPointer,
    Increment,
    Decrement,
    Write,
    Read,
    Loop(Vec<Instruction>),
}

/// The opcode that an instruction starts with: a loop starts with `LoopBegin`.
pub open spec fn head_opcode(i: Instruction) -> OpCode {
    match i {
        Instruction::IncrementPointer => OpCode::IncrementPointer,
        Instruction::DecrementPointer => OpCode::DecrementPointer,
        Instruction::Increment => OpCode::Increment,
        Instruction::Decrement => OpCode::Decrement,
        Instruction::Write => OpCode::Write,
        Instruction::Read => OpCode::Read,
        Instruction::Loop(_) => OpCode::LoopBegin,
    }
}

/// The opcodes that a sequence of instructions stands for: each plain
/// instruction is its own opcode, and a loop is its body between a
/// `LoopBegin` and a `LoopEnd`.
pub open spec fn flatten(p: Seq<Instruction>) -> Seq<OpCode>
    decreases p,
{
    if p.len() == 0 {
        Seq::empty()
    } else {
        flatten(p.drop_last()) + match p.last() {
            Instruction::Loop(body) => seq![OpCode::LoopBegin] + flatten(body@) + seq![OpCode::LoopEnd],
            other => seq![head_opcode(other)],
        }
    }
}

} // verus!
