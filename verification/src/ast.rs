//! What a compiled program is made of: addresses, atoms and instructions.

use vstd::prelude::*;

verus! {

/// An interned functor or constant name.
pub type Atom = String;

/// Names a cell, on the heap by its position or in the register file by its
/// index, so that dereferencing and binding treat both alike.
#[derive(Clone, Copy, Debug, PartialEq, Eq, Structural)]
pub enum Addr {
    HeapCell(usize),
    RegNum(usize),
}

/// One instruction of a compiled program. The structure instructions carry a
/// functor name, an arity and a register index; the others a register index.
#[derive(Debug, PartialEq, Eq)]
pub enum MachineInstruction {
    GetStructure(Atom, usize, usize),
    PutStructure(Atom, usize, usize),
    SetVariable(usize),
    SetValue(usize),
    UnifyVariable(usize),
    UnifyValue(usize),
}

impl Clone for MachineInstruction {
    fn clone(&self) -> (c: Self)
        ensures
            c == *self,
    {
        match self {
            MachineInstruction::GetStructure(name, arity, reg) => MachineInstruction::GetStructure(
                name.clone(),
                *arity,
                *reg,
            ),
            MachineInstruction::PutStructure(name, arity, reg) => MachineInstruction::PutStructure(
                name.clone(),
                *arity,
                *reg,
            ),
            MachineInstruction::SetVariable(reg) => MachineInstruction::SetVariable(*reg),
            MachineInstruction::SetValue(reg) => MachineInstruction::SetValue(*reg),
            MachineInstruction::UnifyVariable(reg) => MachineInstruction::UnifyVariable(*reg),
            MachineInstruction::UnifyValue(reg) => MachineInstruction::UnifyValue(*reg),
        }
    }
}

/// A compiled program: instructions in the order in which they run.
pub type Program = Vec<MachineInstruction>;

} // verus!
