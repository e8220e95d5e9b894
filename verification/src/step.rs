//! What each instruction does to the state of the machine.

use vstd::prelude::*;
use crate::ast::{Addr, Atom, MachineInstruction};
use crate::machine::{MachineMode, MachineState};
use crate::store::{HeapCell, MachineError, Store};

verus! {

/// What executing one instruction comes to: the state it leaves and whether
/// it was abandoned.
pub struct Executed {
    pub state: MachineState,
    pub result: Result<(), MachineError>,
}

impl Store {
    /// No further structure can be allocated: the position of its header
    /// would not be a `usize`.
    pub open spec fn is_full(self) -> bool {
        self.heap.len() >= usize::MAX
    }

    /// The store with a structure pointer at the top of the heap and, behind
    /// it, the header that it points at.
    pub open spec fn allocate(self, name: Atom, arity: usize) -> Store {
        let pointer = HeapCell::Str((self.heap.len() + 1) as usize);
        Store { heap: self.heap.push(pointer).push(HeapCell::NamedStr(arity, name)), ..self }
    }

    /// The store with a fresh unbound variable at the top of the heap and a
    /// copy of that cell, so a reference to it, in register `reg`.
    pub open spec fn new_variable(self, reg: usize) -> Store {
        let variable = HeapCell::Ref(Addr::HeapCell(self.heap.len() as usize));
        Store { heap: self.heap.push(variable), registers: self.registers.update(reg as int, variable) }
    }

    /// The store with a copy of register `reg` at the top of the heap.
    pub open spec fn push_register(self, reg: usize) -> Store {
        Store { heap: self.heap.push(self.registers[reg as int]), ..self }
    }
}

impl MachineState {
    /// The instruction was carried out and left `self`.
    pub open spec fn done(self) -> Executed {
        Executed { state: self, result: Ok(()) }
    }

    /// The instruction was abandoned in `self`.
    pub open spec fn abandoned(self, e: MachineError) -> Executed {
        Executed { state: self, result: Err(e) }
    }

    /// The state with the scan cursor one cell further.
    pub open spec fn advanced(self) -> MachineState {
        MachineState { scan_cursor: (self.scan_cursor + 1) as usize, ..self }
    }

    /// Builds a structure: a pointer and its header go on the heap, a copy of
    /// the pointer into register `reg`. The mode plays no part.
    pub open spec fn put_structure(self, name: Atom, arity: usize, reg: usize) -> Executed {
        if !self.store.in_bounds(Addr::RegNum(reg)) || self.store.is_full() {
            self.abandoned(MachineError::OutOfBounds)
        } else {
            let built = self.store.allocate(name, arity);
            let pointer = built.heap[self.store.heap.len() as int];
            MachineState {
                store: Store { registers: built.registers.update(reg as int, pointer), ..built },
                ..self
            }.done()
        }
    }

    /// Matches register `reg` against the structure `name`/`arity`.
    ///
    /// Where the register stands for a structure with that name and arity,
    /// the machine turns to read mode with the scan cursor on the first
    /// argument. Where it stands for an unbound variable, the structure is
    /// allocated, the variable bound to its pointer, and the machine turns to
    /// write mode. Anything else sets `fail` and leaves the mode alone.
    pub open spec fn get_structure(self, name: Atom, arity: usize, reg: usize) -> Executed {
        match self.store.deref(Addr::RegNum(reg)) {
            Err(e) => self.abandoned(e),
            Ok(d) => match self.store.cell(d) {
                HeapCell::Str(p) => {
                    if p >= self.store.heap.len() {
                        self.abandoned(MachineError::OutOfBounds)
                    } else {
                        match self.store.heap[p as int] {
                            HeapCell::NamedStr(n, f) if n == arity && f@ == name@ => MachineState {
                                mode: MachineMode::Read,
                                scan_cursor: (p + 1) as usize,
                                ..self
                            }.done(),
                            _ => MachineState { fail: true, ..self }.done(),
                        }
                    }
                },
                HeapCell::Ref(_) => {
                    if self.store.is_full() {
                        self.abandoned(MachineError::OutOfBounds)
                    } else {
                        let pointer = Addr::HeapCell(self.store.heap.len() as usize);
                        MachineState {
                            store: self.store.allocate(name, arity).bind(d, pointer),
                            mode: MachineMode::Write,
                            ..self
                        }.done()
                    }
                },
                HeapCell::NamedStr(_, _) => MachineState { fail: true, ..self }.done(),
            },
        }
    }

    /// Creates a variable on the heap and points register `reg` at it. The
    /// mode plays no part.
    pub open spec fn set_variable(self, reg: usize) -> Executed {
        if !self.store.in_bounds(Addr::RegNum(reg)) {
            self.abandoned(MachineError::OutOfBounds)
        } else {
            MachineState { store: self.store.new_variable(reg), ..self }.done()
        }
    }

    /// Copies register `reg` to the top of the heap. The mode plays no part.
    pub open spec fn set_value(self, reg: usize) -> Executed {
        if !self.store.in_bounds(Addr::RegNum(reg)) {
            self.abandoned(MachineError::OutOfBounds)
        } else {
            MachineState { store: self.store.push_register(reg), ..self }.done()
        }
    }

    /// In write mode creates a variable as `set_variable` does; in read mode
    /// copies the cell under the scan cursor into register `reg`. Either way
    /// the scan cursor then moves on by one.
    pub open spec fn unify_variable(self, reg: usize) -> Executed {
        if !self.store.in_bounds(Addr::RegNum(reg)) {
            self.abandoned(MachineError::OutOfBounds)
        } else {
            match self.mode {
                MachineMode::Write => MachineState {
                    store: self.store.new_variable(reg),
                    ..self
                }.advanced().done(),
                MachineMode::Read => {
                    if !self.store.in_bounds(Addr::HeapCell(self.scan_cursor)) {
                        self.abandoned(MachineError::OutOfBounds)
                    } else {
                        let seen = self.store.heap[self.scan_cursor as int];
                        MachineState {
                            store: Store {
                                registers: self.store.registers.update(reg as int, seen),
                                ..self.store
                            },
                            ..self
                        }.advanced().done()
                    }
                },
            }
        }
    }

    /// In write mode copies register `reg` to the heap as `set_value` does;
    /// in read mode unifies the register with the cell under the scan cursor.
    /// Either way the scan cursor then moves on by one, whatever came of the
    /// unification.
    pub open spec fn unify_value(self, reg: usize) -> Executed {
        if !self.store.in_bounds(Addr::RegNum(reg)) {
            self.abandoned(MachineError::OutOfBounds)
        } else {
            match self.mode {
                MachineMode::Write => MachineState {
                    store: self.store.push_register(reg),
                    ..self
                }.advanced().done(),
                MachineMode::Read => {
                    if !self.store.in_bounds(Addr::HeapCell(self.scan_cursor)) {
                        self.abandoned(MachineError::OutOfBounds)
                    } else {
                        let out = self.store.unify(
                            Addr::RegNum(reg),
                            Addr::HeapCell(self.scan_cursor),
                            usize::MAX as nat,
                        );
                        Executed {
                            state: MachineState {
                                store: out.store,
                                fail: out.fail,
                                ..self
                            }.advanced(),
                            result: out.result,
                        }
                    }
                },
            }
        }
    }

    /// What executing `instr` in this state comes to.
    pub open spec fn execute(self, instr: MachineInstruction) -> Executed {
        match instr {
            MachineInstruction::GetStructure(name, arity, reg) => self.get_structure(name, arity, reg),
            MachineInstruction::PutStructure(name, arity, reg) => self.put_structure(name, arity, reg),
            MachineInstruction::SetVariable(reg) => self.set_variable(reg),
            MachineInstruction::SetValue(reg) => self.set_value(reg),
            MachineInstruction::UnifyVariable(reg) => self.unify_variable(reg),
            MachineInstruction::UnifyValue(reg) => self.unify_value(reg),
        }
    }
}

} // verus!
