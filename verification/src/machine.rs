//! The machine: its heap, its registers, and the operations on them.

use vstd::prelude::*;
use crate::ast::{Addr, Atom, MachineInstruction, Program};
use crate::render::{dump_text, push_lines};
use crate::sound::{lemma_unify_unifies, lemma_walk_binds_more};
use crate::store::{lemma_deref_ends, HeapCell, MachineError, Store};
use crate::unify::{
    argument_pairs, lemma_unify_binds_variable, lemma_unify_same_cell, lemma_unify_same_term,
    lemma_unify_structures_differ, Step,
};

verus! {

/// The number of registers, X0 to X32.
pub const REGISTER_COUNT: usize = 33;

/// Whether the arguments of a structure are being built or matched.
#[derive(Clone, Copy, Debug, PartialEq, Eq, Structural)]
pub enum MachineMode {
    Read,
    Write,
}

/// What a machine holds.
pub struct MachineState {
    pub store: Store,
    pub scan_cursor: usize,
    pub mode: MachineMode,
    pub fail: bool,
    pub program: Option<Program>,
}

impl MachineState {
    /// The state of a machine that has executed nothing: no heap, every
    /// register an unbound variable, no program.
    pub open spec fn fresh() -> MachineState {
        MachineState {
            store: Store {
                heap: Seq::empty(),
                registers: Seq::new(
                    REGISTER_COUNT as nat,
                    |i: int| HeapCell::Ref(Addr::RegNum(i as usize)),
                ),
            },
            scan_cursor: 0,
            mode: MachineMode::Write,
            fail: false,
            program: None,
        }
    }

    /// The index of the next free heap cell: the length of the heap.
    pub open spec fn heap_top(self) -> nat {
        self.store.heap.len()
    }

    /// The state has all its registers, and its scan cursor is not beyond
    /// the heap.
    pub open spec fn wf(self) -> bool {
        &&& self.store.registers.len() == REGISTER_COUNT
        &&& self.scan_cursor <= self.store.heap.len()
    }
}

/// A machine: an append-only heap of cells, a register file, the mode and
/// the scan cursor of the structure being read, the result of the last
/// attempt to unify, and the program attached to it.
pub struct Machine {
    s: usize,
    /// Set when the last attempt to unify or to match found no unifier.
    pub fail: bool,
    heap: Vec<HeapCell>,
    mode: MachineMode,
    /// The program attached to the machine, which a reset keeps.
    pub program: Option<Program>,
    registers: Vec<HeapCell>,
}

impl View for Machine {
    type V = MachineState;

    closed spec fn view(&self) -> MachineState {
        MachineState {
            store: Store { heap: self.heap@, registers: self.registers@ },
            scan_cursor: self.s,
            mode: self.mode,
            fail: self.fail,
            program: self.program,
        }
    }
}

impl Machine {
    /// The machine is well formed: its state is.
    pub open spec fn wf(&self) -> bool {
        self@.wf()
    }

    /// A machine with an empty heap, unbound registers, in write mode, with
    /// no program attached.
    pub fn new() -> (m: Machine)
        ensures
            m.wf(),
            m@ == MachineState::fresh(),
    {
        let mut registers: Vec<HeapCell> = Vec::new();
        let mut i: usize = 0;
        while i < REGISTER_COUNT
            invariant
                i <= REGISTER_COUNT,
                registers@.len() == i,
                forall|k: int| 0 <= k < i ==> registers@[k] == HeapCell::Ref(Addr::RegNum(k as usize)),
            decreases REGISTER_COUNT - i,
        {
            registers.push(HeapCell::Ref(Addr::RegNum(i)));
            i += 1;
        }
        let m = Machine {
            s: 0,
            fail: false,
            heap: Vec::new(),
            mode: MachineMode::Write,
            program: None,
            registers,
        };
        assert(m@.store.registers =~= MachineState::fresh().store.registers);
        assert(m@.store.heap =~= MachineState::fresh().store.heap);
        m
    }

    /// The cell at `a`, or `OutOfBounds` where `a` names no cell.
    pub fn lookup(&self, a: Addr) -> (r: Result<&HeapCell, MachineError>)
        ensures
            match r {
                Ok(c) => self@.store.in_bounds(a) && *c == self@.store.cell(a),
                Err(e) => !self@.store.in_bounds(a) && e == MachineError::OutOfBounds,
            },
    {
        match a {
            Addr::HeapCell(i) => {
                if i < self.heap.len() {
                    Ok(&self.heap[i])
                } else {
                    Err(MachineError::OutOfBounds)
                }
            },
            Addr::RegNum(r) => {
                if r < self.registers.len() {
                    Ok(&self.registers[r])
                } else {
                    Err(MachineError::OutOfBounds)
                }
            },
        }
    }

    /// Follows bound references from `a` to the cell that `a` stands for.
    pub fn deref(&self, a: Addr) -> (r: Result<Addr, MachineError>)
        ensures
            r == self@.store.deref(a),
    {
        let mut cur = a;
        // The two lengths may not add up within a usize.
        let mut fuel: u128 = self.heap.len() as u128 + self.registers.len() as u128;
        loop
            invariant
                self@.store.deref(a) == self@.store.deref_within(cur, fuel as nat),
            decreases fuel,
        {
            let next = match self.lookup(cur) {
                Err(e) => {
                    return Err(e);
                },
                Ok(HeapCell::Ref(target)) => *target,
                Ok(_) => {
                    return Ok(cur);
                },
            };
            if next == cur {
                return Ok(cur);
            }
            if fuel == 0 {
                return Err(MachineError::CyclicReference);
            }
            cur = next;
            fuel -= 1;
        }
    }

    /// Makes the cell at `a` a reference to `target`.
    pub fn bind(&mut self, a: Addr, target: Addr) -> (r: Result<(), MachineError>)
        ensures
            old(self)@.store.in_bounds(a) ==> r is Ok && final(self)@ == (MachineState {
                store: old(self)@.store.bind(a, target),
                ..old(self)@
            }),
            !old(self)@.store.in_bounds(a) ==> r == Err::<(), MachineError>(MachineError::OutOfBounds)
                && final(self)@ == old(self)@,
            old(self).wf() ==> final(self).wf(),
    {
        match a {
            Addr::HeapCell(i) => {
                if i < self.heap.len() {
                    self.heap[i] = HeapCell::Ref(target);
                    Ok(())
                } else {
                    Err(MachineError::OutOfBounds)
                }
            },
            Addr::RegNum(r) => {
                if r < self.registers.len() {
                    self.registers[r] = HeapCell::Ref(target);
                    Ok(())
                } else {
                    Err(MachineError::OutOfBounds)
                }
            },
        }
    }

    /// Whether the cell at `d` is a variable.
    fn is_variable(&self, d: Addr) -> (b: bool)
        ensures
            b == (self@.store.in_bounds(d) && self@.store.cell(d) is Ref),
    {
        match self.lookup(d) {
            Ok(HeapCell::Ref(_)) => true,
            _ => false,
        }
    }

    /// The header position that the cell at `d` points at, where that cell
    /// is a structure pointer.
    fn structure_at(&self, d: Addr) -> (r: Option<usize>)
        ensures
            match r {
                Some(p) => self@.store.in_bounds(d) && self@.store.cell(d) == HeapCell::Str(p),
                None => !(self@.store.in_bounds(d) && self@.store.cell(d) is Str),
            },
    {
        match self.lookup(d) {
            Ok(HeapCell::Str(p)) => Some(*p),
            _ => None,
        }
    }

    /// The arity shared by the headers at `h1` and `h2` where the two
    /// structures match, `None` where they clash.
    fn match_structures(&self, h1: usize, h2: usize) -> (r: Result<Option<usize>, MachineError>)
        ensures
            match self@.store.match_structures(h1, h2) {
                Step::Stop(e) => r == Err::<Option<usize>, MachineError>(e),
                Step::Clash => r == Ok::<Option<usize>, MachineError>(None),
                Step::Go(st, more) => r matches Ok(Some(arity)) && st == self@.store && more
                    == argument_pairs(h1, h2, arity) && h1 + arity < self@.store.heap.len() && h2
                    + arity < self@.store.heap.len(),
            },
    {
        let len = self.heap.len();
        if h1 >= len || h2 >= len {
            return Err(MachineError::OutOfBounds);
        }
        match (&self.heap[h1], &self.heap[h2]) {
            (HeapCell::NamedStr(n1, f1), HeapCell::NamedStr(n2, f2)) => {
                if *n1 != *n2 || *f1 != *f2 {
                    Ok(None)
                } else if *n1 >= len - h1 || *n1 >= len - h2 {
                    Err(MachineError::OutOfBounds)
                } else {
                    Ok(Some(*n1))
                }
            },
            _ => Ok(None),
        }
    }

    /// Unifies the terms at `a1` and `a2`, examining at most `budget` pairs
    /// of addresses.
    ///
    /// Clears `fail`, then binds variables until the two terms are the same
    /// or are found to have no unifier, in which case `fail` is set. What was
    /// bound before a clash or an error stays bound. The worklist holds pairs
    /// of addresses; a pair is examined right to left, and the pairs of
    /// arguments that it leaves are examined before the pairs below it, the
    /// last arguments first.
    #[verifier::loop_isolation(false)]
    pub fn unify_within(&mut self, a1: Addr, a2: Addr, budget: usize) -> (r: Result<
        (),
        MachineError,
    >)
        ensures
            ({
                let out = old(self)@.store.unify(a1, a2, budget as nat);
                &&& r == out.result
                &&& final(self)@ == (MachineState { store: out.store, fail: out.fail, ..old(self)@ })
            }),
            final(self)@.store.heap.len() == old(self)@.store.heap.len(),
            final(self)@.store.registers.len() == old(self)@.store.registers.len(),
            old(self).wf() ==> final(self).wf(),
            old(self)@.store.binds_more(final(self)@.store),
            r is Ok && !final(self)@.fail ==> final(self)@.store.same(a1, a2),
            budget >= 1 && old(self)@.store.same_cell(a1, a2) ==> r is Ok && !final(self)@.fail
                && final(self)@.store == old(self)@.store,
            budget >= 1 && old(self)@.store.meets_variable(a1, a2) ==> r is Ok && !final(self)@.fail
                && final(self)@.store == old(self)@.store.variable_bound(a1, a2),
            budget >= 1 && old(self)@.store.structures_differ(a1, a2) ==> r is Ok && final(self)@.fail && final(self)@.store == old(self)@.store,
            forall|depth: nat| #[trigger]
                old(self)@.store.same_term(a1, a2, depth) ==> !final(self)@.fail && final(self)@.store
                    == old(self)@.store && (r is Ok <==> budget >= old(self)@.store.steps(
                    a1,
                    a2,
                    depth,
                )),
    {
        proof {
            let st = old(self)@.store;
            lemma_walk_binds_more(st, seq![(a1, a2)], budget as nat);
            if st.unify(a1, a2, budget as nat).result is Ok && !st.unify(a1, a2, budget as nat).fail {
                lemma_unify_unifies(st, a1, a2, budget as nat);
            }
            if budget >= 1 && st.same_cell(a1, a2) {
                lemma_unify_same_cell(st, a1, a2, budget as nat);
            }
            if budget >= 1 && st.meets_variable(a1, a2) {
                lemma_unify_binds_variable(st, a1, a2, budget as nat);
            }
            if budget >= 1 && st.structures_differ(a1, a2) {
                lemma_unify_structures_differ(st, a1, a2, budget as nat);
            }
            assert forall|depth: nat| #[trigger] st.same_term(a1, a2, depth) implies {
                let out = st.unify(a1, a2, budget as nat);
                !out.fail && out.store == st && (out.result is Ok <==> budget >= st.steps(
                    a1,
                    a2,
                    depth,
                ))
            } by {
                lemma_unify_same_term(st, a1, a2, depth, budget as nat);
            }
        }
        self.fail = false;
        let mut work: Vec<(Addr, Addr)> = Vec::new();
        work.push((a1, a2));
        let mut left: usize = budget;
        assert(work@ =~= seq![(a1, a2)]);
        while work.len() > 0
            invariant
                !self.fail,
                self@ == (MachineState { store: self@.store, fail: false, ..old(self)@ }),
                old(self).wf() ==> self.wf(),
                self@.store.heap.len() == old(self)@.store.heap.len(),
                self@.store.registers.len() == old(self)@.store.registers.len(),
                old(self)@.store.unify(a1, a2, budget as nat) == self@.store.unify_from(
                    work@,
                    left as nat,
                ),
            decreases left,
        {
            if left == 0 {
                return Err(MachineError::StepLimit);
            }
            left -= 1;
            let ghost before = work@;
            let (x, y) = work.pop().unwrap();
            assert(work@ == before.drop_last());
            let d1 = match self.deref(y) {
                Ok(d) => d,
                Err(e) => {
                    return Err(e);
                },
            };
            let d2 = match self.deref(x) {
                Ok(d) => d,
                Err(e) => {
                    return Err(e);
                },
            };
            proof {
                lemma_deref_ends(self@.store, y);
                lemma_deref_ends(self@.store, x);
            }
            if d1 == d2 {
                assert(work@ + Seq::<(Addr, Addr)>::empty() =~= work@);
                continue;
            }
            if self.is_variable(d2) {
                let _ = self.bind(d2, d1);
                assert(work@ + Seq::<(Addr, Addr)>::empty() =~= work@);
                continue;
            }
            if self.is_variable(d1) {
                let _ = self.bind(d1, d2);
                assert(work@ + Seq::<(Addr, Addr)>::empty() =~= work@);
                continue;
            }
            let matched = match (self.structure_at(d1), self.structure_at(d2)) {
                (Some(h1), Some(h2)) => match self.match_structures(h1, h2) {
                    Err(e) => {
                        return Err(e);
                    },
                    Ok(Some(arity)) => Some((h1, h2, arity)),
                    Ok(None) => None,
                },
                _ => None,
            };
            match matched {
                None => {
                    self.fail = true;
                    return Ok(());
                },
                Some((h1, h2, arity)) => {
                    let ghost base = work@;
                    assert(self.heap.len() == self@.store.heap.len());
                    let mut i: usize = 0;
                    while i < arity
                        invariant
                            i <= arity,
                            h1 + arity < usize::MAX,
                            h2 + arity < usize::MAX,
                            work@ == base + argument_pairs(h1, h2, i),
                        decreases arity - i,
                    {
                        work.push((Addr::HeapCell(h1 + 1 + i), Addr::HeapCell(h2 + 1 + i)));
                        i += 1;
                        assert(work@ =~= base + argument_pairs(h1, h2, i));
                    }
                },
            }
        }
        Ok(())
    }

    /// Unifies the terms at `a1` and `a2`. A walk of more steps than a
    /// `usize` counts is given up with `StepLimit`.
    pub fn unify(&mut self, a1: Addr, a2: Addr) -> (r: Result<(), MachineError>)
        ensures
            ({
                let out = old(self)@.store.unify(a1, a2, usize::MAX as nat);
                &&& r == out.result
                &&& final(self)@ == (MachineState { store: out.store, fail: out.fail, ..old(self)@ })
            }),
            final(self)@.store.heap.len() == old(self)@.store.heap.len(),
            final(self)@.store.registers.len() == old(self)@.store.registers.len(),
            old(self).wf() ==> final(self).wf(),
            old(self)@.store.binds_more(final(self)@.store),
            r is Ok && !final(self)@.fail ==> final(self)@.store.same(a1, a2),
            old(self)@.store.same_cell(a1, a2) ==> r is Ok && !final(self)@.fail && final(self)@.store
                == old(self)@.store,
            old(self)@.store.meets_variable(a1, a2) ==> r is Ok && !final(self)@.fail && final(self)@.store == old(self)@.store.variable_bound(a1, a2),
            old(self)@.store.structures_differ(a1, a2) ==> r is Ok && final(self)@.fail && final(self)@.store == old(self)@.store,
            forall|depth: nat| #[trigger]
                old(self)@.store.same_term(a1, a2, depth) ==> !final(self)@.fail && final(self)@.store
                    == old(self)@.store && (r is Ok <==> usize::MAX >= old(self)@.store.steps(
                    a1,
                    a2,
                    depth,
                )),
    {
        self.unify_within(a1, a2, usize::MAX)
    }

    /// Appends a structure pointer and the header it points at, and returns
    /// the position of the pointer.
    fn allocate(&mut self, name: &Atom, arity: usize) -> (h: usize)
        requires
            old(self).wf(),
            !old(self)@.store.is_full(),
        ensures
            final(self).wf(),
            h == old(self)@.store.heap.len(),
            final(self)@ == (MachineState {
                store: old(self)@.store.allocate(*name, arity),
                ..old(self)@
            }),
    {
        let h = self.heap.len();
        self.heap.push(HeapCell::Str(h + 1));
        self.heap.push(HeapCell::NamedStr(arity, name.clone()));
        h
    }

    /// Appends an unbound variable and puts a copy of it in register `reg`.
    fn new_variable(&mut self, reg: usize)
        requires
            old(self).wf(),
            old(self)@.store.in_bounds(Addr::RegNum(reg)),
        ensures
            final(self).wf(),
            final(self)@ == (MachineState {
                store: old(self)@.store.new_variable(reg),
                ..old(self)@
            }),
    {
        let h = self.heap.len();
        self.heap.push(HeapCell::Ref(Addr::HeapCell(h)));
        self.registers[reg] = HeapCell::Ref(Addr::HeapCell(h));
    }

    /// Appends a copy of register `reg`.
    fn push_register(&mut self, reg: usize)
        requires
            old(self).wf(),
            old(self)@.store.in_bounds(Addr::RegNum(reg)),
        ensures
            final(self).wf(),
            final(self)@ == (MachineState {
                store: old(self)@.store.push_register(reg),
                ..old(self)@
            }),
    {
        let cell = self.registers[reg].clone();
        self.heap.push(cell);
    }

    /// Matches register `reg` against the structure `name`/`arity`.
    fn get_structure(&mut self, name: &Atom, arity: usize, reg: usize) -> (r: Result<
        (),
        MachineError,
    >)
        requires
            old(self).wf(),
        ensures
            final(self).wf(),
            final(self)@ == old(self)@.get_structure(*name, arity, reg).state,
            r == old(self)@.get_structure(*name, arity, reg).result,
            final(self)@.store.heap.len() >= old(self)@.store.heap.len(),
    {
        let d = match self.deref(Addr::RegNum(reg)) {
            Ok(d) => d,
            Err(e) => {
                return Err(e);
            },
        };
        proof {
            lemma_deref_ends(self@.store, Addr::RegNum(reg));
        }
        if self.is_variable(d) {
            if self.heap.len() == usize::MAX {
                return Err(MachineError::OutOfBounds);
            }
            let h = self.allocate(name, arity);
            let _ = self.bind(d, Addr::HeapCell(h));
            self.mode = MachineMode::Write;
            return Ok(());
        }
        match self.structure_at(d) {
            Some(p) => {
                if p >= self.heap.len() {
                    return Err(MachineError::OutOfBounds);
                }
                let matches = match &self.heap[p] {
                    HeapCell::NamedStr(n, f) => *n == arity && *f == *name,
                    _ => false,
                };
                if matches {
                    self.s = p + 1;
                    self.mode = MachineMode::Read;
                } else {
                    self.fail = true;
                }
            },
            None => {
                self.fail = true;
            },
        }
        Ok(())
    }

    /// Builds the structure `name`/`arity` and points register `reg` at it.
    fn put_structure(&mut self, name: &Atom, arity: usize, reg: usize) -> (r: Result<
        (),
        MachineError,
    >)
        requires
            old(self).wf(),
        ensures
            final(self).wf(),
            final(self)@ == old(self)@.put_structure(*name, arity, reg).state,
            r == old(self)@.put_structure(*name, arity, reg).result,
            final(self)@.store.heap.len() >= old(self)@.store.heap.len(),
    {
        if reg >= self.registers.len() || self.heap.len() == usize::MAX {
            return Err(MachineError::OutOfBounds);
        }
        let h = self.allocate(name, arity);
        self.registers[reg] = self.heap[h].clone();
        Ok(())
    }

    /// Creates a variable or reads the scanned cell into register `reg`, as
    /// the mode says, and moves the scan cursor on.
    fn unify_variable(&mut self, reg: usize) -> (r: Result<(), MachineError>)
        requires
            old(self).wf(),
        ensures
            final(self).wf(),
            final(self)@ == old(self)@.unify_variable(reg).state,
            r == old(self)@.unify_variable(reg).result,
            final(self)@.store.heap.len() >= old(self)@.store.heap.len(),
    {
        if reg >= self.registers.len() {
            return Err(MachineError::OutOfBounds);
        }
        match self.mode {
            MachineMode::Write => {
                self.new_variable(reg);
                assert(self.s < self.heap.len());
            },
            MachineMode::Read => {
                if self.s >= self.heap.len() {
                    return Err(MachineError::OutOfBounds);
                }
                self.registers[reg] = self.heap[self.s].clone();
            },
        }
        self.s = self.s + 1;
        Ok(())
    }

    /// Copies register `reg` to the heap or unifies it with the scanned
    /// cell, as the mode says, and moves the scan cursor on.
    fn unify_value(&mut self, reg: usize) -> (r: Result<(), MachineError>)
        requires
            old(self).wf(),
        ensures
            final(self).wf(),
            final(self)@ == old(self)@.unify_value(reg).state,
            r == old(self)@.unify_value(reg).result,
            final(self)@.store.heap.len() >= old(self)@.store.heap.len(),
    {
        if reg >= self.registers.len() {
            return Err(MachineError::OutOfBounds);
        }
        let s = self.s;
        match self.mode {
            MachineMode::Write => {
                self.push_register(reg);
                assert(s < self.heap.len());
                self.s = s + 1;
                Ok(())
            },
            MachineMode::Read => {
                if s >= self.heap.len() {
                    return Err(MachineError::OutOfBounds);
                }
                let r = self.unify(Addr::RegNum(reg), Addr::HeapCell(s));
                self.s = s + 1;
                r
            },
        }
    }

    /// Executes one instruction.
    ///
    /// An instruction that names a register the machine does not have, or
    /// that reaches a cell outside the heap, is abandoned with `OutOfBounds`.
    /// That two terms do not match is no error: it sets `fail`. The heap
    /// only ever grows, and the registers stay as many as they are.
    pub fn execute(&mut self, instr: &MachineInstruction) -> (r: Result<(), MachineError>)
        requires
            old(self).wf(),
        ensures
            final(self).wf(),
            final(self)@ == old(self)@.execute(*instr).state,
            r == old(self)@.execute(*instr).result,
            final(self)@.store.heap.len() >= old(self)@.store.heap.len(),
    {
        match instr {
            MachineInstruction::GetStructure(name, arity, reg) => self.get_structure(
                name,
                *arity,
                *reg,
            ),
            MachineInstruction::PutStructure(name, arity, reg) => self.put_structure(
                name,
                *arity,
                *reg,
            ),
            MachineInstruction::SetVariable(reg) => {
                if *reg >= self.registers.len() {
                    return Err(MachineError::OutOfBounds);
                }
                self.new_variable(*reg);
                Ok(())
            },
            MachineInstruction::SetValue(reg) => {
                if *reg >= self.registers.len() {
                    return Err(MachineError::OutOfBounds);
                }
                self.push_register(*reg);
                Ok(())
            },
            MachineInstruction::UnifyVariable(reg) => self.unify_variable(*reg),
            MachineInstruction::UnifyValue(reg) => self.unify_value(*reg),
        }
    }

    /// Puts the machine back into the state of a new one, but for the
    /// program, which stays attached.
    pub fn reset_heap(&mut self)
        ensures
            final(self).wf(),
            final(self)@ == (MachineState { program: old(self)@.program, ..MachineState::fresh() }),
    {
        let program = self.program.take();
        *self = Machine::new();
        self.program = program;
    }

    /// The registers and the heap as text, for tracing: a line for each
    /// register, an empty line, a line for each heap cell. The machine is
    /// left as it is.
    pub fn dump_registers_and_heap(&self) -> (text: String)
        ensures
            text@ == dump_text(self@.store),
    {
        let mut text = String::new();
        push_lines(&mut text, "X", &self.registers);
        text.append("\n");
        push_lines(&mut text, "", &self.heap);
        assert(text@ =~= dump_text(self@.store));
        text
    }

    /// The cells of the heap, in index order.
    pub fn heap(&self) -> (cells: &Vec<HeapCell>)
        ensures
            cells@ == self@.store.heap,
    {
        &self.heap
    }

    /// The cells of the registers, X0 first.
    pub fn registers(&self) -> (cells: &Vec<HeapCell>)
        ensures
            cells@ == self@.store.registers,
    {
        &self.registers
    }

    /// The index of the next free heap cell.
    pub fn heap_top(&self) -> (top: usize)
        ensures
            top == self@.heap_top(),
    {
        self.heap.len()
    }

    /// The heap position that the next argument is read from. It means
    /// something in read mode only.
    pub fn scan_cursor(&self) -> (cursor: usize)
        ensures
            cursor == self@.scan_cursor,
    {
        self.s
    }

    /// Whether the machine builds or matches the arguments of a structure.
    pub fn mode(&self) -> (mode: MachineMode)
        ensures
            mode == self@.mode,
    {
        self.mode
    }
}

} // verus!
