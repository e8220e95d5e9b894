use wam::ast::{Addr, MachineInstruction, Program};
use wam::machine::{Machine, MachineMode, REGISTER_COUNT};
use wam::store::{HeapCell, MachineError};

fn atom(name: &str) -> String {
    name.to_string()
}

#[test]
fn a_new_machine_is_empty() {
    let machine = Machine::new();
    assert_eq!(machine.heap().len(), 0);
    assert_eq!(machine.heap_top(), 0);
    assert_eq!(machine.scan_cursor(), 0);
    assert_eq!(machine.mode(), MachineMode::Write);
    assert!(!machine.fail);
    assert!(machine.program.is_none());
    assert_eq!(REGISTER_COUNT, 33);
    assert_eq!(machine.registers().len(), 33);
    for i in 0..33 {
        assert_eq!(machine.registers()[i], HeapCell::Ref(Addr::RegNum(i)));
        assert_eq!(machine.deref(Addr::RegNum(i)), Ok(Addr::RegNum(i)));
    }
}

#[test]
fn lookup_finds_heap_cells_and_registers() {
    let mut machine = Machine::new();
    assert_eq!(machine.execute(&MachineInstruction::PutStructure(atom("f"), 0, 2)), Ok(()));
    assert_eq!(machine.lookup(Addr::HeapCell(0)), Ok(&HeapCell::Str(1)));
    assert_eq!(machine.lookup(Addr::HeapCell(1)), Ok(&HeapCell::NamedStr(0, atom("f"))));
    assert_eq!(machine.lookup(Addr::RegNum(2)), Ok(&HeapCell::Str(1)));
    assert_eq!(machine.lookup(Addr::RegNum(32)), Ok(&HeapCell::Ref(Addr::RegNum(32))));
}

#[test]
fn lookup_outside_the_store_is_out_of_bounds() {
    let mut machine = Machine::new();
    assert_eq!(machine.lookup(Addr::HeapCell(0)), Err(MachineError::OutOfBounds));
    assert_eq!(machine.lookup(Addr::RegNum(33)), Err(MachineError::OutOfBounds));
    assert_eq!(machine.execute(&MachineInstruction::SetVariable(0)), Ok(()));
    assert_eq!(machine.lookup(Addr::HeapCell(1)), Err(MachineError::OutOfBounds));
    assert_eq!(machine.lookup(Addr::HeapCell(usize::MAX)), Err(MachineError::OutOfBounds));
}

#[test]
fn bind_overwrites_the_cell_with_a_reference() {
    let mut machine = Machine::new();
    assert_eq!(machine.execute(&MachineInstruction::PutStructure(atom("f"), 0, 2)), Ok(()));
    assert_eq!(machine.bind(Addr::RegNum(5), Addr::HeapCell(0)), Ok(()));
    assert_eq!(machine.registers()[5], HeapCell::Ref(Addr::HeapCell(0)));
    assert_eq!(machine.bind(Addr::HeapCell(1), Addr::RegNum(7)), Ok(()));
    assert_eq!(machine.heap()[1], HeapCell::Ref(Addr::RegNum(7)));
    assert_eq!(machine.heap()[0], HeapCell::Str(1));
    assert_eq!(machine.heap().len(), 2);
    assert_eq!(machine.registers().len(), 33);
}

#[test]
fn bind_outside_the_store_is_out_of_bounds() {
    let mut machine = Machine::new();
    assert_eq!(
        machine.bind(Addr::HeapCell(0), Addr::RegNum(0)),
        Err(MachineError::OutOfBounds)
    );
    assert_eq!(
        machine.bind(Addr::RegNum(33), Addr::RegNum(0)),
        Err(MachineError::OutOfBounds)
    );
    assert_eq!(machine.heap().len(), 0);
    assert_eq!(machine.registers()[0], HeapCell::Ref(Addr::RegNum(0)));
}

#[test]
fn deref_follows_bound_references_to_their_end() {
    let mut machine = Machine::new();
    for reg in 1..5 {
        assert_eq!(machine.execute(&MachineInstruction::SetVariable(reg)), Ok(()));
    }
    // 0 -> 1 -> 2 -> 3, and 3 is unbound.
    assert_eq!(machine.bind(Addr::HeapCell(0), Addr::HeapCell(1)), Ok(()));
    assert_eq!(machine.bind(Addr::HeapCell(1), Addr::HeapCell(2)), Ok(()));
    assert_eq!(machine.bind(Addr::HeapCell(2), Addr::HeapCell(3)), Ok(()));
    assert_eq!(machine.deref(Addr::HeapCell(0)), Ok(Addr::HeapCell(3)));
    assert_eq!(machine.deref(Addr::RegNum(1)), Ok(Addr::HeapCell(3)));
    assert_eq!(machine.deref(Addr::HeapCell(3)), Ok(Addr::HeapCell(3)));
}

#[test]
fn deref_stops_at_a_cell_that_is_no_reference() {
    let mut machine = Machine::new();
    assert_eq!(machine.execute(&MachineInstruction::PutStructure(atom("f"), 0, 2)), Ok(()));
    assert_eq!(machine.execute(&MachineInstruction::SetVariable(3)), Ok(()));
    assert_eq!(machine.bind(Addr::HeapCell(2), Addr::HeapCell(0)), Ok(()));
    assert_eq!(machine.deref(Addr::RegNum(3)), Ok(Addr::HeapCell(0)));
    assert_eq!(machine.deref(Addr::RegNum(2)), Ok(Addr::RegNum(2)));
    assert_eq!(machine.deref(Addr::HeapCell(1)), Ok(Addr::HeapCell(1)));
}

#[test]
fn deref_through_a_reference_that_leaves_the_store_is_out_of_bounds() {
    let mut machine = Machine::new();
    assert_eq!(machine.bind(Addr::RegNum(1), Addr::HeapCell(9)), Ok(()));
    assert_eq!(machine.deref(Addr::RegNum(1)), Err(MachineError::OutOfBounds));
    assert_eq!(machine.deref(Addr::HeapCell(0)), Err(MachineError::OutOfBounds));
    assert_eq!(machine.deref(Addr::RegNum(33)), Err(MachineError::OutOfBounds));
}

#[test]
fn deref_around_a_cycle_is_a_cyclic_reference() {
    let mut machine = Machine::new();
    assert_eq!(machine.execute(&MachineInstruction::SetVariable(1)), Ok(()));
    assert_eq!(machine.execute(&MachineInstruction::SetVariable(2)), Ok(()));
    assert_eq!(machine.bind(Addr::HeapCell(0), Addr::HeapCell(1)), Ok(()));
    assert_eq!(machine.bind(Addr::HeapCell(1), Addr::HeapCell(0)), Ok(()));
    assert_eq!(machine.deref(Addr::HeapCell(0)), Err(MachineError::CyclicReference));
    assert_eq!(machine.deref(Addr::RegNum(2)), Err(MachineError::CyclicReference));
    assert_eq!(
        machine.unify(Addr::RegNum(1), Addr::RegNum(3)),
        Err(MachineError::CyclicReference)
    );
    assert_eq!(
        machine.execute(&MachineInstruction::GetStructure(atom("f"), 1, 1)),
        Err(MachineError::CyclicReference)
    );
}

#[test]
fn deref_follows_a_chain_through_every_cell() {
    let mut machine = Machine::new();
    assert_eq!(machine.execute(&MachineInstruction::SetVariable(0)), Ok(()));
    // X32 -> X31 -> ... -> X0 -> heap 0, which is unbound.
    for reg in 1..33 {
        assert_eq!(machine.bind(Addr::RegNum(reg), Addr::RegNum(reg - 1)), Ok(()));
    }
    assert_eq!(machine.deref(Addr::RegNum(32)), Ok(Addr::HeapCell(0)));
}

#[test]
fn reset_heap_restores_a_new_machine_and_keeps_the_program() {
    let program: Program = vec![
        MachineInstruction::PutStructure(atom("f"), 1, 1),
        MachineInstruction::SetVariable(2),
        MachineInstruction::GetStructure(atom("f"), 1, 1),
        MachineInstruction::UnifyVariable(3),
        MachineInstruction::GetStructure(atom("g"), 1, 1),
    ];
    let mut machine = Machine::new();
    machine.program = Some(program.clone());
    for instr in program.iter() {
        assert_eq!(machine.execute(instr), Ok(()));
    }
    assert!(machine.fail);
    assert_eq!(machine.mode(), MachineMode::Read);
    assert_eq!(machine.heap().len(), 3);
    assert_eq!(machine.scan_cursor(), 3);

    machine.reset_heap();

    assert_eq!(machine.heap().len(), 0);
    assert_eq!(machine.heap_top(), 0);
    assert_eq!(machine.scan_cursor(), 0);
    assert_eq!(machine.registers().len(), 33);
    for i in 0..33 {
        assert_eq!(machine.registers()[i], HeapCell::Ref(Addr::RegNum(i)));
    }
    assert_eq!(machine.mode(), MachineMode::Write);
    assert!(!machine.fail);
    assert_eq!(machine.program, Some(program));
}

#[test]
fn reset_heap_without_a_program_leaves_none() {
    let mut machine = Machine::new();
    assert_eq!(machine.execute(&MachineInstruction::SetVariable(1)), Ok(()));
    machine.reset_heap();
    assert!(machine.program.is_none());
    assert_eq!(machine.heap().len(), 0);
    assert_eq!(machine.registers()[1], HeapCell::Ref(Addr::RegNum(1)));
}

#[test]
fn a_machine_runs_the_same_program_again_after_a_reset() {
    let program: Program = vec![
        MachineInstruction::PutStructure(atom("f"), 1, 1),
        MachineInstruction::SetVariable(2),
    ];
    let mut machine = Machine::new();
    machine.program = Some(program.clone());
    for instr in program.iter() {
        assert_eq!(machine.execute(instr), Ok(()));
    }
    let heap = machine.heap().clone();
    let registers = machine.registers().clone();
    machine.reset_heap();
    let attached = machine.program.clone().unwrap();
    for instr in attached.iter() {
        assert_eq!(machine.execute(instr), Ok(()));
    }
    assert_eq!(machine.heap(), &heap);
    assert_eq!(machine.registers(), &registers);
}

#[test]
fn overwriting_a_register_that_a_variable_refers_to_can_close_a_cycle() {
    let mut machine = Machine::new();
    let program = vec![
        MachineInstruction::PutStructure(atom("a"), 0, 2),
        MachineInstruction::PutStructure(atom("f"), 1, 1),
        MachineInstruction::SetVariable(3),
        MachineInstruction::GetStructure(atom("f"), 1, 1),
        // The argument of f, a variable, is bound to register 2.
        MachineInstruction::UnifyValue(2),
        MachineInstruction::SetValue(3),
        // Register 2 now refers to the argument of f.
        MachineInstruction::UnifyVariable(2),
    ];
    for instr in program.iter() {
        assert_eq!(machine.execute(instr), Ok(()));
    }
    assert_eq!(machine.heap()[4], HeapCell::Ref(Addr::RegNum(2)));
    assert_eq!(machine.registers()[2], HeapCell::Ref(Addr::HeapCell(4)));
    assert_eq!(machine.deref(Addr::RegNum(2)), Err(MachineError::CyclicReference));
    assert_eq!(machine.deref(Addr::RegNum(3)), Err(MachineError::CyclicReference));
    assert_eq!(machine.deref(Addr::RegNum(1)), Ok(Addr::RegNum(1)));
}
