use wam::ast::{Addr, MachineInstruction};
use wam::machine::Machine;

fn atom(name: &str) -> String {
    name.to_string()
}

#[test]
fn a_new_machine_dumps_its_unbound_registers_and_an_empty_heap() {
    let machine = Machine::new();
    let mut expected = String::new();
    for i in 0..33 {
        expected.push_str(&format!("X{} = REF(X{})\n", i, i));
    }
    expected.push_str("\n");
    assert_eq!(machine.dump_registers_and_heap(), expected);
}

#[test]
fn the_dump_lists_registers_then_heap_cells_by_kind() {
    let mut machine = Machine::new();
    assert_eq!(machine.execute(&MachineInstruction::PutStructure(atom("point"), 12, 1)), Ok(()));
    assert_eq!(machine.execute(&MachineInstruction::SetVariable(2)), Ok(()));
    assert_eq!(machine.execute(&MachineInstruction::UnifyVariable(31)), Ok(()));
    assert_eq!(machine.bind(Addr::RegNum(10), Addr::HeapCell(1234567890)), Ok(()));
    let heap_before = machine.heap().clone();
    let registers_before = machine.registers().clone();

    let text = machine.dump_registers_and_heap();

    let lines: Vec<&str> = text.split('\n').collect();
    assert_eq!(lines.len(), 33 + 1 + 4 + 1);
    assert_eq!(lines[0], "X0 = REF(X0)");
    assert_eq!(lines[1], "X1 = STR(1)");
    assert_eq!(lines[2], "X2 = REF(2)");
    assert_eq!(lines[9], "X9 = REF(X9)");
    assert_eq!(lines[10], "X10 = REF(1234567890)");
    assert_eq!(lines[31], "X31 = REF(3)");
    assert_eq!(lines[32], "X32 = REF(X32)");
    assert_eq!(lines[33], "");
    assert_eq!(lines[34], "0 = STR(1)");
    assert_eq!(lines[35], "1 = NAME(12, point)");
    assert_eq!(lines[36], "2 = REF(2)");
    assert_eq!(lines[37], "3 = REF(3)");
    assert_eq!(lines[38], "");
    assert!(text.ends_with("3 = REF(3)\n"));

    assert_eq!(machine.heap(), &heap_before);
    assert_eq!(machine.registers(), &registers_before);
}

#[test]
fn the_dump_numbers_heap_cells_in_decimal() {
    let mut machine = Machine::new();
    for _ in 0..101 {
        assert_eq!(machine.execute(&MachineInstruction::SetVariable(0)), Ok(()));
    }
    let text = machine.dump_registers_and_heap();
    assert!(text.starts_with("X0 = REF(100)\nX1 = REF(X1)\n"));
    assert!(text.contains("\n\n0 = REF(0)\n1 = REF(1)\n"));
    assert!(text.contains("\n9 = REF(9)\n10 = REF(10)\n"));
    assert!(text.ends_with("\n99 = REF(99)\n100 = REF(100)\n"));
}
