use synacor_vm::instruction::{Operation, ParsedValue};
use synacor_vm::machine::{RuntimeError, VirtualMachine};

#[test]
fn literal_dereferences_to_itself() {
    let vm = VirtualMachine::init_from_sequence(&[0]);
    assert_eq!(vm.dereference(&ParsedValue::from(0x7FFFu16)), 0x7FFF);
}

#[test]
fn word_8007_dereferences_to_register_seven() {
    let mut vm = VirtualMachine::init_from_sequence(&[0]);
    vm.set_register(7, 0x1234);
    assert!(matches!(ParsedValue::from(0x8007u16), ParsedValue::Register(7)));
    assert_eq!(vm.dereference(&ParsedValue::from(0x8007u16)), 0x1234);
}

#[test]
fn word_8008_is_an_operand_error() {
    assert!(matches!(ParsedValue::from(0x8008u16), ParsedValue::Error(0x8008)));
    // As a decoded operand it aborts the step with UnknownOperand.
    let mut vm = VirtualMachine::init_from_sequence(&[19, 0x8008, 0]);
    let r = vm.operation();
    assert_eq!(r.unwrap_err(), RuntimeError::ErrUnknownOperand(0x8008));
    // The program counter is left past the operands.
    assert_eq!(vm.register_snapshot().program_counter, 2);
}

#[test]
fn add_wraps_at_fifteen_bits() {
    // Add R0, 0x7FFF, 0x7FFF
    let mut vm = VirtualMachine::init_from_sequence(&[9, 32768, 32767, 32767, 0]);
    vm.operation().unwrap();
    assert_eq!(vm.register_snapshot().registers[0], 0x7FFE);
}

#[test]
fn mult_wraps_at_fifteen_bits() {
    let mut vm = VirtualMachine::init_from_sequence(&[10, 32768, 32767, 32767, 0]);
    vm.operation().unwrap();
    assert_eq!(vm.register_snapshot().registers[0], 0x0001);
}

#[test]
fn not_zero_is_7fff() {
    let mut vm = VirtualMachine::init_from_sequence(&[14, 32768, 0, 0]);
    vm.operation().unwrap();
    assert_eq!(vm.register_snapshot().registers[0], 0x7FFF);
}

#[test]
fn mod_by_one_is_zero() {
    let mut vm = VirtualMachine::init_from_sequence(&[11, 32768, 123, 1, 0]);
    vm.operation().unwrap();
    assert_eq!(vm.register_snapshot().registers[0], 0);
}

#[test]
fn opcode_operand_counts() {
    assert_eq!(Operation::from(0u16).operands(), 0);
    assert_eq!(Operation::from(2u16).operands(), 1);
    assert_eq!(Operation::from(1u16).operands(), 2);
    assert_eq!(Operation::from(4u16).operands(), 3);
    assert_eq!(Operation::from(22u16).operands(), 0xFFFF);
    assert!(matches!(Operation::from(22u16), Operation::Error(22)));
}

#[test]
fn hello_sequence_outputs_and_halts() {
    // Out 'H', Out 'I', Halt.
    let mut vm = VirtualMachine::init_from_sequence(&[19, 72, 19, 73, 0]);
    let (op, _operands, out) = vm.operation().unwrap();
    assert_eq!(op, Operation::Out);
    assert_eq!(out, Some('H'));
    let (_, _, out) = vm.operation().unwrap();
    assert_eq!(out, Some('I'));
    let r = vm.operation();
    assert_eq!(r.unwrap_err(), RuntimeError::ErrFinished);
    // The program counter is rewound to the halt location.
    assert_eq!(vm.register_snapshot().program_counter, 4);
}

#[test]
fn self_modifying_write_then_failed_read() {
    // Wmem 4 <- 21; the next instruction decodes Rmem with a literal
    // target (its second operand slot lies past the end and reads as
    // zero), and is rejected after the write landed.
    let mut vm = VirtualMachine::init_from_sequence(&[16, 4, 21, 15, 21]);
    vm.operation().unwrap();
    assert_eq!(vm.read_memory(4), 21);
    assert_eq!(vm.register_snapshot().program_counter, 3);
    let r = vm.operation();
    assert_eq!(r.unwrap_err(), RuntimeError::ErrRegisterExpected);
    // The program counter moved past the Rmem operands.
    assert_eq!(vm.register_snapshot().program_counter, 6);
    assert_eq!(vm.read_memory(4), 21);
    assert_eq!(vm.memory_len(), 5);
}

#[test]
fn wmem_beyond_length_extends_with_zeros() {
    // Wmem 9 <- 5 on a four-word memory.
    let mut vm = VirtualMachine::init_from_sequence(&[16, 9, 5, 0]);
    vm.operation().unwrap();
    assert_eq!(vm.memory_len(), 10);
    assert_eq!(vm.read_memory(9), 5);
    for addr in 4..9 {
        assert_eq!(vm.read_memory(addr), 0);
    }
    assert_eq!(vm.read_memory(0), 16);
}

#[test]
fn stack_push_pop_round_trip() {
    // Push R0, Push R1, Pop R2, Pop R3, Halt.
    let mut vm = VirtualMachine::init_from_sequence(&[2, 32768, 2, 32769, 3, 32770, 3, 32771, 0]);
    vm.set_register(0, 5);
    vm.set_register(1, 9);
    vm.operation().unwrap();
    vm.operation().unwrap();
    assert_eq!(vm.register_snapshot().stack_depth, 2);
    vm.operation().unwrap();
    vm.operation().unwrap();
    let snap = vm.register_snapshot();
    assert_eq!(snap.registers[2], 9);
    assert_eq!(snap.registers[3], 5);
    assert_eq!(snap.stack_depth, 0);
    assert_eq!(vm.operation().unwrap_err(), RuntimeError::ErrFinished);
}

#[test]
fn jt_taken_jumps_and_not_taken_falls_through() {
    // Set R0 <- 5; Jt R0 -> 7; (Halt at 6 is skipped); Noop at 7.
    let mut vm = VirtualMachine::init_from_sequence(&[1, 32768, 5, 7, 32768, 7, 0, 21]);
    vm.operation().unwrap();
    vm.operation().unwrap();
    assert_eq!(vm.register_snapshot().program_counter, 7);
    let (op, _, _) = vm.operation().unwrap();
    assert_eq!(op, Operation::Noop);
    assert_eq!(vm.register_snapshot().program_counter, 8);

    // Not taken: R0 stays 0, so execution falls through to the Halt.
    let mut vm = VirtualMachine::init_from_sequence(&[7, 32768, 7, 0, 21]);
    vm.operation().unwrap();
    assert_eq!(vm.register_snapshot().program_counter, 3);
    assert_eq!(vm.operation().unwrap_err(), RuntimeError::ErrFinished);
}

#[test]
fn in_stalls_on_empty_buffer_then_consumes_typed_order() {
    let mut vm = VirtualMachine::init_from_sequence(&[20, 32768, 20, 32768, 0]);
    let r = vm.operation();
    assert_eq!(r.unwrap_err(), RuntimeError::ErrInputEmpty);
    // The stall rewinds the program counter so a retry re-executes In.
    assert_eq!(vm.register_snapshot().program_counter, 0);
    let staged = synacor_vm::controller::stage_input(b"x\n");
    assert_eq!(staged, vec![0x0A, 0x78]);
    vm.extend_input(&staged);
    vm.operation().unwrap();
    assert_eq!(vm.register_snapshot().registers[0], 0x78);
    vm.operation().unwrap();
    assert_eq!(vm.register_snapshot().registers[0], 0x0A);
}

#[test]
fn unknown_opcode_reports_without_state_change() {
    let mut vm = VirtualMachine::init_from_sequence(&[999, 0]);
    let r = vm.operation();
    assert_eq!(r.unwrap_err(), RuntimeError::ErrUnknownOperation(999));
    assert_eq!(vm.register_snapshot().program_counter, 0);
}

#[test]
fn pop_and_ret_on_empty_stack() {
    // Pop R0 with nothing on the stack.
    let mut vm = VirtualMachine::init_from_sequence(&[3, 32768, 0]);
    assert_eq!(vm.operation().unwrap_err(), RuntimeError::ErrStackEmpty);
    // Ret with nothing on the stack.
    let mut vm = VirtualMachine::init_from_sequence(&[18, 0]);
    assert_eq!(vm.operation().unwrap_err(), RuntimeError::ErrStackEmpty);
}

#[test]
fn call_pushes_return_address_and_ret_returns() {
    // Call 3; Halt; Noop at 3; Ret.
    let mut vm = VirtualMachine::init_from_sequence(&[17, 3, 0, 21, 18]);
    vm.operation().unwrap();
    assert_eq!(vm.register_snapshot().program_counter, 3);
    assert_eq!(vm.register_snapshot().stack_depth, 1);
    vm.operation().unwrap();
    vm.operation().unwrap();
    // Ret popped the post-decode address of the Call: 2, the Halt.
    assert_eq!(vm.register_snapshot().program_counter, 2);
    assert_eq!(vm.operation().unwrap_err(), RuntimeError::ErrFinished);
}

#[test]
fn set_register_masks_to_fifteen_bits_and_ignores_bad_registers() {
    let mut vm = VirtualMachine::init_from_sequence(&[0]);
    vm.set_register(0, 0xFFFF);
    assert_eq!(vm.register_snapshot().registers[0], 0x7FFF);
    vm.set_register(9, 0x1234);
    let snap = vm.register_snapshot();
    for r in 1..8 {
        assert_eq!(snap.registers[r], 0);
    }
}

#[test]
fn registers_stay_within_fifteen_bits_over_a_run() {
    // Exercise arithmetic, logic, stack and memory traffic, checking the
    // register bound after every step.
    let program: Vec<u16> = vec![
        1, 32768, 32767, // Set R0 <- 0x7FFF
        9, 32769, 32768, 32768, // Add R1 <- R0 + R0
        10, 32770, 32768, 32769, // Mult R2 <- R0 * R1
        12, 32771, 32768, 32769, // And R3
        13, 32772, 32768, 32769, // Or R4
        14, 32773, 32770, // Not R5 <- ~R2
        2, 32770, // Push R2
        3, 32774, // Pop R6
        16, 40, 32768, // Wmem 40 <- R0
        15, 32775, 40, // Rmem R7 <- [40]
        0,
    ];
    let mut vm = VirtualMachine::init_from_sequence(&program);
    loop {
        match vm.operation() {
            Ok(_) => {
                let snap = vm.register_snapshot();
                for r in 0..8 {
                    assert!(snap.registers[r] <= 0x7FFF);
                }
            }
            Err(RuntimeError::ErrFinished) => break,
            Err(e) => panic!("unexpected error: {:?}", e),
        }
    }
}

#[test]
fn error_messages_match() {
    assert_eq!(RuntimeError::ErrFinished.message(), "Program already finished.");
    assert_eq!(
        RuntimeError::ErrUnknownOperation(0x2a).message(),
        "Unknown operation with opcode 2a."
    );
    assert_eq!(
        RuntimeError::ErrUnknownOperand(0x8008).message(),
        "Unknown operand with value 8008."
    );
    assert_eq!(
        RuntimeError::ErrRegisterExpected.message(),
        "Expected a register, got a literal value."
    );
    assert_eq!(
        RuntimeError::ErrStackEmpty.message(),
        "POP instruction executed with empty stack."
    );
    assert_eq!(
        RuntimeError::ErrInputEmpty.message(),
        "IN instruction executed while input buffer was empty."
    );
}

#[test]
fn jf_jumps_only_on_zero() {
    // Jf R0 -> 4; Halt at 3; Noop at 4. R0 starts 0, so the jump is taken.
    let mut vm = VirtualMachine::init_from_sequence(&[8, 32768, 4, 0, 21]);
    vm.operation().unwrap();
    assert_eq!(vm.register_snapshot().program_counter, 4);
    // With R0 nonzero the jump is skipped.
    let mut vm = VirtualMachine::init_from_sequence(&[8, 32768, 4, 0, 21]);
    vm.set_register(0, 1);
    vm.operation().unwrap();
    assert_eq!(vm.register_snapshot().program_counter, 3);
}

#[test]
fn rmem_reads_zero_past_the_end() {
    // Rmem R0 <- [100] on a four-word memory.
    let mut vm = VirtualMachine::init_from_sequence(&[15, 32768, 100, 0]);
    vm.set_register(0, 7);
    vm.operation().unwrap();
    assert_eq!(vm.register_snapshot().registers[0], 0);
    assert_eq!(vm.memory_len(), 4);
}

#[test]
fn out_of_surrogate_range_yields_replacement() {
    // A register can hold a surrogate value only via Rmem from a word
    // above 0x7FFF; Out then emits the replacement character.
    let mut vm = VirtualMachine::init_from_sequence(&[15, 32768, 5, 19, 32768, 0xD900, 0]);
    vm.operation().unwrap();
    assert_eq!(vm.register_snapshot().registers[0], 0xD900);
    let (_, _, out) = vm.operation().unwrap();
    assert_eq!(out, Some('\u{FFFD}'));
}

#[test]
fn gt_with_literal_destination_is_rejected() {
    // Gt 7, 2, 1: the destination must be a register.
    let mut vm = VirtualMachine::init_from_sequence(&[5, 7, 2, 1, 0]);
    assert_eq!(vm.operation().unwrap_err(), RuntimeError::ErrRegisterExpected);
    assert_eq!(vm.register_snapshot().program_counter, 4);
    let snap = vm.register_snapshot();
    for r in 0..8 {
        assert_eq!(snap.registers[r], 0);
    }
}

#[test]
fn pop_with_literal_destination_is_rejected() {
    // Push 9; Pop 7: the destination must be a register; the stack is
    // left as it was.
    let mut vm = VirtualMachine::init_from_sequence(&[2, 9, 3, 7, 0]);
    vm.operation().unwrap();
    assert_eq!(vm.operation().unwrap_err(), RuntimeError::ErrRegisterExpected);
    assert_eq!(vm.register_snapshot().stack_depth, 1);
}
