use synacor_vm::analysis::{listing_header, parse_program, ExecBlock, Jump, JumpLabel};
use synacor_vm::dump::memory_listing;
use synacor_vm::instruction::{Operation, ParsedValue};
use synacor_vm::interface::RegisterState;
use synacor_vm::render::render_instruction;
use synacor_vm::tracer::{trace_header, trace_line};

#[test]
fn disassembler_emits_labels_before_their_targets() {
    // Call 5; Halt; three zero words; at 5: Noop, Ret.
    let program: Vec<u16> = vec![17, 5, 0, 0, 0, 21, 18];
    let (_items, lines) = parse_program(&program, &Vec::new());
    let label_pos = lines.iter().position(|l| l == "     :l0000").expect("label line");
    let noop_pos = lines.iter().position(|l| l == "0005 NOOP").expect("noop line");
    let ret_pos = lines.iter().position(|l| l == "0006 RET ").expect("ret line");
    assert_eq!(label_pos + 1, noop_pos);
    assert_eq!(noop_pos + 1, ret_pos);
    assert_eq!(lines[0], "0000 CALL 0005");
}

#[test]
fn disassembler_covers_every_word_exactly_once() {
    // A mix of reachable code and unreachable data.
    let program: Vec<u16> = vec![6, 6, 1000, 2000, 3000, 4000, 0];
    let (_items, lines) = parse_program(&program, &Vec::new());
    // Jmp 6 at the start, then a data region 2..=5, then the Halt at 6.
    assert_eq!(lines[0], "0000 JMP  0006");
    assert!(lines.iter().any(|l| l.starts_with("0002: 03e8 07d0 0bb8 0fa0 ")));
    assert!(lines.iter().any(|l| l == "0006 HALT"));
}

#[test]
fn disassembler_renders_out_gloss() {
    // Out 'H'; Halt.
    let program: Vec<u16> = vec![19, 72, 0];
    let (_items, lines) = parse_program(&program, &Vec::new());
    assert_eq!(lines[0], "0000 OUT  0048  H");
}

#[test]
fn data_rows_show_hex_and_glosses() {
    // Unreachable words after a Halt that is followed by a non-opcode, so
    // no speculative block forms: 0x0041 'A', 0x0015 an opcode shorthand.
    let program: Vec<u16> = vec![0, 0x8888, 0x41, 21, 0x8888];
    let (_items, lines) = parse_program(&program, &Vec::new());
    assert_eq!(lines[0], "0000 HALT");
    let expected = format!("0001: 8888 0041 0015 8888 {}| 8888A   !np 8888", " ".repeat(20));
    assert_eq!(lines[1], expected);
}

#[test]
fn listing_header_lines() {
    let lines = listing_header("image.bin", 7);
    assert_eq!(lines[0], "Data listing for file image.bin");
    assert_eq!(lines[1], "Binary size: 14 bytes (7 words)");
    assert_eq!(lines.len(), 5);
    assert_eq!(lines[2], "");
}

#[test]
fn exec_block_contains_is_inclusive() {
    let b = ExecBlock::new(3, 7);
    assert!(b.contains(3));
    assert!(b.contains(7));
    assert!(!b.contains(2));
    assert!(!b.contains(8));
}

#[test]
fn jump_labels_come_from_resolved_jumps() {
    let j = Jump { from: 2, target: Some(9) };
    assert_eq!(j.get_label(), Some(JumpLabel { from: 2, target: 9 }));
    let j = Jump { from: 2, target: None };
    assert_eq!(j.get_label(), None);
}

#[test]
fn memory_dump_mixes_instructions_and_data() {
    // Out 'H'; then a word that is no opcode.
    let memory: Vec<u16> = vec![19, 72, 0x4241];
    let lines = memory_listing(&memory);
    assert_eq!(lines.len(), 2);
    assert_eq!(lines[0], "0000: <  H     > OUT  0048  ");
    assert_eq!(lines[1], "0002: <4241      > AB");
}

#[test]
fn memory_dump_covers_registers_and_errors() {
    // Set R0 <- R1, then an operand error word as data.
    let memory: Vec<u16> = vec![1, 32768, 32769, 0x9999];
    let lines = memory_listing(&memory);
    assert_eq!(lines.len(), 2);
    assert_eq!(lines[0], "0000: <        > SET  REG0  REG1  ");
    assert_eq!(lines[1], "0003: <9999      >   ");
}

#[test]
fn step_record_text_renders_operands() {
    let text = render_instruction(
        &Operation::SetReg,
        &vec![ParsedValue::Register(0), ParsedValue::Literal(5)],
    );
    assert_eq!(text, "SET    R0 0005");
    let text = render_instruction(&Operation::Halt, &Vec::new());
    assert_eq!(text, "HALT");
    let text = render_instruction(&Operation::Out, &vec![ParsedValue::Error(33000)]);
    assert_eq!(text, "OUT  E(33000)");
}

#[test]
fn trace_lines_resolve_register_values() {
    let mut regs = RegisterState::const_default();
    regs.registers[1] = 0x1234;
    let line = trace_line(
        0x17a4,
        &Operation::Add,
        &vec![ParsedValue::Register(0), ParsedValue::Register(1), ParsedValue::Literal(1)],
        &regs,
    );
    assert_eq!(line, "17a4:ADD    R0   R1 0001    \tR0:0000 R1:1234 <0001>  \n");
    assert_eq!(trace_header(0x10), "Starting trace from address 0010\n");
}

#[test]
fn dump_clamps_an_instruction_truncated_at_the_end() {
    // Set with only one of its two operand words present.
    let memory: Vec<u16> = vec![1, 32768];
    let lines = memory_listing(&memory);
    assert_eq!(lines.len(), 1);
    assert_eq!(lines[0], "0000: <        > SET  REG0  ");
}

#[test]
fn disassembler_follows_extra_entry_points() {
    // Address 0 halts at once; the code at 3 is only reachable through
    // the supplied extra entry point.
    let program: Vec<u16> = vec![0, 0x9999, 0x9999, 21, 0];
    let (_items, lines) = parse_program(&program, &vec![3]);
    assert!(lines.iter().any(|l| l == "0003 NOOP"));
    assert!(lines.iter().any(|l| l == "0004 HALT"));
}
