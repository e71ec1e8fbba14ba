use synacor_vm::controller::{
    after_step, apply_control, handle_step_result, must_block, should_exit, stage_input,
    ControlAction, StepReport,
};
use synacor_vm::instruction::{Operation, ParsedValue};
use synacor_vm::interface::{RegisterState, RuntimeState, VmInstruction};
use synacor_vm::machine::RuntimeError;
use synacor_vm::tracer::tracked_instruction;

type StepResult = Result<(Operation, Vec<ParsedValue>, Option<char>), RuntimeError>;

#[test]
fn blocking_policy() {
    assert!(!must_block(&RuntimeState::Running));
    assert!(must_block(&RuntimeState::Paused));
    assert!(must_block(&RuntimeState::PauseAfterSteps(0)));
    assert!(!must_block(&RuntimeState::PauseAfterSteps(3)));
    assert!(!must_block(&RuntimeState::PauseAfterAddress(10)));
    assert!(should_exit(&RuntimeState::Terminated));
    assert!(!should_exit(&RuntimeState::Paused));
}

#[test]
fn control_messages_update_run_state() {
    let s = RuntimeState::Paused;
    assert_eq!(
        apply_control(s, 0, VmInstruction::Run),
        (RuntimeState::Running, 0, ControlAction::Proceed)
    );
    assert_eq!(
        apply_control(RuntimeState::Running, 0, VmInstruction::Pause),
        (RuntimeState::Paused, 0, ControlAction::SkipStep)
    );
    assert_eq!(
        apply_control(s, 0, VmInstruction::SingleStep),
        (RuntimeState::PauseAfterSteps(1), 0, ControlAction::Proceed)
    );
    assert_eq!(
        apply_control(s, 0, VmInstruction::RunForSteps(12)),
        (RuntimeState::PauseAfterSteps(12), 0, ControlAction::Proceed)
    );
    assert_eq!(
        apply_control(s, 0, VmInstruction::RunUntilAddress(0x17a1)),
        (RuntimeState::PauseAfterAddress(0x17a1), 0, ControlAction::Proceed)
    );
    assert_eq!(
        apply_control(RuntimeState::Running, 0, VmInstruction::SetCommandDelay(50, true)),
        (RuntimeState::Paused, 50, ControlAction::SkipStep)
    );
    assert_eq!(
        apply_control(RuntimeState::Running, 7, VmInstruction::SetCommandDelay(0, false)),
        (RuntimeState::Running, 0, ControlAction::SkipStep)
    );
    assert_eq!(
        apply_control(s, 0, VmInstruction::Terminate),
        (RuntimeState::Paused, 0, ControlAction::Exit)
    );
    assert_eq!(
        apply_control(s, 0, VmInstruction::SetProgramCounter(0x10)),
        (RuntimeState::Paused, 0, ControlAction::SetPc(0x10))
    );
    assert_eq!(
        apply_control(s, 0, VmInstruction::SetRegister(3, 0x7FFF)),
        (RuntimeState::Paused, 0, ControlAction::SetReg(3, 0x7FFF))
    );
    assert_eq!(
        apply_control(s, 0, VmInstruction::SaveMemory(String::from("dump.txt"))),
        (RuntimeState::Paused, 0, ControlAction::Save(String::from("dump.txt")))
    );
    assert_eq!(
        apply_control(s, 0, VmInstruction::TraceOperations(String::from("trace.txt"))),
        (RuntimeState::Paused, 0, ControlAction::TraceStart(String::from("trace.txt")))
    );
    assert_eq!(
        apply_control(s, 0, VmInstruction::TraceStop),
        (RuntimeState::Paused, 0, ControlAction::TraceEnd)
    );
}

#[test]
fn terminated_state_absorbs_every_message() {
    let messages = vec![
        VmInstruction::Run,
        VmInstruction::Pause,
        VmInstruction::SingleStep,
        VmInstruction::RunForSteps(3),
        VmInstruction::RunUntilAddress(9),
        VmInstruction::SetCommandDelay(10, false),
        VmInstruction::Terminate,
        VmInstruction::SetProgramCounter(1),
        VmInstruction::SetRegister(0, 1),
        VmInstruction::SaveMemory(String::from("x")),
        VmInstruction::TraceOperations(String::from("y")),
        VmInstruction::TraceStop,
    ];
    for m in messages {
        let (state, delay, action) = apply_control(RuntimeState::Terminated, 5, m);
        assert_eq!(state, RuntimeState::Terminated);
        assert_eq!(delay, 5);
        assert_eq!(action, ControlAction::Exit);
    }
}

#[test]
fn halt_report_implies_terminated() {
    let halted: StepResult = Err(RuntimeError::ErrFinished);
    let (state, report) = handle_step_result(RuntimeState::Running, &halted);
    assert_eq!(state, RuntimeState::Terminated);
    assert_eq!(report, StepReport::Halted(String::from("HALT")));
}

#[test]
fn executed_report_carries_text_and_output() {
    let ok: StepResult = Ok((Operation::Out, vec![ParsedValue::Literal(72)], Some('H')));
    let (state, report) = handle_step_result(RuntimeState::Running, &ok);
    assert_eq!(state, RuntimeState::Running);
    assert_eq!(report, StepReport::Executed(String::from("OUT  0048"), Some('H')));
}

#[test]
fn input_stall_and_fault_reports() {
    let stall: StepResult = Err(RuntimeError::ErrInputEmpty);
    let (state, report) = handle_step_result(RuntimeState::PauseAfterSteps(2), &stall);
    assert_eq!(state, RuntimeState::PauseAfterSteps(2));
    assert_eq!(report, StepReport::NeedInput);

    let fault: StepResult = Err(RuntimeError::ErrStackEmpty);
    let (state, report) = handle_step_result(RuntimeState::Running, &fault);
    assert_eq!(state, RuntimeState::Running);
    assert_eq!(
        report,
        StepReport::Fault(String::from("POP instruction executed with empty stack."))
    );
}

#[test]
fn pause_after_steps_counts_down() {
    assert_eq!(after_step(RuntimeState::PauseAfterSteps(3), 0, 21), RuntimeState::PauseAfterSteps(2));
    assert_eq!(after_step(RuntimeState::PauseAfterSteps(1), 0, 21), RuntimeState::Paused);
    assert_eq!(after_step(RuntimeState::PauseAfterSteps(0), 0, 21), RuntimeState::Paused);
    assert_eq!(after_step(RuntimeState::Running, 0, 21), RuntimeState::Running);
    assert_eq!(after_step(RuntimeState::Terminated, 0, 21), RuntimeState::Terminated);
}

#[test]
fn pause_after_address_pauses_inside_operand_range() {
    // Instruction word 9 (Add) spans [pc0, pc0 + 3].
    assert_eq!(after_step(RuntimeState::PauseAfterAddress(12), 10, 9), RuntimeState::Paused);
    assert_eq!(after_step(RuntimeState::PauseAfterAddress(10), 10, 9), RuntimeState::Paused);
    assert_eq!(after_step(RuntimeState::PauseAfterAddress(13), 10, 9), RuntimeState::Paused);
    assert_eq!(
        after_step(RuntimeState::PauseAfterAddress(14), 10, 9),
        RuntimeState::PauseAfterAddress(14)
    );
    assert_eq!(
        after_step(RuntimeState::PauseAfterAddress(9), 10, 9),
        RuntimeState::PauseAfterAddress(9)
    );
}

#[test]
fn staged_input_is_ascii_reversed() {
    assert_eq!(stage_input(b"abc"), vec![0x63, 0x62, 0x61]);
    assert_eq!(stage_input(b""), Vec::<u16>::new());
    // Non-ASCII bytes are dropped.
    let bytes = vec![b'a', 0xC3, 0xA9, b'b'];
    assert_eq!(stage_input(&bytes), vec![0x62, 0x61]);
}

#[test]
fn hello_run_emits_records_in_order_and_terminates() {
    // The controller loop in miniature: run freely, collect the reports,
    // stop when the run-state turns Terminated.
    let mut vm = synacor_vm::machine::VirtualMachine::init_from_sequence(&[19, 72, 19, 73, 0]);
    let mut state = RuntimeState::Paused;
    let (new_state, _, action) = apply_control(state, 0, VmInstruction::Run);
    state = new_state;
    assert_eq!(action, ControlAction::Proceed);
    let mut reports: Vec<StepReport> = Vec::new();
    let mut outputs: Vec<char> = Vec::new();
    while !should_exit(&state) {
        let snap = vm.register_snapshot();
        let instr = vm.read_memory(snap.program_counter as usize);
        let result = vm.operation();
        let (after, report) = handle_step_result(state, &result);
        if let StepReport::Executed(_, Some(c)) = &report {
            outputs.push(*c);
        }
        reports.push(report);
        state = after_step(after, snap.program_counter, instr);
    }
    assert_eq!(outputs, vec!['H', 'I']);
    assert_eq!(reports.len(), 3);
    assert!(matches!(&reports[0], StepReport::Executed(text, Some('H')) if text == "OUT  0048"));
    assert!(matches!(&reports[1], StepReport::Executed(text, Some('I')) if text == "OUT  0049"));
    assert_eq!(reports[2], StepReport::Halted(String::from("HALT")));
    assert_eq!(state, RuntimeState::Terminated);
}

#[test]
fn tracked_instructions_record_jumps_and_memory_traffic() {
    let mut regs = RegisterState::const_default();
    regs.registers[0] = 0x17a1;
    // A call through a register resolves to the register's value.
    let line = tracked_instruction(
        0x10,
        &Operation::Call,
        &vec![ParsedValue::Register(0)],
        &regs,
    );
    assert_eq!(line, Some(String::from("C 0010 17a1")));
    // A store to a literal address.
    let line = tracked_instruction(
        0x20,
        &Operation::Wmem,
        &vec![ParsedValue::Literal(0x40), ParsedValue::Literal(1)],
        &regs,
    );
    assert_eq!(line, Some(String::from("S 0020 0040")));
    // An untracked opcode records nothing; a never-taken Jt neither.
    assert_eq!(
        tracked_instruction(0, &Operation::Noop, &Vec::new(), &regs),
        None
    );
    assert_eq!(
        tracked_instruction(
            0,
            &Operation::Jt,
            &vec![ParsedValue::Literal(0), ParsedValue::Literal(9)],
            &regs,
        ),
        None
    );
}
