//! The execution controller's decisions: which control message does what
//! to the run-state, when the controller blocks, how a step's outcome is
//! reported, how the run-state changes after a step, and how typed input
//! is staged for the `In` opcode.
//!
//! The controller itself is a loop around these functions: it receives a
//! control message (blocking if `must_block`), applies it, snapshots the
//! machine, performs one step, emits what `handle_step_result` says, and
//! updates the run-state with `after_step`.

use vstd::prelude::*;

use crate::instruction::{spec_operand_count, Operation, ParsedValue};
use crate::interface::{RuntimeState, VmInstruction};
use crate::machine::{spec_error_message, RuntimeError};
use crate::render::{render_instruction, spec_render_instruction};

verus! {

/// What the loop around the controller must do after a control message,
/// besides holding the new run-state.
#[derive(Debug, Clone, PartialEq, Eq)]
pub enum ControlAction {
    /// Go on to execute a step this iteration.
    Proceed,
    /// Skip the step and poll for the next message.
    SkipStep,
    /// Leave the execution loop for good.
    Exit,
    /// Rewrite the machine's program counter, then skip the step.
    SetPc(u16),
    /// Overwrite one machine register, then skip the step.
    SetReg(u8, u16),
    /// Write a memory listing to this path, then skip the step.
    Save(String),
    /// Open (truncate) a trace file at this path, then step as usual.
    TraceStart(String),
    /// Flush and close the trace file, then step as usual.
    TraceEnd,
}

/// Whether the controller blocks waiting for the next control message:
/// it does exactly when it has nothing to run.
pub open spec fn spec_must_block(s: RuntimeState) -> bool {
    match s {
        RuntimeState::Running => false,
        RuntimeState::Paused => true,
        RuntimeState::PauseAfterSteps(n) => n == 0,
        RuntimeState::PauseAfterAddress(_) => false,
        RuntimeState::Terminated => false,
    }
}

/// Whether the controller must block for the next control message.
pub fn must_block(s: &RuntimeState) -> (b: bool)
    ensures
        b == spec_must_block(*s),
{
    match s {
        RuntimeState::Paused => true,
        RuntimeState::PauseAfterSteps(n) => *n == 0,
        _ => false,
    }
}

/// Whether the execution loop is over (`Terminated` is irrevocable).
pub fn should_exit(s: &RuntimeState) -> (b: bool)
    ensures
        b == (*s is Terminated),
{
    match s {
        RuntimeState::Terminated => true,
        _ => false,
    }
}

/// The run-state, per-instruction delay and loop action a control message
/// produces.  In `Terminated` every message leaves the loop: the state is
/// final and nothing is applied any more.
pub open spec fn spec_apply_control(
    s: RuntimeState,
    delay: usize,
    msg: VmInstruction,
) -> (RuntimeState, usize, ControlAction) {
    if s is Terminated {
        (RuntimeState::Terminated, delay, ControlAction::Exit)
    } else {
        match msg {
            VmInstruction::Run => (RuntimeState::Running, delay, ControlAction::Proceed),
            VmInstruction::Pause => (RuntimeState::Paused, delay, ControlAction::SkipStep),
            VmInstruction::SingleStep => (
                RuntimeState::PauseAfterSteps(1),
                delay,
                ControlAction::Proceed,
            ),
            VmInstruction::RunForSteps(n) => (
                RuntimeState::PauseAfterSteps(n),
                delay,
                ControlAction::Proceed,
            ),
            VmInstruction::RunUntilAddress(a) => (
                RuntimeState::PauseAfterAddress(a as usize),
                delay,
                ControlAction::Proceed,
            ),
            VmInstruction::SetCommandDelay(d, pause_after) => (
                if pause_after {
                    RuntimeState::Paused
                } else {
                    s
                },
                d,
                ControlAction::SkipStep,
            ),
            VmInstruction::Terminate => (s, delay, ControlAction::Exit),
            VmInstruction::SetProgramCounter(a) => (s, delay, ControlAction::SetPc(a)),
            VmInstruction::SetRegister(r, v) => (s, delay, ControlAction::SetReg(r, v)),
            VmInstruction::SaveMemory(path) => (s, delay, ControlAction::Save(path)),
            VmInstruction::TraceOperations(path) => (s, delay, ControlAction::TraceStart(path)),
            VmInstruction::TraceStop => (s, delay, ControlAction::TraceEnd),
        }
    }
}

/// Apply one control message to the run-state and delay.
pub fn apply_control(s: RuntimeState, delay: usize, msg: VmInstruction) -> (r: (
    RuntimeState,
    usize,
    ControlAction,
))
    ensures
        r == spec_apply_control(s, delay, msg),
{
    if let RuntimeState::Terminated = s {
        return (RuntimeState::Terminated, delay, ControlAction::Exit);
    }
    match msg {
        VmInstruction::Run => (RuntimeState::Running, delay, ControlAction::Proceed),
        VmInstruction::Pause => (RuntimeState::Paused, delay, ControlAction::SkipStep),
        VmInstruction::SingleStep => (RuntimeState::PauseAfterSteps(1), delay,
            ControlAction::Proceed),
        VmInstruction::RunForSteps(n) => (RuntimeState::PauseAfterSteps(n), delay,
            ControlAction::Proceed),
        VmInstruction::RunUntilAddress(a) => (RuntimeState::PauseAfterAddress(a as usize), delay,
            ControlAction::Proceed),
        VmInstruction::SetCommandDelay(d, pause_after) => (
            if pause_after {
                RuntimeState::Paused
            } else {
                s
            },
            d,
            ControlAction::SkipStep,
        ),
        VmInstruction::Terminate => (s, delay, ControlAction::Exit),
        VmInstruction::SetProgramCounter(a) => (s, delay, ControlAction::SetPc(a)),
        VmInstruction::SetRegister(r, v) => (s, delay, ControlAction::SetReg(r, v)),
        VmInstruction::SaveMemory(path) => (s, delay, ControlAction::Save(path)),
        VmInstruction::TraceOperations(path) => (s, delay, ControlAction::TraceStart(path)),
        VmInstruction::TraceStop => (s, delay, ControlAction::TraceEnd),
    }
}

/// After a halt the controller is in `Terminated`, and there it consumes
/// no control message at all: every message leaves the run-state
/// `Terminated` and the loop action is `Exit` — in particular no message
/// other than the state-forcing ones (and not even those) can reach the
/// machine any more.
pub proof fn lemma_terminated_absorbing(delay: usize, msg: VmInstruction)
    ensures
        spec_apply_control(RuntimeState::Terminated, delay, msg).0 == RuntimeState::Terminated,
        spec_apply_control(RuntimeState::Terminated, delay, msg).2 == ControlAction::Exit,
{
}

/// Only the state-forcing messages (program-counter and register writes,
/// memory save, trace control) produce an action that touches the machine
/// or a file; every other message only changes the run-state.
pub proof fn lemma_control_effects(s: RuntimeState, delay: usize, msg: VmInstruction)
    ensures
        !(msg is SetProgramCounter) && !(msg is SetRegister) && !(msg is SaveMemory) && !(msg
            is TraceOperations) && !(msg is TraceStop) ==> {
            let action = spec_apply_control(s, delay, msg).2;
            action is Proceed || action is SkipStep || action is Exit
        },
{
}

/// What the loop does with one step's outcome.
#[derive(Debug, Clone, PartialEq, Eq)]
pub enum StepReport {
    /// A step executed: emit this record text, then the output character
    /// if one is present, in that order.
    Executed(String, Option<char>),
    /// The machine stalled on empty input: block for input, stage it,
    /// and retry the step.
    NeedInput,
    /// The program halted: emit this terminal record text.
    Halted(String),
    /// A fatal error: report this message; the machine is left as it is.
    Fault(String),
}

/// Turn a step's outcome into the new run-state and the report to emit.
/// Emitting the terminal "HALT" record and entering `Terminated` happen
/// together: one implies the other.
pub fn handle_step_result(
    s: RuntimeState,
    r: &Result<(Operation, Vec<ParsedValue>, Option<char>), RuntimeError>,
) -> (out: (RuntimeState, StepReport))
    ensures
        r matches Ok((op, ops, c)) ==> {
            &&& out.0 == s
            &&& out.1 matches StepReport::Executed(text, oc) && text@ == spec_render_instruction(
                *op,
                ops@,
            ) && oc == *c
        },
        r == &Err::<(Operation, Vec<ParsedValue>, Option<char>), RuntimeError>(
            RuntimeError::ErrInputEmpty,
        ) ==> out == (s, StepReport::NeedInput),
        r == &Err::<(Operation, Vec<ParsedValue>, Option<char>), RuntimeError>(
            RuntimeError::ErrFinished,
        ) ==> {
            &&& out.0 == RuntimeState::Terminated
            &&& out.1 matches StepReport::Halted(text) && text@ == "HALT"@
        },
        r matches Err(e) ==> (*e != RuntimeError::ErrInputEmpty && *e != RuntimeError::ErrFinished
            ==> out.0 == s && (out.1 matches StepReport::Fault(m) && m@ == spec_error_message(
            *e,
        ))),
        out.1 is Halted <==> r == &Err::<(Operation, Vec<ParsedValue>, Option<char>),
            RuntimeError>(RuntimeError::ErrFinished),
        out.1 is Halted ==> out.0 == RuntimeState::Terminated,
{
    match r {
        Ok((op, operands, to_print)) => {
            let text = render_instruction(op, operands);
            (s, StepReport::Executed(text, *to_print))
        },
        Err(RuntimeError::ErrInputEmpty) => (s, StepReport::NeedInput),
        Err(RuntimeError::ErrFinished) => (
            RuntimeState::Terminated,
            StepReport::Halted("HALT".to_owned()),
        ),
        Err(e) => (s, StepReport::Fault(e.message())),
    }
}

/// The run-state after a step was attempted from snapshot program counter
/// `pc0` on the instruction word `instr`: `PauseAfterSteps` counts the
/// step down (reaching `Paused` at zero), `PauseAfterAddress` pauses when
/// the watched address lies within `[pc0, pc0 + operand_count]`.
pub open spec fn spec_after_step(s: RuntimeState, pc0: u16, instr: u16) -> RuntimeState {
    match s {
        RuntimeState::Running => RuntimeState::Running,
        RuntimeState::Paused => RuntimeState::Paused,
        RuntimeState::PauseAfterSteps(n) => if n <= 1 {
            RuntimeState::Paused
        } else {
            RuntimeState::PauseAfterSteps((n - 1) as usize)
        },
        RuntimeState::PauseAfterAddress(addr) => {
            let count = spec_operand_count(crate::instruction::spec_decode(instr));
            if pc0 <= addr <= pc0 + count {
                RuntimeState::Paused
            } else {
                RuntimeState::PauseAfterAddress(addr)
            }
        },
        RuntimeState::Terminated => RuntimeState::Terminated,
    }
}

/// Update the run-state after a step attempt (see `spec_after_step`).
pub fn after_step(s: RuntimeState, pc0: u16, instr: u16) -> (r: RuntimeState)
    ensures
        r == spec_after_step(s, pc0, instr),
{
    match s {
        RuntimeState::Running => RuntimeState::Running,
        RuntimeState::Paused => RuntimeState::Paused,
        RuntimeState::PauseAfterSteps(n) => if n <= 1 {
            RuntimeState::Paused
        } else {
            RuntimeState::PauseAfterSteps(n - 1)
        },
        RuntimeState::PauseAfterAddress(addr) => {
            let count = Operation::from(instr).operands();
            if pc0 as usize <= addr && addr <= pc0 as usize + count as usize {
                RuntimeState::Paused
            } else {
                RuntimeState::PauseAfterAddress(addr)
            }
        },
        RuntimeState::Terminated => RuntimeState::Terminated,
    }
}

/// The staged form of typed input: ASCII bytes only, widened to words,
/// in reverse order, so that popping the buffer from the back yields the
/// characters as typed.
pub open spec fn spec_stage_input(bytes: Seq<u8>) -> Seq<u16>
    decreases bytes.len(),
{
    if bytes.len() == 0 {
        Seq::empty()
    } else {
        let rest = spec_stage_input(bytes.drop_first());
        if bytes.first() < 128 {
            rest.push(bytes.first() as u16)
        } else {
            rest
        }
    }
}

/// Stage typed input for the machine's input buffer: keep the ASCII
/// bytes, widen them to words, and reverse them.
pub fn stage_input(bytes: &[u8]) -> (staged: Vec<u16>)
    ensures
        staged@ == spec_stage_input(bytes@),
{
    let mut staged: Vec<u16> = Vec::new();
    let mut i = bytes.len();
    while i > 0
        invariant
            i <= bytes.len(),
            staged@ =~= spec_stage_input(bytes@.subrange(i as int, bytes@.len() as int)),
        decreases i,
    {
        i = i - 1;
        let b = bytes[i];
        if b < 128 {
            staged.push(b as u16);
        }
        proof {
            let tail = bytes@.subrange(i as int, bytes@.len() as int);
            assert(tail.first() == bytes@[i as int]);
            assert(tail.drop_first() =~= bytes@.subrange(i + 1 as int, bytes@.len() as int));
        }
    }
    proof {
        assert(bytes@.subrange(0, bytes@.len() as int) =~= bytes@);
    }
    staged
}

/// Every staged input word is an ASCII code, hence at most 0x7FFF: input
/// staged this way keeps the machine's input buffer bounded.
pub proof fn lemma_stage_input_bounded(bytes: Seq<u8>)
    ensures
        forall|i: int| 0 <= i < spec_stage_input(bytes).len() ==> spec_stage_input(bytes)[i]
            < 128,
    decreases bytes.len(),
{
    if bytes.len() > 0 {
        lemma_stage_input_bounded(bytes.drop_first());
        let rest = spec_stage_input(bytes.drop_first());
        assert forall|i: int| 0 <= i < spec_stage_input(bytes).len() implies spec_stage_input(
            bytes,
        )[i] < 128 by {
            if bytes.first() < 128 {
                assert(spec_stage_input(bytes) == rest.push(bytes.first() as u16));
                if i < rest.len() {
                    assert(spec_stage_input(bytes)[i] == rest[i]);
                }
            }
        }
    }
}

} // verus!
