//! Values exchanged between the debugger front end and the running VM:
//! register snapshots, step records, and the control messages the UI side
//! sends to the execution controller.

use vstd::prelude::*;

verus! {

/// A control message from the UI endpoint to the execution controller.
#[derive(Debug, Clone, PartialEq, Eq)]
pub enum VmInstruction {
    /// Run freely, pausing only for input stalls and control messages.
    Run,
    /// Suspend; perform no steps until told otherwise.
    Pause,
    /// Execute exactly one instruction, then pause.
    SingleStep,
    /// Execute the given number of instructions, then pause.
    RunForSteps(usize),
    /// Run until an instruction starts at, or spans, the given address.
    RunUntilAddress(u16),
    /// Update the per-instruction delay (milliseconds); optionally pause too.
    SetCommandDelay(usize, bool),
    /// Stop the VM loop for good.
    Terminate,
    /// Rewrite the program counter, bypassing all instruction semantics.
    SetProgramCounter(u16),
    /// Overwrite one register (register numbers above 7 are ignored).
    SetRegister(u8, u16),
    /// Synchronously write a listing of the current memory to this path.
    SaveMemory(String),
    /// Start tracing executed instructions to this path (truncating it).
    TraceOperations(String),
    /// Stop tracing: flush and close the trace file.
    TraceStop,
}

/// The run-state the execution controller holds between loop iterations.
#[derive(Debug, Clone, Copy, PartialEq, Eq, Structural)]
pub enum RuntimeState {
    /// The VM is actively executing instructions.
    Running,
    /// The VM is suspended, performing no actions.
    Paused,
    /// The VM runs, but suspends after this many further instructions.
    PauseAfterSteps(usize),
    /// The VM runs, but suspends after an instruction starting at or
    /// containing the given address.
    PauseAfterAddress(usize),
    /// The VM is permanently stopped; this state is never left.
    Terminated,
}

/// The registers, stack depth and program counter as they stood before an
/// instruction executed.
#[derive(Debug, Clone)]
pub struct RegisterState {
    pub registers: [u16; 8],
    pub stack_depth: usize,
    pub program_counter: u16,
}

impl RegisterState {
    /// An all-zero snapshot: the state of a freshly loaded machine.
    pub fn const_default() -> (r: RegisterState)
        ensures
            r.registers@ =~= Seq::new(8, |i: int| 0u16),
            r.stack_depth == 0,
            r.program_counter == 0,
    {
        RegisterState { registers: [0u16; 8], stack_depth: 0, program_counter: 0 }
    }
}

impl Default for RegisterState {
    fn default() -> (r: RegisterState)
        ensures
            r.registers@ =~= Seq::new(8, |i: int| 0u16),
            r.stack_depth == 0,
            r.program_counter == 0,
    {
        RegisterState::const_default()
    }
}

/// One step record: the pre-execute snapshot plus the human-readable text
/// of the instruction that ran.
#[derive(Debug, Clone)]
pub struct ProgramStep {
    pub registers: RegisterState,
    pub instruction: String,
}

impl ProgramStep {
    /// The record of a machine that has not stepped yet: an all-zero
    /// snapshot and empty instruction text.
    pub fn const_default() -> (r: ProgramStep)
        ensures
            r.registers.registers@ =~= Seq::new(8, |i: int| 0u16),
            r.registers.stack_depth == 0,
            r.registers.program_counter == 0,
            r.instruction@ == Seq::<char>::empty(),
    {
        ProgramStep { registers: RegisterState::const_default(), instruction: String::new() }
    }

    /// Pack a snapshot and instruction text into a step record.
    pub fn step(registers: RegisterState, instruction: String) -> (r: ProgramStep)
        ensures
            r.registers == registers,
            r.instruction == instruction,
    {
        ProgramStep { registers, instruction }
    }
}

} // verus!
