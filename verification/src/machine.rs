//! The VM interpreter: memory, registers, stack and input buffer, plus the
//! single fetch-decode-execute step.
//!
//! `spec_step` is the mathematical transition function; `operation` is the
//! executable step, proved to match it exactly.  One step either advances
//! the program counter and mutates state, stalls on empty input with the
//! program counter rewound, reports normal termination with the program
//! counter rewound to the halt location, or reports an error with the
//! program counter left past the failed instruction's operands.

use vstd::prelude::*;

use crate::instruction::{spec_decode, spec_operand_count, spec_parse_value, Operation, ParsedValue};
use crate::interface::RegisterState;

verus! {

/// Everything the interpreter can report other than a successful step.
/// `ErrFinished` is normal termination, `ErrInputEmpty` a recoverable
/// stall; the rest are fatal to the running program.
#[derive(Debug, Clone, Copy, PartialEq, Eq, Structural)]
pub enum RuntimeError {
    /// The program executed a `Halt`.
    ErrFinished,
    /// The fetched word does not decode to an opcode.
    ErrUnknownOperation(u16),
    /// An operand word is 0x8008 or above.
    ErrUnknownOperand(u16),
    /// An opcode that writes a register was given a literal target.
    ErrRegisterExpected,
    /// An `In` executed while the input buffer was empty (retry after
    /// supplying input).
    ErrInputEmpty,
    /// A `Pop` or `Ret` executed with an empty stack.
    ErrStackEmpty,
}

/// The mathematical state of the machine: the view of `VirtualMachine`.
#[verifier::ext_equal]
pub struct VmState {
    pub memory: Seq<u16>,
    pub registers: Seq<u16>,
    pub stack: Seq<usize>,
    pub pc: nat,
    pub input: Seq<u16>,
}

/// What one step yields: the state after the step and the reported result.
#[verifier::ext_equal]
pub struct StepSpec {
    pub state: VmState,
    pub result: Result<(Operation, Seq<ParsedValue>, Option<char>), RuntimeError>,
}

/// The value an operand stands for: a literal is itself, a register its
/// current content, and an error operand degrades to its low 15 bits.
pub open spec fn spec_deref(s: VmState, pv: ParsedValue) -> u16 {
    match pv {
        ParsedValue::Literal(x) => x,
        ParsedValue::Register(r) => if r < 8 {
            s.registers[r as int]
        } else {
            0
        },
        ParsedValue::Error(e) => e & 0x7FFF,
    }
}

/// The operand words following the opcode at the program counter, parsed;
/// an operand slot past the end of memory reads as the zero word (the
/// convention `Rmem` itself uses for out-of-range reads).
pub open spec fn spec_operands(s: VmState) -> Seq<ParsedValue> {
    let k = spec_operand_count(spec_decode(s.memory[s.pc as int])) as nat;
    Seq::new(k, |i: int| spec_parse_value(
        if s.pc + 1 + i < s.memory.len() {
            s.memory[s.pc + 1 + i]
        } else {
            0u16
        },
    ))
}

/// The value of the first error operand, if any.
pub open spec fn first_operand_error(ops: Seq<ParsedValue>) -> Option<u16>
    decreases ops.len(),
{
    if ops.len() == 0 {
        None
    } else {
        match ops.first() {
            ParsedValue::Error(e) => Some(e),
            _ => first_operand_error(ops.drop_first()),
        }
    }
}

/// The character `Out` emits for a word: the code point itself, or the
/// replacement character for the (surrogate) values that are no scalar.
pub open spec fn spec_out_char(v: u16) -> char {
    if v < 0xD800 || v >= 0xE000 {
        (v as u32) as char
    } else {
        '\u{FFFD}'
    }
}

/// Memory after a write of `value` at `addr`: updated in place, or
/// extended with zeros to exactly `addr + 1` words first.
pub open spec fn spec_write_mem(memory: Seq<u16>, addr: u16, value: u16) -> Seq<u16> {
    if addr < memory.len() {
        memory.update(addr as int, value)
    } else {
        Seq::new((addr + 1) as nat, |i: int| if i == addr {
            value
        } else if i < memory.len() {
            memory[i]
        } else {
            0u16
        })
    }
}

/// A successful step outcome.
pub open spec fn step_ok(state: VmState, op: Operation, ops: Seq<ParsedValue>, out: Option<char>)
    -> StepSpec {
    StepSpec { state, result: Ok((op, ops, out)) }
}

/// A failed or stalled step outcome.
pub open spec fn step_err(state: VmState, e: RuntimeError) -> StepSpec {
    StepSpec { state, result: Err(e) }
}

/// The execute phase, given the pre-step state `pre` and the state `adv`
/// whose program counter has been advanced past the operands.
pub open spec fn spec_execute(
    pre: VmState,
    adv: VmState,
    op: Operation,
    ops: Seq<ParsedValue>,
) -> StepSpec {
    match op {
        Operation::Halt => step_err(VmState { pc: pre.pc, ..adv }, RuntimeError::ErrFinished),
        Operation::SetReg => match ops[0] {
            ParsedValue::Register(r) => step_ok(
                VmState { registers: adv.registers.update(r as int, spec_deref(pre, ops[1])), ..adv },
                op,
                ops,
                None,
            ),
            _ => step_err(adv, RuntimeError::ErrRegisterExpected),
        },
        Operation::Push => step_ok(
            VmState { stack: adv.stack.push(spec_deref(pre, ops[0]) as usize), ..adv },
            op,
            ops,
            None,
        ),
        Operation::Pop => match ops[0] {
            ParsedValue::Register(r) => if pre.stack.len() == 0 {
                step_err(adv, RuntimeError::ErrStackEmpty)
            } else {
                step_ok(
                    VmState {
                        registers: adv.registers.update(
                            r as int,
                            ((adv.stack.last() as u64) & 0x7fff) as u16,
                        ),
                        stack: adv.stack.drop_last(),
                        ..adv
                    },
                    op,
                    ops,
                    None,
                )
            },
            _ => step_err(adv, RuntimeError::ErrRegisterExpected),
        },
        Operation::Eq => match ops[0] {
            ParsedValue::Register(r) => step_ok(
                VmState {
                    registers: adv.registers.update(
                        r as int,
                        if spec_deref(pre, ops[1]) == spec_deref(pre, ops[2]) {
                            1u16
                        } else {
                            0u16
                        },
                    ),
                    ..adv
                },
                op,
                ops,
                None,
            ),
            _ => step_err(adv, RuntimeError::ErrRegisterExpected),
        },
        Operation::Gt => match ops[0] {
            ParsedValue::Register(r) => step_ok(
                VmState {
                    registers: adv.registers.update(
                        r as int,
                        if spec_deref(pre, ops[1]) > spec_deref(pre, ops[2]) {
                            1u16
                        } else {
                            0u16
                        },
                    ),
                    ..adv
                },
                op,
                ops,
                None,
            ),
            _ => step_err(adv, RuntimeError::ErrRegisterExpected),
        },
        Operation::Jmp => step_ok(
            VmState { pc: spec_deref(pre, ops[0]) as nat, ..adv },
            op,
            ops,
            None,
        ),
        Operation::Jt => if spec_deref(pre, ops[0]) != 0 {
            step_ok(VmState { pc: spec_deref(pre, ops[1]) as nat, ..adv }, op, ops, None)
        } else {
            step_ok(adv, op, ops, None)
        },
        Operation::Jf => if spec_deref(pre, ops[0]) == 0 {
            step_ok(VmState { pc: spec_deref(pre, ops[1]) as nat, ..adv }, op, ops, None)
        } else {
            step_ok(adv, op, ops, None)
        },
        Operation::Add => spec_arith(
            pre,
            adv,
            op,
            ops,
            (((spec_deref(pre, ops[1]) + spec_deref(pre, ops[2])) % 0x8000) as u16),
        ),
        Operation::Mult => spec_arith(
            pre,
            adv,
            op,
            ops,
            (((spec_deref(pre, ops[1]) * spec_deref(pre, ops[2])) % 0x8000) as u16),
        ),
        Operation::Mod => spec_arith(
            pre,
            adv,
            op,
            ops,
            // Taking anything modulo zero is left undefined by the
            // architecture; this interpreter returns zero.
            if spec_deref(pre, ops[2]) == 0 {
                0u16
            } else {
                spec_deref(pre, ops[1]) % spec_deref(pre, ops[2])
            },
        ),
        Operation::And => spec_arith(
            pre,
            adv,
            op,
            ops,
            spec_deref(pre, ops[1]) & spec_deref(pre, ops[2]),
        ),
        Operation::Or => spec_arith(
            pre,
            adv,
            op,
            ops,
            spec_deref(pre, ops[1]) | spec_deref(pre, ops[2]),
        ),
        Operation::Not => spec_arith(pre, adv, op, ops, spec_deref(pre, ops[1]) ^ 0x7FFF),
        Operation::Rmem => match ops[0] {
            ParsedValue::Register(r) => step_ok(
                VmState {
                    registers: adv.registers.update(
                        r as int,
                        if (spec_deref(pre, ops[1]) as int) < adv.memory.len() {
                            adv.memory[spec_deref(pre, ops[1]) as int]
                        } else {
                            0u16
                        },
                    ),
                    ..adv
                },
                op,
                ops,
                None,
            ),
            _ => step_err(adv, RuntimeError::ErrRegisterExpected),
        },
        Operation::Wmem => step_ok(
            VmState {
                memory: spec_write_mem(adv.memory, spec_deref(pre, ops[0]), spec_deref(pre, ops[1])),
                ..adv
            },
            op,
            ops,
            None,
        ),
        Operation::Call => step_ok(
            VmState {
                stack: adv.stack.push(adv.pc as usize),
                pc: spec_deref(pre, ops[0]) as nat,
                ..adv
            },
            op,
            ops,
            None,
        ),
        Operation::Ret => if adv.stack.len() == 0 {
            step_err(adv, RuntimeError::ErrStackEmpty)
        } else {
            step_ok(
                VmState { pc: adv.stack.last() as nat, stack: adv.stack.drop_last(), ..adv },
                op,
                ops,
                None,
            )
        },
        Operation::Out => step_ok(adv, op, ops, Some(spec_out_char(spec_deref(pre, ops[0])))),
        Operation::In => match ops[0] {
            ParsedValue::Register(r) => if adv.input.len() == 0 {
                step_err(VmState { pc: pre.pc, ..adv }, RuntimeError::ErrInputEmpty)
            } else {
                step_ok(
                    VmState {
                        registers: adv.registers.update(r as int, adv.input.last()),
                        input: adv.input.drop_last(),
                        ..adv
                    },
                    op,
                    ops,
                    None,
                )
            },
            _ => step_err(adv, RuntimeError::ErrRegisterExpected),
        },
        Operation::Noop => step_ok(adv, op, ops, None),
        Operation::Error(_) => step_err(pre, RuntimeError::ErrUnknownOperation(0)),
    }
}

/// An arithmetic opcode's outcome: the register target takes `value`,
/// a literal target is an error.
pub open spec fn spec_arith(
    pre: VmState,
    adv: VmState,
    op: Operation,
    ops: Seq<ParsedValue>,
    value: u16,
) -> StepSpec {
    match ops[0] {
        ParsedValue::Register(r) => step_ok(
            VmState { registers: adv.registers.update(r as int, value), ..adv },
            op,
            ops,
            None,
        ),
        _ => step_err(adv, RuntimeError::ErrRegisterExpected),
    }
}

/// One fetch-decode-execute step from `pre`.
pub open spec fn spec_step(pre: VmState) -> StepSpec {
    let w = pre.memory[pre.pc as int];
    let op = spec_decode(w);
    if op is Error {
        step_err(pre, RuntimeError::ErrUnknownOperation(w))
    } else {
        let ops = spec_operands(pre);
        let adv = VmState { pc: (pre.pc + 1 + spec_operand_count(op)) as nat, ..pre };
        match first_operand_error(ops) {
            Some(e) => step_err(adv, RuntimeError::ErrUnknownOperand(e)),
            None => spec_execute(pre, adv, op, ops),
        }
    }
}

/// The program counter indexes a word of memory, so the fetch is
/// defined.  Operand slots past the end of memory read as zero words, so
/// nothing more is demanded of the decode extent; the advanced program
/// counter may point past the end (the next fetch then fails this
/// predicate).
pub open spec fn step_fits(s: VmState) -> bool {
    s.pc < s.memory.len()
}

/// The VM: word memory, eight registers, an unbounded stack, the program
/// counter, and the staged input characters (consumed last-first).
pub struct VirtualMachine {
    memory: Vec<u16>,
    registers: Vec<u16>,
    stack: Vec<usize>,
    program_counter: usize,
    input_buffer: Vec<u16>,
}

impl View for VirtualMachine {
    type V = VmState;

    closed spec fn view(&self) -> VmState {
        VmState {
            memory: self.memory@,
            registers: self.registers@,
            stack: self.stack@,
            pc: self.program_counter as nat,
            input: self.input_buffer@,
        }
    }
}

/// The executable step result, lifted to the spec level.
pub open spec fn step_result_view(
    r: Result<(Operation, Vec<ParsedValue>, Option<char>), RuntimeError>,
) -> Result<(Operation, Seq<ParsedValue>, Option<char>), RuntimeError> {
    match r {
        Ok((op, ops, out)) => Ok((op, ops@, out)),
        Err(e) => Err(e),
    }
}

/// Relies on char::from_u32: `Some` exactly for Unicode scalar values
/// (everything up to 0x10FFFF except the surrogate range), carrying the
/// character with that code point.
#[verifier::external_body]
fn char_from_u32(v: u32) -> (r: Option<char>)
    ensures
        (r matches Some(c) ==> c as u32 == v),
        r is Some <==> (v < 0xD800 || (0xE000 <= v && v < 0x110000)),
{
    char::from_u32(v)
}

impl VirtualMachine {
    /// The machine always carries exactly eight registers.
    pub open spec fn wf(&self) -> bool {
        self@.registers.len() == 8
    }

    /// A fresh machine whose memory is the given word sequence: zeroed
    /// registers, empty stack, program counter 0, no staged input.
    pub fn init_from_sequence(input_sequence: &[u16]) -> (vm: VirtualMachine)
        ensures
            vm.wf(),
            vm@.memory == input_sequence@,
            vm@.registers =~= Seq::new(8, |i: int| 0u16),
            vm@.stack == Seq::<usize>::empty(),
            vm@.pc == 0,
            vm@.input == Seq::<u16>::empty(),
    {
        let mut registers: Vec<u16> = Vec::new();
        let mut i: usize = 0;
        while i < 8
            invariant
                i <= 8,
                registers@ =~= Seq::new(i as nat, |j: int| 0u16),
            decreases 8 - i,
        {
            registers.push(0);
            i = i + 1;
        }
        VirtualMachine {
            memory: vstd::slice::slice_to_vec(input_sequence),
            registers,
            stack: Vec::new(),
            program_counter: 0,
            input_buffer: Vec::new(),
        }
    }

    /// The value an operand stands for in the current state.
    pub fn dereference(&self, val: &ParsedValue) -> (v: u16)
        requires
            self.wf(),
        ensures
            v == spec_deref(self@, *val),
    {
        match val {
            ParsedValue::Literal(x) => *x,
            ParsedValue::Register(r) => if *r < 8 {
                self.registers[*r as usize]
            } else {
                0
            },
            ParsedValue::Error(e) => *e & 0x7FFF,
        }
    }

    /// One fetch-decode-execute step; the contract is `spec_step`.
    pub fn operation(&mut self) -> (r: Result<(Operation, Vec<ParsedValue>, Option<char>),
        RuntimeError>)
        requires
            old(self).wf(),
            step_fits(old(self)@),
            // Machine limit: the advanced counter (at most three operand
            // slots past the fetch) must stay a valid usize.
            old(self)@.memory.len() + 3 <= usize::MAX,
        ensures
            final(self).wf(),
            final(self)@ == spec_step(old(self)@).state,
            step_result_view(r) == spec_step(old(self)@).result,
    {
        let ghost pre = self@;
        // Fetch.
        let current_instruction = Operation::from(self.memory[self.program_counter]);
        let old_count = self.program_counter;
        if let Operation::Error(_) = current_instruction {
            return Err(RuntimeError::ErrUnknownOperation(self.memory[old_count]));
        }
        assert(current_instruction == spec_decode(pre.memory[pre.pc as int]));
        // Decode, advancing the program counter past the operands first so
        // that jumping instructions can overwrite it and so that a decode
        // error leaves it in its post-decode position.
        let argcount = current_instruction.operands() as usize;
        assert(old_count < self.memory@.len() && argcount <= 3);
        self.program_counter = old_count + 1 + argcount;
        let ghost adv = self@;
        proof {
            assert(adv =~= (VmState {
                pc: (pre.pc + 1 + spec_operand_count(current_instruction)) as nat,
                ..pre
            }));
        }
        let ghost spec_ops = spec_operands(pre);
        let mut operands: Vec<ParsedValue> = Vec::new();
        let mut x = old_count + 1;
        while x < old_count + 1 + argcount
            invariant
                pre == old(self)@,
                old_count + 1 <= x <= old_count + 1 + argcount,
                argcount <= 3,
                old_count < self.memory@.len(),
                self.memory@.len() + 3 <= usize::MAX,
                self@ == adv,
                adv == (VmState {
                    pc: (pre.pc + 1 + spec_operand_count(
                        spec_decode(pre.memory[pre.pc as int]),
                    )) as nat,
                    ..pre
                }),
                spec_decode(pre.memory[pre.pc as int]) !is Error,
                pre.memory == self.memory@,
                pre.pc == old_count,
                pre.registers.len() == 8,
                spec_ops == spec_operands(pre),
                spec_ops.len() == argcount,
                operands@ =~= spec_ops.take(x - (old_count + 1)),
                first_operand_error(spec_ops.take(x - (old_count + 1))) is None,
            decreases old_count + 1 + argcount - x,
        {
            let w = if x < self.memory.len() {
                self.memory[x]
            } else {
                0u16
            };
            let pv = ParsedValue::from(w);
            assert(pv == spec_ops[x - (old_count + 1)]);
            if let ParsedValue::Error(e) = pv {
                proof {
                    lemma_first_error_found(spec_ops, (x - (old_count + 1)) as int);
                }
                return Err(RuntimeError::ErrUnknownOperand(e));
            }
            operands.push(pv);
            proof {
                lemma_first_error_extend(spec_ops, (x - (old_count + 1)) as int);
                assert(spec_ops.take(x + 1 - (old_count + 1)) =~= spec_ops.take(
                    x - (old_count + 1),
                ).push(spec_ops[x - (old_count + 1)]));
            }
            x = x + 1;
        }
        proof {
            assert(spec_ops.take(argcount as int) =~= spec_ops);
        }
        // Execute, store.
        let mut to_print: Option<char> = None;
        match current_instruction {
            Operation::Halt => {
                self.program_counter = old_count;
                return Err(RuntimeError::ErrFinished);
            },
            Operation::SetReg => match operands[0] {
                ParsedValue::Literal(_) => {
                    return Err(RuntimeError::ErrRegisterExpected);
                },
                ParsedValue::Register(r) => {
                    let val_b = self.dereference_pre(Ghost(pre), &operands[1]);
                    self.registers[r as usize] = val_b;
                },
                ParsedValue::Error(e) => {
                    return Err(RuntimeError::ErrUnknownOperand(e));
                },
            },
            Operation::Push => {
                let val = self.dereference_pre(Ghost(pre), &operands[0]);
                self.stack.push(val as usize);
            },
            Operation::Pop => match operands[0] {
                ParsedValue::Register(r) => {
                    let popped = self.stack.pop();
                    if let Some(val) = popped {
                        self.registers[r as usize] = ((val as u64) & 0x7fff) as u16;
                    } else {
                        return Err(RuntimeError::ErrStackEmpty);
                    }
                },
                _ => {
                    return Err(RuntimeError::ErrRegisterExpected);
                },
            },
            Operation::Eq => {
                if let ParsedValue::Register(a) = operands[0] {
                    let b = self.dereference_pre(Ghost(pre), &operands[1]);
                    let c = self.dereference_pre(Ghost(pre), &operands[2]);
                    self.registers[a as usize] = if b == c {
                        1
                    } else {
                        0
                    };
                } else {
                    return Err(RuntimeError::ErrRegisterExpected);
                }
            },
            Operation::Gt => {
                if let ParsedValue::Register(a) = operands[0] {
                    let b = self.dereference_pre(Ghost(pre), &operands[1]);
                    let c = self.dereference_pre(Ghost(pre), &operands[2]);
                    self.registers[a as usize] = if b > c {
                        1
                    } else {
                        0
                    };
                } else {
                    return Err(RuntimeError::ErrRegisterExpected);
                }
            },
            Operation::Jmp => {
                let a = self.dereference_pre(Ghost(pre), &operands[0]);
                self.program_counter = a as usize;
            },
            Operation::Jt => {
                if self.dereference_pre(Ghost(pre), &operands[0]) != 0 {
                    let a = self.dereference_pre(Ghost(pre), &operands[1]);
                    self.program_counter = a as usize;
                }
            },
            Operation::Jf => {
                if self.dereference_pre(Ghost(pre), &operands[0]) == 0 {
                    let a = self.dereference_pre(Ghost(pre), &operands[1]);
                    self.program_counter = a as usize;
                }
            },
            Operation::Add => {
                if let ParsedValue::Register(a) = operands[0] {
                    let b = self.dereference_pre(Ghost(pre), &operands[1]);
                    let c = self.dereference_pre(Ghost(pre), &operands[2]);
                    let s: u32 = b as u32 + c as u32;
                    assert(s & 0x7FFF == s % 0x8000) by (bit_vector);
                    self.registers[a as usize] = (s & 0x7FFF) as u16;
                } else {
                    return Err(RuntimeError::ErrRegisterExpected);
                }
            },
            Operation::Mult => {
                if let ParsedValue::Register(a) = operands[0] {
                    let b = self.dereference_pre(Ghost(pre), &operands[1]);
                    let c = self.dereference_pre(Ghost(pre), &operands[2]);
                    proof {
                        assert((b as int) * (c as int) <= 0xFFFF * 0xFFFF) by (nonlinear_arith)
                            requires
                                0 <= b <= 0xFFFF,
                                0 <= c <= 0xFFFF,
                        ;
                    }
                    let s: u32 = b as u32 * c as u32;
                    assert(s & 0x7FFF == s % 0x8000) by (bit_vector);
                    self.registers[a as usize] = (s & 0x7FFF) as u16;
                } else {
                    return Err(RuntimeError::ErrRegisterExpected);
                }
            },
            Operation::Mod => {
                if let ParsedValue::Register(a) = operands[0] {
                    let b = self.dereference_pre(Ghost(pre), &operands[1]);
                    let c = self.dereference_pre(Ghost(pre), &operands[2]);
                    self.registers[a as usize] = if c == 0 {
                        0
                    } else {
                        b % c
                    };
                } else {
                    return Err(RuntimeError::ErrRegisterExpected);
                }
            },
            Operation::And => {
                if let ParsedValue::Register(a) = operands[0] {
                    let b = self.dereference_pre(Ghost(pre), &operands[1]);
                    let c = self.dereference_pre(Ghost(pre), &operands[2]);
                    self.registers[a as usize] = b & c;
                } else {
                    return Err(RuntimeError::ErrRegisterExpected);
                }
            },
            Operation::Or => {
                if let ParsedValue::Register(a) = operands[0] {
                    let b = self.dereference_pre(Ghost(pre), &operands[1]);
                    let c = self.dereference_pre(Ghost(pre), &operands[2]);
                    self.registers[a as usize] = b | c;
                } else {
                    return Err(RuntimeError::ErrRegisterExpected);
                }
            },
            Operation::Not => {
                if let ParsedValue::Register(a) = operands[0] {
                    let b = self.dereference_pre(Ghost(pre), &operands[1]);
                    self.registers[a as usize] = b ^ 0x7FFF;
                } else {
                    return Err(RuntimeError::ErrRegisterExpected);
                }
            },
            Operation::Rmem => {
                if let ParsedValue::Register(a) = operands[0] {
                    let b = self.dereference_pre(Ghost(pre), &operands[1]);
                    let val: u16 = if (b as usize) < self.memory.len() {
                        self.memory[b as usize]
                    } else {
                        0
                    };
                    self.registers[a as usize] = val;
                } else {
                    return Err(RuntimeError::ErrRegisterExpected);
                }
            },
            Operation::Wmem => {
                let a = self.dereference_pre(Ghost(pre), &operands[0]);
                let b = self.dereference_pre(Ghost(pre), &operands[1]);
                if (a as usize) < self.memory.len() {
                    self.memory[a as usize] = b;
                } else {
                    self.memory.resize(a as usize + 1, 0);
                    self.memory[a as usize] = b;
                    assert(self.memory@ =~= spec_write_mem(adv.memory, a, b));
                }
            },
            Operation::Call => {
                if let ParsedValue::Error(a) = operands[0] {
                    return Err(RuntimeError::ErrUnknownOperand(a));
                } else {
                    self.stack.push(self.program_counter);
                    let a = self.dereference_pre(Ghost(pre), &operands[0]);
                    self.program_counter = a as usize;
                }
            },
            Operation::Ret => {
                if let Some(target) = self.stack.pop() {
                    self.program_counter = target;
                } else {
                    return Err(RuntimeError::ErrStackEmpty);
                }
            },
            Operation::Out => {
                let v = self.dereference_pre(Ghost(pre), &operands[0]);
                let print_char: char = match char_from_u32(v as u32) {
                    Some(c) => c,
                    None => '\u{FFFD}',
                };
                proof {
                    if v < 0xD800 || v >= 0xE000 {
                        vstd::utf8::char_u32_cast(print_char, v as u32);
                    }
                }
                to_print = Some(print_char);
            },
            Operation::In => {
                match operands[0] {
                    ParsedValue::Register(r) => {
                        if let Some(ch) = self.input_buffer.pop() {
                            self.registers[r as usize] = ch;
                        } else {
                            // Stall: rewind so a retry re-executes `In`.
                            self.program_counter = old_count;
                            return Err(RuntimeError::ErrInputEmpty);
                        }
                    },
                    _ => {
                        return Err(RuntimeError::ErrRegisterExpected);
                    },
                }
            },
            Operation::Noop => (),
            Operation::Error(_) => {
                proof {
                    assert(false);
                }
            },
        }
        Ok((current_instruction, operands, to_print))
    }

    /// `dereference`, but stated against a snapshot of the state taken
    /// before this step began (registers are unchanged in between).
    fn dereference_pre(&self, Ghost(pre): Ghost<VmState>, val: &ParsedValue) -> (v: u16)
        requires
            self.wf(),
            pre.registers == self@.registers,
        ensures
            v == spec_deref(pre, *val),
    {
        self.dereference(val)
    }

    /// The current registers, stack depth and program counter (as a
    /// 16-bit word), copied out without side effects.
    pub fn register_snapshot(&self) -> (r: RegisterState)
        requires
            self.wf(),
        ensures
            r.registers@ =~= self@.registers,
            r.stack_depth == self@.stack.len(),
            r.program_counter == ((self@.pc as usize as u64) & 0xffff) as u16,
    {
        RegisterState {
            registers: [
                self.registers[0],
                self.registers[1],
                self.registers[2],
                self.registers[3],
                self.registers[4],
                self.registers[5],
                self.registers[6],
                self.registers[7],
            ],
            stack_depth: self.stack.len(),
            program_counter: ((self.program_counter as u64) & 0xffff) as u16,
        }
    }

    /// Rewrite the program counter, bypassing all instruction semantics.
    pub fn set_program_counter(&mut self, addr: u16)
        ensures
            final(self)@ == (VmState { pc: addr as nat, ..old(self)@ }),
            final(self).wf() == old(self).wf(),
    {
        self.program_counter = addr as usize;
    }

    /// Overwrite one register with the value's low 15 bits; register
    /// numbers above 7 are ignored.
    pub fn set_register(&mut self, reg: u8, value: u16)
        requires
            old(self).wf(),
        ensures
            final(self).wf(),
            reg <= 7 ==> final(self)@ == (VmState {
                registers: old(self)@.registers.update(reg as int, value & 0x7FFF),
                ..old(self)@
            }),
            reg > 7 ==> final(self)@ == old(self)@,
    {
        if reg <= 7 {
            self.registers[reg as usize] = value & 0x7FFF;
        }
    }

    /// Append staged input characters to the input buffer (the buffer is
    /// consumed last-first, so callers stage text reversed).
    pub fn extend_input(&mut self, staged: &[u16])
        ensures
            final(self)@ == (VmState { input: old(self)@.input + staged@, ..old(self)@ }),
            final(self).wf() == old(self).wf(),
    {
        let mut i: usize = 0;
        while i < staged.len()
            invariant
                i <= staged.len(),
                self.wf() == old(self).wf(),
                self@ == (VmState {
                    input: old(self)@.input + staged@.take(i as int),
                    ..old(self)@
                }),
            decreases staged.len() - i,
        {
            self.input_buffer.push(staged[i]);
            proof {
                assert(old(self)@.input + staged@.take(i + 1) =~= (old(self)@.input
                    + staged@.take(i as int)).push(staged@[i as int]));
            }
            i = i + 1;
        }
        proof {
            assert(staged@.take(staged@.len() as int) =~= staged@);
        }
    }

    /// The number of words in memory.
    pub fn memory_len(&self) -> (n: usize)
        ensures
            n == self@.memory.len(),
    {
        self.memory.len()
    }

    /// The word at a memory address (addresses past the end read as zero).
    pub fn read_memory(&self, addr: usize) -> (w: u16)
        ensures
            w == if addr < self@.memory.len() {
                self@.memory[addr as int]
            } else {
                0u16
            },
    {
        if addr < self.memory.len() {
            self.memory[addr]
        } else {
            0
        }
    }

    /// A copy of the whole memory, for the dumper and the disassembler.
    pub fn memory_copy(&self) -> (m: Vec<u16>)
        ensures
            m@ == self@.memory,
    {
        let mut out: Vec<u16> = Vec::new();
        let mut i: usize = 0;
        while i < self.memory.len()
            invariant
                i <= self.memory.len(),
                out@ =~= self@.memory.take(i as int),
            decreases self.memory.len() - i,
        {
            out.push(self.memory[i]);
            proof {
                assert(self@.memory.take(i + 1) =~= self@.memory.take(i as int).push(
                    self@.memory[i as int],
                ));
            }
            i = i + 1;
        }
        proof {
            assert(self@.memory.take(self@.memory.len() as int) =~= self@.memory);
        }
        out
    }
}

/// If the first `i` operands hold no error and operand `i` is one, it is
/// the first error.
proof fn lemma_first_error_found(ops: Seq<ParsedValue>, i: int)
    requires
        0 <= i < ops.len(),
        first_operand_error(ops.take(i)) is None,
        ops[i] is Error,
    ensures
        first_operand_error(ops) == Some(ops[i]->Error_0),
    decreases i,
{
    if i == 0 {
    } else {
        assert(ops.take(i).first() == ops.first());
        assert(ops.take(i).drop_first() =~= ops.drop_first().take(i - 1));
        lemma_first_error_found(ops.drop_first(), i - 1);
    }
}

/// Extending an error-free prefix by a non-error operand keeps it
/// error-free.
proof fn lemma_first_error_extend(ops: Seq<ParsedValue>, i: int)
    requires
        0 <= i < ops.len(),
        first_operand_error(ops.take(i)) is None,
        !(ops[i] is Error),
    ensures
        first_operand_error(ops.take(i + 1)) is None,
    decreases i,
{
    if i == 0 {
        assert(ops.take(1).first() == ops[0]);
        assert(ops.take(1).drop_first() =~= ops.take(0));
    } else {
        assert(ops.take(i).first() == ops.first());
        assert(ops.take(i + 1).first() == ops.first());
        assert(ops.take(i).drop_first() =~= ops.drop_first().take(i - 1));
        assert(ops.take(i + 1).drop_first() =~= ops.drop_first().take(i));
        lemma_first_error_extend(ops.drop_first(), i - 1);
    }
}

/// Every register holds at most 0x7FFF.
pub open spec fn regs_bounded(s: VmState) -> bool {
    forall|i: int| 0 <= i < s.registers.len() ==> s.registers[i] <= 0x7FFF
}

/// Every memory word is at most 0x7FFF.
pub open spec fn mem_bounded(s: VmState) -> bool {
    forall|i: int| 0 <= i < s.memory.len() ==> s.memory[i] <= 0x7FFF
}

/// Every staged input word is at most 0x7FFF.
pub open spec fn input_bounded(s: VmState) -> bool {
    forall|i: int| 0 <= i < s.input.len() ==> s.input[i] <= 0x7FFF
}

/// Dereferencing yields at most 0x7FFF when the registers are bounded and
/// the operand came out of `spec_parse_value`.
proof fn lemma_deref_bounded(s: VmState, pv: ParsedValue)
    requires
        s.registers.len() == 8,
        regs_bounded(s),
        pv matches ParsedValue::Literal(x) ==> x <= 0x7FFF,
    ensures
        spec_deref(s, pv) <= 0x7FFF,
{
    match pv {
        ParsedValue::Literal(x) => {},
        ParsedValue::Register(r) => {},
        ParsedValue::Error(e) => {
            assert(e & 0x7FFF <= 0x7FFF) by (bit_vector);
        },
    }
}

/// Register boundedness is an invariant of the step: for all eight
/// registers, at every time, the stored value is at most 0x7FFF, provided
/// memory and staged input are likewise bounded.  A memory word above
/// 0x7FFF read by `Rmem` is the one way a register could exceed the
/// bound: `Rmem` copies the raw word, which is also what lets `Out` meet
/// a surrogate value and emit the replacement character.
/// Memory and input boundedness are preserved along with it.
pub proof fn lemma_registers_bounded(pre: VmState)
    requires
        pre.registers.len() == 8,
        step_fits(pre),
        regs_bounded(pre),
        mem_bounded(pre),
        input_bounded(pre),
    ensures
        regs_bounded(spec_step(pre).state),
        mem_bounded(spec_step(pre).state),
        input_bounded(spec_step(pre).state),
        spec_step(pre).state.registers.len() == 8,
{
    let w = pre.memory[pre.pc as int];
    let op = spec_decode(w);
    if !(op is Error) {
        let ops = spec_operands(pre);
        let adv = VmState { pc: (pre.pc + 1 + spec_operand_count(op)) as nat, ..pre };
        if first_operand_error(ops) is None {
            assert forall|i: int| 0 <= i < ops.len() implies spec_deref(pre, ops[i])
                <= 0x7FFF by {
                assert(ops[i] == spec_parse_value(
                    if pre.pc + 1 + i < pre.memory.len() {
                        pre.memory[pre.pc + 1 + i]
                    } else {
                        0u16
                    },
                ));
                lemma_deref_bounded(pre, ops[i]);
            }
            match op {
                Operation::Pop => {
                    if ops[0] is Register && pre.stack.len() > 0 {
                        let v = adv.stack.last() as u64;
                        assert((v & 0x7fff) <= 0x7FFF) by (bit_vector);
                    }
                },
                Operation::And => {
                    if ops[0] is Register {
                        let b = spec_deref(pre, ops[1]);
                        let c = spec_deref(pre, ops[2]);
                        assert(b <= 0x7FFF ==> (b & c) <= 0x7FFF) by (bit_vector);
                    }
                },
                Operation::Or => {
                    if ops[0] is Register {
                        let b = spec_deref(pre, ops[1]);
                        let c = spec_deref(pre, ops[2]);
                        assert(b <= 0x7FFF && c <= 0x7FFF ==> (b | c) <= 0x7FFF) by (bit_vector);
                    }
                },
                Operation::Not => {
                    if ops[0] is Register {
                        let b = spec_deref(pre, ops[1]);
                        assert(b <= 0x7FFF ==> (b ^ 0x7FFF) <= 0x7FFF) by (bit_vector);
                    }
                },
                _ => {},
            }
        }
    }
}

/// The program counter after a successful step: one past the operands,
/// unless the opcode is a jump that took its documented destination.
pub proof fn lemma_pc_after_step(pre: VmState)
    requires
        pre.registers.len() == 8,
        step_fits(pre),
    ensures
        spec_step(pre).result matches Ok((op, ops, _)) ==> {
            let post = spec_step(pre).state;
            let linear = pre.pc + 1 + spec_operand_count(op);
            &&& op is Jmp ==> post.pc == spec_deref(pre, ops[0])
            &&& op is Jt ==> post.pc == if spec_deref(pre, ops[0]) != 0 {
                spec_deref(pre, ops[1]) as nat
            } else {
                linear as nat
            }
            &&& op is Jf ==> post.pc == if spec_deref(pre, ops[0]) == 0 {
                spec_deref(pre, ops[1]) as nat
            } else {
                linear as nat
            }
            &&& op is Call ==> post.pc == spec_deref(pre, ops[0])
                && post.stack == pre.stack.push(linear as usize)
            &&& op is Ret ==> post.pc == pre.stack.last() && post.stack == pre.stack.drop_last()
            &&& (!(op is Jmp) && !(op is Jt) && !(op is Jf) && !(op is Call) && !(op is Ret))
                ==> post.pc == linear
        },
{
}

/// A write past the end of memory extends it with zeros to exactly one
/// word beyond the target address and stores the value there; a write in
/// range updates in place.  The words below the old length are kept.
pub proof fn lemma_wmem_extends(memory: Seq<u16>, addr: u16, value: u16)
    ensures
        spec_write_mem(memory, addr, value).len() == if addr < memory.len() {
            memory.len()
        } else {
            (addr + 1) as nat
        },
        spec_write_mem(memory, addr, value)[addr as int] == value,
        forall|i: int| 0 <= i < memory.len() && i != addr
            ==> spec_write_mem(memory, addr, value)[i] == memory[i],
        forall|i: int| memory.len() <= i < addr ==> spec_write_mem(memory, addr, value)[i] == 0u16,
{
}

/// The human-readable message of a runtime error.
pub open spec fn spec_error_message(e: RuntimeError) -> Seq<char> {
    match e {
        RuntimeError::ErrFinished => "Program already finished."@,
        RuntimeError::ErrUnknownOperation(x) => "Unknown operation with opcode "@
            + crate::render::spec_hex(x as nat) + "."@,
        RuntimeError::ErrUnknownOperand(x) => "Unknown operand with value "@
            + crate::render::spec_hex(x as nat) + "."@,
        RuntimeError::ErrRegisterExpected => "Expected a register, got a literal value."@,
        RuntimeError::ErrStackEmpty => "POP instruction executed with empty stack."@,
        RuntimeError::ErrInputEmpty => "IN instruction executed while input buffer was empty."@,
    }
}

impl RuntimeError {
    /// The human-readable message of this error.
    pub fn message(&self) -> (s: String)
        ensures
            s@ == spec_error_message(*self),
    {
        match self {
            RuntimeError::ErrFinished => "Program already finished.".to_owned(),
            RuntimeError::ErrUnknownOperation(x) => {
                let mut s = String::new();
                s.append("Unknown operation with opcode ");
                crate::render::push_hex(&mut s, *x as u64);
                s.append(".");
                assert(s@ =~= spec_error_message(*self));
                s
            },
            RuntimeError::ErrUnknownOperand(x) => {
                let mut s = String::new();
                s.append("Unknown operand with value ");
                crate::render::push_hex(&mut s, *x as u64);
                s.append(".");
                assert(s@ =~= spec_error_message(*self));
                s
            },
            RuntimeError::ErrRegisterExpected => "Expected a register, got a literal value."
                .to_owned(),
            RuntimeError::ErrStackEmpty => "POP instruction executed with empty stack.".to_owned(),
            RuntimeError::ErrInputEmpty => "IN instruction executed while input buffer was empty."
                .to_owned(),
        }
    }
}

/// A successful `Wmem` step writes memory exactly as `spec_write_mem`
/// says: together with `lemma_wmem_extends`, a write past the end of
/// memory extends it with zeros to exactly `addr + 1` words.
pub proof fn lemma_wmem_step(pre: VmState)
    requires
        pre.registers.len() == 8,
        step_fits(pre),
        spec_decode(pre.memory[pre.pc as int]) is Wmem,
    ensures
        spec_step(pre).result is Ok ==> spec_step(pre).state.memory == spec_write_mem(
            pre.memory,
            spec_deref(pre, spec_operands(pre)[0]),
            spec_deref(pre, spec_operands(pre)[1]),
        ),
{
}

impl VirtualMachine {
    /// The current program counter as a memory index.
    pub fn current_address(&self) -> (pc: usize)
        ensures
            pc == self@.pc,
    {
        self.program_counter
    }
}

} // verus!
