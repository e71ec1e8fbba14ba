//! The instruction tracer: the header line written when tracing starts,
//! and the one line appended for every executed instruction, with operand
//! values resolved against the pre-execute register snapshot.

use vstd::prelude::*;

use crate::instruction::{Operation, ParsedValue};
use crate::interface::RegisterState;
use crate::render::{
    push_dec, push_hex4, render_instruction, spec_dec, spec_hex4, spec_render_instruction,
};

verus! {

/// The header written when a trace file is opened.
pub open spec fn spec_trace_header(pc: u16) -> Seq<char> {
    "Starting trace from address "@ + spec_hex4(pc) + "\n"@
}

/// Build the trace header for the given program counter.
pub fn trace_header(pc: u16) -> (s: String)
    ensures
        s@ == spec_trace_header(pc),
{
    let mut s = String::new();
    s.append("Starting trace from address ");
    push_hex4(&mut s, pc);
    s.append("\n");
    assert(s@ =~= spec_trace_header(pc));
    s
}

/// One resolved operand in a trace line: a literal as "<hhhh>  ", a
/// register as "R<n>:<value> " (its snapshotted value in hex), an error
/// operand as "? hhhh ?".
pub open spec fn spec_trace_operand(pv: ParsedValue, regs: Seq<u16>) -> Seq<char> {
    match pv {
        ParsedValue::Literal(v) => seq!['<'] + spec_hex4(v) + seq!['>', ' ', ' '],
        ParsedValue::Register(r) => seq!['R'] + spec_dec(r as nat) + seq![':'] + spec_hex4(
            if r < 8 {
                regs[r as int]
            } else {
                0u16
            },
        ) + seq![' '],
        ParsedValue::Error(e) => seq!['?', ' '] + spec_hex4(e) + seq![' ', '?'],
    }
}

/// The resolved-value tail of a trace line: each operand in order.
pub open spec fn spec_trace_operands(ops: Seq<ParsedValue>, regs: Seq<u16>) -> Seq<char>
    decreases ops.len(),
{
    if ops.len() == 0 {
        Seq::empty()
    } else {
        spec_trace_operands(ops.drop_last(), regs) + spec_trace_operand(ops.last(), regs)
    }
}

/// Four spaces for every operand slot (of four) the instruction leaves
/// unused, so the resolved values line up.
pub open spec fn spec_trace_padding(used: nat) -> Seq<char> {
    if used == 0 {
        "                "@
    } else if used == 1 {
        "            "@
    } else if used == 2 {
        "        "@
    } else if used == 3 {
        "    "@
    } else {
        Seq::empty()
    }
}

/// A full trace line: the snapshot program counter, the instruction text,
/// padding, a tab, then each operand's resolved value, and a newline.
pub open spec fn spec_trace_line(
    pc: u16,
    op: Operation,
    ops: Seq<ParsedValue>,
    regs: Seq<u16>,
) -> Seq<char> {
    spec_hex4(pc) + seq![':'] + spec_render_instruction(op, ops) + spec_trace_padding(ops.len())
        + seq!['\t'] + spec_trace_operands(ops, regs) + "\n"@
}

/// Append one operand's resolved value.
fn push_trace_operand(out: &mut String, pv: &ParsedValue, regs: &RegisterState)
    ensures
        final(out)@ == old(out)@ + spec_trace_operand(*pv, regs.registers@),
{
    match pv {
        ParsedValue::Literal(v) => {
            out.append("<");
            push_hex4(out, *v);
            out.append(">  ");
            proof {
                reveal_strlit("<");
                reveal_strlit(">  ");
                assert("<"@ =~= seq!['<']);
                assert(">  "@ =~= seq!['>', ' ', ' ']);
                assert(final(out)@ =~= old(out)@ + spec_trace_operand(*pv, regs.registers@));
            }
        },
        ParsedValue::Register(r) => {
            out.append("R");
            push_dec(out, *r as u64);
            out.append(":");
            let value = if *r < 8 {
                regs.registers[*r as usize]
            } else {
                0
            };
            push_hex4(out, value);
            out.append(" ");
            proof {
                reveal_strlit("R");
                reveal_strlit(":");
                reveal_strlit(" ");
                assert("R"@ =~= seq!['R']);
                assert(":"@ =~= seq![':']);
                assert(" "@ =~= seq![' ']);
                assert(final(out)@ =~= old(out)@ + spec_trace_operand(*pv, regs.registers@));
            }
        },
        ParsedValue::Error(e) => {
            out.append("? ");
            push_hex4(out, *e);
            out.append(" ?");
            proof {
                reveal_strlit("? ");
                reveal_strlit(" ?");
                assert("? "@ =~= seq!['?', ' ']);
                assert(" ?"@ =~= seq![' ', '?']);
                assert(final(out)@ =~= old(out)@ + spec_trace_operand(*pv, regs.registers@));
            }
        },
    }
}

/// Build the trace line for one executed instruction.
pub fn trace_line(
    pc: u16,
    op: &Operation,
    operands: &Vec<ParsedValue>,
    regs: &RegisterState,
) -> (s: String)
    ensures
        s@ == spec_trace_line(pc, *op, operands@, regs.registers@),
{
    let mut s = String::new();
    push_hex4(&mut s, pc);
    s.append(":");
    let body = render_instruction(op, operands);
    s.append(body.as_str());
    if operands.len() == 0 {
        s.append("                ");
    } else if operands.len() == 1 {
        s.append("            ");
    } else if operands.len() == 2 {
        s.append("        ");
    } else if operands.len() == 3 {
        s.append("    ");
    }
    s.append("\t");
    let ghost head = spec_hex4(pc) + seq![':'] + spec_render_instruction(*op, operands@)
        + spec_trace_padding(operands@.len()) + seq!['\t'];
    proof {
        reveal_strlit(":");
        reveal_strlit("\t");
        assert(":"@ =~= seq![':']);
        assert("\t"@ =~= seq!['\t']);
        assert(s@ =~= head);
    }
    let mut i: usize = 0;
    while i < operands.len()
        invariant
            i <= operands.len(),
            head == spec_hex4(pc) + seq![':'] + spec_render_instruction(*op, operands@)
                + spec_trace_padding(operands@.len()) + seq!['\t'],
            s@ == head + spec_trace_operands(operands@.take(i as int), regs.registers@),
        decreases operands.len() - i,
    {
        push_trace_operand(&mut s, &operands[i], regs);
        proof {
            assert(operands@.take(i + 1 as int).drop_last() =~= operands@.take(i as int));
            assert(operands@.take(i + 1 as int).last() == operands@[i as int]);
            assert(s@ =~= head + spec_trace_operands(operands@.take(i + 1 as int),
                regs.registers@));
        }
        i = i + 1;
    }
    s.append("\n");
    proof {
        assert(operands@.take(operands@.len() as int) =~= operands@);
        assert(s@ =~= spec_trace_line(pc, *op, operands@, regs.registers@));
    }
    s
}

/// The kind letter and watched address of an instruction the jump tracker
/// records: jumps, possible jumps, loads, stores, calls and returns; any
/// other opcode produces no record.
pub open spec fn spec_track_target(op: Operation, ops: Seq<ParsedValue>) -> Option<(char, u16)> {
    match op {
        Operation::Jmp => Some(('J', spec_operand_word(ops[0]))),
        Operation::Jf => match ops[0] {
            // Taken when the value is zero; a register may hold zero.
            ParsedValue::Literal(v) => if v == 0 {
                Some(('S', spec_operand_word(ops[1])))
            } else {
                None
            },
            ParsedValue::Register(_) => Some(('S', spec_operand_word(ops[1]))),
            ParsedValue::Error(_) => None,
        },
        Operation::Jt => match ops[0] {
            ParsedValue::Literal(v) => if v == 0 {
                None
            } else {
                Some(('S', spec_operand_word(ops[1])))
            },
            ParsedValue::Register(_) => Some(('S', spec_operand_word(ops[1]))),
            ParsedValue::Error(_) => None,
        },
        Operation::Rmem => Some(('L', spec_operand_word(ops[1]))),
        Operation::Wmem => Some(('S', spec_operand_word(ops[0]))),
        Operation::Call => Some(('C', spec_operand_word(ops[0]))),
        // The return address sits on the stack; it cannot be named here.
        Operation::Ret => Some(('R', 0x7fffu16)),
        _ => None,
    }
}

/// The raw word an operand was decoded from: a register reference gets
/// its 0x8000-based encoding back, so that resolving it against the
/// snapshot finds the register again.
pub open spec fn spec_operand_word(pv: ParsedValue) -> u16 {
    match pv {
        ParsedValue::Literal(v) => v,
        ParsedValue::Register(r) => if r <= 0x7FFF {
            (32768 + r) as u16
        } else {
            r
        },
        ParsedValue::Error(e) => e,
    }
}

/// The tracked address once resolved: a register number is replaced by
/// that register's snapshotted value.
pub open spec fn spec_resolve_tracked(w: u16, regs: Seq<u16>) -> u16 {
    match crate::instruction::spec_parse_value(w) {
        ParsedValue::Literal(x) => x,
        ParsedValue::Register(r) => if r < 8 {
            regs[r as int]
        } else {
            0u16
        },
        ParsedValue::Error(x) => x,
    }
}

/// The jump tracker's record for one executed instruction, if it records
/// one: "<kind> <pc> <resolved address>".
pub open spec fn spec_tracked_line(
    pc: u16,
    op: Operation,
    ops: Seq<ParsedValue>,
    regs: Seq<u16>,
) -> Option<Seq<char>> {
    match spec_track_target(op, ops) {
        Option::None => None,
        Option::Some(ta) => Some(
            seq![ta.0] + seq![' '] + spec_hex4(pc) + seq![' '] + spec_hex4(
                spec_resolve_tracked(ta.1, regs),
            ),
        ),
    }
}

/// Build the jump tracker's record for one executed instruction, if the
/// opcode is one of the tracked kinds and its operands are present.
pub fn tracked_instruction(
    pc: u16,
    op: &Operation,
    operands: &Vec<ParsedValue>,
    regs: &RegisterState,
) -> (r: Option<String>)
    requires
        operands@.len() >= crate::instruction::spec_operand_count(*op),
    ensures
        step_result_tracked(r, pc, *op, operands@, regs.registers@),
{
    let target: Option<(char, u16)> = match op {
        Operation::Jmp => Some(('J', operand_word(&operands[0]))),
        Operation::Jf => match &operands[0] {
            ParsedValue::Literal(v) => if *v == 0 {
                Some(('S', operand_word(&operands[1])))
            } else {
                None
            },
            ParsedValue::Register(_) => Some(('S', operand_word(&operands[1]))),
            ParsedValue::Error(_) => None,
        },
        Operation::Jt => match &operands[0] {
            ParsedValue::Literal(v) => if *v == 0 {
                None
            } else {
                Some(('S', operand_word(&operands[1])))
            },
            ParsedValue::Register(_) => Some(('S', operand_word(&operands[1]))),
            ParsedValue::Error(_) => None,
        },
        Operation::Rmem => Some(('L', operand_word(&operands[1]))),
        Operation::Wmem => Some(('S', operand_word(&operands[0]))),
        Operation::Call => Some(('C', operand_word(&operands[0]))),
        Operation::Ret => Some(('R', 0x7fff)),
        _ => None,
    };
    match target {
        Some((kind, word)) => {
            let resolved = match crate::instruction::ParsedValue::from(word) {
                ParsedValue::Literal(x) => x,
                ParsedValue::Register(r) => if r < 8 {
                    regs.registers[r as usize]
                } else {
                    0
                },
                ParsedValue::Error(x) => x,
            };
            let mut s = String::new();
            crate::dump::push_char(&mut s, kind);
            s.append(" ");
            push_hex4(&mut s, pc);
            s.append(" ");
            push_hex4(&mut s, resolved);
            proof {
                reveal_strlit(" ");
                assert(" "@ =~= seq![' ']);
                assert(s@ =~= spec_tracked_line(pc, *op, operands@, regs.registers@).unwrap());
            }
            Some(s)
        },
        None => None,
    }
}

/// Relates `tracked_instruction`'s result to its specification.
pub open spec fn step_result_tracked(
    r: Option<String>,
    pc: u16,
    op: Operation,
    ops: Seq<ParsedValue>,
    regs: Seq<u16>,
) -> bool {
    match spec_tracked_line(pc, op, ops, regs) {
        Option::None => r is None,
        Option::Some(text) => r matches Some(s) && s@ == text,
    }
}

/// The raw word an operand was decoded from.
fn operand_word(pv: &ParsedValue) -> (w: u16)
    ensures
        w == spec_operand_word(*pv),
{
    match pv {
        ParsedValue::Literal(v) => *v,
        ParsedValue::Register(r) => if *r <= 0x7FFF {
            32768 + *r
        } else {
            *r
        },
        ParsedValue::Error(e) => *e,
    }
}

} // verus!
