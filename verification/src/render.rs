//! Text rendering shared by the tracer, the memory dumper and the
//! disassembly listing: lowercase/uppercase hex words, decimal numbers,
//! the fixed four-character mnemonics, and operand rendering.

use vstd::prelude::*;

use crate::instruction::{Operation, ParsedValue};

verus! {

/// The lowercase hex digit for a nibble (values 16 and above give '?',
/// which no caller reaches).
pub open spec fn spec_hex_digit(n: u16) -> char {
    if n == 0 {
        '0'
    } else if n == 1 {
        '1'
    } else if n == 2 {
        '2'
    } else if n == 3 {
        '3'
    } else if n == 4 {
        '4'
    } else if n == 5 {
        '5'
    } else if n == 6 {
        '6'
    } else if n == 7 {
        '7'
    } else if n == 8 {
        '8'
    } else if n == 9 {
        '9'
    } else if n == 10 {
        'a'
    } else if n == 11 {
        'b'
    } else if n == 12 {
        'c'
    } else if n == 13 {
        'd'
    } else if n == 14 {
        'e'
    } else if n == 15 {
        'f'
    } else {
        '?'
    }
}

/// The uppercase hex digit for a nibble.
pub open spec fn spec_hex_digit_upper(n: u16) -> char {
    if n == 10 {
        'A'
    } else if n == 11 {
        'B'
    } else if n == 12 {
        'C'
    } else if n == 13 {
        'D'
    } else if n == 14 {
        'E'
    } else if n == 15 {
        'F'
    } else {
        spec_hex_digit(n)
    }
}

/// A word as exactly four lowercase hex digits, most significant first.
pub open spec fn spec_hex4(v: u16) -> Seq<char> {
    seq![
        spec_hex_digit((v / 0x1000) % 16),
        spec_hex_digit((v / 0x100) % 16),
        spec_hex_digit((v / 0x10) % 16),
        spec_hex_digit(v % 16),
    ]
}

/// A word as exactly four uppercase hex digits, most significant first.
pub open spec fn spec_hex4_upper(v: u16) -> Seq<char> {
    seq![
        spec_hex_digit_upper((v / 0x1000) % 16),
        spec_hex_digit_upper((v / 0x100) % 16),
        spec_hex_digit_upper((v / 0x10) % 16),
        spec_hex_digit_upper(v % 16),
    ]
}

/// A number in decimal, no leading zeros (a single '0' for zero).
pub open spec fn spec_dec(v: nat) -> Seq<char>
    decreases v,
{
    if v < 10 {
        seq![spec_hex_digit(v as u16)]
    } else {
        spec_dec(v / 10).push(spec_hex_digit((v % 10) as u16))
    }
}

/// A number in lowercase hex, no leading zeros (a single '0' for zero).
pub open spec fn spec_hex(v: nat) -> Seq<char>
    decreases v,
{
    if v < 16 {
        seq![spec_hex_digit(v as u16)]
    } else {
        spec_hex(v / 16).push(spec_hex_digit((v % 16) as u16))
    }
}

/// Append a number in lowercase hex without padding.
pub fn push_hex(out: &mut String, v: u64)
    ensures
        final(out)@ == old(out)@ + spec_hex(v as nat),
    decreases v,
{
    if v < 16 {
        out.append(hex_digit_str(v as u16));
    } else {
        push_hex(out, v / 16);
        out.append(hex_digit_str((v % 16) as u16));
        assert(final(out)@ =~= old(out)@ + spec_hex(v as nat));
    }
}

/// The fixed four-character mnemonic of an opcode ("!?!?" for `Error`).
pub open spec fn spec_mnemonic(op: Operation) -> Seq<char> {
    match op {
        Operation::Halt => "HALT"@,
        Operation::SetReg => "SET "@,
        Operation::Push => "PUSH"@,
        Operation::Pop => "POP "@,
        Operation::Eq => "EQ  "@,
        Operation::Gt => "GT  "@,
        Operation::Jmp => "JMP "@,
        Operation::Jt => "JT  "@,
        Operation::Jf => "JF  "@,
        Operation::Add => "ADD "@,
        Operation::Mult => "MULT"@,
        Operation::Mod => "MOD "@,
        Operation::And => "AND "@,
        Operation::Or => "OR  "@,
        Operation::Not => "NOT "@,
        Operation::Rmem => "RMEM"@,
        Operation::Wmem => "WMEM"@,
        Operation::Call => "CALL"@,
        Operation::Ret => "RET "@,
        Operation::Out => "OUT "@,
        Operation::In => "IN  "@,
        Operation::Noop => "NOOP"@,
        Operation::Error(_) => "!?!?"@,
    }
}

/// An operand rendered for step records and listings: a literal as four
/// hex digits, a register as "  R<n>", an error as "E(<decimal>)".
pub open spec fn spec_render_value(pv: ParsedValue) -> Seq<char> {
    match pv {
        ParsedValue::Literal(v) => spec_hex4(v),
        ParsedValue::Register(r) => seq![' ', ' ', 'R'] + spec_dec(r as nat),
        ParsedValue::Error(e) => seq!['E', '('] + spec_dec(e as nat) + seq![')'],
    }
}

/// The lowercase hex digit of a nibble, as a one-character string slice.
pub fn hex_digit_str(n: u16) -> (s: &'static str)
    requires
        n < 16,
    ensures
        s@ =~= seq![spec_hex_digit(n)],
{
    proof {
        reveal_strlit("0");
        reveal_strlit("1");
        reveal_strlit("2");
        reveal_strlit("3");
        reveal_strlit("4");
        reveal_strlit("5");
        reveal_strlit("6");
        reveal_strlit("7");
        reveal_strlit("8");
        reveal_strlit("9");
        reveal_strlit("a");
        reveal_strlit("b");
        reveal_strlit("c");
        reveal_strlit("d");
        reveal_strlit("e");
        reveal_strlit("f");
    }
    match n {
        0 => "0",
        1 => "1",
        2 => "2",
        3 => "3",
        4 => "4",
        5 => "5",
        6 => "6",
        7 => "7",
        8 => "8",
        9 => "9",
        10 => "a",
        11 => "b",
        12 => "c",
        13 => "d",
        14 => "e",
        _ => "f",
    }
}

/// The uppercase hex digit of a nibble, as a one-character string slice.
pub fn hex_digit_upper_str(n: u16) -> (s: &'static str)
    requires
        n < 16,
    ensures
        s@ =~= seq![spec_hex_digit_upper(n)],
{
    proof {
        reveal_strlit("A");
        reveal_strlit("B");
        reveal_strlit("C");
        reveal_strlit("D");
        reveal_strlit("E");
        reveal_strlit("F");
    }
    match n {
        10 => "A",
        11 => "B",
        12 => "C",
        13 => "D",
        14 => "E",
        15 => "F",
        _ => hex_digit_str(n),
    }
}

/// Append a word as four lowercase hex digits.
pub fn push_hex4(out: &mut String, v: u16)
    ensures
        final(out)@ == old(out)@ + spec_hex4(v),
{
    out.append(hex_digit_str((v / 0x1000) % 16));
    out.append(hex_digit_str((v / 0x100) % 16));
    out.append(hex_digit_str((v / 0x10) % 16));
    out.append(hex_digit_str(v % 16));
    assert(final(out)@ =~= old(out)@ + spec_hex4(v));
}

/// Append a word as four uppercase hex digits.
pub fn push_hex4_upper(out: &mut String, v: u16)
    ensures
        final(out)@ == old(out)@ + spec_hex4_upper(v),
{
    out.append(hex_digit_upper_str((v / 0x1000) % 16));
    out.append(hex_digit_upper_str((v / 0x100) % 16));
    out.append(hex_digit_upper_str((v / 0x10) % 16));
    out.append(hex_digit_upper_str(v % 16));
    assert(final(out)@ =~= old(out)@ + spec_hex4_upper(v));
}

/// Append a number in decimal.
pub fn push_dec(out: &mut String, v: u64)
    ensures
        final(out)@ == old(out)@ + spec_dec(v as nat),
    decreases v,
{
    if v < 10 {
        out.append(hex_digit_str(v as u16));
    } else {
        push_dec(out, v / 10);
        out.append(hex_digit_str((v % 10) as u16));
        assert(final(out)@ =~= old(out)@ + spec_dec(v as nat));
    }
}

/// The fixed four-character mnemonic of an opcode.
pub fn mnemonic_str(op: &Operation) -> (s: &'static str)
    ensures
        s@ == spec_mnemonic(*op),
{
    match op {
        Operation::Halt => "HALT",
        Operation::SetReg => "SET ",
        Operation::Push => "PUSH",
        Operation::Pop => "POP ",
        Operation::Eq => "EQ  ",
        Operation::Gt => "GT  ",
        Operation::Jmp => "JMP ",
        Operation::Jt => "JT  ",
        Operation::Jf => "JF  ",
        Operation::Add => "ADD ",
        Operation::Mult => "MULT",
        Operation::Mod => "MOD ",
        Operation::And => "AND ",
        Operation::Or => "OR  ",
        Operation::Not => "NOT ",
        Operation::Rmem => "RMEM",
        Operation::Wmem => "WMEM",
        Operation::Call => "CALL",
        Operation::Ret => "RET ",
        Operation::Out => "OUT ",
        Operation::In => "IN  ",
        Operation::Noop => "NOOP",
        Operation::Error(_) => "!?!?",
    }
}

/// Append an operand rendered as in `spec_render_value`.
pub fn push_value(out: &mut String, pv: &ParsedValue)
    ensures
        final(out)@ == old(out)@ + spec_render_value(*pv),
{
    match pv {
        ParsedValue::Literal(v) => {
            push_hex4(out, *v);
        },
        ParsedValue::Register(r) => {
            out.append("  R");
            push_dec(out, *r as u64);
            proof {
                reveal_strlit("  R");
                assert("  R"@ =~= seq![' ', ' ', 'R']);
                assert(final(out)@ =~= old(out)@ + spec_render_value(*pv));
            }
        },
        ParsedValue::Error(e) => {
            out.append("E(");
            push_dec(out, *e as u64);
            out.append(")");
            proof {
                reveal_strlit("E(");
                reveal_strlit(")");
                assert("E("@ =~= seq!['E', '(']);
                assert(")"@ =~= seq![')']);
                assert(final(out)@ =~= old(out)@ + spec_render_value(*pv));
            }
        },
    }
}

/// The instruction text of a step record: the mnemonic, then each operand
/// prefixed by one space.
pub open spec fn spec_render_instruction(op: Operation, operands: Seq<ParsedValue>) -> Seq<char>
    decreases operands.len(),
{
    if operands.len() == 0 {
        spec_mnemonic(op)
    } else {
        spec_render_instruction(op, operands.drop_last()) + seq![' ']
            + spec_render_value(operands.last())
    }
}

/// Render an executed instruction for step records: mnemonic plus operands.
pub fn render_instruction(op: &Operation, operands: &Vec<ParsedValue>) -> (s: String)
    ensures
        s@ == spec_render_instruction(*op, operands@),
{
    let mut out = String::new();
    out.append(mnemonic_str(op));
    let mut i: usize = 0;
    while i < operands.len()
        invariant
            i <= operands.len(),
            out@ == spec_render_instruction(*op, operands@.take(i as int)),
        decreases operands.len() - i,
    {
        out.append(" ");
        push_value(&mut out, &operands[i]);
        proof {
            reveal_strlit(" ");
            assert(" "@ =~= seq![' ']);
            assert(operands@.take(i + 1 as int).drop_last() =~= operands@.take(i as int));
            assert(operands@.take(i + 1 as int).last() == operands@[i as int]);
        }
        i = i + 1;
    }
    proof {
        assert(operands@.take(operands@.len() as int) =~= operands@);
    }
    out
}

} // verus!
