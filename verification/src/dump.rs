//! The memory dumper: a static listing of the current word array, walked
//! with the interpreter's decoder.  A word that decodes to an opcode is
//! shown with its operands and an ASCII gloss; any other word becomes a
//! raw data line.  Every memory word belongs to exactly one line.

use vstd::prelude::*;

use crate::instruction::{spec_decode, spec_operand_count, spec_parse_value, Operation, ParsedValue};
use crate::render::{
    mnemonic_str, push_dec, push_hex4_upper, spec_dec, spec_hex4_upper, spec_mnemonic,
};

verus! {

/// Relies on String::push: appends exactly one character.
#[verifier::external_body]
pub fn push_char(out: &mut String, c: char)
    ensures
        final(out)@ == old(out)@.push(c),
{
    out.push(c);
}

/// Whether a byte is an ASCII letter or digit.
pub open spec fn is_alnum(b: u8) -> bool {
    (0x30 <= b <= 0x39) || (0x41 <= b <= 0x5A) || (0x61 <= b <= 0x7A)
}

/// Whether a byte is printable ASCII (not a control character).
pub open spec fn is_printable(b: u8) -> bool {
    0x20 <= b <= 0x7E
}

/// The two gloss characters of one word: its low then high byte, each
/// shown as itself when alphanumeric and as a space otherwise.
pub open spec fn spec_word_gloss(w: u16) -> Seq<char> {
    seq![
        if is_alnum((w % 256) as u8) {
            (w % 256) as u8 as char
        } else {
            ' '
        },
        if is_alnum((w / 256) as u8) {
            (w / 256) as u8 as char
        } else {
            ' '
        },
    ]
}

/// The gloss of the `n` words starting at `from`.
pub open spec fn spec_gloss(mem: Seq<u16>, from: int, n: int) -> Seq<char>
    decreases n,
{
    if n <= 0 {
        Seq::empty()
    } else {
        spec_word_gloss(mem[from]) + spec_gloss(mem, from + 1, n - 1)
    }
}

/// A gloss padded with spaces to at least eight characters.
pub open spec fn spec_pad_gloss(s: Seq<char>) -> Seq<char> {
    if s.len() == 0 {
        s + "        "@
    } else if s.len() == 2 {
        s + "      "@
    } else if s.len() == 4 {
        s + "    "@
    } else if s.len() == 6 {
        s + "  "@
    } else {
        s
    }
}

/// One operand in an instruction line: a literal as uppercase hex, a
/// register as "REG<n>", an error word flagged with '!'.
pub open spec fn spec_dump_operand(w: u16) -> Seq<char> {
    match spec_parse_value(w) {
        ParsedValue::Literal(v) => spec_hex4_upper(v) + "  "@,
        ParsedValue::Register(r) => "REG"@ + spec_dec(r as nat) + "  "@,
        ParsedValue::Error(e) => "!"@ + spec_hex4_upper(e) + " "@,
    }
}

/// The operand renderings for the words in `[from, to)`.
pub open spec fn spec_dump_operands(mem: Seq<u16>, from: int, to: int) -> Seq<char>
    decreases to - from,
{
    if from >= to {
        Seq::empty()
    } else {
        spec_dump_operand(mem[from]) + spec_dump_operands(mem, from + 1, to)
    }
}

/// The data line for a word that decodes to no opcode: address, the raw
/// word, and its two bytes when printable.
pub open spec fn spec_dump_data_line(index: u16, raw: u16) -> Seq<char> {
    spec_hex4_upper(index) + ": <"@ + spec_hex4_upper(raw) + "      > "@ + seq![
        if is_printable((raw % 256) as u8) {
            (raw % 256) as u8 as char
        } else {
            ' '
        },
        if is_printable((raw / 256) as u8) {
            (raw / 256) as u8 as char
        } else {
            ' '
        },
    ]
}

/// The index one past the words the line at `i` consumes: one word for a
/// data line, the instruction and its operands otherwise (clamped to the
/// end of memory).
pub open spec fn spec_dump_next(mem: Seq<u16>, i: int) -> int {
    if spec_decode(mem[i]) is Error {
        i + 1
    } else {
        let stop = i + 1 + spec_operand_count(spec_decode(mem[i]));
        if stop > mem.len() {
            mem.len() as int
        } else {
            stop
        }
    }
}

/// The instruction line at `i`: address, padded gloss of the instruction
/// and its operand words, the mnemonic, and each operand.
pub open spec fn spec_dump_instr_line(mem: Seq<u16>, i: int) -> Seq<char> {
    let next = spec_dump_next(mem, i);
    spec_hex4_upper(i as u16) + ": <"@ + spec_pad_gloss(spec_gloss(mem, i, next - i)) + "> "@
        + spec_mnemonic(spec_decode(mem[i])) + " "@ + spec_dump_operands(mem, i + 1, next)
}

/// The listing line for the word at `i`.
pub open spec fn spec_dump_line(mem: Seq<u16>, i: int) -> Seq<char> {
    if spec_decode(mem[i]) is Error {
        spec_dump_data_line(i as u16, mem[i])
    } else {
        spec_dump_instr_line(mem, i)
    }
}

/// The whole listing from `i` on: every word of memory appears in exactly
/// one line, in address order.
pub open spec fn spec_dump_lines(mem: Seq<u16>, i: int) -> Seq<Seq<char>>
    decreases mem.len() - i,
{
    if i < 0 || i >= mem.len() {
        Seq::empty()
    } else {
        seq![spec_dump_line(mem, i)] + spec_dump_lines(mem, spec_dump_next(mem, i))
    }
}

/// Append the gloss characters of words `[from, from + n)`.
fn push_gloss(out: &mut String, memory: &Vec<u16>, from: usize, n: usize)
    requires
        from + n <= memory@.len(),
    ensures
        final(out)@ == old(out)@ + spec_gloss(memory@, from as int, n as int),
    decreases n,
{
    let mlen = memory.len();
    assert(from + n <= mlen);
    if n == 0 {
        assert(final(out)@ =~= old(out)@ + spec_gloss(memory@, from as int, 0));
    } else {
        let w = memory[from];
        let low = (w % 256) as u8;
        let high = (w / 256) as u8;
        push_char(
            out,
            if (0x30 <= low && low <= 0x39) || (0x41 <= low && low <= 0x5A) || (0x61 <= low && low
                <= 0x7A) {
                low as char
            } else {
                ' '
            },
        );
        push_char(
            out,
            if (0x30 <= high && high <= 0x39) || (0x41 <= high && high <= 0x5A) || (0x61 <= high
                && high <= 0x7A) {
                high as char
            } else {
                ' '
            },
        );
        push_gloss(out, memory, from + 1, n - 1);
        assert(final(out)@ =~= old(out)@ + spec_gloss(memory@, from as int, n as int));
    }
}

/// Build the listing line for the word at `index` and return it together
/// with the index of the next line's word.
fn dump_line(memory: &Vec<u16>, index: usize) -> (r: (String, usize))
    requires
        index < memory@.len(),
    ensures
        r.0@ == spec_dump_line(memory@, index as int),
        r.1 == spec_dump_next(memory@, index as int),
        index < r.1 <= memory@.len(),
    {
    let mlen = memory.len();
    assert(index < mlen);
    let w = memory[index];
    let value = Operation::from(w);
    let mut out = String::new();
    if let Operation::Error(raw) = value {
        push_hex4_upper(&mut out, index as u16);
        out.append(": <");
        push_hex4_upper(&mut out, raw);
        out.append("      > ");
        let low = (raw % 256) as u8;
        let high = (raw / 256) as u8;
        push_char(
            &mut out,
            if 0x20 <= low && low <= 0x7E {
                low as char
            } else {
                ' '
            },
        );
        push_char(
            &mut out,
            if 0x20 <= high && high <= 0x7E {
                high as char
            } else {
                ' '
            },
        );
        proof {
            reveal_strlit(": <");
            reveal_strlit("      > ");
            assert(out@ =~= spec_dump_data_line(index as u16, w));
        }
        (out, index + 1)
    } else {
        let count = value.operands() as usize;
        let next = if mlen - index - 1 < count {
            mlen
        } else {
            index + 1 + count
        };
        push_hex4_upper(&mut out, index as u16);
        out.append(": <");
        let mut gloss = String::new();
        push_gloss(&mut gloss, memory, index, next - index);
        if gloss.as_str().unicode_len() == 0 {
            gloss.append("        ");
        } else if gloss.as_str().unicode_len() == 2 {
            gloss.append("      ");
        } else if gloss.as_str().unicode_len() == 4 {
            gloss.append("    ");
        } else if gloss.as_str().unicode_len() == 6 {
            gloss.append("  ");
        }
        out.append(gloss.as_str());
        out.append("> ");
        out.append(mnemonic_str(&value));
        out.append(" ");
        let ghost head = spec_hex4_upper(index as u16) + ": <"@ + spec_pad_gloss(
            spec_gloss(memory@, index as int, next - index),
        ) + "> "@ + spec_mnemonic(spec_decode(w)) + " "@;
        proof {
            reveal_strlit(": <");
            reveal_strlit("> ");
            reveal_strlit(" ");
            assert(out@ =~= head);
        }
        let mut j = index + 1;
        while j < next
            invariant
                index + 1 <= j <= next <= memory@.len(),
                out@ == head + spec_dump_operands(memory@, index + 1 as int, j as int),
                head == spec_hex4_upper(index as u16) + ": <"@ + spec_pad_gloss(
                    spec_gloss(memory@, index as int, next - index),
                ) + "> "@ + spec_mnemonic(spec_decode(memory@[index as int])) + " "@,
            decreases next - j,
        {
            let ow = memory[j];
            let pv = ParsedValue::from(ow);
            match pv {
                ParsedValue::Literal(v) => {
                    push_hex4_upper(&mut out, v);
                    out.append("  ");
                },
                ParsedValue::Register(rr) => {
                    out.append("REG");
                    push_dec(&mut out, rr as u64);
                    out.append("  ");
                },
                ParsedValue::Error(e) => {
                    out.append("!");
                    push_hex4_upper(&mut out, e);
                    out.append(" ");
                },
            }
            proof {
                reveal_strlit("  ");
                reveal_strlit("REG");
                reveal_strlit("!");
                reveal_strlit(" ");
                assert(out@ =~= head + spec_dump_operands(memory@, index + 1 as int, j as int)
                    + spec_dump_operand(memory@[j as int]));
                lemma_dump_operands_snoc(memory@, index + 1 as int, j as int);
            }
            j = j + 1;
        }
        proof {
            assert(out@ =~= spec_dump_line(memory@, index as int));
        }
        (out, next)
    }
}

/// Extending the operand range by one appends that operand's rendering.
proof fn lemma_dump_operands_snoc(mem: Seq<u16>, from: int, j: int)
    requires
        from <= j < mem.len(),
    ensures
        spec_dump_operands(mem, from, j + 1) == spec_dump_operands(mem, from, j)
            + spec_dump_operand(mem[j]),
    decreases j - from,
{
    if from == j {
        assert(spec_dump_operands(mem, from, j) == Seq::<char>::empty());
        assert(spec_dump_operands(mem, j, j + 1) =~= spec_dump_operand(mem[j])
            + spec_dump_operands(mem, j + 1, j + 1));
        assert(spec_dump_operands(mem, from, j + 1) =~= spec_dump_operands(mem, from, j)
            + spec_dump_operand(mem[j]));
    } else {
        lemma_dump_operands_snoc(mem, from + 1, j);
        assert(spec_dump_operands(mem, from, j + 1) =~= spec_dump_operands(mem, from, j)
            + spec_dump_operand(mem[j]));
    }
}

/// The full memory listing, one string per line: every word of memory is
/// covered by exactly one line, in address order.
pub fn memory_listing(memory: &Vec<u16>) -> (lines: Vec<String>)
    ensures
        lines@.map_values(|s: String| s@) == spec_dump_lines(memory@, 0),
{
    let mut lines: Vec<String> = Vec::new();
    let mut index: usize = 0;
    while index < memory.len()
        invariant
            index <= memory@.len(),
            lines@.map_values(|s: String| s@) + spec_dump_lines(memory@, index as int)
                =~= spec_dump_lines(memory@, 0),
        decreases memory@.len() - index,
    {
        let (line, next) = dump_line(memory, index);
        lines.push(line);
        proof {
            assert(lines@.map_values(|s: String| s@) =~= old_lines_views(lines@)
                + seq![lines@.last()@]);
        }
        index = next;
    }
    proof {
        assert(lines@.map_values(|s: String| s@) =~= spec_dump_lines(memory@, 0));
    }
    lines
}

/// The views of all but the last line (helper for the listing invariant).
pub open spec fn old_lines_views(lines: Seq<String>) -> Seq<Seq<char>> {
    lines.drop_last().map_values(|s: String| s@)
}

} // verus!
