//! The word-level model: opcodes and tagged operand values.
//!
//! A word decodes to one of 22 opcodes (numeric encoding 0..=21) or to
//! `Operation::Error`.  A word parsed as an operand is a literal
//! (0..=0x7FFF), a register reference (0x8000..=0x8007, carrying the
//! register number), or an operand error (0x8008 and above).

use vstd::prelude::*;

verus! {

/// One of the 22 opcodes, or `Error` for a word that is no instruction.
#[derive(Debug, Clone, Copy, PartialEq, Eq, Structural)]
pub enum Operation {
    Halt,
    SetReg,
    Push,
    Pop,
    Eq,
    Gt,
    Jmp,
    Jt,
    Jf,
    Add,
    Mult,
    Mod,
    And,
    Or,
    Not,
    Rmem,
    Wmem,
    Call,
    Ret,
    Out,
    In,
    Noop,
    Error(u16),
}

/// A word read as an operand: literal value, register number, or error.
#[derive(Debug, Clone, Copy, PartialEq, Eq, Structural)]
pub enum ParsedValue {
    Literal(u16),
    Register(u16),
    Error(u16),
}

/// The opcode a word decodes to: 0..=21 in declaration order, else `Error`.
pub open spec fn spec_decode(value: u16) -> Operation {
    if value == 0 {
        Operation::Halt
    } else if value == 1 {
        Operation::SetReg
    } else if value == 2 {
        Operation::Push
    } else if value == 3 {
        Operation::Pop
    } else if value == 4 {
        Operation::Eq
    } else if value == 5 {
        Operation::Gt
    } else if value == 6 {
        Operation::Jmp
    } else if value == 7 {
        Operation::Jt
    } else if value == 8 {
        Operation::Jf
    } else if value == 9 {
        Operation::Add
    } else if value == 10 {
        Operation::Mult
    } else if value == 11 {
        Operation::Mod
    } else if value == 12 {
        Operation::And
    } else if value == 13 {
        Operation::Or
    } else if value == 14 {
        Operation::Not
    } else if value == 15 {
        Operation::Rmem
    } else if value == 16 {
        Operation::Wmem
    } else if value == 17 {
        Operation::Call
    } else if value == 18 {
        Operation::Ret
    } else if value == 19 {
        Operation::Out
    } else if value == 20 {
        Operation::In
    } else if value == 21 {
        Operation::Noop
    } else {
        Operation::Error(value)
    }
}

/// How many operand words follow the opcode; 0xFFFF for `Error`
/// (the instruction cannot be decoded, so the count is a sentinel).
pub open spec fn spec_operand_count(op: Operation) -> u16 {
    match op {
        Operation::Halt | Operation::Ret | Operation::Noop => 0,
        Operation::Push | Operation::Pop | Operation::Jmp | Operation::Call | Operation::Out
            | Operation::In => 1,
        Operation::SetReg | Operation::Jt | Operation::Jf | Operation::Not | Operation::Rmem
            | Operation::Wmem => 2,
        Operation::Eq | Operation::Gt | Operation::Add | Operation::Mult | Operation::Mod
            | Operation::And | Operation::Or => 3,
        Operation::Error(_) => 0xffff,
    }
}

/// The operand class of a word: the high bit discriminates literal from
/// register; registers stop at 0x8007.
pub open spec fn spec_parse_value(value: u16) -> ParsedValue {
    if value <= 32767 {
        ParsedValue::Literal(value)
    } else if value <= 32775 {
        ParsedValue::Register((value - 32768) as u16)
    } else {
        ParsedValue::Error(value)
    }
}

impl From<u16> for Operation {
    fn from(value: u16) -> (op: Operation) {
        match value {
            0 => Self::Halt,
            1 => Self::SetReg,
            2 => Self::Push,
            3 => Self::Pop,
            4 => Self::Eq,
            5 => Self::Gt,
            6 => Self::Jmp,
            7 => Self::Jt,
            8 => Self::Jf,
            9 => Self::Add,
            10 => Self::Mult,
            11 => Self::Mod,
            12 => Self::And,
            13 => Self::Or,
            14 => Self::Not,
            15 => Self::Rmem,
            16 => Self::Wmem,
            17 => Self::Call,
            18 => Self::Ret,
            19 => Self::Out,
            20 => Self::In,
            21 => Self::Noop,
            _ => Self::Error(value),
        }
    }
}

impl vstd::std_specs::convert::FromSpecImpl<u16> for Operation {
    open spec fn obeys_from_spec() -> bool {
        true
    }

    open spec fn from_spec(value: u16) -> Operation {
        spec_decode(value)
    }
}

impl From<u16> for ParsedValue {
    fn from(value: u16) -> (pv: ParsedValue) {
        if value <= 32767 {
            Self::Literal(value)
        } else if value <= 32775 {
            Self::Register(value - 32768)
        } else {
            Self::Error(value)
        }
    }
}

impl vstd::std_specs::convert::FromSpecImpl<u16> for ParsedValue {
    open spec fn obeys_from_spec() -> bool {
        true
    }

    open spec fn from_spec(value: u16) -> ParsedValue {
        spec_parse_value(value)
    }
}

impl Operation {
    /// The number of operand words this opcode consumes.
    pub fn operands(&self) -> (count: u16)
        ensures
            count == spec_operand_count(*self),
    {
        match self {
            Self::Halt | Self::Ret | Self::Noop => 0,
            Self::Push | Self::Pop | Self::Jmp | Self::Call | Self::Out | Self::In => 1,
            Self::SetReg | Self::Jt | Self::Jf | Self::Not | Self::Rmem | Self::Wmem => 2,
            Self::Eq | Self::Gt | Self::Add | Self::Mult | Self::Mod | Self::And | Self::Or => 3,
            Self::Error(_) => 0xffff,
        }
    }
}

} // verus!
