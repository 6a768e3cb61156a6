//! The instruction set: a closed enumeration of opcodes together with
//! the mapping to and from the numeric tag used by the binary encoding.

use vstd::prelude::*;

verus! {

/// The opcodes of the machine. Each either ignores its operand
/// (`NOP`, `OUT`, `HLT`) or treats it as a RAM address, a ROM address,
/// or an immediate literal.
#[derive(Clone, Copy, Debug, PartialEq, Eq, Structural)]
pub enum Instruction {
    NOP,
    LDA,
    STA,
    ADD,
    SUB,
    OUT,
    JMP,
    JC,
    JZ,
    HLT,
    LDI,
    ADI,
    LDR,
    ADR,
}

/// The numeric tag of an opcode: 0 for `NOP` through 13 for `ADR`,
/// in declaration order.
pub open spec fn spec_tag_of(i: Instruction) -> u8 {
    match i {
        Instruction::NOP => 0,
        Instruction::LDA => 1,
        Instruction::STA => 2,
        Instruction::ADD => 3,
        Instruction::SUB => 4,
        Instruction::OUT => 5,
        Instruction::JMP => 6,
        Instruction::JC => 7,
        Instruction::JZ => 8,
        Instruction::HLT => 9,
        Instruction::LDI => 10,
        Instruction::ADI => 11,
        Instruction::LDR => 12,
        Instruction::ADR => 13,
    }
}

/// Whether a byte is the tag of some opcode.
pub open spec fn spec_tag_valid(t: u8) -> bool {
    t <= 13
}

/// The opcode with a given valid tag.
pub open spec fn spec_instruction_of_tag(t: u8) -> Instruction {
    if t == 0 {
        Instruction::NOP
    } else if t == 1 {
        Instruction::LDA
    } else if t == 2 {
        Instruction::STA
    } else if t == 3 {
        Instruction::ADD
    } else if t == 4 {
        Instruction::SUB
    } else if t == 5 {
        Instruction::OUT
    } else if t == 6 {
        Instruction::JMP
    } else if t == 7 {
        Instruction::JC
    } else if t == 8 {
        Instruction::JZ
    } else if t == 9 {
        Instruction::HLT
    } else if t == 10 {
        Instruction::LDI
    } else if t == 11 {
        Instruction::ADI
    } else if t == 12 {
        Instruction::LDR
    } else {
        Instruction::ADR
    }
}

impl Instruction {
    /// The numeric tag of this opcode, in the range 0..=13.
    pub fn tag(self) -> (t: u8)
        ensures
            t == spec_tag_of(self),
            spec_tag_valid(t),
            spec_instruction_of_tag(t) == self,
    {
        match self {
            Instruction::NOP => 0,
            Instruction::LDA => 1,
            Instruction::STA => 2,
            Instruction::ADD => 3,
            Instruction::SUB => 4,
            Instruction::OUT => 5,
            Instruction::JMP => 6,
            Instruction::JC => 7,
            Instruction::JZ => 8,
            Instruction::HLT => 9,
            Instruction::LDI => 10,
            Instruction::ADI => 11,
            Instruction::LDR => 12,
            Instruction::ADR => 13,
        }
    }

    /// The opcode with tag `t`, or `None` when `t` is not the tag of
    /// any opcode (a decode error).
    pub fn from_tag(t: u8) -> (r: Option<Instruction>)
        ensures
            r is Some <==> spec_tag_valid(t),
            r matches Some(i) ==> i == spec_instruction_of_tag(t) && spec_tag_of(i) == t,
    {
        match t {
            0 => Some(Instruction::NOP),
            1 => Some(Instruction::LDA),
            2 => Some(Instruction::STA),
            3 => Some(Instruction::ADD),
            4 => Some(Instruction::SUB),
            5 => Some(Instruction::OUT),
            6 => Some(Instruction::JMP),
            7 => Some(Instruction::JC),
            8 => Some(Instruction::JZ),
            9 => Some(Instruction::HLT),
            10 => Some(Instruction::LDI),
            11 => Some(Instruction::ADI),
            12 => Some(Instruction::LDR),
            13 => Some(Instruction::ADR),
            _ => None,
        }
    }

    /// Whether this opcode takes no operand in the assembly syntax
    /// (`NOP`, `OUT`, `HLT`); such instructions are encoded with
    /// operand 0.
    pub fn takes_no_operand(self) -> (r: bool)
        ensures
            r == spec_takes_no_operand(self),
    {
        match self {
            Instruction::NOP => true,
            Instruction::OUT => true,
            Instruction::HLT => true,
            _ => false,
        }
    }
}

/// Whether an opcode takes no operand in the assembly syntax.
pub open spec fn spec_takes_no_operand(i: Instruction) -> bool {
    i == Instruction::NOP || i == Instruction::OUT || i == Instruction::HLT
}

} // verus!
