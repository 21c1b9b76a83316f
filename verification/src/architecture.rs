//! The instruction set, the register set and the addressing modes, as
//! lookup functions over canonical upper-case spellings.

use vstd::prelude::*;
use crate::defaults::is_word;
use crate::structs::{Instruction, Register, AddressingMode};

verus! {

/// How many instructions the set defines.
pub const NUMBER_INSTRUCTIONS: u64 = 27;

/// How many addressing modes exist.
pub const NUMBER_MODES: u64 = 4;

/// How many special registers exist (ACC, PC, RR, FR).
pub const NUMBER_SP_REGISTERS: u64 = 4;

/// The 1-based offset of the accumulator within the special registers.
pub const ACCUMULATOR_OFFSET: u64 = 1;

/// The 1-based offset of the program counter within the special registers.
pub const PROGRAM_COUNTER_OFFSET: u64 = 2;

/// The 1-based offset of the return register within the special registers.
pub const RETURN_REGISTER_OFFSET: u64 = 3;

/// The 1-based offset of the flags register within the special registers.
pub const FLAGS_REGISTER_OFFSET: u64 = 4;

/// The instruction a mnemonic names, if any.
pub open spec fn spec_instruction_lookup(s: Seq<char>) -> Option<Instruction> {
    if s == "HLT"@ {
        Some(Instruction { opcode: 0, operands: 0 })
    } else if s == "ADD"@ {
        Some(Instruction { opcode: 1, operands: 2 })
    } else if s == "SUB"@ {
        Some(Instruction { opcode: 2, operands: 2 })
    } else if s == "STA"@ {
        Some(Instruction { opcode: 3, operands: 2 })
    } else if s == "NOP"@ {
        Some(Instruction { opcode: 4, operands: 0 })
    } else if s == "LDA"@ {
        Some(Instruction { opcode: 5, operands: 2 })
    } else if s == "BRA"@ {
        Some(Instruction { opcode: 6, operands: 2 })
    } else if s == "BRZ"@ {
        Some(Instruction { opcode: 7, operands: 2 })
    } else if s == "BRP"@ {
        Some(Instruction { opcode: 8, operands: 2 })
    } else if s == "INP"@ {
        Some(Instruction { opcode: 9, operands: 1 })
    } else if s == "OUT"@ {
        Some(Instruction { opcode: 10, operands: 1 })
    } else if s == "OUTC"@ {
        Some(Instruction { opcode: 11, operands: 1 })
    } else if s == "OUTB"@ {
        Some(Instruction { opcode: 12, operands: 1 })
    } else if s == "AND"@ {
        Some(Instruction { opcode: 13, operands: 2 })
    } else if s == "OR"@ {
        Some(Instruction { opcode: 14, operands: 2 })
    } else if s == "NOT"@ {
        Some(Instruction { opcode: 15, operands: 2 })
    } else if s == "XOR"@ {
        Some(Instruction { opcode: 16, operands: 2 })
    } else if s == "LSL"@ {
        Some(Instruction { opcode: 17, operands: 2 })
    } else if s == "LSR"@ {
        Some(Instruction { opcode: 18, operands: 2 })
    } else if s == "ASL"@ {
        Some(Instruction { opcode: 19, operands: 2 })
    } else if s == "ASR"@ {
        Some(Instruction { opcode: 20, operands: 2 })
    } else if s == "CSL"@ {
        Some(Instruction { opcode: 21, operands: 2 })
    } else if s == "CSR"@ {
        Some(Instruction { opcode: 22, operands: 2 })
    } else if s == "CSLC"@ {
        Some(Instruction { opcode: 23, operands: 2 })
    } else if s == "CSRC"@ {
        Some(Instruction { opcode: 24, operands: 2 })
    } else if s == "CALL"@ {
        Some(Instruction { opcode: 25, operands: 1 })
    } else if s == "RET"@ {
        Some(Instruction { opcode: 26, operands: 0 })
    } else {
        None
    }
}

/// Look a mnemonic up in the instruction set.
pub fn instruction_lookup(s: &Vec<char>) -> (r: Option<Instruction>)
    ensures
        r == spec_instruction_lookup(s@),
{
    if is_word(s, "HLT") {
        Some(Instruction { opcode: 0, operands: 0 })
    } else if is_word(s, "ADD") {
        Some(Instruction { opcode: 1, operands: 2 })
    } else if is_word(s, "SUB") {
        Some(Instruction { opcode: 2, operands: 2 })
    } else if is_word(s, "STA") {
        Some(Instruction { opcode: 3, operands: 2 })
    } else if is_word(s, "NOP") {
        Some(Instruction { opcode: 4, operands: 0 })
    } else if is_word(s, "LDA") {
        Some(Instruction { opcode: 5, operands: 2 })
    } else if is_word(s, "BRA") {
        Some(Instruction { opcode: 6, operands: 2 })
    } else if is_word(s, "BRZ") {
        Some(Instruction { opcode: 7, operands: 2 })
    } else if is_word(s, "BRP") {
        Some(Instruction { opcode: 8, operands: 2 })
    } else if is_word(s, "INP") {
        Some(Instruction { opcode: 9, operands: 1 })
    } else if is_word(s, "OUT") {
        Some(Instruction { opcode: 10, operands: 1 })
    } else if is_word(s, "OUTC") {
        Some(Instruction { opcode: 11, operands: 1 })
    } else if is_word(s, "OUTB") {
        Some(Instruction { opcode: 12, operands: 1 })
    } else if is_word(s, "AND") {
        Some(Instruction { opcode: 13, operands: 2 })
    } else if is_word(s, "OR") {
        Some(Instruction { opcode: 14, operands: 2 })
    } else if is_word(s, "NOT") {
        Some(Instruction { opcode: 15, operands: 2 })
    } else if is_word(s, "XOR") {
        Some(Instruction { opcode: 16, operands: 2 })
    } else if is_word(s, "LSL") {
        Some(Instruction { opcode: 17, operands: 2 })
    } else if is_word(s, "LSR") {
        Some(Instruction { opcode: 18, operands: 2 })
    } else if is_word(s, "ASL") {
        Some(Instruction { opcode: 19, operands: 2 })
    } else if is_word(s, "ASR") {
        Some(Instruction { opcode: 20, operands: 2 })
    } else if is_word(s, "CSL") {
        Some(Instruction { opcode: 21, operands: 2 })
    } else if is_word(s, "CSR") {
        Some(Instruction { opcode: 22, operands: 2 })
    } else if is_word(s, "CSLC") {
        Some(Instruction { opcode: 23, operands: 2 })
    } else if is_word(s, "CSRC") {
        Some(Instruction { opcode: 24, operands: 2 })
    } else if is_word(s, "CALL") {
        Some(Instruction { opcode: 25, operands: 1 })
    } else if is_word(s, "RET") {
        Some(Instruction { opcode: 26, operands: 0 })
    } else {
        None
    }
}

/// Whether an opcode forbids the immediate addressing mode on its source
/// operand (STA, BRA, BRZ, BRP and CALL write to or jump through it).
pub open spec fn spec_non_immediate_opcode(opcode: u64) -> bool {
    opcode == 3 || opcode == 6 || opcode == 7 || opcode == 8 || opcode == 25
}

/// Test whether an opcode forbids the immediate addressing mode on its
/// source operand.
pub fn non_immediate_opcode(opcode: u64) -> (r: bool)
    ensures
        r == spec_non_immediate_opcode(opcode),
{
    opcode == 3 || opcode == 6 || opcode == 7 || opcode == 8 || opcode == 25
}

/// The assembly directive keyword that declares a variable.
pub fn is_dat(s: &Vec<char>) -> (r: bool)
    ensures
        r == (s@ == "DAT"@),
{
    is_word(s, "DAT")
}

/// The special register a spelling names, if any.
pub open spec fn spec_sp_register_lookup(s: Seq<char>) -> Option<Register> {
    if s == "ACC"@ || s == "ACCUMULATOR"@ {
        Some(Register { offset: ACCUMULATOR_OFFSET })
    } else if s == "PC"@ || s == "PROGRAMCOUNTER"@ {
        Some(Register { offset: PROGRAM_COUNTER_OFFSET })
    } else if s == "RR"@ || s == "RETURNREGISTER"@ {
        Some(Register { offset: RETURN_REGISTER_OFFSET })
    } else if s == "FR"@ || s == "FLAGSREGISTER"@ {
        Some(Register { offset: FLAGS_REGISTER_OFFSET })
    } else {
        None
    }
}

/// Look a spelling up in the special-register set.
pub fn sp_register_lookup(s: &Vec<char>) -> (r: Option<Register>)
    ensures
        r == spec_sp_register_lookup(s@),
{
    if is_word(s, "ACC") || is_word(s, "ACCUMULATOR") {
        Some(Register { offset: ACCUMULATOR_OFFSET })
    } else if is_word(s, "PC") || is_word(s, "PROGRAMCOUNTER") {
        Some(Register { offset: PROGRAM_COUNTER_OFFSET })
    } else if is_word(s, "RR") || is_word(s, "RETURNREGISTER") {
        Some(Register { offset: RETURN_REGISTER_OFFSET })
    } else if is_word(s, "FR") || is_word(s, "FLAGSREGISTER") {
        Some(Register { offset: FLAGS_REGISTER_OFFSET })
    } else {
        None
    }
}

/// The canonical short name of the special register at a given offset.
pub open spec fn spec_sp_register_name(offset: u64) -> Seq<char> {
    if offset == ACCUMULATOR_OFFSET {
        "ACC"@
    } else if offset == PROGRAM_COUNTER_OFFSET {
        "PC"@
    } else if offset == RETURN_REGISTER_OFFSET {
        "RR"@
    } else if offset == FLAGS_REGISTER_OFFSET {
        "FR"@
    } else {
        Seq::empty()
    }
}

/// The canonical short name of the special register at a given offset.
pub fn sp_register_name(offset: u64) -> (r: Vec<char>)
    requires
        1 <= offset <= 4,
    ensures
        r@ == spec_sp_register_name(offset),
{
    let mut r: Vec<char> = Vec::new();
    if offset == ACCUMULATOR_OFFSET {
        r.push('A');
        r.push('C');
        r.push('C');
        proof {
            reveal_strlit("ACC");
            assert(r@ =~= "ACC"@);
        }
    } else if offset == PROGRAM_COUNTER_OFFSET {
        r.push('P');
        r.push('C');
        proof {
            reveal_strlit("PC");
            assert(r@ =~= "PC"@);
        }
    } else if offset == RETURN_REGISTER_OFFSET {
        r.push('R');
        r.push('R');
        proof {
            reveal_strlit("RR");
            assert(r@ =~= "RR"@);
        }
    } else {
        r.push('F');
        r.push('R');
        proof {
            reveal_strlit("FR");
            assert(r@ =~= "FR"@);
        }
    }
    r
}

/// Whether a spelling is one of the general-purpose register prefixes.
pub open spec fn spec_gpr_variant(s: Seq<char>) -> bool {
    s == "REG"@ || s == "R"@ || s == "REGISTER"@
}

/// Test whether a spelling is one of the general-purpose register
/// prefixes.
pub fn gpr_variant(s: &Vec<char>) -> (r: bool)
    ensures
        r == spec_gpr_variant(s@),
{
    is_word(s, "REG") || is_word(s, "R") || is_word(s, "REGISTER")
}

/// The addressing mode a spelling (symbol or word form) names, if any.
pub open spec fn spec_addressing_mode_lookup(s: Seq<char>) -> Option<AddressingMode> {
    if s == "%"@ || s == "REGISTER"@ {
        Some(AddressingMode { symbol: '%', opcode: 0 })
    } else if s == "@"@ || s == "DIRECT"@ {
        Some(AddressingMode { symbol: '@', opcode: 1 })
    } else if s == ">"@ || s == "INDIRECT"@ {
        Some(AddressingMode { symbol: '>', opcode: 2 })
    } else if s == "#"@ || s == "IMMEDIATE"@ {
        Some(AddressingMode { symbol: '#', opcode: 3 })
    } else {
        None
    }
}

/// Look a spelling up in the addressing-mode set.
pub fn addressing_mode_lookup(s: &Vec<char>) -> (r: Option<AddressingMode>)
    ensures
        r == spec_addressing_mode_lookup(s@),
{
    if is_word(s, "%") || is_word(s, "REGISTER") {
        Some(AddressingMode { symbol: '%', opcode: 0 })
    } else if is_word(s, "@") || is_word(s, "DIRECT") {
        Some(AddressingMode { symbol: '@', opcode: 1 })
    } else if is_word(s, ">") || is_word(s, "INDIRECT") {
        Some(AddressingMode { symbol: '>', opcode: 2 })
    } else if is_word(s, "#") || is_word(s, "IMMEDIATE") {
        Some(AddressingMode { symbol: '#', opcode: 3 })
    } else {
        None
    }
}

/// The addressing mode a single symbol character names, if any.
pub open spec fn spec_mode_of_symbol(c: char) -> Option<AddressingMode> {
    if c == '%' {
        Some(AddressingMode { symbol: '%', opcode: 0 })
    } else if c == '@' {
        Some(AddressingMode { symbol: '@', opcode: 1 })
    } else if c == '>' {
        Some(AddressingMode { symbol: '>', opcode: 2 })
    } else if c == '#' {
        Some(AddressingMode { symbol: '#', opcode: 3 })
    } else {
        None
    }
}

/// Look a single symbol character up in the addressing-mode set.
pub fn mode_of_symbol(c: char) -> (r: Option<AddressingMode>)
    ensures
        r == spec_mode_of_symbol(c),
{
    if c == '%' {
        Some(AddressingMode { symbol: '%', opcode: 0 })
    } else if c == '@' {
        Some(AddressingMode { symbol: '@', opcode: 1 })
    } else if c == '>' {
        Some(AddressingMode { symbol: '>', opcode: 2 })
    } else if c == '#' {
        Some(AddressingMode { symbol: '#', opcode: 3 })
    } else {
        None
    }
}

/// The addressing mode opcodes, by name.
pub const REGISTER_MODE: u64 = 0;

/// The direct addressing mode's opcode.
pub const DIRECT_MODE: u64 = 1;

/// The indirect addressing mode's opcode.
pub const INDIRECT_MODE: u64 = 2;

/// The immediate addressing mode's opcode.
pub const IMMEDIATE_MODE: u64 = 3;

} // verus!
