//! The fetch/decode/execute step of the virtual machine.
//!
//! `step` performs one cycle: fetch the word the program counter names,
//! advance the program counter, split the word into opcode, addressing
//! mode and two operand fields, resolve both operands, and execute.  The
//! caller loops, performing the input and output effects and pacing the
//! clock; a fault address comes back as an error.

use vstd::prelude::*;
use crate::binarystring::{
    is_binary, binary_value, signed_value, spec_signed_int, spec_unsigned_int, signed_int,
    unsigned_int, read_signed_int, read_unsigned_int, subrange_vec, lemma_binary_value_bound,
    lemma_pow2_monotonic, lemma_pow2_le_61,
};
use crate::structs::{Memory, MemoryValue};
use crate::machineoperations::{
    MachineOperations, MachineEffect, spec_execute_post, spec_operand_fits,
    PROGRAM_COUNTER_INDEX,
};
use crate::architecture::{REGISTER_MODE, INDIRECT_MODE, IMMEDIATE_MODE};

verus! {

/// The widths of the fields of one machine word: the opcode field, the
/// addressing-mode field and the two operand fields, adding up to the
/// architecture.
#[derive(Clone, Copy, PartialEq, Eq, Structural, Debug)]
pub struct MachineCodeBits {
    pub machine_operation_bits: u64,
    pub addressing_mode_bits: u64,
    pub operand_bits: u64,
    pub architecture: u64,
}

impl MachineCodeBits {
    /// The fields are all present and fill the word exactly.
    pub open spec fn wf(&self) -> bool {
        &&& self.machine_operation_bits >= 1
        &&& self.addressing_mode_bits >= 1
        &&& self.operand_bits >= 2
        &&& self.architecture == self.machine_operation_bits + self.addressing_mode_bits + 2
            * self.operand_bits
        &&& self.architecture <= 62
    }
}

/// What resolving an operand field yields: the effective address, the
/// word it names and that word's signed value, or the address of a failed
/// access.
pub open spec fn spec_resolve_operand(
    addressing_mode_opcode: u64,
    operand: Seq<char>,
    mem: Seq<Seq<char>>,
    registers: u64,
    architecture: u64,
) -> Result<(int, Seq<char>, int), int> {
    let a = signed_value(operand);
    if addressing_mode_opcode == IMMEDIATE_MODE {
        Ok((a, spec_signed_int(a, architecture as int), a))
    } else if addressing_mode_opcode == INDIRECT_MODE {
        if !(0 <= a + registers < mem.len()) {
            Err(a)
        } else {
            let v = signed_value(mem[a + registers]);
            if !(0 <= v + registers < mem.len()) {
                Err(v)
            } else {
                Ok((v, mem[v + registers], signed_value(mem[v + registers])))
            }
        }
    } else {
        if !(0 <= a + registers < mem.len()) {
            Err(a)
        } else {
            Ok((a, mem[a + registers], signed_value(mem[a + registers])))
        }
    }
}

/// Resolve one operand field against the memory pool, by addressing
/// mode: register and direct read the cell the field names, indirect
/// follows the cell's value one step further, immediate carries the field
/// itself.  The address of an access outside the pool comes back as the
/// error.
pub fn resolve_operand(
    addressing_mode_opcode: u64,
    operand: &Vec<char>,
    memory: &Memory,
    architecture: i64,
) -> (r: Result<MemoryValue, i64>)
    requires
        memory.well_formed(),
        architecture == memory.spec_architecture(),
        is_binary(operand@),
        2 <= operand@.len() <= 62,
    ensures
        r matches Ok(mv) ==> spec_resolve_operand(
            addressing_mode_opcode,
            operand@,
            memory@,
            memory.spec_registers(),
            memory.spec_architecture(),
        ) == Ok::<(int, Seq<char>, int), int>((mv.address as int, mv.bits@, mv.value as int))
            && spec_operand_fits(mv, memory.spec_architecture()),
        r matches Err(a) ==> spec_resolve_operand(
            addressing_mode_opcode,
            operand@,
            memory@,
            memory.spec_registers(),
            memory.spec_architecture(),
        ) == Err::<(int, Seq<char>, int), int>(a as int),
{
    proof {
        lemma_binary_value_bound(operand@.skip(1));
        lemma_pow2_le_61((operand@.len() - 1) as nat);
    }
    let parsed = read_signed_int(operand);
    let operand_value = match parsed {
        Some(v) => v,
        None => {
            proof {
                assert(false);
            }
            0
        },
    };
    if addressing_mode_opcode == IMMEDIATE_MODE {
        let bits = signed_int(operand_value, architecture);
        proof {
            lemma_binary_value_bound(spec_signed_int(
                operand_value as int,
                architecture as int,
            ).skip(1));
        }
        return Ok(MemoryValue { address: operand_value, bits, value: operand_value });
    }
    if !memory.valid_address(operand_value) {
        return Err(operand_value);
    }
    let binary_at_operand = memory.get(operand_value);
    proof {
        lemma_binary_value_bound(binary_at_operand@.skip(1));
        lemma_pow2_monotonic((binary_at_operand@.len() - 1) as nat, 61);
        crate::binarystring::lemma_pow2_61();
    }
    let parsed_at = read_signed_int(&binary_at_operand);
    let value_at_operand = match parsed_at {
        Some(v) => v,
        None => {
            proof {
                assert(false);
            }
            0
        },
    };
    if addressing_mode_opcode == INDIRECT_MODE {
        if !memory.valid_address(value_at_operand) {
            return Err(value_at_operand);
        }
        let bits = memory.get(value_at_operand);
        proof {
            lemma_binary_value_bound(bits@.skip(1));
            lemma_pow2_monotonic((bits@.len() - 1) as nat, 61);
            crate::binarystring::lemma_pow2_61();
        }
        let parsed_far = read_signed_int(&bits);
        let value = match parsed_far {
            Some(v) => v,
            None => {
                proof {
                    assert(false);
                }
                0
            },
        };
        Ok(MemoryValue { address: value_at_operand, bits, value })
    } else {
        Ok(MemoryValue { address: operand_value, bits: binary_at_operand, value: value_at_operand })
    }
}

/// Split one machine word into its opcode, its addressing mode and its
/// two operand fields, and resolve both operands (the destination always
/// as if in register mode).
pub fn handle_instruction(machine_code: &Vec<char>, memory: &Memory, bits: &MachineCodeBits) -> (r:
    Result<(u64, MemoryValue, MemoryValue), i64>)
    requires
        memory.well_formed(),
        bits.wf(),
        bits.architecture == memory.spec_architecture(),
        is_binary(machine_code@),
        machine_code@.len() == bits.architecture,
    ensures
        r matches Ok(t) ==> {
            let mob = bits.machine_operation_bits as int;
            let amb = bits.addressing_mode_bits as int;
            let ob = bits.operand_bits as int;
            let mode = binary_value(machine_code@.subrange(mob, mob + amb));
            &&& t.0 == binary_value(machine_code@.subrange(0, mob))
            &&& spec_resolve_operand(
                mode as u64,
                machine_code@.subrange(mob + amb, mob + amb + ob),
                memory@,
                memory.spec_registers(),
                memory.spec_architecture(),
            ) == Ok::<(int, Seq<char>, int), int>((t.1.address as int, t.1.bits@, t.1.value as int))
            &&& spec_resolve_operand(
                REGISTER_MODE,
                machine_code@.subrange(mob + amb + ob, mob + amb + 2 * ob),
                memory@,
                memory.spec_registers(),
                memory.spec_architecture(),
            ) == Ok::<(int, Seq<char>, int), int>((t.2.address as int, t.2.bits@, t.2.value as int))
            &&& spec_operand_fits(t.1, memory.spec_architecture())
            &&& spec_operand_fits(t.2, memory.spec_architecture())
        },
        r matches Err(a) ==> {
            let mob = bits.machine_operation_bits as int;
            let amb = bits.addressing_mode_bits as int;
            let ob = bits.operand_bits as int;
            let mode = binary_value(machine_code@.subrange(mob, mob + amb));
            let src = spec_resolve_operand(
                mode as u64,
                machine_code@.subrange(mob + amb, mob + amb + ob),
                memory@,
                memory.spec_registers(),
                memory.spec_architecture(),
            );
            (src matches Err(b) && b == a) || (src is Ok && spec_resolve_operand(
                REGISTER_MODE,
                machine_code@.subrange(mob + amb + ob, mob + amb + 2 * ob),
                memory@,
                memory.spec_registers(),
                memory.spec_architecture(),
            ) == Err::<(int, Seq<char>, int), int>(a as int))
        },
{
    let mob = bits.machine_operation_bits as usize;
    let amb = bits.addressing_mode_bits as usize;
    let ob = bits.operand_bits as usize;
    let opcode_field = subrange_vec(machine_code, 0, mob);
    let mode_field = subrange_vec(machine_code, mob, mob + amb);
    proof {
        lemma_binary_value_bound(opcode_field@);
        lemma_binary_value_bound(mode_field@);
        lemma_pow2_le_61(opcode_field@.len() as nat);
        lemma_pow2_le_61(mode_field@.len() as nat);
    }
    let opcode_parsed = read_unsigned_int(&opcode_field);
    let opcode: u64 = match opcode_parsed {
        Some(v) => v as u64,
        None => {
            proof {
                assert(false);
            }
            0
        },
    };
    let mode_parsed = read_unsigned_int(&mode_field);
    let addressing_mode: u64 = match mode_parsed {
        Some(v) => v as u64,
        None => {
            proof {
                assert(false);
            }
            0
        },
    };
    let source_field = subrange_vec(machine_code, mob + amb, mob + amb + ob);
    let destination_field = subrange_vec(machine_code, mob + amb + ob, mob + amb + 2 * ob);
    let source = resolve_operand(addressing_mode, &source_field, memory, bits.architecture as i64);
    let source_value = match source {
        Ok(mv) => mv,
        Err(a) => {
            return Err(a);
        },
    };
    let destination = resolve_operand(
        REGISTER_MODE,
        &destination_field,
        memory,
        bits.architecture as i64,
    );
    let destination_value = match destination {
        Ok(mv) => mv,
        Err(a) => {
            return Err(a);
        },
    };
    Ok((opcode, source_value, destination_value))
}

/// One fetch/decode/execute cycle over the machine's pool.  The word the
/// program counter names is fetched, the program counter advanced, the
/// word decoded and executed; the effect asks the caller for any input or
/// output.  A memory access outside the pool is the fatal address in the
/// error.
pub fn step(machine: &mut MachineOperations, bits: &MachineCodeBits) -> (r: Result<
    MachineEffect,
    i64,
>)
    requires
        old(machine).wf(),
        bits.wf(),
        bits.architecture == old(machine).memory.spec_architecture(),
    ensures
        final(machine).wf(),
        final(machine).memory.spec_registers() == old(machine).memory.spec_registers(),
        final(machine).memory.spec_architecture() == old(machine).memory.spec_architecture(),
        ({
            let pre = old(machine).memory@;
            let post = final(machine).memory@;
            let regs = old(machine).memory.spec_registers();
            let arch = old(machine).memory.spec_architecture();
            let pc = binary_value(pre[PROGRAM_COUNTER_INDEX as int]);
            if pc + regs >= pre.len() {
                r == Err::<MachineEffect, i64>(pc as i64) && post == pre
            } else {
                let word = pre[pc + regs];
                let with_pc = pre.update(
                    PROGRAM_COUNTER_INDEX as int,
                    spec_unsigned_int(pc + 1 as int, arch as int),
                );
                let mob = bits.machine_operation_bits as int;
                let amb = bits.addressing_mode_bits as int;
                let ob = bits.operand_bits as int;
                let opcode = binary_value(word.subrange(0, mob));
                let mode = binary_value(word.subrange(mob, mob + amb));
                let src = spec_resolve_operand(
                    mode as u64,
                    word.subrange(mob + amb, mob + amb + ob),
                    with_pc,
                    regs,
                    arch,
                );
                let dst = spec_resolve_operand(
                    REGISTER_MODE,
                    word.subrange(mob + amb + ob, mob + amb + 2 * ob),
                    with_pc,
                    regs,
                    arch,
                );
                match (src, dst) {
                    (Ok(s), Ok(d)) => r matches Ok(effect) && spec_execute_post(
                        with_pc,
                        post,
                        regs,
                        arch,
                        opcode as u64,
                        s.0,
                        s.1,
                        s.2,
                        d.0,
                        d.1,
                        d.2,
                        effect,
                    ),
                    (Err(a), _) => r == Err::<MachineEffect, i64>(a as i64) && post == with_pc,
                    (Ok(_), Err(a)) => r == Err::<MachineEffect, i64>(a as i64) && post
                        == with_pc,
                }
            }
        }),
{
    let pc_word = machine.memory.get(-((machine.memory.registers() - PROGRAM_COUNTER_INDEX) as i64));
    proof {
        assert(pc_word@ == old(machine).memory@[PROGRAM_COUNTER_INDEX as int]);
        lemma_binary_value_bound(pc_word@);
        lemma_pow2_monotonic(pc_word@.len() as nat, 62);
        lemma_pow2_monotonic(62, 63);
        vstd::arithmetic::power2::lemma2_to64_rest();
    }
    let pc_parsed = read_unsigned_int(&pc_word);
    let program_counter: i64 = match pc_parsed {
        Some(v) => v,
        None => {
            proof {
                assert(false);
            }
            0
        },
    };
    if !machine.memory.valid_address(program_counter) {
        return Err(program_counter);
    }
    let machine_code = machine.memory.get(program_counter);
    let advanced = unsigned_int(program_counter + 1, machine.memory.architecture() as i64);
    machine.memory.insert_binary(
        -((machine.memory.registers() - PROGRAM_COUNTER_INDEX) as i64),
        advanced,
    );
    let decoded = handle_instruction(&machine_code, &machine.memory, bits);
    match decoded {
        Ok((opcode, source, destination)) => Ok(machine.execute(opcode, source, destination)),
        Err(a) => Err(a),
    }
}

} // verus!
