//! The machine operations: what each opcode does to the memory pool.
//!
//! The special registers sit at the front of the pool, so their pool
//! indices are fixed: FR at 0, RR at 1, PC at 2, ACC at 3, and the
//! general-purpose registers follow.  Input and output are effects handed
//! back to the caller: the interpreter loop performs them and, for input,
//! stores the value through `store_input`.

use vstd::prelude::*;
use crate::binarystring::{
    is_binary, repeat_char_seq, rotate_left, spec_bitwise_and, spec_bitwise_or, spec_bitwise_xor,
    spec_bitwise_not, spec_signed_int, bitwise_and, bitwise_or, bitwise_xor, bitwise_not,
    logical_shift_left, logical_shift_right, arithmetic_shift_right, circular_shift_left,
    circular_shift_right, circular_shift_left_carry, circular_shift_right_carry,
};
use crate::structs::{Memory, MemoryValue};
use crate::architecture::{
    NUMBER_SP_REGISTERS, PROGRAM_COUNTER_OFFSET, FLAGS_REGISTER_OFFSET, RETURN_REGISTER_OFFSET,
};

verus! {

/// The pool index of the flags register.
pub const FLAGS_INDEX: u64 = 0;

/// The pool index of the return register.
pub const RETURN_INDEX: u64 = 1;

/// The pool index of the program counter.
pub const PROGRAM_COUNTER_INDEX: u64 = 2;

/// What one executed operation asks of the interpreter loop.
pub enum MachineEffect {
    /// Go on to the next fetch.
    Continue,
    /// Stop the machine.
    Halt,
    /// Print this value in decimal, with a newline.
    OutputDecimal(i64),
    /// Print this value as a character.
    OutputChar(i64),
    /// Print this word verbatim, with a newline.
    OutputBits(Vec<char>),
    /// Read a line, parse it as an integer and store it at this address.
    NeedInput(i64),
    /// A memory access fell outside the pool: a fatal segmentation fault.
    Fault(i64),
    /// The opcode names no operation: fatal.
    InvalidOpcode(u64),
}

/// A resolved operand is compatible with a machine of the given word
/// width: its word is a binary string of that width and its value is what
/// a sign-magnitude word of at most 63 bits can carry.
pub open spec fn spec_operand_fits(mv: MemoryValue, architecture: u64) -> bool {
    &&& mv.bits@.len() == architecture
    &&& is_binary(mv.bits@)
    &&& -0x4000_0000_0000_0000 < mv.value < 0x4000_0000_0000_0000
    &&& -0x4000_0000_0000_0000 < mv.address < 0x4000_0000_0000_0000
}

/// Writing `word` at signed address `addr`: inside the pool the word is
/// stored and execution continues; outside it nothing changes and the
/// effect is a fault at that address.
pub open spec fn spec_store(
    pre: Seq<Seq<char>>,
    post: Seq<Seq<char>>,
    registers: u64,
    addr: int,
    word: Seq<char>,
    effect: MachineEffect,
) -> bool {
    if 0 <= addr + registers < pre.len() {
        post == pre.update(addr + registers, word) && effect is Continue
    } else {
        post == pre && (effect matches MachineEffect::Fault(f) && f == addr)
    }
}

/// A shift that produced a carry: the carry lands in the flags register
/// as a signed 0/1 word, then the shifted word is stored at the
/// destination (or faults there, with the flags already written).
pub open spec fn spec_shift_store(
    pre: Seq<Seq<char>>,
    post: Seq<Seq<char>>,
    registers: u64,
    architecture: u64,
    dst_addr: int,
    carry: char,
    shifted: Seq<char>,
    effect: MachineEffect,
) -> bool {
    let carry_value: int = if carry == '1' {
        1
    } else {
        0
    };
    let with_flags = pre.update(
        FLAGS_INDEX as int,
        spec_signed_int(carry_value, architecture as int),
    );
    if 0 <= dst_addr + registers < pre.len() {
        post == with_flags.update(dst_addr + registers, shifted) && effect is Continue
    } else {
        post == with_flags && (effect matches MachineEffect::Fault(f) && f == dst_addr)
    }
}

/// The machine operations over a memory pool.  The pool is owned here for
/// the duration of execution.
pub struct MachineOperations {
    pub memory: Memory,
}

impl MachineOperations {
    /// The pool is well formed and holds the four special registers and
    /// at least one general-purpose register.
    pub open spec fn wf(&self) -> bool {
        &&& self.memory.well_formed()
        &&& self.memory.spec_registers() >= NUMBER_SP_REGISTERS + 1
    }

    /// The signed address of the program counter.
    pub open spec fn spec_pc_address(&self) -> int {
        PROGRAM_COUNTER_INDEX - self.memory.spec_registers()
    }

    /// Construct the operations over a pool whose register block holds
    /// `gprs` general-purpose registers and the four special registers.
    pub fn new(memory: Memory, gprs: u64) -> (r: MachineOperations)
        requires
            memory.well_formed(),
            memory.spec_registers() == gprs + NUMBER_SP_REGISTERS,
            gprs >= 1,
        ensures
            r.wf(),
            r.memory == memory,
    {
        MachineOperations { memory }
    }

    /// The signed address of the special register with the given offset.
    fn special_address(&self, offset: u64) -> (r: i64)
        requires
            self.wf(),
            1 <= offset <= NUMBER_SP_REGISTERS,
        ensures
            r + self.memory.spec_registers() == NUMBER_SP_REGISTERS - offset,
            self.memory.spec_in_range(r as int),
    {
        let registers = self.memory.registers();
        -((registers - NUMBER_SP_REGISTERS + offset) as i64)
    }

    /// Halt the machine.
    fn halt(&mut self, source: MemoryValue, destination: MemoryValue) -> (r: MachineEffect)
        requires
            old(self).wf(),
        ensures
            *final(self) == *old(self),
            r is Halt,
    {
        let _ = source;
        let _ = destination;
        MachineEffect::Halt
    }

    /// Add the source value onto the destination value.
    fn add(&mut self, source: MemoryValue, destination: MemoryValue) -> (r: MachineEffect)
        requires
            old(self).wf(),
            spec_operand_fits(source, old(self).memory.spec_architecture()),
            spec_operand_fits(destination, old(self).memory.spec_architecture()),
        ensures
            final(self).wf(),
            final(self).memory.spec_registers() == old(self).memory.spec_registers(),
            final(self).memory.spec_architecture() == old(self).memory.spec_architecture(),
            spec_store(
                old(self).memory@,
                final(self).memory@,
                old(self).memory.spec_registers(),
                destination.address as int,
                spec_signed_int(
                    destination.value + source.value,
                    old(self).memory.spec_architecture() as int,
                ),
                r,
            ),
    {
        if self.memory.valid_address(destination.address) {
            self.memory.insert_value(destination.address, destination.value + source.value);
            MachineEffect::Continue
        } else {
            MachineEffect::Fault(destination.address)
        }
    }

    /// Subtract the source value from the destination value.
    fn sub(&mut self, source: MemoryValue, destination: MemoryValue) -> (r: MachineEffect)
        requires
            old(self).wf(),
            spec_operand_fits(source, old(self).memory.spec_architecture()),
            spec_operand_fits(destination, old(self).memory.spec_architecture()),
        ensures
            final(self).wf(),
            final(self).memory.spec_registers() == old(self).memory.spec_registers(),
            final(self).memory.spec_architecture() == old(self).memory.spec_architecture(),
            spec_store(
                old(self).memory@,
                final(self).memory@,
                old(self).memory.spec_registers(),
                destination.address as int,
                spec_signed_int(
                    destination.value - source.value,
                    old(self).memory.spec_architecture() as int,
                ),
                r,
            ),
    {
        if self.memory.valid_address(destination.address) {
            self.memory.insert_value(destination.address, destination.value - source.value);
            MachineEffect::Continue
        } else {
            MachineEffect::Fault(destination.address)
        }
    }

    /// Store the destination register's word into the source cell.
    fn sta(&mut self, source: MemoryValue, destination: MemoryValue) -> (r: MachineEffect)
        requires
            old(self).wf(),
            spec_operand_fits(destination, old(self).memory.spec_architecture()),
        ensures
            final(self).wf(),
            final(self).memory.spec_registers() == old(self).memory.spec_registers(),
            final(self).memory.spec_architecture() == old(self).memory.spec_architecture(),
            spec_store(
                old(self).memory@,
                final(self).memory@,
                old(self).memory.spec_registers(),
                source.address as int,
                destination.bits@,
                r,
            ),
    {
        if self.memory.valid_address(source.address) {
            self.memory.insert_binary(source.address, destination.bits);
            MachineEffect::Continue
        } else {
            MachineEffect::Fault(source.address)
        }
    }

    /// Load the source word into the destination cell.
    fn lda(&mut self, source: MemoryValue, destination: MemoryValue) -> (r: MachineEffect)
        requires
            old(self).wf(),
            spec_operand_fits(source, old(self).memory.spec_architecture()),
        ensures
            final(self).wf(),
            final(self).memory.spec_registers() == old(self).memory.spec_registers(),
            final(self).memory.spec_architecture() == old(self).memory.spec_architecture(),
            spec_store(
                old(self).memory@,
                final(self).memory@,
                old(self).memory.spec_registers(),
                destination.address as int,
                source.bits@,
                r,
            ),
    {
        if self.memory.valid_address(destination.address) {
            self.memory.insert_binary(destination.address, source.bits);
            MachineEffect::Continue
        } else {
            MachineEffect::Fault(destination.address)
        }
    }

    /// Branch: set the program counter to the source address.
    fn bra(&mut self, source: MemoryValue, destination: MemoryValue) -> (r: MachineEffect)
        requires
            old(self).wf(),
            spec_operand_fits(source, old(self).memory.spec_architecture()),
        ensures
            final(self).wf(),
            final(self).memory.spec_registers() == old(self).memory.spec_registers(),
            final(self).memory.spec_architecture() == old(self).memory.spec_architecture(),
            final(self).memory@ == old(self).memory@.update(
                PROGRAM_COUNTER_INDEX as int,
                spec_signed_int(
                    source.address as int,
                    old(self).memory.spec_architecture() as int,
                ),
            ),
            r is Continue,
    {
        let pc = self.special_address(PROGRAM_COUNTER_OFFSET);
        self.memory.insert_value(pc, source.address);
        MachineEffect::Continue
    }

    /// Branch when the destination value is zero.
    fn brz(&mut self, source: MemoryValue, destination: MemoryValue) -> (r: MachineEffect)
        requires
            old(self).wf(),
            spec_operand_fits(source, old(self).memory.spec_architecture()),
            spec_operand_fits(destination, old(self).memory.spec_architecture()),
        ensures
            final(self).wf(),
            final(self).memory.spec_registers() == old(self).memory.spec_registers(),
            final(self).memory.spec_architecture() == old(self).memory.spec_architecture(),
            destination.value == 0 ==> final(self).memory@ == old(self).memory@.update(
                PROGRAM_COUNTER_INDEX as int,
                spec_signed_int(
                    source.address as int,
                    old(self).memory.spec_architecture() as int,
                ),
            ),
            destination.value != 0 ==> final(self).memory@ == old(self).memory@,
            r is Continue,
    {
        if destination.value == 0 {
            self.bra(source, destination)
        } else {
            MachineEffect::Continue
        }
    }

    /// Branch when the destination value is zero or positive.
    fn brp(&mut self, source: MemoryValue, destination: MemoryValue) -> (r: MachineEffect)
        requires
            old(self).wf(),
            spec_operand_fits(source, old(self).memory.spec_architecture()),
            spec_operand_fits(destination, old(self).memory.spec_architecture()),
        ensures
            final(self).wf(),
            final(self).memory.spec_registers() == old(self).memory.spec_registers(),
            final(self).memory.spec_architecture() == old(self).memory.spec_architecture(),
            destination.value >= 0 ==> final(self).memory@ == old(self).memory@.update(
                PROGRAM_COUNTER_INDEX as int,
                spec_signed_int(
                    source.address as int,
                    old(self).memory.spec_architecture() as int,
                ),
            ),
            destination.value < 0 ==> final(self).memory@ == old(self).memory@,
            r is Continue,
    {
        if destination.value >= 0 {
            self.bra(source, destination)
        } else {
            MachineEffect::Continue
        }
    }

    /// Call: save the program counter's word into the return register,
    /// then set the program counter to the source address.
    fn call(&mut self, source: MemoryValue, destination: MemoryValue) -> (r: MachineEffect)
        requires
            old(self).wf(),
            spec_operand_fits(source, old(self).memory.spec_architecture()),
        ensures
            final(self).wf(),
            final(self).memory.spec_registers() == old(self).memory.spec_registers(),
            final(self).memory.spec_architecture() == old(self).memory.spec_architecture(),
            final(self).memory@ == old(self).memory@.update(
                RETURN_INDEX as int,
                old(self).memory@[PROGRAM_COUNTER_INDEX as int],
            ).update(
                PROGRAM_COUNTER_INDEX as int,
                spec_signed_int(
                    source.address as int,
                    old(self).memory.spec_architecture() as int,
                ),
            ),
            r is Continue,
    {
        let pc = self.special_address(PROGRAM_COUNTER_OFFSET);
        let rr = self.special_address(RETURN_REGISTER_OFFSET);
        let pc_word = self.memory.get(pc);
        self.memory.insert_binary(rr, pc_word);
        self.memory.insert_value(pc, source.address);
        MachineEffect::Continue
    }

    /// Return: copy the return register's word into the program counter.
    fn ret(&mut self, source: MemoryValue, destination: MemoryValue) -> (r: MachineEffect)
        requires
            old(self).wf(),
        ensures
            final(self).wf(),
            final(self).memory.spec_registers() == old(self).memory.spec_registers(),
            final(self).memory.spec_architecture() == old(self).memory.spec_architecture(),
            final(self).memory@ == old(self).memory@.update(
                PROGRAM_COUNTER_INDEX as int,
                old(self).memory@[RETURN_INDEX as int],
            ),
            r is Continue,
    {
        let _ = source;
        let _ = destination;
        let pc = self.special_address(PROGRAM_COUNTER_OFFSET);
        let rr = self.special_address(RETURN_REGISTER_OFFSET);
        let rr_word = self.memory.get(rr);
        self.memory.insert_binary(pc, rr_word);
        MachineEffect::Continue
    }

    /// Perform the operation an opcode names on two resolved operands.
    /// Opcodes 0 through 26 behave as their contracts above describe;
    /// any other opcode is fatal and changes nothing.
    pub fn execute(&mut self, opcode: u64, source: MemoryValue, destination: MemoryValue) -> (r:
        MachineEffect)
        requires
            old(self).wf(),
            spec_operand_fits(source, old(self).memory.spec_architecture()),
            spec_operand_fits(destination, old(self).memory.spec_architecture()),
        ensures
            final(self).wf(),
            final(self).memory.spec_registers() == old(self).memory.spec_registers(),
            final(self).memory.spec_architecture() == old(self).memory.spec_architecture(),
            spec_execute_post(
                old(self).memory@,
                final(self).memory@,
                old(self).memory.spec_registers(),
                old(self).memory.spec_architecture(),
                opcode,
                source.address as int,
                source.bits@,
                source.value as int,
                destination.address as int,
                destination.bits@,
                destination.value as int,
                r,
            ),
    {
        if opcode == 0 {
            self.halt(source, destination)
        } else if opcode == 1 {
            self.add(source, destination)
        } else if opcode == 2 {
            self.sub(source, destination)
        } else if opcode == 3 {
            self.sta(source, destination)
        } else if opcode == 4 {
            MachineEffect::Continue
        } else if opcode == 5 {
            self.lda(source, destination)
        } else if opcode == 6 {
            self.bra(source, destination)
        } else if opcode == 7 {
            self.brz(source, destination)
        } else if opcode == 8 {
            self.brp(source, destination)
        } else if opcode == 9 {
            MachineEffect::NeedInput(source.address)
        } else if opcode == 10 {
            MachineEffect::OutputDecimal(source.value)
        } else if opcode == 11 {
            MachineEffect::OutputChar(source.value)
        } else if opcode == 12 {
            MachineEffect::OutputBits(source.bits)
        } else if opcode == 13 {
            let masked = bitwise_and(&source.bits, &destination.bits);
            self.store_word(destination.address, masked)
        } else if opcode == 14 {
            let masked = bitwise_or(&source.bits, &destination.bits);
            self.store_word(destination.address, masked)
        } else if opcode == 15 {
            let negated = bitwise_not(&source.bits);
            self.store_word(destination.address, negated)
        } else if opcode == 16 {
            let masked = bitwise_xor(&source.bits, &destination.bits);
            self.store_word(destination.address, masked)
        } else if opcode == 17 || opcode == 19 {
            let shifted = logical_shift_left(&destination.bits, source.value);
            match shifted {
                Some((carry, bits)) => self.store_shift(destination.address, carry, bits),
                None => MachineEffect::Continue,
            }
        } else if opcode == 18 {
            let shifted = logical_shift_right(&destination.bits, source.value);
            match shifted {
                Some((carry, bits)) => self.store_shift(destination.address, carry, bits),
                None => MachineEffect::Continue,
            }
        } else if opcode == 20 {
            let shifted = arithmetic_shift_right(&destination.bits, source.value);
            match shifted {
                Some((carry, bits)) => self.store_shift(destination.address, carry, bits),
                None => MachineEffect::Continue,
            }
        } else if opcode == 21 {
            let rotated = circular_shift_left(&destination.bits, source.value);
            match rotated {
                Some(bits) => self.store_word(destination.address, bits),
                None => MachineEffect::Continue,
            }
        } else if opcode == 22 {
            let rotated = circular_shift_right(&destination.bits, source.value);
            match rotated {
                Some(bits) => self.store_word(destination.address, bits),
                None => MachineEffect::Continue,
            }
        } else if opcode == 23 {
            let fr = self.special_address(FLAGS_REGISTER_OFFSET);
            let flags = self.memory.get(fr);
            let carry_in = flags[flags.len() - 1];
            let rotated = circular_shift_left_carry(&destination.bits, carry_in, source.value);
            match rotated {
                Some((carry, bits)) => self.store_shift(destination.address, carry, bits),
                None => MachineEffect::Continue,
            }
        } else if opcode == 24 {
            let fr = self.special_address(FLAGS_REGISTER_OFFSET);
            let flags = self.memory.get(fr);
            let carry_in = flags[flags.len() - 1];
            let rotated = circular_shift_right_carry(&destination.bits, carry_in, source.value);
            match rotated {
                Some((carry, bits)) => self.store_shift(destination.address, carry, bits),
                None => MachineEffect::Continue,
            }
        } else if opcode == 25 {
            self.call(source, destination)
        } else if opcode == 26 {
            self.ret(source, destination)
        } else {
            MachineEffect::InvalidOpcode(opcode)
        }
    }

    /// Store a word at a signed address, or fault.
    fn store_word(&mut self, addr: i64, word: Vec<char>) -> (r: MachineEffect)
        requires
            old(self).wf(),
            word@.len() == old(self).memory.spec_architecture(),
            is_binary(word@),
        ensures
            final(self).wf(),
            final(self).memory.spec_registers() == old(self).memory.spec_registers(),
            final(self).memory.spec_architecture() == old(self).memory.spec_architecture(),
            spec_store(
                old(self).memory@,
                final(self).memory@,
                old(self).memory.spec_registers(),
                addr as int,
                word@,
                r,
            ),
    {
        if self.memory.valid_address(addr) {
            self.memory.insert_binary(addr, word);
            MachineEffect::Continue
        } else {
            MachineEffect::Fault(addr)
        }
    }

    /// Record a shift's carry in the flags register, then store the
    /// shifted word at a signed address, or fault there.
    fn store_shift(&mut self, addr: i64, carry: char, word: Vec<char>) -> (r: MachineEffect)
        requires
            old(self).wf(),
            word@.len() == old(self).memory.spec_architecture(),
            is_binary(word@),
        ensures
            final(self).wf(),
            final(self).memory.spec_registers() == old(self).memory.spec_registers(),
            final(self).memory.spec_architecture() == old(self).memory.spec_architecture(),
            spec_shift_store(
                old(self).memory@,
                final(self).memory@,
                old(self).memory.spec_registers(),
                old(self).memory.spec_architecture(),
                addr as int,
                carry,
                word@,
                r,
            ),
    {
        let fr = self.special_address(FLAGS_REGISTER_OFFSET);
        let carry_value: i64 = if carry == '1' {
            1
        } else {
            0
        };
        self.memory.insert_value(fr, carry_value);
        if self.memory.valid_address(addr) {
            self.memory.insert_binary(addr, word);
            MachineEffect::Continue
        } else {
            MachineEffect::Fault(addr)
        }
    }

    /// Store a value read from the outside at the address an input
    /// request named, or fault.
    pub fn store_input(&mut self, addr: i64, value: i64) -> (r: MachineEffect)
        requires
            old(self).wf(),
            value > i64::MIN,
        ensures
            final(self).wf(),
            final(self).memory.spec_registers() == old(self).memory.spec_registers(),
            final(self).memory.spec_architecture() == old(self).memory.spec_architecture(),
            spec_store(
                old(self).memory@,
                final(self).memory@,
                old(self).memory.spec_registers(),
                addr as int,
                spec_signed_int(value as int, old(self).memory.spec_architecture() as int),
                r,
            ),
    {
        if self.memory.valid_address(addr) {
            self.memory.insert_value(addr, value);
            MachineEffect::Continue
        } else {
            MachineEffect::Fault(addr)
        }
    }
}

/// What `execute` guarantees, opcode by opcode, relating the pool before
/// and after to the effect handed back.
pub open spec fn spec_execute_post(
    pre: Seq<Seq<char>>,
    post: Seq<Seq<char>>,
    registers: u64,
    architecture: u64,
    opcode: u64,
    src_address: int,
    src_bits: Seq<char>,
    src_value: int,
    dst_address: int,
    dst_bits: Seq<char>,
    dst_value: int,
    effect: MachineEffect,
) -> bool {
    let arch = architecture as int;
    if opcode == 0 {
        post == pre && effect is Halt
    } else if opcode == 1 {
        spec_store(
            pre,
            post,
            registers,
            dst_address,
            spec_signed_int(dst_value + src_value, arch),
            effect,
        )
    } else if opcode == 2 {
        spec_store(
            pre,
            post,
            registers,
            dst_address,
            spec_signed_int(dst_value - src_value, arch),
            effect,
        )
    } else if opcode == 3 {
        spec_store(pre, post, registers, src_address, dst_bits, effect)
    } else if opcode == 4 {
        post == pre && effect is Continue
    } else if opcode == 5 {
        spec_store(pre, post, registers, dst_address, src_bits, effect)
    } else if opcode == 6 {
        post == pre.update(
            PROGRAM_COUNTER_INDEX as int,
            spec_signed_int(src_address, arch),
        ) && effect is Continue
    } else if opcode == 7 {
        &&& dst_value == 0 ==> post == pre.update(
            PROGRAM_COUNTER_INDEX as int,
            spec_signed_int(src_address, arch),
        )
        &&& dst_value != 0 ==> post == pre
        &&& effect is Continue
    } else if opcode == 8 {
        &&& dst_value >= 0 ==> post == pre.update(
            PROGRAM_COUNTER_INDEX as int,
            spec_signed_int(src_address, arch),
        )
        &&& dst_value < 0 ==> post == pre
        &&& effect is Continue
    } else if opcode == 9 {
        post == pre && (effect matches MachineEffect::NeedInput(a) && a == src_address)
    } else if opcode == 10 {
        post == pre && (effect matches MachineEffect::OutputDecimal(v) && v == src_value)
    } else if opcode == 11 {
        post == pre && (effect matches MachineEffect::OutputChar(v) && v == src_value)
    } else if opcode == 12 {
        post == pre && (effect matches MachineEffect::OutputBits(b) && b@ == src_bits)
    } else if opcode == 13 {
        spec_store(
            pre,
            post,
            registers,
            dst_address,
            spec_bitwise_and(src_bits, dst_bits),
            effect,
        )
    } else if opcode == 14 {
        spec_store(
            pre,
            post,
            registers,
            dst_address,
            spec_bitwise_or(src_bits, dst_bits),
            effect,
        )
    } else if opcode == 15 {
        spec_store(
            pre,
            post,
            registers,
            dst_address,
            spec_bitwise_not(src_bits),
            effect,
        )
    } else if opcode == 16 {
        spec_store(
            pre,
            post,
            registers,
            dst_address,
            spec_bitwise_xor(src_bits, dst_bits),
            effect,
        )
    } else if opcode == 17 || opcode == 19 {
        let n = src_value as int;
        if n < 1 {
            post == pre && effect is Continue
        } else if n > arch {
            spec_shift_store(
                pre,
                post,
                registers,
                architecture,
                dst_address,
                '0',
                repeat_char_seq('0', architecture as nat),
                effect,
            )
        } else {
            spec_shift_store(
                pre,
                post,
                registers,
                architecture,
                dst_address,
                dst_bits[n - 1],
                dst_bits.skip(n) + repeat_char_seq('0', n as nat),
                effect,
            )
        }
    } else if opcode == 18 {
        let n = src_value as int;
        if n < 1 {
            post == pre && effect is Continue
        } else if n > arch {
            spec_shift_store(
                pre,
                post,
                registers,
                architecture,
                dst_address,
                '0',
                repeat_char_seq('0', architecture as nat),
                effect,
            )
        } else {
            spec_shift_store(
                pre,
                post,
                registers,
                architecture,
                dst_address,
                dst_bits[arch - n],
                repeat_char_seq('0', n as nat) + dst_bits.take(arch - n),
                effect,
            )
        }
    } else if opcode == 20 {
        let n = src_value as int;
        if n < 1 {
            post == pre && effect is Continue
        } else if n > arch {
            spec_shift_store(
                pre,
                post,
                registers,
                architecture,
                dst_address,
                dst_bits[0],
                repeat_char_seq(dst_bits[0], architecture as nat),
                effect,
            )
        } else {
            spec_shift_store(
                pre,
                post,
                registers,
                architecture,
                dst_address,
                dst_bits[arch - n],
                repeat_char_seq(dst_bits[0], n as nat) + dst_bits.take(
                    arch - n,
                ),
                effect,
            )
        }
    } else if opcode == 21 {
        let n = src_value as int;
        let k = n % arch;
        if n < 1 || k == 0 {
            post == pre && effect is Continue
        } else {
            spec_store(
                pre,
                post,
                registers,
                dst_address,
                rotate_left(dst_bits, k),
                effect,
            )
        }
    } else if opcode == 22 {
        let n = src_value as int;
        let k = n % arch;
        if n < 1 || k == 0 {
            post == pre && effect is Continue
        } else {
            spec_store(
                pre,
                post,
                registers,
                dst_address,
                rotate_left(dst_bits, arch - k),
                effect,
            )
        }
    } else if opcode == 23 {
        let carry_in = pre[FLAGS_INDEX as int].last();
        let extended = seq![carry_in] + dst_bits;
        let n = src_value as int;
        let k = n % (arch + 1);
        if n < 1 || k == 0 {
            post == pre && effect is Continue
        } else {
            let rotated = rotate_left(extended, k);
            spec_shift_store(
                pre,
                post,
                registers,
                architecture,
                dst_address,
                rotated[0],
                rotated.skip(1),
                effect,
            )
        }
    } else if opcode == 24 {
        let carry_in = pre[FLAGS_INDEX as int].last();
        let extended = dst_bits + seq![carry_in];
        let n = src_value as int;
        let k = n % (arch + 1);
        if n < 1 || k == 0 {
            post == pre && effect is Continue
        } else {
            let rotated = rotate_left(extended, (arch + 1) - k);
            spec_shift_store(
                pre,
                post,
                registers,
                architecture,
                dst_address,
                rotated.last(),
                rotated.drop_last(),
                effect,
            )
        }
    } else if opcode == 25 {
        post == pre.update(RETURN_INDEX as int, pre[PROGRAM_COUNTER_INDEX as int]).update(
            PROGRAM_COUNTER_INDEX as int,
            spec_signed_int(src_address, arch),
        ) && effect is Continue
    } else if opcode == 26 {
        post == pre.update(PROGRAM_COUNTER_INDEX as int, pre[RETURN_INDEX as int]) && effect
            is Continue
    } else {
        post == pre && effect == MachineEffect::InvalidOpcode(opcode)
    }
}

} // verus!
