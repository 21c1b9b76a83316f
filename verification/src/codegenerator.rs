//! The code generator: scopes laid out in memory and each instruction
//! statement assembled into one bit-packed binary word.
//!
//! A word is the concatenation `[opcode][addressing mode][source
//! operand][destination operand]`; operand fields are sign-magnitude
//! encoded.  The global scope's instructions come first, then its
//! variables, then each procedure's instructions and variables in source
//! order.

use vstd::prelude::*;
use vstd::arithmetic::power2::pow2;
use crate::binarystring::{
    number_bits, spec_number_bits, lemma_number_bits_le, unsigned_int, signed_int,
    spec_unsigned_int, spec_signed_int, is_binary,
};
use crate::defaults::{SymbolTypes, ConfigTable, wrap_bound, spec_wrap_bound};
use crate::tokens::{TypedToken, TokenTypes, parse_decimal_i64, spec_decimal_token_value};
use crate::structs::{Scope, Symbol, SymbolTable, Operand, Memory, Instruction};
use crate::architecture::{
    NUMBER_INSTRUCTIONS, NUMBER_MODES, NUMBER_SP_REGISTERS, instruction_lookup,
    spec_instruction_lookup, addressing_mode_lookup, sp_register_lookup,
    spec_sp_register_lookup, spec_addressing_mode_lookup,
};

verus! {

/// Why code generation stopped.
#[derive(Clone, Copy, PartialEq, Eq, Structural, Debug)]
pub enum CodeGenErrors {
    /// The configured memory or register count is beyond what the
    /// generator can address.
    ConfigTooLarge,
    /// A token could not be read as the operand or instruction it stands
    /// for.
    InvalidToken,
    /// A word or variable would land outside the memory pool.
    SegmentationFault,
}

/// The largest memory size the generator accepts.  Words are decoded
/// into signed 64-bit values throughout the interpreter, which caps the
/// architecture at 62 bits; with the fixed opcode and mode fields that
/// leaves 27 bits per operand field, so at most `2^25` addresses.
pub const MEMORY_LIMIT: u64 = 0x0200_0000;

/// The largest number of general-purpose registers the generator
/// accepts, for the same word-width reason as the memory cap (and so
/// that the register block stays clear of it).
pub const REGISTER_LIMIT: u64 = 0x0100_0000;

/// The first position carrying `name` at or after `i`, or the table's
/// length when the name is absent.
pub open spec fn spec_first_index(
    table: Seq<(Seq<char>, Symbol)>,
    name: Seq<char>,
    i: int,
) -> int
    decreases table.len() - i when 0 <= i
{
    if i >= table.len() {
        i
    } else if table[i].0 == name {
        i
    } else {
        spec_first_index(table, name, i + 1)
    }
}

proof fn lemma_first_index_unique(table: Seq<(Seq<char>, Symbol)>, name: Seq<char>, i: int, j: int)
    requires
        0 <= i <= j <= table.len(),
        forall|k: int| i <= k < j ==> table[k].0 != name,
        j == table.len() || table[j].0 == name,
    ensures
        spec_first_index(table, name, i) == j,
    decreases j - i,
{
    if i < j {
        lemma_first_index_unique(table, name, i + 1, j);
    }
}

/// Two counters added with saturation, staying a counter.
pub open spec fn spec_saturating_add_u64(a: u64, b: u64) -> u64 {
    if a + b <= u64::MAX {
        (a + b) as u64
    } else {
        u64::MAX
    }
}

/// The global table after the procedure symbols from position `p` on
/// are pointed at their layout offsets: each procedure's first entry
/// becomes a procedure symbol at the running offset (capped at the
/// address ceiling), and the offset advances by the procedure's
/// instruction and variable counts.
pub open spec fn spec_assigned_procedures(
    table: Seq<(Seq<char>, Symbol)>,
    procedures: Seq<(Vec<char>, Scope)>,
    p: int,
    offset: u64,
) -> Seq<(Seq<char>, Symbol)>
    decreases procedures.len() - p when 0 <= p
{
    if p >= procedures.len() {
        table
    } else {
        let j = spec_first_index(table, procedures[p].0@, 0);
        let value: i64 = if offset <= 0x4000_0000_0000_0000 {
            offset as i64
        } else {
            0x4000_0000_0000_0000
        };
        let updated = if j < table.len() {
            table.update(
                j,
                (table[j].0, Symbol { symbol_value: value, symbol_type: SymbolTypes::Procedure }),
            )
        } else {
            table
        };
        spec_assigned_procedures(
            updated,
            procedures,
            p + 1,
            spec_saturating_add_u64(
                offset,
                spec_saturating_add_u64(
                    procedures[p].1.num_instructions,
                    procedures[p].1.num_variables,
                ),
            ),
        )
    }
}

/// Point every procedure's symbol in the global table at its place in
/// the final layout: the running offset of instructions and variables
/// laid out before it.  The resulting table is exactly
/// `spec_assigned_procedures` of the old one.
pub fn update_global_symbols(
    global_scope: &mut Scope,
    procedure_scopes: &Vec<(Vec<char>, Scope)>,
)
    requires
        old(global_scope).symbol_table.well_formed(),
    ensures
        final(global_scope).symbol_table.well_formed(),
        final(global_scope).symbol_table@ == spec_assigned_procedures(
            old(global_scope).symbol_table@,
            procedure_scopes@,
            0,
            spec_saturating_add_u64(
                old(global_scope).num_instructions,
                old(global_scope).num_variables,
            ),
        ),
        final(global_scope).tokens == old(global_scope).tokens,
        final(global_scope).num_instructions == old(global_scope).num_instructions,
        final(global_scope).num_variables == old(global_scope).num_variables,
{
    let ghost t0 = old(global_scope).symbol_table@;
    let ghost base = spec_saturating_add_u64(
        old(global_scope).num_instructions,
        old(global_scope).num_variables,
    );
    let mut offset: u64 = saturating_add_u64(
        global_scope.num_instructions,
        global_scope.num_variables,
    );
    let mut p: usize = 0;
    while p < procedure_scopes.len()
        invariant
            p <= procedure_scopes@.len(),
            global_scope.symbol_table.well_formed(),
            global_scope.tokens == old(global_scope).tokens,
            global_scope.num_instructions == old(global_scope).num_instructions,
            global_scope.num_variables == old(global_scope).num_variables,
            spec_assigned_procedures(t0, procedure_scopes@, 0, base)
                == spec_assigned_procedures(
                global_scope.symbol_table@,
                procedure_scopes@,
                p as int,
                offset,
            ),
        decreases procedure_scopes@.len() - p,
    {
        let ghost table_before = global_scope.symbol_table@;
        let found = global_scope.symbol_table.find_index(&procedure_scopes[p].0);
        proof {
            match found {
                Some(i) => {
                    lemma_first_index_unique(
                        table_before,
                        procedure_scopes@[p as int].0@,
                        0,
                        i as int,
                    );
                },
                None => {
                    crate::structs::lemma_find_symbol_exists(
                        table_before,
                        procedure_scopes@[p as int].0@,
                    );
                    lemma_first_index_unique(
                        table_before,
                        procedure_scopes@[p as int].0@,
                        0,
                        table_before.len() as int,
                    );
                },
            }
        }
        match found {
            Some(i) => {
                let value: i64 = if offset <= 0x4000_0000_0000_0000 {
                    offset as i64
                } else {
                    0x4000_0000_0000_0000
                };
                global_scope.symbol_table.update_symbol(
                    i,
                    Symbol { symbol_value: value, symbol_type: SymbolTypes::Procedure },
                );
            },
            None => {
            },
        }
        offset = saturating_add_u64(
            offset,
            saturating_add_u64(
                procedure_scopes[p].1.num_instructions,
                procedure_scopes[p].1.num_variables,
            ),
        );
        p = p + 1;
    }
}

/// Two counters added with saturation instead of wrapping.
pub open spec fn spec_saturating_add(a: u64, b: u64) -> int {
    if a + b <= u64::MAX {
        a + b
    } else {
        u64::MAX as int
    }
}

/// Add two counters, saturating instead of wrapping.
fn saturating_add_u64(a: u64, b: u64) -> (r: u64)
    ensures
        r == spec_saturating_add(a, b),
        r == spec_saturating_add_u64(a, b),
{
    if a <= u64::MAX - b {
        a + b
    } else {
        u64::MAX
    }
}

/// What an operand's value token resolves to at compile time: a label's
/// symbol value (scope table first, global second), a literal's parsed
/// value, a special register's address, or a general-purpose register's
/// wrapped, negated index.
pub open spec fn spec_resolve_compile_operand(
    value_type: TokenTypes,
    value: Seq<char>,
    scope_table: Seq<(Seq<char>, Symbol)>,
    global_table: Seq<(Seq<char>, Symbol)>,
    number_gprs: u64,
) -> Option<int> {
    if value_type == TokenTypes::Label {
        match crate::structs::spec_find_symbol(scope_table, value) {
            Some(s) => Some(s.symbol_value as int),
            None => match crate::structs::spec_find_symbol(global_table, value) {
                Some(s) => Some(s.symbol_value as int),
                None => None,
            },
        }
    } else if value_type == TokenTypes::Value {
        if crate::tokens::spec_decimal_parsable(value) {
            Some(spec_decimal_token_value(value))
        } else {
            None
        }
    } else if value_type == TokenTypes::Register {
        match spec_sp_register_lookup(value) {
            Some(r) => Some(-(number_gprs + r.offset)),
            None => {
                if crate::tokens::spec_decimal_parsable(value) {
                    Some(
                        -spec_wrap_bound(
                            1,
                            number_gprs as int,
                            spec_decimal_token_value(value),
                        ),
                    )
                } else {
                    None
                }
            },
        }
    } else {
        None
    }
}

/// Resolve the value an operand names at compile time.
pub fn resolve_operand(
    operand: &Operand,
    scope_symbol_table: &SymbolTable,
    global_symbol_table: &SymbolTable,
    number_gprs: u64,
) -> (r: Option<i64>)
    requires
        1 <= number_gprs <= REGISTER_LIMIT,
    ensures
        r matches Some(v) ==> spec_resolve_compile_operand(
            operand.operand_value.token_type,
            operand.operand_value.token_value@,
            scope_symbol_table@,
            global_symbol_table@,
            number_gprs,
        ) == Some(v as int),
        r is None ==> spec_resolve_compile_operand(
            operand.operand_value.token_type,
            operand.operand_value.token_value@,
            scope_symbol_table@,
            global_symbol_table@,
            number_gprs,
        ) is None,
{
    if operand.operand_value.token_type == TokenTypes::Label {
        let local = scope_symbol_table.lookup(&operand.operand_value.token_value);
        match local {
            Some(s) => Some(s.symbol_value),
            None => {
                let global = global_symbol_table.lookup(&operand.operand_value.token_value);
                match global {
                    Some(s) => Some(s.symbol_value),
                    None => None,
                }
            },
        }
    } else if operand.operand_value.token_type == TokenTypes::Value {
        parse_decimal_i64(&operand.operand_value.token_value)
    } else if operand.operand_value.token_type == TokenTypes::Register {
        let special = sp_register_lookup(&operand.operand_value.token_value);
        match special {
            Some(register) => Some(-((number_gprs + register.offset) as i64)),
            None => {
                let parsed = parse_decimal_i64(&operand.operand_value.token_value);
                match parsed {
                    Some(v) => Some(-wrap_bound(1, number_gprs as i64, v)),
                    None => None,
                }
            },
        }
    } else {
        None
    }
}

/// Whether a word can be built for the given operands: the source's
/// addressing mode is known, both operand values resolve, and neither
/// resolved value is the one signed value whose magnitude has no
/// sign-magnitude encoding.
pub open spec fn spec_word_buildable(
    source_operand: Operand,
    destination_operand: Operand,
    scope_table: Seq<(Seq<char>, Symbol)>,
    global_table: Seq<(Seq<char>, Symbol)>,
    number_gprs: u64,
) -> bool {
    let mode = spec_addressing_mode_lookup(source_operand.addressing_mode.token_value@);
    let src = spec_resolve_compile_operand(
        source_operand.operand_value.token_type,
        source_operand.operand_value.token_value@,
        scope_table,
        global_table,
        number_gprs,
    );
    let dst = spec_resolve_compile_operand(
        destination_operand.operand_value.token_type,
        destination_operand.operand_value.token_value@,
        scope_table,
        global_table,
        number_gprs,
    );
    &&& mode is Some
    &&& src is Some
    &&& dst is Some
    &&& src.unwrap() != i64::MIN
    &&& dst.unwrap() != i64::MIN
}

/// The binary word for one instruction: the opcode, the source operand's
/// addressing mode, and the two sign-magnitude operand fields,
/// concatenated most significant field first.  The destination's mode
/// field is always the register mode's.
pub fn generate_machine_operation(
    instruction: &Instruction,
    source_operand: &Operand,
    destination_operand: &Operand,
    scope_symbol_table: &SymbolTable,
    global_symbol_table: &SymbolTable,
    number_gprs: u64,
    machine_operation_bits: u64,
    addressing_mode_bits: u64,
    operand_bits: u64,
) -> (r: Option<Vec<char>>)
    requires
        1 <= number_gprs <= REGISTER_LIMIT,
        1 <= machine_operation_bits <= 62,
        1 <= addressing_mode_bits <= 62,
        2 <= operand_bits <= 62,
        instruction.opcode < NUMBER_INSTRUCTIONS,
    ensures
        r is Some <==> spec_word_buildable(
            *source_operand,
            *destination_operand,
            scope_symbol_table@,
            global_symbol_table@,
            number_gprs,
        ),
        r matches Some(word) ==> {
            let mode = spec_addressing_mode_lookup(source_operand.addressing_mode.token_value@);
            let src = spec_resolve_compile_operand(
                source_operand.operand_value.token_type,
                source_operand.operand_value.token_value@,
                scope_symbol_table@,
                global_symbol_table@,
                number_gprs,
            );
            let dst = spec_resolve_compile_operand(
                destination_operand.operand_value.token_type,
                destination_operand.operand_value.token_value@,
                scope_symbol_table@,
                global_symbol_table@,
                number_gprs,
            );
            &&& mode is Some
            &&& src is Some
            &&& dst is Some
            &&& word@ == spec_unsigned_int(
                instruction.opcode as int,
                machine_operation_bits as int,
            ) + spec_unsigned_int(mode.unwrap().opcode as int, addressing_mode_bits as int)
                + spec_signed_int(src.unwrap(), operand_bits as int) + spec_signed_int(
                dst.unwrap(),
                operand_bits as int,
            )
            &&& word@.len() == machine_operation_bits + addressing_mode_bits + 2 * operand_bits
            &&& is_binary(word@)
        },
{
    let mode = addressing_mode_lookup(&source_operand.addressing_mode.token_value);
    let mode_opcode = match mode {
        Some(m) => m.opcode,
        None => {
            return None;
        },
    };
    let source_value = resolve_operand(
        source_operand,
        scope_symbol_table,
        global_symbol_table,
        number_gprs,
    );
    let source_value = match source_value {
        Some(v) => v,
        None => {
            return None;
        },
    };
    let destination_value = resolve_operand(
        destination_operand,
        scope_symbol_table,
        global_symbol_table,
        number_gprs,
    );
    let destination_value = match destination_value {
        Some(v) => v,
        None => {
            return None;
        },
    };
    if source_value == i64::MIN || destination_value == i64::MIN {
        return None;
    }
    let mut word = unsigned_int(instruction.opcode as i64, machine_operation_bits as i64);
    let mut mode_binary = unsigned_int(mode_opcode as i64, addressing_mode_bits as i64);
    let mut source_binary = signed_int(source_value, operand_bits as i64);
    let mut destination_binary = signed_int(destination_value, operand_bits as i64);
    let ghost u1 = word@;
    word.append(&mut mode_binary);
    let ghost u2 = word@;
    word.append(&mut source_binary);
    let ghost u3 = word@;
    word.append(&mut destination_binary);
    proof {
        crate::binarystring::lemma_is_binary_concat(u1, u2.skip(u1.len() as int));
        assert(u2 =~= u1 + u2.skip(u1.len() as int));
        crate::binarystring::lemma_is_binary_concat(u2, u3.skip(u2.len() as int));
        assert(u3 =~= u2 + u3.skip(u2.len() as int));
        crate::binarystring::lemma_is_binary_concat(u3, word@.skip(u3.len() as int));
        assert(word@ =~= u3 + word@.skip(u3.len() as int));
    }
    Some(word)
}

/// How many variable symbols stand before entry `i` of a table.
pub open spec fn spec_variables_before(table: Seq<(Seq<char>, Symbol)>, i: int) -> int
    decreases i when 0 <= i <= table.len()
{
    if i <= 0 {
        0
    } else {
        spec_variables_before(table, i - 1) + (
        if table[i - 1].1.symbol_type == SymbolTypes::Variable {
            1int
        } else {
            0int
        })
    }
}

proof fn lemma_variables_before_bounds(table: Seq<(Seq<char>, Symbol)>, i: int)
    requires
        0 <= i <= table.len(),
    ensures
        0 <= spec_variables_before(table, i) <= i,
    decreases i,
{
    if i > 0 {
        lemma_variables_before_bounds(table, i - 1);
    }
}

proof fn lemma_variables_before_monotonic(table: Seq<(Seq<char>, Symbol)>, j: int, i: int)
    requires
        0 <= j < i <= table.len(),
        table[j].1.symbol_type == SymbolTypes::Variable,
    ensures
        spec_variables_before(table, j) + 1 <= spec_variables_before(table, i),
    decreases i - j,
{
    if j + 1 < i {
        lemma_variables_before_bounds(table, j);
        lemma_variables_before_monotonic(table, j, i - 1);
    }
}

/// Lay a scope's local symbols out: branch targets move from
/// scope-relative to absolute code addresses, and each variable's
/// initial value is written at the next free cell behind the code, the
/// symbol then pointing at that cell.  On success every branch symbol
/// has moved by `index`, the variables sit at consecutive cells behind
/// the scope's instructions holding their encoded initial values, and no
/// other cell changed.
#[verifier::rlimit(90)]
#[verifier::spinoff_prover]
pub fn update_local_symbols(
    index: u64,
    offset: &mut u64,
    scope: &mut Scope,
    memory: &mut Memory,
) -> (r: Result<(), CodeGenErrors>)
    requires
        old(memory).well_formed(),
        old(scope).symbol_table.well_formed(),
        index <= 0x1000_0000_0000,
    ensures
        final(memory).well_formed(),
        final(memory).spec_registers() == old(memory).spec_registers(),
        final(memory).spec_architecture() == old(memory).spec_architecture(),
        final(memory)@.len() == old(memory)@.len(),
        final(scope).symbol_table.well_formed(),
        r != Err::<(), CodeGenErrors>(CodeGenErrors::ConfigTooLarge),
        r is Ok ==> ({
            let t0 = old(scope).symbol_table@;
            let base = spec_saturating_add(*old(offset), old(scope).num_instructions);
            let registers = old(memory).spec_registers();
            let architecture = old(memory).spec_architecture();
            &&& final(scope).symbol_table@.len() == t0.len()
            &&& forall|j: int|
                0 <= j < t0.len() ==> #[trigger] final(scope).symbol_table@[j] == (
                if t0[j].1.symbol_type == SymbolTypes::Branch {
                    (
                        t0[j].0,
                        Symbol {
                            symbol_value: (t0[j].1.symbol_value + index) as i64,
                            symbol_type: SymbolTypes::Branch,
                        },
                    )
                } else if t0[j].1.symbol_type == SymbolTypes::Variable {
                    (
                        t0[j].0,
                        Symbol {
                            symbol_value: (base + spec_variables_before(t0, j)) as i64,
                            symbol_type: SymbolTypes::Variable,
                        },
                    )
                } else {
                    t0[j]
                })
            &&& forall|a: int|
                0 <= a < old(memory)@.len() && !(base + registers <= a < base
                    + spec_variables_before(t0, t0.len() as int) + registers)
                    ==> final(memory)@[a] == old(memory)@[a]
            &&& forall|j: int|
                0 <= j < t0.len() && (#[trigger] t0[j].1).symbol_type == SymbolTypes::Variable
                    ==> final(memory)@[base + spec_variables_before(t0, j) + registers]
                    == spec_signed_int(t0[j].1.symbol_value as int, architecture as int)
            &&& *final(offset) == base + spec_variables_before(t0, t0.len() as int)
        }),
{
    let ghost t0 = old(scope).symbol_table@;
    *offset = saturating_add_u64(*offset, scope.num_instructions);
    let ghost base = *offset as int;
    proof {
        lemma_variables_before_bounds(t0, t0.len() as int);
    }
    let mut i: usize = 0;
    let table_len = scope.symbol_table.len();
    while i < table_len
        invariant
            i <= table_len,
            table_len == scope.symbol_table@.len() == t0.len(),
            memory.well_formed(),
            memory.spec_registers() == old(memory).spec_registers(),
            memory.spec_architecture() == old(memory).spec_architecture(),
            memory@.len() == old(memory)@.len(),
            scope.symbol_table.well_formed(),
            index <= 0x1000_0000_0000,
            base == spec_saturating_add(*old(offset), old(scope).num_instructions),
            *offset as int == base + spec_variables_before(t0, i as int),
            forall|j: int|
                0 <= j < i ==> #[trigger] scope.symbol_table@[j] == (
                if t0[j].1.symbol_type == SymbolTypes::Branch {
                    (
                        t0[j].0,
                        Symbol {
                            symbol_value: (t0[j].1.symbol_value + index) as i64,
                            symbol_type: SymbolTypes::Branch,
                        },
                    )
                } else if t0[j].1.symbol_type == SymbolTypes::Variable {
                    (
                        t0[j].0,
                        Symbol {
                            symbol_value: (base + spec_variables_before(t0, j)) as i64,
                            symbol_type: SymbolTypes::Variable,
                        },
                    )
                } else {
                    t0[j]
                }),
            forall|j: int| i <= j < t0.len() ==> #[trigger] scope.symbol_table@[j] == t0[j],
            forall|a: int|
                0 <= a < old(memory)@.len() && !(base + memory.spec_registers() <= a < base
                    + spec_variables_before(t0, i as int) + memory.spec_registers())
                    ==> memory@[a] == old(memory)@[a],
            forall|j: int|
                0 <= j < i && (#[trigger] t0[j].1).symbol_type == SymbolTypes::Variable
                    ==> memory@[base + spec_variables_before(t0, j) + memory.spec_registers()]
                    == spec_signed_int(
                    t0[j].1.symbol_value as int,
                    memory.spec_architecture() as int,
                ),
        decreases table_len - i,
    {
        proof {
            lemma_variables_before_bounds(t0, i as int);
        }
        let symbol = scope.symbol_table.symbol_at(i);
        if symbol.symbol_type == SymbolTypes::Branch {
            if symbol.symbol_value > 0x4000_0000_0000_0000 || symbol.symbol_value
                < -0x4000_0000_0000_0000 {
                return Err(CodeGenErrors::InvalidToken);
            }
            scope.symbol_table.update_symbol(
                i,
                Symbol {
                    symbol_value: symbol.symbol_value + (index as i64),
                    symbol_type: SymbolTypes::Branch,
                },
            );
            proof {
                assert(scope.symbol_table@[i as int].0 == t0[i as int].0);
            }
        } else if symbol.symbol_type == SymbolTypes::Variable {
            if *offset > 0x4000_0000_0000_0000 {
                return Err(CodeGenErrors::SegmentationFault);
            }
            let address = *offset as i64;
            if !memory.valid_address(address) {
                return Err(CodeGenErrors::SegmentationFault);
            }
            if symbol.symbol_value == i64::MIN {
                return Err(CodeGenErrors::InvalidToken);
            }
            let ghost pre_memory = memory@;
            memory.insert_value(address, symbol.symbol_value);
            scope.symbol_table.update_symbol(
                i,
                Symbol { symbol_value: address, symbol_type: SymbolTypes::Variable },
            );
            proof {
                assert(scope.symbol_table@[i as int].0 == t0[i as int].0);
                assert forall|j: int|
                    0 <= j < i && (#[trigger] t0[j].1).symbol_type == SymbolTypes::Variable
                        implies memory@[base + spec_variables_before(t0, j)
                        + memory.spec_registers()] == spec_signed_int(
                        t0[j].1.symbol_value as int,
                        memory.spec_architecture() as int,
                    ) by {
                    lemma_variables_before_monotonic(t0, j, i as int);
                    lemma_variables_before_bounds(t0, j);
                    let cell = base + spec_variables_before(t0, j) + memory.spec_registers();
                    assert(spec_variables_before(t0, j) < spec_variables_before(t0, i as int));
                    assert(address as int == base + spec_variables_before(t0, i as int));
                    assert(cell < address + memory.spec_registers());
                    assert(0 <= cell < memory@.len());
                    assert(memory@ == pre_memory.update(
                        address + memory.spec_registers(),
                        spec_signed_int(
                            t0[i as int].1.symbol_value as int,
                            memory.spec_architecture() as int,
                        ),
                    ));
                    assert(memory@[cell] == pre_memory[cell]);
                }
            }
            *offset = saturating_add_u64(*offset, 1);
        }
        i = i + 1;
    }
    proof {
        assert(*offset as int == base + spec_variables_before(t0, t0.len() as int));
        assert forall|a: int|
            0 <= a < old(memory)@.len() && !(base + old(memory).spec_registers() <= a < base
                + spec_variables_before(t0, t0.len() as int) + old(memory).spec_registers())
            implies memory@[a] == old(memory)@[a] by {
            assert(!(base + memory.spec_registers() <= a < base + spec_variables_before(
                t0,
                t0.len() as int,
            ) + memory.spec_registers()));
        }
    }
    Ok(())
}

/// The word an instruction statement at position `i` assembles to, read
/// at the fixed offsets the analyser's defaulting guarantees: the mode
/// and value tokens right after the instruction, and (for two operands)
/// the pair after the separator.  `None` when the statement cannot be
/// assembled.
pub open spec fn spec_statement_word(
    tokens: Seq<TypedToken>,
    i: int,
    scope_table: Seq<(Seq<char>, Symbol)>,
    global_table: Seq<(Seq<char>, Symbol)>,
    number_gprs: u64,
    machine_operation_bits: u64,
    addressing_mode_bits: u64,
    operand_bits: u64,
) -> Option<Seq<char>>
    recommends
        0 <= i < tokens.len(),
{
    match spec_instruction_lookup(tokens[i].token_value@) {
        None => None,
        Some(instruction) => {
            if instruction.operands > 0 && tokens.len() - i <= 2 {
                None
            } else if instruction.operands > 1 && tokens.len() - i <= 5 {
                None
            } else {
                let src_mode = if instruction.operands > 0 {
                    tokens[i + 1].token_value@
                } else {
                    "%"@
                };
                let src_type = if instruction.operands > 0 {
                    tokens[i + 2].token_type
                } else {
                    TokenTypes::Value
                };
                let src_value = if instruction.operands > 0 {
                    tokens[i + 2].token_value@
                } else {
                    "0"@
                };
                let dst_type = if instruction.operands > 1 {
                    tokens[i + 5].token_type
                } else {
                    TokenTypes::Value
                };
                let dst_value = if instruction.operands > 1 {
                    tokens[i + 5].token_value@
                } else {
                    "0"@
                };
                let mode = spec_addressing_mode_lookup(src_mode);
                let src = spec_resolve_compile_operand(
                    src_type,
                    src_value,
                    scope_table,
                    global_table,
                    number_gprs,
                );
                let dst = spec_resolve_compile_operand(
                    dst_type,
                    dst_value,
                    scope_table,
                    global_table,
                    number_gprs,
                );
                if mode is None || src is None || dst is None || src.unwrap() == i64::MIN
                    || dst.unwrap() == i64::MIN {
                    None
                } else {
                    Some(
                        spec_unsigned_int(
                            instruction.opcode as int,
                            machine_operation_bits as int,
                        ) + spec_unsigned_int(
                            mode.unwrap().opcode as int,
                            addressing_mode_bits as int,
                        ) + spec_signed_int(src.unwrap(), operand_bits as int) + spec_signed_int(
                            dst.unwrap(),
                            operand_bits as int,
                        ),
                    )
                }
            }
        },
    }
}

/// The words of every instruction statement from position `i` on, in
/// statement order.
pub open spec fn spec_scope_words(
    tokens: Seq<TypedToken>,
    i: int,
    scope_table: Seq<(Seq<char>, Symbol)>,
    global_table: Seq<(Seq<char>, Symbol)>,
    number_gprs: u64,
    machine_operation_bits: u64,
    addressing_mode_bits: u64,
    operand_bits: u64,
) -> Seq<Option<Seq<char>>>
    decreases tokens.len() - i when 0 <= i <= tokens.len()
{
    if i >= tokens.len() {
        Seq::empty()
    } else if tokens[i].token_type == TokenTypes::Instruction {
        seq![
            spec_statement_word(
                tokens,
                i,
                scope_table,
                global_table,
                number_gprs,
                machine_operation_bits,
                addressing_mode_bits,
                operand_bits,
            ),
        ] + spec_scope_words(
            tokens,
            i + 1,
            scope_table,
            global_table,
            number_gprs,
            machine_operation_bits,
            addressing_mode_bits,
            operand_bits,
        )
    } else {
        spec_scope_words(
            tokens,
            i + 1,
            scope_table,
            global_table,
            number_gprs,
            machine_operation_bits,
            addressing_mode_bits,
            operand_bits,
        )
    }
}

/// The pool with the given words laid out at consecutive code cells from
/// `start` on.
pub open spec fn spec_place_words(
    mem: Seq<Seq<char>>,
    registers: u64,
    start: int,
    words: Seq<Option<Seq<char>>>,
) -> Seq<Seq<char>>
    decreases words.len(),
{
    if words.len() == 0 {
        mem
    } else {
        spec_place_words(
            mem.update(start + registers, words[0].unwrap()),
            registers,
            start + 1,
            words.skip(1),
        )
    }
}

/// Placing one more word first lays out the rest, then writes the new
/// word at the next cell.
proof fn lemma_place_words_push(
    mem: Seq<Seq<char>>,
    registers: u64,
    start: int,
    words: Seq<Option<Seq<char>>>,
    word: Seq<char>,
)
    requires
        0 <= start,
        start + words.len() + registers < mem.len(),
    ensures
        spec_place_words(mem, registers, start, words.push(Some(word)))
            == spec_place_words(mem, registers, start, words).update(
            start + words.len() + registers,
            word,
        ),
    decreases words.len(),
{
    reveal_with_fuel(spec_place_words, 3);
    if words.len() == 0 {
        assert(words.push(Some(word))[0] == Some(word));
        assert(words.push(Some(word)).skip(1) =~= Seq::<Option<Seq<char>>>::empty());
        assert(spec_place_words(mem, registers, start, words.push(Some(word))) == mem.update(
            start + registers,
            word,
        ));
        assert(spec_place_words(mem, registers, start, words) == mem);
    } else {
        let shifted = mem.update(start + registers, words[0].unwrap());
        assert(words.push(Some(word))[0] == words[0]);
        assert(words.push(Some(word)).skip(1) =~= words.skip(1).push(Some(word)));
        lemma_place_words_push(shifted, registers, start + 1, words.skip(1), word);
        assert(spec_place_words(mem, registers, start, words.push(Some(word)))
            == spec_place_words(shifted, registers, start + 1, words.skip(1).push(Some(word))));
        assert(spec_place_words(mem, registers, start, words) == spec_place_words(
            shifted,
            registers,
            start + 1,
            words.skip(1),
        ));
        assert(start + 1 + words.skip(1).len() + registers == start + words.len() + registers);
    }
}

/// Assemble every instruction statement of a scope into memory, one word
/// per instruction, starting at `index`; afterwards the next free code
/// cell is where the scope's variables ended.  On success the pool holds
/// exactly the scope's statement words at consecutive cells; when every
/// statement assembles and they all fit behind the starting cell, the
/// function succeeds.
pub fn generate_code(
    index: &mut u64,
    offset: &mut u64,
    scope_tokens: &Vec<TypedToken>,
    scope_symbol_table: &SymbolTable,
    global_symbol_table: &SymbolTable,
    memory: &mut Memory,
    number_gprs: u64,
    machine_operation_bits: u64,
    addressing_mode_bits: u64,
    operand_bits: u64,
) -> (r: Result<(), CodeGenErrors>)
    requires
        old(memory).well_formed(),
        1 <= number_gprs <= REGISTER_LIMIT,
        1 <= machine_operation_bits <= 62,
        1 <= addressing_mode_bits <= 62,
        2 <= operand_bits <= 62,
        old(memory).spec_architecture() == machine_operation_bits + addressing_mode_bits + 2
            * operand_bits,
        *old(index) <= 0x4000_0000_0000_0000,
    ensures
        final(memory).well_formed(),
        final(memory).spec_registers() == old(memory).spec_registers(),
        final(memory).spec_architecture() == old(memory).spec_architecture(),
        final(memory)@.len() == old(memory)@.len(),
        *final(offset) == *old(offset),
        r != Err::<(), CodeGenErrors>(CodeGenErrors::ConfigTooLarge),
        ({
            let words = spec_scope_words(
                scope_tokens@,
                0,
                scope_symbol_table@,
                global_symbol_table@,
                number_gprs,
                machine_operation_bits,
                addressing_mode_bits,
                operand_bits,
            );
            &&& r is Ok ==> {
                &&& forall|k: int| 0 <= k < words.len() ==> (#[trigger] words[k]) is Some
                &&& final(memory)@ == spec_place_words(
                    old(memory)@,
                    old(memory).spec_registers(),
                    *old(index) as int,
                    words,
                )
                &&& *final(index) == *old(offset)
            }
            &&& (forall|k: int| 0 <= k < words.len() ==> (#[trigger] words[k]) is Some)
                && *old(index) + words.len() + old(memory).spec_registers() <= old(
                memory,
            )@.len() ==> r is Ok
        }),
{
    let ghost words = spec_scope_words(
        scope_tokens@,
        0,
        scope_symbol_table@,
        global_symbol_table@,
        number_gprs,
        machine_operation_bits,
        addressing_mode_bits,
        operand_bits,
    );
    let ghost start_index = *index as int;
    let mut i: usize = 0;
    let mut placed: u64 = 0;
    while i < scope_tokens.len()
        invariant
            i <= scope_tokens@.len(),
            memory.well_formed(),
            memory.spec_registers() == old(memory).spec_registers(),
            memory.spec_architecture() == old(memory).spec_architecture(),
            memory@.len() == old(memory)@.len(),
            memory.spec_architecture() == machine_operation_bits + addressing_mode_bits + 2
                * operand_bits,
            *offset == *old(offset),
            placed <= words.len(),
            *index == start_index + placed,
            words =~= words.take(placed as int) + spec_scope_words(
                scope_tokens@,
                i as int,
                scope_symbol_table@,
                global_symbol_table@,
                number_gprs,
                machine_operation_bits,
                addressing_mode_bits,
                operand_bits,
            ),
            forall|k: int| 0 <= k < placed ==> (#[trigger] words[k]) is Some,
            memory@ == spec_place_words(
                old(memory)@,
                old(memory).spec_registers(),
                start_index,
                words.take(placed as int),
            ),
        decreases scope_tokens@.len() - i,
    {
        if scope_tokens[i].token_type == TokenTypes::Instruction {
            proof {
                assert(words.skip(placed as int) =~= spec_scope_words(
                    scope_tokens@,
                    i as int,
                    scope_symbol_table@,
                    global_symbol_table@,
                    number_gprs,
                    machine_operation_bits,
                    addressing_mode_bits,
                    operand_bits,
                ));
                assert(words[placed as int] == spec_statement_word(
                    scope_tokens@,
                    i as int,
                    scope_symbol_table@,
                    global_symbol_table@,
                    number_gprs,
                    machine_operation_bits,
                    addressing_mode_bits,
                    operand_bits,
                ));
            }
            let looked_up = instruction_lookup(&scope_tokens[i].token_value);
            let instruction = match looked_up {
                Some(ins) => ins,
                None => {
                    return Err(CodeGenErrors::InvalidToken);
                },
            };
            let default_source = default_operand();
            let source_operand = if instruction.operands > 0 {
                if scope_tokens.len() - i <= 2 {
                    return Err(CodeGenErrors::InvalidToken);
                }
                Operand {
                    addressing_mode: scope_tokens[i + 1].duplicate(),
                    operand_value: scope_tokens[i + 2].duplicate(),
                }
            } else {
                default_source
            };
            let default_destination = default_operand();
            let destination_operand = if instruction.operands > 1 {
                if scope_tokens.len() - i <= 5 {
                    return Err(CodeGenErrors::InvalidToken);
                }
                Operand {
                    addressing_mode: scope_tokens[i + 4].duplicate(),
                    operand_value: scope_tokens[i + 5].duplicate(),
                }
            } else {
                default_destination
            };
            let word = generate_machine_operation(
                &instruction,
                &source_operand,
                &destination_operand,
                scope_symbol_table,
                global_symbol_table,
                number_gprs,
                machine_operation_bits,
                addressing_mode_bits,
                operand_bits,
            );
            let word = match word {
                Some(w) => w,
                None => {
                    return Err(CodeGenErrors::InvalidToken);
                },
            };
            if *index > 0x1000_0000_0000 {
                return Err(CodeGenErrors::SegmentationFault);
            }
            let address = *index as i64;
            if !memory.valid_address(address) {
                return Err(CodeGenErrors::SegmentationFault);
            }
            let ghost memory_before = memory@;
            memory.insert_binary(address, word);
            proof {
                lemma_place_words_push(
                    old(memory)@,
                    old(memory).spec_registers(),
                    start_index,
                    words.take(placed as int),
                    word@,
                );
                assert(words.take(placed + 1) =~= words.take(placed as int).push(
                    words[placed as int],
                ));
                assert(words =~= words.take(placed + 1) + spec_scope_words(
                    scope_tokens@,
                    i + 1,
                    scope_symbol_table@,
                    global_symbol_table@,
                    number_gprs,
                    machine_operation_bits,
                    addressing_mode_bits,
                    operand_bits,
                ));
            }
            *index = *index + 1;
            placed = placed + 1;
        } else {
            proof {
                assert(spec_scope_words(
                    scope_tokens@,
                    i as int,
                    scope_symbol_table@,
                    global_symbol_table@,
                    number_gprs,
                    machine_operation_bits,
                    addressing_mode_bits,
                    operand_bits,
                ) == spec_scope_words(
                    scope_tokens@,
                    i + 1,
                    scope_symbol_table@,
                    global_symbol_table@,
                    number_gprs,
                    machine_operation_bits,
                    addressing_mode_bits,
                    operand_bits,
                ));
            }
        }
        i = i + 1;
    }
    proof {
        assert(spec_scope_words(
            scope_tokens@,
            i as int,
            scope_symbol_table@,
            global_symbol_table@,
            number_gprs,
            machine_operation_bits,
            addressing_mode_bits,
            operand_bits,
        ) =~= Seq::<Option<Seq<char>>>::empty());
        assert(words.take(placed as int) =~= words);
    }
    *index = *offset;
    Ok(())
}

/// The default operand for an instruction that does not use one: the
/// register mode and a zero value.
fn default_operand() -> (r: Operand)
    ensures
        r.addressing_mode.token_value@ == "%"@,
        r.operand_value.token_type == TokenTypes::Value,
        r.operand_value.token_value@ == "0"@,
{
    let mut mode_value: Vec<char> = Vec::new();
    mode_value.push('%');
    let mut zero_value: Vec<char> = Vec::new();
    zero_value.push('0');
    proof {
        reveal_strlit("%");
        reveal_strlit("0");
        assert(mode_value@ =~= "%"@);
        assert(zero_value@ =~= "0"@);
    }
    Operand {
        addressing_mode: TypedToken {
            token_type: TokenTypes::AddressingMode,
            token_value: mode_value,
            row: 0,
            column: 0,
        },
        operand_value: TypedToken {
            token_type: TokenTypes::Value,
            token_value: zero_value,
            row: 0,
            column: 0,
        },
    }
}

/// Run the code generator: compute the field widths from the instruction
/// set and the configuration, lay every scope out in memory, and
/// assemble each instruction.  On success the returned pool is fully
/// well formed — every word exactly `architecture` binary characters —
/// and the widths describe its words.
pub fn run(
    global_scope: &mut Scope,
    procedure_scopes: &mut Vec<(Vec<char>, Scope)>,
    config_table: &ConfigTable,
) -> (r: Result<(Memory, u64, u64, u64), CodeGenErrors>)
    requires
        old(global_scope).symbol_table.well_formed(),
        forall|p: int|
            0 <= p < old(procedure_scopes)@.len() ==> (#[trigger] old(
                procedure_scopes,
            )@[p].1).symbol_table.well_formed(),
    ensures
        r matches Ok(t) ==> {
            let larger = if config_table.registers + NUMBER_SP_REGISTERS > config_table.memory {
                (config_table.registers + NUMBER_SP_REGISTERS) as nat
            } else {
                config_table.memory as nat
            };
            &&& t.0.well_formed()
            &&& t.0.spec_registers() == config_table.registers + NUMBER_SP_REGISTERS
            &&& t.0.spec_architecture() == t.1 + t.2 + 2 * t.3
            &&& t.1 == spec_number_bits((NUMBER_INSTRUCTIONS - 1) as nat)
            &&& t.2 == spec_number_bits((NUMBER_MODES - 1) as nat)
            &&& t.3 == spec_number_bits(larger) + 1
            &&& t.0@.len() == pow2((t.3 - 1) as nat) + t.0.spec_registers()
            &&& 1 <= t.1 <= 62 && 1 <= t.2 <= 62 && 2 <= t.3 <= 62
            &&& t.0.spec_architecture() <= 62
        },
        r == Err::<(Memory, u64, u64, u64), CodeGenErrors>(CodeGenErrors::ConfigTooLarge)
            <==> !(1 <= config_table.registers <= REGISTER_LIMIT && config_table.memory
            <= MEMORY_LIMIT),
{
    let machine_operation_bits = number_bits(NUMBER_INSTRUCTIONS - 1);
    let addressing_mode_bits = number_bits(NUMBER_MODES - 1);
    let number_gprs = config_table.registers;
    if number_gprs < 1 || number_gprs > REGISTER_LIMIT {
        return Err(CodeGenErrors::ConfigTooLarge);
    }
    let number_registers = number_gprs + NUMBER_SP_REGISTERS;
    let number_memory_addresses = config_table.memory;
    if number_memory_addresses > MEMORY_LIMIT {
        return Err(CodeGenErrors::ConfigTooLarge);
    }
    let larger = if number_registers > number_memory_addresses {
        number_registers
    } else {
        number_memory_addresses
    };
    proof {
        lemma_number_bits_bounds();
        assert(pow2(26) == 0x4000000) by {
            vstd::arithmetic::power2::lemma2_to64();
        }
        lemma_number_bits_le(larger as nat, 26);
        reveal_with_fuel(spec_number_bits, 3);
        assert(spec_number_bits(larger as nat) >= 1);
    }
    let operand_bits = number_bits(larger) + 1;
    let total_bits = machine_operation_bits + addressing_mode_bits + 2 * operand_bits;
    let mut memory = Memory::new(number_registers, total_bits, operand_bits);
    update_global_symbols(global_scope, procedure_scopes);
    let mut index: u64 = 0;
    let mut offset: u64 = 0;
    let outcome = update_local_symbols(index, &mut offset, global_scope, &mut memory);
    if let Err(fault) = outcome {
        return Err(fault);
    }
    let outcome = generate_code(
        &mut index,
        &mut offset,
        &global_scope.tokens,
        &global_scope.symbol_table,
        &global_scope.symbol_table,
        &mut memory,
        number_gprs,
        machine_operation_bits,
        addressing_mode_bits,
        operand_bits,
    );
    if let Err(fault) = outcome {
        return Err(fault);
    }
    let mut p: usize = 0;
    while p < procedure_scopes.len()
        invariant
            p <= procedure_scopes@.len(),
            memory.well_formed(),
            memory.spec_registers() == number_gprs + NUMBER_SP_REGISTERS,
            memory.spec_architecture() == machine_operation_bits + addressing_mode_bits + 2
                * operand_bits,
            memory@.len() == pow2((operand_bits - 1) as nat) + memory.spec_registers(),
            operand_bits == spec_number_bits(
                if number_gprs + NUMBER_SP_REGISTERS > config_table.memory {
                    (number_gprs + NUMBER_SP_REGISTERS) as nat
                } else {
                    config_table.memory as nat
                },
            ) + 1,
            1 <= number_gprs <= REGISTER_LIMIT,
            1 <= machine_operation_bits <= 62,
            1 <= addressing_mode_bits <= 62,
            2 <= operand_bits <= 62,
            forall|q: int|
                0 <= q < procedure_scopes@.len() ==> (#[trigger] procedure_scopes@[q].1)
                    .symbol_table.well_formed(),
        decreases procedure_scopes@.len() - p,
    {
        let ghost pre = procedure_scopes@;
        let pair = procedure_scopes.remove(p);
        let name = pair.0;
        let mut scope = pair.1;
        if index > 0x1000_0000_0000 {
            return Err(CodeGenErrors::SegmentationFault);
        }
        let outcome = update_local_symbols(index, &mut offset, &mut scope, &mut memory);
        if let Err(fault) = outcome {
            return Err(fault);
        }
        let outcome = generate_code(
            &mut index,
            &mut offset,
            &scope.tokens,
            &scope.symbol_table,
            &global_scope.symbol_table,
            &mut memory,
            number_gprs,
            machine_operation_bits,
            addressing_mode_bits,
            operand_bits,
        );
        if let Err(fault) = outcome {
            return Err(fault);
        }
        procedure_scopes.insert(p, (name, scope));
        proof {
            assert forall|q: int|
                0 <= q < procedure_scopes@.len() implies (#[trigger] procedure_scopes@[q].1)
                .symbol_table.well_formed() by {
                if q < p {
                    assert(procedure_scopes@[q] == pre[q]);
                } else if q > p {
                    assert(procedure_scopes@[q] == pre[q]);
                }
            }
        }
        p = p + 1;
    }
    Ok((memory, machine_operation_bits, addressing_mode_bits, operand_bits))
}

/// The instruction-set and mode-count field widths are small and
/// positive.
proof fn lemma_number_bits_bounds()
    ensures
        spec_number_bits((NUMBER_INSTRUCTIONS - 1) as nat) == 5,
        spec_number_bits((NUMBER_MODES - 1) as nat) == 2,
{
    reveal_with_fuel(spec_number_bits, 8);
    assert(spec_number_bits(26nat) == 1 + spec_number_bits(13nat));
    assert(spec_number_bits(13nat) == 1 + spec_number_bits(6nat));
    assert(spec_number_bits(6nat) == 1 + spec_number_bits(3nat));
    assert(spec_number_bits(3nat) == 1 + spec_number_bits(1nat));
    assert(spec_number_bits(1nat) == 1 + spec_number_bits(0nat));
}

} // verus!
