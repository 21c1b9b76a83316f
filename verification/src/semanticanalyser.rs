//! The semantic analyser: operand counts, addressing-mode pairing, label
//! resolution, register bounds and instruction-specific rules, with
//! default operands inserted into the stream so that code generation can
//! read every instruction at fixed offsets.
//!
//! Every rule's diagnostic is pinned by contract: the spec functions
//! below compute, from the operand that the defaulting rules extract,
//! exactly which records a check appends.

use vstd::prelude::*;
use crate::defaults::is_word;
use crate::errors::{Errors, ErrorTypes, ErrorTexts, ErrorMessage, RecordedError, spec_opt_record};
use crate::tokens::{TypedToken, TokenTypes};
use crate::structs::{Scope, Operand, SymbolTable, Symbol, Instruction, spec_find_symbol};
use crate::lexer::{spec_token_wf, spec_token_clean};
use crate::instructionpools::{spec_all_wf, spec_all_clean};
use crate::architecture::{
    instruction_lookup, spec_instruction_lookup, non_immediate_opcode, spec_non_immediate_opcode,
};

verus! {

/// Whether a token carries an operand value.
pub open spec fn spec_operand_token(t: TokenTypes) -> bool {
    t == TokenTypes::Value || t == TokenTypes::Label || t == TokenTypes::Register
}

/// How many operand-bearing tokens stand between `i` and the next
/// statement terminator.
pub open spec fn spec_count_operands(tokens: Seq<TypedToken>, i: int) -> int
    decreases tokens.len() - i when 0 <= i <= tokens.len()
{
    if i >= tokens.len() || tokens[i].token_type == TokenTypes::End {
        0
    } else if spec_operand_token(tokens[i].token_type) {
        1 + spec_count_operands(tokens, i + 1)
    } else {
        spec_count_operands(tokens, i + 1)
    }
}

/// Count the operand-bearing tokens from `index` to the next statement
/// terminator.
pub fn count_operands(index: usize, tokens: &Vec<TypedToken>) -> (r: u64)
    requires
        index <= tokens@.len(),
    ensures
        r == spec_count_operands(tokens@, index as int),
{
    let mut i: usize = index;
    let mut operands: u64 = 0;
    while i < tokens.len() && tokens[i].token_type != TokenTypes::End
        invariant
            index <= i <= tokens@.len(),
            operands <= i - index,
            operands + spec_count_operands(tokens@, i as int) == spec_count_operands(
                tokens@,
                index as int,
            ),
        decreases tokens@.len() - i,
    {
        if tokens[i].token_type == TokenTypes::Value || tokens[i].token_type == TokenTypes::Label
            || tokens[i].token_type == TokenTypes::Register {
            operands = operands + 1;
        }
        i = i + 1;
    }
    operands
}

/// The facts of one operand that the checks read: its addressing-mode
/// text, its value token's class and text, and where the value stands.
pub open spec fn spec_operand_facts(operand: Operand) -> (Seq<char>, TokenTypes, Seq<char>, u64, u64) {
    (
        operand.addressing_mode.token_value@,
        operand.operand_value.token_type,
        operand.operand_value.token_value@,
        operand.operand_value.row,
        operand.operand_value.column,
    )
}

/// The diagnostic the mode pairing check appends: the register mode on a
/// non-register, or a register under any other mode.
pub open spec fn spec_mode_mismatch_record(facts: (Seq<char>, TokenTypes, Seq<char>, u64, u64))
    -> Option<RecordedError> {
    let mode_is_register = facts.0 == "%"@;
    let value_is_register = facts.1 == TokenTypes::Register;
    if mode_is_register && !value_is_register {
        Some(
            RecordedError {
                row: facts.3,
                column: facts.4,
                message: ErrorMessage {
                    error_type: ErrorTypes::InvalidAddressingMode,
                    error_message: ErrorTexts::RegisterModeMismatch,
                },
            },
        )
    } else if !mode_is_register && value_is_register {
        Some(
            RecordedError {
                row: facts.3,
                column: facts.4,
                message: ErrorMessage {
                    error_type: ErrorTypes::InvalidAddressingMode,
                    error_message: ErrorTexts::RegisterOperandMismatch,
                },
            },
        )
    } else {
        None
    }
}

/// The diagnostic the value check appends: an undeclared label, or
/// general-purpose register zero.
pub open spec fn spec_operand_value_record(
    facts: (Seq<char>, TokenTypes, Seq<char>, u64, u64),
    scope_table: Seq<(Seq<char>, Symbol)>,
    global_table: Seq<(Seq<char>, Symbol)>,
) -> Option<RecordedError> {
    if facts.1 == TokenTypes::Label && spec_find_symbol(global_table, facts.2) is None
        && spec_find_symbol(scope_table, facts.2) is None {
        Some(
            RecordedError {
                row: facts.3,
                column: facts.4,
                message: ErrorMessage {
                    error_type: ErrorTypes::InvalidLabel,
                    error_message: ErrorTexts::UndeclaredLabel,
                },
            },
        )
    } else if facts.1 == TokenTypes::Register && facts.2 == "0"@ {
        Some(
            RecordedError {
                row: facts.3,
                column: facts.4,
                message: ErrorMessage {
                    error_type: ErrorTypes::InvalidRegister,
                    error_message: ErrorTexts::GprZero,
                },
            },
        )
    } else {
        None
    }
}

/// Both per-operand diagnostics, in the order they are recorded.
pub open spec fn spec_operand_records(
    facts: (Seq<char>, TokenTypes, Seq<char>, u64, u64),
    scope_table: Seq<(Seq<char>, Symbol)>,
    global_table: Seq<(Seq<char>, Symbol)>,
) -> Seq<RecordedError> {
    spec_opt_record(spec_mode_mismatch_record(facts)) + spec_opt_record(
        spec_operand_value_record(facts, scope_table, global_table),
    )
}

/// The diagnostic for an input instruction whose operand is not in
/// register mode.
pub open spec fn spec_inp_record(
    instruction: Instruction,
    facts: (Seq<char>, TokenTypes, Seq<char>, u64, u64),
    row: u64,
    column: u64,
) -> Option<RecordedError> {
    if instruction.opcode == 9 && facts.0 != "%"@ {
        Some(
            RecordedError {
                row,
                column,
                message: ErrorMessage {
                    error_type: ErrorTypes::InvalidOperands,
                    error_message: ErrorTexts::NonRegisterInpOperand,
                },
            },
        )
    } else {
        None
    }
}

/// The diagnostic for an immediate source on a store, branch or call.
pub open spec fn spec_immediate_record(
    instruction: Instruction,
    facts: (Seq<char>, TokenTypes, Seq<char>, u64, u64),
    row: u64,
    column: u64,
) -> Option<RecordedError> {
    if spec_non_immediate_opcode(instruction.opcode) && facts.0 == "#"@ {
        Some(
            RecordedError {
                row,
                column,
                message: ErrorMessage {
                    error_type: ErrorTypes::InvalidOperands,
                    error_message: ErrorTexts::ImmediateMode,
                },
            },
        )
    } else {
        None
    }
}

/// The diagnostic for a destination operand outside the register mode.
pub open spec fn spec_destination_record(
    facts: (Seq<char>, TokenTypes, Seq<char>, u64, u64),
    row: u64,
    column: u64,
) -> Option<RecordedError> {
    if facts.0 != "%"@ {
        Some(
            RecordedError {
                row,
                column,
                message: ErrorMessage {
                    error_type: ErrorTypes::InvalidOperands,
                    error_message: ErrorTexts::NonRegisterDestinationOperand,
                },
            },
        )
    } else {
        None
    }
}

/// The register addressing mode must pair with a register operand, and
/// only with one.
pub fn analyse_addressing_mode(operand: &Operand, errors: &mut Errors)
    ensures
        final(errors)@ == old(errors)@ + spec_opt_record(
            spec_mode_mismatch_record(spec_operand_facts(*operand)),
        ),
{
    let ghost before = errors@;
    let mode_is_register = is_word(&operand.addressing_mode.token_value, "%");
    if mode_is_register && operand.operand_value.token_type != TokenTypes::Register {
        errors.record_error(
            operand.operand_value.row,
            operand.operand_value.column,
            ErrorTypes::InvalidAddressingMode,
            ErrorTexts::RegisterModeMismatch,
        );
        proof {
            assert(errors@ =~= before + spec_opt_record(
                spec_mode_mismatch_record(spec_operand_facts(*operand)),
            ));
        }
    } else if !mode_is_register && operand.operand_value.token_type == TokenTypes::Register {
        errors.record_error(
            operand.operand_value.row,
            operand.operand_value.column,
            ErrorTypes::InvalidAddressingMode,
            ErrorTexts::RegisterOperandMismatch,
        );
        proof {
            assert(errors@ =~= before + spec_opt_record(
                spec_mode_mismatch_record(spec_operand_facts(*operand)),
            ));
        }
    } else {
        proof {
            assert(errors@ =~= before + spec_opt_record(
                spec_mode_mismatch_record(spec_operand_facts(*operand)),
            ));
        }
    }
}

/// A label operand must resolve in the scope's or the global symbol
/// table, and general-purpose register zero cannot be touched.  When no
/// record is appended, a label operand is declared in one of the two
/// tables.
pub fn analyse_operand_value(
    operand: &Operand,
    scope_symbol_table: &SymbolTable,
    global_symbol_table: &SymbolTable,
    errors: &mut Errors,
)
    ensures
        final(errors)@ == old(errors)@ + spec_opt_record(
            spec_operand_value_record(
                spec_operand_facts(*operand),
                scope_symbol_table@,
                global_symbol_table@,
            ),
        ),
        final(errors)@ == old(errors)@ && operand.operand_value.token_type == TokenTypes::Label
            ==> scope_symbol_table.spec_contains(operand.operand_value.token_value@)
            || global_symbol_table.spec_contains(operand.operand_value.token_value@),
{
    let ghost before = errors@;
    if operand.operand_value.token_type == TokenTypes::Label
        && !global_symbol_table.contains(&operand.operand_value.token_value)
        && !scope_symbol_table.contains(&operand.operand_value.token_value) {
        errors.record_error(
            operand.operand_value.row,
            operand.operand_value.column,
            ErrorTypes::InvalidLabel,
            ErrorTexts::UndeclaredLabel,
        );
    } else if operand.operand_value.token_type == TokenTypes::Register && is_word(
        &operand.operand_value.token_value,
        "0",
    ) {
        errors.record_error(
            operand.operand_value.row,
            operand.operand_value.column,
            ErrorTypes::InvalidRegister,
            ErrorTexts::GprZero,
        );
    }
    proof {
        assert(errors@ =~= before + spec_opt_record(
            spec_operand_value_record(
                spec_operand_facts(*operand),
                scope_symbol_table@,
                global_symbol_table@,
            ),
        ));
    }
}

/// Check one operand as a whole: its addressing-mode pairing, then its
/// value.
pub fn analyse_operand(
    operand: &Operand,
    scope_symbol_table: &SymbolTable,
    global_symbol_table: &SymbolTable,
    errors: &mut Errors,
)
    ensures
        final(errors)@ == old(errors)@ + spec_operand_records(
            spec_operand_facts(*operand),
            scope_symbol_table@,
            global_symbol_table@,
        ),
        final(errors)@ == old(errors)@ && operand.operand_value.token_type == TokenTypes::Label
            ==> scope_symbol_table.spec_contains(operand.operand_value.token_value@)
            || global_symbol_table.spec_contains(operand.operand_value.token_value@),
{
    let ghost before = errors@;
    analyse_addressing_mode(operand, errors);
    analyse_operand_value(operand, scope_symbol_table, global_symbol_table, errors);
    proof {
        assert(errors@ =~= before + spec_operand_records(
            spec_operand_facts(*operand),
            scope_symbol_table@,
            global_symbol_table@,
        ));
    }
}

/// A single-character addressing-mode token.
fn mode_token(symbol: char) -> (r: TypedToken)
    requires
        crate::architecture::spec_mode_of_symbol(symbol) is Some,
    ensures
        r.token_type == TokenTypes::AddressingMode,
        r.token_value@ == seq![symbol],
        r.row == 0,
        r.column == 0,
        spec_token_wf(r),
        spec_token_clean(r),
{
    let mut value: Vec<char> = Vec::new();
    value.push(symbol);
    TypedToken { token_type: TokenTypes::AddressingMode, token_value: value, row: 0, column: 0 }
}

/// The default accumulator operand token.
fn acc_token() -> (r: TypedToken)
    ensures
        r.token_type == TokenTypes::Register,
        r.token_value@ == "ACC"@,
        r.row == 0,
        r.column == 0,
        spec_token_wf(r),
        spec_token_clean(r),
{
    let mut acc_value: Vec<char> = Vec::new();
    acc_value.push('A');
    acc_value.push('C');
    acc_value.push('C');
    proof {
        reveal_strlit("ACC");
        assert(acc_value@ =~= "ACC"@);
    }
    TypedToken { token_type: TokenTypes::Register, token_value: acc_value, row: 0, column: 0 }
}

/// The first position at or after `i` that does not hold a separator.
pub open spec fn spec_skip_separators(tokens: Seq<TypedToken>, i: int) -> int
    recommends
        0 <= i <= tokens.len(),
    decreases tokens.len() - i when 0 <= i <= tokens.len()
{
    if i >= tokens.len() {
        i
    } else if tokens[i].token_type == TokenTypes::Separator {
        spec_skip_separators(tokens, i + 1)
    } else {
        i
    }
}

proof fn lemma_skip_separators(tokens: Seq<TypedToken>, i: int)
    requires
        0 <= i <= tokens.len(),
    ensures
        i <= spec_skip_separators(tokens, i) <= tokens.len(),
        spec_skip_separators(tokens, i) < tokens.len() ==> tokens[spec_skip_separators(
            tokens,
            i,
        )].token_type != TokenTypes::Separator,
    decreases tokens.len() - i,
{
    if i < tokens.len() && tokens[i].token_type == TokenTypes::Separator {
        lemma_skip_separators(tokens, i + 1);
    }
}

/// The token the defaulting rules would insert for a mode symbol.
pub open spec fn spec_inserted_mode(t: TypedToken, symbol: char) -> bool {
    &&& t.token_type == TokenTypes::AddressingMode
    &&& t.token_value@ == seq![symbol]
    &&& t.row == 0
    &&& t.column == 0
}

/// The default accumulator token the defaulting rules insert.
pub open spec fn spec_inserted_accumulator(t: TypedToken) -> bool {
    &&& t.token_type == TokenTypes::Register
    &&& t.token_value@ == "ACC"@
    &&& t.row == 0
    &&& t.column == 0
}

/// The separator token the defaulting rules insert.
pub open spec fn spec_inserted_separator(t: TypedToken) -> bool {
    &&& t.token_type == TokenTypes::Separator
    &&& t.token_value@ == seq![',']
    &&& t.row == 0
    &&& t.column == 0
}

/// The operand the defaulting rules extract at position `i`: its mode
/// text, its value token's class, text and position.  A missing operand
/// (a terminator, the stream's end, or anything that cannot begin one)
/// is the default register-mode accumulator; a bare register gains the
/// register mode, a bare value or label the direct mode.
pub open spec fn spec_operand_triple(tokens: Seq<TypedToken>, i: int) -> (
    Seq<char>,
    TokenTypes,
    Seq<char>,
    u64,
    u64,
)
    recommends
        0 <= i <= tokens.len(),
{
    let j = spec_skip_separators(tokens, i);
    if j >= tokens.len() || tokens[j].token_type == TokenTypes::End {
        ("%"@, TokenTypes::Register, "ACC"@, 0u64, 0u64)
    } else if tokens[j].token_type == TokenTypes::Register {
        ("%"@, TokenTypes::Register, tokens[j].token_value@, tokens[j].row, tokens[j].column)
    } else if tokens[j].token_type == TokenTypes::Label || tokens[j].token_type
        == TokenTypes::Value {
        ("@"@, tokens[j].token_type, tokens[j].token_value@, tokens[j].row, tokens[j].column)
    } else if tokens[j].token_type == TokenTypes::AddressingMode {
        if j + 1 < tokens.len() {
            (
                tokens[j].token_value@,
                tokens[j + 1].token_type,
                tokens[j + 1].token_value@,
                tokens[j + 1].row,
                tokens[j + 1].column,
            )
        } else {
            (tokens[j].token_value@, TokenTypes::Register, "ACC"@, 0u64, 0u64)
        }
    } else {
        ("%"@, TokenTypes::Register, "ACC"@, 0u64, 0u64)
    }
}

/// How the defaulting rules change the stream when the operand at `i` is
/// extracted: a missing operand becomes `(separator,) mode, accumulator`
/// before the terminator, a bare register or value/label gains its mode
/// token, and everything else leaves the stream unchanged.
pub open spec fn spec_operand_insertion(
    pre: Seq<TypedToken>,
    post: Seq<TypedToken>,
    i: int,
) -> bool
    recommends
        0 <= i <= pre.len(),
{
    let j = spec_skip_separators(pre, i);
    if j >= pre.len() {
        post == pre
    } else if pre[j].token_type == TokenTypes::End {
        if j >= 1 && (pre[j - 1].token_type == TokenTypes::Register || pre[j - 1].token_type
            == TokenTypes::Label || pre[j - 1].token_type == TokenTypes::Value) {
            &&& post.len() == pre.len() + 3
            &&& post.subrange(0, j) == pre.subrange(0, j)
            &&& spec_inserted_separator(post[j])
            &&& spec_inserted_mode(post[j + 1], '%')
            &&& spec_inserted_accumulator(post[j + 2])
            &&& post.subrange(j + 3, post.len() as int) == pre.subrange(j, pre.len() as int)
        } else {
            &&& post.len() == pre.len() + 2
            &&& post.subrange(0, j) == pre.subrange(0, j)
            &&& spec_inserted_mode(post[j], '%')
            &&& spec_inserted_accumulator(post[j + 1])
            &&& post.subrange(j + 2, post.len() as int) == pre.subrange(j, pre.len() as int)
        }
    } else if pre[j].token_type == TokenTypes::Register {
        &&& post.len() == pre.len() + 1
        &&& post.subrange(0, j) == pre.subrange(0, j)
        &&& spec_inserted_mode(post[j], '%')
        &&& post.subrange(j + 1, post.len() as int) == pre.subrange(j, pre.len() as int)
    } else if pre[j].token_type == TokenTypes::Label || pre[j].token_type == TokenTypes::Value {
        &&& post.len() == pre.len() + 1
        &&& post.subrange(0, j) == pre.subrange(0, j)
        &&& spec_inserted_mode(post[j], '@')
        &&& post.subrange(j + 1, post.len() as int) == pre.subrange(j, pre.len() as int)
    } else {
        post == pre
    }
}

/// Extract (and, where absent, insert) the operand starting at `index`.
/// The returned operand is exactly `spec_operand_triple` of the stream,
/// and the stream changes exactly as `spec_operand_insertion` says.
pub fn get_operand(index: usize, tokens: &mut Vec<TypedToken>) -> (r: Operand)
    requires
        index <= old(tokens)@.len(),
    ensures
        spec_all_wf(old(tokens)@) ==> spec_all_wf(final(tokens)@),
        old(tokens)@.len() <= final(tokens)@.len() <= old(tokens)@.len() + 3,
        spec_all_clean(old(tokens)@) ==> spec_all_clean(final(tokens)@),
        r.addressing_mode.token_type == TokenTypes::AddressingMode,
        spec_operand_facts(r) == spec_operand_triple(old(tokens)@, index as int),
        spec_operand_insertion(old(tokens)@, final(tokens)@, index as int),
{
    proof {
        lemma_skip_separators(tokens@, index as int);
        reveal_strlit("%");
        reveal_strlit("@");
    }
    let mut i: usize = index;
    while i < tokens.len() && tokens[i].token_type == TokenTypes::Separator
        invariant
            index <= i <= tokens@.len(),
            spec_skip_separators(tokens@, index as int) == spec_skip_separators(
                tokens@,
                i as int,
            ),
        decreases tokens@.len() - i,
    {
        i = i + 1;
    }
    proof {
        assert(spec_skip_separators(tokens@, index as int) == i);
    }
    if i >= tokens.len() {
        let r = Operand { addressing_mode: mode_token('%'), operand_value: acc_token() };
        proof {
            assert(r.addressing_mode.token_value@ =~= "%"@);
        }
        return r;
    }
    let token_type = tokens[i].token_type;
    if token_type == TokenTypes::End {
        let ghost pre = tokens@;
        let mut insert_at = i;
        if i >= 1 {
            let previous_type = tokens[i - 1].token_type;
            if previous_type == TokenTypes::Register || previous_type == TokenTypes::Label
                || previous_type == TokenTypes::Value {
                let mut sep_value: Vec<char> = Vec::new();
                sep_value.push(',');
                let sep = TypedToken {
                    token_type: TokenTypes::Separator,
                    token_value: sep_value,
                    row: 0,
                    column: 0,
                };
                proof {
                    assert(spec_token_wf(sep));
                }
                tokens.insert(i, sep);
                proof {
                    lemma_insert_keeps(pre, tokens@, i as int);
                }
                insert_at = i + 1;
            }
        }
        let ghost mid = tokens@;
        let acc = acc_token();
        tokens.insert(insert_at, acc.duplicate());
        proof {
            crate::instructionpools::lemma_token_eq_wf(tokens@[insert_at as int], acc);
            lemma_insert_keeps(mid, tokens@, insert_at as int);
        }
        let ghost mid2 = tokens@;
        tokens.insert(insert_at, mode_token('%'));
        proof {
            lemma_insert_keeps(mid2, tokens@, insert_at as int);
            if insert_at == i + 1 {
                assert(tokens@.subrange(0, i as int) =~= pre.subrange(0, i as int));
                assert(tokens@.subrange(i + 3, tokens@.len() as int) =~= pre.subrange(
                    i as int,
                    pre.len() as int,
                ));
            } else {
                assert(tokens@.subrange(0, i as int) =~= pre.subrange(0, i as int));
                assert(tokens@.subrange(i + 2, tokens@.len() as int) =~= pre.subrange(
                    i as int,
                    pre.len() as int,
                ));
            }
        }
        let r = Operand { addressing_mode: mode_token('%'), operand_value: acc_token() };
        proof {
            assert(r.addressing_mode.token_value@ =~= "%"@);
        }
        return r;
    }
    if token_type == TokenTypes::Register {
        let ghost pre = tokens@;
        tokens.insert(i, mode_token('%'));
        proof {
            lemma_insert_keeps(pre, tokens@, i as int);
            assert(tokens@.subrange(0, i as int) =~= pre.subrange(0, i as int));
            assert(tokens@.subrange(i + 1, tokens@.len() as int) =~= pre.subrange(
                i as int,
                pre.len() as int,
            ));
        }
        let value = tokens[i + 1].duplicate();
        proof {
            if spec_all_wf(old(tokens)@) {
                crate::instructionpools::lemma_token_eq_wf(value, tokens@[i + 1]);
            }
            assert(tokens@[i + 1] == pre[i as int]);
        }
        let r = Operand { addressing_mode: mode_token('%'), operand_value: value };
        proof {
            assert(r.addressing_mode.token_value@ =~= "%"@);
        }
        return r;
    }
    if token_type == TokenTypes::Label || token_type == TokenTypes::Value {
        let ghost pre = tokens@;
        tokens.insert(i, mode_token('@'));
        proof {
            lemma_insert_keeps(pre, tokens@, i as int);
            assert(tokens@.subrange(0, i as int) =~= pre.subrange(0, i as int));
            assert(tokens@.subrange(i + 1, tokens@.len() as int) =~= pre.subrange(
                i as int,
                pre.len() as int,
            ));
        }
        let value = tokens[i + 1].duplicate();
        proof {
            if spec_all_wf(old(tokens)@) {
                crate::instructionpools::lemma_token_eq_wf(value, tokens@[i + 1]);
            }
            assert(tokens@[i + 1] == pre[i as int]);
        }
        let r = Operand { addressing_mode: mode_token('@'), operand_value: value };
        proof {
            assert(r.addressing_mode.token_value@ =~= "@"@);
        }
        return r;
    }
    let mode = tokens[i].duplicate();
    proof {
        if spec_all_wf(old(tokens)@) {
            crate::instructionpools::lemma_token_eq_wf(mode, tokens@[i as int]);
        }
    }
    if mode.token_type != TokenTypes::AddressingMode {
        let r = Operand { addressing_mode: mode_token('%'), operand_value: acc_token() };
        proof {
            assert(r.addressing_mode.token_value@ =~= "%"@);
        }
        return r;
    }
    let value = if i + 1 < tokens.len() {
        let v = tokens[i + 1].duplicate();
        proof {
            if spec_all_wf(old(tokens)@) {
                crate::instructionpools::lemma_token_eq_wf(v, tokens@[i + 1]);
            }
        }
        v
    } else {
        acc_token()
    };
    Operand { addressing_mode: mode, operand_value: value }
}

/// Inserting a well-formed, clean token keeps the whole stream's
/// well-formedness and cleanliness.
proof fn lemma_insert_keeps(pre: Seq<TypedToken>, post: Seq<TypedToken>, at: int)
    requires
        0 <= at <= pre.len(),
        post == pre.insert(at, post[at]),
        spec_token_wf(post[at]),
        spec_token_clean(post[at]),
    ensures
        spec_all_wf(pre) ==> spec_all_wf(post),
        spec_all_clean(pre) ==> spec_all_clean(post),
{
    if spec_all_wf(pre) {
        assert forall|k: int| 0 <= k < post.len() implies spec_token_wf(#[trigger] post[k]) by {
            if k < at {
                assert(post[k] == pre[k]);
            } else if k > at {
                assert(post[k] == pre[k - 1]);
            }
        }
    }
    if spec_all_clean(pre) {
        assert forall|k: int| 0 <= k < post.len() implies spec_token_clean(
            #[trigger] post[k],
        ) by {
            if k < at {
                assert(post[k] == pre[k]);
            } else if k > at {
                assert(post[k] == pre[k - 1]);
            }
        }
    }
}

/// What one instruction statement appends to the sink, given the
/// instruction, its position, and the facts of its extracted source and
/// (for two-operand instructions) destination operands: the per-operand
/// checks, the register-only input rule, the no-immediate-source rule,
/// and the register-destination rule, in recording order.
pub open spec fn spec_statement_records(
    instruction: Instruction,
    row: u64,
    column: u64,
    source: (Seq<char>, TokenTypes, Seq<char>, u64, u64),
    destination: Option<(Seq<char>, TokenTypes, Seq<char>, u64, u64)>,
    scope_table: Seq<(Seq<char>, Symbol)>,
    global_table: Seq<(Seq<char>, Symbol)>,
) -> Seq<RecordedError> {
    spec_operand_records(source, scope_table, global_table) + spec_opt_record(
        spec_inp_record(instruction, source, row, column),
    ) + spec_opt_record(spec_immediate_record(instruction, source, row, column)) + (
    match destination {
        Some(d) => spec_operand_records(d, scope_table, global_table) + spec_opt_record(
            spec_destination_record(d, row, column),
        ),
        None => Seq::empty(),
    })
}

/// The record for a statement with more operands than its instruction
/// takes.
pub open spec fn spec_excess_record(row: u64, column: u64) -> RecordedError {
    RecordedError {
        row,
        column,
        message: ErrorMessage {
            error_type: ErrorTypes::InvalidOperands,
            error_message: ErrorTexts::ExcessOperands,
        },
    }
}

/// The record for a two-operand statement written with no source
/// operand at all.
pub open spec fn spec_no_source_record(row: u64, column: u64) -> RecordedError {
    RecordedError {
        row,
        column,
        message: ErrorMessage {
            error_type: ErrorTypes::InvalidOperands,
            error_message: ErrorTexts::NoSourceOperand,
        },
    }
}

/// Check one extracted statement: the source operand's pairing and
/// value, the register-only input and no-immediate-source rules, and,
/// when a destination was extracted, its pairing, value and the
/// register-destination rule.  Appends exactly
/// `spec_statement_records` of the given operands.
#[verifier::rlimit(90)]
#[verifier::spinoff_prover]
fn analyse_statement(
    instruction: Instruction,
    row: u64,
    column: u64,
    source_operand: &Operand,
    destination_operand: Option<&Operand>,
    scope_symbol_table: &SymbolTable,
    global_symbol_table: &SymbolTable,
    errors: &mut Errors,
)
    ensures
        final(errors)@ == old(errors)@ + spec_statement_records(
            instruction,
            row,
            column,
            spec_operand_facts(*source_operand),
            match destination_operand {
                Some(d) => Some(spec_operand_facts(*d)),
                None => None,
            },
            scope_symbol_table@,
            global_symbol_table@,
        ),
{
    let ghost errors0 = errors@;
    analyse_operand(source_operand, scope_symbol_table, global_symbol_table, errors);
    if instruction.opcode == 9 && !is_word(&source_operand.addressing_mode.token_value, "%") {
        errors.record_error(
            row,
            column,
            ErrorTypes::InvalidOperands,
            ErrorTexts::NonRegisterInpOperand,
        );
    }
    proof {
        assert(errors@ =~= errors0 + spec_operand_records(
            spec_operand_facts(*source_operand),
            scope_symbol_table@,
            global_symbol_table@,
        ) + spec_opt_record(
            spec_inp_record(instruction, spec_operand_facts(*source_operand), row, column),
        ));
    }
    let ghost errors1 = errors@;
    if non_immediate_opcode(instruction.opcode) && is_word(
        &source_operand.addressing_mode.token_value,
        "#",
    ) {
        errors.record_error(
            row,
            column,
            ErrorTypes::InvalidOperands,
            ErrorTexts::ImmediateMode,
        );
    }
    proof {
        assert(errors@ =~= errors1 + spec_opt_record(
            spec_immediate_record(instruction, spec_operand_facts(*source_operand), row, column),
        ));
    }
    let ghost errors2 = errors@;
    match destination_operand {
        Some(destination) => {
            analyse_operand(destination, scope_symbol_table, global_symbol_table, errors);
            if !is_word(&destination.addressing_mode.token_value, "%") {
                errors.record_error(
                    row,
                    column,
                    ErrorTypes::InvalidOperands,
                    ErrorTexts::NonRegisterDestinationOperand,
                );
            }
            proof {
                assert(errors@ =~= errors2 + spec_operand_records(
                    spec_operand_facts(*destination),
                    scope_symbol_table@,
                    global_symbol_table@,
                ) + spec_opt_record(
                    spec_destination_record(spec_operand_facts(*destination), row, column),
                ));
                assert(errors@ =~= errors0 + spec_statement_records(
                    instruction,
                    row,
                    column,
                    spec_operand_facts(*source_operand),
                    Some(spec_operand_facts(*destination)),
                    scope_symbol_table@,
                    global_symbol_table@,
                ));
            }
        },
        None => {
            proof {
                assert(errors@ =~= errors0 + spec_statement_records(
                    instruction,
                    row,
                    column,
                    spec_operand_facts(*source_operand),
                    None,
                    scope_symbol_table@,
                    global_symbol_table@,
                ));
            }
        },
    }
}

/// Analyse one instruction statement.  The contract pins every rule of
/// the phase: the operand-count and missing-source checks append their
/// records and leave the stream alone; otherwise the source (and, for a
/// two-operand instruction, the destination) is extracted per the
/// defaulting rules and the appended diagnostics are exactly
/// `spec_statement_records` of the extracted operands.
#[verifier::rlimit(80)]
#[verifier::spinoff_prover]
pub fn analyse_instruction(
    index: usize,
    tokens: &mut Vec<TypedToken>,
    scope_symbol_table: &SymbolTable,
    global_symbol_table: &SymbolTable,
    errors: &mut Errors,
)
    ensures
        spec_all_wf(old(tokens)@) ==> spec_all_wf(final(tokens)@),
        old(tokens)@.len() <= final(tokens)@.len() <= old(tokens)@.len() + 6,
        spec_all_clean(old(tokens)@) ==> spec_all_clean(final(tokens)@),
        ({
            let tokens0 = old(tokens)@;
            if index >= tokens0.len() || tokens0[index as int].token_type
                != TokenTypes::Instruction || spec_instruction_lookup(
                tokens0[index as int].token_value@,
            ) is None {
                final(tokens)@ == tokens0 && final(errors)@ == old(errors)@
            } else {
                let instruction = spec_instruction_lookup(
                    tokens0[index as int].token_value@,
                ).unwrap();
                let row = tokens0[index as int].row;
                let column = tokens0[index as int].column;
                if spec_count_operands(tokens0, index as int) > instruction.operands {
                    final(tokens)@ == tokens0 && final(errors)@ == old(errors)@.push(
                        spec_excess_record(row, column),
                    )
                } else if instruction.operands > 1 && (index + 1 >= tokens0.len() || tokens0[index
                    + 1].token_type == TokenTypes::End) {
                    final(tokens)@ == tokens0 && final(errors)@ == old(errors)@.push(
                        spec_no_source_record(row, column),
                    )
                } else if instruction.operands == 0 {
                    final(tokens)@ == tokens0 && final(errors)@ == old(errors)@
                } else if instruction.operands == 1 {
                    &&& spec_operand_insertion(tokens0, final(tokens)@, index + 1)
                    &&& final(errors)@ == old(errors)@ + spec_statement_records(
                        instruction,
                        row,
                        column,
                        spec_operand_triple(tokens0, index + 1),
                        None,
                        scope_symbol_table@,
                        global_symbol_table@,
                    )
                } else {
                    exists|mid: Seq<TypedToken>|
                        {
                            let d = if mid.len() - index > 3 {
                                index + 3
                            } else {
                                mid.len() as int
                            };
                            &&& #[trigger] spec_operand_insertion(tokens0, mid, index + 1)
                            &&& spec_operand_insertion(mid, final(tokens)@, d)
                            &&& final(errors)@ == old(errors)@ + spec_statement_records(
                                instruction,
                                row,
                                column,
                                spec_operand_triple(tokens0, index + 1),
                                Some(spec_operand_triple(mid, d)),
                                scope_symbol_table@,
                                global_symbol_table@,
                            )
                        }
                }
            }
        }),
{
    if index >= tokens.len() || tokens[index].token_type != TokenTypes::Instruction {
        return ;
    }
    let row = tokens[index].row;
    let column = tokens[index].column;
    let looked_up = instruction_lookup(&tokens[index].token_value);
    let instruction = match looked_up {
        Some(i) => i,
        None => {
            return ;
        },
    };
    let number_operands = count_operands(index, tokens);
    if number_operands > instruction.operands {
        errors.record_error(
            row,
            column,
            ErrorTypes::InvalidOperands,
            ErrorTexts::ExcessOperands,
        );
        return ;
    }
    if instruction.operands > 1 && (index + 1 >= tokens.len() || tokens[index + 1].token_type
        == TokenTypes::End) {
        errors.record_error(
            row,
            column,
            ErrorTypes::InvalidOperands,
            ErrorTexts::NoSourceOperand,
        );
        return ;
    }
    if instruction.operands == 0 {
        return ;
    }
    let source_operand = get_operand(index + 1, tokens);
    let ghost mid = tokens@;
    if instruction.operands == 1 {
        analyse_statement(
            instruction,
            row,
            column,
            &source_operand,
            None,
            scope_symbol_table,
            global_symbol_table,
            errors,
        );
        return ;
    }
    let destination_index = if tokens.len() - index > 3 {
        index + 3
    } else {
        tokens.len()
    };
    let destination_operand = get_operand(destination_index, tokens);
    analyse_statement(
        instruction,
        row,
        column,
        &source_operand,
        Some(&destination_operand),
        scope_symbol_table,
        global_symbol_table,
        errors,
    );
    proof {
        let d = if mid.len() - index > 3 {
            index + 3
        } else {
            mid.len() as int
        };
        assert(destination_index == d);
        assert(spec_operand_insertion(old(tokens)@, mid, index + 1));
    }
}

/// Analyse every instruction statement of one scope, inserting default
/// operands as each statement is visited.  Each statement's checks and
/// diagnostics are pinned by `analyse_instruction`'s contract.
pub fn semantic_analyse(
    tokens: &mut Vec<TypedToken>,
    scope_symbol_table: &SymbolTable,
    global_symbol_table: &SymbolTable,
    errors: &mut Errors,
)
    ensures
        spec_all_wf(old(tokens)@) ==> spec_all_wf(final(tokens)@),
        spec_all_clean(old(tokens)@) ==> spec_all_clean(final(tokens)@),
        final(errors)@.len() >= old(errors)@.len(),
{
    let original_length = tokens.len();
    let mut positions: Vec<usize> = Vec::new();
    let mut i: usize = 0;
    while i < tokens.len()
        invariant
            i <= tokens@.len(),
            forall|k: int| 0 <= k < positions@.len() ==> #[trigger] positions@[k] < tokens@.len(),
        decreases tokens@.len() - i,
    {
        if tokens[i].token_type == TokenTypes::Instruction {
            positions.push(i);
        }
        i = i + 1;
    }
    let mut k: usize = 0;
    let mut shift: usize = 0;
    while k < positions.len()
        invariant
            k <= positions@.len(),
            original_length <= tokens@.len(),
            shift == tokens@.len() - original_length,
            forall|q: int| 0 <= q < positions@.len() ==> #[trigger] positions@[q] < original_length,
            spec_all_wf(old(tokens)@) ==> spec_all_wf(tokens@),
            spec_all_clean(old(tokens)@) ==> spec_all_clean(tokens@),
            errors@.len() >= old(errors)@.len(),
        decreases positions@.len() - k,
    {
        let current_length = tokens.len();
        proof {
            assert(positions@[k as int] + shift < current_length);
        }
        analyse_instruction(
            positions[k] + shift,
            tokens,
            scope_symbol_table,
            global_symbol_table,
            errors,
        );
        shift = tokens.len() - original_length;
        k = k + 1;
    }
}

/// Run the semantic analyser over the global scope and every procedure
/// scope; a procedure's labels resolve against its own table first and
/// the global table second.
pub fn run(global_scope: &mut Scope, procedure_scopes: &mut Vec<(Vec<char>, Scope)>) -> (r: Errors)
    ensures
        spec_all_wf(old(global_scope).tokens@) ==> spec_all_wf(final(global_scope).tokens@),
        spec_all_clean(old(global_scope).tokens@) ==> spec_all_clean(final(global_scope).tokens@),
        final(global_scope).symbol_table == old(global_scope).symbol_table,
        final(global_scope).num_instructions == old(global_scope).num_instructions,
        final(global_scope).num_variables == old(global_scope).num_variables,
{
    let mut errors = Errors::new();
    semantic_analyse(
        &mut global_scope.tokens,
        &global_scope.symbol_table,
        &global_scope.symbol_table,
        &mut errors,
    );
    let mut p: usize = 0;
    while p < procedure_scopes.len()
        invariant
            p <= procedure_scopes@.len(),
            global_scope.symbol_table == old(global_scope).symbol_table,
            global_scope.num_instructions == old(global_scope).num_instructions,
            global_scope.num_variables == old(global_scope).num_variables,
            spec_all_wf(old(global_scope).tokens@) ==> spec_all_wf(global_scope.tokens@),
            spec_all_clean(old(global_scope).tokens@) ==> spec_all_clean(global_scope.tokens@),
        decreases procedure_scopes@.len() - p,
    {
        let pair = procedure_scopes.remove(p);
        let name = pair.0;
        let mut scope = pair.1;
        semantic_analyse(
            &mut scope.tokens,
            &scope.symbol_table,
            &global_scope.symbol_table,
            &mut errors,
        );
        procedure_scopes.insert(p, (name, scope));
        p = p + 1;
    }
    errors
}

} // verus!
