//! The instruction pools: the token stream partitioned into the global
//! scope and one scope per procedure, with each scope's symbol table
//! built from its label declarations.
//!
//! A label immediately followed by an instruction declares a branch
//! target; a label immediately followed by the variable directive
//! declares a variable, whose declaration tokens leave the stream.  A
//! redeclaration records an error whose wording names the old and the new
//! kind.

use vstd::prelude::*;
use crate::defaults::{SymbolTypes, VARIABLE_VALUE};
use crate::errors::{Errors, ErrorTypes, ErrorTexts, ErrorMessage, RecordedError, spec_opt_record};
use crate::tokens::{TypedToken, TokenTypes, spec_token_eq, parse_decimal_i64,
    spec_decimal_parsable, spec_decimal_token_value};
use crate::structs::{Scope, Symbol, SymbolTable, spec_find_symbol};
use crate::lexer::{spec_token_wf, spec_token_clean};

verus! {

/// Every token of the sequence matches its class.
pub open spec fn spec_all_wf(tokens: Seq<TypedToken>) -> bool {
    forall|k: int| 0 <= k < tokens.len() ==> spec_token_wf(#[trigger] tokens[k])
}

/// Every token of the sequence passed body validation.
pub open spec fn spec_all_clean(tokens: Seq<TypedToken>) -> bool {
    forall|k: int| 0 <= k < tokens.len() ==> spec_token_clean(#[trigger] tokens[k])
}

/// Copy tokens from the index up to (not including) the next closing
/// brace, leaving the index just past that brace.
fn get_scope(tokens: &Vec<TypedToken>, index: &mut usize) -> (r: Vec<TypedToken>)
    requires
        *old(index) <= tokens@.len(),
    ensures
        *old(index) <= *final(index) <= tokens@.len(),
        forall|k: int|
            0 <= k < r@.len() ==> spec_token_eq(#[trigger] r@[k], tokens@[*old(index) + k]),
        r@.len() <= tokens@.len() - *old(index),
{
    let mut scope_tokens: Vec<TypedToken> = Vec::new();
    while *index < tokens.len() && tokens[*index].token_type != TokenTypes::RightBrace
        invariant
            *old(index) <= *index <= tokens@.len(),
            scope_tokens@.len() == *index - *old(index),
            forall|k: int|
                0 <= k < scope_tokens@.len() ==> spec_token_eq(
                    #[trigger] scope_tokens@[k],
                    tokens@[*old(index) + k],
                ),
        decreases tokens@.len() - *index,
    {
        scope_tokens.push(tokens[*index].duplicate());
        *index = *index + 1;
    }
    if *index < tokens.len() {
        *index = *index + 1;
    }
    scope_tokens
}

/// Partition the token stream: brace-delimited regions become procedure
/// scopes named by the label written before the opening brace, and
/// everything else lands in the global scope.
#[verifier::rlimit(60)]
#[verifier::spinoff_prover]
fn get_scopes(
    tokens: &Vec<TypedToken>,
    index: &mut usize,
    global_scope: &mut Scope,
    procedure_scopes: &mut Vec<(Vec<char>, Scope)>,
)
    requires
        *old(index) == 0,
        old(global_scope).tokens@.len() == 0,
        old(procedure_scopes)@.len() == 0,
        spec_all_wf(tokens@),
    ensures
        spec_all_wf(final(global_scope).tokens@),
        forall|p: int|
            0 <= p < final(procedure_scopes)@.len() ==> spec_all_wf(
                #[trigger] final(procedure_scopes)@[p].1.tokens@,
            ),
        final(global_scope).symbol_table == old(global_scope).symbol_table,
        final(global_scope).num_instructions == old(global_scope).num_instructions,
        final(global_scope).num_variables == old(global_scope).num_variables,
        forall|p: int|
            0 <= p < final(procedure_scopes)@.len()
                ==> (#[trigger] final(procedure_scopes)@[p].1).symbol_table.well_formed(),
        spec_all_clean(tokens@) ==> spec_all_clean(final(global_scope).tokens@) && (forall|p: int|
            0 <= p < final(procedure_scopes)@.len() ==> spec_all_clean(
                #[trigger] final(procedure_scopes)@[p].1.tokens@,
            )),
{
    let length = tokens.len();
    while *index < length
        invariant
            *index <= length,
            length == tokens@.len(),
            spec_all_wf(tokens@),
            forall|k: int|
                0 <= k < global_scope.tokens@.len() ==> exists|j: int|
                    0 <= j < tokens@.len() && spec_token_eq(
                        #[trigger] global_scope.tokens@[k],
                        tokens@[j],
                    ),
            forall|p: int, k: int|
                0 <= p < procedure_scopes@.len() && 0 <= k
                    < procedure_scopes@[p].1.tokens@.len() ==> exists|j: int|
                    0 <= j < tokens@.len() && spec_token_eq(
                        #[trigger] procedure_scopes@[p].1.tokens@[k],
                        tokens@[j],
                    ),
            global_scope.symbol_table == old(global_scope).symbol_table,
            global_scope.num_instructions == old(global_scope).num_instructions,
            global_scope.num_variables == old(global_scope).num_variables,
            forall|p: int|
                0 <= p < procedure_scopes@.len() ==> (#[trigger] procedure_scopes@[p].1)
                    .symbol_table.well_formed(),
        decreases length - *index,
    {
        let token = &tokens[*index];
        if token.token_type == TokenTypes::LeftBrace && global_scope.tokens.len() > 0 {
            let mut procedure_token = global_scope.tokens.pop().unwrap();
            if procedure_token.token_type == TokenTypes::End && global_scope.tokens.len() > 0 {
                procedure_token = global_scope.tokens.pop().unwrap();
            }
            *index = *index + 1;
            if *index < length {
                *index = *index + 1;
            }
            let scope_tokens = get_scope(tokens, index);
            let scope = Scope {
                tokens: scope_tokens,
                symbol_table: SymbolTable::new(),
                num_instructions: 0,
                num_variables: 0,
            };
            procedure_scopes.push((procedure_token.token_value, scope));
        } else {
            global_scope.tokens.push(token.duplicate());
            *index = *index + 1;
        }
    }
    proof {
        assert forall|k: int| 0 <= k < global_scope.tokens@.len() implies spec_token_wf(
            #[trigger] global_scope.tokens@[k],
        ) by {
            let j = choose|j: int|
                0 <= j < tokens@.len() && spec_token_eq(global_scope.tokens@[k], tokens@[j]);
            assert(spec_token_wf(tokens@[j]));
            lemma_token_eq_wf(global_scope.tokens@[k], tokens@[j]);
        }
        assert forall|p: int| 0 <= p < procedure_scopes@.len() implies spec_all_wf(
            #[trigger] procedure_scopes@[p].1.tokens@,
        ) by {
            assert forall|k: int|
                0 <= k < procedure_scopes@[p].1.tokens@.len() implies spec_token_wf(
                #[trigger] procedure_scopes@[p].1.tokens@[k],
            ) by {
                let j = choose|j: int|
                    0 <= j < tokens@.len() && spec_token_eq(
                        procedure_scopes@[p].1.tokens@[k],
                        tokens@[j],
                    );
                assert(spec_token_wf(tokens@[j]));
                lemma_token_eq_wf(procedure_scopes@[p].1.tokens@[k], tokens@[j]);
            }
        }
        if spec_all_clean(tokens@) {
            assert forall|k: int|
                0 <= k < global_scope.tokens@.len() implies spec_token_clean(
                #[trigger] global_scope.tokens@[k],
            ) by {
                let j = choose|j: int|
                    0 <= j < tokens@.len() && spec_token_eq(
                        global_scope.tokens@[k],
                        tokens@[j],
                    );
                assert(spec_token_clean(tokens@[j]));
                lemma_token_eq_clean(global_scope.tokens@[k], tokens@[j]);
            }
            assert forall|p: int| 0 <= p < procedure_scopes@.len() implies spec_all_clean(
                #[trigger] procedure_scopes@[p].1.tokens@,
            ) by {
                assert forall|k: int|
                    0 <= k < procedure_scopes@[p].1.tokens@.len() implies spec_token_clean(
                    #[trigger] procedure_scopes@[p].1.tokens@[k],
                ) by {
                    let j = choose|j: int|
                        0 <= j < tokens@.len() && spec_token_eq(
                            procedure_scopes@[p].1.tokens@[k],
                            tokens@[j],
                        );
                    assert(spec_token_clean(tokens@[j]));
                    lemma_token_eq_clean(procedure_scopes@[p].1.tokens@[k], tokens@[j]);
                }
            }
        }
    }
}

/// Tokens with equal class and value are equally well formed.
pub proof fn lemma_token_eq_wf(a: TypedToken, b: TypedToken)
    requires
        spec_token_eq(a, b),
        spec_token_wf(b),
    ensures
        spec_token_wf(a),
{
}

/// Tokens with equal class and value are equally clean.
pub proof fn lemma_token_eq_clean(a: TypedToken, b: TypedToken)
    requires
        spec_token_eq(a, b),
        spec_token_clean(b),
    ensures
        spec_token_clean(a),
{
}

/// Enter every procedure name into the global symbol table with kind
/// `Procedure` (skipping names already taken, which the per-scope pass
/// reports).
fn update_global_scope(global_scope: &mut Scope, procedure_scopes: &Vec<(Vec<char>, Scope)>)
    requires
        old(global_scope).symbol_table.well_formed(),
    ensures
        final(global_scope).symbol_table.well_formed(),
        final(global_scope).tokens == old(global_scope).tokens,
        final(global_scope).num_instructions == old(global_scope).num_instructions,
        final(global_scope).num_variables == old(global_scope).num_variables,
        forall|p: int|
            0 <= p < procedure_scopes@.len() ==> final(global_scope).symbol_table.spec_contains(
                #[trigger] procedure_scopes@[p].0@,
            ),
{
    let mut p: usize = 0;
    while p < procedure_scopes.len()
        invariant
            p <= procedure_scopes@.len(),
            global_scope.symbol_table.well_formed(),
            global_scope.tokens == old(global_scope).tokens,
            global_scope.num_instructions == old(global_scope).num_instructions,
            global_scope.num_variables == old(global_scope).num_variables,
            forall|q: int|
                0 <= q < p ==> global_scope.symbol_table.spec_contains(
                    #[trigger] procedure_scopes@[q].0@,
                ),
        decreases procedure_scopes@.len() - p,
    {
        let name = crate::binarystring::subrange_vec(
            &procedure_scopes[p].0,
            0,
            procedure_scopes[p].0.len(),
        );
        proof {
            assert(name@ =~= procedure_scopes@[p as int].0@);
        }
        let ghost pre_table = global_scope.symbol_table@;
        if !global_scope.symbol_table.contains(&name) {
            global_scope.symbol_table.insert(
                name,
                Symbol { symbol_value: 0, symbol_type: SymbolTypes::Procedure },
            );
            proof {
                crate::structs::lemma_find_symbol_push(
                    pre_table,
                    procedure_scopes@[p as int].0@,
                    (procedure_scopes@[p as int].0@, Symbol {
                        symbol_value: 0,
                        symbol_type: SymbolTypes::Procedure,
                    }),
                );
                assert forall|q: int|
                    0 <= q < p + 1 implies global_scope.symbol_table.spec_contains(
                    #[trigger] procedure_scopes@[q].0@,
                ) by {
                    crate::structs::lemma_find_symbol_push(
                        pre_table,
                        procedure_scopes@[q].0@,
                        (procedure_scopes@[p as int].0@, Symbol {
                            symbol_value: 0,
                            symbol_type: SymbolTypes::Procedure,
                        }),
                    );
                }
            }
        }
        p = p + 1;
    }
}

/// The redeclaration diagnostic for a label already in the table: the
/// wording names the old kind and whether the new declaration is a
/// branch (before an instruction) or a variable (before the directive).
pub open spec fn spec_redeclaration_record(
    symbol: Symbol,
    row: u64,
    column: u64,
    next_type: TokenTypes,
) -> Option<RecordedError> {
    if next_type == TokenTypes::Instruction {
        Some(
            RecordedError {
                row,
                column,
                message: ErrorMessage {
                    error_type: ErrorTypes::BranchLabel,
                    error_message: match symbol.symbol_type {
                        SymbolTypes::Procedure => ErrorTexts::ProcToBranchRedecl,
                        SymbolTypes::Branch => ErrorTexts::DuplicateBranch,
                        SymbolTypes::Variable => ErrorTexts::VarToBranchRedecl,
                    },
                },
            },
        )
    } else if next_type == TokenTypes::AssemblyDirective {
        Some(
            RecordedError {
                row,
                column,
                message: ErrorMessage {
                    error_type: ErrorTypes::VariableLabel,
                    error_message: match symbol.symbol_type {
                        SymbolTypes::Procedure => ErrorTexts::ProcToVarRedecl,
                        SymbolTypes::Branch => ErrorTexts::BranchToVarRedecl,
                        SymbolTypes::Variable => ErrorTexts::DuplicateVar,
                    },
                },
            },
        )
    } else {
        None
    }
}

/// Record the redeclaration error for a label that is already in the
/// table; the record appended is exactly `spec_redeclaration_record`.
fn handle_symbol(
    symbol: &Symbol,
    current_token: &TypedToken,
    next_token: &TypedToken,
    errors: &mut Errors,
)
    ensures
        final(errors)@ == old(errors)@ + spec_opt_record(
            spec_redeclaration_record(
                *symbol,
                current_token.row,
                current_token.column,
                next_token.token_type,
            ),
        ),
        old(errors)@.is_prefix_of(final(errors)@),
{
    let ghost before = errors@;
    if next_token.token_type == TokenTypes::Instruction {
        match symbol.symbol_type {
            SymbolTypes::Procedure => {
                errors.record_error(
                    current_token.row,
                    current_token.column,
                    ErrorTypes::BranchLabel,
                    ErrorTexts::ProcToBranchRedecl,
                );
            },
            SymbolTypes::Branch => {
                errors.record_error(
                    current_token.row,
                    current_token.column,
                    ErrorTypes::BranchLabel,
                    ErrorTexts::DuplicateBranch,
                );
            },
            SymbolTypes::Variable => {
                errors.record_error(
                    current_token.row,
                    current_token.column,
                    ErrorTypes::BranchLabel,
                    ErrorTexts::VarToBranchRedecl,
                );
            },
        }
    } else if next_token.token_type == TokenTypes::AssemblyDirective {
        match symbol.symbol_type {
            SymbolTypes::Procedure => {
                errors.record_error(
                    current_token.row,
                    current_token.column,
                    ErrorTypes::VariableLabel,
                    ErrorTexts::ProcToVarRedecl,
                );
            },
            SymbolTypes::Branch => {
                errors.record_error(
                    current_token.row,
                    current_token.column,
                    ErrorTypes::VariableLabel,
                    ErrorTexts::BranchToVarRedecl,
                );
            },
            SymbolTypes::Variable => {
                errors.record_error(
                    current_token.row,
                    current_token.column,
                    ErrorTypes::VariableLabel,
                    ErrorTexts::DuplicateVar,
                );
            },
        }
    }
    proof {
        assert(errors@ =~= before + spec_opt_record(
            spec_redeclaration_record(
                *symbol,
                current_token.row,
                current_token.column,
                next_token.token_type,
            ),
        ));
        assert(errors@.subrange(0, before.len() as int) =~= before);
    }
}

/// The first position at or after `i` that holds a statement terminator,
/// or the stream's length when none follows.
pub open spec fn spec_next_end(tokens: Seq<TypedToken>, i: int) -> int
    recommends
        0 <= i <= tokens.len(),
    decreases tokens.len() - i when 0 <= i <= tokens.len()
{
    if i >= tokens.len() {
        i
    } else if tokens[i].token_type == TokenTypes::End {
        i
    } else {
        spec_next_end(tokens, i + 1)
    }
}

proof fn lemma_next_end_bounds(tokens: Seq<TypedToken>, i: int)
    requires
        0 <= i <= tokens.len(),
    ensures
        i <= spec_next_end(tokens, i) <= tokens.len(),
        spec_next_end(tokens, i) < tokens.len() ==> tokens[spec_next_end(
            tokens,
            i,
        )].token_type == TokenTypes::End,
    decreases tokens.len() - i,
{
    if i < tokens.len() && tokens[i].token_type != TokenTypes::End {
        lemma_next_end_bounds(tokens, i + 1);
    }
}

proof fn lemma_next_end_unique(tokens: Seq<TypedToken>, i: int, j: int)
    requires
        0 <= i <= j <= tokens.len(),
        forall|k: int| i <= k < j ==> (#[trigger] tokens[k]).token_type != TokenTypes::End,
        j == tokens.len() || tokens[j].token_type == TokenTypes::End,
    ensures
        spec_next_end(tokens, i) == j,
    decreases j - i,
{
    if i < j {
        lemma_next_end_unique(tokens, i + 1, j);
    }
}

/// Remove the declaration tokens of a variable (label, directive and
/// optional initial value) from the stream: exactly the tokens from the
/// index up to (not including) the next statement terminator.
fn remove_variable(scope: &mut Scope, index: usize)
    requires
        index <= old(scope).tokens@.len(),
    ensures
        final(scope).tokens@ == old(scope).tokens@.subrange(0, index as int) + old(
            scope,
        ).tokens@.subrange(
            spec_next_end(old(scope).tokens@, index as int),
            old(scope).tokens@.len() as int,
        ),
        final(scope).tokens@.len() <= old(scope).tokens@.len(),
        spec_all_wf(old(scope).tokens@) ==> spec_all_wf(final(scope).tokens@),
        spec_all_clean(old(scope).tokens@) ==> spec_all_clean(final(scope).tokens@),
        final(scope).symbol_table == old(scope).symbol_table,
        final(scope).num_instructions == old(scope).num_instructions,
        final(scope).num_variables == old(scope).num_variables,
{
    let ghost t0 = old(scope).tokens@;
    let ghost mut g: int = index as int;
    proof {
        assert(scope.tokens@ =~= t0.subrange(0, index as int) + t0.subrange(
            g,
            t0.len() as int,
        ));
    }
    while index < scope.tokens.len() && scope.tokens[index].token_type != TokenTypes::End
        invariant
            index <= g <= t0.len(),
            scope.tokens@ == t0.subrange(0, index as int) + t0.subrange(g, t0.len() as int),
            forall|k: int| index <= k < g ==> (#[trigger] t0[k]).token_type != TokenTypes::End,
            spec_all_wf(t0) ==> spec_all_wf(scope.tokens@),
            spec_all_clean(t0) ==> spec_all_clean(scope.tokens@),
            scope.symbol_table == old(scope).symbol_table,
            scope.num_instructions == old(scope).num_instructions,
            scope.num_variables == old(scope).num_variables,
        decreases scope.tokens@.len() - index,
    {
        proof {
            assert(scope.tokens@[index as int] == t0[g]);
        }
        let ghost pre = scope.tokens@;
        scope.tokens.remove(index);
        proof {
            g = g + 1;
            assert(scope.tokens@ =~= t0.subrange(0, index as int) + t0.subrange(
                g,
                t0.len() as int,
            ));
            if spec_all_wf(t0) {
                assert forall|k: int| 0 <= k < scope.tokens@.len() implies spec_token_wf(
                    #[trigger] scope.tokens@[k],
                ) by {
                    if k < index {
                        assert(scope.tokens@[k] == pre[k]);
                    } else {
                        assert(scope.tokens@[k] == pre[k + 1]);
                    }
                }
            }
            if spec_all_clean(t0) {
                assert forall|k: int| 0 <= k < scope.tokens@.len() implies spec_token_clean(
                    #[trigger] scope.tokens@[k],
                ) by {
                    if k < index {
                        assert(scope.tokens@[k] == pre[k]);
                    } else {
                        assert(scope.tokens@[k] == pre[k + 1]);
                    }
                }
            }
        }
    }
    proof {
        if index >= scope.tokens@.len() {
            assert(g == t0.len());
            lemma_next_end_unique(t0, index as int, g);
        } else {
            assert(scope.tokens@[index as int] == t0[g]);
            lemma_next_end_unique(t0, index as int, g);
        }
    }
}

/// The initial value a variable declaration carries: its written value
/// token when one follows the directive and parses, the default
/// otherwise.
pub open spec fn spec_variable_initial_value(tokens: Seq<TypedToken>, index: int) -> i64 {
    if index + 2 < tokens.len() && tokens[index + 2].token_type == TokenTypes::Value
        && spec_decimal_parsable(tokens[index + 2].token_value@) {
        spec_decimal_token_value(tokens[index + 2].token_value@) as i64
    } else {
        VARIABLE_VALUE
    }
}

/// Handle one label declaration.  A known name records exactly the
/// redeclaration diagnostic of `spec_redeclaration_record` and changes
/// nothing else; a fresh name before the directive enters the table as a
/// variable carrying its written initial value and its declaration
/// tokens leave the stream; a fresh name before an instruction enters as
/// a branch at the given statement index.
fn handle_label(scope: &mut Scope, index: usize, statements: u64, errors: &mut Errors)
    requires
        index + 1 < old(scope).tokens@.len(),
        old(scope).symbol_table.well_formed(),
        statements <= 0x4000_0000_0000_0000,
    ensures
        final(scope).symbol_table.well_formed(),
        final(scope).tokens@.len() <= old(scope).tokens@.len(),
        spec_all_wf(old(scope).tokens@) ==> spec_all_wf(final(scope).tokens@),
        spec_all_clean(old(scope).tokens@) ==> spec_all_clean(final(scope).tokens@),
        final(scope).num_instructions == old(scope).num_instructions,
        old(errors)@.is_prefix_of(final(errors)@),
        ({
            let t0 = old(scope).tokens@;
            let name = t0[index as int].token_value@;
            let second = t0[index + 1].token_type;
            match spec_find_symbol(old(scope).symbol_table@, name) {
                Some(symbol) => {
                    &&& final(scope).symbol_table == old(scope).symbol_table
                    &&& final(scope).tokens@ == t0
                    &&& final(scope).num_variables == old(scope).num_variables
                    &&& final(errors)@ == old(errors)@ + spec_opt_record(
                        spec_redeclaration_record(
                            symbol,
                            t0[index as int].row,
                            t0[index as int].column,
                            second,
                        ),
                    )
                },
                None => {
                    &&& final(errors)@ == old(errors)@
                    &&& if second == TokenTypes::AssemblyDirective {
                        &&& final(scope).symbol_table@ == old(scope).symbol_table@.push(
                            (
                                name,
                                Symbol {
                                    symbol_value: spec_variable_initial_value(t0, index as int),
                                    symbol_type: SymbolTypes::Variable,
                                },
                            ),
                        )
                        &&& final(scope).tokens@ == t0.subrange(0, index as int) + t0.subrange(
                            spec_next_end(t0, index as int),
                            t0.len() as int,
                        )
                        &&& final(scope).num_variables == (if old(scope).num_variables
                            < u64::MAX {
                            old(scope).num_variables + 1
                        } else {
                            old(scope).num_variables as int
                        })
                    } else if second == TokenTypes::Instruction {
                        &&& final(scope).symbol_table@ == old(scope).symbol_table@.push(
                            (
                                name,
                                Symbol {
                                    symbol_value: statements as i64,
                                    symbol_type: SymbolTypes::Branch,
                                },
                            ),
                        )
                        &&& final(scope).tokens@ == t0
                        &&& final(scope).num_variables == old(scope).num_variables
                    } else {
                        &&& final(scope).symbol_table@ == old(scope).symbol_table@.push(
                            (
                                name,
                                Symbol {
                                    symbol_value: VARIABLE_VALUE,
                                    symbol_type: SymbolTypes::Variable,
                                },
                            ),
                        )
                        &&& final(scope).tokens@ == t0
                        &&& final(scope).num_variables == old(scope).num_variables
                    }
                },
            }
        }),
{
    let n = scope.tokens.len();
    let first_value = crate::binarystring::subrange_vec(
        &scope.tokens[index].token_value,
        0,
        scope.tokens[index].token_value.len(),
    );
    proof {
        assert(first_value@ =~= old(scope).tokens@[index as int].token_value@);
    }
    let second_type = scope.tokens[index + 1].token_type;
    let existing = scope.tokens[index].duplicate();
    let next = scope.tokens[index + 1].duplicate();
    let found = scope.symbol_table.lookup(&first_value);
    match found {
        Some(symbol) => {
            handle_symbol(&symbol, &existing, &next, errors);
        },
        None => {
            let mut symbol = Symbol { symbol_value: 0, symbol_type: SymbolTypes::Variable };
            if second_type == TokenTypes::AssemblyDirective {
                let third_parsed: Option<i64> = if n > 2 && index < n - 2
                    && scope.tokens[index + 2].token_type == TokenTypes::Value {
                    parse_decimal_i64(&scope.tokens[index + 2].token_value)
                } else {
                    None
                };
                symbol.symbol_value = match third_parsed {
                    Some(v) => v,
                    None => VARIABLE_VALUE,
                };
                proof {
                    assert(symbol.symbol_value == spec_variable_initial_value(
                        old(scope).tokens@,
                        index as int,
                    ));
                }
                remove_variable(scope, index);
                if scope.num_variables < u64::MAX {
                    scope.num_variables = scope.num_variables + 1;
                }
            } else if second_type == TokenTypes::Instruction {
                symbol.symbol_type = SymbolTypes::Branch;
                symbol.symbol_value = statements as i64;
            }
            scope.symbol_table.insert(first_value, symbol);
        },
    }
    proof {
        assert(errors@.subrange(0, old(errors)@.len() as int) =~= old(errors)@);
    }
}

/// How many instruction tokens the first `i` positions of a stream
/// hold.
pub open spec fn spec_count_instructions(tokens: Seq<TypedToken>, i: int) -> int
    decreases i when 0 <= i <= tokens.len()
{
    if i <= 0 {
        0
    } else {
        spec_count_instructions(tokens, i - 1) + (
        if tokens[i - 1].token_type == TokenTypes::Instruction {
            1int
        } else {
            0int
        })
    }
}

/// Counting stops at a prefix boundary: streams equal up to `i` count
/// equally there.
proof fn lemma_count_instructions_prefix(a: Seq<TypedToken>, b: Seq<TypedToken>, i: int)
    requires
        0 <= i <= a.len(),
        i <= b.len(),
        forall|k: int| 0 <= k < i ==> a[k] == b[k],
    ensures
        spec_count_instructions(a, i) == spec_count_instructions(b, i),
    decreases i,
{
    if i > 0 {
        lemma_count_instructions_prefix(a, b, i - 1);
    }
}

/// Walk a scope once: count its instruction statements and promote its
/// labels into the symbol table, removing variable declarations from the
/// stream.  Afterwards `num_instructions` is exactly the number of
/// instruction tokens left in the stream (they are never removed, and
/// far more would fit than any source can hold).
pub fn update_symbol_table(scope: &mut Scope, errors: &mut Errors)
    requires
        old(scope).symbol_table.well_formed(),
    ensures
        final(scope).symbol_table.well_formed(),
        final(scope).tokens@.len() <= old(scope).tokens@.len(),
        spec_all_wf(old(scope).tokens@) ==> spec_all_wf(final(scope).tokens@),
        spec_all_clean(old(scope).tokens@) ==> spec_all_clean(final(scope).tokens@),
        old(errors)@.is_prefix_of(final(errors)@),
        old(scope).tokens@.len() <= 0x4000_0000_0000_0000 ==> final(scope).num_instructions
            == spec_count_instructions(final(scope).tokens@, final(scope).tokens@.len() as int),
{
    let mut index: usize = 0;
    let mut statements: u64 = 0;
    while index < scope.tokens.len()
        invariant
            scope.symbol_table.well_formed(),
            statements <= 0x4000_0000_0000_0000,
            scope.tokens@.len() <= old(scope).tokens@.len(),
            spec_all_wf(old(scope).tokens@) ==> spec_all_wf(scope.tokens@),
            spec_all_clean(old(scope).tokens@) ==> spec_all_clean(scope.tokens@),
            old(errors)@.is_prefix_of(errors@),
            old(scope).tokens@.len() <= 0x4000_0000_0000_0000 ==> statements
                == spec_count_instructions(
                scope.tokens@,
                if index as int <= scope.tokens@.len() {
                    index as int
                } else {
                    scope.tokens@.len() as int
                },
            ) && statements <= index,
        decreases old(scope).tokens@.len() - index,
    {
        let ghost tokens_before = scope.tokens@;
        if scope.tokens[index].token_type == TokenTypes::Label && index + 1 < scope.tokens.len()
            && (scope.tokens[index + 1].token_type == TokenTypes::Instruction || scope.tokens[index
            + 1].token_type == TokenTypes::AssemblyDirective) {
            handle_label(scope, index, statements, errors);
            proof {
                if old(scope).tokens@.len() <= 0x4000_0000_0000_0000 {
                    lemma_count_instructions_prefix(scope.tokens@, tokens_before, index as int);
                    lemma_next_end_bounds(tokens_before, index as int);
                    if index < scope.tokens@.len() {
                        assert(spec_count_instructions(scope.tokens@, index + 1)
                            == spec_count_instructions(scope.tokens@, index as int) + (
                        if scope.tokens@[index as int].token_type == TokenTypes::Instruction {
                            1int
                        } else {
                            0int
                        }));
                        if scope.tokens@ != tokens_before {
                            assert(scope.tokens@[index as int] == tokens_before[spec_next_end(
                                tokens_before,
                                index as int,
                            )]);
                        }
                        assert(scope.tokens@[index as int].token_type
                            != TokenTypes::Instruction);
                    }
                }
            }
        } else if scope.tokens[index].token_type == TokenTypes::Instruction {
            if statements < 0x4000_0000_0000_0000 {
                statements = statements + 1;
            }
            proof {
                if old(scope).tokens@.len() <= 0x4000_0000_0000_0000 {
                    assert(spec_count_instructions(scope.tokens@, index + 1)
                        == spec_count_instructions(scope.tokens@, index as int) + 1);
                }
            }
        } else {
            proof {
                if old(scope).tokens@.len() <= 0x4000_0000_0000_0000 {
                    assert(spec_count_instructions(scope.tokens@, index + 1)
                        == spec_count_instructions(scope.tokens@, index as int));
                }
            }
        }
        index = index + 1;
    }
    scope.num_instructions = statements;
}

/// Run the instruction pools pass: partition the stream into the global
/// scope and the procedure scopes (in source order), enter procedure
/// names into the global table, and build each scope's symbol table.
pub fn run(tokens: &Vec<TypedToken>) -> (r: (Scope, Vec<(Vec<char>, Scope)>, Errors))
    requires
        spec_all_wf(tokens@),
    ensures
        r.0.symbol_table.well_formed(),
        forall|p: int|
            0 <= p < r.1@.len() ==> (#[trigger] r.1@[p].1).symbol_table.well_formed(),
        spec_all_wf(r.0.tokens@),
        forall|p: int| 0 <= p < r.1@.len() ==> spec_all_wf((#[trigger] r.1@[p].1).tokens@),
        spec_all_clean(tokens@) ==> spec_all_clean(r.0.tokens@) && (forall|p: int|
            0 <= p < r.1@.len() ==> spec_all_clean((#[trigger] r.1@[p].1).tokens@)),
{
    let mut index: usize = 0;
    let mut errors = Errors::new();
    let mut global_scope = Scope {
        tokens: Vec::new(),
        symbol_table: SymbolTable::new(),
        num_instructions: 0,
        num_variables: 0,
    };
    let mut procedure_scopes: Vec<(Vec<char>, Scope)> = Vec::new();
    get_scopes(tokens, &mut index, &mut global_scope, &mut procedure_scopes);
    update_global_scope(&mut global_scope, &procedure_scopes);
    update_symbol_table(&mut global_scope, &mut errors);
    let mut p: usize = 0;
    while p < procedure_scopes.len()
        invariant
            p <= procedure_scopes@.len(),
            forall|q: int|
                0 <= q < procedure_scopes@.len() ==> (#[trigger] procedure_scopes@[q].1)
                    .symbol_table.well_formed(),
            forall|q: int|
                0 <= q < procedure_scopes@.len() ==> spec_all_wf(
                    (#[trigger] procedure_scopes@[q].1).tokens@,
                ),
            spec_all_clean(tokens@) ==> forall|q: int|
                0 <= q < procedure_scopes@.len() ==> spec_all_clean(
                    (#[trigger] procedure_scopes@[q].1).tokens@,
                ),
        decreases procedure_scopes@.len() - p,
    {
        let ghost pre = procedure_scopes@;
        let pair = procedure_scopes.remove(p);
        let name = pair.0;
        let mut scope = pair.1;
        update_symbol_table(&mut scope, &mut errors);
        procedure_scopes.insert(p, (name, scope));
        proof {
            assert forall|q: int|
                0 <= q < procedure_scopes@.len() implies (#[trigger] procedure_scopes@[q].1)
                .symbol_table.well_formed() && spec_all_wf(
                (#[trigger] procedure_scopes@[q].1).tokens@,
            ) by {
                if q != p {
                    assert(procedure_scopes@[q] == pre[q]);
                }
            }
            if spec_all_clean(tokens@) {
                assert forall|q: int|
                    0 <= q < procedure_scopes@.len() implies spec_all_clean(
                    (#[trigger] procedure_scopes@[q].1).tokens@,
                ) by {
                    if q != p {
                        assert(procedure_scopes@[q] == pre[q]);
                    }
                }
            }
        }
        p = p + 1;
    }
    (global_scope, procedure_scopes, errors)
}

} // verus!
