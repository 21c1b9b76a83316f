use chadsembler::defaults::{ConfigTable, ConfigKeys};
use chadsembler::errors::{Errors, ErrorTypes, ErrorTexts};
use chadsembler::lexer;
use chadsembler::parser;
use chadsembler::instructionpools;
use chadsembler::semanticanalyser;
use chadsembler::codegenerator;
use chadsembler::precompilation::{argumentprocessor, preprocessor};
use chadsembler::structs::Memory;
use chadsembler::machineoperations::{MachineOperations, MachineEffect};
use chadsembler::virtualmachine::{step, MachineCodeBits};
use chadsembler::tokens::{TokenTypes, PositionToken};

fn chars(s: &str) -> Vec<char> {
    s.chars().collect()
}

fn error_texts(errors: &Errors) -> Vec<ErrorTexts> {
    let mut texts = Vec::new();
    let mut i = 0;
    while i < errors.len() {
        texts.push(errors.get(i).message.error_message);
        i += 1;
    }
    texts
}

// Run the whole compilation pipeline over a source text, panicking on
// any diagnostic, and hand back the memory image and field widths.
fn assemble(source: &str) -> (Memory, MachineCodeBits, u64, u64) {
    let text = chars(source);
    let mut config = ConfigTable::new();
    let pre_errors = preprocessor::run(&text, '!', ';', '=', &mut config);
    assert!(pre_errors.is_empty(), "preprocessor rejected the source");
    let (tokens, lex_errors) = lexer::run(&text, '!', ';');
    assert!(lex_errors.is_empty(), "lexer rejected the source");
    let parse_errors = parser::run(&tokens);
    assert!(parse_errors.is_empty(), "parser rejected the source");
    let (mut global, mut procedures, pool_errors) = instructionpools::run(&tokens);
    assert!(pool_errors.is_empty(), "pools rejected the source");
    let sem_errors = semanticanalyser::run(&mut global, &mut procedures);
    assert!(sem_errors.is_empty(), "semantic analysis rejected the source");
    let (memory, mob, amb, ob) =
        codegenerator::run(&mut global, &mut procedures, &config).unwrap();
    let bits = MachineCodeBits {
        machine_operation_bits: mob,
        addressing_mode_bits: amb,
        operand_bits: ob,
        architecture: mob + amb + 2 * ob,
    };
    (memory, bits, config.registers, config.clock)
}

// Drive the interpreter until it halts, feeding queued inputs and
// collecting every output line.
fn run_vm(memory: Memory, bits: &MachineCodeBits, gprs: u64, inputs: &[i64]) -> Vec<String> {
    let mut machine = MachineOperations::new(memory, gprs);
    let mut outputs = Vec::new();
    let mut next_input = 0;
    let mut cycles = 0;
    loop {
        cycles += 1;
        assert!(cycles < 100_000, "the program never halted");
        match step(&mut machine, bits) {
            Ok(effect) => match effect {
                MachineEffect::Continue => {}
                MachineEffect::Halt => return outputs,
                MachineEffect::OutputDecimal(v) => outputs.push(format!("{v}")),
                MachineEffect::OutputChar(v) => outputs.push(format!("{}", (v as u8) as char)),
                MachineEffect::OutputBits(b) => outputs.push(b.iter().collect()),
                MachineEffect::NeedInput(address) => {
                    let value = inputs[next_input];
                    next_input += 1;
                    match machine.store_input(address, value) {
                        MachineEffect::Continue => {}
                        _ => panic!("storing input faulted"),
                    }
                }
                MachineEffect::Fault(address) => panic!("segmentation fault at {address}"),
                MachineEffect::InvalidOpcode(opcode) => panic!("invalid opcode {opcode}"),
            },
            Err(address) => panic!("segmentation fault at {address}"),
        }
    }
}

// Run the pipeline up to (and including) the semantic analyser and hand
// back that phase's diagnostics.
fn semantic_diagnostics(source: &str) -> Errors {
    let text = chars(source);
    let (tokens, lex_errors) = lexer::run(&text, '!', ';');
    assert!(lex_errors.is_empty());
    let parse_errors = parser::run(&tokens);
    assert!(parse_errors.is_empty());
    let (mut global, mut procedures, pool_errors) = instructionpools::run(&tokens);
    assert!(pool_errors.is_empty());
    semanticanalyser::run(&mut global, &mut procedures)
}

#[test]
fn echo_one_input() {
    let (memory, bits, gprs, _) = assemble("INP %ACC\nOUT %ACC\nHLT\n");
    assert_eq!(run_vm(memory, &bits, gprs, &[42]), vec!["42"]);
}

#[test]
fn add_two_inputs() {
    let source = "INP R1\nINP R2\nLDA %R1,%ACC\nADD %R2,%ACC\nOUT %ACC\nHLT\n";
    let (memory, bits, gprs, _) = assemble(source);
    assert_eq!(run_vm(memory, &bits, gprs, &[3, 4]), vec!["7"]);
}

#[test]
fn branch_zero_countdown() {
    let source = "LDA #3,%ACC\nLOOP OUT %ACC\nBRZ @END,%ACC\nSUB #1,%ACC\nBRA @LOOP\nEND HLT\n";
    let (memory, bits, gprs, _) = assemble(source);
    assert_eq!(run_vm(memory, &bits, gprs, &[]), vec!["3", "2", "1", "0"]);
}

#[test]
fn variable_load() {
    let source = "X DAT 5\nLDA @X,%ACC\nOUT %ACC\nHLT\n";
    let (memory, bits, gprs, _) = assemble(source);
    assert_eq!(run_vm(memory, &bits, gprs, &[]), vec!["5"]);
}

#[test]
fn procedure_call_and_return() {
    let source = "CALL @P\nHLT\nP {\nLDA #7,%ACC\nOUT %ACC\nRET\n}\n";
    let (memory, bits, gprs, _) = assemble(source);
    assert_eq!(run_vm(memory, &bits, gprs, &[]), vec!["7"]);
}

#[test]
fn shift_carry_lands_in_flags() {
    // With the accumulator holding ...0001, one logical left shift
    // ejects a zero (the flags register reads 0); once the single set
    // bit is pushed past the top, the flags register reads 1.
    let source = "LDA #1,%ACC\nLSL #1,%ACC\nLDA %FR,%R1\nLSL #22,%ACC\nLDA %FR,%R2\nOUT %R1\nOUT %R2\nHLT\n";
    let (memory, bits, gprs, _) = assemble(source);
    assert_eq!(bits.architecture, 23);
    assert_eq!(run_vm(memory, &bits, gprs, &[]), vec!["0", "1"]);
}

#[test]
fn outb_prints_raw_word() {
    let source = "LDA #5,%ACC\nOUTB %ACC\nHLT\n";
    let (memory, bits, gprs, _) = assemble(source);
    let outputs = run_vm(memory, &bits, gprs, &[]);
    assert_eq!(outputs.len(), 1);
    assert_eq!(outputs[0].len(), 23);
    assert!(outputs[0].ends_with("101"));
    assert!(outputs[0].chars().all(|c| c == '0' || c == '1'));
}

#[test]
fn outc_prints_character() {
    let source = "LDA #65,%ACC\nOUTC %ACC\nHLT\n";
    let (memory, bits, gprs, _) = assemble(source);
    assert_eq!(run_vm(memory, &bits, gprs, &[]), vec!["A"]);
}

#[test]
fn bitwise_instructions_run() {
    // 12 AND 10 = 8, 12 OR 10 = 14, 12 XOR 10 = 6.
    let source = "LDA #12,%R1\nLDA #10,%ACC\nAND %R1,%ACC\nOUT %ACC\nLDA #10,%ACC\nOR %R1,%ACC\nOUT %ACC\nLDA #10,%ACC\nXOR %R1,%ACC\nOUT %ACC\nHLT\n";
    let (memory, bits, gprs, _) = assemble(source);
    assert_eq!(run_vm(memory, &bits, gprs, &[]), vec!["8", "14", "6"]);
}

// After code generation every word in the pool is exactly
// `architecture` characters of binary.
#[test]
fn memory_words_have_architecture_width() {
    let source = "X DAT 5\nLDA @X,%ACC\nADD #3,%ACC\nOUT %ACC\nHLT\n";
    let (memory, bits, _, _) = assemble(source);
    let registers = memory.registers() as i64;
    let pool = memory.pool_len() as i64;
    let mut address = -registers;
    while address < pool - registers {
        let word = memory.get(address);
        assert_eq!(word.len() as u64, bits.architecture);
        assert!(word.iter().all(|&c| c == '0' || c == '1'));
        address += 1;
    }
}

#[test]
fn gpr_zero_is_rejected() {
    let errors = semantic_diagnostics("LDA %R0,%ACC\nHLT\n");
    assert!(error_texts(&errors).contains(&ErrorTexts::GprZero));
    assert_eq!(ErrorTexts::GprZero.text(), "Cannot access GPR 0");
}

#[test]
fn immediate_store_is_rejected() {
    let errors = semantic_diagnostics("STA #5,%ACC\nHLT\n");
    assert!(error_texts(&errors).contains(&ErrorTexts::ImmediateMode));
    assert_eq!(
        ErrorTexts::ImmediateMode.text(),
        "Source operand of target instruction cannot be addressed in immediate mode"
    );
}

#[test]
fn undeclared_label_is_rejected() {
    let errors = semantic_diagnostics("LDA @MISSING,%ACC\nHLT\n");
    assert!(error_texts(&errors).contains(&ErrorTexts::UndeclaredLabel));
    assert_eq!(
        ErrorTexts::UndeclaredLabel.text(),
        "Attempting to use an undeclared label"
    );
}

#[test]
fn non_register_destination_is_rejected() {
    let errors = semantic_diagnostics("X DAT\nADD %ACC,@X\nHLT\n");
    assert!(error_texts(&errors).contains(&ErrorTexts::NonRegisterDestinationOperand));
    assert_eq!(
        ErrorTexts::NonRegisterDestinationOperand.text(),
        "Destination operand must be a register"
    );
}

#[test]
fn branch_label_redeclared_as_variable() {
    let text = chars("LOOP ADD #1,%ACC\nBRA @LOOP\nLOOP DAT 5\nHLT\n");
    let (tokens, lex_errors) = lexer::run(&text, '!', ';');
    assert!(lex_errors.is_empty());
    let (_global, _procedures, pool_errors) = instructionpools::run(&tokens);
    assert!(error_texts(&pool_errors).contains(&ErrorTexts::BranchToVarRedecl));
    assert_eq!(
        ErrorTexts::BranchToVarRedecl.text(),
        "Attempting to redeclare a branch label to a variable label"
    );
}

#[test]
fn non_register_input_operand_is_rejected() {
    let errors = semantic_diagnostics("X DAT\nINP @X\nHLT\n");
    assert!(error_texts(&errors).contains(&ErrorTexts::NonRegisterInpOperand));
}

#[test]
fn excess_operands_are_rejected() {
    let errors = semantic_diagnostics("OUT %ACC,%R1\nHLT\n");
    assert!(error_texts(&errors).contains(&ErrorTexts::ExcessOperands));
}

#[test]
fn missing_source_operand_is_rejected() {
    let errors = semantic_diagnostics("ADD\nHLT\n");
    assert!(error_texts(&errors).contains(&ErrorTexts::NoSourceOperand));
}

#[test]
fn register_mode_mismatch_is_rejected() {
    let errors = semantic_diagnostics("X DAT\nLDA %X,%ACC\nHLT\n");
    assert!(error_texts(&errors).contains(&ErrorTexts::RegisterModeMismatch));
}

#[test]
fn lexer_rejects_bad_value_and_label() {
    let (_tokens, errors) = lexer::run(&chars("ADD #1x2,%ACC\n"), '!', ';');
    assert!(error_texts(&errors).contains(&ErrorTexts::InvalidValue));
    let (_tokens, errors) = lexer::run(&chars("L\u{00c4}BEL ADD #1,%ACC\n"), '!', ';');
    assert!(error_texts(&errors).contains(&ErrorTexts::InvalidLabel));
}

#[test]
fn lexer_classifies_tokens() {
    let (tokens, errors) = lexer::run(&chars("loop add #42,%acc ; comment\n"), '!', ';');
    assert!(errors.is_empty());
    let types: Vec<TokenTypes> = tokens.iter().map(|t| t.token_type).collect();
    assert_eq!(
        types,
        vec![
            TokenTypes::Label,
            TokenTypes::Instruction,
            TokenTypes::AddressingMode,
            TokenTypes::Value,
            TokenTypes::Separator,
            TokenTypes::AddressingMode,
            TokenTypes::Register,
            TokenTypes::End,
            TokenTypes::End,
        ]
    );
    let values: Vec<String> = tokens.iter().map(|t| t.token_value.iter().collect()).collect();
    assert_eq!(values[0], "LOOP");
    assert_eq!(values[1], "ADD");
    assert_eq!(values[2], "#");
    assert_eq!(values[3], "42");
    assert_eq!(values[5], "%");
    assert_eq!(values[6], "ACC");
}

#[test]
fn lexer_reads_gpr_spellings() {
    let (tokens, errors) = lexer::run(&chars("INP REG7\nINP REGISTER12\nINP R3\n"), '!', ';');
    assert!(errors.is_empty());
    let registers: Vec<String> = tokens
        .iter()
        .filter(|t| t.token_type == TokenTypes::Register)
        .map(|t| t.token_value.iter().collect())
        .collect();
    assert_eq!(registers, vec!["7", "12", "3"]);
}

#[test]
fn parser_rejects_bad_adjacency() {
    let (tokens, _) = lexer::run(&chars("ADD ,\n"), '!', ';');
    let errors = parser::run(&tokens);
    assert!(errors.len() > 0);
    let (tokens, _) = lexer::run(&chars("# #\n"), '!', ';');
    assert!(parser::run(&tokens).len() > 0);
}

#[test]
fn parser_rejects_unbalanced_braces() {
    let (tokens, _) = lexer::run(&chars("P {\nHLT\n"), '!', ';');
    assert!(parser::run(&tokens).len() > 0);
    let (tokens, _) = lexer::run(&chars("}\n"), '!', ';');
    assert!(parser::run(&tokens).len() > 0);
    let (tokens, _) = lexer::run(&chars("P {\nHLT\n}\n"), '!', ';');
    assert_eq!(parser::run(&tokens).len(), 0);
}

#[test]
fn preprocessor_reads_directives() {
    let mut config = ConfigTable::new();
    let errors = preprocessor::run(
        &chars("!MEMORY=200\n!CLOCK=5\nHLT\n"),
        '!',
        ';',
        '=',
        &mut config,
    );
    assert!(errors.is_empty());
    assert_eq!(config.memory, 200);
    assert_eq!(config.clock, 5);
    assert_eq!(config.registers, 3);
}

#[test]
fn preprocessor_validates_directives() {
    let mut config = ConfigTable::new();
    let errors = preprocessor::run(&chars("!MEMORY=50\n"), '!', ';', '=', &mut config);
    assert_eq!(error_texts(&errors), vec![ErrorTexts::MinimumValue]);
    assert_eq!(config.memory, 100);

    let mut config = ConfigTable::new();
    let errors = preprocessor::run(&chars("!MEMORY=-5\n"), '!', ';', '=', &mut config);
    assert_eq!(error_texts(&errors), vec![ErrorTexts::SignSpecified]);

    let mut config = ConfigTable::new();
    let errors = preprocessor::run(&chars("!SPEED=9\n"), '!', ';', '=', &mut config);
    assert_eq!(error_texts(&errors), vec![ErrorTexts::UnknownConfigOption]);

    let mut config = ConfigTable::new();
    let errors = preprocessor::run(&chars("!MEMORY=12x\n"), '!', ';', '=', &mut config);
    assert_eq!(error_texts(&errors), vec![ErrorTexts::InvalidConfigValue]);

    let mut config = ConfigTable::new();
    let errors = preprocessor::run(&chars("!MEMORY\n"), '!', ';', '=', &mut config);
    assert_eq!(error_texts(&errors), vec![ErrorTexts::SingleKeyValuePair]);
}

#[test]
fn argument_processor_reads_arguments() {
    let mut config = ConfigTable::new();
    let arguments = vec![chars("REGISTERS=6"), chars("CLOCK=0")];
    let errors = argumentprocessor::run(&arguments, '!', '=', &mut config);
    assert!(errors.is_empty());
    assert_eq!(config.registers, 6);
    assert_eq!(config.clock, 0);
}

#[test]
fn directive_in_source_changes_generated_machine() {
    let (_memory, bits_default, _, _) = assemble("HLT\n");
    let (_memory, bits_wide, _, _) = assemble("!MEMORY=5000\nHLT\n");
    assert!(bits_wide.operand_bits > bits_default.operand_bits);
}

#[test]
fn clock_option_reaches_configuration() {
    let mut config = ConfigTable::new();
    config.set(ConfigKeys::Clock, 9);
    assert_eq!(config.get(ConfigKeys::Clock), 9);
    assert_eq!(config.clock, 9);
}

#[test]
fn indirect_addressing_follows_pointer() {
    // P holds the address of X (filled at run time), so >P loads X's
    // value.
    let source = "X DAT 9\nP DAT\nLDA #4,%ACC\nSTA @P,%ACC\nLDA >P,%R1\nOUT %R1\nHLT\n";
    // Address 4 is X's cell: three instructions come first, then the
    // variables X (cell 3)... lay out: code cells 0..=4 hold the five
    // instructions; X is cell 5, P cell 6.  Store 5 into P instead.
    let source = source.replace("#4", "#5");
    let (memory, bits, gprs, _) = assemble(&source);
    assert_eq!(run_vm(memory, &bits, gprs, &[]), vec!["9"]);
}

#[test]
fn position_token_advances() {
    let mut position = PositionToken { row: 1, column: 4 };
    position.advance_position('x', 1);
    assert_eq!((position.row, position.column), (1, 5));
    position.advance_position('\n', 1);
    assert_eq!((position.row, position.column), (2, 1));
}

#[test]
fn error_type_headlines() {
    assert_eq!(ErrorTypes::Syntax.text(), "Syntax Error");
    assert_eq!(ErrorTypes::InvalidRegister.text(), "Invalid Register Error");
    assert_eq!(ErrorTypes::UnknownOption.text(), "Unknown Option Error");
}

#[test]
fn negative_immediate_value() {
    let (memory, bits, gprs, _) = assemble("LDA #-3,%ACC\nOUT %ACC\nHLT\n");
    assert_eq!(run_vm(memory, &bits, gprs, &[]), vec!["-3"]);
}

#[test]
fn circular_shift_wraps_word() {
    // Rotating ...0001 right by one carries the set bit to the top of
    // the word.
    let (memory, bits, gprs, _) = assemble("LDA #1,%ACC\nCSR #1,%ACC\nOUTB %ACC\nHLT\n");
    let outputs = run_vm(memory, &bits, gprs, &[]);
    assert_eq!(outputs.len(), 1);
    assert!(outputs[0].starts_with('1'));
    assert!(outputs[0][1..].chars().all(|c| c == '0'));
}

#[test]
fn circular_shift_with_carry_takes_flag_bit() {
    // The flags register starts at zero, so the carry rotated into the
    // word is a zero and the ejected carry is written back to the
    // flags.
    let source = "LDA #1,%ACC\nCSLC #1,%ACC\nOUTB %ACC\nLDA %FR,%R1\nOUT %R1\nHLT\n";
    let (memory, bits, gprs, _) = assemble(source);
    let outputs = run_vm(memory, &bits, gprs, &[]);
    assert_eq!(outputs.len(), 2);
    assert!(outputs[0].ends_with("10"));
    assert_eq!(outputs[1], "0");
}

#[test]
fn procedure_reads_global_variable() {
    let source = "X DAT 3\nCALL @P\nHLT\nP {\nLDA @X,%ACC\nOUT %ACC\nRET\n}\n";
    let (memory, bits, gprs, _) = assemble(source);
    assert_eq!(run_vm(memory, &bits, gprs, &[]), vec!["3"]);
}

#[test]
fn register_indices_wrap_into_range() {
    // With three general-purpose registers, register five wraps onto
    // register two.
    let source = "INP R5\nOUT %R2\nHLT\n";
    let (memory, bits, gprs, _) = assemble(source);
    assert_eq!(gprs, 3);
    assert_eq!(run_vm(memory, &bits, gprs, &[9]), vec!["9"]);
}

#[test]
fn nop_does_nothing() {
    let (memory, bits, gprs, _) = assemble("LDA #4,%ACC\nNOP\nOUT %ACC\nHLT\n");
    assert_eq!(run_vm(memory, &bits, gprs, &[]), vec!["4"]);
}

#[test]
fn variable_without_initial_value_is_zero() {
    let (memory, bits, gprs, _) = assemble("X DAT\nLDA @X,%ACC\nOUT %ACC\nHLT\n");
    assert_eq!(run_vm(memory, &bits, gprs, &[]), vec!["0"]);
}

#[test]
fn missing_destination_defaults_to_accumulator() {
    // A two-operand instruction written with one operand works on the
    // accumulator.
    let (memory, bits, gprs, _) = assemble("LDA #6,%ACC\nADD #2\nOUT %ACC\nHLT\n");
    assert_eq!(run_vm(memory, &bits, gprs, &[]), vec!["8"]);
}
