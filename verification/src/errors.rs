//! Diagnostics.  Every pipeline phase accumulates its errors in an
//! `Errors` sink; the caller prints them and stops the pipeline when the
//! phase left any behind.

use vstd::prelude::*;
use vstd::string::StringExecFns;

verus! {

/// The headline kind of a diagnostic.
#[derive(Clone, Copy, PartialEq, Eq, Structural, Debug)]
pub enum ErrorTypes {
    Syntax,
    UnknownOption,
    InvalidValue,
    MinimumValue,
    InvalidLabel,
    BranchLabel,
    VariableLabel,
    InvalidOperands,
    InvalidAddressingMode,
    InvalidRegister,
}

/// The message body of a diagnostic.
#[derive(Clone, Copy, PartialEq, Eq, Structural, Debug)]
pub enum ErrorTexts {
    SingleKeyValuePair,
    UnknownConfigOption,
    SignSpecified,
    InvalidConfigValue,
    MinimumValue,
    InvalidValue,
    InvalidLabel,
    ProcToBranchRedecl,
    DuplicateBranch,
    DuplicateVar,
    VarToBranchRedecl,
    ProcToVarRedecl,
    BranchToVarRedecl,
    ExcessOperands,
    RegisterModeMismatch,
    RegisterOperandMismatch,
    UndeclaredLabel,
    GprZero,
    NoSourceOperand,
    NonRegisterInpOperand,
    ImmediateMode,
    NonRegisterDestinationOperand,
}

/// The headline text of an error type.
pub open spec fn spec_type_text(t: ErrorTypes) -> Seq<char> {
    match t {
        ErrorTypes::Syntax => "Syntax Error"@,
        ErrorTypes::UnknownOption => "Unknown Option Error"@,
        ErrorTypes::InvalidValue => "Invalid Value Error"@,
        ErrorTypes::MinimumValue => "Minimum Value Error"@,
        ErrorTypes::InvalidLabel => "Invalid Label Error"@,
        ErrorTypes::BranchLabel => "Branch Label Error"@,
        ErrorTypes::VariableLabel => "Variable Label Error"@,
        ErrorTypes::InvalidOperands => "Invalid Operands Error"@,
        ErrorTypes::InvalidAddressingMode => "Invalid Addressing Mode Error"@,
        ErrorTypes::InvalidRegister => "Invalid Register Error"@,
    }
}

/// The message text of an error body.
pub open spec fn spec_message_text(t: ErrorTexts) -> Seq<char> {
    match t {
        ErrorTexts::SingleKeyValuePair => "Should contain a single key : value pair"@,
        ErrorTexts::UnknownConfigOption => "Unknown configuration option"@,
        ErrorTexts::SignSpecified => "Don't specify the sign of a configuration value"@,
        ErrorTexts::InvalidConfigValue => "Configuration value must contain digits only"@,
        ErrorTexts::MinimumValue => "Value is below its minimum"@,
        ErrorTexts::InvalidValue => "A value can only contain digits"@,
        ErrorTexts::InvalidLabel => "A Label can only contain letters, digits and underscores"@,
        ErrorTexts::ProcToBranchRedecl
            => "Attempting to redeclare a procedure label to a branch label"@,
        ErrorTexts::DuplicateBranch => "Duplicate branch label found"@,
        ErrorTexts::DuplicateVar => "Duplicate variable label found"@,
        ErrorTexts::VarToBranchRedecl
            => "Attempting to redeclare a variable label to a branch label"@,
        ErrorTexts::ProcToVarRedecl
            => "Attempting to redeclare a procedure label to a variable label"@,
        ErrorTexts::BranchToVarRedecl
            => "Attempting to redeclare a branch label to a variable label"@,
        ErrorTexts::ExcessOperands => "Too many operands supplied for the given instruction"@,
        ErrorTexts::RegisterModeMismatch
            => "Non-register paired with register addressing mode"@,
        ErrorTexts::RegisterOperandMismatch
            => "register paired with non-register addressing mode"@,
        ErrorTexts::UndeclaredLabel => "Attempting to use an undeclared label"@,
        ErrorTexts::GprZero => "Cannot access GPR 0"@,
        ErrorTexts::NoSourceOperand
            => "The source operand for a double operand instruction must be specified"@,
        ErrorTexts::NonRegisterInpOperand => "INP instruction operand must be a register"@,
        ErrorTexts::ImmediateMode
            => "Source operand of target instruction cannot be addressed in immediate mode"@,
        ErrorTexts::NonRegisterDestinationOperand => "Destination operand must be a register"@,
    }
}

impl ErrorTypes {
    /// The headline text of this error type.
    pub fn text(&self) -> (r: String)
        ensures
            r@ == spec_type_text(*self),
    {
        match self {
            ErrorTypes::Syntax => String::from_str("Syntax Error"),
            ErrorTypes::UnknownOption => String::from_str("Unknown Option Error"),
            ErrorTypes::InvalidValue => String::from_str("Invalid Value Error"),
            ErrorTypes::MinimumValue => String::from_str("Minimum Value Error"),
            ErrorTypes::InvalidLabel => String::from_str("Invalid Label Error"),
            ErrorTypes::BranchLabel => String::from_str("Branch Label Error"),
            ErrorTypes::VariableLabel => String::from_str("Variable Label Error"),
            ErrorTypes::InvalidOperands => String::from_str("Invalid Operands Error"),
            ErrorTypes::InvalidAddressingMode => String::from_str("Invalid Addressing Mode Error"),
            ErrorTypes::InvalidRegister => String::from_str("Invalid Register Error"),
        }
    }
}

impl ErrorTexts {
    /// The message text of this error body.
    pub fn text(&self) -> (r: String)
        ensures
            r@ == spec_message_text(*self),
    {
        match self {
            ErrorTexts::SingleKeyValuePair => String::from_str(
                "Should contain a single key : value pair",
            ),
            ErrorTexts::UnknownConfigOption => String::from_str("Unknown configuration option"),
            ErrorTexts::SignSpecified => String::from_str(
                "Don't specify the sign of a configuration value",
            ),
            ErrorTexts::InvalidConfigValue => String::from_str(
                "Configuration value must contain digits only",
            ),
            ErrorTexts::MinimumValue => String::from_str("Value is below its minimum"),
            ErrorTexts::InvalidValue => String::from_str("A value can only contain digits"),
            ErrorTexts::InvalidLabel => String::from_str(
                "A Label can only contain letters, digits and underscores",
            ),
            ErrorTexts::ProcToBranchRedecl => String::from_str(
                "Attempting to redeclare a procedure label to a branch label",
            ),
            ErrorTexts::DuplicateBranch => String::from_str("Duplicate branch label found"),
            ErrorTexts::DuplicateVar => String::from_str("Duplicate variable label found"),
            ErrorTexts::VarToBranchRedecl => String::from_str(
                "Attempting to redeclare a variable label to a branch label",
            ),
            ErrorTexts::ProcToVarRedecl => String::from_str(
                "Attempting to redeclare a procedure label to a variable label",
            ),
            ErrorTexts::BranchToVarRedecl => String::from_str(
                "Attempting to redeclare a branch label to a variable label",
            ),
            ErrorTexts::ExcessOperands => String::from_str(
                "Too many operands supplied for the given instruction",
            ),
            ErrorTexts::RegisterModeMismatch => String::from_str(
                "Non-register paired with register addressing mode",
            ),
            ErrorTexts::RegisterOperandMismatch => String::from_str(
                "register paired with non-register addressing mode",
            ),
            ErrorTexts::UndeclaredLabel => String::from_str(
                "Attempting to use an undeclared label",
            ),
            ErrorTexts::GprZero => String::from_str("Cannot access GPR 0"),
            ErrorTexts::NoSourceOperand => String::from_str(
                "The source operand for a double operand instruction must be specified",
            ),
            ErrorTexts::NonRegisterInpOperand => String::from_str(
                "INP instruction operand must be a register",
            ),
            ErrorTexts::ImmediateMode => String::from_str(
                "Source operand of target instruction cannot be addressed in immediate mode",
            ),
            ErrorTexts::NonRegisterDestinationOperand => String::from_str(
                "Destination operand must be a register",
            ),
        }
    }
}

/// An error type together with its message body, as recorded by a phase.
#[derive(Clone, Copy, PartialEq, Eq, Structural, Debug)]
pub struct ErrorMessage {
    pub error_type: ErrorTypes,
    pub error_message: ErrorTexts,
}

/// One recorded diagnostic: where it was found and what it says.
#[derive(Clone, Copy, PartialEq, Eq, Structural, Debug)]
pub struct RecordedError {
    pub row: u64,
    pub column: u64,
    pub message: ErrorMessage,
}

/// An option's worth of diagnostics: one record or none.
pub open spec fn spec_opt_record(o: Option<RecordedError>) -> Seq<RecordedError> {
    match o {
        Some(e) => seq![e],
        None => Seq::empty(),
    }
}

/// An accumulating error sink.  A phase records diagnostics as it walks its
/// input and the caller inspects them when the phase is done.
pub struct Errors {
    errors: Vec<RecordedError>,
}

impl Errors {
    /// The recorded diagnostics, oldest first.
    pub closed spec fn view(&self) -> Seq<RecordedError> {
        self.errors@
    }

    /// A fresh, empty sink.
    pub fn new() -> (r: Errors)
        ensures
            r@ == Seq::<RecordedError>::empty(),
    {
        Errors { errors: Vec::new() }
    }

    /// Append one diagnostic.
    pub fn record_error(
        &mut self,
        row: u64,
        column: u64,
        error_type: ErrorTypes,
        error_message: ErrorTexts,
    )
        ensures
            final(self)@ == old(self)@.push(
                RecordedError { row, column, message: ErrorMessage { error_type, error_message } },
            ),
    {
        self.errors.push(
            RecordedError { row, column, message: ErrorMessage { error_type, error_message } },
        );
    }

    /// Whether nothing has been recorded.
    pub fn is_empty(&self) -> (r: bool)
        ensures
            r == (self@.len() == 0),
    {
        self.errors.len() == 0
    }

    /// How many diagnostics have been recorded.
    pub fn len(&self) -> (r: usize)
        ensures
            r == self@.len(),
    {
        self.errors.len()
    }

    /// Read one recorded diagnostic.
    pub fn get(&self, i: usize) -> (r: RecordedError)
        requires
            i < self@.len(),
        ensures
            r == self@[i as int],
    {
        self.errors[i]
    }
}

} // verus!
