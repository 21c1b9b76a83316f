//! Tokens and the directive parser.
//!
//! `tokenise` splits a directive or command-line argument into upper-cased
//! words; the `valid_*` checks validate a `KEY=VALUE` pair and
//! `update_config_table` writes it into the configuration.

use vstd::prelude::*;
use crate::defaults::{
    ConfigKeys, ConfigTable, spec_default_casing, default_casing, spec_config_minimum,
    config_minimum, is_word, spec_config_valid,
};
use crate::errors::{Errors, ErrorTypes, ErrorTexts, RecordedError, ErrorMessage};

verus! {

/// A position in the source: a row and a column, both 1-based.
#[derive(Clone, Copy, PartialEq, Eq, Structural, Debug)]
pub struct PositionToken {
    pub row: u64,
    pub column: u64,
}

impl PositionToken {
    /// Step the position over one character: a line break moves to the
    /// next row and resets the column, anything else advances the column.
    pub fn advance_position(&mut self, current_char: char, reset_value: u64)
        requires
            old(self).row < u64::MAX,
            old(self).column < u64::MAX,
        ensures
            current_char == '\n' ==> final(self).row == old(self).row + 1 && final(self).column
                == reset_value,
            current_char != '\n' ==> final(self).row == old(self).row && final(self).column == old(
                self,
            ).column + 1,
    {
        if current_char == '\n' {
            self.row = self.row + 1;
            self.column = reset_value;
        } else {
            self.column = self.column + 1;
        }
    }
}

/// A word together with the position where it starts, before any type has
/// been assigned to it.
#[derive(Debug)]
pub struct UntypedToken {
    pub token_value: Vec<char>,
    pub row: u64,
    pub column: u64,
}

/// The classes a token can belong to.
#[derive(Clone, Copy, PartialEq, Eq, Structural, Debug)]
pub enum TokenTypes {
    End,
    Instruction,
    AddressingMode,
    Value,
    Register,
    Label,
    Separator,
    LeftBrace,
    RightBrace,
    AssemblyDirective,
}

/// A classified token: its class, its normalized value, and where it
/// starts.
#[derive(Debug)]
pub struct TypedToken {
    pub token_type: TokenTypes,
    pub token_value: Vec<char>,
    pub row: u64,
    pub column: u64,
}

impl TypedToken {
    /// A deep copy whose fields are known to equal the original's.
    pub fn duplicate(&self) -> (r: TypedToken)
        ensures
            r.token_type == self.token_type,
            r.token_value@ == self.token_value@,
            r.row == self.row,
            r.column == self.column,
    {
        let mut value: Vec<char> = Vec::new();
        let mut i: usize = 0;
        while i < self.token_value.len()
            invariant
                i <= self.token_value@.len(),
                value@ =~= self.token_value@.subrange(0, i as int),
            decreases self.token_value@.len() - i,
        {
            value.push(self.token_value[i]);
            assert(value@ =~= self.token_value@.subrange(0, i + 1));
            i = i + 1;
        }
        proof {
            assert(value@ =~= self.token_value@);
        }
        TypedToken { token_type: self.token_type, token_value: value, row: self.row, column: self.column }
    }
}

/// Two tokens with the same class, value and position.
pub open spec fn spec_token_eq(a: TypedToken, b: TypedToken) -> bool {
    &&& a.token_type == b.token_type
    &&& a.token_value@ == b.token_value@
    &&& a.row == b.row
    &&& a.column == b.column
}

/// The display name of a token class.
pub open spec fn spec_type_to_str(token_type: TokenTypes) -> Seq<char> {
    match token_type {
        TokenTypes::End => "End Of Statement"@,
        TokenTypes::Instruction => "Instruction"@,
        TokenTypes::AddressingMode => "Addressing Mode"@,
        TokenTypes::Value => "Value"@,
        TokenTypes::Register => "Register"@,
        TokenTypes::Label => "Label"@,
        TokenTypes::Separator => "Operand Separator"@,
        TokenTypes::LeftBrace => "Left Curly Brace"@,
        TokenTypes::RightBrace => "Right Curly Brace"@,
        TokenTypes::AssemblyDirective => "Assembly Directive"@,
    }
}

impl TokenTypes {
    /// The display name of a token class.
    pub fn type_to_str(token_type: &TokenTypes) -> (r: String)
        ensures
            r@ == spec_type_to_str(*token_type),
    {
        match token_type {
            TokenTypes::End => String::from_str("End Of Statement"),
            TokenTypes::Instruction => String::from_str("Instruction"),
            TokenTypes::AddressingMode => String::from_str("Addressing Mode"),
            TokenTypes::Value => String::from_str("Value"),
            TokenTypes::Register => String::from_str("Register"),
            TokenTypes::Label => String::from_str("Label"),
            TokenTypes::Separator => String::from_str("Operand Separator"),
            TokenTypes::LeftBrace => String::from_str("Left Curly Brace"),
            TokenTypes::RightBrace => String::from_str("Right Curly Brace"),
            TokenTypes::AssemblyDirective => String::from_str("Assembly Directive"),
        }
    }
}

/// Whitespace for the purposes of splitting: space, tab or line break.
pub open spec fn is_whitespace(c: char) -> bool {
    c == ' ' || c == '\t' || c == '\n'
}

/// A decimal digit.
pub open spec fn is_digit(c: char) -> bool {
    '0' <= c && c <= '9'
}

/// Every character of the string is a decimal digit.
pub open spec fn all_digits(s: Seq<char>) -> bool {
    forall|i: int| 0 <= i < s.len() ==> is_digit(s[i])
}

/// The numeric value of a decimal digit string.
pub open spec fn decimal_value(s: Seq<char>) -> nat
    decreases s.len(),
{
    if s.len() == 0 {
        0
    } else {
        decimal_value(s.drop_last()) * 10 + (if s.last() as nat >= '0' as nat {
            (s.last() as nat - '0' as nat) as nat
        } else {
            0nat
        })
    }
}

/// Exec test for a whitespace character.
pub fn whitespace_char(c: char) -> (r: bool)
    ensures
        r == is_whitespace(c),
{
    c == ' ' || c == '\t' || c == '\n'
}

/// Exec test for a decimal digit.
pub fn digit_char(c: char) -> (r: bool)
    ensures
        r == is_digit(c),
{
    '0' <= c && c <= '9'
}

/// The end of the splitter word starting at `i`: the first whitespace
/// or delimiter character at or after `i`, or the text's length.
pub open spec fn spec_split_word_end(text: Seq<char>, i: int, delimiter: char) -> int
    recommends
        0 <= i <= text.len(),
    decreases text.len() - i when 0 <= i <= text.len()
{
    if i >= text.len() {
        i
    } else if is_whitespace(text[i]) || text[i] == delimiter {
        i
    } else {
        spec_split_word_end(text, i + 1, delimiter)
    }
}

proof fn lemma_split_word_end_unique(text: Seq<char>, i: int, j: int, delimiter: char)
    requires
        0 <= i <= j <= text.len(),
        forall|k: int|
            i <= k < j ==> !is_whitespace(#[trigger] text[k]) && text[k] != delimiter,
        j == text.len() || is_whitespace(text[j]) || text[j] == delimiter,
    ensures
        spec_split_word_end(text, i, delimiter) == j,
    decreases j - i,
{
    if i < j {
        lemma_split_word_end_unique(text, i + 1, j, delimiter);
    }
}

/// The upper-cased words of the text from `i` on, split on whitespace
/// and the delimiter.
pub open spec fn spec_split_from(text: Seq<char>, i: int, delimiter: char) -> Seq<Seq<char>>
    decreases text.len() - i when 0 <= i
{
    if i >= text.len() {
        Seq::empty()
    } else if is_whitespace(text[i]) || text[i] == delimiter {
        spec_split_from(text, i + 1, delimiter)
    } else {
        let word_end = spec_split_word_end(text, i, delimiter);
        let next = if word_end > i && word_end <= text.len() {
            word_end
        } else {
            i + 1
        };
        seq![spec_default_casing(text.subrange(i, word_end))] + spec_split_from(
            text,
            next,
            delimiter,
        )
    }
}

/// All the words of a directive or argument: one leading prefix
/// character is skipped, the rest split on whitespace and the delimiter
/// and upper-cased.
pub open spec fn spec_split(text: Seq<char>, prefix: char, delimiter: char) -> Seq<Seq<char>> {
    if text.len() > 0 && text[0] == prefix {
        spec_split_from(text, 1, delimiter)
    } else {
        spec_split_from(text, 0, delimiter)
    }
}

/// The values of a word token stream.
pub open spec fn spec_word_views(tokens: Seq<UntypedToken>) -> Seq<Seq<char>> {
    Seq::new(tokens.len(), |k: int| tokens[k].token_value@)
}

/// Split a directive or argument into upper-cased words, separating on
/// whitespace and the delimiter, and skipping one leading prefix
/// character.  The words returned are exactly `spec_split` of the text,
/// so every one is non-empty.
pub fn tokenise(
    text: &Vec<char>,
    prefix: char,
    delimiter: char,
    position: &mut PositionToken,
) -> (r: Vec<UntypedToken>)
    requires
        text@.len() < 0x1000_0000_0000,
        old(position).row < 0x2000_0000_0000,
        old(position).column < 0x2000_0000_0000,
    ensures
        forall|k: int| 0 <= k < r@.len() ==> #[trigger] r@[k].token_value@.len() >= 1,
        spec_word_views(r@) == spec_split(text@, prefix, delimiter),
        final(position).row == old(position).row,
        final(position).column <= old(position).column + 1 + text@.len(),
{
    let mut tokens: Vec<UntypedToken> = Vec::new();
    let length = text.len();
    let mut current_index: usize = 0;
    if length > 0 && text[0] == prefix {
        current_index = 1;
        position.column = position.column + 1;
    }
    proof {
        assert(spec_word_views(tokens@) =~= Seq::<Seq<char>>::empty());
        assert(spec_word_views(tokens@) + spec_split(text@, prefix, delimiter) =~= spec_split(
            text@,
            prefix,
            delimiter,
        ));
        assert(spec_split_from(text@, current_index as int, delimiter) == spec_split(
            text@,
            prefix,
            delimiter,
        ));
    }
    while current_index < length
        invariant
            current_index <= length,
            length == text@.len() < 0x1000_0000_0000,
            position.row == old(position).row,
            position.column <= old(position).column + 1 + current_index,
            forall|k: int| 0 <= k < tokens@.len() ==> #[trigger] tokens@[k].token_value@.len() >= 1,
            spec_word_views(tokens@) + spec_split_from(text@, current_index as int, delimiter)
                == spec_split(text@, prefix, delimiter),
        decreases length - current_index,
    {
        let ghost entry_index = current_index as int;
        let c = text[current_index];
        if !whitespace_char(c) && c != delimiter {
            let start_column = position.column;
            let lower_index = current_index;
            let mut word: Vec<char> = Vec::new();
            word.push(c);
            current_index = current_index + 1;
            position.column = position.column + 1;
            while current_index < length && !whitespace_char(text[current_index])
                && text[current_index] != delimiter
                invariant
                    lower_index < current_index <= length,
                    length == text@.len() < 0x1000_0000_0000,
                    position.row == old(position).row,
                    position.column <= old(position).column + 1 + current_index,
                    word@ =~= text@.subrange(lower_index as int, current_index as int),
                    forall|k: int|
                        lower_index <= k < current_index ==> !is_whitespace(#[trigger] text@[k])
                            && text@[k] != delimiter,
                decreases length - current_index,
            {
                word.push(text[current_index]);
                proof {
                    assert(word@ =~= text@.subrange(lower_index as int, current_index + 1));
                }
                current_index = current_index + 1;
                position.column = position.column + 1;
            }
            let cased = default_casing(&word);
            let ghost grown_from = tokens@;
            tokens.push(UntypedToken { token_value: cased, row: position.row, column: start_column });
            proof {
                lemma_split_word_end_unique(
                    text@,
                    entry_index,
                    current_index as int,
                    delimiter,
                );
                assert(spec_word_views(tokens@) =~= spec_word_views(grown_from).push(
                    spec_default_casing(text@.subrange(entry_index, current_index as int)),
                ));
                assert(spec_split_from(text@, entry_index, delimiter) == seq![
                    spec_default_casing(text@.subrange(entry_index, current_index as int)),
                ] + spec_split_from(text@, current_index as int, delimiter));
                assert(spec_word_views(tokens@) + spec_split_from(
                    text@,
                    current_index as int,
                    delimiter,
                ) =~= spec_word_views(grown_from) + spec_split_from(
                    text@,
                    entry_index,
                    delimiter,
                ));
            }
        } else {
            current_index = current_index + 1;
            position.column = position.column + 1;
            proof {
                assert(spec_split_from(text@, entry_index, delimiter) == spec_split_from(
                    text@,
                    current_index as int,
                    delimiter,
                ));
            }
        }
    }
    proof {
        assert(spec_split_from(text@, current_index as int, delimiter) =~= Seq::<Seq<char>>::empty());
        assert(spec_word_views(tokens@) =~= spec_split(text@, prefix, delimiter));
        assert forall|k: int| 0 <= k < tokens@.len() implies #[trigger] tokens@[k].token_value@.len()
            >= 1 by {
            assert(tokens@[k].token_value@ == spec_word_views(tokens@)[k]);
        }
    }
    if position.column > 0 {
        position.column = position.column - 1;
    }
    tokens
}

/// The configuration key a word names, if any.
pub open spec fn spec_config_key(s: Seq<char>) -> Option<ConfigKeys> {
    if s == "MEMORY"@ {
        Some(ConfigKeys::Memory)
    } else if s == "REGISTERS"@ {
        Some(ConfigKeys::Registers)
    } else if s == "CLOCK"@ {
        Some(ConfigKeys::Clock)
    } else {
        None
    }
}

/// Look up the configuration key a word names.
pub fn config_key_of(s: &Vec<char>) -> (r: Option<ConfigKeys>)
    ensures
        r == spec_config_key(s@),
{
    if is_word(s, "MEMORY") {
        Some(ConfigKeys::Memory)
    } else if is_word(s, "REGISTERS") {
        Some(ConfigKeys::Registers)
    } else if is_word(s, "CLOCK") {
        Some(ConfigKeys::Clock)
    } else {
        None
    }
}

/// Verify that a directive split into exactly two words (key and value).
/// Anything else is rejected; a non-empty wrong count records one error.
pub fn valid_number_tokens(tokens: &Vec<UntypedToken>, errors: &mut Errors) -> (r: bool)
    ensures
        r == (tokens@.len() == 2),
        tokens@.len() == 2 || tokens@.len() == 0 ==> final(errors)@ == old(errors)@,
        tokens@.len() != 2 && tokens@.len() > 0 ==> final(errors)@ == old(errors)@.push(
            RecordedError {
                row: tokens@[0].row,
                column: tokens@[0].column,
                message: ErrorMessage {
                    error_type: ErrorTypes::Syntax,
                    error_message: ErrorTexts::SingleKeyValuePair,
                },
            },
        ),
{
    if tokens.len() == 2 {
        true
    } else {
        if tokens.len() > 0 {
            errors.record_error(
                tokens[0].row,
                tokens[0].column,
                ErrorTypes::Syntax,
                ErrorTexts::SingleKeyValuePair,
            );
        }
        false
    }
}

/// Verify that the option word names a known configuration key; an unknown
/// key records one error.
pub fn valid_config_option(option: &UntypedToken, errors: &mut Errors) -> (r: bool)
    ensures
        r == (spec_config_key(option.token_value@) is Some),
        r ==> final(errors)@ == old(errors)@,
        !r ==> final(errors)@ == old(errors)@.push(
            RecordedError {
                row: option.row,
                column: option.column,
                message: ErrorMessage {
                    error_type: ErrorTypes::UnknownOption,
                    error_message: ErrorTexts::UnknownConfigOption,
                },
            },
        ),
{
    let key = config_key_of(&option.token_value);
    match key {
        Some(_) => true,
        None => {
            errors.record_error(
                option.row,
                option.column,
                ErrorTypes::UnknownOption,
                ErrorTexts::UnknownConfigOption,
            );
            false
        },
    }
}

/// Verify that the value word starts with no sign; a leading `+` or `-`
/// records one error.
pub fn contains_no_sign(value: &UntypedToken, errors: &mut Errors) -> (r: bool)
    requires
        value.token_value@.len() >= 1,
    ensures
        r == !(value.token_value@[0] == '+' || value.token_value@[0] == '-'),
        r ==> final(errors)@ == old(errors)@,
        !r ==> final(errors)@ == old(errors)@.push(
            RecordedError {
                row: value.row,
                column: value.column,
                message: ErrorMessage {
                    error_type: ErrorTypes::InvalidValue,
                    error_message: ErrorTexts::SignSpecified,
                },
            },
        ),
{
    let c = value.token_value[0];
    if c == '+' || c == '-' {
        errors.record_error(
            value.row,
            value.column,
            ErrorTypes::InvalidValue,
            ErrorTexts::SignSpecified,
        );
        false
    } else {
        true
    }
}

/// Verify that the value word is all decimal digits; anything else records
/// one error.
pub fn valid_config_value(value: &UntypedToken, errors: &mut Errors) -> (r: bool)
    ensures
        r == all_digits(value.token_value@),
        r ==> final(errors)@ == old(errors)@,
        !r ==> final(errors)@ == old(errors)@.push(
            RecordedError {
                row: value.row,
                column: value.column,
                message: ErrorMessage {
                    error_type: ErrorTypes::InvalidValue,
                    error_message: ErrorTexts::InvalidConfigValue,
                },
            },
        ),
{
    let mut i: usize = 0;
    while i < value.token_value.len()
        invariant
            i <= value.token_value@.len(),
            errors@ == old(errors)@,
            forall|j: int| 0 <= j < i ==> is_digit(#[trigger] value.token_value@[j]),
        decreases value.token_value@.len() - i,
    {
        if !digit_char(value.token_value[i]) {
            errors.record_error(
                value.row,
                value.column,
                ErrorTypes::InvalidValue,
                ErrorTexts::InvalidConfigValue,
            );
            return false;
        }
        i = i + 1;
    }
    true
}

/// The decimal value capped at `u64::MAX`.
pub open spec fn spec_saturated_decimal(s: Seq<char>) -> nat {
    if decimal_value(s) <= u64::MAX {
        decimal_value(s)
    } else {
        u64::MAX as nat
    }
}

/// Parse a digit string into a `u64`, saturating at `u64::MAX`.  A
/// directive value beyond the counter range therefore stays enormous
/// rather than failing here; the code generator's own ceiling rejects it.
pub fn parse_digits_saturating(s: &Vec<char>) -> (r: u64)
    requires
        all_digits(s@),
    ensures
        r == spec_saturated_decimal(s@),
{
    let mut acc: u64 = 0;
    let mut i: usize = 0;
    while i < s.len()
        invariant
            i <= s@.len(),
            acc == spec_saturated_decimal(s@.subrange(0, i as int)),
        decreases s@.len() - i,
    {
        let c = s[i];
        proof {
            assert(is_digit(s@[i as int]));
        }
        let d: u64 = (c as u32 as u64) - 48;
        proof {
            assert(s@.subrange(0, i + 1).drop_last() =~= s@.subrange(0, i as int));
            lemma_decimal_growth(decimal_value(s@.subrange(0, i as int)), d as nat);
        }
        if acc > (u64::MAX - d) / 10 {
            acc = u64::MAX;
            proof {
                vstd::arithmetic::div_mod::lemma_fundamental_div_mod((u64::MAX - d) as int, 10);
                vstd::arithmetic::div_mod::lemma_mod_bound((u64::MAX - d) as int, 10);
            }
        } else {
            proof {
                vstd::arithmetic::div_mod::lemma_fundamental_div_mod((u64::MAX - d) as int, 10);
                vstd::arithmetic::div_mod::lemma_mod_bound((u64::MAX - d) as int, 10);
            }
            acc = acc * 10 + d;
        }
        i = i + 1;
    }
    proof {
        assert(s@.subrange(0, s@.len() as int) =~= s@);
    }
    acc
}

/// Appending a digit can only grow a decimal value.
proof fn lemma_decimal_growth(v: nat, d: nat)
    ensures
        v * 10 + d >= v,
        v >= u64::MAX ==> v * 10 + d > u64::MAX,
{
    assert(v * 10 >= v) by (nonlinear_arith);
    if v >= u64::MAX {
        assert(v * 10 >= v * 2 >= v + v) by (nonlinear_arith);
    }
}

/// Whether a directive, already split into words, passes every check: two
/// words, a known key, an unsigned all-digit value, and a value at or
/// above the key's minimum.
pub open spec fn spec_directive_ok(tokens: Seq<UntypedToken>) -> bool {
    &&& tokens.len() == 2
    &&& spec_config_key(tokens[0].token_value@) is Some
    &&& !(tokens[1].token_value@[0] == '+' || tokens[1].token_value@[0] == '-')
    &&& all_digits(tokens[1].token_value@)
    &&& spec_saturated_decimal(tokens[1].token_value@) >= spec_config_minimum(
        spec_config_key(tokens[0].token_value@).unwrap(),
    )
}

/// The new table holds `v` at `key` and is unchanged elsewhere.
pub open spec fn spec_table_updated(
    old_table: ConfigTable,
    new_table: ConfigTable,
    key: ConfigKeys,
    v: nat,
) -> bool {
    &&& new_table.spec_get(key) == v
    &&& forall|other: ConfigKeys|
        other != key ==> new_table.spec_get(other) == old_table.spec_get(other)
}

/// The directive checks over bare words: two words, a known key, a
/// non-empty unsigned all-digit value at or above the key's minimum.
pub open spec fn spec_directive_words_ok(words: Seq<Seq<char>>) -> bool {
    &&& words.len() == 2
    &&& spec_config_key(words[0]) is Some
    &&& words[1].len() >= 1
    &&& !(words[1][0] == '+' || words[1][0] == '-')
    &&& all_digits(words[1])
    &&& spec_saturated_decimal(words[1]) >= spec_config_minimum(
        spec_config_key(words[0]).unwrap(),
    )
}

/// Over non-empty words, the token form and the word form of the
/// directive checks agree.
pub proof fn lemma_directive_ok_words(tokens: Seq<UntypedToken>)
    requires
        forall|k: int| 0 <= k < tokens.len() ==> (#[trigger] tokens[k]).token_value@.len() >= 1,
    ensures
        spec_directive_ok(tokens) == spec_directive_words_ok(spec_word_views(tokens)),
{
    if tokens.len() == 2 {
        assert(spec_word_views(tokens)[0] == tokens[0].token_value@);
        assert(spec_word_views(tokens)[1] == tokens[1].token_value@);
    }
}

/// Write a validated key/value pair into the configuration; a value below
/// the key's minimum records one error and leaves the table unchanged.
pub fn update_config_table(
    option: &UntypedToken,
    value: &UntypedToken,
    config_table: &mut ConfigTable,
    errors: &mut Errors,
) -> (r: bool)
    requires
        spec_config_key(option.token_value@) is Some,
        all_digits(value.token_value@),
    ensures
        r == (spec_saturated_decimal(value.token_value@) >= spec_config_minimum(
            spec_config_key(option.token_value@).unwrap(),
        )),
        r ==> final(errors)@ == old(errors)@ && spec_table_updated(
            *old(config_table),
            *final(config_table),
            spec_config_key(option.token_value@).unwrap(),
            spec_saturated_decimal(value.token_value@),
        ),
        !r ==> *final(config_table) == *old(config_table) && final(errors)@ == old(errors)@.push(
            RecordedError {
                row: value.row,
                column: value.column,
                message: ErrorMessage {
                    error_type: ErrorTypes::MinimumValue,
                    error_message: ErrorTexts::MinimumValue,
                },
            },
        ),
        spec_config_valid(*old(config_table)) ==> spec_config_valid(*final(config_table)),
{
    let value_int = parse_digits_saturating(&value.token_value);
    let key = config_key_of(&option.token_value);
    match key {
        Some(k) => {
            let minimum = config_minimum(k);
            if value_int < minimum {
                errors.record_error(
                    value.row,
                    value.column,
                    ErrorTypes::MinimumValue,
                    ErrorTexts::MinimumValue,
                );
                false
            } else {
                config_table.set(k, value_int);
                proof {
                    assert(config_table.spec_get(ConfigKeys::Memory) == config_table.memory);
                    assert(config_table.spec_get(ConfigKeys::Registers)
                        == config_table.registers);
                    assert(config_table.spec_get(ConfigKeys::Clock) == config_table.clock);
                    assert(old(config_table).spec_get(ConfigKeys::Memory) == old(
                        config_table,
                    ).memory);
                    assert(old(config_table).spec_get(ConfigKeys::Registers) == old(
                        config_table,
                    ).registers);
                    assert(old(config_table).spec_get(ConfigKeys::Clock) == old(
                        config_table,
                    ).clock);
                }
                true
            }
        },
        None => {
            proof {
                assert(false);
            }
            false
        },
    }
}

/// Run every check over the words of one directive, in order, stopping at
/// the first failure: word count, key, sign, digits, minimum.  A passing
/// directive updates the configuration and records nothing; a failing
/// non-empty one records exactly one error and leaves the table unchanged.
pub fn parse(tokens: &Vec<UntypedToken>, config_table: &mut ConfigTable, errors: &mut Errors)
    requires
        forall|k: int| 0 <= k < tokens@.len() ==> #[trigger] tokens@[k].token_value@.len() >= 1,
    ensures
        spec_directive_ok(tokens@) ==> final(errors)@ == old(errors)@ && spec_table_updated(
            *old(config_table),
            *final(config_table),
            spec_config_key(tokens@[0].token_value@).unwrap(),
            spec_saturated_decimal(tokens@[1].token_value@),
        ),
        !spec_directive_ok(tokens@) && tokens@.len() == 0 ==> *final(config_table) == *old(
            config_table,
        ) && final(errors)@ == old(errors)@,
        !spec_directive_ok(tokens@) && tokens@.len() > 0 ==> *final(config_table) == *old(
            config_table,
        ) && final(errors)@.len() == old(errors)@.len() + 1,
        spec_config_valid(*old(config_table)) ==> spec_config_valid(*final(config_table)),
{
    if !valid_number_tokens(tokens, errors) {
        return ;
    }
    if !valid_config_option(&tokens[0], errors) {
        return ;
    }
    if !contains_no_sign(&tokens[1], errors) {
        return ;
    }
    if !valid_config_value(&tokens[1], errors) {
        return ;
    }
    update_config_table(&tokens[0], &tokens[1], config_table, errors);
}

/// The signed value a decimal token denotes: an optional sign, then
/// digits.
pub open spec fn spec_decimal_token_value(s: Seq<char>) -> int {
    if s.len() >= 1 && s[0] == '-' {
        -(decimal_value(s.skip(1)) as int)
    } else if s.len() >= 1 && s[0] == '+' {
        decimal_value(s.skip(1)) as int
    } else {
        decimal_value(s) as int
    }
}

/// The digits of a decimal token: everything after the optional sign.
pub open spec fn spec_decimal_token_body(s: Seq<char>) -> Seq<char> {
    if s.len() >= 1 && (s[0] == '-' || s[0] == '+') {
        s.skip(1)
    } else {
        s
    }
}

/// A prefix of a digit string is worth no more than the whole.
proof fn lemma_decimal_prefix(s: Seq<char>, i: int)
    requires
        0 <= i <= s.len(),
    ensures
        decimal_value(s) >= decimal_value(s.take(i)),
    decreases s.len() - i,
{
    if i < s.len() {
        lemma_decimal_prefix(s, i + 1);
        assert(s.take(i + 1).drop_last() =~= s.take(i));
        assert(decimal_value(s.take(i + 1)) == decimal_value(s.take(i)) * 10 + (
        if s.take(i + 1).last() as nat >= '0' as nat {
            (s.take(i + 1).last() as nat - '0' as nat) as nat
        } else {
            0nat
        }));
        lemma_decimal_growth(decimal_value(s.take(i)), 0);
    } else {
        assert(s.take(i) =~= s);
    }
}

/// Whether a decimal token parses into an `i64`: non-empty, digits after
/// the optional sign, and a magnitude an `i64` carries.
pub open spec fn spec_decimal_parsable(s: Seq<char>) -> bool {
    &&& s.len() >= 1
    &&& spec_decimal_token_body(s).len() >= 1
    &&& all_digits(spec_decimal_token_body(s))
    &&& decimal_value(spec_decimal_token_body(s)) <= i64::MAX
}

/// Parse a signed decimal token into an `i64`.  `None` when the token is
/// empty, has no digits after its sign, holds a non-digit, or its
/// magnitude exceeds what an `i64` carries.
pub fn parse_decimal_i64(s: &Vec<char>) -> (r: Option<i64>)
    ensures
        r is Some <==> spec_decimal_parsable(s@),
        r is Some ==> r.unwrap() == spec_decimal_token_value(s@),
{
    if s.len() == 0 {
        return None;
    }
    let first = s[0];
    let negative = first == '-';
    let start: usize = if first == '-' || first == '+' {
        1
    } else {
        0
    };
    if s.len() == start {
        return None;
    }
    let ghost body = spec_decimal_token_body(s@);
    proof {
        assert(body =~= s@.subrange(start as int, s@.len() as int));
    }
    let mut acc: i64 = 0;
    let mut i: usize = start;
    while i < s.len()
        invariant
            start <= i <= s@.len(),
            start == if s@[0] == '-' || s@[0] == '+' { 1int } else { 0int },
            body == spec_decimal_token_body(s@),
            body =~= s@.subrange(start as int, s@.len() as int),
            all_digits(body.take(i - start)),
            0 <= acc <= i64::MAX,
            acc == decimal_value(body.take(i - start)),
        decreases s@.len() - i,
    {
        let c = s[i];
        if !digit_char(c) {
            proof {
                assert(body[i - start] == s@[i as int]);
            }
            return None;
        }
        let d: i64 = ((c as u32) as i64) - 48;
        proof {
            assert(body.take(i + 1 - start).drop_last() =~= body.take(i - start));
            assert(body.take(i + 1 - start).last() == s@[i as int]);
            lemma_decimal_growth(decimal_value(body.take(i - start)), d as nat);
            vstd::arithmetic::div_mod::lemma_fundamental_div_mod((i64::MAX - d) as int, 10);
            vstd::arithmetic::div_mod::lemma_mod_bound((i64::MAX - d) as int, 10);
        }
        if acc > (i64::MAX - d) / 10 {
            proof {
                lemma_decimal_prefix(body, i + 1 - start);
            }
            return None;
        }
        acc = acc * 10 + d;
        i = i + 1;
    }
    proof {
        assert(body.take(s@.len() - start) =~= body);
    }
    if negative {
        Some(-acc)
    } else {
        Some(acc)
    }
}

} // verus!
