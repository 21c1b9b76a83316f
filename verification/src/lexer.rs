//! The lexer: source text in, a classified token stream out.
//!
//! Comments and directives are skipped (each yields a statement
//! terminator), braces, separators and addressing-mode symbols are single
//! characters, and every other maximal run of characters is upper-cased
//! and classified as a value, a register, an instruction, a directive
//! keyword, an addressing-mode word or a label.

use vstd::prelude::*;
use crate::defaults::{spec_default_casing, default_casing, COMMENT_PREFIX, DIRECTIVE_PREFIX};
use crate::errors::{Errors, ErrorTypes, ErrorTexts};
use crate::tokens::{PositionToken, TypedToken, TokenTypes, is_whitespace, is_digit, all_digits,
    whitespace_char, digit_char};
use crate::architecture::{
    spec_instruction_lookup, instruction_lookup, spec_sp_register_lookup, sp_register_lookup,
    spec_mode_of_symbol, mode_of_symbol, spec_addressing_mode_lookup, addressing_mode_lookup,
    spec_gpr_variant, gpr_variant, is_dat,
};

verus! {

/// A character that ends the scan of a word: a comment or directive
/// prefix, a separator, whitespace, a brace or an addressing-mode symbol.
pub open spec fn spec_token_break(c: char) -> bool {
    ||| c == COMMENT_PREFIX
    ||| c == DIRECTIVE_PREFIX
    ||| c == ','
    ||| is_whitespace(c)
    ||| c == '{'
    ||| c == '}'
    ||| spec_mode_of_symbol(c) is Some
}

/// Test whether a character ends the scan of a word.
pub fn token_break(c: char) -> (r: bool)
    ensures
        r == spec_token_break(c),
{
    if c == COMMENT_PREFIX || c == DIRECTIVE_PREFIX || c == ',' {
        return true;
    }
    if whitespace_char(c) {
        return true;
    }
    if c == '{' || c == '}' {
        return true;
    }
    let mode = mode_of_symbol(c);
    match mode {
        Some(_) => true,
        None => false,
    }
}

/// A character a value token may start with: a sign or a digit.
pub open spec fn spec_value_begin(c: char) -> bool {
    c == '+' || c == '-' || is_digit(c)
}

/// A character a label may hold: an ASCII letter, a digit or an
/// underscore.
pub open spec fn spec_label_char(c: char) -> bool {
    ('A' <= c && c <= 'Z') || ('a' <= c && c <= 'z') || is_digit(c) || c == '_'
}

/// A well-formed value token body: every character after an optional
/// leading sign is a digit.
pub open spec fn spec_valid_value_token(s: Seq<char>) -> bool {
    if s.len() >= 1 && (s[0] == '+' || s[0] == '-') {
        all_digits(s.skip(1))
    } else {
        all_digits(s)
    }
}

/// A well-formed label: every character a letter, digit or underscore.
pub open spec fn spec_valid_label_token(s: Seq<char>) -> bool {
    forall|i: int| 0 <= i < s.len() ==> spec_label_char(s[i])
}

/// What classification a scanned word receives when it is neither a
/// value nor a general-purpose register.
pub open spec fn spec_get_type(s: Seq<char>) -> TokenTypes {
    if spec_instruction_lookup(s) is Some {
        TokenTypes::Instruction
    } else if spec_sp_register_lookup(s) is Some {
        TokenTypes::Register
    } else if spec_addressing_mode_lookup(s) is Some {
        TokenTypes::AddressingMode
    } else if s == "DAT"@ {
        TokenTypes::AssemblyDirective
    } else {
        TokenTypes::Label
    }
}

/// Every token the lexer emits satisfies this shape: its value matches
/// its class.
pub open spec fn spec_token_wf(t: TypedToken) -> bool {
    match t.token_type {
        TokenTypes::End => t.token_value@ == seq!['\n'],
        TokenTypes::Instruction => spec_instruction_lookup(t.token_value@) is Some,
        TokenTypes::AddressingMode => t.token_value@.len() == 1 && spec_mode_of_symbol(
            t.token_value@[0],
        ) is Some,
        TokenTypes::Value => t.token_value@.len() >= 1 && spec_value_begin(t.token_value@[0]),
        TokenTypes::Register => spec_sp_register_lookup(t.token_value@) is Some || all_digits(
            t.token_value@,
        ),
        TokenTypes::Label => t.token_value@.len() >= 1,
        TokenTypes::Separator => t.token_value@ == seq![','],
        TokenTypes::LeftBrace => t.token_value@ == seq!['{'],
        TokenTypes::RightBrace => t.token_value@ == seq!['}'],
        TokenTypes::AssemblyDirective => t.token_value@ == "DAT"@,
    }
}

/// A token whose body survived validation: values are digits after an
/// optional sign, labels hold only letters, digits and underscores.
pub open spec fn spec_token_clean(t: TypedToken) -> bool {
    &&& t.token_type == TokenTypes::Value ==> spec_valid_value_token(t.token_value@)
    &&& t.token_type == TokenTypes::Label ==> spec_valid_label_token(t.token_value@)
}

/// The index where the line starting at `i` stops: the first line break
/// at or after `i`, or the text's last character.
pub open spec fn spec_line_end(s: Seq<char>, i: int) -> int
    recommends
        0 <= i < s.len(),
    decreases s.len() - i when 0 <= i < s.len()
{
    if i + 1 >= s.len() {
        i
    } else if s[i] == '\n' {
        i
    } else {
        spec_line_end(s, i + 1)
    }
}

pub proof fn lemma_line_end_unique(s: Seq<char>, i: int, j: int)
    requires
        0 <= i <= j < s.len(),
        forall|k: int| i <= k < j ==> s[k] != '\n',
        s[j] == '\n' || j + 1 == s.len(),
    ensures
        spec_line_end(s, i) == j,
    decreases j - i,
{
    if i < j {
        lemma_line_end_unique(s, i + 1, j);
    }
}

/// The end of the word starting at `i`: the first break character at or
/// after `i`, or the text's length.
pub open spec fn spec_word_end(s: Seq<char>, i: int) -> int
    recommends
        0 <= i <= s.len(),
    decreases s.len() - i when 0 <= i <= s.len()
{
    if i >= s.len() {
        i
    } else if spec_token_break(s[i]) {
        i
    } else {
        spec_word_end(s, i + 1)
    }
}

proof fn lemma_word_end_unique(s: Seq<char>, i: int, j: int)
    requires
        0 <= i <= j <= s.len(),
        forall|k: int| i <= k < j ==> !spec_token_break(#[trigger] s[k]),
        j == s.len() || spec_token_break(s[j]),
    ensures
        spec_word_end(s, i) == j,
    decreases j - i,
{
    if i < j {
        lemma_word_end_unique(s, i + 1, j);
    }
}

/// The class and normalized value an upper-cased word receives: a value
/// by its first character, a general-purpose register by its trailing
/// digits, otherwise by the keyword tables, with addressing-mode words
/// replaced by their canonical symbol.
pub open spec fn spec_classify(w: Seq<char>) -> (TokenTypes, Seq<char>) {
    if w.len() >= 1 && spec_value_begin(w[0]) {
        (TokenTypes::Value, w)
    } else if w.len() >= 1 && spec_gpr_variant(w.subrange(0, spec_digit_run_start(w))) {
        (TokenTypes::Register, w.subrange(spec_digit_run_start(w), w.len() as int))
    } else if spec_get_type(w) == TokenTypes::AddressingMode {
        (TokenTypes::AddressingMode, seq![spec_addressing_mode_lookup(w).unwrap().symbol])
    } else {
        (spec_get_type(w), w)
    }
}

/// The classes and values of a token stream, positions set aside.
pub open spec fn spec_token_views(tokens: Seq<TypedToken>) -> Seq<(TokenTypes, Seq<char>)> {
    Seq::new(tokens.len(), |k: int| (tokens[k].token_type, tokens[k].token_value@))
}

/// Whether the lexer would suppress a terminator here: nothing emitted
/// yet, or the last emitted token already ends a statement.
pub open spec fn spec_resume_flag(tokens: Seq<TypedToken>) -> bool {
    tokens.len() == 0 || tokens[tokens.len() - 1].token_type == TokenTypes::End
}

/// The classes and values of the tokens the lexer emits for the text
/// from position `i` on, `last_was_end` saying whether a terminator was
/// just emitted (or nothing yet).  Comments and directives collapse to a
/// terminator, a line break emits one unless suppressed, single
/// characters map to their classes, other whitespace separates, every
/// other maximal word is upper-cased and classified, and a final
/// terminator closes the stream.
pub open spec fn spec_lex(s: Seq<char>, i: int, last_was_end: bool) -> Seq<(TokenTypes, Seq<char>)>
    decreases s.len() - i when 0 <= i
{
    if i >= s.len() {
        seq![(TokenTypes::End, seq!['\n'])]
    } else {
        let c = s[i];
        if c == DIRECTIVE_PREFIX || c == COMMENT_PREFIX {
            let line_end = spec_line_end(s, i);
            let next = if line_end >= i && line_end < s.len() {
                line_end + 1
            } else {
                i + 1
            };
            seq![(TokenTypes::End, seq!['\n'])] + spec_lex(s, next, true)
        } else if c == '\n' {
            if !last_was_end {
                seq![(TokenTypes::End, seq!['\n'])] + spec_lex(s, i + 1, true)
            } else {
                spec_lex(s, i + 1, last_was_end)
            }
        } else if c == '{' {
            seq![(TokenTypes::LeftBrace, seq!['{'])] + spec_lex(s, i + 1, false)
        } else if c == '}' {
            seq![(TokenTypes::RightBrace, seq!['}'])] + spec_lex(s, i + 1, false)
        } else if c == ',' {
            seq![(TokenTypes::Separator, seq![','])] + spec_lex(s, i + 1, false)
        } else if spec_mode_of_symbol(c) is Some {
            seq![(TokenTypes::AddressingMode, seq![c])] + spec_lex(s, i + 1, false)
        } else if is_whitespace(c) {
            spec_lex(s, i + 1, last_was_end)
        } else {
            let word_end = spec_word_end(s, i);
            let next = if word_end > i && word_end <= s.len() {
                word_end
            } else {
                i + 1
            };
            seq![spec_classify(spec_default_casing(s.subrange(i, word_end)))] + spec_lex(
                s,
                next,
                false,
            )
        }
    }
}

/// Appending one token appends its class and value to the views.
proof fn lemma_views_push(pre: Seq<TypedToken>, post: Seq<TypedToken>)
    requires
        post.len() == pre.len() + 1,
        forall|k: int| 0 <= k < pre.len() ==> post[k] == pre[k],
    ensures
        spec_token_views(post) == spec_token_views(pre).push(
            (post[post.len() - 1].token_type, post[post.len() - 1].token_value@),
        ),
{
    assert(spec_token_views(post) =~= spec_token_views(pre).push(
        (post[post.len() - 1].token_type, post[post.len() - 1].token_value@),
    ));
}

/// Advance the index to the end of the current line (or to the last
/// character of the text).
fn skip_line(source_code: &Vec<char>, index: &mut usize)
    requires
        *old(index) < source_code@.len(),
    ensures
        *old(index) <= *final(index) < source_code@.len(),
        source_code@[*final(index) as int] == '\n' || *final(index) + 1 == source_code@.len(),
        forall|k: int| *old(index) <= k < *final(index) ==> source_code@[k] != '\n',
{
    let length = source_code.len();
    while *index + 1 < length && source_code[*index] != '\n'
        invariant
            *old(index) <= *index < length,
            forall|k: int| *old(index) <= k < *index ==> source_code@[k] != '\n',
        decreases length - *index,
    {
        *index = *index + 1;
    }
}

/// Scan the maximal word starting at the index, advance the index past
/// it, and return the word upper-cased.
fn get_token(source_code: &Vec<char>, index: &mut usize) -> (r: Vec<char>)
    requires
        *old(index) <= source_code@.len(),
    ensures
        *old(index) <= *final(index) <= source_code@.len(),
        *final(index) == source_code@.len() || spec_token_break(
            source_code@[*final(index) as int],
        ),
        forall|k: int| *old(index) <= k < *final(index) ==> !spec_token_break(source_code@[k]),
        r@ == spec_default_casing(source_code@.subrange(*old(index) as int, *final(index) as int)),
        r@.len() == *final(index) - *old(index),
{
    let length = source_code.len();
    let lower = *index;
    let mut word: Vec<char> = Vec::new();
    while *index < length && !token_break(source_code[*index])
        invariant
            lower <= *index <= length,
            length == source_code@.len(),
            word@ =~= source_code@.subrange(lower as int, *index as int),
            forall|k: int| lower <= k < *index ==> !spec_token_break(source_code@[k]),
        decreases length - *index,
    {
        word.push(source_code[*index]);
        assert(word@ =~= source_code@.subrange(lower as int, *index + 1));
        *index = *index + 1;
    }
    default_casing(&word)
}

/// The start of the digit run at the end of a word: the least split
/// point after which every character is a digit.
pub open spec fn spec_digit_run_start(s: Seq<char>) -> int
    decreases s.len(),
{
    if s.len() == 0 {
        0
    } else if is_digit(s.last()) {
        spec_digit_run_start(s.drop_last())
    } else {
        s.len() as int
    }
}

proof fn lemma_digit_run_start(s: Seq<char>)
    ensures
        0 <= spec_digit_run_start(s) <= s.len(),
        forall|k: int| spec_digit_run_start(s) <= k < s.len() ==> is_digit(#[trigger] s[k]),
        spec_digit_run_start(s) > 0 ==> !is_digit(s[spec_digit_run_start(s) - 1]),
    decreases s.len(),
{
    if s.len() > 0 {
        lemma_digit_run_start(s.drop_last());
        if is_digit(s.last()) {
            assert(forall|k: int|
                0 <= k < s.len() - 1 ==> s.drop_last()[k] == #[trigger] s[k]);
        }
    }
}

/// Split a word into a general-purpose register's digits: when the part
/// before the trailing digit run spells a register prefix, return the
/// digits (possibly empty).
fn is_gpr(token: &Vec<char>) -> (r: Option<Vec<char>>)
    requires
        token@.len() >= 1,
        !is_digit(token@[0]),
    ensures
        r is Some <==> spec_gpr_variant(token@.subrange(0, spec_digit_run_start(token@))),
        r is Some ==> r.unwrap()@ == token@.subrange(
            spec_digit_run_start(token@),
            token@.len() as int,
        ),
{
    proof {
        lemma_digit_run_start(token@);
    }
    let mut lower = token.len();
    while lower > 1 && digit_char(token[lower - 1])
        invariant
            1 <= lower <= token@.len(),
            forall|k: int| lower <= k < token@.len() ==> is_digit(#[trigger] token@[k]),
        decreases lower,
    {
        lower = lower - 1;
    }
    proof {
        assert(spec_digit_run_start(token@) == lower) by {
            lemma_digit_run_start(token@);
            if spec_digit_run_start(token@) < lower {
                assert(is_digit(token@[lower - 1]));
            }
        }
    }
    let register = crate::binarystring::subrange_vec(token, 0, lower);
    let digits = crate::binarystring::subrange_vec(token, lower, token.len());
    if gpr_variant(&register) {
        Some(digits)
    } else {
        None
    }
}

/// Determine the class of a word that is neither a value nor a
/// general-purpose register.
fn get_type(token: &Vec<char>) -> (r: TokenTypes)
    ensures
        r == spec_get_type(token@),
{
    let instruction = instruction_lookup(token);
    if let Some(_) = instruction {
        return TokenTypes::Instruction;
    }
    let register = sp_register_lookup(token);
    if let Some(_) = register {
        return TokenTypes::Register;
    }
    let mode = addressing_mode_lookup(token);
    if let Some(_) = mode {
        return TokenTypes::AddressingMode;
    }
    if is_dat(token) {
        return TokenTypes::AssemblyDirective;
    }
    TokenTypes::Label
}

/// Validate a value token's body: anything but digits after the optional
/// sign records one error.
fn handle_value(token: &Vec<char>, position: &PositionToken, errors: &mut Errors)
    requires
        token@.len() >= 1,
    ensures
        spec_valid_value_token(token@) ==> final(errors)@ == old(errors)@,
        !spec_valid_value_token(token@) ==> final(errors)@.len() == old(errors)@.len() + 1,
        old(errors)@.is_prefix_of(final(errors)@),
{
    let first = token[0];
    let start: usize = if first == '+' || first == '-' {
        1
    } else {
        0
    };
    let mut i: usize = start;
    while i < token.len()
        invariant
            start <= i <= token@.len(),
            start == if token@[0] == '+' || token@[0] == '-' { 1int } else { 0int },
            errors@ == old(errors)@,
            forall|k: int| start <= k < i ==> is_digit(#[trigger] token@[k]),
        decreases token@.len() - i,
    {
        if !digit_char(token[i]) {
            errors.record_error(
                position.row,
                position.column,
                ErrorTypes::InvalidValue,
                ErrorTexts::InvalidValue,
            );
            proof {
                if start == 1 {
                    assert(token@.skip(1)[i - 1] == token@[i as int]);
                } else {
                    assert(!all_digits(token@));
                }
            }
            return ;
        }
        i = i + 1;
    }
    proof {
        if start == 1 {
            assert forall|k: int| 0 <= k < token@.skip(1).len() implies is_digit(
                #[trigger] token@.skip(1)[k],
            ) by {
                assert(token@.skip(1)[k] == token@[k + 1]);
            }
        }
    }
}

/// Validate a label's body: anything but letters, digits and underscores
/// records one error.
fn handle_label(token: &Vec<char>, position: &PositionToken, errors: &mut Errors)
    ensures
        spec_valid_label_token(token@) ==> final(errors)@ == old(errors)@,
        !spec_valid_label_token(token@) ==> final(errors)@.len() == old(errors)@.len() + 1,
        old(errors)@.is_prefix_of(final(errors)@),
{
    let mut i: usize = 0;
    while i < token.len()
        invariant
            i <= token@.len(),
            errors@ == old(errors)@,
            forall|k: int| 0 <= k < i ==> spec_label_char(#[trigger] token@[k]),
        decreases token@.len() - i,
    {
        let c = token[i];
        let ok = ('A' <= c && c <= 'Z') || ('a' <= c && c <= 'z') || digit_char(c) || c == '_';
        if !ok {
            errors.record_error(
                position.row,
                position.column,
                ErrorTypes::InvalidLabel,
                ErrorTexts::InvalidLabel,
            );
            return ;
        }
        i = i + 1;
    }
}

/// Scan and classify one word, validating its body.  The index moves
/// past the word.
fn handle_token(
    source_code: &Vec<char>,
    index: &mut usize,
    position: &PositionToken,
    errors: &mut Errors,
) -> (r: TypedToken)
    requires
        *old(index) < source_code@.len(),
        !spec_token_break(source_code@[*old(index) as int]),
    ensures
        *old(index) < *final(index) <= source_code@.len(),
        *final(index) == source_code@.len() || spec_token_break(
            source_code@[*final(index) as int],
        ),
        forall|k: int|
            *old(index) <= k < *final(index) ==> !spec_token_break(#[trigger] source_code@[k]),
        (r.token_type, r.token_value@) == spec_classify(
            spec_default_casing(
                source_code@.subrange(*old(index) as int, *final(index) as int),
            ),
        ),
        spec_token_wf(r),
        r.token_type != TokenTypes::End && r.token_type != TokenTypes::Separator
            && r.token_type != TokenTypes::LeftBrace && r.token_type != TokenTypes::RightBrace,
        final(errors)@ == old(errors)@ <==> spec_token_clean(r),
        final(errors)@.len() >= old(errors)@.len(),
        r.row == position.row,
        r.column == position.column,
        r.token_value@.len() <= *final(index) - *old(index),
        old(errors)@.is_prefix_of(final(errors)@),
{
    let token_value = get_token(source_code, index);
    proof {
        if token_value@.len() == 0 {
            assert(false);
        }
    }
    let first = token_value[0];
    if first == '+' || first == '-' || digit_char(first) {
        handle_value(&token_value, position, errors);
        return TypedToken {
            token_type: TokenTypes::Value,
            token_value,
            row: position.row,
            column: position.column,
        };
    }
    let gpr = is_gpr(&token_value);
    if let Some(digits) = gpr {
        proof {
            lemma_digit_run_start(token_value@);
            assert forall|k: int| 0 <= k < digits@.len() implies is_digit(
                #[trigger] digits@[k],
            ) by {
                assert(digits@[k] == token_value@[spec_digit_run_start(token_value@) + k]);
            }
        }
        return TypedToken {
            token_type: TokenTypes::Register,
            token_value: digits,
            row: position.row,
            column: position.column,
        };
    }
    let token_type = get_type(&token_value);
    if token_type == TokenTypes::AddressingMode {
        let mode = addressing_mode_lookup(&token_value);
        let symbol = match mode {
            Some(m) => m.symbol,
            None => {
                proof {
                    assert(false);
                }
                '%'
            },
        };
        let mut value: Vec<char> = Vec::new();
        value.push(symbol);
        return TypedToken {
            token_type: TokenTypes::AddressingMode,
            token_value: value,
            row: position.row,
            column: position.column,
        };
    }
    if token_type == TokenTypes::Label {
        handle_label(&token_value, position, errors);
    }
    TypedToken { token_type, token_value, row: position.row, column: position.column }
}

/// A grown token sequence is clean exactly when the old part was clean
/// and the appended token is.
proof fn lemma_clean_extension(pre: Seq<TypedToken>, post: Seq<TypedToken>)
    requires
        post.len() == pre.len() + 1,
        forall|k: int| 0 <= k < pre.len() ==> post[k] == pre[k],
    ensures
        (forall|k: int| 0 <= k < post.len() ==> spec_token_clean(#[trigger] post[k])) <==> (
        forall|k: int| 0 <= k < pre.len() ==> spec_token_clean(#[trigger] pre[k]))
            && spec_token_clean(post[post.len() - 1]),
{
    if (forall|k: int| 0 <= k < pre.len() ==> spec_token_clean(#[trigger] pre[k]))
        && spec_token_clean(post[post.len() - 1]) {
        assert forall|k: int| 0 <= k < post.len() implies spec_token_clean(
            #[trigger] post[k],
        ) by {
            if k < pre.len() {
                assert(post[k] == pre[k]);
            }
        }
    }
    if forall|k: int| 0 <= k < post.len() ==> spec_token_clean(#[trigger] post[k]) {
        assert forall|k: int| 0 <= k < pre.len() implies spec_token_clean(
            #[trigger] pre[k],
        ) by {
            assert(pre[k] == post[k]);
        }
    }
}

/// Walk the whole source, emitting classified tokens.  Comments and
/// directives collapse to statement terminators, a line break ends a
/// statement unless one just did, and a final terminator is always
/// appended.  The classes and values of the returned stream are exactly
/// `spec_lex` of the source.
#[verifier::rlimit(95)]
#[verifier::spinoff_prover]
fn tokenise(
    source_code: &Vec<char>,
    index: &mut usize,
    directive_prefix: char,
    comment_prefix: char,
    position: &mut PositionToken,
    errors: &mut Errors,
) -> (r: Vec<TypedToken>)
    requires
        source_code@.len() < 0x1000_0000_0000,
        old(position).row < 0x2000_0000_0000,
        old(position).column >= 1,
        old(position).column < 0x2000_0000_0000,
        *old(index) == 0,
        directive_prefix == DIRECTIVE_PREFIX,
        comment_prefix == COMMENT_PREFIX,
    ensures
        r@.len() >= 1,
        r@[r@.len() - 1].token_type == TokenTypes::End,
        forall|k: int| 0 <= k < r@.len() ==> spec_token_wf(#[trigger] r@[k]),
        old(errors)@.is_prefix_of(final(errors)@),
        final(errors)@ == old(errors)@ <==> forall|k: int|
            0 <= k < r@.len() ==> spec_token_clean(#[trigger] r@[k]),
        spec_token_views(r@) == spec_lex(source_code@, 0, true),
{
    let mut tokens: Vec<TypedToken> = Vec::new();
    let length = source_code.len();
    proof {
        assert(spec_token_views(tokens@) =~= Seq::<(TokenTypes, Seq<char>)>::empty());
        assert(spec_token_views(tokens@) + spec_lex(source_code@, 0, true) =~= spec_lex(
            source_code@,
            0,
            true,
        ));
    }
    while *index < length
        invariant
            *index <= length,
            length == source_code@.len() < 0x1000_0000_0000,
            position.row <= old(position).row + *index,
            position.column <= old(position).column + *index,
            old(position).row < 0x2000_0000_0000,
            old(position).column < 0x2000_0000_0000,
            old(position).column >= 1,
            forall|k: int| 0 <= k < tokens@.len() ==> spec_token_wf(#[trigger] tokens@[k]),
            old(errors)@.is_prefix_of(errors@),
            errors@ == old(errors)@ <==> forall|k: int|
                0 <= k < tokens@.len() ==> spec_token_clean(#[trigger] tokens@[k]),
            spec_token_views(tokens@) + spec_lex(
                source_code@,
                *index as int,
                spec_resume_flag(tokens@),
            ) == spec_lex(source_code@, 0, true),
        decreases length - *index,
    {
        let ghost entry_index = *index as int;
        let ghost entry_flag = spec_resume_flag(tokens@);
        let current_char = source_code[*index];
        if current_char == directive_prefix || current_char == comment_prefix {
            skip_line(source_code, index);
            let mut end_value: Vec<char> = Vec::new();
            end_value.push('\n');
            let ghost grown_from = tokens@;
            tokens.push(
                TypedToken {
                    token_type: TokenTypes::End,
                    token_value: end_value,
                    row: position.row,
                    column: position.column,
                },
            );
            proof {
                lemma_clean_extension(grown_from, tokens@);
                assert(spec_token_clean(tokens@[tokens@.len() - 1]));
                lemma_views_push(grown_from, tokens@);
                assert(tokens@[tokens@.len() - 1].token_value@ =~= seq!['\n']);
                lemma_line_end_unique(source_code@, entry_index, *index as int);
                assert(spec_lex(source_code@, entry_index, entry_flag) == seq![
                    (TokenTypes::End, seq!['\n']),
                ] + spec_lex(source_code@, *index + 1, true));
                assert(spec_token_views(tokens@) + spec_lex(source_code@, *index + 1, true)
                    =~= spec_token_views(grown_from) + spec_lex(
                    source_code@,
                    entry_index,
                    entry_flag,
                ));
            }
        } else if current_char == '\n' && tokens.len() > 0 {
            let last_type = tokens[tokens.len() - 1].token_type;
            if last_type != TokenTypes::End {
                let mut end_value: Vec<char> = Vec::new();
                end_value.push('\n');
                let ghost grown_from = tokens@;
                tokens.push(
                    TypedToken {
                        token_type: TokenTypes::End,
                        token_value: end_value,
                        row: position.row,
                        column: position.column,
                    },
                );
                proof {
                    lemma_clean_extension(grown_from, tokens@);
                    assert(spec_token_clean(tokens@[tokens@.len() - 1]));
                    lemma_views_push(grown_from, tokens@);
                    assert(tokens@[tokens@.len() - 1].token_value@ =~= seq!['\n']);
                    assert(spec_lex(source_code@, entry_index, entry_flag) == seq![
                        (TokenTypes::End, seq!['\n']),
                    ] + spec_lex(source_code@, *index + 1, true));
                    assert(spec_token_views(tokens@) + spec_lex(source_code@, *index + 1, true)
                        =~= spec_token_views(grown_from) + spec_lex(
                        source_code@,
                        entry_index,
                        entry_flag,
                    ));
                }
            } else {
                proof {
                    assert(spec_lex(source_code@, entry_index, entry_flag) == spec_lex(
                        source_code@,
                        *index + 1,
                        entry_flag,
                    ));
                }
            }
        } else if current_char == '{' {
            let mut value: Vec<char> = Vec::new();
            value.push('{');
            let ghost grown_from = tokens@;
            tokens.push(
                TypedToken {
                    token_type: TokenTypes::LeftBrace,
                    token_value: value,
                    row: position.row,
                    column: position.column,
                },
            );
            proof {
                lemma_clean_extension(grown_from, tokens@);
                assert(spec_token_clean(tokens@[tokens@.len() - 1]));
                lemma_views_push(grown_from, tokens@);
                assert(tokens@[tokens@.len() - 1].token_value@ =~= seq!['{']);
                assert(spec_lex(source_code@, entry_index, entry_flag) == seq![
                    (TokenTypes::LeftBrace, seq!['{']),
                ] + spec_lex(source_code@, *index + 1, false));
                assert(spec_token_views(tokens@) + spec_lex(source_code@, *index + 1, false)
                    =~= spec_token_views(grown_from) + spec_lex(
                    source_code@,
                    entry_index,
                    entry_flag,
                ));
            }
        } else if current_char == '}' {
            let mut value: Vec<char> = Vec::new();
            value.push('}');
            let ghost grown_from = tokens@;
            tokens.push(
                TypedToken {
                    token_type: TokenTypes::RightBrace,
                    token_value: value,
                    row: position.row,
                    column: position.column,
                },
            );
            proof {
                lemma_clean_extension(grown_from, tokens@);
                assert(spec_token_clean(tokens@[tokens@.len() - 1]));
                lemma_views_push(grown_from, tokens@);
                assert(tokens@[tokens@.len() - 1].token_value@ =~= seq!['}']);
                assert(spec_lex(source_code@, entry_index, entry_flag) == seq![
                    (TokenTypes::RightBrace, seq!['}']),
                ] + spec_lex(source_code@, *index + 1, false));
                assert(spec_token_views(tokens@) + spec_lex(source_code@, *index + 1, false)
                    =~= spec_token_views(grown_from) + spec_lex(
                    source_code@,
                    entry_index,
                    entry_flag,
                ));
            }
        } else if current_char == ',' {
            let mut value: Vec<char> = Vec::new();
            value.push(',');
            let ghost grown_from = tokens@;
            tokens.push(
                TypedToken {
                    token_type: TokenTypes::Separator,
                    token_value: value,
                    row: position.row,
                    column: position.column,
                },
            );
            proof {
                lemma_clean_extension(grown_from, tokens@);
                assert(spec_token_clean(tokens@[tokens@.len() - 1]));
                lemma_views_push(grown_from, tokens@);
                assert(tokens@[tokens@.len() - 1].token_value@ =~= seq![',']);
                assert(spec_lex(source_code@, entry_index, entry_flag) == seq![
                    (TokenTypes::Separator, seq![',']),
                ] + spec_lex(source_code@, *index + 1, false));
                assert(spec_token_views(tokens@) + spec_lex(source_code@, *index + 1, false)
                    =~= spec_token_views(grown_from) + spec_lex(
                    source_code@,
                    entry_index,
                    entry_flag,
                ));
            }
        } else {
            let mode = mode_of_symbol(current_char);
            match mode {
                Some(_) => {
                    let mut value: Vec<char> = Vec::new();
                    value.push(current_char);
                    let ghost grown_from = tokens@;
                    tokens.push(
                        TypedToken {
                            token_type: TokenTypes::AddressingMode,
                            token_value: value,
                            row: position.row,
                            column: position.column,
                        },
                    );
                    proof {
                        lemma_clean_extension(grown_from, tokens@);
                        assert(spec_token_clean(tokens@[tokens@.len() - 1]));
                        lemma_views_push(grown_from, tokens@);
                        assert(tokens@[tokens@.len() - 1].token_value@ =~= seq![current_char]);
                        assert(spec_lex(source_code@, entry_index, entry_flag) == seq![
                            (TokenTypes::AddressingMode, seq![current_char]),
                        ] + spec_lex(source_code@, *index + 1, false));
                        assert(spec_token_views(tokens@) + spec_lex(
                            source_code@,
                            *index + 1,
                            false,
                        ) =~= spec_token_views(grown_from) + spec_lex(
                            source_code@,
                            entry_index,
                            entry_flag,
                        ));
                    }
                },
                None => {
                    if !whitespace_char(current_char) {
                        let ghost errors_before = errors@;
                        let ghost tokens_before = tokens@;
                        let token = handle_token(source_code, index, position, errors);
                        *index = *index - 1;
                        if token.token_value.len() >= 1 {
                            position.column = position.column + (token.token_value.len() as u64)
                                - 1;
                        }
                        tokens.push(token);
                        proof {
                            lemma_clean_extension(tokens_before, tokens@);
                            if errors@ == old(errors)@ {
                                assert(errors_before.len() <= errors@.len());
                                assert(old(errors)@.is_prefix_of(errors_before));
                                assert(errors_before =~= old(errors)@);
                                assert(errors@ =~= errors_before);
                            } else if errors_before == old(errors)@ {
                                assert(errors@ != errors_before);
                                assert(!spec_token_clean(tokens@[tokens@.len() - 1]));
                            }
                            lemma_views_push(tokens_before, tokens@);
                            lemma_word_end_unique(source_code@, entry_index, *index + 1);
                            assert(spec_lex(source_code@, entry_index, entry_flag) == seq![
                                spec_classify(
                                    spec_default_casing(
                                        source_code@.subrange(entry_index, *index + 1),
                                    ),
                                ),
                            ] + spec_lex(source_code@, *index + 1, false));
                            assert((tokens@[tokens@.len() - 1].token_type, tokens@[tokens@.len()
                                - 1].token_value@) == spec_classify(
                                spec_default_casing(
                                    source_code@.subrange(entry_index, *index + 1),
                                ),
                            ));
                            assert(spec_token_views(tokens@) + spec_lex(
                                source_code@,
                                *index + 1,
                                false,
                            ) =~= spec_token_views(tokens_before) + spec_lex(
                                source_code@,
                                entry_index,
                                entry_flag,
                            ));
                        }
                    } else {
                        proof {
                            if current_char == '\n' {
                                assert(tokens@.len() == 0);
                                assert(spec_lex(source_code@, entry_index, entry_flag)
                                    == spec_lex(source_code@, *index + 1, entry_flag));
                            } else {
                                assert(spec_lex(source_code@, entry_index, entry_flag)
                                    == spec_lex(source_code@, *index + 1, entry_flag));
                            }
                        }
                    }
                },
            }
        }
        position.advance_position(source_code[*index], 1);
        *index = *index + 1;
    }
    let mut end_value: Vec<char> = Vec::new();
    end_value.push('\n');
    let ghost grown_from = tokens@;
    tokens.push(
        TypedToken {
            token_type: TokenTypes::End,
            token_value: end_value,
            row: position.row,
            column: position.column,
        },
    );
    proof {
        lemma_clean_extension(grown_from, tokens@);
        assert(spec_token_clean(tokens@[tokens@.len() - 1]));
        lemma_views_push(grown_from, tokens@);
        assert(tokens@[tokens@.len() - 1].token_value@ =~= seq!['\n']);
        assert(spec_lex(source_code@, source_code@.len() as int, spec_resume_flag(grown_from))
            == seq![(TokenTypes::End, seq!['\n'])]);
        assert(spec_token_views(tokens@) =~= spec_token_views(grown_from) + seq![
            (TokenTypes::End, seq!['\n']),
        ]);
    }
    tokens
}

/// Run the lexer over the whole source.  The returned stream always ends
/// with a statement terminator, every token's value matches its class,
/// and when the sink stayed empty every value and label body is valid.
pub fn run(source_code: &Vec<char>, directive_prefix: char, comment_prefix: char) -> (r: (
    Vec<TypedToken>,
    Errors,
))
    requires
        source_code@.len() < 0x1000_0000_0000,
        directive_prefix == DIRECTIVE_PREFIX,
        comment_prefix == COMMENT_PREFIX,
    ensures
        r.0@.len() >= 1,
        r.0@[r.0@.len() - 1].token_type == TokenTypes::End,
        forall|k: int| 0 <= k < r.0@.len() ==> spec_token_wf(#[trigger] r.0@[k]),
        r.1@.len() == 0 <==> forall|k: int|
            0 <= k < r.0@.len() ==> spec_token_clean(#[trigger] r.0@[k]),
        spec_token_views(r.0@) == spec_lex(source_code@, 0, true),
{
    let mut index: usize = 0;
    let mut position = PositionToken { row: 1, column: 1 };
    let mut errors = Errors::new();
    let tokens = tokenise(
        source_code,
        &mut index,
        directive_prefix,
        comment_prefix,
        &mut position,
        &mut errors,
    );
    proof {
        if errors@.len() == 0 {
            assert(errors@ =~= Seq::<crate::errors::RecordedError>::empty());
        }
    }
    (tokens, errors)
}

} // verus!
