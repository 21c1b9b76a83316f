//! The preprocessor: `!KEY=VALUE` directives are read out of the source
//! text (without changing it) and written into the configuration.

use vstd::prelude::*;
use crate::defaults::{ConfigTable, spec_config_valid};
use crate::errors::Errors;
use crate::tokens::{
    PositionToken, tokenise, parse, whitespace_char, is_whitespace, spec_split,
    spec_directive_words_ok, spec_word_views, lemma_directive_ok_words,
};
use crate::lexer::{spec_line_end, lemma_line_end_unique};

verus! {

/// Advance the index to the end of the current line (or to the last
/// character of the text).
fn skip_comment(source_code: &Vec<char>, index: &mut usize)
    requires
        *old(index) < source_code@.len(),
    ensures
        *old(index) <= *final(index) < source_code@.len(),
        source_code@[*final(index) as int] == '\n' || *final(index) + 1 == source_code@.len(),
        forall|k: int| *old(index) <= k < *final(index) ==> source_code@[k] != '\n',
{
    let length = source_code.len();
    while *index + 1 < length && source_code[*index] != '\n'
        invariant
            *old(index) <= *index < length,
            forall|k: int| *old(index) <= k < *index ==> source_code@[k] != '\n',
        decreases length - *index,
    {
        *index = *index + 1;
    }
}

/// Read the directive starting at the index (its prefix included),
/// leaving the index on the directive's last character.
fn get_directive(
    source_code: &Vec<char>,
    index: &mut usize,
    directive_prefix: char,
    comment_prefix: char,
) -> (r: Vec<char>)
    requires
        *old(index) < source_code@.len(),
    ensures
        *old(index) <= *final(index) < source_code@.len(),
        r@.len() == *final(index) - *old(index) + 1,
        r@ == source_code@.subrange(*old(index) as int, *final(index) + 1),
        *final(index) + 1 == spec_directive_end(
            source_code@,
            *old(index) as int,
            directive_prefix,
            comment_prefix,
        ),
{
    let length = source_code.len();
    let lower = *index;
    *index = *index + 1;
    while *index < length && !whitespace_char(source_code[*index])
        && source_code[*index] != directive_prefix && source_code[*index] != comment_prefix
        invariant
            lower < *index <= length,
            length == source_code@.len(),
            forall|k: int|
                lower + 1 <= k < *index ==> !is_whitespace(#[trigger] source_code@[k])
                    && source_code@[k] != directive_prefix && source_code@[k] != comment_prefix,
        decreases length - *index,
    {
        *index = *index + 1;
    }
    proof {
        lemma_directive_end_unique(
            source_code@,
            lower + 1,
            *index as int,
            directive_prefix,
            comment_prefix,
        );
    }
    let directive = crate::binarystring::subrange_vec(source_code, lower, *index);
    *index = *index - 1;
    directive
}

/// The end of the directive whose prefix stands at `i`: the first
/// whitespace, directive or comment character after it, or the text's
/// length.
pub open spec fn spec_directive_end(s: Seq<char>, i: int, dp: char, cp: char) -> int {
    spec_directive_end_from(s, i + 1, dp, cp)
}

/// The first break position for a directive scan at or after `j`.
pub open spec fn spec_directive_end_from(s: Seq<char>, j: int, dp: char, cp: char) -> int
    decreases s.len() - j when 0 <= j
{
    if j >= s.len() {
        j
    } else if is_whitespace(s[j]) || s[j] == dp || s[j] == cp {
        j
    } else {
        spec_directive_end_from(s, j + 1, dp, cp)
    }
}

proof fn lemma_directive_end_unique(s: Seq<char>, j: int, e: int, dp: char, cp: char)
    requires
        0 <= j <= e <= s.len(),
        forall|k: int|
            j <= k < e ==> !is_whitespace(#[trigger] s[k]) && s[k] != dp && s[k] != cp,
        e == s.len() || is_whitespace(s[e]) || s[e] == dp || s[e] == cp,
    ensures
        spec_directive_end_from(s, j, dp, cp) == e,
    decreases e - j,
{
    if j < e {
        lemma_directive_end_unique(s, j + 1, e, dp, cp);
    }
}

/// Whether every directive in the text from `i` on passes the
/// configuration checks (comment lines are skipped and empty directives
/// are no failure).
pub open spec fn spec_directives_ok(
    s: Seq<char>,
    i: int,
    dp: char,
    cp: char,
    delimiter: char,
) -> bool
    decreases s.len() - i when 0 <= i
{
    if i >= s.len() {
        true
    } else if s[i] == cp {
        let line_end = spec_line_end(s, i);
        let next = if line_end >= i && line_end < s.len() {
            line_end + 1
        } else {
            i + 1
        };
        spec_directives_ok(s, next, dp, cp, delimiter)
    } else if s[i] == dp {
        let directive_end = spec_directive_end(s, i, dp, cp);
        let next = if directive_end > i && directive_end <= s.len() {
            directive_end
        } else {
            i + 1
        };
        ({
            let words = spec_split(s.subrange(i, directive_end), dp, delimiter);
            words.len() == 0 || spec_directive_words_ok(words)
        }) && spec_directives_ok(s, next, dp, cp, delimiter)
    } else {
        spec_directives_ok(s, i + 1, dp, cp, delimiter)
    }
}

/// Split one directive into words and run the configuration checks over
/// them.
fn handle_directive(
    directive: &Vec<char>,
    delimiter: char,
    directive_prefix: char,
    config_table: &mut ConfigTable,
    position: &mut PositionToken,
    errors: &mut Errors,
)
    requires
        directive@.len() < 0x1000_0000_0000,
        old(position).row < 0x2000_0000_0000,
        old(position).column < 0x2000_0000_0000,
    ensures
        final(position).row == old(position).row,
        final(position).column <= old(position).column + 1 + directive@.len(),
        spec_config_valid(*old(config_table)) ==> spec_config_valid(*final(config_table)),
        ({
            let words = spec_split(directive@, directive_prefix, delimiter);
            if words.len() == 0 || spec_directive_words_ok(words) {
                final(errors)@ == old(errors)@
            } else {
                final(errors)@.len() == old(errors)@.len() + 1
            }
        }),
{
    let tokens = tokenise(directive, directive_prefix, delimiter, position);
    parse(&tokens, config_table, errors);
    proof {
        lemma_directive_ok_words(tokens@);
        assert(spec_word_views(tokens@) == spec_split(directive@, directive_prefix, delimiter));
    }
}

/// Scan the whole source for directives, validating each and writing the
/// valid ones into the configuration.  The source itself is left for the
/// lexer.
pub fn run(
    source_code: &Vec<char>,
    directive_prefix: char,
    comment_prefix: char,
    delimiter: char,
    config_table: &mut ConfigTable,
) -> (r: Errors)
    requires
        source_code@.len() < 0x0400_0000_0000,
    ensures
        spec_config_valid(*old(config_table)) ==> spec_config_valid(*final(config_table)),
        r@.len() == 0 <==> spec_directives_ok(
            source_code@,
            0,
            directive_prefix,
            comment_prefix,
            delimiter,
        ),
{
    let mut index: usize = 0;
    let length = source_code.len();
    let mut position = PositionToken { row: 1, column: 1 };
    let mut errors = Errors::new();
    while index < length
        invariant
            index <= length,
            spec_config_valid(*old(config_table)) ==> spec_config_valid(*config_table),
            length == source_code@.len() < 0x0400_0000_0000,
            position.row <= 1 + index,
            position.column <= 2 + 3 * index,
            spec_directives_ok(source_code@, 0, directive_prefix, comment_prefix, delimiter)
                <==> (errors@.len() == 0 && spec_directives_ok(
                source_code@,
                index as int,
                directive_prefix,
                comment_prefix,
                delimiter,
            )),
        decreases length - index,
    {
        let ghost entry_index = index as int;
        let c = source_code[index];
        if c == comment_prefix {
            skip_comment(source_code, &mut index);
            proof {
                lemma_line_end_unique(source_code@, entry_index, index as int);
                assert(spec_directives_ok(
                    source_code@,
                    entry_index,
                    directive_prefix,
                    comment_prefix,
                    delimiter,
                ) == spec_directives_ok(
                    source_code@,
                    index + 1,
                    directive_prefix,
                    comment_prefix,
                    delimiter,
                ));
            }
        } else if c == directive_prefix {
            let ghost errors_before = errors@;
            let directive = get_directive(
                source_code,
                &mut index,
                directive_prefix,
                comment_prefix,
            );
            handle_directive(
                &directive,
                delimiter,
                directive_prefix,
                config_table,
                &mut position,
                &mut errors,
            );
            proof {
                let words = spec_split(
                    source_code@.subrange(
                        entry_index,
                        spec_directive_end(
                            source_code@,
                            entry_index,
                            directive_prefix,
                            comment_prefix,
                        ),
                    ),
                    directive_prefix,
                    delimiter,
                );
                assert(directive@ == source_code@.subrange(
                    entry_index,
                    spec_directive_end(
                        source_code@,
                        entry_index,
                        directive_prefix,
                        comment_prefix,
                    ),
                ));
                assert(spec_directives_ok(
                    source_code@,
                    entry_index,
                    directive_prefix,
                    comment_prefix,
                    delimiter,
                ) == ((words.len() == 0 || spec_directive_words_ok(words))
                    && spec_directives_ok(
                    source_code@,
                    index + 1,
                    directive_prefix,
                    comment_prefix,
                    delimiter,
                )));
                if words.len() == 0 || spec_directive_words_ok(words) {
                    assert(errors@ == errors_before);
                } else {
                    assert(errors@.len() == errors_before.len() + 1);
                }
            }
        } else {
            proof {
                assert(spec_directives_ok(
                    source_code@,
                    entry_index,
                    directive_prefix,
                    comment_prefix,
                    delimiter,
                ) == spec_directives_ok(
                    source_code@,
                    index + 1,
                    directive_prefix,
                    comment_prefix,
                    delimiter,
                ));
            }
        }
        if source_code[index] == '\n' {
            position.row = position.row + 1;
            position.column = 0;
        }
        index = index + 1;
        position.column = position.column + 1;
    }
    errors
}

} // verus!
