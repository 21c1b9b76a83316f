//! The argument processor: every command-line argument after the source
//! path is a `KEY=VALUE` pair that configures the machine.

use vstd::prelude::*;
use crate::defaults::{ConfigTable, spec_config_valid};
use crate::errors::Errors;
use crate::tokens::{
    PositionToken, tokenise, parse, spec_split, spec_directive_words_ok,
    spec_word_views, lemma_directive_ok_words,
};

verus! {

/// Validate every argument as a `KEY=VALUE` directive and write the
/// valid ones into the configuration; each failing check records one
/// diagnostic in the returned sink.
pub fn run(
    arguments: &Vec<Vec<char>>,
    directive_prefix: char,
    delimiter: char,
    config_table: &mut ConfigTable,
) -> (r: Errors)
    requires
        arguments@.len() < 0x1000_0000_0000,
        forall|k: int| 0 <= k < arguments@.len() ==> (#[trigger] arguments@[k])@.len()
            < 0x1000_0000_0000,
    ensures
        spec_config_valid(*old(config_table)) ==> spec_config_valid(*final(config_table)),
        r@.len() == 0 <==> forall|k: int|
            0 <= k < arguments@.len() ==> ({
                let words = spec_split((#[trigger] arguments@[k])@, directive_prefix, delimiter);
                words.len() == 0 || spec_directive_words_ok(words)
            }),
{
    let mut position = PositionToken { row: 1, column: 1 };
    let mut errors = Errors::new();
    let mut i: usize = 0;
    while i < arguments.len()
        invariant
            i <= arguments@.len(),
            spec_config_valid(*old(config_table)) ==> spec_config_valid(*config_table),
            position.row <= 1 + i,
            arguments@.len() < 0x1000_0000_0000,
            forall|k: int| 0 <= k < arguments@.len() ==> (#[trigger] arguments@[k])@.len()
                < 0x1000_0000_0000,
            errors@.len() == 0 <==> forall|k: int|
                0 <= k < i ==> ({
                    let words = spec_split(
                        (#[trigger] arguments@[k])@,
                        directive_prefix,
                        delimiter,
                    );
                    words.len() == 0 || spec_directive_words_ok(words)
                }),
        decreases arguments@.len() - i,
    {
        position.column = 1;
        let ghost errors_before = errors@;
        let tokens = tokenise(&arguments[i], directive_prefix, delimiter, &mut position);
        parse(&tokens, config_table, &mut errors);
        proof {
            lemma_directive_ok_words(tokens@);
            let words = spec_split(arguments@[i as int]@, directive_prefix, delimiter);
            assert(spec_word_views(tokens@) == words);
            assert(tokens@.len() == words.len());
            let this_ok = words.len() == 0 || spec_directive_words_ok(words);
            if errors@.len() == 0 {
                assert(errors_before.len() == 0);
                assert forall|k: int| 0 <= k < i + 1 implies ({
                    let w = spec_split(
                        (#[trigger] arguments@[k])@,
                        directive_prefix,
                        delimiter,
                    );
                    w.len() == 0 || spec_directive_words_ok(w)
                }) by {
                    if k == i {
                        if words.len() > 0 && !spec_directive_words_ok(words) {
                            assert(errors@.len() == errors_before.len() + 1);
                        }
                    }
                }
            } else {
                assert(!(forall|k: int|
                    0 <= k < i + 1 ==> ({
                        let w = spec_split(
                            (#[trigger] arguments@[k])@,
                            directive_prefix,
                            delimiter,
                        );
                        w.len() == 0 || spec_directive_words_ok(w)
                    }))) by {
                    if forall|k: int|
                        0 <= k < i + 1 ==> ({
                            let w = spec_split(
                                (#[trigger] arguments@[k])@,
                                directive_prefix,
                                delimiter,
                            );
                            w.len() == 0 || spec_directive_words_ok(w)
                        }) {
                        assert({
                            let w = spec_split(
                                arguments@[i as int]@,
                                directive_prefix,
                                delimiter,
                            );
                            w.len() == 0 || spec_directive_words_ok(w)
                        });
                        assert(errors_before.len() == 0);
                        assert(errors@.len() == 0);
                        assert(false);
                    }
                }
            }
        }
        position.row = position.row + 1;
        position.column = 1;
        i = i + 1;
    }
    errors
}

} // verus!
