//! The parser: an adjacency check over the token stream.  Each token
//! class admits a fixed set of successors, block scopes must nest to
//! depth one and balance, and every violation is reported as the pair of
//! tokens that clashed.

use vstd::prelude::*;
use crate::tokens::{TypedToken, TokenTypes};

verus! {

/// Which token class may follow which: the follow-sets of the language.
pub open spec fn spec_possible(prev: TokenTypes, next: TokenTypes) -> bool {
    match prev {
        TokenTypes::End => next == TokenTypes::End || next == TokenTypes::Instruction || next
            == TokenTypes::Label || next == TokenTypes::RightBrace || next
            == TokenTypes::LeftBrace,
        TokenTypes::Instruction => next == TokenTypes::End || next == TokenTypes::AddressingMode
            || next == TokenTypes::Value || next == TokenTypes::Register || next
            == TokenTypes::Label || next == TokenTypes::RightBrace,
        TokenTypes::AddressingMode => next == TokenTypes::Value || next == TokenTypes::Register
            || next == TokenTypes::Label,
        TokenTypes::Value => next == TokenTypes::End || next == TokenTypes::Separator || next
            == TokenTypes::RightBrace || next == TokenTypes::LeftBrace,
        TokenTypes::Register => next == TokenTypes::End || next == TokenTypes::Separator || next
            == TokenTypes::RightBrace || next == TokenTypes::LeftBrace,
        TokenTypes::Label => next == TokenTypes::End || next == TokenTypes::Separator || next
            == TokenTypes::Instruction || next == TokenTypes::RightBrace || next
            == TokenTypes::LeftBrace || next == TokenTypes::AssemblyDirective,
        TokenTypes::Separator => next == TokenTypes::AddressingMode || next == TokenTypes::Value
            || next == TokenTypes::Register || next == TokenTypes::Label,
        TokenTypes::LeftBrace => next == TokenTypes::End,
        TokenTypes::RightBrace => next == TokenTypes::End,
        TokenTypes::AssemblyDirective => next == TokenTypes::End || next == TokenTypes::Value,
    }
}

/// Test whether `next` may follow `prev`.
pub fn possible_tokens(prev: &TypedToken, next: &TypedToken) -> (r: bool)
    ensures
        r == spec_possible(prev.token_type, next.token_type),
{
    match prev.token_type {
        TokenTypes::End => next.token_type == TokenTypes::End || next.token_type
            == TokenTypes::Instruction || next.token_type == TokenTypes::Label
            || next.token_type == TokenTypes::RightBrace || next.token_type
            == TokenTypes::LeftBrace,
        TokenTypes::Instruction => next.token_type == TokenTypes::End || next.token_type
            == TokenTypes::AddressingMode || next.token_type == TokenTypes::Value
            || next.token_type == TokenTypes::Register || next.token_type == TokenTypes::Label
            || next.token_type == TokenTypes::RightBrace,
        TokenTypes::AddressingMode => next.token_type == TokenTypes::Value || next.token_type
            == TokenTypes::Register || next.token_type == TokenTypes::Label,
        TokenTypes::Value => next.token_type == TokenTypes::End || next.token_type
            == TokenTypes::Separator || next.token_type == TokenTypes::RightBrace
            || next.token_type == TokenTypes::LeftBrace,
        TokenTypes::Register => next.token_type == TokenTypes::End || next.token_type
            == TokenTypes::Separator || next.token_type == TokenTypes::RightBrace
            || next.token_type == TokenTypes::LeftBrace,
        TokenTypes::Label => next.token_type == TokenTypes::End || next.token_type
            == TokenTypes::Separator || next.token_type == TokenTypes::Instruction
            || next.token_type == TokenTypes::RightBrace || next.token_type
            == TokenTypes::LeftBrace || next.token_type == TokenTypes::AssemblyDirective,
        TokenTypes::Separator => next.token_type == TokenTypes::AddressingMode
            || next.token_type == TokenTypes::Value || next.token_type == TokenTypes::Register
            || next.token_type == TokenTypes::Label,
        TokenTypes::LeftBrace => next.token_type == TokenTypes::End,
        TokenTypes::RightBrace => next.token_type == TokenTypes::End,
        TokenTypes::AssemblyDirective => next.token_type == TokenTypes::End || next.token_type
            == TokenTypes::Value,
    }
}

/// The predecessor of token `i`: the previous token, or the stream's last
/// token for the first one (the stream always ends with a statement
/// terminator, which legitimately opens the first statement).
pub open spec fn spec_adjacent_ok(tokens: Seq<TypedToken>, i: int) -> bool {
    if i == 0 {
        spec_possible(tokens.last().token_type, tokens[0].token_type)
    } else {
        spec_possible(tokens[i - 1].token_type, tokens[i].token_type)
    }
}

/// Every token may follow its predecessor.
pub open spec fn spec_all_adjacent_ok(tokens: Seq<TypedToken>) -> bool {
    forall|i: int| 0 <= i < tokens.len() ==> spec_adjacent_ok(tokens, i)
}

/// Whether a block scope is open after the first `i` tokens.
pub open spec fn spec_brace_open(tokens: Seq<TypedToken>, i: int) -> bool
    decreases i,
{
    if i <= 0 {
        false
    } else if tokens[i - 1].token_type == TokenTypes::LeftBrace {
        true
    } else if tokens[i - 1].token_type == TokenTypes::RightBrace {
        false
    } else {
        spec_brace_open(tokens, i - 1)
    }
}

/// Whether the braces among the first `i` tokens alternate properly: no
/// scope opened inside a scope, none closed outside one.
pub open spec fn spec_brace_clean(tokens: Seq<TypedToken>, i: int) -> bool
    decreases i,
{
    if i <= 0 {
        true
    } else {
        &&& spec_brace_clean(tokens, i - 1)
        &&& (tokens[i - 1].token_type == TokenTypes::LeftBrace ==> !spec_brace_open(
            tokens,
            i - 1,
        ))
        &&& (tokens[i - 1].token_type == TokenTypes::RightBrace ==> spec_brace_open(
            tokens,
            i - 1,
        ))
    }
}

/// A syntactically well-formed token stream: every adjacency is allowed
/// and the braces alternate and balance.
pub open spec fn spec_parse_ok(tokens: Seq<TypedToken>) -> bool {
    &&& spec_all_adjacent_ok(tokens)
    &&& spec_brace_clean(tokens, tokens.len() as int)
    &&& !spec_brace_open(tokens, tokens.len() as int)
}

/// Run the parser.  The returned pairs are the clashes found: an empty
/// result means exactly that the stream is syntactically well formed.
pub fn run(tokens: &Vec<TypedToken>) -> (r: Vec<(TypedToken, TypedToken)>)
    requires
        tokens@.len() >= 1,
    ensures
        r@.len() == 0 <==> spec_parse_ok(tokens@),
{
    let mut errors: Vec<(TypedToken, TypedToken)> = Vec::new();
    let mut open_brace: Option<usize> = None;
    let mut i: usize = 0;
    while i < tokens.len()
        invariant
            i <= tokens@.len(),
            tokens@.len() >= 1,
            match open_brace {
                Some(b) => spec_brace_open(tokens@, i as int) && b < i && tokens@[b as int].token_type
                    == TokenTypes::LeftBrace,
                None => !spec_brace_open(tokens@, i as int),
            },
            errors@.len() == 0 <==> (forall|j: int| 0 <= j < i ==> spec_adjacent_ok(tokens@, j))
                && spec_brace_clean(tokens@, i as int),
        decreases tokens@.len() - i,
    {
        let token = &tokens[i];
        if token.token_type == TokenTypes::LeftBrace {
            match open_brace {
                None => {
                    open_brace = Some(i);
                },
                Some(_) => {
                    errors.push((token.duplicate(), token.duplicate()));
                },
            }
        } else if token.token_type == TokenTypes::RightBrace {
            match open_brace {
                None => {
                    errors.push((token.duplicate(), token.duplicate()));
                },
                Some(_) => {
                    open_brace = None;
                },
            }
        }
        let previous = if i == 0 {
            &tokens[tokens.len() - 1]
        } else {
            &tokens[i - 1]
        };
        if !possible_tokens(previous, token) {
            errors.push((previous.duplicate(), token.duplicate()));
        }
        proof {
            assert(spec_brace_clean(tokens@, i + 1) == (spec_brace_clean(tokens@, i as int) && (
            tokens@[i as int].token_type == TokenTypes::LeftBrace ==> !spec_brace_open(
                tokens@,
                i as int,
            )) && (tokens@[i as int].token_type == TokenTypes::RightBrace ==> spec_brace_open(
                tokens@,
                i as int,
            ))));
            if errors@.len() == 0 {
                assert forall|j: int| 0 <= j < i + 1 implies spec_adjacent_ok(tokens@, j) by {
                    if j < i {
                    } else {
                        assert(spec_adjacent_ok(tokens@, i as int));
                    }
                }
            } else {
                assert(!((forall|j: int| 0 <= j < i + 1 ==> spec_adjacent_ok(tokens@, j))
                    && spec_brace_clean(tokens@, i + 1))) by {
                    if (forall|j: int| 0 <= j < i + 1 ==> spec_adjacent_ok(tokens@, j))
                        && spec_brace_clean(tokens@, i + 1) {
                        assert(forall|j: int| 0 <= j < i ==> spec_adjacent_ok(tokens@, j));
                        assert(spec_brace_clean(tokens@, i as int));
                        assert(spec_adjacent_ok(tokens@, i as int));
                        assert(false);
                    }
                }
            }
        }
        i = i + 1;
    }
    match open_brace {
        Some(b) => {
            let left = &tokens[b];
            errors.push((left.duplicate(), left.duplicate()));
        },
        None => {
        },
    }
    errors
}

} // verus!
