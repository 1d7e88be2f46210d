//! The tokenizer's general properties, stated and proved over its model in
//! `crate::model`, which every routine of `crate::tokenizer` is proved to
//! follow exactly.
use vstd::prelude::*;

use crate::model;
use crate::tokens::TokenView;

verus! {

/// Tokenizing any input ends: the model of `tokenize` is a total function,
/// and its result closes with exactly one end-of-stream token, which appears
/// nowhere else in the sequence.
pub proof fn lemma_tokenize_ends_in_eof(s: Seq<char>, err: bool)
    ensures
        model::tokenize_from(s, err).tokens.len() >= 1,
        model::tokenize_from(s, err).tokens.last() is EOF,
        forall|i: int|
            0 <= i < model::tokenize_from(s, err).tokens.len() - 1 ==> !(model::tokenize_from(
                s,
                err,
            ).tokens[i] is EOF),
{
    model::lemma_tokenize_shape(s, err);
}

/// Tokenizing the same immutable input twice yields identical token
/// sequences and the same error flag: any two results that meet
/// `Tokenizer::tokenize`'s contract on fresh tokenizers over equal inputs
/// are equal.
pub proof fn lemma_tokenize_deterministic(
    s: Seq<char>,
    r1: Seq<TokenView>,
    e1: bool,
    r2: Seq<TokenView>,
    e2: bool,
)
    requires
        r1 == model::tokenize_from(s, false).tokens,
        e1 == model::tokenize_from(s, false).err,
        r2 == model::tokenize_from(s, false).tokens,
        e2 == model::tokenize_from(s, false).err,
    ensures
        r1 == r2,
        e1 == e2,
{
}

/// An escaped value that names a surrogate decodes to U+FFFD, never to a raw
/// surrogate code point.
pub proof fn lemma_escaped_surrogate_replaced(s: Seq<char>)
    requires
        s.len() > 0,
        model::hex_digit(s[0]),
        0xd800 <= model::hex_run_value(model::take_hex(s, 6)) <= 0xdfff,
    ensures
        model::consume_escape(s).code == '\u{fffd}',
{
}

/// A backslash immediately followed by a newline inside a string is a line
/// continuation: both code points are consumed and the string's value is
/// unchanged.
pub proof fn lemma_string_line_continuation(
    s: Seq<char>,
    quote: char,
    acc: Seq<char>,
    err: bool,
)
    requires
        quote == '\u{0022}' || quote == '\u{0027}',
        s.len() >= 2,
        s[0] == '\u{005c}',
        s[1] == '\u{000a}',
    ensures
        model::consume_string(s, quote, acc, err) == model::consume_string(
            s.skip(2),
            quote,
            acc,
            err,
        ),
{
}

} // verus!
