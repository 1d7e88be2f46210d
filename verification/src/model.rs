//! The mathematical model of the tokenizer: spec-level character classes and
//! one spec function per consumption routine, each defined over the sequence
//! of code points that remains in the input. The executable tokenizer is
//! proved to return exactly what these functions describe.
use vstd::prelude::*;

use crate::tokens::HashTokenFlag;
use crate::tokens::NumberType;
use crate::tokens::NumericView;
use crate::tokens::TokenView;

verus! {

// ---------------------------------------------------------------------------
// Character classes
// ---------------------------------------------------------------------------
/// A code point between U+0030 and U+0039 inclusive.
pub open spec fn digit(c: char) -> bool {
    0x30 <= c as u32 <= 0x39
}

/// A digit, U+0041..U+0046, or U+0061..U+0066.
pub open spec fn hex_digit(c: char) -> bool {
    digit(c) || (0x41 <= c as u32 <= 0x46) || (0x61 <= c as u32 <= 0x66)
}

/// A code point between U+0041 and U+005A inclusive.
pub open spec fn uppercase_letter(c: char) -> bool {
    0x41 <= c as u32 <= 0x5a
}

/// A code point between U+0061 and U+007A inclusive.
pub open spec fn lowercase_letter(c: char) -> bool {
    0x61 <= c as u32 <= 0x7a
}

pub open spec fn letter(c: char) -> bool {
    uppercase_letter(c) || lowercase_letter(c)
}

/// A code point of value U+0080 or higher.
pub open spec fn non_ascii(c: char) -> bool {
    c as u32 >= 0x80
}

/// A letter, a non-ASCII code point, or U+005F.
pub open spec fn ident_start(c: char) -> bool {
    letter(c) || non_ascii(c) || c == '\u{005f}' || c == '\u{0080}'
}

/// An ident-start code point, a digit, or U+002D.
pub open spec fn ident_char(c: char) -> bool {
    ident_start(c) || digit(c) || c == '\u{002d}'
}

/// U+000A, U+0009 or U+0020.
pub open spec fn whitespace(c: char) -> bool {
    c == '\u{000a}' || c == '\u{0009}' || c == '\u{0020}'
}

/// U+0000..U+0008, U+000B, U+000E..U+001F, or U+007F.
pub open spec fn non_printable(c: char) -> bool {
    (c as u32 <= 0x08) || c as u32 == 0x0b || (0x0e <= c as u32 <= 0x1f) || c as u32 == 0x7f
}

/// U+002B or U+002D.
pub open spec fn sign(c: char) -> bool {
    c == '+' || c == '-'
}

/// U+0045 or U+0065.
pub open spec fn e_marker(c: char) -> bool {
    c == 'E' || c == 'e'
}

/// The numeric value of a hex digit.
pub open spec fn hex_value(c: char) -> nat {
    if digit(c) {
        (c as u32 - 0x30) as nat
    } else if uppercase_letter(c) {
        (c as u32 - 0x37) as nat
    } else {
        (c as u32 - 0x57) as nat
    }
}

// ---------------------------------------------------------------------------
// Lookahead
// ---------------------------------------------------------------------------
/// The code point `i` positions ahead, when the input still holds one.
pub open spec fn peek_at(s: Seq<char>, i: int) -> Option<char> {
    if 0 <= i < s.len() {
        Some(s[i])
    } else {
        None
    }
}

/// Two code points are a valid escape when the first is U+005C and the second
/// is not a newline; end of input in second position does not invalidate it.
pub open spec fn valid_escape_opt(first: Option<char>, second: Option<char>) -> bool {
    first == Some('\u{005c}') && second != Some('\u{000a}')
}

pub open spec fn opt_digit(c: Option<char>) -> bool {
    match c {
        Some(v) => digit(v),
        None => false,
    }
}

pub open spec fn opt_ident_char(c: Option<char>) -> bool {
    match c {
        Some(v) => ident_char(v),
        None => false,
    }
}

/// The three-code-point lookahead table deciding whether a number starts here.
pub open spec fn would_start_number_at(s: Seq<char>) -> bool {
    let first = peek_at(s, 0);
    let second = peek_at(s, 1);
    let third = peek_at(s, 2);
    if first == Some('+') || first == Some('-') {
        opt_digit(second) || (second == Some('.') && opt_digit(third))
    } else if first == Some('.') {
        opt_digit(second)
    } else {
        match first {
            Some(v) => digit(v),
            None => false,
        }
    }
}

/// The three-code-point lookahead table deciding whether an ident sequence
/// starts here.
pub open spec fn would_start_ident_at(s: Seq<char>) -> bool {
    let first = peek_at(s, 0);
    let second = peek_at(s, 1);
    let third = peek_at(s, 2);
    if first == Some('-') {
        (match second {
            Some(v) => ident_start(v) || v == '-',
            None => false,
        }) || valid_escape_opt(second, third)
    } else if first == Some('\u{005c}') {
        valid_escape_opt(first, second)
    } else {
        match first {
            Some(v) => ident_start(v),
            None => false,
        }
    }
}

// ---------------------------------------------------------------------------
// Runs of code points
// ---------------------------------------------------------------------------
/// The longest prefix made of digits.
pub open spec fn take_digits(s: Seq<char>) -> Seq<char>
    decreases s.len(),
{
    if s.len() > 0 && digit(s[0]) {
        seq![s[0]] + take_digits(s.drop_first())
    } else {
        Seq::empty()
    }
}

/// What remains after the longest digit prefix.
pub open spec fn digits_after(s: Seq<char>) -> Seq<char> {
    s.skip(take_digits(s).len() as int)
}

pub proof fn lemma_take_digits(s: Seq<char>)
    ensures
        take_digits(s).len() <= s.len(),
        take_digits(s) == s.take(take_digits(s).len() as int),
        forall|i: int| 0 <= i < take_digits(s).len() ==> digit(s[i]),
        digits_after(s).len() == s.len() - take_digits(s).len(),
        digits_after(s).len() > 0 ==> !digit(digits_after(s)[0]),
    decreases s.len(),
{
    if s.len() > 0 && digit(s[0]) {
        lemma_take_digits(s.drop_first());
        assert(take_digits(s) =~= s.take(take_digits(s).len() as int));
        assert forall|i: int| 0 <= i < take_digits(s).len() implies digit(s[i]) by {
            if i >= 1 {
                assert(s[i] == s.drop_first()[i - 1]);
            }
        }
        assert(digits_after(s) =~= digits_after(s.drop_first()));
    } else {
        assert(take_digits(s) =~= s.take(0));
        assert(digits_after(s) =~= s);
    }
}

/// What remains after the longest whitespace prefix.
pub open spec fn skip_ws(s: Seq<char>) -> Seq<char>
    decreases s.len(),
{
    if s.len() > 0 && whitespace(s[0]) {
        skip_ws(s.drop_first())
    } else {
        s
    }
}

pub proof fn lemma_skip_ws(s: Seq<char>)
    ensures
        skip_ws(s).len() <= s.len(),
        s.len() > 0 && whitespace(s[0]) ==> skip_ws(s).len() < s.len(),
    decreases s.len(),
{
    if s.len() > 0 && whitespace(s[0]) {
        lemma_skip_ws(s.drop_first());
    }
}

/// Drops leading code points while the next two are both whitespace, as the
/// lookahead before a URL argument does: at most one leading whitespace code
/// point is left in place.
pub open spec fn skip_ws_pairs(s: Seq<char>) -> Seq<char>
    decreases s.len(),
{
    if s.len() >= 2 && whitespace(s[0]) && whitespace(s[1]) {
        skip_ws_pairs(s.drop_first())
    } else {
        s
    }
}

pub proof fn lemma_skip_ws_pairs(s: Seq<char>)
    ensures
        skip_ws_pairs(s).len() <= s.len(),
    decreases s.len(),
{
    if s.len() >= 2 && whitespace(s[0]) && whitespace(s[1]) {
        lemma_skip_ws_pairs(s.drop_first());
    }
}

/// The longest prefix of hex digits, capped at `max`.
pub open spec fn take_hex(s: Seq<char>, max: nat) -> Seq<char>
    decreases max,
{
    if max == 0 || s.len() == 0 || !hex_digit(s[0]) {
        Seq::empty()
    } else {
        seq![s[0]] + take_hex(s.drop_first(), (max - 1) as nat)
    }
}

pub proof fn lemma_take_hex(s: Seq<char>, max: nat)
    ensures
        take_hex(s, max).len() <= s.len(),
        take_hex(s, max).len() <= max,
        take_hex(s, max) == s.take(take_hex(s, max).len() as int),
        forall|i: int| 0 <= i < take_hex(s, max).len() ==> hex_digit(s[i]),
    decreases max,
{
    if max == 0 || s.len() == 0 || !hex_digit(s[0]) {
        assert(take_hex(s, max) =~= s.take(0));
    } else {
        lemma_take_hex(s.drop_first(), (max - 1) as nat);
        assert(take_hex(s, max) =~= s.take(take_hex(s, max).len() as int));
        assert forall|i: int| 0 <= i < take_hex(s, max).len() implies hex_digit(s[i]) by {
            if i >= 1 {
                assert(s[i] == s.drop_first()[i - 1]);
            }
        }
    }
}

// ---------------------------------------------------------------------------
// Escapes
// ---------------------------------------------------------------------------
/// The base-16 value of a run of hex digits.
pub open spec fn hex_run_value(digits: Seq<char>) -> nat
    decreases digits.len(),
{
    if digits.len() == 0 {
        0
    } else {
        hex_run_value(digits.drop_last()) * 16 + hex_value(digits.last())
    }
}

/// 16 to the power `n`.
pub open spec fn pow16(n: nat) -> nat
    decreases n,
{
    if n == 0 {
        1nat
    } else {
        16 * pow16((n - 1) as nat)
    }
}

pub proof fn lemma_hex_run_value_bound(digits: Seq<char>)
    requires
        forall|i: int| 0 <= i < digits.len() ==> hex_digit(digits[i]),
    ensures
        hex_run_value(digits) < pow16(digits.len()),
    decreases digits.len(),
{
    if digits.len() > 0 {
        lemma_hex_run_value_bound(digits.drop_last());
        assert(hex_digit(digits.last()));
        assert(hex_value(digits.last()) <= 15);
    }
}

/// An escaped value of zero, a surrogate, or a value above U+10FFFF is
/// replaced by U+FFFD.
pub open spec fn needs_replacement(v: nat) -> bool {
    v == 0 || (0xd800 <= v <= 0xdfff) || v > 0x10ffff
}

pub open spec fn escape_char_of(v: nat) -> char {
    if needs_replacement(v) {
        '\u{fffd}'
    } else {
        v as char
    }
}

/// What consuming an escaped code point does, with the U+005C already
/// consumed: end of input yields U+FFFD with a parse error; a hex digit
/// starts a run of at most six hex digits, one following whitespace code
/// point is consumed, and the run's value names the code point (or U+FFFD
/// when it is not a scalar value); anything else is returned as it stands.
pub open spec fn consume_escape(s: Seq<char>) -> EscStep {
    if s.len() == 0 {
        EscStep { code: '\u{fffd}', rest: s, err: true }
    } else if !hex_digit(s[0]) {
        EscStep { code: s[0], rest: s.drop_first(), err: false }
    } else {
        let digits = take_hex(s, 6);
        let after = s.skip(digits.len() as int);
        let rest = if after.len() > 0 && whitespace(after[0]) {
            after.drop_first()
        } else {
            after
        };
        EscStep { code: escape_char_of(hex_run_value(digits)), rest, err: false }
    }
}

/// Result of consuming one escaped code point.
pub struct EscStep {
    pub code: char,
    pub rest: Seq<char>,
    pub err: bool,
}

pub proof fn lemma_consume_escape_len(s: Seq<char>)
    ensures
        consume_escape(s).rest.len() <= s.len(),
        s.len() > 0 ==> consume_escape(s).rest.len() < s.len(),
{
    if s.len() > 0 && hex_digit(s[0]) {
        lemma_take_hex(s, 6);
    }
}

} // verus!

verus! {

// ---------------------------------------------------------------------------
// Ident sequences
// ---------------------------------------------------------------------------
/// Result of consuming an ident sequence.
pub struct IdentStep {
    pub value: Seq<char>,
    pub rest: Seq<char>,
    pub err: bool,
}

/// Consuming an ident sequence appends ident code points, resolves valid
/// escapes (a U+005C at end of input counts as one and yields U+FFFD with a
/// parse error), and stops at the first code point that is neither.
pub open spec fn consume_ident(s: Seq<char>, acc: Seq<char>, err: bool) -> IdentStep
    decreases s.len(),
    via consume_ident_decreases
{
    if s.len() > 0 && ident_char(s[0]) {
        consume_ident(s.drop_first(), acc.push(s[0]), err)
    } else if s.len() > 0 && s[0] == '\u{005c}' && (s.len() == 1 || s[1] != '\u{000a}') {
        let e = consume_escape(s.drop_first());
        consume_ident(e.rest, acc.push(e.code), err || e.err)
    } else {
        IdentStep { value: acc, rest: s, err }
    }
}

#[via_fn]
proof fn consume_ident_decreases(s: Seq<char>, acc: Seq<char>, err: bool) {
    if s.len() > 0 {
        lemma_consume_escape_len(s.drop_first());
    }
}

pub proof fn lemma_consume_ident_len(s: Seq<char>, acc: Seq<char>, err: bool)
    ensures
        consume_ident(s, acc, err).rest.len() <= s.len(),
        s.len() > 0 && (ident_char(s[0]) || s[0] == '\u{005c}' && (s.len() == 1 || s[1]
            != '\u{000a}')) ==> consume_ident(s, acc, err).rest.len() < s.len(),
    decreases s.len(),
{
    if s.len() > 0 && ident_char(s[0]) {
        lemma_consume_ident_len(s.drop_first(), acc.push(s[0]), err);
    } else if s.len() > 0 && s[0] == '\u{005c}' && (s.len() == 1 || s[1] != '\u{000a}') {
        let e = consume_escape(s.drop_first());
        lemma_consume_escape_len(s.drop_first());
        lemma_consume_ident_len(e.rest, acc.push(e.code), err || e.err);
    }
}

// ---------------------------------------------------------------------------
// String tokens
// ---------------------------------------------------------------------------
/// Result of consuming one token.
pub struct TokStep {
    pub token: TokenView,
    pub rest: Seq<char>,
    pub err: bool,
}

/// Consuming a string token bounded by `quote`, with the opening quote
/// already consumed: the quote ends it, end of input ends it with a parse
/// error, a bare newline is left in the input and yields a bad-string token,
/// a U+005C before end of input is dropped, before a newline it consumes the
/// newline (a line continuation), and before anything else it resolves an
/// escape; all other code points join the value.
pub open spec fn consume_string(s: Seq<char>, quote: char, acc: Seq<char>, err: bool) -> TokStep
    decreases s.len(),
    via consume_string_decreases
{
    if s.len() == 0 {
        TokStep { token: TokenView::Str { string: acc }, rest: s, err: true }
    } else if s[0] == quote {
        TokStep { token: TokenView::Str { string: acc }, rest: s.drop_first(), err }
    } else if s[0] == '\u{000a}' {
        TokStep { token: TokenView::BadStr, rest: s, err: true }
    } else if s[0] == '\u{005c}' {
        if s.len() == 1 {
            consume_string(s.drop_first(), quote, acc, err)
        } else if s[1] == '\u{000a}' {
            consume_string(s.skip(2), quote, acc, err)
        } else {
            let e = consume_escape(s.drop_first());
            consume_string(e.rest, quote, acc.push(e.code), err || e.err)
        }
    } else {
        consume_string(s.drop_first(), quote, acc.push(s[0]), err)
    }
}

#[via_fn]
proof fn consume_string_decreases(s: Seq<char>, quote: char, acc: Seq<char>, err: bool) {
    if s.len() > 0 {
        lemma_consume_escape_len(s.drop_first());
    }
}

pub proof fn lemma_consume_string_len(s: Seq<char>, quote: char, acc: Seq<char>, err: bool)
    ensures
        consume_string(s, quote, acc, err).rest.len() <= s.len(),
    decreases s.len(),
{
    if s.len() == 0 || s[0] == quote || s[0] == '\u{000a}' {
    } else if s[0] == '\u{005c}' {
        if s.len() == 1 {
            lemma_consume_string_len(s.drop_first(), quote, acc, err);
        } else if s[1] == '\u{000a}' {
            lemma_consume_string_len(s.skip(2), quote, acc, err);
        } else {
            let e = consume_escape(s.drop_first());
            lemma_consume_escape_len(s.drop_first());
            lemma_consume_string_len(e.rest, quote, acc.push(e.code), err || e.err);
        }
    } else {
        lemma_consume_string_len(s.drop_first(), quote, acc.push(s[0]), err);
    }
}

// ---------------------------------------------------------------------------
// URL tokens
// ---------------------------------------------------------------------------
/// Result of discarding code points, or of skipping comments.
pub struct SkipStep {
    pub rest: Seq<char>,
    pub err: bool,
}

/// Discarding the remnants of a bad URL: code points are dropped until a
/// U+0029 is consumed or the input ends; a valid escape is resolved and
/// dropped whole, so an escaped U+0029 does not end the recovery.
pub open spec fn bad_url_remnants(s: Seq<char>) -> SkipStep
    decreases s.len(),
    via bad_url_remnants_decreases
{
    if s.len() == 0 {
        SkipStep { rest: s, err: false }
    } else if s[0] == '\u{0029}' {
        SkipStep { rest: s.drop_first(), err: false }
    } else if s[0] == '\u{005c}' && (s.len() == 1 || s[1] != '\u{000a}') {
        let e = consume_escape(s.drop_first());
        let r = bad_url_remnants(e.rest);
        SkipStep { rest: r.rest, err: e.err || r.err }
    } else {
        bad_url_remnants(s.drop_first())
    }
}

#[via_fn]
proof fn bad_url_remnants_decreases(s: Seq<char>) {
    if s.len() > 0 {
        lemma_consume_escape_len(s.drop_first());
    }
}

pub proof fn lemma_bad_url_remnants_len(s: Seq<char>)
    ensures
        bad_url_remnants(s).rest.len() <= s.len(),
    decreases s.len(),
{
    if s.len() == 0 || s[0] == '\u{0029}' {
    } else if s[0] == '\u{005c}' && (s.len() == 1 || s[1] != '\u{000a}') {
        let e = consume_escape(s.drop_first());
        lemma_consume_escape_len(s.drop_first());
        lemma_bad_url_remnants_len(e.rest);
    } else {
        lemma_bad_url_remnants_len(s.drop_first());
    }
}

/// The repeating part of consuming a URL token, after leading whitespace:
/// U+0029 ends it, end of input ends it with a parse error, inner whitespace
/// is skipped and must be followed by U+0029 or end of input (else the bad
/// URL recovery runs), a quote, U+0028 or a non-printable code point starts
/// the recovery, a valid escape is resolved into the value, an invalid one
/// starts the recovery, and every other code point joins the value.
pub open spec fn url_loop(s: Seq<char>, acc: Seq<char>, err: bool) -> TokStep
    decreases s.len(),
    via url_loop_decreases
{
    if s.len() == 0 {
        TokStep { token: TokenView::Url { value: acc }, rest: s, err: true }
    } else if s[0] == '\u{0029}' {
        TokStep { token: TokenView::Url { value: acc }, rest: s.drop_first(), err }
    } else if whitespace(s[0]) {
        let s2 = skip_ws(s.drop_first());
        if s2.len() == 0 {
            TokStep { token: TokenView::Url { value: acc }, rest: s2, err: true }
        } else if s2[0] == '\u{0029}' {
            TokStep { token: TokenView::Url { value: acc }, rest: s2.drop_first(), err }
        } else {
            TokStep { token: TokenView::BadUrl, rest: bad_url_remnants(s2).rest, err: true }
        }
    } else if s[0] == '\u{0022}' || s[0] == '\u{0027}' || s[0] == '\u{0028}' || non_printable(
        s[0],
    ) {
        TokStep { token: TokenView::BadUrl, rest: bad_url_remnants(s.drop_first()).rest, err: true }
    } else if s[0] == '\u{005c}' {
        if s.len() >= 2 && s[1] != '\u{000a}' {
            let e = consume_escape(s.drop_first());
            url_loop(e.rest, acc.push(e.code), err || e.err)
        } else {
            TokStep {
                token: TokenView::BadUrl,
                rest: bad_url_remnants(s.drop_first()).rest,
                err: true,
            }
        }
    } else {
        url_loop(s.drop_first(), acc.push(s[0]), err)
    }
}

#[via_fn]
proof fn url_loop_decreases(s: Seq<char>, acc: Seq<char>, err: bool) {
    if s.len() > 0 {
        lemma_consume_escape_len(s.drop_first());
    }
}

pub proof fn lemma_url_loop_len(s: Seq<char>, acc: Seq<char>, err: bool)
    ensures
        url_loop(s, acc, err).rest.len() <= s.len(),
    decreases s.len(),
{
    if s.len() == 0 || s[0] == '\u{0029}' {
    } else if whitespace(s[0]) {
        lemma_skip_ws(s.drop_first());
        lemma_bad_url_remnants_len(skip_ws(s.drop_first()));
    } else if s[0] == '\u{0022}' || s[0] == '\u{0027}' || s[0] == '\u{0028}' || non_printable(
        s[0],
    ) {
        lemma_bad_url_remnants_len(s.drop_first());
    } else if s[0] == '\u{005c}' {
        if s.len() >= 2 && s[1] != '\u{000a}' {
            let e = consume_escape(s.drop_first());
            lemma_consume_escape_len(s.drop_first());
            lemma_url_loop_len(e.rest, acc.push(e.code), err || e.err);
        } else {
            lemma_bad_url_remnants_len(s.drop_first());
        }
    } else {
        lemma_url_loop_len(s.drop_first(), acc.push(s[0]), err);
    }
}

/// Consuming a URL token: leading whitespace is skipped, then the body runs.
pub open spec fn consume_url(s: Seq<char>, err: bool) -> TokStep {
    url_loop(skip_ws(s), Seq::empty(), err)
}

pub proof fn lemma_consume_url_len(s: Seq<char>, err: bool)
    ensures
        consume_url(s, err).rest.len() <= s.len(),
{
    lemma_skip_ws(s);
    lemma_url_loop_len(skip_ws(s), Seq::empty(), err);
}

// ---------------------------------------------------------------------------
// Ident-like tokens
// ---------------------------------------------------------------------------
/// An ASCII case-insensitive match for "url".
pub open spec fn is_url_name(name: Seq<char>) -> bool {
    name.len() == 3 && (name[0] == 'u' || name[0] == 'U') && (name[1] == 'r' || name[1] == 'R')
        && (name[2] == 'l' || name[2] == 'L')
}

pub open spec fn opt_quote(c: Option<char>) -> bool {
    c == Some('\u{0022}') || c == Some('\u{0027}')
}

pub open spec fn opt_whitespace(c: Option<char>) -> bool {
    match c {
        Some(v) => whitespace(v),
        None => false,
    }
}

/// Consuming an ident-like token: an ident sequence is consumed; a name that
/// matches "url" followed directly by U+0028 starts a URL token unless the
/// argument (after pairwise whitespace skipping) opens with a quote,
/// optionally preceded by one whitespace code point, which keeps it a
/// function token; any other name followed directly by U+0028 is a function
/// token; everything else is an ident token.
pub open spec fn consume_ident_like(s: Seq<char>, err: bool) -> TokStep {
    let i = consume_ident(s, Seq::empty(), err);
    if is_url_name(i.value) && peek_at(i.rest, 0) == Some('\u{0028}') {
        let s2 = skip_ws_pairs(i.rest.drop_first());
        if opt_quote(peek_at(s2, 0)) || (opt_whitespace(peek_at(s2, 0)) && opt_quote(
            peek_at(s2, 1),
        )) {
            TokStep { token: TokenView::Function { value: i.value }, rest: s2, err: i.err }
        } else {
            consume_url(s2, i.err)
        }
    } else if peek_at(i.rest, 0) == Some('\u{0028}') {
        TokStep {
            token: TokenView::Function { value: i.value },
            rest: i.rest.drop_first(),
            err: i.err,
        }
    } else {
        TokStep { token: TokenView::Ident { value: i.value }, rest: i.rest, err: i.err }
    }
}

pub proof fn lemma_consume_ident_like_len(s: Seq<char>, err: bool)
    ensures
        consume_ident_like(s, err).rest.len() <= s.len(),
        s.len() > 0 && (ident_char(s[0]) || would_start_ident_at(s)) ==> consume_ident_like(
            s,
            err,
        ).rest.len() < s.len(),
{
    lemma_consume_ident_len(s, Seq::empty(), err);
    let i = consume_ident(s, Seq::empty(), err);
    if is_url_name(i.value) && peek_at(i.rest, 0) == Some('\u{0028}') {
        lemma_skip_ws_pairs(i.rest.drop_first());
        let s2 = skip_ws_pairs(i.rest.drop_first());
        lemma_consume_url_len(s2, i.err);
    }
}

} // verus!

verus! {

// ---------------------------------------------------------------------------
// Numbers
// ---------------------------------------------------------------------------
/// The text scanned for a number, what follows it, and the number's type
/// flag.
pub struct NumScan {
    pub repr: Seq<char>,
    pub rest: Seq<char>,
    pub kind: NumberType,
}

/// Scanning a number: an optional sign, a digit run, an optional U+002E
/// followed by a digit and the digits after it, and an optional exponent
/// marker with an optional sign and a required digit; the type flag is
/// `Number` exactly when a fraction or an exponent was scanned.
pub open spec fn scan_number(s: Seq<char>) -> NumScan {
    let sgn: Seq<char> = if s.len() > 0 && sign(s[0]) {
        seq![s[0]]
    } else {
        Seq::empty()
    };
    let s1 = s.skip(sgn.len() as int);
    let int_part = take_digits(s1);
    let s2 = digits_after(s1);
    let has_frac = s2.len() >= 2 && s2[0] == '.' && digit(s2[1]);
    let frac_part: Seq<char> = if has_frac {
        seq!['.'] + take_digits(s2.drop_first())
    } else {
        Seq::empty()
    };
    let s3 = if has_frac {
        digits_after(s2.drop_first())
    } else {
        s2
    };
    let exp2 = s3.len() >= 2 && e_marker(s3[0]) && digit(s3[1]);
    let exp3 = s3.len() >= 3 && e_marker(s3[0]) && sign(s3[1]) && digit(s3[2]);
    let exp_part: Seq<char> = if exp2 {
        seq![s3[0]] + take_digits(s3.drop_first())
    } else if exp3 {
        seq![s3[0], s3[1]] + take_digits(s3.skip(2))
    } else {
        Seq::empty()
    };
    let rest = if exp2 {
        digits_after(s3.drop_first())
    } else if exp3 {
        digits_after(s3.skip(2))
    } else {
        s3
    };
    NumScan {
        repr: sgn + int_part + frac_part + exp_part,
        rest,
        kind: if has_frac || exp2 || exp3 {
            NumberType::Number
        } else {
            NumberType::Integer
        },
    }
}

/// The greedy seven-component split of a string into sign, integer digits,
/// decimal point, fraction digits, exponent marker, exponent sign and
/// exponent digits; anything after the split is ignored, and absent digit
/// runs are empty.
pub open spec fn split_number(s: Seq<char>) -> NumericView {
    let neg = s.len() > 0 && s[0] == '-';
    let s1 = if s.len() > 0 && sign(s[0]) {
        s.drop_first()
    } else {
        s
    };
    let int_part = take_digits(s1);
    let s2 = digits_after(s1);
    let s3 = if s2.len() > 0 && s2[0] == '.' {
        s2.drop_first()
    } else {
        s2
    };
    let frac = take_digits(s3);
    let s4 = digits_after(s3);
    let s5 = if s4.len() > 0 && e_marker(s4[0]) {
        s4.drop_first()
    } else {
        s4
    };
    let eneg = s5.len() > 0 && s5[0] == '-';
    let s6 = if s5.len() > 0 && sign(s5[0]) {
        s5.drop_first()
    } else {
        s5
    };
    NumericView {
        negative: neg,
        integer: int_part,
        fraction: frac,
        exponent_negative: eneg,
        exponent: take_digits(s6),
    }
}

pub proof fn lemma_scan_number(s: Seq<char>)
    ensures
        scan_number(s).repr.len() + scan_number(s).rest.len() == s.len(),
        would_start_number_at(s) ==> scan_number(s).repr.len() >= 1,
        s.len() > 0 && sign(s[0]) ==> scan_number(s).repr.len() >= 1,
{
    let sgn: Seq<char> = if s.len() > 0 && sign(s[0]) {
        seq![s[0]]
    } else {
        Seq::empty()
    };
    let s1 = s.skip(sgn.len() as int);
    lemma_take_digits(s1);
    let s2 = digits_after(s1);
    let has_frac = s2.len() >= 2 && s2[0] == '.' && digit(s2[1]);
    if has_frac {
        lemma_take_digits(s2.drop_first());
    }
    let s3 = if has_frac {
        digits_after(s2.drop_first())
    } else {
        s2
    };
    lemma_take_digits(s3.drop_first());
    if s3.len() >= 2 {
        lemma_take_digits(s3.skip(2));
    }
    if would_start_number_at(s) && !(s.len() > 0 && sign(s[0])) && s.len() > 0 && s[0] == '.' {
        assert(s1 =~= s);
        assert(take_digits(s) == Seq::<char>::empty());
        assert(s2 =~= s);
        assert(has_frac);
    }
}

// ---------------------------------------------------------------------------
// Comments
// ---------------------------------------------------------------------------
/// Skipping comments: whenever the input opens with U+002F U+002A, everything
/// through the first U+002A U+002F is dropped and the skipping repeats;
/// an unclosed comment is dropped whole with a parse error.
pub open spec fn skip_comments(s: Seq<char>) -> SkipStep
    decreases s.len(), 1int,
{
    if s.len() >= 2 && s[0] == '\u{002f}' && s[1] == '\u{002a}' {
        comment_body(s.skip(2))
    } else {
        SkipStep { rest: s, err: false }
    }
}

/// The inside of a comment: code points are dropped until U+002A U+002F,
/// which closes it; an input that ends first is consumed whole with a parse
/// error.
pub open spec fn comment_body(s: Seq<char>) -> SkipStep
    decreases s.len(), 0int,
{
    if s.len() >= 2 && s[0] == '\u{002a}' && s[1] == '\u{002f}' {
        skip_comments(s.skip(2))
    } else if s.len() == 0 {
        SkipStep { rest: s, err: true }
    } else {
        comment_body(s.drop_first())
    }
}

pub proof fn lemma_skip_comments_len(s: Seq<char>)
    ensures
        skip_comments(s).rest.len() <= s.len(),
    decreases s.len(), 1int,
{
    if s.len() >= 2 && s[0] == '\u{002f}' && s[1] == '\u{002a}' {
        lemma_comment_body_len(s.skip(2));
    }
}

pub proof fn lemma_comment_body_len(s: Seq<char>)
    ensures
        comment_body(s).rest.len() <= s.len(),
    decreases s.len(), 0int,
{
    if s.len() >= 2 && s[0] == '\u{002a}' && s[1] == '\u{002f}' {
        lemma_skip_comments_len(s.skip(2));
    } else if s.len() > 0 {
        lemma_comment_body_len(s.drop_first());
    }
}

} // verus!

verus! {

// ---------------------------------------------------------------------------
// Numeric tokens
// ---------------------------------------------------------------------------
/// Consuming a numeric token: a number is scanned and converted; an ident
/// sequence right after it makes a dimension token with that unit, a U+0025
/// makes a percentage token, and anything else leaves a number token.
pub open spec fn consume_numeric(s: Seq<char>, err: bool) -> TokStep {
    let n = scan_number(s);
    let v = split_number(n.repr);
    if would_start_ident_at(n.rest) {
        let i = consume_ident(n.rest, Seq::empty(), err);
        TokStep {
            token: TokenView::Dim { flag: n.kind, value: v, unit: i.value },
            rest: i.rest,
            err: i.err,
        }
    } else if peek_at(n.rest, 0) == Some('%') {
        TokStep {
            token: TokenView::Percent { flag: n.kind, value: v },
            rest: n.rest.drop_first(),
            err,
        }
    } else {
        TokStep { token: TokenView::Num { flag: n.kind, value: v }, rest: n.rest, err }
    }
}

pub proof fn lemma_consume_numeric_len(s: Seq<char>, err: bool)
    ensures
        consume_numeric(s, err).rest.len() <= s.len(),
        would_start_number_at(s) ==> consume_numeric(s, err).rest.len() < s.len(),
{
    lemma_scan_number(s);
    let n = scan_number(s);
    if would_start_ident_at(n.rest) {
        lemma_consume_ident_len(n.rest, Seq::empty(), err);
        lemma_consume_ident_like_len(n.rest, err);
    }
}

// ---------------------------------------------------------------------------
// Token dispatch
// ---------------------------------------------------------------------------
/// Consuming one token: comments are skipped first; end of input yields the
/// end-of-stream token; otherwise the first code point picks the consumer,
/// with the three-code-point lookahead tables deciding the `#`, sign, `.`,
/// `<`, `@` and `\` cases; a code point that fits nothing is a delimiter.
pub open spec fn next_token(s: Seq<char>, err: bool) -> TokStep {
    let k = skip_comments(s);
    let s1 = k.rest;
    let e1 = err || k.err;
    if s1.len() == 0 {
        TokStep { token: TokenView::EOF, rest: s1, err: e1 }
    } else {
        let c = s1[0];
        let t = s1.drop_first();
        if whitespace(c) {
            TokStep { token: TokenView::Whitespace, rest: skip_ws(t), err: e1 }
        } else if c == '\u{0022}' || c == '\u{0027}' {
            consume_string(t, c, Seq::empty(), e1)
        } else if c == '\u{0023}' {
            if opt_ident_char(peek_at(t, 0)) || valid_escape_opt(peek_at(t, 0), peek_at(t, 1)) {
                let flag = if would_start_ident_at(t) {
                    HashTokenFlag::Id
                } else {
                    HashTokenFlag::Unrestricted
                };
                let i = consume_ident(t, Seq::empty(), e1);
                TokStep { token: TokenView::Hash { flag, value: i.value }, rest: i.rest, err: i.err }
            } else {
                TokStep { token: TokenView::Delim { value: c }, rest: t, err: e1 }
            }
        } else if c == '\u{0028}' {
            TokStep { token: TokenView::LeftParen, rest: t, err: e1 }
        } else if c == '\u{0029}' {
            TokStep { token: TokenView::RightParen, rest: t, err: e1 }
        } else if c == '+' {
            if would_start_number_at(t) {
                consume_numeric(s1, e1)
            } else {
                TokStep { token: TokenView::Delim { value: c }, rest: t, err: e1 }
            }
        } else if c == ',' {
            TokStep { token: TokenView::Comma, rest: t, err: e1 }
        } else if c == '-' {
            if would_start_number_at(t) {
                consume_numeric(s1, e1)
            } else if peek_at(t, 0) == Some('-') && peek_at(t, 1) == Some('>') {
                TokStep { token: TokenView::CDC, rest: t.skip(2), err: e1 }
            } else if would_start_ident_at(t) {
                consume_ident_like(s1, e1)
            } else {
                TokStep { token: TokenView::Delim { value: c }, rest: t, err: e1 }
            }
        } else if c == '.' {
            if would_start_number_at(s1) {
                consume_numeric(s1, e1)
            } else {
                TokStep { token: TokenView::Delim { value: c }, rest: t, err: e1 }
            }
        } else if c == ':' {
            TokStep { token: TokenView::Colon, rest: t, err: e1 }
        } else if c == ';' {
            TokStep { token: TokenView::Semicolon, rest: t, err: e1 }
        } else if c == '<' {
            if peek_at(t, 0) == Some('!') && peek_at(t, 1) == Some('-') && peek_at(t, 2) == Some(
                '-',
            ) {
                TokStep { token: TokenView::CDO, rest: t.skip(3), err: e1 }
            } else {
                TokStep { token: TokenView::Delim { value: c }, rest: t, err: e1 }
            }
        } else if c == '\u{0040}' {
            if would_start_ident_at(t) {
                let i = consume_ident(t, Seq::empty(), e1);
                TokStep { token: TokenView::AtKeyword { value: i.value }, rest: i.rest, err: i.err }
            } else {
                TokStep { token: TokenView::Delim { value: c }, rest: t, err: e1 }
            }
        } else if c == '\u{005b}' {
            TokStep { token: TokenView::LeftSquare, rest: t, err: e1 }
        } else if c == '\u{005c}' {
            if t.len() > 0 && t[0] != '\u{000a}' {
                consume_ident_like(s1, e1)
            } else {
                TokStep { token: TokenView::Delim { value: c }, rest: t, err: true }
            }
        } else if c == '\u{005d}' {
            TokStep { token: TokenView::RightSquare, rest: t, err: e1 }
        } else if c == '\u{007b}' {
            TokStep { token: TokenView::LeftCurly, rest: t, err: e1 }
        } else if c == '\u{007d}' {
            TokStep { token: TokenView::RightCurly, rest: t, err: e1 }
        } else if digit(c) {
            consume_numeric(s1, e1)
        } else if ident_start(c) {
            consume_ident_like(s1, e1)
        } else {
            TokStep { token: TokenView::Delim { value: c }, rest: t, err: e1 }
        }
    }
}

/// Consuming a token always leaves a shorter input unless it produced the
/// end-of-stream token, and never grows it.
pub proof fn lemma_next_token_progress(s: Seq<char>, err: bool)
    ensures
        next_token(s, err).rest.len() <= s.len(),
        !(next_token(s, err).token is EOF) ==> next_token(s, err).rest.len() < s.len(),
{
    lemma_skip_comments_len(s);
    let s1 = skip_comments(s).rest;
    if s1.len() > 0 {
        let c = s1[0];
        let t = s1.drop_first();
        lemma_skip_ws(t);
        lemma_consume_string_len(t, c, Seq::empty(), err || skip_comments(s).err);
        lemma_consume_ident_len(t, Seq::empty(), err || skip_comments(s).err);
        lemma_consume_numeric_len(s1, err || skip_comments(s).err);
        lemma_consume_ident_like_len(s1, err || skip_comments(s).err);
    }
}

// ---------------------------------------------------------------------------
// Tokenization
// ---------------------------------------------------------------------------
/// The token sequence of an input, and whether scanning it raised a parse
/// error.
pub struct TokenizeResult {
    pub tokens: Seq<TokenView>,
    pub err: bool,
}

/// Tokenizing an input: tokens are consumed until the end-of-stream token,
/// which closes the sequence.
pub open spec fn tokenize_from(s: Seq<char>, err: bool) -> TokenizeResult
    decreases s.len(),
    via tokenize_from_decreases
{
    let t = next_token(s, err);
    if t.token is EOF {
        TokenizeResult { tokens: seq![TokenView::EOF], err: t.err }
    } else {
        let r = tokenize_from(t.rest, t.err);
        TokenizeResult { tokens: seq![t.token] + r.tokens, err: r.err }
    }
}

#[via_fn]
proof fn tokenize_from_decreases(s: Seq<char>, err: bool) {
    lemma_next_token_progress(s, err);
}

/// The token sequence of every input is finite, closes with exactly one
/// end-of-stream token, and holds that token nowhere else.
pub proof fn lemma_tokenize_shape(s: Seq<char>, err: bool)
    ensures
        tokenize_from(s, err).tokens.len() >= 1,
        tokenize_from(s, err).tokens.last() is EOF,
        forall|i: int|
            0 <= i < tokenize_from(s, err).tokens.len() - 1 ==> !(tokenize_from(
                s,
                err,
            ).tokens[i] is EOF),
    decreases s.len(),
{
    lemma_next_token_progress(s, err);
    let t = next_token(s, err);
    if !(t.token is EOF) {
        lemma_tokenize_shape(t.rest, t.err);
    }
}

} // verus!

verus! {

/// One step of a digit run: a leading digit joins the run, and what follows
/// the run is unchanged.
pub proof fn lemma_take_digits_step(s: Seq<char>)
    requires
        s.len() > 0,
        digit(s[0]),
    ensures
        take_digits(s) == seq![s[0]] + take_digits(s.drop_first()),
        digits_after(s) == digits_after(s.drop_first()),
{
    lemma_take_digits(s.drop_first());
    assert(digits_after(s) =~= digits_after(s.drop_first()));
}

/// The value of a hex digit run never exceeds the value of a longer run it
/// opens.
pub proof fn lemma_hex_run_prefix_le(s: Seq<char>, i: int)
    requires
        0 <= i <= s.len(),
    ensures
        hex_run_value(s.take(i)) <= hex_run_value(s),
    decreases s.len() - i,
{
    if i < s.len() {
        lemma_hex_run_prefix_le(s, i + 1);
        assert(s.take(i + 1).drop_last() =~= s.take(i));
        assert(hex_run_value(s.take(i + 1)) == hex_run_value(s.take(i)) * 16 + hex_value(
            s.take(i + 1).last(),
        ));
    } else {
        assert(s.take(i) =~= s);
    }
}

/// `pow16` grows with its argument.
pub proof fn lemma_pow16_le(a: nat, b: nat)
    requires
        a <= b,
    ensures
        pow16(a) <= pow16(b),
    decreases b,
{
    if a < b {
        lemma_pow16_le(a, (b - 1) as nat);
        assert(pow16((b - 1) as nat) >= 1) by {
            lemma_pow16_pos((b - 1) as nat);
        }
    }
}

pub proof fn lemma_pow16_pos(n: nat)
    ensures
        pow16(n) >= 1,
    decreases n,
{
    if n > 0 {
        lemma_pow16_pos((n - 1) as nat);
    }
}

} // verus!
