//! The tokenizer: one `consume a token` dispatcher over a lookahead buffer,
//! with a sub-consumer per token family and a sticky parse-error flag. Every
//! routine is proved to return exactly what its model in `crate::model`
//! describes.
use vstd::prelude::*;

use crate::buffer::PutBackPeekMore;
use crate::model;
use crate::tokens::CSSToken;
use crate::tokens::HashTokenFlag;
use crate::tokens::Number;
use crate::tokens::NumberType;
use crate::tokens::NumericValue;

verus! {

/// The tokenizer state: the lookahead buffer over the input and the sticky
/// parse-error flag, created clear and only ever latched.
pub struct Tokenizer {
    process: PutBackPeekMore,
    parse_error: bool,
}

impl Tokenizer {
    /// The buffer's cursor is in bounds.
    pub closed spec fn wf(&self) -> bool {
        self.process.wf()
    }

    /// The code points not yet consumed.
    pub closed spec fn remaining(&self) -> Seq<char> {
        self.process.remaining()
    }

    /// Whether a parse error was recorded since creation.
    pub closed spec fn error_flag(&self) -> bool {
        self.parse_error
    }

    pub fn new(input: &str) -> (r: Self)
        ensures
            r.wf(),
            r.remaining() == input@,
            !r.error_flag(),
    {
        Tokenizer { process: PutBackPeekMore::new(input), parse_error: false }
    }

    /// Latches the sticky error flag; nothing is consumed.
    pub fn parse_error(&mut self)
        requires
            old(self).wf(),
        ensures
            final(self).wf(),
            final(self).remaining() == old(self).remaining(),
            final(self).error_flag(),
    {
        self.parse_error = true;
    }

    /// Whether any parse error occurred since creation.
    pub fn is_parse_error(&mut self) -> (r: bool)
        ensures
            *final(self) == *old(self),
            r == old(self).error_flag(),
    {
        self.parse_error
    }

    // -----------------------------------------------------------------------
    // Character classifiers
    // -----------------------------------------------------------------------
    pub fn is_digit(input: char) -> (r: bool)
        ensures
            r == model::digit(input),
    {
        let v: u32 = input as u32;
        0x30 <= v && v <= 0x39
    }

    pub fn is_hex_digit(input: char) -> (r: bool)
        ensures
            r == model::hex_digit(input),
    {
        let v: u32 = input as u32;
        Self::is_digit(input) || (0x41 <= v && v <= 0x46) || (0x61 <= v && v <= 0x66)
    }

    pub fn is_uppercase_letter(input: char) -> (r: bool)
        ensures
            r == model::uppercase_letter(input),
    {
        let v: u32 = input as u32;
        0x41 <= v && v <= 0x5a
    }

    pub fn is_lowercase_letter(input: char) -> (r: bool)
        ensures
            r == model::lowercase_letter(input),
    {
        let v: u32 = input as u32;
        0x61 <= v && v <= 0x7a
    }

    pub fn is_letter(input: char) -> (r: bool)
        ensures
            r == model::letter(input),
    {
        Self::is_uppercase_letter(input) || Self::is_lowercase_letter(input)
    }

    pub fn is_none_ascii(input: char) -> (r: bool)
        ensures
            r == model::non_ascii(input),
    {
        let v: u32 = input as u32;
        v >= 0x80
    }

    /// The U+0080 case repeats what the non-ASCII class already grants; it
    /// is kept as a harmless explicit exception.
    pub fn is_ident_start_code_point(input: char) -> (r: bool)
        ensures
            r == model::ident_start(input),
    {
        Self::is_letter(input) || Self::is_none_ascii(input) || input == '\u{005f}' || input
            == '\u{0080}'
    }

    pub fn is_ident_code_point(input: Option<char>) -> (r: bool)
        ensures
            r == model::opt_ident_char(input),
    {
        match input {
            Some(v) => Self::is_ident_start_code_point(v) || Self::is_digit(v) || v == '\u{002d}',
            None => false,
        }
    }

    pub fn is_whitespace(input: char) -> (r: bool)
        ensures
            r == model::whitespace(input),
    {
        input == '\u{000a}' || input == '\u{0009}' || input == '\u{0020}'
    }

    pub fn is_newline(input: char) -> (r: bool)
        ensures
            r == (input == '\u{000a}'),
    {
        input == '\u{000a}'
    }

    pub fn is_none_printable_code_point(input: char) -> (r: bool)
        ensures
            r == model::non_printable(input),
    {
        let v: u32 = input as u32;
        v <= 0x08 || v == 0x0b || (0x0e <= v && v <= 0x1f) || v == 0x7f
    }

    pub fn is_plus_or_minus(input: char) -> (r: bool)
        ensures
            r == model::sign(input),
    {
        input == '\u{002d}' || input == '\u{002b}'
    }

    pub fn is_e(input: char) -> (r: bool)
        ensures
            r == model::e_marker(input),
    {
        input == '\u{0045}' || input == '\u{0065}'
    }

    pub fn is_valid_escape(first: Option<char>, second: Option<char>) -> (r: bool)
        ensures
            r == model::valid_escape_opt(first, second),
    {
        match first {
            Some(f) => {
                if f != '\u{005c}' {
                    false
                } else {
                    match second {
                        Some(s) => s != '\u{000a}',
                        None => true,
                    }
                }
            },
            None => false,
        }
    }

    pub fn max_allowed_code_point() -> (r: u32)
        ensures
            r == 0x10ffff,
    {
        0x10ffff
    }

    pub fn is_leading_surrogate(input: u32) -> (r: bool)
        ensures
            r == (0xd800 <= input <= 0xdbff),
    {
        0xd800 <= input && input <= 0xdbff
    }

    pub fn is_trailing_surrogate(input: u32) -> (r: bool)
        ensures
            r == (0xdc00 <= input <= 0xdfff),
    {
        0xdc00 <= input && input <= 0xdfff
    }

    pub fn is_surrogate(input: u32) -> (r: bool)
        ensures
            r == (0xd800 <= input <= 0xdfff),
    {
        Self::is_leading_surrogate(input) || Self::is_trailing_surrogate(input)
    }

    // -----------------------------------------------------------------------
    // Lookahead
    // -----------------------------------------------------------------------
    /// The next two code points, without consuming.
    pub fn peek_twin(&mut self) -> (r: (Option<char>, Option<char>))
        requires
            old(self).wf(),
        ensures
            *final(self) == *old(self),
            r.0 == model::peek_at(old(self).remaining(), 0),
            r.1 == model::peek_at(old(self).remaining(), 1),
    {
        let peek = self.process.peek_amount(2);
        (peek[0], peek[1])
    }

    /// Whether the next code point is whitespace.
    fn peek_is_whitespace(&self) -> (r: bool)
        requires
            self.wf(),
        ensures
            r == (self.remaining().len() > 0 && model::whitespace(self.remaining()[0])),
    {
        match self.process.peek() {
            Some(v) => Self::is_whitespace(v),
            None => false,
        }
    }

    /// Whether the next code point is a digit.
    fn peek_is_digit(&self) -> (r: bool)
        requires
            self.wf(),
        ensures
            r == (self.remaining().len() > 0 && model::digit(self.remaining()[0])),
    {
        match self.process.peek() {
            Some(v) => Self::is_digit(v),
            None => false,
        }
    }

    /// Consumes the maximal run of whitespace.
    pub fn consume_whitespace(&mut self)
        requires
            old(self).wf(),
        ensures
            final(self).wf(),
            final(self).remaining() == model::skip_ws(old(self).remaining()),
            final(self).error_flag() == old(self).error_flag(),
    {
        let ghost orig = *self;
        while self.peek_is_whitespace()
            invariant
                self.wf(),
                self.error_flag() == orig.error_flag(),
                model::skip_ws(self.remaining()) == model::skip_ws(orig.remaining()),
                orig == *old(self),
            decreases self.remaining().len(),
        {
            self.process.next();
        }
    }

    /// Looks ahead whether a number starts at the next code point.
    pub fn would_start_number(&mut self) -> (r: bool)
        requires
            old(self).wf(),
        ensures
            *final(self) == *old(self),
            r == model::would_start_number_at(old(self).remaining()),
    {
        let peek = self.process.peek_amount(3);
        let first = peek[0];
        if first == Some('\u{002b}') || first == Some('\u{002d}') {
            if let Some(second_val) = peek[1] {
                if Self::is_digit(second_val) {
                    return true;
                }
            }
            if peek[1] == Some('\u{002e}') {
                if let Some(third_val) = peek[2] {
                    if Self::is_digit(third_val) {
                        return true;
                    }
                }
            }
            return false;
        }
        if first == Some('\u{002e}') {
            if let Some(second) = peek[1] {
                if Self::is_digit(second) {
                    return true;
                }
            }
            return false;
        }
        if let Some(v) = first {
            if Self::is_digit(v) {
                return true;
            }
        }
        false
    }

    /// Looks ahead whether an ident sequence starts at the next code point.
    pub fn would_start_ident_sequence(&mut self) -> (r: bool)
        requires
            old(self).wf(),
        ensures
            *final(self) == *old(self),
            r == model::would_start_ident_at(old(self).remaining()),
    {
        let peek = self.process.peek_amount(3);
        let first = peek[0];
        let second = peek[1];
        let third = peek[2];
        if first == Some('\u{002d}') {
            if let Some(v) = second {
                if Self::is_ident_start_code_point(v) || v == '\u{002d}' {
                    return true;
                }
            }
            if Self::is_valid_escape(second, third) {
                return true;
            }
            return false;
        }
        if let Some(v) = first {
            if Self::is_ident_start_code_point(v) {
                return true;
            }
        }
        if first == Some('\u{005c}') {
            return Self::is_valid_escape(first, second);
        }
        false
    }
}

} // verus!

verus! {

impl Tokenizer {
    /// Whether the next code point is a hex digit.
    fn peek_is_hex_digit(&self) -> (r: bool)
        requires
            self.wf(),
        ensures
            r == (self.remaining().len() > 0 && model::hex_digit(self.remaining()[0])),
    {
        match self.process.peek() {
            Some(v) => Self::is_hex_digit(v),
            None => false,
        }
    }

    /// The value of one hex digit.
    fn hex_digit_value(c: char) -> (r: u32)
        requires
            model::hex_digit(c),
        ensures
            r == model::hex_value(c),
    {
        let v: u32 = c as u32;
        if Self::is_digit(c) {
            v - 0x30
        } else if Self::is_uppercase_letter(c) {
            v - 0x37
        } else {
            v - 0x57
        }
    }

    /// Consumes an escaped code point, the U+005C being consumed already: a
    /// run of at most six hex digits (with one following whitespace code
    /// point) names a code point, replaced by U+FFFD when it is zero, a
    /// surrogate or above the greatest code point; end of input is a parse
    /// error giving U+FFFD; any other code point is returned as it stands.
    #[verifier::loop_isolation(false)]
    #[verifier::rlimit(60)]
    pub fn consume_escaped_code_point(&mut self) -> (r: char)
        requires
            old(self).wf(),
        ensures
            final(self).wf(),
            ({
                let e = model::consume_escape(old(self).remaining());
                r == e.code && final(self).remaining() == e.rest && final(self).error_flag() == (
                old(self).error_flag() || e.err)
            }),
    {
        let ghost s = self.remaining();
        let next = self.process.next();
        match next {
            None => {
                self.parse_error = true;
                '\u{fffd}'
            },
            Some(v) => {
                if !Self::is_hex_digit(v) {
                    return v;
                }
                let mut value: u32 = Self::hex_digit_value(v);
                let mut count: usize = 1;
                let ghost mut digs: Seq<char> = seq![v];
                proof {
                    assert(digs.drop_last() =~= Seq::<char>::empty());
                    assert(digs.last() == v);
                    assert(model::hex_run_value(Seq::<char>::empty()) == 0);
                    assert(model::hex_run_value(digs) == model::hex_value(v));
                    assert(model::take_hex(s, 6) == seq![s[0]] + model::take_hex(
                        s.drop_first(),
                        5,
                    ));
                    assert(model::pow16(5) == 0x100000 && model::pow16(6) == 0x1000000) by {
                        reveal_with_fuel(model::pow16, 7);
                    }
                }
                while count < 6 && self.peek_is_hex_digit()
                    invariant
                        self.wf(),
                        self.error_flag() == old(self).error_flag(),
                        1 <= count <= 6,
                        count <= s.len(),
                        digs.len() == count,
                        forall|i: int| 0 <= i < digs.len() ==> model::hex_digit(#[trigger] digs[i]),
                        value == model::hex_run_value(digs),
                        self.remaining() == s.skip(count as int),
                        model::take_hex(s, 6) == digs + model::take_hex(
                            self.remaining(),
                            (6 - count) as nat,
                        ),
                    decreases self.remaining().len(),
                {
                    let ghost rem0 = self.remaining();
                    let c = self.process.next().unwrap();
                    proof {
                        model::lemma_hex_run_value_bound(digs);
                        model::lemma_pow16_le(count as nat, 5);
                        model::lemma_pow16_le((count + 1) as nat, 6);
                        assert(digs.push(c).drop_last() =~= digs);
                        assert(digs.push(c).last() == c);
                        assert(model::take_hex(rem0, (6 - count) as nat) == seq![c]
                            + model::take_hex(rem0.drop_first(), (5 - count) as nat));
                        assert(digs + (seq![c] + model::take_hex(
                            rem0.drop_first(),
                            (5 - count) as nat,
                        )) =~= digs.push(c) + model::take_hex(
                            rem0.drop_first(),
                            (5 - count) as nat,
                        ));
                        assert(count < s.len());
                        assert(rem0.drop_first() =~= s.skip(count as int + 1));
                    }
                    value = value * 16 + Self::hex_digit_value(c);
                    count = count + 1;
                    proof {
                        digs = digs.push(c);
                    }
                }
                proof {
                    assert(model::take_hex(self.remaining(), (6 - count) as nat)
                        =~= Seq::<char>::empty());
                    assert(digs + Seq::<char>::empty() =~= digs);
                    assert(digs == model::take_hex(s, 6));
                }
                if self.peek_is_whitespace() {
                    self.process.next();
                }
                if value == 0 || Self::is_surrogate(value) || value > Self::max_allowed_code_point()
                {
                    return '\u{fffd}';
                }
                let out = char::from_u32(value);
                out.unwrap()
            },
        }
    }
}

} // verus!

verus! {

impl Tokenizer {
    /// Consumes an ident sequence: ident code points are appended, valid
    /// escapes are resolved and appended, and the first code point that is
    /// neither is reconsumed.
    #[verifier::loop_isolation(false)]
    pub fn consume_ident_sequence(&mut self) -> (r: String)
        requires
            old(self).wf(),
        ensures
            final(self).wf(),
            ({
                let i = model::consume_ident(
                    old(self).remaining(),
                    Seq::empty(),
                    old(self).error_flag(),
                );
                r@ == i.value && final(self).remaining() == i.rest && final(self).error_flag()
                    == i.err
            }),
    {
        let mut result = String::new();
        loop
            invariant
                self.wf(),
                model::consume_ident(self.remaining(), result@, self.error_flag())
                    == model::consume_ident(
                    old(self).remaining(),
                    Seq::empty(),
                    old(self).error_flag(),
                ),
            decreases self.remaining().len(),
        {
            let ghost rem0 = self.remaining();
            let next = self.process.next();
            if Self::is_ident_code_point(next) {
                result.push(next.unwrap());
            } else {
                let p = self.process.peek();
                if Self::is_valid_escape(next, p) {
                    proof {
                        model::lemma_consume_escape_len(rem0.drop_first());
                    }
                    let c = self.consume_escaped_code_point();
                    result.push(c);
                } else {
                    self.process.put_back_option(next);
                    proof {
                        if rem0.len() > 0 {
                            assert(seq![rem0[0]] + rem0.drop_first() =~= rem0);
                        }
                    }
                    return result;
                }
            }
        }
    }

    /// Whether the next two code points open a comment.
    fn peek_is_comment_open(&self) -> (r: bool)
        requires
            self.wf(),
        ensures
            r == (self.remaining().len() >= 2 && self.remaining()[0] == '\u{002f}'
                && self.remaining()[1] == '\u{002a}'),
    {
        let first = self.process.peek_nth(0);
        let second = self.process.peek_nth(1);
        first == Some('\u{002f}') && second == Some('\u{002a}')
    }

    /// Whether the next two code points close a comment.
    fn peek_is_comment_close(&self) -> (r: bool)
        requires
            self.wf(),
        ensures
            r == (self.remaining().len() >= 2 && self.remaining()[0] == '\u{002a}'
                && self.remaining()[1] == '\u{002f}'),
    {
        let first = self.process.peek_nth(0);
        let second = self.process.peek_nth(1);
        first == Some('\u{002a}') && second == Some('\u{002f}')
    }

    /// Consumes adjacent comments: each run from U+002F U+002A through the
    /// first U+002A U+002F is dropped, repeatedly; a comment the input ends
    /// inside is dropped whole with a parse error.
    #[verifier::loop_isolation(false)]
    pub fn consume_comments(&mut self)
        requires
            old(self).wf(),
        ensures
            final(self).wf(),
            ({
                let k = model::skip_comments(old(self).remaining());
                final(self).remaining() == k.rest && final(self).error_flag() == (old(
                    self,
                ).error_flag() || k.err)
            }),
    {
        while self.peek_is_comment_open()
            invariant
                self.wf(),
                model::skip_comments(self.remaining()).rest == model::skip_comments(
                    old(self).remaining(),
                ).rest,
                (self.error_flag() || model::skip_comments(self.remaining()).err) == (old(
                    self,
                ).error_flag() || model::skip_comments(old(self).remaining()).err),
            decreases self.remaining().len(),
        {
            let ghost rem0 = self.remaining();
            self.process.next();
            self.process.next();
            proof {
                assert(rem0.drop_first().drop_first() =~= rem0.skip(2));
            }
            while !self.peek_is_comment_close()
                invariant
                    self.wf(),
                    self.remaining().len() + 2 <= rem0.len(),
                    model::comment_body(self.remaining()).rest == model::skip_comments(
                        old(self).remaining(),
                    ).rest,
                    (self.error_flag() || model::comment_body(self.remaining()).err) == (old(
                        self,
                    ).error_flag() || model::skip_comments(old(self).remaining()).err),
                decreases self.remaining().len(),
            {
                let n = self.process.next();
                if n.is_none() {
                    self.parse_error = true;
                    return;
                }
            }
            let ghost inner0 = self.remaining();
            self.process.next();
            self.process.next();
            proof {
                assert(inner0.drop_first().drop_first() =~= inner0.skip(2));
            }
        }
    }

    /// Consumes a string token ending at `code_point`: that quote ends it,
    /// end of input ends it with a parse error, a bare newline is reconsumed
    /// and yields a bad-string token, and escapes are resolved, a U+005C
    /// before a newline consuming the newline and contributing nothing.
    #[verifier::loop_isolation(false)]
    pub fn consume_string_token(&mut self, code_point: char) -> (t: CSSToken)
        requires
            old(self).wf(),
        ensures
            final(self).wf(),
            ({
                let r = model::consume_string(
                    old(self).remaining(),
                    code_point,
                    Seq::empty(),
                    old(self).error_flag(),
                );
                t@ == r.token && final(self).remaining() == r.rest && final(self).error_flag()
                    == r.err
            }),
    {
        let mut out = String::new();
        loop
            invariant
                self.wf(),
                model::consume_string(self.remaining(), code_point, out@, self.error_flag())
                    == model::consume_string(
                    old(self).remaining(),
                    code_point,
                    Seq::empty(),
                    old(self).error_flag(),
                ),
            decreases self.remaining().len(),
        {
            let ghost rem0 = self.remaining();
            let next = self.process.next();
            match next {
                None => {
                    self.parse_error = true;
                    return CSSToken::StringToken { string: out };
                },
                Some(v) => {
                    if v == code_point {
                        return CSSToken::StringToken { string: out };
                    }
                    if v == '\u{000a}' {
                        self.parse_error = true;
                        self.process.put_back('\u{000a}');
                        proof {
                            assert(seq!['\u{000a}'] + rem0.drop_first() =~= rem0);
                        }
                        return CSSToken::BadStringToken;
                    }
                    if v == '\u{005c}' {
                        let p = self.process.peek();
                        if p.is_none() {
                            continue;
                        }
                        let pv = p.unwrap();
                        if Self::is_newline(pv) {
                            self.process.next();
                            proof {
                                assert(rem0.drop_first().drop_first() =~= rem0.skip(2));
                            }
                            continue;
                        }
                        proof {
                            model::lemma_consume_escape_len(rem0.drop_first());
                        }
                        let c = self.consume_escaped_code_point();
                        out.push(c);
                        continue;
                    }
                    out.push(v);
                },
            }
        }
    }
}

} // verus!

verus! {

impl Tokenizer {
    /// Consumes the maximal run of digits and returns it.
    #[verifier::loop_isolation(false)]
    fn consume_digit_run(&mut self) -> (r: String)
        requires
            old(self).wf(),
        ensures
            final(self).wf(),
            final(self).error_flag() == old(self).error_flag(),
            r@ == model::take_digits(old(self).remaining()),
            final(self).remaining() == model::digits_after(old(self).remaining()),
    {
        let mut out = String::new();
        while self.peek_is_digit()
            invariant
                self.wf(),
                self.error_flag() == old(self).error_flag(),
                model::take_digits(old(self).remaining()) == out@ + model::take_digits(
                    self.remaining(),
                ),
                model::digits_after(old(self).remaining()) == model::digits_after(
                    self.remaining(),
                ),
            decreases self.remaining().len(),
        {
            let ghost rem0 = self.remaining();
            let c = self.process.next().unwrap();
            out.push(c);
            proof {
                model::lemma_take_digits_step(rem0);
                assert(out@ + model::take_digits(rem0.drop_first()) =~= (out@.drop_last()
                    + (seq![c] + model::take_digits(rem0.drop_first()))));
            }
        }
        proof {
            assert(out@ + Seq::<char>::empty() =~= out@);
            assert(model::digits_after(self.remaining()) =~= self.remaining());
        }
        out
    }

    /// Splits a string greedily into the seven components of a number: sign,
    /// integer digits, decimal point, fraction digits, exponent marker,
    /// exponent sign and exponent digits; what follows them is ignored.
    #[verifier::rlimit(100)]
    pub fn string_to_number(input: String) -> (r: NumericValue)
        ensures
            r@ == model::split_number(input@),
    {
        let s = input.as_str();
        let n = s.unicode_len();
        let mut i: usize = 0;
        let mut negative = false;
        if i < n {
            let c = s.get_char(i);
            if Self::is_plus_or_minus(c) {
                negative = c == '\u{002d}';
                i = i + 1;
            }
        }
        let ghost s1 = if s@.len() > 0 && model::sign(s@[0]) {
            s@.drop_first()
        } else {
            s@
        };
        proof {
            assert(s@.skip(i as int) =~= s1);
        }
        let run1 = Self::take_digit_run(s, i);
        let integer = run1.0;
        i = run1.1;
        proof {
            model::lemma_take_digits(s1);
            assert(s@.skip(i as int) =~= model::digits_after(s1));
        }
        let ghost s2 = model::digits_after(s1);
        if i < n {
            if s.get_char(i) == '\u{002e}' {
                i = i + 1;
            }
        }
        let ghost s3 = if s2.len() > 0 && s2[0] == '.' {
            s2.drop_first()
        } else {
            s2
        };
        proof {
            assert(s@.skip(i as int) =~= s3);
        }
        let run2 = Self::take_digit_run(s, i);
        let fraction = run2.0;
        i = run2.1;
        proof {
            model::lemma_take_digits(s3);
            assert(s@.skip(i as int) =~= model::digits_after(s3));
        }
        let ghost s4 = model::digits_after(s3);
        if i < n {
            if Self::is_e(s.get_char(i)) {
                i = i + 1;
            }
        }
        let ghost s5 = if s4.len() > 0 && model::e_marker(s4[0]) {
            s4.drop_first()
        } else {
            s4
        };
        proof {
            assert(s@.skip(i as int) =~= s5);
        }
        let mut exponent_negative = false;
        if i < n {
            let c = s.get_char(i);
            if Self::is_plus_or_minus(c) {
                exponent_negative = c == '\u{002d}';
                i = i + 1;
            }
        }
        let ghost s6 = if s5.len() > 0 && model::sign(s5[0]) {
            s5.drop_first()
        } else {
            s5
        };
        proof {
            assert(s@.skip(i as int) =~= s6);
        }
        let run3 = Self::take_digit_run(s, i);
        let exponent = run3.0;
        NumericValue { negative, integer, fraction, exponent_negative, exponent }
    }

    /// Collects the maximal digit run of `s` that starts at `start`, and the
    /// position after it.
    #[verifier::loop_isolation(false)]
    fn take_digit_run(s: &str, start: usize) -> (r: (String, usize))
        requires
            start <= s@.len(),
        ensures
            r.0@ == model::take_digits(s@.skip(start as int)),
            r.1 == start + r.0@.len(),
            r.1 <= s@.len(),
    {
        let n = s.unicode_len();
        let mut out = String::new();
        let mut i: usize = start;
        while i < n && Self::is_digit(s.get_char(i))
            invariant
                start <= i <= n,
                n == s@.len(),
                i == start + out@.len(),
                model::take_digits(s@.skip(start as int)) == out@ + model::take_digits(
                    s@.skip(i as int),
                ),
            decreases n - i,
        {
            let ghost rem0 = s@.skip(i as int);
            out.push(s.get_char(i));
            i = i + 1;
            proof {
                model::lemma_take_digits_step(rem0);
                assert(rem0.drop_first() =~= s@.skip(i as int));
                assert(out@.drop_last() + (seq![rem0[0]] + model::take_digits(
                    s@.skip(i as int),
                )) =~= out@ + model::take_digits(s@.skip(i as int)));
            }
        }
        proof {
            assert(out@ + Seq::<char>::empty() =~= out@);
        }
        (out, i)
    }
}

} // verus!

verus! {

impl Tokenizer {
    /// Scans a number into its exact text, converts that text, and returns
    /// the components with the type flag: `Integer` unless a fraction or an
    /// exponent was scanned.
    #[verifier::loop_isolation(false)]
    #[verifier::rlimit(100)]
    pub fn consume_number(&mut self) -> (num: Number)
        requires
            old(self).wf(),
        ensures
            final(self).wf(),
            ({
                let n = model::scan_number(old(self).remaining());
                num.value@ == model::split_number(n.repr) && num.kind == n.kind
                    && final(self).remaining() == n.rest
                    && final(self).error_flag() == old(self).error_flag()
            }),
    {
        let ghost s = self.remaining();
        let mut repr = String::new();
        let mut kind = NumberType::Integer;
        let ghost sgn: Seq<char> = if s.len() > 0 && model::sign(s[0]) {
            seq![s[0]]
        } else {
            Seq::empty()
        };
        let p = self.process.peek();
        if let Some(v) = p {
            if Self::is_plus_or_minus(v) {
                self.process.next();
                repr.push(v);
            }
        }
        proof {
            assert(self.remaining() =~= s.skip(sgn.len() as int));
            assert(repr@ =~= sgn);
        }
        let ghost s1 = s.skip(sgn.len() as int);
        let d1 = self.consume_digit_run();
        repr.append(d1.as_str());
        let ghost s2 = model::digits_after(s1);
        let ghost int_part = model::take_digits(s1);
        let (f1, f2) = self.peek_twin();
        let has_frac = f1 == Some('\u{002e}') && (match f2 {
            Some(v) => Self::is_digit(v),
            None => false,
        });
        let ghost frac_part: Seq<char> = if s2.len() >= 2 && s2[0] == '.' && model::digit(s2[1]) {
            seq!['.'] + model::take_digits(s2.drop_first())
        } else {
            Seq::empty()
        };
        if has_frac {
            self.process.next();
            repr.push('\u{002e}');
            kind = NumberType::Number;
            let d2 = self.consume_digit_run();
            repr.append(d2.as_str());
            proof {
                assert(repr@ =~= sgn + int_part + frac_part);
            }
        }
        let ghost s3 = if s2.len() >= 2 && s2[0] == '.' && model::digit(s2[1]) {
            model::digits_after(s2.drop_first())
        } else {
            s2
        };
        proof {
            assert(self.remaining() == s3);
            assert(repr@ =~= sgn + int_part + frac_part);
        }
        let peek3 = self.process.peek_amount(3);
        let exp2 = (match peek3[0] {
            Some(v) => Self::is_e(v),
            None => false,
        }) && (match peek3[1] {
            Some(v) => Self::is_digit(v),
            None => false,
        });
        let exp3 = (match peek3[0] {
            Some(v) => Self::is_e(v),
            None => false,
        }) && (match peek3[1] {
            Some(v) => Self::is_plus_or_minus(v),
            None => false,
        }) && (match peek3[2] {
            Some(v) => Self::is_digit(v),
            None => false,
        });
        let ghost exp_part: Seq<char> = if s3.len() >= 2 && model::e_marker(s3[0]) && model::digit(
            s3[1],
        ) {
            seq![s3[0]] + model::take_digits(s3.drop_first())
        } else if s3.len() >= 3 && model::e_marker(s3[0]) && model::sign(s3[1]) && model::digit(
            s3[2],
        ) {
            seq![s3[0], s3[1]] + model::take_digits(s3.skip(2))
        } else {
            Seq::empty()
        };
        if exp2 {
            let m = self.process.next().unwrap();
            repr.push(m);
            kind = NumberType::Number;
            let d3 = self.consume_digit_run();
            repr.append(d3.as_str());
            proof {
                assert(repr@ =~= sgn + int_part + frac_part + exp_part);
            }
        } else if exp3 {
            let m = self.process.next().unwrap();
            let g = self.process.next().unwrap();
            repr.push(m);
            repr.push(g);
            kind = NumberType::Number;
            proof {
                assert(s3.drop_first().drop_first() =~= s3.skip(2));
            }
            let d3 = self.consume_digit_run();
            repr.append(d3.as_str());
            proof {
                model::lemma_take_digits(s3.skip(2));
                assert(repr@ =~= sgn + int_part + frac_part + exp_part);
            }
        }
        proof {
            assert(repr@ =~= model::scan_number(s).repr);
        }
        Number { value: Self::string_to_number(repr), kind }
    }

    /// Consumes a numeric token: a dimension token when an ident sequence
    /// follows the number, a percentage token when U+0025 follows it, and a
    /// number token otherwise.
    pub fn consume_numeric_token(&mut self) -> (t: CSSToken)
        requires
            old(self).wf(),
        ensures
            final(self).wf(),
            ({
                let r = model::consume_numeric(old(self).remaining(), old(self).error_flag());
                t@ == r.token && final(self).remaining() == r.rest && final(self).error_flag()
                    == r.err
            }),
    {
        let number = self.consume_number();
        if self.would_start_ident_sequence() {
            let unit = self.consume_ident_sequence();
            return CSSToken::DimensionToken { flag: number.kind, value: number.value, unit };
        }
        if self.process.peek() == Some('\u{0025}') {
            self.process.next();
            return CSSToken::PercentageToken { flag: number.kind, value: number.value };
        }
        CSSToken::NumberToken { flag: number.kind, value: number.value }
    }
}

} // verus!

verus! {

impl Tokenizer {
    /// Discards the remnants of a bad URL: code points up to and including
    /// U+0029 or the end of input, resolving valid escapes whole so an
    /// escaped U+0029 does not end the recovery.
    #[verifier::loop_isolation(false)]
    pub fn consume_remnants_of_bad_url(&mut self)
        requires
            old(self).wf(),
        ensures
            final(self).wf(),
            ({
                let r = model::bad_url_remnants(old(self).remaining());
                final(self).remaining() == r.rest && final(self).error_flag() == (old(
                    self,
                ).error_flag() || r.err)
            }),
    {
        loop
            invariant
                self.wf(),
                model::bad_url_remnants(self.remaining()).rest == model::bad_url_remnants(
                    old(self).remaining(),
                ).rest,
                (self.error_flag() || model::bad_url_remnants(self.remaining()).err) == (old(
                    self,
                ).error_flag() || model::bad_url_remnants(old(self).remaining()).err),
            decreases self.remaining().len(),
        {
            let ghost rem0 = self.remaining();
            let next = self.process.next();
            if next == Some('\u{0029}') || next.is_none() {
                return;
            }
            let p = self.process.peek();
            if Self::is_valid_escape(next, p) {
                proof {
                    model::lemma_consume_escape_len(rem0.drop_first());
                }
                self.consume_escaped_code_point();
            }
        }
    }

    /// Consumes a URL token after `url(`: leading whitespace is skipped,
    /// U+0029 or the end of input (a parse error) closes the token, inner
    /// whitespace must be followed by the closing paren, a quote, U+0028, a
    /// non-printable code point or an invalid escape is a parse error that
    /// discards the remnants into a bad-url token, and valid escapes are
    /// resolved into the value.
    #[verifier::loop_isolation(false)]
    pub fn consume_url_token(&mut self) -> (t: CSSToken)
        requires
            old(self).wf(),
        ensures
            final(self).wf(),
            ({
                let r = model::consume_url(old(self).remaining(), old(self).error_flag());
                t@ == r.token && final(self).remaining() == r.rest && final(self).error_flag()
                    == r.err
            }),
    {
        let mut url_token_val = String::new();
        self.consume_whitespace();
        loop
            invariant
                self.wf(),
                model::url_loop(self.remaining(), url_token_val@, self.error_flag())
                    == model::url_loop(
                    model::skip_ws(old(self).remaining()),
                    Seq::empty(),
                    old(self).error_flag(),
                ),
            decreases self.remaining().len(),
        {
            let ghost rem0 = self.remaining();
            let next = self.process.next();
            match next {
                None => {
                    self.parse_error = true;
                    return CSSToken::URLToken { value: url_token_val };
                },
                Some(v) => {
                    if v == '\u{0029}' {
                        return CSSToken::URLToken { value: url_token_val };
                    }
                    if Self::is_whitespace(v) {
                        self.consume_whitespace();
                        let p = self.process.peek();
                        match p {
                            None => {
                                self.parse_error = true;
                                self.process.next();
                                return CSSToken::URLToken { value: url_token_val };
                            },
                            Some(pv) => {
                                if pv == '\u{0029}' {
                                    self.process.next();
                                    return CSSToken::URLToken { value: url_token_val };
                                }
                                self.parse_error = true;
                                self.consume_remnants_of_bad_url();
                                return CSSToken::BadURLToken;
                            },
                        }
                    }
                    if v == '\u{0022}' || v == '\u{0027}' || v == '\u{0028}'
                        || Self::is_none_printable_code_point(v) {
                        self.parse_error = true;
                        self.consume_remnants_of_bad_url();
                        return CSSToken::BadURLToken;
                    }
                    if v == '\u{005c}' {
                        let p = self.process.peek();
                        let valid = match p {
                            Some(pv) => pv != '\u{000a}',
                            None => false,
                        };
                        if valid {
                            proof {
                                model::lemma_consume_escape_len(rem0.drop_first());
                            }
                            let c = self.consume_escaped_code_point();
                            url_token_val.push(c);
                            continue;
                        }
                        self.parse_error = true;
                        self.consume_remnants_of_bad_url();
                        return CSSToken::BadURLToken;
                    }
                    url_token_val.push(v);
                },
            }
        }
    }

    /// An ASCII case-insensitive match for "url".
    fn is_url_keyword(s: &str) -> (r: bool)
        ensures
            r == model::is_url_name(s@),
    {
        let n = s.unicode_len();
        if n != 3 {
            return false;
        }
        let c0 = s.get_char(0);
        let c1 = s.get_char(1);
        let c2 = s.get_char(2);
        (c0 == 'u' || c0 == 'U') && (c1 == 'r' || c1 == 'R') && (c2 == 'l' || c2 == 'L')
    }

    /// Whether the next two code points are both whitespace.
    fn peek_two_whitespace(&self) -> (r: bool)
        requires
            self.wf(),
        ensures
            r == (self.remaining().len() >= 2 && model::whitespace(self.remaining()[0])
                && model::whitespace(self.remaining()[1])),
    {
        let first = self.process.peek_nth(0);
        let second = self.process.peek_nth(1);
        (match first {
            Some(v) => Self::is_whitespace(v),
            None => false,
        }) && (match second {
            Some(v) => Self::is_whitespace(v),
            None => false,
        })
    }

    /// Consumes an ident-like token: an ident sequence that matches "url"
    /// followed directly by U+0028 opens a URL token unless the argument
    /// starts with a quote (optionally after one whitespace code point),
    /// which keeps it a function token; any other name followed by U+0028 is
    /// a function token, and anything else an ident token.
    #[verifier::loop_isolation(false)]
    pub fn consume_ident_like_token(&mut self) -> (t: CSSToken)
        requires
            old(self).wf(),
        ensures
            final(self).wf(),
            ({
                let r = model::consume_ident_like(old(self).remaining(), old(self).error_flag());
                t@ == r.token && final(self).remaining() == r.rest && final(self).error_flag()
                    == r.err
            }),
    {
        let string = self.consume_ident_sequence();
        let is_url = Self::is_url_keyword(string.as_str());
        let p = self.process.peek();
        if is_url && p == Some('\u{0028}') {
            self.process.next();
            let ghost after_paren = self.remaining();
            while self.peek_two_whitespace()
                invariant
                    self.wf(),
                    self.error_flag() == model::consume_ident(
                        old(self).remaining(),
                        Seq::empty(),
                        old(self).error_flag(),
                    ).err,
                    model::skip_ws_pairs(self.remaining()) == model::skip_ws_pairs(after_paren),
                decreases self.remaining().len(),
            {
                self.process.next();
            }
            let (first, second) = self.peek_twin();
            let quote_first = match first {
                Some(v) => v == '\u{0022}' || v == '\u{0027}',
                None => false,
            };
            let ws_then_quote = (match first {
                Some(v) => Self::is_whitespace(v),
                None => false,
            }) && (match second {
                Some(v) => v == '\u{0022}' || v == '\u{0027}',
                None => false,
            });
            if quote_first || ws_then_quote {
                return CSSToken::FunctionToken { value: string };
            }
            return self.consume_url_token();
        }
        if p == Some('\u{0028}') {
            self.process.next();
            return CSSToken::FunctionToken { value: string };
        }
        CSSToken::IdentToken { value: string }
    }
}

} // verus!

verus! {

impl Tokenizer {
    /// Consumes one token: comments are skipped first, end of input yields
    /// the end-of-stream token, and otherwise the first code point picks the
    /// consumer, falling back to a delimiter token.
    #[verifier::rlimit(100)]
    pub fn consume_token(&mut self) -> (t: CSSToken)
        requires
            old(self).wf(),
        ensures
            final(self).wf(),
            ({
                let r = model::next_token(old(self).remaining(), old(self).error_flag());
                t@ == r.token && final(self).remaining() == r.rest && final(self).error_flag()
                    == r.err
            }),
    {
        self.consume_comments();
        let ghost s1 = self.remaining();
        let next = self.process.next();
        match next {
            None => CSSToken::EOFToken,
            Some(v) => {
                proof {
                    assert(seq![v] + s1.drop_first() =~= s1);
                }
                if Self::is_whitespace(v) {
                    self.consume_whitespace();
                    return CSSToken::WhitespaceToken;
                }
                if v == '\u{0022}' {
                    return self.consume_string_token(v);
                }
                if v == '\u{0023}' {
                    let (first, second) = self.peek_twin();
                    if Self::is_ident_code_point(first) || Self::is_valid_escape(first, second) {
                        let flag = if self.would_start_ident_sequence() {
                            HashTokenFlag::Id
                        } else {
                            HashTokenFlag::Unrestricted
                        };
                        let value = self.consume_ident_sequence();
                        return CSSToken::HashToken { flag, value };
                    }
                    return CSSToken::DelimToken { value: v };
                }
                if v == '\u{0027}' {
                    return self.consume_string_token(v);
                }
                if v == '\u{0028}' {
                    return CSSToken::LeftParenthesisToken;
                }
                if v == '\u{0029}' {
                    return CSSToken::RightParenthesisToken;
                }
                if v == '\u{002b}' {
                    if self.would_start_number() {
                        self.process.put_back(v);
                        return self.consume_numeric_token();
                    }
                    return CSSToken::DelimToken { value: v };
                }
                if v == '\u{002c}' {
                    return CSSToken::CommaToken;
                }
                if v == '\u{002d}' {
                    if self.would_start_number() {
                        self.process.put_back(v);
                        return self.consume_numeric_token();
                    }
                    let (first, second) = self.peek_twin();
                    if first == Some('\u{002d}') && second == Some('\u{003e}') {
                        self.process.next();
                        self.process.next();
                        proof {
                            assert(s1.drop_first().drop_first().drop_first() =~= s1.drop_first()
                                .skip(2));
                        }
                        return CSSToken::CDCToken;
                    }
                    if self.would_start_ident_sequence() {
                        self.process.put_back(v);
                        return self.consume_ident_like_token();
                    }
                    return CSSToken::DelimToken { value: v };
                }
                if v == '\u{002e}' {
                    if self.peek_is_digit() {
                        self.process.put_back(v);
                        return self.consume_numeric_token();
                    }
                    return CSSToken::DelimToken { value: v };
                }
                if v == '\u{003a}' {
                    return CSSToken::ColonToken;
                }
                if v == '\u{003b}' {
                    return CSSToken::SemicolonToken;
                }
                if v == '\u{003c}' {
                    let peek3 = self.process.peek_amount(3);
                    if peek3[0] == Some('\u{0021}') && peek3[1] == Some('\u{002d}') && peek3[2]
                        == Some('\u{002d}') {
                        self.process.next();
                        self.process.next();
                        self.process.next();
                        proof {
                            assert(s1.drop_first().drop_first().drop_first().drop_first()
                                =~= s1.drop_first().skip(3));
                        }
                        return CSSToken::CDOToken;
                    }
                    return CSSToken::DelimToken { value: v };
                }
                if v == '\u{0040}' {
                    if self.would_start_ident_sequence() {
                        let value = self.consume_ident_sequence();
                        return CSSToken::AtKeywordToken { value };
                    }
                    return CSSToken::DelimToken { value: v };
                }
                if v == '\u{005b}' {
                    return CSSToken::LeftSquareBracketToken;
                }
                if v == '\u{005c}' {
                    let p = self.process.peek();
                    let valid = match p {
                        Some(pv) => pv != '\u{000a}',
                        None => false,
                    };
                    if valid {
                        self.process.put_back(v);
                        return self.consume_ident_like_token();
                    }
                    self.parse_error = true;
                    return CSSToken::DelimToken { value: v };
                }
                if v == '\u{005d}' {
                    return CSSToken::RightSquareBracketToken;
                }
                if v == '\u{007b}' {
                    return CSSToken::LeftCurlyBracketToken;
                }
                if v == '\u{007d}' {
                    return CSSToken::RightCurlyBracketToken;
                }
                if Self::is_digit(v) {
                    self.process.put_back(v);
                    return self.consume_numeric_token();
                }
                if Self::is_ident_start_code_point(v) {
                    self.process.put_back(v);
                    return self.consume_ident_like_token();
                }
                CSSToken::DelimToken { value: v }
            },
        }
    }

    /// Tokenizes the whole input: tokens are consumed until the end-of-stream
    /// token, which closes the sequence. The result always holds exactly one
    /// end-of-stream token, at its end.
    #[verifier::loop_isolation(false)]
    pub fn tokenize(&mut self) -> (r: Vec<CSSToken>)
        requires
            old(self).wf(),
        ensures
            final(self).wf(),
            ({
                let tr = model::tokenize_from(old(self).remaining(), old(self).error_flag());
                crate::tokens::views_of(r@) == tr.tokens && final(self).error_flag() == tr.err
            }),
            r@.len() >= 1,
            r@[r@.len() - 1]@ is EOF,
            forall|i: int| 0 <= i < r@.len() - 1 ==> !(r@[i]@ is EOF),
    {
        let ghost goal = model::tokenize_from(old(self).remaining(), old(self).error_flag());
        let mut out: Vec<CSSToken> = Vec::new();
        loop
            invariant
                self.wf(),
                goal.tokens == crate::tokens::views_of(out@) + model::tokenize_from(
                    self.remaining(),
                    self.error_flag(),
                ).tokens,
                goal.err == model::tokenize_from(self.remaining(), self.error_flag()).err,
            decreases self.remaining().len(),
        {
            let ghost rem0 = self.remaining();
            let ghost err0 = self.error_flag();
            proof {
                model::lemma_next_token_progress(rem0, err0);
            }
            let tok = self.consume_token();
            let ghost pre = out@;
            if let CSSToken::EOFToken = tok {
                out.push(CSSToken::EOFToken);
                proof {
                    model::lemma_tokenize_shape(old(self).remaining(), old(self).error_flag());
                    assert(crate::tokens::views_of(out@) =~= crate::tokens::views_of(pre).push(
                        crate::tokens::TokenView::EOF,
                    ));
                    assert(crate::tokens::views_of(pre) + seq![crate::tokens::TokenView::EOF]
                        =~= crate::tokens::views_of(out@));
                    assert(crate::tokens::views_of(out@) =~= goal.tokens);
                    assert(forall|i: int|
                        0 <= i < out@.len() ==> crate::tokens::views_of(out@)[i] == out@[i]@);
                    assert forall|i: int| 0 <= i < out@.len() - 1 implies !(out@[i]@ is EOF) by {
                        assert(out@[i]@ == goal.tokens[i]);
                    }
                }
                return out;
            }
            out.push(tok);
            proof {
                assert(crate::tokens::views_of(out@) =~= crate::tokens::views_of(pre).push(tok@));
                assert(crate::tokens::views_of(pre) + (seq![tok@] + model::tokenize_from(
                    self.remaining(),
                    self.error_flag(),
                ).tokens) =~= crate::tokens::views_of(out@) + model::tokenize_from(
                    self.remaining(),
                    self.error_flag(),
                ).tokens);
            }
        }
    }
}

} // verus!

verus! {

impl Tokenizer {
    /// Interprets a string of hex digits as the code point with that value.
    /// The value must name a Unicode scalar value: at most U+10FFFF and not
    /// a surrogate.
    #[verifier::loop_isolation(false)]
    pub fn code_point_to_char(input: &str) -> (r: char)
        requires
            input@.len() >= 1,
            forall|i: int| 0 <= i < input@.len() ==> model::hex_digit(#[trigger] input@[i]),
            model::hex_run_value(input@) <= 0x10ffff,
            !(0xd800 <= model::hex_run_value(input@) <= 0xdfff),
        ensures
            r as u32 == model::hex_run_value(input@),
    {
        let n = input.unicode_len();
        let mut value: u32 = 0;
        let mut i: usize = 0;
        proof {
            assert(input@.take(0) =~= Seq::<char>::empty());
        }
        while i < n
            invariant
                i <= n,
                value == model::hex_run_value(input@.take(i as int)),
                value <= 0x10ffff,
            decreases n - i,
        {
            proof {
                model::lemma_hex_run_prefix_le(input@, i as int + 1);
                assert(input@.take(i as int + 1).drop_last() =~= input@.take(i as int));
                assert(input@.take(i as int + 1).last() == input@[i as int]);
            }
            value = value * 16 + Self::hex_digit_value(input.get_char(i));
            i = i + 1;
        }
        proof {
            assert(input@.take(n as int) =~= input@);
        }
        let c = char::from_u32(value);
        c.unwrap()
    }
}

} // verus!
