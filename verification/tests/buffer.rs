use jessie::buffer::PutBackPeekMore;
use jessie::tokenizer::Tokenizer;
use jessie::tokens::CSSToken;
use jessie::tokens::NumberType;
use jessie::tokens::NumericValue;

#[test]
fn next_replays_the_put_back_slot_first() {
    let mut b = PutBackPeekMore::new("ab");
    assert_eq!(b.next(), Some('a'));
    b.put_back('a');
    assert_eq!(b.next(), Some('a'));
    assert_eq!(b.next(), Some('b'));
    assert_eq!(b.next(), None);
    b.put_back_option(Some('z'));
    assert_eq!(b.next(), Some('z'));
    assert_eq!(b.next(), None);
}

#[test]
fn peeking_includes_the_put_back_slot_and_never_consumes() {
    let mut b = PutBackPeekMore::new("xyz");
    assert_eq!(b.peek(), Some('x'));
    assert_eq!(b.peek_nth(2), Some('z'));
    assert_eq!(b.peek_nth(3), None);
    assert_eq!(b.next(), Some('x'));
    b.put_back('x');
    assert_eq!(b.peek(), Some('x'));
    assert_eq!(b.peek_amount(4), vec![Some('x'), Some('y'), Some('z'), None]);
    assert_eq!(b.next(), Some('x'));
}

#[test]
fn classifier_edges() {
    assert!(Tokenizer::is_digit('0') && Tokenizer::is_digit('9'));
    assert!(!Tokenizer::is_digit('a'));
    assert!(Tokenizer::is_hex_digit('F') && Tokenizer::is_hex_digit('f'));
    assert!(!Tokenizer::is_hex_digit('g'));
    assert!(Tokenizer::is_ident_start_code_point('_'));
    assert!(Tokenizer::is_ident_start_code_point('\u{0080}'));
    assert!(!Tokenizer::is_ident_start_code_point('1'));
    assert!(Tokenizer::is_ident_code_point(Some('-')));
    assert!(!Tokenizer::is_ident_code_point(None));
    assert!(Tokenizer::is_whitespace('\t') && Tokenizer::is_whitespace('\n'));
    assert!(Tokenizer::is_none_printable_code_point('\u{0000}'));
    assert!(Tokenizer::is_none_printable_code_point('\u{007f}'));
    assert!(!Tokenizer::is_none_printable_code_point('a'));
    assert!(Tokenizer::is_valid_escape(Some('\\'), Some('a')));
    assert!(Tokenizer::is_valid_escape(Some('\\'), None));
    assert!(!Tokenizer::is_valid_escape(Some('\\'), Some('\n')));
    assert!(!Tokenizer::is_valid_escape(Some('a'), Some('b')));
    assert!(Tokenizer::is_surrogate(0xd800) && Tokenizer::is_surrogate(0xdfff));
    assert!(Tokenizer::is_leading_surrogate(0xdbff) && Tokenizer::is_trailing_surrogate(0xdc00));
    assert!(!Tokenizer::is_surrogate(0xe000));
    assert_eq!(Tokenizer::max_allowed_code_point(), 0x10ffff);
}

#[test]
fn code_point_to_char_reads_hex() {
    assert_eq!(Tokenizer::code_point_to_char("1f338"), '\u{1f338}');
    assert_eq!(Tokenizer::code_point_to_char("41"), 'A');
}

#[test]
fn would_start_lookahead_tables() {
    let mut t = Tokenizer::new("+1");
    assert!(t.would_start_number());
    let mut t = Tokenizer::new("+.1");
    assert!(t.would_start_number());
    let mut t = Tokenizer::new("+.x");
    assert!(!t.would_start_number());
    let mut t = Tokenizer::new("-x");
    assert!(t.would_start_ident_sequence());
    let mut t = Tokenizer::new("--");
    assert!(t.would_start_ident_sequence());
    let mut t = Tokenizer::new("-\\a");
    assert!(t.would_start_ident_sequence());
    let mut t = Tokenizer::new("\\\n");
    assert!(!t.would_start_ident_sequence());
    let mut t = Tokenizer::new("9");
    assert!(t.would_start_number());
    let (a, b) = Tokenizer::new("ab").peek_twin();
    assert_eq!((a, b), (Some('a'), Some('b')));
}

#[test]
fn consume_number_components() {
    let mut t = Tokenizer::new("-12.5e+3px");
    let n = t.consume_number();
    assert_eq!(n.kind, NumberType::Number);
    assert_eq!(
        n.value,
        NumericValue {
            negative: true,
            integer: "12".into(),
            fraction: "5".into(),
            exponent_negative: false,
            exponent: "3".into(),
        }
    );
    let mut t = Tokenizer::new("007");
    let n = t.consume_number();
    assert_eq!(n.kind, NumberType::Integer);
    assert_eq!(n.value.integer, "007");
}

#[test]
fn consume_ident_sequence_stops_at_non_ident() {
    let mut t = Tokenizer::new("abc-d_1(x");
    assert_eq!(t.consume_ident_sequence(), "abc-d_1");
    assert_eq!(t.consume_token(), CSSToken::LeftParenthesisToken);
}

#[test]
fn consume_string_token_directly() {
    let mut t = Tokenizer::new("abc'rest");
    assert_eq!(t.consume_string_token('\''), CSSToken::StringToken { string: "abc".into() });
}

#[test]
fn consume_url_token_directly() {
    let mut t = Tokenizer::new("  spaced  )");
    assert_eq!(t.consume_url_token(), CSSToken::URLToken { value: "spaced".into() });
}

#[test]
fn consume_remnants_discards_through_closing_paren() {
    let mut t = Tokenizer::new("junk\\)more)after");
    t.consume_remnants_of_bad_url();
    assert_eq!(
        t.tokenize(),
        vec![CSSToken::IdentToken { value: "after".into() }, CSSToken::EOFToken]
    );
}

#[test]
fn parse_error_flag_is_sticky() {
    let mut t = Tokenizer::new("x");
    assert!(!t.is_parse_error());
    t.parse_error();
    assert!(t.is_parse_error());
    t.tokenize();
    assert!(t.is_parse_error());
}

#[test]
fn consume_whitespace_takes_the_maximal_run() {
    let mut t = Tokenizer::new(" \t\n x");
    t.consume_whitespace();
    assert_eq!(t.consume_token(), CSSToken::IdentToken { value: "x".into() });
}
