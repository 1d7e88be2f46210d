use jessie::tokenizer::Tokenizer;
use jessie::tokens::CSSToken;
use jessie::tokens::HashTokenFlag;
use jessie::tokens::NumberType;
use jessie::tokens::NumericValue;

fn num(negative: bool, integer: &str, fraction: &str, exponent_negative: bool, exponent: &str) -> NumericValue {
    NumericValue {
        negative,
        integer: integer.to_string(),
        fraction: fraction.to_string(),
        exponent_negative,
        exponent: exponent.to_string(),
    }
}

#[test]
fn test_comment_consuming() {
    assert_eq!(
        Tokenizer::new("/*comment*/\n").tokenize(),
        vec![CSSToken::WhitespaceToken, CSSToken::EOFToken]
    )
}

#[test]
fn test_consume_string_token_quotation_mark() {
    assert_eq!(
        Tokenizer::new("\"this is a string\"\n").tokenize(),
        vec![
            CSSToken::StringToken { string: "this is a string".into() },
            CSSToken::WhitespaceToken,
            CSSToken::EOFToken
        ]
    )
}

#[test]
fn test_consume_string_token_apostrophe() {
    assert_eq!(
        Tokenizer::new("'this is a string'\n").tokenize(),
        vec![
            CSSToken::StringToken { string: "this is a string".into() },
            CSSToken::WhitespaceToken,
            CSSToken::EOFToken
        ]
    )
}

#[test]
fn test_consume_string_token_escaping() {
    assert_eq!(
        Tokenizer::new("\"this is a test and this is a cherry blossom: \\1f338\"\n").tokenize(),
        vec![
            CSSToken::StringToken {
                string: "this is a test and this is a cherry blossom: \u{1f338}".into()
            },
            CSSToken::WhitespaceToken,
            CSSToken::EOFToken
        ]
    )
}

#[test]
fn test_escape_code_point() {
    assert_eq!(Tokenizer::new("1f338").consume_escaped_code_point(), '\u{1f338}')
}

#[test]
fn empty_input_is_one_end_of_stream() {
    let mut t = Tokenizer::new("");
    assert_eq!(t.tokenize(), vec![CSSToken::EOFToken]);
    assert!(!t.is_parse_error());
}

#[test]
fn every_stream_ends_in_exactly_one_end_of_stream() {
    for input in [
        "",
        "a { color: #fff; }",
        "/*x*/ 12px url(a) \"s\" @media --> <!-- \\",
        "\"unterminated",
        "url(bad\"url)",
        "1.5e3 .5 +2 -3,;:[]{}()",
    ] {
        let toks = Tokenizer::new(input).tokenize();
        assert!(toks.len() >= 1);
        assert_eq!(toks[toks.len() - 1], CSSToken::EOFToken);
        let inner = &toks[..toks.len() - 1];
        assert!(inner.iter().all(|t| *t != CSSToken::EOFToken));
    }
}

#[test]
fn retokenizing_the_same_input_is_identical() {
    let input = "a{b:url( x )}/*c*/ 1.5e-3 #id \\41 z";
    let first = Tokenizer::new(input).tokenize();
    let second = Tokenizer::new(input).tokenize();
    assert_eq!(first, second);
}

#[test]
fn plain_string_then_end_of_stream() {
    assert_eq!(
        Tokenizer::new("\"hello world!\"").tokenize(),
        vec![CSSToken::StringToken { string: "hello world!".into() }, CSSToken::EOFToken]
    );
}

#[test]
fn lone_comment_produces_no_token() {
    assert_eq!(Tokenizer::new("/*comment*/").tokenize(), vec![CSSToken::EOFToken]);
}

#[test]
fn unterminated_comment_is_a_parse_error() {
    let mut t = Tokenizer::new("/*never closed");
    assert_eq!(t.tokenize(), vec![CSSToken::EOFToken]);
    assert!(t.is_parse_error());
}

#[test]
fn unterminated_string_keeps_value_and_flags_error() {
    let mut t = Tokenizer::new("\"unterminated");
    assert_eq!(
        t.tokenize(),
        vec![CSSToken::StringToken { string: "unterminated".into() }, CSSToken::EOFToken]
    );
    assert!(t.is_parse_error());
}

#[test]
fn newline_in_string_gives_bad_string_and_reconsumes_newline() {
    let mut t = Tokenizer::new("\"abc\ndef");
    assert_eq!(
        t.tokenize(),
        vec![
            CSSToken::BadStringToken,
            CSSToken::WhitespaceToken,
            CSSToken::IdentToken { value: "def".into() },
            CSSToken::EOFToken
        ]
    );
    assert!(t.is_parse_error());
}

#[test]
fn string_line_continuation_contributes_nothing() {
    assert_eq!(
        Tokenizer::new("\"ab\\\ncd\"").tokenize(),
        vec![CSSToken::StringToken { string: "abcd".into() }, CSSToken::EOFToken]
    );
}

#[test]
fn escaped_surrogate_decodes_to_replacement_character() {
    assert_eq!(Tokenizer::new("d800").consume_escaped_code_point(), '\u{fffd}');
    assert_eq!(
        Tokenizer::new("\"a\\d800 b\"").tokenize(),
        vec![CSSToken::StringToken { string: "a\u{fffd}b".into() }, CSSToken::EOFToken]
    );
}

#[test]
fn escaped_zero_and_out_of_range_decode_to_replacement_character() {
    assert_eq!(Tokenizer::new("0 x").consume_escaped_code_point(), '\u{fffd}');
    assert_eq!(Tokenizer::new("110000 x").consume_escaped_code_point(), '\u{fffd}');
}

#[test]
fn escape_consumes_one_trailing_whitespace_and_at_most_six_digits() {
    assert_eq!(
        Tokenizer::new("\\41 b").tokenize(),
        vec![CSSToken::IdentToken { value: "Ab".into() }, CSSToken::EOFToken]
    );
    assert_eq!(
        Tokenizer::new("\\0000411").tokenize(),
        vec![CSSToken::IdentToken { value: "A1".into() }, CSSToken::EOFToken]
    );
}

#[test]
fn unquoted_url_token() {
    assert_eq!(
        Tokenizer::new("url(foo)").tokenize(),
        vec![CSSToken::URLToken { value: "foo".into() }, CSSToken::EOFToken]
    );
}

#[test]
fn quoted_url_stays_a_function() {
    assert_eq!(
        Tokenizer::new("url(\"foo\")").tokenize(),
        vec![
            CSSToken::FunctionToken { value: "url".into() },
            CSSToken::StringToken { string: "foo".into() },
            CSSToken::RightParenthesisToken,
            CSSToken::EOFToken
        ]
    );
}

#[test]
fn url_with_whitespace_before_quote_stays_a_function() {
    assert_eq!(
        Tokenizer::new("url( 'foo')").tokenize(),
        vec![
            CSSToken::FunctionToken { value: "url".into() },
            CSSToken::WhitespaceToken,
            CSSToken::StringToken { string: "foo".into() },
            CSSToken::RightParenthesisToken,
            CSSToken::EOFToken
        ]
    );
}

#[test]
fn unterminated_url_keeps_value_and_flags_error() {
    let mut t = Tokenizer::new("url(foo");
    assert_eq!(
        t.tokenize(),
        vec![CSSToken::URLToken { value: "foo".into() }, CSSToken::EOFToken]
    );
    assert!(t.is_parse_error());
}

#[test]
fn quote_inside_url_gives_bad_url() {
    let mut t = Tokenizer::new("url(a\"b)x");
    assert_eq!(
        t.tokenize(),
        vec![CSSToken::BadURLToken, CSSToken::IdentToken { value: "x".into() }, CSSToken::EOFToken]
    );
    assert!(t.is_parse_error());
}

#[test]
fn inner_whitespace_then_junk_gives_bad_url() {
    let mut t = Tokenizer::new("url(a b)");
    assert_eq!(t.tokenize(), vec![CSSToken::BadURLToken, CSSToken::EOFToken]);
    assert!(t.is_parse_error());
}

#[test]
fn escaped_paren_does_not_end_url_or_its_recovery() {
    assert_eq!(
        Tokenizer::new("url(a\\)b)").tokenize(),
        vec![CSSToken::URLToken { value: "a)b".into() }, CSSToken::EOFToken]
    );
    let mut t = Tokenizer::new("url(a\"b\\)c)d");
    assert_eq!(
        t.tokenize(),
        vec![CSSToken::BadURLToken, CSSToken::IdentToken { value: "d".into() }, CSSToken::EOFToken]
    );
    assert!(t.is_parse_error());
}

#[test]
fn hash_tokens_and_flags() {
    assert_eq!(
        Tokenizer::new("#abc").tokenize(),
        vec![
            CSSToken::HashToken { flag: HashTokenFlag::Id, value: "abc".into() },
            CSSToken::EOFToken
        ]
    );
    assert_eq!(
        Tokenizer::new("#0ab").tokenize(),
        vec![
            CSSToken::HashToken { flag: HashTokenFlag::Unrestricted, value: "0ab".into() },
            CSSToken::EOFToken
        ]
    );
    assert_eq!(
        Tokenizer::new("#").tokenize(),
        vec![CSSToken::DelimToken { value: '#' }, CSSToken::EOFToken]
    );
}

#[test]
fn cdc_and_cdo_tokens() {
    assert_eq!(Tokenizer::new("-->").tokenize(), vec![CSSToken::CDCToken, CSSToken::EOFToken]);
    assert_eq!(Tokenizer::new("<!--").tokenize(), vec![CSSToken::CDOToken, CSSToken::EOFToken]);
    assert_eq!(
        Tokenizer::new("<!").tokenize(),
        vec![
            CSSToken::DelimToken { value: '<' },
            CSSToken::DelimToken { value: '!' },
            CSSToken::EOFToken
        ]
    );
}

#[test]
fn at_keyword_and_fixed_tokens() {
    assert_eq!(
        Tokenizer::new("@media").tokenize(),
        vec![CSSToken::AtKeywordToken { value: "media".into() }, CSSToken::EOFToken]
    );
    assert_eq!(
        Tokenizer::new("(),:;[]{}").tokenize(),
        vec![
            CSSToken::LeftParenthesisToken,
            CSSToken::RightParenthesisToken,
            CSSToken::CommaToken,
            CSSToken::ColonToken,
            CSSToken::SemicolonToken,
            CSSToken::LeftSquareBracketToken,
            CSSToken::RightSquareBracketToken,
            CSSToken::LeftCurlyBracketToken,
            CSSToken::RightCurlyBracketToken,
            CSSToken::EOFToken
        ]
    );
}

#[test]
fn invalid_escape_at_top_level_is_a_delimiter_and_error() {
    let mut t = Tokenizer::new("\\\nx");
    assert_eq!(
        t.tokenize(),
        vec![
            CSSToken::DelimToken { value: '\\' },
            CSSToken::WhitespaceToken,
            CSSToken::IdentToken { value: "x".into() },
            CSSToken::EOFToken
        ]
    );
    assert!(t.is_parse_error());
}

#[test]
fn dimension_and_percentage_tokens() {
    assert_eq!(
        Tokenizer::new("12px").tokenize(),
        vec![
            CSSToken::DimensionToken {
                flag: NumberType::Integer,
                value: num(false, "12", "", false, ""),
                unit: "px".into()
            },
            CSSToken::EOFToken
        ]
    );
    assert_eq!(
        Tokenizer::new("50%").tokenize(),
        vec![
            CSSToken::PercentageToken {
                flag: NumberType::Integer,
                value: num(false, "50", "", false, "")
            },
            CSSToken::EOFToken
        ]
    );
}

#[test]
fn ident_function_and_delimiter() {
    assert_eq!(
        Tokenizer::new("hello").tokenize(),
        vec![CSSToken::IdentToken { value: "hello".into() }, CSSToken::EOFToken]
    );
    assert_eq!(
        Tokenizer::new("calc(").tokenize(),
        vec![CSSToken::FunctionToken { value: "calc".into() }, CSSToken::EOFToken]
    );
    assert_eq!(
        Tokenizer::new("!").tokenize(),
        vec![CSSToken::DelimToken { value: '!' }, CSSToken::EOFToken]
    );
}

#[test]
fn adjacent_comments_are_all_consumed() {
    assert_eq!(
        Tokenizer::new("/*a*//*b*/x").tokenize(),
        vec![CSSToken::IdentToken { value: "x".into() }, CSSToken::EOFToken]
    );
}

#[test]
fn url_name_match_is_ascii_case_insensitive() {
    assert_eq!(
        Tokenizer::new("URL(foo)").tokenize(),
        vec![CSSToken::URLToken { value: "foo".into() }, CSSToken::EOFToken]
    );
    assert_eq!(
        Tokenizer::new("Url(\"q\")").tokenize(),
        vec![
            CSSToken::FunctionToken { value: "Url".into() },
            CSSToken::StringToken { string: "q".into() },
            CSSToken::RightParenthesisToken,
            CSSToken::EOFToken
        ]
    );
}
