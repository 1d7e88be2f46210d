use jessie::tokenizer::Tokenizer;
use jessie::tokens::CSSToken;
use jessie::tokens::NumberType;
use jessie::tokens::NumericValue;

/// The closed form a numeric token's components denote:
/// `s * (i + f * 10^(-d)) * 10^(t * e)`.
fn to_f64(v: &NumericValue) -> f64 {
    let s: f64 = if v.negative { -1.0 } else { 1.0 };
    let i: f64 = v.integer.parse::<f64>().unwrap_or(0.0);
    let f: f64 = v.fraction.parse::<f64>().unwrap_or(0.0);
    let d: f64 = v.fraction.len() as f64;
    let t: f64 = if v.exponent_negative { -1.0 } else { 1.0 };
    let e: f64 = v.exponent.parse::<f64>().unwrap_or(0.0);
    s * (i + f * 10.0_f64.powf(-d)) * 10.0_f64.powf(t * e)
}

#[test]
fn test_string_to_number() {
    assert_eq!(to_f64(&Tokenizer::string_to_number("+1e12".into())), 1000000000000.);
    assert_eq!(to_f64(&Tokenizer::string_to_number("1e12".into())), 1000000000000.);
    assert_eq!(to_f64(&Tokenizer::string_to_number("-1e12".into())), -1000000000000.);
    assert_eq!(to_f64(&Tokenizer::string_to_number("1e-1".into())), 0.1);
    assert_eq!(to_f64(&Tokenizer::string_to_number("1.5".into())), 1.5);
    assert_eq!(to_f64(&Tokenizer::string_to_number("+3.1".into())), 3.1);
    assert_eq!(to_f64(&Tokenizer::string_to_number("-420".into())), -420.);
    assert_eq!(to_f64(&Tokenizer::string_to_number("29312345".into())), 29312345.);
}

#[test]
fn string_to_number_splits_components_exactly() {
    let v = Tokenizer::string_to_number("-12.25e-3".into());
    assert!(v.negative);
    assert_eq!(v.integer, "12");
    assert_eq!(v.fraction, "25");
    assert!(v.exponent_negative);
    assert_eq!(v.exponent, "3");
    let w = Tokenizer::string_to_number("".into());
    assert!(!w.negative);
    assert_eq!(w.integer, "");
    assert_eq!(w.fraction, "");
    assert!(!w.exponent_negative);
    assert_eq!(w.exponent, "");
}

fn single_number(input: &str) -> (NumberType, f64) {
    let toks = Tokenizer::new(input).tokenize();
    assert_eq!(toks.len(), 2, "{input}");
    match &toks[0] {
        CSSToken::NumberToken { flag, value } => (*flag, to_f64(value)),
        other => panic!("{input} gave {other:?}"),
    }
}

#[test]
fn numeric_conversions() {
    assert_eq!(single_number("1.5"), (NumberType::Number, 1.5));
    assert_eq!(single_number("-420"), (NumberType::Integer, -420.0));
    assert_eq!(single_number("1e-1"), (NumberType::Number, 0.1));
    assert_eq!(single_number("+1e12"), (NumberType::Number, 1e12));
}

#[test]
fn integer_flag_means_no_fraction_and_no_exponent() {
    assert_eq!(single_number("42"), (NumberType::Integer, 42.0));
    assert_eq!(single_number("+7"), (NumberType::Integer, 7.0));
    assert_eq!(single_number(".5"), (NumberType::Number, 0.5));
    assert_eq!(single_number("+.25"), (NumberType::Number, 0.25));
    assert_eq!(single_number("4e2"), (NumberType::Number, 400.0));
    assert_eq!(single_number("4E+2"), (NumberType::Number, 400.0));
}

#[test]
fn sign_without_number_is_a_delimiter() {
    assert_eq!(
        Tokenizer::new("+a").tokenize(),
        vec![
            CSSToken::DelimToken { value: '+' },
            CSSToken::IdentToken { value: "a".into() },
            CSSToken::EOFToken
        ]
    );
    assert_eq!(
        Tokenizer::new(".a").tokenize(),
        vec![
            CSSToken::DelimToken { value: '.' },
            CSSToken::IdentToken { value: "a".into() },
            CSSToken::EOFToken
        ]
    );
}

#[test]
fn minus_prefers_number_then_cdc_then_ident() {
    let toks = Tokenizer::new("-5").tokenize();
    match &toks[0] {
        CSSToken::NumberToken { flag, value } => {
            assert_eq!(*flag, NumberType::Integer);
            assert_eq!(to_f64(value), -5.0);
        },
        other => panic!("gave {other:?}"),
    }
    assert_eq!(
        Tokenizer::new("-a").tokenize(),
        vec![CSSToken::IdentToken { value: "-a".into() }, CSSToken::EOFToken]
    );
    assert_eq!(
        Tokenizer::new("- ").tokenize(),
        vec![CSSToken::DelimToken { value: '-' }, CSSToken::WhitespaceToken, CSSToken::EOFToken]
    );
}
