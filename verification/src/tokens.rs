use vstd::prelude::*;

verus! {

/// Type flag shared by numeric tokens: `Integer` when the scanned text had
/// neither a decimal point nor an exponent part, `Number` otherwise.
#[derive(Clone, Copy, Debug, PartialEq, Eq)]
pub enum NumberType {
    Integer,
    Number,
}

/// Flag of a hash token: `Id` when the three code points after `#` would
/// start an ident sequence, `Unrestricted` otherwise.
#[derive(Clone, Copy, Debug, PartialEq, Eq)]
pub enum HashTokenFlag {
    Id,
    Unrestricted,
}

/// The numeric components scanned from a numeric token, kept as plain values.
/// The number the token denotes is
/// `s * (i + f * 10^(-d)) * 10^(t * e)`, where `s` is -1 when `negative`
/// holds and 1 otherwise, `i` and `f` are the base-10 values of `integer`
/// and `fraction` (0 when empty), `d` is `fraction`'s digit count, `t` is -1
/// when `exponent_negative` holds and 1 otherwise, and `e` is the base-10
/// value of `exponent` (0 when empty). Digit runs are kept as text so that
/// nothing is lost; evaluating the closed form as a machine float is left to
/// callers.
#[derive(Clone, Debug, PartialEq)]
pub struct NumericValue {
    pub negative: bool,
    pub integer: String,
    pub fraction: String,
    pub exponent_negative: bool,
    pub exponent: String,
}

/// Mathematical image of `NumericValue`, with digit runs as `Seq<char>`.
pub struct NumericView {
    pub negative: bool,
    pub integer: Seq<char>,
    pub fraction: Seq<char>,
    pub exponent_negative: bool,
    pub exponent: Seq<char>,
}

impl View for NumericValue {
    type V = NumericView;

    open spec fn view(&self) -> NumericView {
        NumericView {
            negative: self.negative,
            integer: self.integer@,
            fraction: self.fraction@,
            exponent_negative: self.exponent_negative,
            exponent: self.exponent@,
        }
    }
}

/// A scanned number: its components and its type flag.
#[derive(Clone, Debug, PartialEq)]
pub struct Number {
    pub value: NumericValue,
    pub kind: NumberType,
}

/// One CSS token. Every variant except `EOFToken` is produced by consuming at
/// least one code point; a token stream always ends in exactly one `EOFToken`.
#[derive(Clone, Debug, PartialEq)]
pub enum CSSToken {
    EOFToken,
    WhitespaceToken,
    StringToken { string: String },
    BadStringToken,
    HashToken { flag: HashTokenFlag, value: String },
    DelimToken { value: char },
    LeftParenthesisToken,
    RightParenthesisToken,
    NumberToken { flag: NumberType, value: NumericValue },
    PercentageToken { flag: NumberType, value: NumericValue },
    DimensionToken { flag: NumberType, value: NumericValue, unit: String },
    CommaToken,
    CDCToken,
    FunctionToken { value: String },
    URLToken { value: String },
    BadURLToken,
    IdentToken { value: String },
    ColonToken,
    SemicolonToken,
    CDOToken,
    AtKeywordToken { value: String },
    LeftSquareBracketToken,
    RightSquareBracketToken,
    LeftCurlyBracketToken,
    RightCurlyBracketToken,
}

/// Mathematical image of `CSSToken`, with text payloads as `Seq<char>`.
pub enum TokenView {
    EOF,
    Whitespace,
    Str { string: Seq<char> },
    BadStr,
    Hash { flag: HashTokenFlag, value: Seq<char> },
    Delim { value: char },
    LeftParen,
    RightParen,
    Num { flag: NumberType, value: NumericView },
    Percent { flag: NumberType, value: NumericView },
    Dim { flag: NumberType, value: NumericView, unit: Seq<char> },
    Comma,
    CDC,
    Function { value: Seq<char> },
    Url { value: Seq<char> },
    BadUrl,
    Ident { value: Seq<char> },
    Colon,
    Semicolon,
    CDO,
    AtKeyword { value: Seq<char> },
    LeftSquare,
    RightSquare,
    LeftCurly,
    RightCurly,
}

impl View for CSSToken {
    type V = TokenView;

    open spec fn view(&self) -> TokenView {
        match self {
            CSSToken::EOFToken => TokenView::EOF,
            CSSToken::WhitespaceToken => TokenView::Whitespace,
            CSSToken::StringToken { string } => TokenView::Str { string: string@ },
            CSSToken::BadStringToken => TokenView::BadStr,
            CSSToken::HashToken { flag, value } => TokenView::Hash { flag: *flag, value: value@ },
            CSSToken::DelimToken { value } => TokenView::Delim { value: *value },
            CSSToken::LeftParenthesisToken => TokenView::LeftParen,
            CSSToken::RightParenthesisToken => TokenView::RightParen,
            CSSToken::NumberToken { flag, value } => TokenView::Num {
                flag: *flag,
                value: value@,
            },
            CSSToken::PercentageToken { flag, value } => TokenView::Percent {
                flag: *flag,
                value: value@,
            },
            CSSToken::DimensionToken { flag, value, unit } => TokenView::Dim {
                flag: *flag,
                value: value@,
                unit: unit@,
            },
            CSSToken::CommaToken => TokenView::Comma,
            CSSToken::CDCToken => TokenView::CDC,
            CSSToken::FunctionToken { value } => TokenView::Function { value: value@ },
            CSSToken::URLToken { value } => TokenView::Url { value: value@ },
            CSSToken::BadURLToken => TokenView::BadUrl,
            CSSToken::IdentToken { value } => TokenView::Ident { value: value@ },
            CSSToken::ColonToken => TokenView::Colon,
            CSSToken::SemicolonToken => TokenView::Semicolon,
            CSSToken::CDOToken => TokenView::CDO,
            CSSToken::AtKeywordToken { value } => TokenView::AtKeyword { value: value@ },
            CSSToken::LeftSquareBracketToken => TokenView::LeftSquare,
            CSSToken::RightSquareBracketToken => TokenView::RightSquare,
            CSSToken::LeftCurlyBracketToken => TokenView::LeftCurly,
            CSSToken::RightCurlyBracketToken => TokenView::RightCurly,
        }
    }
}

/// The images of a sequence of tokens.
pub open spec fn views_of(toks: Seq<CSSToken>) -> Seq<TokenView> {
    toks.map_values(|t: CSSToken| t@)
}

} // verus!
