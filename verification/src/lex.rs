//! Lexer errors and the mapping of raw lexer tokens to parser tokens.

use vstd::prelude::*;

use crate::span::{Span, Spanned};
use crate::token::{SpannedToken, Token};

verus! {

/// Possible errors encountered while tokenizing.
#[derive(Debug, Clone, Copy, PartialEq, Eq, Structural)]
pub enum LexerError {
    /// No valid token was found for the character.
    NoValidToken,
    /// A format string was encountered that wasn't closed correctly.
    UnclosedStringFormat(Span),
    /// A string was encountered that wasn't closed correctly.
    UnclosedString(Span),
}

impl LexerError {
    /// A descriptive name of the error type.
    pub fn kind(&self) -> (k: &'static str)
        ensures
            k@ == match self {
                LexerError::NoValidToken => "no valid token"@,
                LexerError::UnclosedStringFormat(_) => "unclosed format string"@,
                LexerError::UnclosedString(_) => "unclosed string"@,
            },
    {
        match self {
            LexerError::NoValidToken => "no valid token",
            LexerError::UnclosedStringFormat(_) => "unclosed format string",
            LexerError::UnclosedString(_) => "unclosed string",
        }
    }

    /// The span of the error, if it has one.
    pub open spec fn span_spec(&self) -> Option<Span> {
        match self {
            LexerError::NoValidToken => None,
            LexerError::UnclosedStringFormat(span) => Some(*span),
            LexerError::UnclosedString(span) => Some(*span),
        }
    }

    /// The span of the error, if it has one.
    pub fn span(&self) -> (s: Option<Span>)
        ensures
            s == self.span_spec(),
    {
        match self {
            LexerError::UnclosedStringFormat(span) => Some(*span),
            LexerError::UnclosedString(span) => Some(*span),
            _ => None,
        }
    }
}


/// A token as the raw lexer finds it, before it is mapped to parser tokens.
#[derive(Debug, PartialEq)]
pub enum NormalToken {
    /// Mapped to [`Token::Whitespace`].
    Whitespace(String),
    /// Mapped to [`Token::SingleLineComment`].
    SingleLineComment(String),
    /// Mapped to [`Token::MultiLineComment`].
    MultiLineComment(String),
    /// Mapped to [`Token::DocComment`].
    DocComment(String),
    /// Mapped to [`Token::InnerDocComment`].
    InnerDocComment(String),
    /// Mapped to [`Token::KeywordMod`].
    KeywordMod,
    /// Mapped to [`Token::KeywordPart`].
    KeywordPart,
    /// Mapped to [`Token::KeywordSketch`].
    KeywordSketch,
    /// Mapped to [`Token::KeywordOp`].
    KeywordOp,
    /// Mapped to [`Token::KeywordFn`].
    KeywordFn,
    /// Mapped to [`Token::KeywordIf`].
    KeywordIf,
    /// Mapped to [`Token::KeywordElse`].
    KeywordElse,
    /// Mapped to [`Token::KeywordUse`].
    KeywordUse,
    /// Mapped to [`Token::KeywordAs`].
    KeywordAs,
    /// Mapped to [`Token::KeywordReturn`].
    KeywordReturn,
    /// Mapped to [`Token::KeywordPub`].
    KeywordPub,
    /// Mapped to [`Token::KeywordConst`].
    KeywordConst,
    /// Mapped to [`Token::KeywordProp`].
    KeywordProp,
    /// Mapped to [`Token::KeywordInit`].
    KeywordInit,
    /// Mapped to [`Token::KeywordPlugin`].
    KeywordPlugin,
    /// Mapped to [`Token::KeywordAssembly`].
    KeywordAssembly,
    /// Mapped to [`Token::KeywordMaterial`].
    KeywordMaterial,
    /// Mapped to [`Token::KeywordUnit`].
    KeywordUnit,
    /// Mapped to [`Token::KeywordEnum`].
    KeywordEnum,
    /// Mapped to [`Token::KeywordStruct`].
    KeywordStruct,
    /// Mapped to [`Token::KeywordMatch`].
    KeywordMatch,
    /// Mapped to [`Token::KeywordType`].
    KeywordType,
    /// Mapped to [`Token::KeywordExtern`].
    KeywordExtern,
    /// Mapped to [`Token::Identifier`].
    Identifier(String),
    /// Mapped to [`Token::Unit`].
    Unit(String),
    /// Mapped to [`Token::LiteralInt`].
    LiteralInt(String),
    /// An integer directly followed by `..`: split into the integer and [`Token::SigilDoubleDot`].
    LiteralIntWithRange(String),
    /// Mapped to [`Token::LiteralFloat`].
    LiteralFloat(String),
    /// A `"`: a unit (inch) or a whole string.
    Quote(QuoteVariant),
    /// Mapped to `Token::LiteralBool(true)`.
    LiteralBoolTrue,
    /// Mapped to `Token::LiteralBool(false)`.
    LiteralBoolFalse,
    /// Mapped to [`Token::SigilColon`].
    SigilColon,
    /// Mapped to [`Token::SigilSemiColon`].
    SigilSemiColon,
    /// Mapped to [`Token::SigilDoubleColon`].
    SigilDoubleColon,
    /// Mapped to [`Token::SigilOpenBracket`].
    SigilOpenBracket,
    /// Mapped to [`Token::SigilCloseBracket`].
    SigilCloseBracket,
    /// Mapped to [`Token::SigilOpenSquareBracket`].
    SigilOpenSquareBracket,
    /// Mapped to [`Token::SigilCloseSquareBracket`].
    SigilCloseSquareBracket,
    /// Mapped to [`Token::SigilOpenCurlyBracket`].
    SigilOpenCurlyBracket,
    /// Mapped to [`Token::SigilCloseCurlyBracket`].
    SigilCloseCurlyBracket,
    /// Mapped to [`Token::SigilHash`].
    SigilHash,
    /// Mapped to [`Token::SigilDot`].
    SigilDot,
    /// Mapped to [`Token::SigilComma`].
    SigilComma,
    /// Mapped to [`Token::SigilDoubleDot`].
    SigilDoubleDot,
    /// Mapped to [`Token::SigilAt`].
    SigilAt,
    /// Mapped to [`Token::SigilSingleArrow`].
    SigilSingleArrow,
    /// Mapped to [`Token::OperatorAdd`].
    OperatorAdd,
    /// Mapped to [`Token::OperatorSubtract`].
    OperatorSubtract,
    /// Mapped to [`Token::OperatorMultiply`].
    OperatorMultiply,
    /// Mapped to [`Token::OperatorDivide`].
    OperatorDivide,
    /// Mapped to [`Token::OperatorUnion`].
    OperatorUnion,
    /// Mapped to [`Token::OperatorIntersect`].
    OperatorIntersect,
    /// Mapped to [`Token::OperatorPowerXor`].
    OperatorPowerXor,
    /// Mapped to [`Token::OperatorGreaterThan`].
    OperatorGreaterThan,
    /// Mapped to [`Token::OperatorLessThan`].
    OperatorLessThan,
    /// Mapped to [`Token::OperatorGreaterEqual`].
    OperatorGreaterEqual,
    /// Mapped to [`Token::OperatorLessEqual`].
    OperatorLessEqual,
    /// Mapped to [`Token::OperatorNear`].
    OperatorNear,
    /// Mapped to [`Token::OperatorEqual`].
    OperatorEqual,
    /// Mapped to [`Token::OperatorNotEqual`].
    OperatorNotEqual,
    /// Mapped to [`Token::OperatorAnd`].
    OperatorAnd,
    /// Mapped to [`Token::OperatorOr`].
    OperatorOr,
    /// Mapped to [`Token::OperatorXor`].
    OperatorXor,
    /// Mapped to [`Token::OperatorNot`].
    OperatorNot,
    /// Mapped to [`Token::OperatorAssignment`].
    OperatorAssignment,
}

/// A `"` as the raw lexer finds it.
#[derive(Debug, PartialEq)]
pub enum QuoteVariant {
    /// A lone `"`: the inch unit.
    Unit,
    /// A whole string with its parts.
    String {
        /// Span of the string, quotes included.
        span: Span,
        /// The parts between the quotes.
        contents: Vec<Spanned<StringToken>>,
    },
}

/// A part of a string as the raw lexer finds it.
#[derive(Debug, PartialEq)]
pub enum StringToken {
    /// Plain text.
    Content(String),
    /// An escaped character.
    Escaped(char),
    /// `\\`
    BackSlash,
    /// `{{`
    EscapedCurlyOpen,
    /// `}}`
    EscapedCurlyClose,
    /// `{expr:format}`: the tokens of the expression and of the format.
    FormatStart((Vec<Spanned<NormalToken>>, Vec<Spanned<StringFormatToken>>)),
    /// The closing `"`.
    Quote,
}

/// A part of a format specification as the raw lexer finds it.
#[derive(Debug, PartialEq)]
pub enum StringFormatToken {
    /// `}` ending the format.
    FormatEnd,
    /// `.N`
    FormatPrecision(String),
    /// `0N`
    FormatWidth(String),
    /// The end of the string reached inside the format.
    StringEnd,
}

/// What the raw lexer yields: a token or an error.
#[derive(Debug, PartialEq)]
pub enum LogosToken {
    /// A token.
    Normal(NormalToken),
    /// An error.
    Error(LexerError),
}

/// What a parser token is expected to be: exactly a token, or an integer or string literal
/// with the given text.
pub enum TokenShape {
    /// Exactly this token.
    Exact(Token),
    /// `Token::LiteralInt` with this text.
    IntText(Seq<char>),
    /// `Token::LiteralString` with this text.
    StrText(Seq<char>),
}

/// Does a produced token have the expected span and shape.
pub open spec fn realizes(t: SpannedToken, e: (Span, TokenShape)) -> bool {
    &&& t.span == e.0
    &&& match e.1 {
        TokenShape::Exact(tok) => t.value == tok,
        TokenShape::IntText(s) => t.value matches Token::LiteralInt(x) && x@ == s,
        TokenShape::StrText(s) => t.value matches Token::LiteralString(x) && x@ == s,
    }
}

/// `new` is `old` followed by tokens that realize `expected`, one for one.
pub open spec fn emits(old: Seq<SpannedToken>, new: Seq<SpannedToken>, expected: Seq<(Span, TokenShape)>) -> bool {
    &&& new.len() == old.len() + expected.len()
    &&& forall|i: int| 0 <= i < old.len() ==> new[i] == old[i]
    &&& forall|i: int| 0 <= i < expected.len() ==> realizes(#[trigger] new[old.len() + i], expected[i])
}

proof fn lemma_emits_trans(
    a: Seq<SpannedToken>,
    b: Seq<SpannedToken>,
    c: Seq<SpannedToken>,
    e1: Seq<(Span, TokenShape)>,
    e2: Seq<(Span, TokenShape)>,
)
    requires
        emits(a, b, e1),
        emits(b, c, e2),
    ensures
        emits(a, c, e1 + e2),
{
    assert forall|i: int| 0 <= i < (e1 + e2).len() implies realizes(
        #[trigger] c[a.len() + i],
        (e1 + e2)[i],
    ) by {
        if i < e1.len() {
            assert(c[a.len() + i] == b[a.len() + i]);
            assert(realizes(b[a.len() + i], e1[i]));
        } else {
            let k = i - e1.len();
            assert(c[b.len() + k] == c[a.len() + i]);
            assert(realizes(c[b.len() + k], e2[k]));
        }
    }
}

/// Pushes a token and records that it realizes its shape.
fn emit(out: &mut Vec<SpannedToken>, span: Span, tok: Token, Ghost(e): Ghost<(Span, TokenShape)>)
    requires
        realizes(Spanned { span, value: tok }, e),
    ensures
        emits(old(out)@, final(out)@, seq![e]),
{
    out.push(Spanned { span, value: tok });
}

/// The text of a string without format expressions or escapes: its parts' texts joined.
pub open spec fn literal_text(parts: Seq<Spanned<StringToken>>) -> Option<Seq<char>>
    decreases parts.len(),
{
    if parts.len() == 0 {
        Some(Seq::empty())
    } else {
        match (literal_text(parts.drop_last()), parts.last().value) {
            (Some(s), StringToken::Content(c)) => Some(s + c@),
            _ => None,
        }
    }
}


/// The one parser token a raw token maps to, for all but integers with a range and strings.
pub open spec fn simple_token(t: NormalToken) -> Token {
    match t {
        NormalToken::Whitespace(c) => Token::Whitespace(c),
        NormalToken::SingleLineComment(c) => Token::SingleLineComment(c),
        NormalToken::MultiLineComment(c) => Token::MultiLineComment(c),
        NormalToken::DocComment(c) => Token::DocComment(c),
        NormalToken::InnerDocComment(c) => Token::InnerDocComment(c),
        NormalToken::Identifier(c) => Token::Identifier(c),
        NormalToken::Unit(c) => Token::Unit(c),
        NormalToken::LiteralInt(c) => Token::LiteralInt(c),
        NormalToken::LiteralFloat(c) => Token::LiteralFloat(c),
        NormalToken::KeywordMod => Token::KeywordMod,
        NormalToken::KeywordPart => Token::KeywordPart,
        NormalToken::KeywordSketch => Token::KeywordSketch,
        NormalToken::KeywordOp => Token::KeywordOp,
        NormalToken::KeywordFn => Token::KeywordFn,
        NormalToken::KeywordIf => Token::KeywordIf,
        NormalToken::KeywordElse => Token::KeywordElse,
        NormalToken::KeywordUse => Token::KeywordUse,
        NormalToken::KeywordAs => Token::KeywordAs,
        NormalToken::KeywordReturn => Token::KeywordReturn,
        NormalToken::KeywordPub => Token::KeywordPub,
        NormalToken::KeywordConst => Token::KeywordConst,
        NormalToken::KeywordProp => Token::KeywordProp,
        NormalToken::KeywordInit => Token::KeywordInit,
        NormalToken::KeywordPlugin => Token::KeywordPlugin,
        NormalToken::KeywordAssembly => Token::KeywordAssembly,
        NormalToken::KeywordMaterial => Token::KeywordMaterial,
        NormalToken::KeywordUnit => Token::KeywordUnit,
        NormalToken::KeywordEnum => Token::KeywordEnum,
        NormalToken::KeywordStruct => Token::KeywordStruct,
        NormalToken::KeywordMatch => Token::KeywordMatch,
        NormalToken::KeywordType => Token::KeywordType,
        NormalToken::KeywordExtern => Token::KeywordExtern,
        NormalToken::SigilColon => Token::SigilColon,
        NormalToken::SigilSemiColon => Token::SigilSemiColon,
        NormalToken::SigilDoubleColon => Token::SigilDoubleColon,
        NormalToken::SigilOpenBracket => Token::SigilOpenBracket,
        NormalToken::SigilCloseBracket => Token::SigilCloseBracket,
        NormalToken::SigilOpenSquareBracket => Token::SigilOpenSquareBracket,
        NormalToken::SigilCloseSquareBracket => Token::SigilCloseSquareBracket,
        NormalToken::SigilOpenCurlyBracket => Token::SigilOpenCurlyBracket,
        NormalToken::SigilCloseCurlyBracket => Token::SigilCloseCurlyBracket,
        NormalToken::SigilHash => Token::SigilHash,
        NormalToken::SigilDot => Token::SigilDot,
        NormalToken::SigilComma => Token::SigilComma,
        NormalToken::SigilDoubleDot => Token::SigilDoubleDot,
        NormalToken::SigilAt => Token::SigilAt,
        NormalToken::SigilSingleArrow => Token::SigilSingleArrow,
        NormalToken::OperatorAdd => Token::OperatorAdd,
        NormalToken::OperatorSubtract => Token::OperatorSubtract,
        NormalToken::OperatorMultiply => Token::OperatorMultiply,
        NormalToken::OperatorDivide => Token::OperatorDivide,
        NormalToken::OperatorUnion => Token::OperatorUnion,
        NormalToken::OperatorIntersect => Token::OperatorIntersect,
        NormalToken::OperatorPowerXor => Token::OperatorPowerXor,
        NormalToken::OperatorGreaterThan => Token::OperatorGreaterThan,
        NormalToken::OperatorLessThan => Token::OperatorLessThan,
        NormalToken::OperatorGreaterEqual => Token::OperatorGreaterEqual,
        NormalToken::OperatorLessEqual => Token::OperatorLessEqual,
        NormalToken::OperatorNear => Token::OperatorNear,
        NormalToken::OperatorEqual => Token::OperatorEqual,
        NormalToken::OperatorNotEqual => Token::OperatorNotEqual,
        NormalToken::OperatorAnd => Token::OperatorAnd,
        NormalToken::OperatorOr => Token::OperatorOr,
        NormalToken::OperatorXor => Token::OperatorXor,
        NormalToken::OperatorNot => Token::OperatorNot,
        NormalToken::OperatorAssignment => Token::OperatorAssignment,
        NormalToken::LiteralBoolTrue => Token::LiteralBool(true),
        NormalToken::LiteralBoolFalse => Token::LiteralBool(false),
        NormalToken::Quote(_) => Token::SigilQuote,
        NormalToken::LiteralIntWithRange(c) => Token::LiteralInt(c),
    }
}

/// Maps a raw token that is neither an integer with a range nor a string.
fn simple_token_of(t: &NormalToken) -> (r: Token)
    ensures
        r == simple_token(*t),
{
    match t {
        NormalToken::Whitespace(c) => Token::Whitespace(c.clone()),
        NormalToken::SingleLineComment(c) => Token::SingleLineComment(c.clone()),
        NormalToken::MultiLineComment(c) => Token::MultiLineComment(c.clone()),
        NormalToken::DocComment(c) => Token::DocComment(c.clone()),
        NormalToken::InnerDocComment(c) => Token::InnerDocComment(c.clone()),
        NormalToken::Identifier(c) => Token::Identifier(c.clone()),
        NormalToken::Unit(c) => Token::Unit(c.clone()),
        NormalToken::LiteralInt(c) => Token::LiteralInt(c.clone()),
        NormalToken::LiteralFloat(c) => Token::LiteralFloat(c.clone()),
        NormalToken::KeywordMod => Token::KeywordMod,
        NormalToken::KeywordPart => Token::KeywordPart,
        NormalToken::KeywordSketch => Token::KeywordSketch,
        NormalToken::KeywordOp => Token::KeywordOp,
        NormalToken::KeywordFn => Token::KeywordFn,
        NormalToken::KeywordIf => Token::KeywordIf,
        NormalToken::KeywordElse => Token::KeywordElse,
        NormalToken::KeywordUse => Token::KeywordUse,
        NormalToken::KeywordAs => Token::KeywordAs,
        NormalToken::KeywordReturn => Token::KeywordReturn,
        NormalToken::KeywordPub => Token::KeywordPub,
        NormalToken::KeywordConst => Token::KeywordConst,
        NormalToken::KeywordProp => Token::KeywordProp,
        NormalToken::KeywordInit => Token::KeywordInit,
        NormalToken::KeywordPlugin => Token::KeywordPlugin,
        NormalToken::KeywordAssembly => Token::KeywordAssembly,
        NormalToken::KeywordMaterial => Token::KeywordMaterial,
        NormalToken::KeywordUnit => Token::KeywordUnit,
        NormalToken::KeywordEnum => Token::KeywordEnum,
        NormalToken::KeywordStruct => Token::KeywordStruct,
        NormalToken::KeywordMatch => Token::KeywordMatch,
        NormalToken::KeywordType => Token::KeywordType,
        NormalToken::KeywordExtern => Token::KeywordExtern,
        NormalToken::SigilColon => Token::SigilColon,
        NormalToken::SigilSemiColon => Token::SigilSemiColon,
        NormalToken::SigilDoubleColon => Token::SigilDoubleColon,
        NormalToken::SigilOpenBracket => Token::SigilOpenBracket,
        NormalToken::SigilCloseBracket => Token::SigilCloseBracket,
        NormalToken::SigilOpenSquareBracket => Token::SigilOpenSquareBracket,
        NormalToken::SigilCloseSquareBracket => Token::SigilCloseSquareBracket,
        NormalToken::SigilOpenCurlyBracket => Token::SigilOpenCurlyBracket,
        NormalToken::SigilCloseCurlyBracket => Token::SigilCloseCurlyBracket,
        NormalToken::SigilHash => Token::SigilHash,
        NormalToken::SigilDot => Token::SigilDot,
        NormalToken::SigilComma => Token::SigilComma,
        NormalToken::SigilDoubleDot => Token::SigilDoubleDot,
        NormalToken::SigilAt => Token::SigilAt,
        NormalToken::SigilSingleArrow => Token::SigilSingleArrow,
        NormalToken::OperatorAdd => Token::OperatorAdd,
        NormalToken::OperatorSubtract => Token::OperatorSubtract,
        NormalToken::OperatorMultiply => Token::OperatorMultiply,
        NormalToken::OperatorDivide => Token::OperatorDivide,
        NormalToken::OperatorUnion => Token::OperatorUnion,
        NormalToken::OperatorIntersect => Token::OperatorIntersect,
        NormalToken::OperatorPowerXor => Token::OperatorPowerXor,
        NormalToken::OperatorGreaterThan => Token::OperatorGreaterThan,
        NormalToken::OperatorLessThan => Token::OperatorLessThan,
        NormalToken::OperatorGreaterEqual => Token::OperatorGreaterEqual,
        NormalToken::OperatorLessEqual => Token::OperatorLessEqual,
        NormalToken::OperatorNear => Token::OperatorNear,
        NormalToken::OperatorEqual => Token::OperatorEqual,
        NormalToken::OperatorNotEqual => Token::OperatorNotEqual,
        NormalToken::OperatorAnd => Token::OperatorAnd,
        NormalToken::OperatorOr => Token::OperatorOr,
        NormalToken::OperatorXor => Token::OperatorXor,
        NormalToken::OperatorNot => Token::OperatorNot,
        NormalToken::OperatorAssignment => Token::OperatorAssignment,
        NormalToken::LiteralBoolTrue => Token::LiteralBool(true),
        NormalToken::LiteralBoolFalse => Token::LiteralBool(false),
        NormalToken::Quote(_) => Token::SigilQuote,
        NormalToken::LiteralIntWithRange(c) => Token::LiteralInt(c.clone()),
    }
}

/// Does a raw token fit the arithmetic of its mapping: an integer with a range ends with `..`
/// and its span ends at 2 or later; a string's span is not empty; and so on for its parts.
pub open spec fn normal_wf(t: Spanned<NormalToken>) -> bool
    decreases t,
{
    match t.value {
        NormalToken::LiteralIntWithRange(l) => {
            &&& l@.len() >= 2
            &&& l@[l@.len() - 2] == '.'
            &&& l@[l@.len() - 1] == '.'
            &&& t.span.end >= 2
        },
        NormalToken::Quote(QuoteVariant::String { span, contents }) => {
            &&& 1 <= span.end
            &&& span.start < usize::MAX
            &&& strings_wf(contents@)
        },
        _ => true,
    }
}

/// [`normal_wf`] of each token.
pub open spec fn normals_wf(ts: Seq<Spanned<NormalToken>>) -> bool
    decreases ts,
{
    if ts.len() == 0 {
        true
    } else {
        normals_wf(ts.drop_last()) && normal_wf(ts.last())
    }
}

/// Does a raw string part fit the arithmetic of its mapping.
pub open spec fn string_wf(t: Spanned<StringToken>) -> bool
    decreases t,
{
    match t.value {
        StringToken::FormatStart((expr, _)) => {
            &&& 1 <= t.span.end
            &&& t.span.start < usize::MAX
            &&& normals_wf(expr@)
        },
        _ => true,
    }
}

/// [`string_wf`] of each part.
pub open spec fn strings_wf(ts: Seq<Spanned<StringToken>>) -> bool
    decreases ts,
{
    if ts.len() == 0 {
        true
    } else {
        strings_wf(ts.drop_last()) && string_wf(ts.last())
    }
}

/// The parser tokens a raw token maps to.
///
/// An integer with a range `12..` becomes the integer `12` and `..`; a string without format
/// expressions becomes one string literal; any other string becomes its start, its parts
/// and its end; every other token becomes the one token of the same kind.
pub open spec fn normal_expected(t: Spanned<NormalToken>) -> Seq<(Span, TokenShape)>
    decreases t,
{
    match t.value {
        NormalToken::LiteralIntWithRange(l) => seq![
            (Span { start: t.span.start, end: (t.span.end - 2) as usize }, TokenShape::IntText(l@.subrange(0, l@.len() - 2))),
            (Span { start: (t.span.end - 2) as usize, end: t.span.end }, TokenShape::Exact(Token::SigilDoubleDot)),
        ],
        NormalToken::Quote(QuoteVariant::String { span, contents }) => match literal_text(contents@) {
            Some(lit) => seq![(span, TokenShape::StrText(lit))],
            None => seq![(Span { start: span.start, end: (span.start + 1) as usize }, TokenShape::Exact(Token::FormatStringStart))]
                + strings_expected(contents@)
                + seq![(Span { start: (span.end - 1) as usize, end: span.end }, TokenShape::Exact(Token::FormatStringEnd))],
        },
        other => seq![(t.span, TokenShape::Exact(simple_token(other)))],
    }
}

/// The parser tokens of raw tokens, one after the other.
pub open spec fn normals_expected(ts: Seq<Spanned<NormalToken>>) -> Seq<(Span, TokenShape)>
    decreases ts,
{
    if ts.len() == 0 {
        Seq::empty()
    } else {
        normals_expected(ts.drop_last()) + normal_expected(ts.last())
    }
}

/// The parser token of a format part.
pub open spec fn format_expected(t: Spanned<StringFormatToken>) -> (Span, TokenShape) {
    (t.span, TokenShape::Exact(match t.value {
        StringFormatToken::FormatEnd => Token::StringFormatClose,
        StringFormatToken::FormatPrecision(c) => Token::StringFormatPrecision(c),
        StringFormatToken::FormatWidth(c) => Token::StringFormatWidth(c),
        StringFormatToken::StringEnd => Token::StringFormatClose,
    }))
}

/// The parser tokens of format parts, one after the other.
pub open spec fn formats_expected(ts: Seq<Spanned<StringFormatToken>>) -> Seq<(Span, TokenShape)>
    decreases ts.len(),
{
    if ts.len() == 0 {
        Seq::empty()
    } else {
        formats_expected(ts.drop_last()).push(format_expected(ts.last()))
    }
}

/// The parser tokens a string part maps to.
///
/// Both escaped curly brackets map to the character `}`.
pub open spec fn string_expected(t: Spanned<StringToken>) -> Seq<(Span, TokenShape)>
    decreases t,
{
    match t.value {
        StringToken::Content(c) => seq![(t.span, TokenShape::Exact(Token::StringContent(c)))],
        StringToken::Escaped(c) => seq![(t.span, TokenShape::Exact(Token::Character(c)))],
        StringToken::BackSlash => seq![(t.span, TokenShape::Exact(Token::Character('\\')))],
        StringToken::EscapedCurlyOpen => seq![(t.span, TokenShape::Exact(Token::Character('}')))],
        StringToken::EscapedCurlyClose => seq![(t.span, TokenShape::Exact(Token::Character('}')))],
        StringToken::FormatStart((expr, format)) => seq![(Span { start: t.span.start, end: (t.span.start + 1) as usize }, TokenShape::Exact(Token::StringFormatOpen))]
            + normals_expected(expr@)
            + formats_expected(format@)
            + seq![(Span { start: (t.span.end - 1) as usize, end: t.span.end }, TokenShape::Exact(Token::StringFormatClose))],
        StringToken::Quote => seq![(t.span, TokenShape::Exact(Token::FormatStringEnd))],
    }
}

/// The parser tokens of string parts, one after the other.
pub open spec fn strings_expected(ts: Seq<Spanned<StringToken>>) -> Seq<(Span, TokenShape)>
    decreases ts,
{
    if ts.len() == 0 {
        Seq::empty()
    } else {
        strings_expected(ts.drop_last()) + string_expected(ts.last())
    }
}


proof fn lemma_strings_wf_at(s: Seq<Spanned<StringToken>>, i: int)
    requires
        strings_wf(s),
        0 <= i < s.len(),
    ensures
        string_wf(s[i]),
    decreases s.len(),
{
    if i < s.len() - 1 {
        lemma_strings_wf_at(s.drop_last(), i);
    }
}

proof fn lemma_normals_wf_at(s: Seq<Spanned<NormalToken>>, i: int)
    requires
        normals_wf(s),
        0 <= i < s.len(),
    ensures
        normal_wf(s[i]),
    decreases s.len(),
{
    if i < s.len() - 1 {
        lemma_normals_wf_at(s.drop_last(), i);
    }
}

/// The text of a string without format expressions or escapes, if it is one.
fn literal_string(parts: &Vec<Spanned<StringToken>>) -> (r: Option<String>)
    ensures
        r.is_some() == literal_text(parts@).is_some(),
        r.is_some() ==> r.unwrap()@ == literal_text(parts@).unwrap(),
{
    let mut text = String::new();
    let mut i: usize = 0;
    while i < parts.len()
        invariant
            i <= parts.len(),
            literal_text(parts@.take(i as int)) == Some(text@),
        decreases parts.len() - i,
    {
        assert(parts@.take(i + 1).drop_last() =~= parts@.take(i as int));
        match &parts[i].value {
            StringToken::Content(c) => {
                text.append(c.as_str());
            },
            _ => {
                proof {
                    let k = (i + 1) as int;
                    assert(literal_text(parts@.take(k)) is None);
                    lemma_literal_text_prefix(parts@, k);
                }
                return None;
            },
        }
        i = i + 1;
    }
    assert(parts@.take(parts@.len() as int) =~= parts@);
    Some(text)
}

proof fn lemma_literal_text_prefix(s: Seq<Spanned<StringToken>>, k: int)
    requires
        0 <= k <= s.len(),
        literal_text(s.take(k)) is None,
    ensures
        literal_text(s) is None,
    decreases s.len() - k,
{
    if k < s.len() {
        assert(s.take(k + 1).drop_last() =~= s.take(k));
        lemma_literal_text_prefix(s, k + 1);
    } else {
        assert(s.take(k) =~= s);
    }
}

/// Maps a raw token to the parser tokens it stands for, appended to `out`.
pub fn map_normal_token(token: &Spanned<NormalToken>, out: &mut Vec<SpannedToken>)
    requires
        normal_wf(*token),
    ensures
        emits(old(out)@, final(out)@, normal_expected(*token)),
{
    map_normal(token.span, &token.value, out);
}

/// Maps the raw token `value` found at `span`, appended to `out`.
fn map_normal(span0: Span, value: &NormalToken, out: &mut Vec<SpannedToken>)
    requires
        normal_wf(Spanned { span: span0, value: *value }),
    ensures
        emits(old(out)@, final(out)@, normal_expected(Spanned { span: span0, value: *value })),
    decreases *value,
{
    let ghost token = Spanned { span: span0, value: *value };
    let ghost start = out@;
    let ghost expected = normal_expected(token);
    match value {
        NormalToken::LiteralIntWithRange(l) => {
            let n = l.as_str().unicode_len();
            let cut = l.as_str().substring_char(0, n - 2).to_owned();
            emit(out, Span::new(span0.start, span0.end - 2), Token::LiteralInt(cut), Ghost(expected[0]));
            let ghost mid = out@;
            emit(out, Span::new(span0.end - 2, span0.end), Token::SigilDoubleDot, Ghost(expected[1]));
            proof {
                lemma_emits_trans(start, mid, out@, seq![expected[0]], seq![expected[1]]);
                assert(seq![expected[0]] + seq![expected[1]] =~= expected);
            }
        },
        NormalToken::Quote(QuoteVariant::String { span, contents }) => {
            match literal_string(contents) {
                Some(lit) => {
                    emit(out, *span, Token::LiteralString(lit), Ghost(expected[0]));
                },
                None => {
                    let ghost e1 = seq![(Span { start: span.start, end: (span.start + 1) as usize }, TokenShape::Exact(Token::FormatStringStart))];
                    let ghost e3 = seq![(Span { start: (span.end - 1) as usize, end: span.end }, TokenShape::Exact(Token::FormatStringEnd))];
                    emit(out, Span::new(span.start, span.start + 1), Token::FormatStringStart, Ghost(e1[0]));
                    let ghost m1 = out@;
                    map_string_tokens(contents, out);
                    let ghost m2 = out@;
                    emit(out, Span::new(span.end - 1, span.end), Token::FormatStringEnd, Ghost(e3[0]));
                    proof {
                        lemma_emits_trans(start, m1, m2, e1, strings_expected(contents@));
                        lemma_emits_trans(start, m2, out@, e1 + strings_expected(contents@), e3);
                    }
                },
            }
        },
        other => {
            emit(out, span0, simple_token_of(other), Ghost(expected[0]));
        },
    }
}

/// Maps raw tokens to the parser tokens they stand for, appended to `out` in order.
pub fn map_normal_tokens(tokens: &Vec<Spanned<NormalToken>>, out: &mut Vec<SpannedToken>)
    requires
        normals_wf(tokens@),
    ensures
        emits(old(out)@, final(out)@, normals_expected(tokens@)),
    decreases tokens,
{
    let ghost start = out@;
    let mut i: usize = 0;
    while i < tokens.len()
        invariant
            i <= tokens.len(),
            normals_wf(tokens@),
            emits(start, out@, normals_expected(tokens@.take(i as int))),
        decreases tokens.len() - i,
    {
        proof {
            assert(tokens@.take(i + 1).drop_last() =~= tokens@.take(i as int));
            lemma_normals_wf_at(tokens@, i as int);
            assert(decreases_to!(tokens@[i as int] => tokens@[i as int].value));
        }
        let ghost before = out@;
        map_normal(tokens[i].span, &tokens[i].value, out);
        proof {
            lemma_emits_trans(start, before, out@, normals_expected(tokens@.take(i as int)), normal_expected(tokens@[i as int]));
        }
        i = i + 1;
    }
    assert(tokens@.take(tokens@.len() as int) =~= tokens@);
}

/// Maps a string part to the parser tokens it stands for, appended to `out`.
pub fn map_string_token(token: &Spanned<StringToken>, out: &mut Vec<SpannedToken>)
    requires
        string_wf(*token),
    ensures
        emits(old(out)@, final(out)@, string_expected(*token)),
    decreases *token,
{
    let ghost expected = string_expected(*token);
    match &token.value {
        StringToken::Content(c) => emit(out, token.span, Token::StringContent(c.clone()), Ghost(expected[0])),
        StringToken::Escaped(c) => emit(out, token.span, Token::Character(*c), Ghost(expected[0])),
        StringToken::BackSlash => emit(out, token.span, Token::Character('\\'), Ghost(expected[0])),
        StringToken::EscapedCurlyOpen => emit(out, token.span, Token::Character('}'), Ghost(expected[0])),
        StringToken::EscapedCurlyClose => emit(out, token.span, Token::Character('}'), Ghost(expected[0])),
        StringToken::Quote => emit(out, token.span, Token::FormatStringEnd, Ghost(expected[0])),
        StringToken::FormatStart((expr, format)) => {
            let ghost start = out@;
            let ghost e1 = seq![(Span { start: token.span.start, end: (token.span.start + 1) as usize }, TokenShape::Exact(Token::StringFormatOpen))];
            let ghost e4 = seq![(Span { start: (token.span.end - 1) as usize, end: token.span.end }, TokenShape::Exact(Token::StringFormatClose))];
            emit(out, Span::new(token.span.start, token.span.start + 1), Token::StringFormatOpen, Ghost(e1[0]));
            let ghost m1 = out@;
            map_normal_tokens(expr, out);
            let ghost m2 = out@;
            map_format_tokens(format, out);
            let ghost m3 = out@;
            emit(out, Span::new(token.span.end - 1, token.span.end), Token::StringFormatClose, Ghost(e4[0]));
            proof {
                lemma_emits_trans(start, m1, m2, e1, normals_expected(expr@));
                lemma_emits_trans(start, m2, m3, e1 + normals_expected(expr@), formats_expected(format@));
                lemma_emits_trans(start, m3, out@, e1 + normals_expected(expr@) + formats_expected(format@), e4);
            }
        },
    }
}

/// Maps string parts to the parser tokens they stand for, appended to `out` in order.
pub fn map_string_tokens(tokens: &Vec<Spanned<StringToken>>, out: &mut Vec<SpannedToken>)
    requires
        strings_wf(tokens@),
    ensures
        emits(old(out)@, final(out)@, strings_expected(tokens@)),
    decreases tokens,
{
    let ghost start = out@;
    let mut i: usize = 0;
    while i < tokens.len()
        invariant
            i <= tokens.len(),
            strings_wf(tokens@),
            emits(start, out@, strings_expected(tokens@.take(i as int))),
        decreases tokens.len() - i,
    {
        proof {
            assert(tokens@.take(i + 1).drop_last() =~= tokens@.take(i as int));
            lemma_strings_wf_at(tokens@, i as int);
        }
        let ghost before = out@;
        map_string_token(&tokens[i], out);
        proof {
            lemma_emits_trans(start, before, out@, strings_expected(tokens@.take(i as int)), string_expected(tokens@[i as int]));
        }
        i = i + 1;
    }
    assert(tokens@.take(tokens@.len() as int) =~= tokens@);
}

/// Maps format parts to the parser tokens they stand for, appended to `out` in order.
pub fn map_format_tokens(tokens: &Vec<Spanned<StringFormatToken>>, out: &mut Vec<SpannedToken>)
    ensures
        emits(old(out)@, final(out)@, formats_expected(tokens@)),
{
    let ghost start = out@;
    let mut i: usize = 0;
    while i < tokens.len()
        invariant
            i <= tokens.len(),
            emits(start, out@, formats_expected(tokens@.take(i as int))),
        decreases tokens.len() - i,
    {
        assert(tokens@.take(i + 1).drop_last() =~= tokens@.take(i as int));
        let t = &tokens[i];
        let ghost e = format_expected(*t);
        let ghost before = out@;
        let tok = match &t.value {
            StringFormatToken::FormatEnd => Token::StringFormatClose,
            StringFormatToken::FormatPrecision(c) => Token::StringFormatPrecision(c.clone()),
            StringFormatToken::FormatWidth(c) => Token::StringFormatWidth(c.clone()),
            StringFormatToken::StringEnd => Token::StringFormatClose,
        };
        emit(out, t.span, tok, Ghost(e));
        proof {
            lemma_emits_trans(start, before, out@, formats_expected(tokens@.take(i as int)), seq![e]);
            assert(formats_expected(tokens@.take(i as int)) + seq![e] =~= formats_expected(tokens@.take(i + 1)));
        }
        i = i + 1;
    }
    assert(tokens@.take(tokens@.len() as int) =~= tokens@);
}

/// Maps a raw lexer token or error to parser tokens, appended to `out`.
pub fn map_token(token: &Spanned<LogosToken>, out: &mut Vec<SpannedToken>)
    requires
        (token.value matches LogosToken::Normal(t) ==> normal_wf(Spanned { span: token.span, value: t })),
    ensures
        match token.value {
            LogosToken::Normal(t) => emits(old(out)@, final(out)@, normal_expected(Spanned { span: token.span, value: t })),
            LogosToken::Error(e) => final(out)@ == old(out)@.push(Spanned { span: token.span, value: Token::Error(e) }),
        },
{
    match &token.value {
        LogosToken::Normal(t) => map_normal(token.span, t, out),
        LogosToken::Error(e) => out.push(Spanned { span: token.span, value: Token::Error(*e) }),
    }
}

/// What the raw lexer yields for one piece of input: a token or an error, with its span.
pub type RawToken = (Result<NormalToken, LexerError>, Span);

/// The parser tokens of one piece of raw lexer output: a token's mapping, or the error with
/// its own span if it has one, else the span where it was found.
pub open spec fn raw_expected(r: RawToken) -> Seq<(Span, TokenShape)> {
    match r.0 {
        Ok(t) => normal_expected(Spanned { span: r.1, value: t }),
        Err(e) => seq![(match e.span_spec() { Some(s) => s, None => r.1 }, TokenShape::Exact(Token::Error(e)))],
    }
}

/// The parser tokens of raw lexer output, one after the other.
pub open spec fn raws_expected(rs: Seq<RawToken>) -> Seq<(Span, TokenShape)>
    decreases rs.len(),
{
    if rs.len() == 0 {
        Seq::empty()
    } else {
        raws_expected(rs.drop_last()) + raw_expected(rs.last())
    }
}

/// Does raw lexer output fit the arithmetic of its mapping.
pub open spec fn raws_wf(rs: Seq<RawToken>) -> bool {
    forall|i: int| 0 <= i < rs.len() ==> ((#[trigger] rs[i]).0 matches Ok(t) ==> normal_wf(Spanned { span: rs[i].1, value: t }))
}

/// Maps the raw lexer output to the parser's tokens.
pub fn from_logos(tokens: &Vec<RawToken>) -> (out: Vec<SpannedToken>)
    requires
        raws_wf(tokens@),
    ensures
        emits(Seq::empty(), out@, raws_expected(tokens@)),
{
    let mut out: Vec<SpannedToken> = Vec::new();
    let mut i: usize = 0;
    while i < tokens.len()
        invariant
            i <= tokens.len(),
            raws_wf(tokens@),
            emits(Seq::empty(), out@, raws_expected(tokens@.take(i as int))),
        decreases tokens.len() - i,
    {
        assert(tokens@.take(i + 1).drop_last() =~= tokens@.take(i as int));
        let ghost before = out@;
        let ghost e = raw_expected(tokens@[i as int]);
        match &tokens[i].0 {
            Ok(t) => map_normal(tokens[i].1, t, &mut out),
            Err(err) => {
                let span = match err.span() {
                    Some(s) => s,
                    None => tokens[i].1,
                };
                emit(&mut out, span, Token::Error(*err), Ghost(e[0]));
            },
        }
        proof {
            lemma_emits_trans(Seq::empty(), before, out@, raws_expected(tokens@.take(i as int)), e);
        }
        i = i + 1;
    }
    assert(tokens@.take(tokens@.len() as int) =~= tokens@);
    out
}


} // verus!
