//! Tokens of µcad source code.

use vstd::prelude::*;

use crate::lex::LexerError;
use crate::span::Spanned;

verus! {

/// A token produced by the lexer.
#[derive(Debug, Clone, PartialEq)]
pub enum Token {
    /// Whitespace.
    Whitespace(String),
    /// `// comment`
    SingleLineComment(String),
    /// `/* comment */`
    MultiLineComment(String),
    /// `/// doc`
    DocComment(String),
    /// `//! inner doc`
    InnerDocComment(String),
    /// `mod`
    KeywordMod,
    /// `part`
    KeywordPart,
    /// `sketch`
    KeywordSketch,
    /// `op`
    KeywordOp,
    /// `fn`
    KeywordFn,
    /// `if`
    KeywordIf,
    /// `else`
    KeywordElse,
    /// `use`
    KeywordUse,
    /// `as`
    KeywordAs,
    /// `return`
    KeywordReturn,
    /// `pub`
    KeywordPub,
    /// `const`
    KeywordConst,
    /// `prop`
    KeywordProp,
    /// `init`
    KeywordInit,
    /// `plugin` (reserved)
    KeywordPlugin,
    /// `assembly` (reserved)
    KeywordAssembly,
    /// `material` (reserved)
    KeywordMaterial,
    /// `unit` (reserved)
    KeywordUnit,
    /// `enum` (reserved)
    KeywordEnum,
    /// `struct` (reserved)
    KeywordStruct,
    /// `match` (reserved)
    KeywordMatch,
    /// `type` (reserved)
    KeywordType,
    /// `extern` (reserved)
    KeywordExtern,
    /// An identifier.
    Identifier(String),
    /// A unit suffix such as `mm` or `°`.
    Unit(String),
    /// An integer literal.
    LiteralInt(String),
    /// A float literal.
    LiteralFloat(String),
    /// A string literal without format expressions.
    LiteralString(String),
    /// `true` or `false`.
    LiteralBool(bool),
    /// Start of a format string.
    FormatStringStart,
    /// End of a format string.
    FormatStringEnd,
    /// Plain content of a format string.
    StringContent(String),
    /// An escaped character of a format string.
    Character(char),
    /// `{` opening a format expression.
    StringFormatOpen,
    /// `}` closing a format expression.
    StringFormatClose,
    /// `.N` precision of a format expression.
    StringFormatPrecision(String),
    /// `0N` width of a format expression.
    StringFormatWidth(String),
    /// `:`
    SigilColon,
    /// `;`
    SigilSemiColon,
    /// `::`
    SigilDoubleColon,
    /// `(`
    SigilOpenBracket,
    /// `)`
    SigilCloseBracket,
    /// `[`
    SigilOpenSquareBracket,
    /// `]`
    SigilCloseSquareBracket,
    /// `{`
    SigilOpenCurlyBracket,
    /// `}`
    SigilCloseCurlyBracket,
    /// `#`
    SigilHash,
    /// `.`
    SigilDot,
    /// `,`
    SigilComma,
    /// `..`
    SigilDoubleDot,
    /// `@`
    SigilAt,
    /// `->`
    SigilSingleArrow,
    /// `"` used as unit (inch).
    SigilQuote,
    /// `+`
    OperatorAdd,
    /// `-`
    OperatorSubtract,
    /// `*`
    OperatorMultiply,
    /// `/`
    OperatorDivide,
    /// `|`
    OperatorUnion,
    /// `&`
    OperatorIntersect,
    /// `^`
    OperatorPowerXor,
    /// `>`
    OperatorGreaterThan,
    /// `<`
    OperatorLessThan,
    /// `>=`
    OperatorGreaterEqual,
    /// `<=`
    OperatorLessEqual,
    /// `~`
    OperatorNear,
    /// `==`
    OperatorEqual,
    /// `!=`
    OperatorNotEqual,
    /// `and`
    OperatorAnd,
    /// `or`
    OperatorOr,
    /// `xor`
    OperatorXor,
    /// `!`
    OperatorNot,
    /// `=`
    OperatorAssignment,
    /// A lexer error.
    Error(LexerError),
}

impl Token {
    /// A short description of the kind of token, as used in messages.
    pub open spec fn kind_spec(&self) -> Seq<char> {
        match self {
            Token::Whitespace(_) => "whitespace"@,
            Token::SingleLineComment(_) => "comment"@,
            Token::MultiLineComment(_) => "comment"@,
            Token::DocComment(_) => "doc comment"@,
            Token::InnerDocComment(_) => "inner doc comment"@,
            Token::KeywordMod => "'mod'"@,
            Token::KeywordPart => "'part'"@,
            Token::KeywordSketch => "'sketch'"@,
            Token::KeywordOp => "'op'"@,
            Token::KeywordFn => "'fn'"@,
            Token::KeywordIf => "'if'"@,
            Token::KeywordElse => "'else'"@,
            Token::KeywordUse => "'use'"@,
            Token::KeywordAs => "'as'"@,
            Token::KeywordReturn => "'return'"@,
            Token::KeywordPub => "'pub'"@,
            Token::KeywordConst => "'const'"@,
            Token::KeywordProp => "'prop'"@,
            Token::KeywordInit => "'init'"@,
            Token::KeywordPlugin => "'plugin'"@,
            Token::KeywordAssembly => "'assembly'"@,
            Token::KeywordMaterial => "'material'"@,
            Token::KeywordUnit => "'unit'"@,
            Token::KeywordEnum => "'enum'"@,
            Token::KeywordStruct => "'struct'"@,
            Token::KeywordMatch => "'match'"@,
            Token::KeywordType => "'type'"@,
            Token::KeywordExtern => "'extern'"@,
            Token::Identifier(_) => "identifier"@,
            Token::Unit(_) => "unit"@,
            Token::LiteralInt(_) => "integer"@,
            Token::LiteralFloat(_) => "float"@,
            Token::LiteralString(_) => "string"@,
            Token::LiteralBool(_) => "boolean"@,
            Token::FormatStringStart => "format string start"@,
            Token::FormatStringEnd => "format string end"@,
            Token::StringContent(_) => "string content"@,
            Token::Character(_) => "character"@,
            Token::StringFormatOpen => "'{'"@,
            Token::StringFormatClose => "'}'"@,
            Token::StringFormatPrecision(_) => "format precision"@,
            Token::StringFormatWidth(_) => "format width"@,
            Token::SigilColon => "':'"@,
            Token::SigilSemiColon => "';'"@,
            Token::SigilDoubleColon => "'::'"@,
            Token::SigilOpenBracket => "'('"@,
            Token::SigilCloseBracket => "')'"@,
            Token::SigilOpenSquareBracket => "'['"@,
            Token::SigilCloseSquareBracket => "']'"@,
            Token::SigilOpenCurlyBracket => "'{'"@,
            Token::SigilCloseCurlyBracket => "'}'"@,
            Token::SigilHash => "'#'"@,
            Token::SigilDot => "'.'"@,
            Token::SigilComma => "','"@,
            Token::SigilDoubleDot => "'..'"@,
            Token::SigilAt => "'@'"@,
            Token::SigilSingleArrow => "'->'"@,
            Token::SigilQuote => "'\"'"@,
            Token::OperatorAdd => "'+'"@,
            Token::OperatorSubtract => "'-'"@,
            Token::OperatorMultiply => "'*'"@,
            Token::OperatorDivide => "'/'"@,
            Token::OperatorUnion => "'|'"@,
            Token::OperatorIntersect => "'&'"@,
            Token::OperatorPowerXor => "'^'"@,
            Token::OperatorGreaterThan => "'>'"@,
            Token::OperatorLessThan => "'<'"@,
            Token::OperatorGreaterEqual => "'>='"@,
            Token::OperatorLessEqual => "'<='"@,
            Token::OperatorNear => "'~'"@,
            Token::OperatorEqual => "'=='"@,
            Token::OperatorNotEqual => "'!='"@,
            Token::OperatorAnd => "'and'"@,
            Token::OperatorOr => "'or'"@,
            Token::OperatorXor => "'xor'"@,
            Token::OperatorNot => "'!'"@,
            Token::OperatorAssignment => "'='"@,
            Token::Error(e) => match e {
                LexerError::NoValidToken => "no valid token"@,
                LexerError::UnclosedStringFormat(_) => "unclosed format string"@,
                LexerError::UnclosedString(_) => "unclosed string"@,
            },
        }
    }

    /// A short description of the kind of token, as used in messages.
    pub fn kind(&self) -> (k: &'static str)
        ensures
            k@ == self.kind_spec(),
    {
        match self {
            Token::Whitespace(_) => "whitespace",
            Token::SingleLineComment(_) => "comment",
            Token::MultiLineComment(_) => "comment",
            Token::DocComment(_) => "doc comment",
            Token::InnerDocComment(_) => "inner doc comment",
            Token::KeywordMod => "'mod'",
            Token::KeywordPart => "'part'",
            Token::KeywordSketch => "'sketch'",
            Token::KeywordOp => "'op'",
            Token::KeywordFn => "'fn'",
            Token::KeywordIf => "'if'",
            Token::KeywordElse => "'else'",
            Token::KeywordUse => "'use'",
            Token::KeywordAs => "'as'",
            Token::KeywordReturn => "'return'",
            Token::KeywordPub => "'pub'",
            Token::KeywordConst => "'const'",
            Token::KeywordProp => "'prop'",
            Token::KeywordInit => "'init'",
            Token::KeywordPlugin => "'plugin'",
            Token::KeywordAssembly => "'assembly'",
            Token::KeywordMaterial => "'material'",
            Token::KeywordUnit => "'unit'",
            Token::KeywordEnum => "'enum'",
            Token::KeywordStruct => "'struct'",
            Token::KeywordMatch => "'match'",
            Token::KeywordType => "'type'",
            Token::KeywordExtern => "'extern'",
            Token::Identifier(_) => "identifier",
            Token::Unit(_) => "unit",
            Token::LiteralInt(_) => "integer",
            Token::LiteralFloat(_) => "float",
            Token::LiteralString(_) => "string",
            Token::LiteralBool(_) => "boolean",
            Token::FormatStringStart => "format string start",
            Token::FormatStringEnd => "format string end",
            Token::StringContent(_) => "string content",
            Token::Character(_) => "character",
            Token::StringFormatOpen => "'{'",
            Token::StringFormatClose => "'}'",
            Token::StringFormatPrecision(_) => "format precision",
            Token::StringFormatWidth(_) => "format width",
            Token::SigilColon => "':'",
            Token::SigilSemiColon => "';'",
            Token::SigilDoubleColon => "'::'",
            Token::SigilOpenBracket => "'('",
            Token::SigilCloseBracket => "')'",
            Token::SigilOpenSquareBracket => "'['",
            Token::SigilCloseSquareBracket => "']'",
            Token::SigilOpenCurlyBracket => "'{'",
            Token::SigilCloseCurlyBracket => "'}'",
            Token::SigilHash => "'#'",
            Token::SigilDot => "'.'",
            Token::SigilComma => "','",
            Token::SigilDoubleDot => "'..'",
            Token::SigilAt => "'@'",
            Token::SigilSingleArrow => "'->'",
            Token::SigilQuote => "'\"'",
            Token::OperatorAdd => "'+'",
            Token::OperatorSubtract => "'-'",
            Token::OperatorMultiply => "'*'",
            Token::OperatorDivide => "'/'",
            Token::OperatorUnion => "'|'",
            Token::OperatorIntersect => "'&'",
            Token::OperatorPowerXor => "'^'",
            Token::OperatorGreaterThan => "'>'",
            Token::OperatorLessThan => "'<'",
            Token::OperatorGreaterEqual => "'>='",
            Token::OperatorLessEqual => "'<='",
            Token::OperatorNear => "'~'",
            Token::OperatorEqual => "'=='",
            Token::OperatorNotEqual => "'!='",
            Token::OperatorAnd => "'and'",
            Token::OperatorOr => "'or'",
            Token::OperatorXor => "'xor'",
            Token::OperatorNot => "'!'",
            Token::OperatorAssignment => "'='",
            Token::Error(e) => e.kind(),
        }
    }
}

/// A token with its span.
pub type SpannedToken = Spanned<Token>;

} // verus!
