//! The parser: builds the syntax tree of a µcad program from its tokens.
//!
//! A recursive descent parser with ordered choice, greedy repetition and backtracking.
//! Errors found on the way are collected; those of an alternative that is given up are
//! dropped with it. The span of each node is the range of tokens it was parsed from.

use vstd::prelude::*;

use crate::ast::{
    Argument, ArgumentList, ArrayItem, ArrayListExpression, ArrayRangeExpression, ArrayType,
    Attribute, AttributeCommand, BinaryOperation, BinaryOperator, Body, BoolLiteral, Call,
    Comment, CommentInner, ConstAssignment, Definition, DocBlock, Element, ElementAccess,
    ElementInner, Expression, ExpressionStatement, FloatLiteral, FormatString, Identifier, If,
    InnerDocComment, IntErrorKind, IntegerLiteral, ItemExtra, ItemExtras, LeadingExtras, Literal,
    LiteralError, LiteralErrorKind, LiteralKind, LocalAssignment, NamedArgument, Parameter,
    ParameterList, Program, PropertyAssignment, QuantityLiteral, Return, SingleType, Statement,
    StatementList, StringCharacter, StringExpression, StringFormatSpecification, StringLiteral,
    StringPart, SymbolPath, TrailingExtras, TupleExpression, TupleItem, TupleType, Type,
    UnaryOperation, UnaryOperator, Unit, UnnamedArgument, UseName, UseStatement,
    UseStatementPart, Visibility, Whitespace, WorkbenchKind,
};
use crate::lex::LexerError;
use crate::library::opt_int;
use crate::span::{Span, Spanned};
use crate::token::{SpannedToken, Token};

verus! {

/// Why parsing failed at some place.
#[derive(Debug, Clone, PartialEq)]
pub enum ParseErrorKind {
    /// A reserved keyword used as a statement.
    ReservedKeyword(&'static str),
    /// A reserved keyword used as an identifier.
    ReservedKeywordAsIdentifier(&'static str),
    /// A keyword used as an identifier.
    KeywordAsIdentifier(&'static str),
    /// A string that is not closed.
    UnterminatedString,
    /// A bracket that is not closed.
    UnclosedBracket {
        /// Where it was opened.
        open: Span,
        /// Where it should have been closed.
        end: Span,
        /// What the brackets enclose.
        kind: &'static str,
        /// The closing token expected.
        close_token: Token,
    },
    /// An expression statement without its semicolon.
    ExpressionMissingSemicolon {
        /// The expression.
        span: Span,
    },
    /// Something else was found where one of `expected` was expected.
    Expected {
        /// Labels of what was expected.
        expected: Vec<&'static str>,
        /// The kind of token found, if any.
        found: Option<&'static str>,
        /// Was the token found a lexer error.
        found_is_error: bool,
    },
}

/// An error from building the syntax tree.
#[derive(Debug, Clone, PartialEq)]
pub struct ParseError {
    /// The span of the source that caused the error.
    pub span: Span,
    /// What went wrong.
    pub kind: ParseErrorKind,
}

/// Is a label other than `whitespace`.
pub open spec fn not_whitespace() -> spec_fn(Seq<char>) -> bool {
    |l: Seq<char>| l != "whitespace"@
}

/// The labels that an error message lists: all of them, except `whitespace` where there
/// is more than one.
pub open spec fn shown_labels(labels: Seq<&'static str>) -> Seq<Seq<char>> {
    let all = labels.map_values(|l: &'static str| l@);
    if labels.len() > 1 {
        all.filter(not_whitespace())
    } else {
        all
    }
}

/// Labels joined as in `a, b, c or d`.
pub open spec fn join_or(labels: Seq<Seq<char>>) -> Seq<char> {
    if labels.len() == 0 {
        Seq::empty()
    } else if labels.len() == 1 {
        labels[0]
    } else {
        join_commas(labels.drop_last()) + " or "@ + labels.last()
    }
}

/// Labels joined with `, `.
pub open spec fn join_commas(labels: Seq<Seq<char>>) -> Seq<char>
    decreases labels.len(),
{
    if labels.len() == 0 {
        Seq::empty()
    } else if labels.len() == 1 {
        labels[0]
    } else {
        join_commas(labels.drop_last()) + ", "@ + labels.last()
    }
}

/// `'` + `k` + `'` + `rest`.
pub open spec fn quoted(k: &'static str, rest: Seq<char>) -> Seq<char> {
    "'"@ + k@ + "'"@ + rest
}

/// The message of a parse error.
pub open spec fn message_spec(kind: ParseErrorKind) -> Seq<char> {
    match kind {
        ParseErrorKind::ReservedKeyword(k) => quoted(k, " is a reserved keyword"@),
        ParseErrorKind::ReservedKeywordAsIdentifier(k) => quoted(k, " is a reserved keyword and can't be used as an identifier"@),
        ParseErrorKind::KeywordAsIdentifier(k) => quoted(k, " is a keyword and can't be used as an identifier"@),
        ParseErrorKind::UnterminatedString => "unclosed string"@,
        ParseErrorKind::UnclosedBracket { kind, .. } => "Unclosed "@ + kind@,
        ParseErrorKind::ExpressionMissingSemicolon { .. } => "Expression statements need to have a trailing semicolon"@,
        ParseErrorKind::Expected { expected, .. } => "Expected "@ + join_or(shown_labels(expected@)),
    }
}

impl ParseError {
    /// The message of the error: what went wrong, or what was expected, as in
    /// `Expected a, b or c`; `whitespace` is left out where other things are listed too.
    pub fn message(&self) -> (m: String)
        ensures
            m@ == message_spec(self.kind),
    {
        let mut m = String::new();
        proof {
            reveal_strlit("'");
            reveal_strlit("Unclosed ");
            reveal_strlit("Expected ");
            reveal_strlit(", ");
            reveal_strlit(" or ");
            reveal_strlit("whitespace");
        }
        match &self.kind {
            ParseErrorKind::ReservedKeyword(k) => {
                m.append("'");
                m.append(k);
                m.append("'");
                m.append(" is a reserved keyword");
            },
            ParseErrorKind::ReservedKeywordAsIdentifier(k) => {
                m.append("'");
                m.append(k);
                m.append("'");
                m.append(" is a reserved keyword and can't be used as an identifier");
            },
            ParseErrorKind::KeywordAsIdentifier(k) => {
                m.append("'");
                m.append(k);
                m.append("'");
                m.append(" is a keyword and can't be used as an identifier");
            },
            ParseErrorKind::UnterminatedString => {
                m.append("unclosed string");
            },
            ParseErrorKind::UnclosedBracket { kind, .. } => {
                m.append("Unclosed ");
                m.append(kind);
            },
            ParseErrorKind::ExpressionMissingSemicolon { .. } => {
                m.append("Expression statements need to have a trailing semicolon");
            },
            ParseErrorKind::Expected { expected, .. } => {
                m.append("Expected ");
                let shown = shown(expected);
                let n = shown.len();
                let mut i: usize = 0;
                while i < n
                    invariant
                        n == shown@.len(),
                        i <= n,
                        m@ == "Expected "@ + prefix_text(texts_of(shown@), i as int),
                    decreases n - i,
                {
                    if i > 0 {
                        if i + 1 == n {
                            m.append(" or ");
                        } else {
                            m.append(", ");
                        }
                    }
                    m.append(shown[i]);
                    i = i + 1;
                }
                proof {
                    lemma_prefix_text_full(texts_of(shown@));
                }
            },
        }
        m
    }
}

/// The texts of labels.
pub open spec fn texts_of(labels: Seq<&'static str>) -> Seq<Seq<char>> {
    labels.map_values(|l: &'static str| l@)
}

/// The first `i` labels joined as the message joins all of them: with `, `, and ` or `
/// before the last label of all.
pub open spec fn prefix_text(labels: Seq<Seq<char>>, i: int) -> Seq<char>
    decreases i,
{
    if i <= 0 {
        Seq::empty()
    } else if i == 1 {
        labels[0]
    } else {
        prefix_text(labels, i - 1) + (if i == labels.len() { " or "@ } else { ", "@ }) + labels[i - 1]
    }
}

proof fn lemma_prefix_text_full(labels: Seq<Seq<char>>)
    ensures
        prefix_text(labels, labels.len() as int) == join_or(labels),
{
    let n = labels.len() as int;
    if n >= 2 {
        lemma_prefix_commas(labels, n - 1);
        assert(labels.drop_last().len() == n - 1);
    }
}

proof fn lemma_prefix_commas(labels: Seq<Seq<char>>, i: int)
    requires
        0 <= i < labels.len(),
    ensures
        prefix_text(labels, i) == join_commas(labels.take(i)),
    decreases i,
{
    if i >= 2 {
        lemma_prefix_commas(labels, i - 1);
        assert(labels.take(i).drop_last() =~= labels.take(i - 1));
    } else if i == 1 {
        assert(labels.take(1)[0] == labels[0]);
    } else {
        assert(labels.take(0) =~= Seq::<Seq<char>>::empty());
    }
}

/// The labels a message shows.
fn shown(labels: &Vec<&'static str>) -> (r: Vec<&'static str>)
    ensures
        texts_of(r@) == shown_labels(labels@),
{
    let mut r: Vec<&'static str> = Vec::new();
    let n = labels.len();
    if n <= 1 {
        let mut i: usize = 0;
        while i < n
            invariant
                i <= n,
                n == labels@.len(),
                r@ == labels@.take(i as int),
            decreases n - i,
        {
            r.push(labels[i]);
            i = i + 1;
            assert(r@ =~= labels@.take(i as int));
        }
        assert(labels@.take(n as int) =~= labels@);
        return r;
    }
    proof {
        reveal_strlit("whitespace");
    }
    let mut i: usize = 0;
    while i < n
        invariant
            i <= n,
            n == labels@.len(),
            texts_of(r@) == texts_of(labels@.take(i as int)).filter(not_whitespace()),
        decreases n - i,
    {
        let ghost before = r@;
        let l = labels[i];
        let is_ws = crate::visitor::text_equals(l, "whitespace");
        if !is_ws {
            r.push(l);
        }
        proof {
            let t = texts_of(labels@.take(i + 1));
            assert(t.drop_last() =~= texts_of(labels@.take(i as int)));
            assert(t.last() == l@);
            lemma_filter_push(texts_of(labels@.take(i as int)), l@);
            assert(texts_of(labels@.take(i as int)).push(l@) =~= t);
            assert(texts_of(r@) =~= if is_ws { texts_of(before) } else { texts_of(before).push(l@) });
        }
        i = i + 1;
    }
    assert(labels@.take(n as int) =~= labels@);
    r
}

proof fn lemma_filter_push(s: Seq<Seq<char>>, x: Seq<char>)
    ensures
        s.push(x).filter(not_whitespace()) == if x != "whitespace"@ {
            s.filter(not_whitespace()).push(x)
        } else {
            s.filter(not_whitespace())
        },
{
    s.lemma_filter_push(x, not_whitespace());
}

/// The text of a closing bracket token.
pub open spec fn close_text(t: Token) -> Seq<char> {
    match t {
        Token::SigilCloseBracket => ")"@,
        Token::SigilCloseSquareBracket => "]"@,
        Token::SigilCloseCurlyBracket => "}"@,
        _ => Seq::empty(),
    }
}

/// The labelled spans of a parse error, each with its text.
pub open spec fn labels_spec(e: ParseError) -> Seq<(Seq<char>, Span)> {
    match e.kind {
        ParseErrorKind::UnclosedBracket { open, end, kind, close_token } => seq![
            (kind@ + " opened here"@, open),
            ("expected "@ + kind@ + " to be closed by here with a '"@ + close_text(close_token) + "'"@, end),
        ],
        ParseErrorKind::ExpressionMissingSemicolon { span } => seq![("exprected a semicolon after this expression"@, span)],
        ParseErrorKind::Expected { found, found_is_error, .. } => seq![(match found {
            Some(k) => if found_is_error { k@ } else { "unexpected "@ + k@ },
            None => "unexpected token"@,
        }, e.span)],
        _ => seq![(message_spec(e.kind), e.span)],
    }
}

impl ParseError {
    /// The labelled spans to show with the error: where a bracket was opened and where it
    /// should have been closed, where a semicolon is missing, or the span of the error with
    /// what was found there.
    pub fn labels(&self) -> (r: Vec<(String, Span)>)
        ensures
            r@.len() == labels_spec(*self).len(),
            forall|i: int| 0 <= i < r@.len() ==> (#[trigger] r@[i]).0@ == labels_spec(*self)[i].0 && r@[i].1 == labels_spec(*self)[i].1,
    {
        proof {
            reveal_strlit(" opened here");
            reveal_strlit("expected ");
            reveal_strlit(" to be closed by here with a '");
            reveal_strlit("'");
            reveal_strlit(")");
            reveal_strlit("]");
            reveal_strlit("}");
            reveal_strlit("exprected a semicolon after this expression");
            reveal_strlit("unexpected ");
            reveal_strlit("unexpected token");
        }
        let mut r: Vec<(String, Span)> = Vec::new();
        match &self.kind {
            ParseErrorKind::UnclosedBracket { open, end, kind, close_token } => {
                let mut a = String::new();
                a.append(kind);
                a.append(" opened here");
                r.push((a, *open));
                let mut b = String::new();
                b.append("expected ");
                b.append(kind);
                b.append(" to be closed by here with a '");
                match close_token {
                    Token::SigilCloseBracket => b.append(")"),
                    Token::SigilCloseSquareBracket => b.append("]"),
                    Token::SigilCloseCurlyBracket => b.append("}"),
                    _ => {},
                }
                b.append("'");
                r.push((b, *end));
            },
            ParseErrorKind::ExpressionMissingSemicolon { span } => {
                r.push((String::from_str("exprected a semicolon after this expression"), *span));
            },
            ParseErrorKind::Expected { found, found_is_error, .. } => {
                let text = match found {
                    Some(k) => if *found_is_error {
                        String::from_str(k)
                    } else {
                        let mut t = String::from_str("unexpected ");
                        t.append(k);
                        t
                    },
                    None => String::from_str("unexpected token"),
                };
                r.push((text, self.span));
            },
            _ => {
                r.push((self.message(), self.span));
            },
        }
        r
    }
}

/// `b` is `a` with possibly more at its end.
pub open spec fn extends<T>(a: Seq<T>, b: Seq<T>) -> bool {
    &&& a.len() <= b.len()
    &&& forall|i: int| 0 <= i < a.len() ==> #[trigger] b[i] == a[i]
}

/// Where a parse that started at some position ended, if it succeeded.
pub open spec fn end_of<T>(r: Option<(T, usize)>) -> Option<int> {
    match r {
        Some((_, q)) => Some(q as int),
        None => None,
    }
}

/// The span covered by the tokens `a..b`: from the start of the first to the end of the
/// last; for no token, the empty span where the next token starts, or at the end of input.
pub open spec fn cover_spec(toks: Seq<SpannedToken>, a: int, b: int) -> Span {
    if a < b {
        Span { start: toks[a].span.start, end: toks[b - 1].span.end }
    } else if 0 <= a < toks.len() {
        Span { start: toks[a].span.start, end: toks[a].span.start }
    } else if toks.len() > 0 {
        Span { start: toks.last().span.end, end: toks.last().span.end }
    } else {
        Span { start: 0, end: 0 }
    }
}

/// Parses tokens, collecting the errors found.
pub struct Parser<'t> {
    /// The tokens.
    pub toks: &'t Vec<SpannedToken>,
    /// Errors found so far.
    pub errors: Vec<ParseError>,
}

impl<'t> Parser<'t> {
    /// Number of tokens.
    pub open spec fn len(&self) -> int {
        self.toks@.len() as int
    }

    /// A parse step from `old` to `self` that started at `pos`: the tokens are the same,
    /// errors were only added, on success it ended at or after `pos`, and on failure no
    /// error was added.
    pub open spec fn step(&self, old: Parser<'t>, pos: int, end: Option<int>) -> bool {
        &&& self.toks == old.toks
        &&& extends(old.errors@, self.errors@)
        &&& match end {
            Some(q) => pos <= q <= old.len(),
            None => self.errors@ == old.errors@,
        }
    }

    /// The span of the tokens `a..b`.
    pub open spec fn cover(&self, a: int, b: int) -> Span {
        cover_spec(self.toks@, a, b)
    }

    /// A parser over `toks` without errors.
    pub fn new(toks: &'t Vec<SpannedToken>) -> (p: Parser<'t>)
        ensures
            p.toks == toks,
            p.errors@.len() == 0,
    {
        Parser { toks, errors: Vec::new() }
    }

    /// The span of the tokens `a..b`.
    fn span_of(&self, a: usize, b: usize) -> (s: Span)
        requires
            a <= b <= self.len(),
        ensures
            s == self.cover(a as int, b as int),
    {
        let n = self.toks.len();
        if a < b {
            Span { start: self.toks[a].span.start, end: self.toks[b - 1].span.end }
        } else if a < n {
            Span { start: self.toks[a].span.start, end: self.toks[a].span.start }
        } else if n > 0 {
            Span { start: self.toks[n - 1].span.end, end: self.toks[n - 1].span.end }
        } else {
            Span { start: 0, end: 0 }
        }
    }

    /// Records an error.
    fn error(&mut self, span: Span, kind: ParseErrorKind)
        ensures
            final(self).toks == old(self).toks,
            final(self).errors@ == old(self).errors@.push(ParseError { span, kind }),
    {
        self.errors.push(ParseError { span, kind });
    }

    /// Is the token at `pos` exactly `t`, for a token without data.
    pub open spec fn at(&self, pos: int, t: Token) -> bool {
        0 <= pos < self.len() && self.toks@[pos].value == t
    }
}

/// Is `e` the error that `label` was expected at `pos`: at the empty span there, naming
/// the kind of token found, if any.
pub open spec fn expected_error(e: ParseError, toks: Seq<SpannedToken>, pos: int, label: &'static str) -> bool {
    &&& e.span == cover_spec(toks, pos, pos)
    &&& match e.kind {
        ParseErrorKind::Expected { expected, found, found_is_error } => {
            &&& expected@ == seq![label]
            &&& found is Some == (0 <= pos < toks.len())
            &&& (found matches Some(f) ==> f@ == toks[pos].value.kind_spec())
            &&& found_is_error == (0 <= pos < toks.len() && toks[pos].value is Error)
        },
        _ => false,
    }
}

/// The position of the first bracket or `;` from `pos` on, or the end.
pub open spec fn first_structural(toks: Seq<SpannedToken>, pos: int) -> int
    decreases toks.len() - pos,
{
    if 0 <= pos < toks.len() && !is_structural(toks[pos].value) {
        first_structural(toks, pos + 1)
    } else {
        pos
    }
}

/// Where the `;` after a statement ends: right at `pos`, or, skipping anything but brackets,
/// at the first `;`; `None` where a bracket or the end comes first.
pub open spec fn semicolon_end(toks: Seq<SpannedToken>, pos: int) -> Option<int> {
    if 0 <= pos < toks.len() && toks[pos].value is SigilSemiColon {
        Some(pos + 1)
    } else {
        let q = first_structural(toks, pos);
        if 0 <= q < toks.len() && toks[q].value is SigilSemiColon {
            Some(q + 1)
        } else {
            None
        }
    }
}

/// The binary operator a token stands for, if any.
pub open spec fn token_operator(t: Token) -> Option<BinaryOperator> {
    match t {
        Token::OperatorNear => Some(BinaryOperator::Near),
        Token::OperatorPowerXor => Some(BinaryOperator::PowerXor),
        Token::OperatorXor => Some(BinaryOperator::Xor),
        Token::OperatorUnion => Some(BinaryOperator::Union),
        Token::OperatorIntersect => Some(BinaryOperator::Intersect),
        Token::OperatorMultiply => Some(BinaryOperator::Multiply),
        Token::OperatorDivide => Some(BinaryOperator::Divide),
        Token::OperatorAdd => Some(BinaryOperator::Add),
        Token::OperatorSubtract => Some(BinaryOperator::Subtract),
        Token::OperatorLessEqual => Some(BinaryOperator::LessEqual),
        Token::OperatorGreaterEqual => Some(BinaryOperator::GreaterEqual),
        Token::OperatorLessThan => Some(BinaryOperator::LessThan),
        Token::OperatorGreaterThan => Some(BinaryOperator::GreaterThan),
        Token::OperatorEqual => Some(BinaryOperator::Equal),
        Token::OperatorNotEqual => Some(BinaryOperator::NotEqual),
        Token::OperatorOr => Some(BinaryOperator::Or),
        Token::OperatorAnd => Some(BinaryOperator::And),
        _ => None,
    }
}

/// Is the first token at or after `pos` that is no whitespace or comment one that names an
/// identifier (a keyword used as one included).
pub open spec fn names_at(toks: Seq<SpannedToken>, pos: int) -> bool {
    let k = skip_extras(toks, pos);
    0 <= k < toks.len() && identifier_name(toks[k].value) is Some
}

/// Does a token without data come first after whitespace and comments from `pos` on.
pub open spec fn leads_with(toks: Seq<SpannedToken>, pos: int, t: Token) -> bool {
    let k = skip_extras(toks, pos);
    0 <= k < toks.len() && toks[k].value == t
}

/// Does a token give the code structure: a bracket or `;`.
pub open spec fn is_structural(t: Token) -> bool {
    t is SigilOpenCurlyBracket || t is SigilCloseCurlyBracket || t is SigilOpenBracket
        || t is SigilCloseBracket || t is SigilOpenSquareBracket || t is SigilCloseSquareBracket
        || t is SigilSemiColon
}

/// The kind of bracket a token opens (0 round, 1 square, 2 curly) or closes (3, 4, 5); 6 for
/// any other token.
pub open spec fn bracket_kind(t: Token) -> u8 {
    match t {
        Token::SigilOpenBracket => 0,
        Token::SigilOpenSquareBracket => 1,
        Token::SigilOpenCurlyBracket => 2,
        Token::SigilCloseBracket => 3,
        Token::SigilCloseSquareBracket => 4,
        Token::SigilCloseCurlyBracket => 5,
        _ => 6,
    }
}

/// Where a bracketed group ends that has the brackets `stack` open before `p`: the position
/// after the bracket that closes the outermost one; `None` where a closing bracket does not
/// match the innermost open one or the input ends first.
pub open spec fn nested_end(toks: Seq<SpannedToken>, p: int, stack: Seq<u8>) -> Option<int>
    decreases toks.len() - p,
{
    if p < 0 || p >= toks.len() || stack.len() == 0 {
        None
    } else {
        let k = bracket_kind(toks[p].value);
        if k < 3 {
            nested_end(toks, p + 1, stack.push(k))
        } else if k < 6 {
            if stack.last() + 3 != k {
                None
            } else if stack.len() == 1 {
                Some(p + 1)
            } else {
                nested_end(toks, p + 1, stack.drop_last())
            }
        } else {
            nested_end(toks, p + 1, stack)
        }
    }
}

/// Where a group opened at `pos` by a bracket of kind `open` ends, brackets nested in it
/// matched; `None` if no such bracket is at `pos` or the group does not close.
pub open spec fn group_end(toks: Seq<SpannedToken>, pos: int, open: u8) -> Option<int> {
    if 0 <= pos < toks.len() && bracket_kind(toks[pos].value) == open {
        nested_end(toks, pos + 1, seq![open])
    } else {
        None
    }
}

/// Is `c` a decimal digit.
pub open spec fn is_digit(c: char) -> bool {
    '0' <= c && c <= '9'
}

/// Reads the decimal digits of `s` from index `i` on into `acc`, the way `from_str` of an
/// integer type with bounds `min..=max` does: the first character that is not a digit is
/// an invalid digit, and a value out of bounds an overflow on the side of the sign.
pub open spec fn read_digits(s: Seq<char>, neg: bool, acc: int, i: int, min: int, max: int) -> Result<int, IntErrorKind>
    decreases s.len() - i,
{
    if i < 0 || i >= s.len() {
        Ok(acc)
    } else if !is_digit(s[i]) {
        Err(IntErrorKind::InvalidDigit)
    } else {
        let d = (s[i] as u32 - '0' as u32) as int;
        let next = if neg { acc * 10 - d } else { acc * 10 + d };
        if next < min {
            Err(IntErrorKind::NegOverflow)
        } else if next > max {
            Err(IntErrorKind::PosOverflow)
        } else {
            read_digits(s, neg, next, i + 1, min, max)
        }
    }
}

/// What `from_str` of an integer type with bounds `min..=max` gives for `s`: an optional
/// sign (a `-` only where `min < 0`) and at least one digit.
pub open spec fn parse_int_spec(s: Seq<char>, min: int, max: int) -> Result<int, IntErrorKind> {
    if s.len() == 0 {
        Err(IntErrorKind::Empty)
    } else if s[0] == '+' || (s[0] == '-' && min < 0) {
        if s.len() == 1 {
            Err(IntErrorKind::InvalidDigit)
        } else {
            read_digits(s, s[0] == '-', 0, 1, min, max)
        }
    } else {
        read_digits(s, false, 0, 0, min, max)
    }
}

/// Reads an `i64` as `i64::from_str` does.
pub fn parse_i64(s: &str) -> (r: Result<i64, IntErrorKind>)
    ensures
        match parse_int_spec(s@, i64::MIN as int, i64::MAX as int) {
            Ok(v) => r == Ok::<i64, IntErrorKind>(v as i64),
            Err(e) => r == Err::<i64, IntErrorKind>(e),
        },
{
    let n = s.unicode_len();
    if n == 0 {
        return Err(IntErrorKind::Empty);
    }
    let c0 = s.get_char(0);
    let neg = c0 == '-';
    let mut i: usize = 0;
    if c0 == '+' || c0 == '-' {
        if n == 1 {
            return Err(IntErrorKind::InvalidDigit);
        }
        i = 1;
    }
    let mut acc: i64 = 0;
    while i < n
        invariant
            n == s@.len(),
            1 <= n,
            i <= n,
            neg == (s@[0] == '-'),
            (s@[0] == '+' || s@[0] == '-') ==> i >= 1,
            neg ==> acc <= 0,
            !neg ==> acc >= 0,
            parse_int_spec(s@, i64::MIN as int, i64::MAX as int) == read_digits(
                s@,
                neg,
                acc as int,
                i as int,
                i64::MIN as int,
                i64::MAX as int,
            ),
        decreases n - i,
    {
        let c = s.get_char(i);
        if !('0' <= c && c <= '9') {
            return Err(IntErrorKind::InvalidDigit);
        }
        let d = (c as u32 - '0' as u32) as i64;
        let next = match acc.checked_mul(10) {
            Some(m) => if neg {
                m.checked_sub(d)
            } else {
                m.checked_add(d)
            },
            None => None,
        };
        match next {
            Some(v) => {
                acc = v;
            },
            None => {
                if neg {
                    return Err(IntErrorKind::NegOverflow);
                } else {
                    return Err(IntErrorKind::PosOverflow);
                }
            },
        }
        i = i + 1;
    }
    Ok(acc)
}

/// Reads a `u32` from the characters of `s` after the first, as `u32::from_str` does.
pub fn parse_u32_after_first(s: &str) -> (r: Result<u32, IntErrorKind>)
    requires
        s@.len() >= 1,
    ensures
        match parse_int_spec(s@.subrange(1, s@.len() as int), 0, u32::MAX as int) {
            Ok(v) => r == Ok::<u32, IntErrorKind>(v as u32),
            Err(e) => r == Err::<u32, IntErrorKind>(e),
        },
{
    let n = s.unicode_len();
    let ghost t = s@.subrange(1, n as int);
    if n == 1 {
        return Err(IntErrorKind::Empty);
    }
    let c0 = s.get_char(1);
    let mut i: usize = 1;
    if c0 == '+' {
        if n == 2 {
            return Err(IntErrorKind::InvalidDigit);
        }
        i = 2;
    }
    let mut acc: u32 = 0;
    while i < n
        invariant
            n == s@.len(),
            2 <= n,
            1 <= i <= n,
            t == s@.subrange(1, n as int),
            t[0] == '+' ==> i >= 2,
            parse_int_spec(t, 0, u32::MAX as int) == read_digits(t, false, acc as int, i - 1, 0, u32::MAX as int),
        decreases n - i,
    {
        let c = s.get_char(i);
        assert(t[i - 1] == c);
        if !('0' <= c && c <= '9') {
            return Err(IntErrorKind::InvalidDigit);
        }
        let d = (c as u32 - '0' as u32);
        let next = match acc.checked_mul(10) {
            Some(m) => m.checked_add(d),
            None => None,
        };
        match next {
            Some(v) => {
                acc = v;
            },
            None => {
                return Err(IntErrorKind::PosOverflow);
            },
        }
        i = i + 1;
    }
    Ok(acc)
}

/// Is `s[i..j]` made of digits only.
pub open spec fn all_digits(s: Seq<char>, i: int, j: int) -> bool {
    forall|k: int| i <= k < j ==> is_digit(#[trigger] s[k])
}

/// Does `s[i..]` spell `word`, ASCII letters in any case.
pub open spec fn spells(s: Seq<char>, i: int, word: Seq<char>) -> bool {
    &&& s.len() - i == word.len()
    &&& forall|k: int| 0 <= k < word.len() ==> crate::visitor::lower(#[trigger] s[i + k]) == word[k] as u32
}

/// The first index from `i` on that does not hold a digit.
pub open spec fn digits_end(s: Seq<char>, i: int) -> int
    decreases s.len() - i,
{
    if i < 0 || i >= s.len() || !is_digit(s[i]) {
        i
    } else {
        digits_end(s, i + 1)
    }
}

/// Is `s[i..]` a decimal number: digits, optionally a `.` and more digits, with at least one
/// digit in all, then optionally an exponent: `e` or `E`, an optional sign and digits.
pub open spec fn is_decimal(s: Seq<char>, i: int) -> bool {
    let a = digits_end(s, i);
    let b = if a < s.len() && s[a] == '.' { digits_end(s, a + 1) } else { a };
    let digits = if a < s.len() && s[a] == '.' { (a - i) + (b - (a + 1)) } else { a - i };
    &&& digits > 0
    &&& (b == s.len() || ((s[b] == 'e' || s[b] == 'E') && {
        let k = if b + 1 < s.len() && (s[b + 1] == '+' || s[b + 1] == '-') { b + 2 } else { b + 1 };
        k < s.len() && digits_end(s, k) == s.len()
    }))
}

/// Is `s` a float as `f64::from_str` reads it: an optional sign, then `inf`, `infinity` or
/// `nan` in any case, or a decimal number.
pub open spec fn is_float_text(s: Seq<char>) -> bool {
    let i = if s.len() > 0 && (s[0] == '+' || s[0] == '-') { 1int } else { 0int };
    ||| spells(s, i, seq!['i', 'n', 'f'])
    ||| spells(s, i, seq!['i', 'n', 'f', 'i', 'n', 'i', 't', 'y'])
    ||| spells(s, i, seq!['n', 'a', 'n'])
    ||| is_decimal(s, i)
}

proof fn lemma_digits_end(s: Seq<char>, i: int)
    requires
        0 <= i <= s.len(),
    ensures
        i <= digits_end(s, i) <= s.len(),
        all_digits(s, i, digits_end(s, i)),
        digits_end(s, i) < s.len() ==> !is_digit(s[digits_end(s, i)]),
    decreases s.len() - i,
{
    if i < s.len() && is_digit(s[i]) {
        lemma_digits_end(s, i + 1);
    }
}

/// The first index from `i` on that does not hold a digit.
fn skip_digits(s: &str, i: usize) -> (j: usize)
    requires
        i <= s@.len(),
    ensures
        j == digits_end(s@, i as int),
{
    let n = s.unicode_len();
    let mut j = i;
    while j < n && is_digit_char(s.get_char(j))
        invariant
            n == s@.len(),
            i <= j <= n,
            digits_end(s@, i as int) == digits_end(s@, j as int),
        decreases n - j,
    {
        j = j + 1;
    }
    j
}

/// Is `c` a decimal digit.
fn is_digit_char(c: char) -> (b: bool)
    ensures
        b == is_digit(c),
{
    '0' <= c && c <= '9'
}

/// Does `s[i..]` spell the lower case ASCII `word`, in any case.
fn spells_word(s: &str, i: usize, word: &str) -> (b: bool)
    requires
        i <= s@.len(),
    ensures
        b == spells(s@, i as int, word@),
{
    let n = s.unicode_len();
    let m = word.unicode_len();
    if n - i != m {
        return false;
    }
    let mut k: usize = 0;
    while k < m
        invariant
            n == s@.len(),
            m == word@.len(),
            n - i == m,
            i <= n,
            k <= m,
            forall|j: int| 0 <= j < k ==> crate::visitor::lower(#[trigger] s@[i + j]) == word@[j] as u32,
        decreases m - k,
    {
        let c = s.get_char(i + k);
        let l: u32 = if 'A' <= c && c <= 'Z' {
            (c as u32) + 32
        } else {
            c as u32
        };
        if l != word.get_char(k) as u32 {
            return false;
        }
        k = k + 1;
    }
    true
}

/// Is `s` a float as `f64::from_str` reads it.
pub fn float_text(s: &str) -> (b: bool)
    ensures
        b == is_float_text(s@),
{
    let n = s.unicode_len();
    let i: usize = if n > 0 && (s.get_char(0) == '+' || s.get_char(0) == '-') {
        1
    } else {
        0
    };
    proof {
        reveal_strlit("inf");
        reveal_strlit("infinity");
        reveal_strlit("nan");
    }
    if spells_word(s, i, "inf") || spells_word(s, i, "infinity") || spells_word(s, i, "nan") {
        return true;
    }
    let a = skip_digits(s, i);
    let b = if a < n && s.get_char(a) == '.' {
        skip_digits(s, a + 1)
    } else {
        a
    };
    proof {
        lemma_digits_end(s@, i as int);
        if a < n && s@[a as int] == '.' {
            lemma_digits_end(s@, a + 1);
        }
    }
    let digits = if a < n && s.get_char(a) == '.' {
        (a - i) + (b - (a + 1))
    } else {
        a - i
    };
    if digits == 0 {
        return false;
    }
    if b == n {
        return true;
    }
    let c = s.get_char(b);
    if c != 'e' && c != 'E' {
        return false;
    }
    let k = if b + 1 < n && (s.get_char(b + 1) == '+' || s.get_char(b + 1) == '-') {
        b + 2
    } else {
        b + 1
    };
    k < n && skip_digits(s, k) == n
}

/// The text of a keyword token.
pub open spec fn keyword_spec(t: Token) -> Option<&'static str> {
    match t {
        Token::KeywordMod => Some("mod"),
        Token::KeywordPart => Some("part"),
        Token::KeywordSketch => Some("sketch"),
        Token::KeywordOp => Some("op"),
        Token::KeywordFn => Some("fn"),
        Token::KeywordIf => Some("if"),
        Token::KeywordElse => Some("else"),
        Token::KeywordUse => Some("use"),
        Token::KeywordAs => Some("as"),
        Token::KeywordReturn => Some("return"),
        Token::KeywordPub => Some("pub"),
        Token::KeywordConst => Some("const"),
        Token::KeywordProp => Some("prop"),
        Token::KeywordInit => Some("init"),
        _ => None,
    }
}

/// The text of a reserved keyword token.
pub open spec fn reserved_spec(t: Token) -> Option<&'static str> {
    match t {
        Token::KeywordPlugin => Some("plugin"),
        Token::KeywordAssembly => Some("assembly"),
        Token::KeywordMaterial => Some("material"),
        Token::KeywordUnit => Some("unit"),
        Token::KeywordEnum => Some("enum"),
        Token::KeywordStruct => Some("struct"),
        Token::KeywordMatch => Some("match"),
        Token::KeywordType => Some("type"),
        Token::KeywordExtern => Some("extern"),
        _ => None,
    }
}

/// The text of a keyword token.
fn keyword_text(t: &Token) -> (r: Option<&'static str>)
    ensures
        r == keyword_spec(*t),
{
    match t {
        Token::KeywordMod => Some("mod"),
        Token::KeywordPart => Some("part"),
        Token::KeywordSketch => Some("sketch"),
        Token::KeywordOp => Some("op"),
        Token::KeywordFn => Some("fn"),
        Token::KeywordIf => Some("if"),
        Token::KeywordElse => Some("else"),
        Token::KeywordUse => Some("use"),
        Token::KeywordAs => Some("as"),
        Token::KeywordReturn => Some("return"),
        Token::KeywordPub => Some("pub"),
        Token::KeywordConst => Some("const"),
        Token::KeywordProp => Some("prop"),
        Token::KeywordInit => Some("init"),
        _ => None,
    }
}

/// The text of a reserved keyword token.
fn reserved_text(t: &Token) -> (r: Option<&'static str>)
    ensures
        r == reserved_spec(*t),
{
    match t {
        Token::KeywordPlugin => Some("plugin"),
        Token::KeywordAssembly => Some("assembly"),
        Token::KeywordMaterial => Some("material"),
        Token::KeywordUnit => Some("unit"),
        Token::KeywordEnum => Some("enum"),
        Token::KeywordStruct => Some("struct"),
        Token::KeywordMatch => Some("match"),
        Token::KeywordType => Some("type"),
        Token::KeywordExtern => Some("extern"),
        _ => None,
    }
}

/// The comment or whitespace a token stands for, if it is one.
pub open spec fn extra_of(t: SpannedToken) -> Option<ItemExtra> {
    match t.value {
        Token::Whitespace(s) => Some(ItemExtra::Whitespace(Whitespace(s))),
        Token::SingleLineComment(c) => Some(ItemExtra::Comment(Comment { span: t.span, inner: CommentInner::SingleLine(c) })),
        Token::MultiLineComment(c) => Some(ItemExtra::Comment(Comment { span: t.span, inner: CommentInner::MultiLine(c) })),
        _ => None,
    }
}

/// `extras` are the comments and whitespace of the tokens `a..b`, and the token at `b`,
/// if any, is neither.
pub open spec fn extras_run(toks: Seq<SpannedToken>, a: int, b: int, extras: Seq<ItemExtra>) -> bool {
    &&& 0 <= a <= b <= toks.len()
    &&& extras.len() == b - a
    &&& forall|k: int| 0 <= k < b - a ==> extra_of(#[trigger] toks[a + k]) == Some(extras[k])
    &&& (b == toks.len() || extra_of(toks[b]) is None)
}

/// The name an identifier token gives: its text, or the text of a (reserved) keyword.
pub open spec fn identifier_name(t: Token) -> Option<Seq<char>> {
    match t {
        Token::Identifier(s) => Some(s@),
        _ => if keyword_spec(t) is Some {
            Some(keyword_spec(t)->0@)
        } else if reserved_spec(t) is Some {
            Some(reserved_spec(t)->0@)
        } else {
            None
        },
    }
}

/// The error that using a token as an identifier gives, if any.
pub open spec fn identifier_error(t: SpannedToken) -> Seq<ParseError> {
    if reserved_spec(t.value) is Some {
        seq![ParseError { span: t.span, kind: ParseErrorKind::ReservedKeywordAsIdentifier(reserved_spec(t.value)->0) }]
    } else if keyword_spec(t.value) is Some {
        seq![ParseError { span: t.span, kind: ParseErrorKind::KeywordAsIdentifier(keyword_spec(t.value)->0) }]
    } else {
        Seq::empty()
    }
}

/// The unit a token gives: an identifier, a unit or `"`.
pub open spec fn unit_name(t: Token) -> Option<Seq<char>> {
    match t {
        Token::Identifier(s) => Some(s@),
        Token::Unit(s) => Some(s@),
        Token::SigilQuote => Some(seq!['"']),
        _ => None,
    }
}

impl<'t> Parser<'t> {
    /// The comments and whitespace from `pos` on.
    fn extras_from(&self, pos: usize) -> (r: (Vec<ItemExtra>, usize))
        requires
            pos <= self.len(),
        ensures
            extras_run(self.toks@, pos as int, r.1 as int, r.0@),
    {
        let mut v: Vec<ItemExtra> = Vec::new();
        let mut p = pos;
        while p < self.toks.len() && self.extra_at(p)
            invariant
                pos <= p <= self.len(),
                v@.len() == p - pos,
                forall|k: int| 0 <= k < p - pos ==> extra_of(#[trigger] self.toks@[pos + k]) == Some(v@[k]),
            decreases self.len() - p,
        {
            let t = &self.toks[p];
            let e = match &t.value {
                Token::Whitespace(s) => ItemExtra::Whitespace(Whitespace(s.clone())),
                Token::SingleLineComment(c) => ItemExtra::Comment(Comment { span: t.span, inner: CommentInner::SingleLine(c.clone()) }),
                Token::MultiLineComment(c) => ItemExtra::Comment(Comment { span: t.span, inner: CommentInner::MultiLine(c.clone()) }),
                _ => {
                    assert(false);
                    ItemExtra::Whitespace(Whitespace(String::new()))
                },
            };
            v.push(e);
            p = p + 1;
            assert(extra_of(self.toks@[pos + (p - 1 - pos)]) == Some(v@[p - 1 - pos]));
        }
        (v, p)
    }

    /// Is the token at `pos` a comment or whitespace.
    fn extra_at(&self, pos: usize) -> (b: bool)
        requires
            pos < self.len(),
        ensures
            b == extra_of(self.toks@[pos as int]) is Some,
    {
        match &self.toks[pos].value {
            Token::Whitespace(_) | Token::SingleLineComment(_) | Token::MultiLineComment(_) => true,
            _ => false,
        }
    }

    /// Comments and whitespace before a node.
    pub fn leading_extras(&self, pos: usize) -> (r: (LeadingExtras, usize))
        requires
            pos <= self.len(),
        ensures
            extras_run(self.toks@, pos as int, r.1 as int, r.0.0@),
    {
        let (v, p) = self.extras_from(pos);
        (LeadingExtras(v), p)
    }

    /// Whitespace and comments after a node.
    pub fn trailing_extras(&self, pos: usize) -> (r: (TrailingExtras, usize))
        requires
            pos <= self.len(),
        ensures
            extras_run(self.toks@, pos as int, r.1 as int, r.0.0@),
    {
        let (v, p) = self.extras_from(pos);
        (TrailingExtras(v), p)
    }

    /// Skips one whitespace token, if there is one at `pos`.
    pub fn maybe_ws(&self, pos: usize) -> (q: usize)
        requires
            pos <= self.len(),
        ensures
            q == if pos < self.len() && self.toks@[pos as int].value is Whitespace { pos + 1 } else { pos as int },
    {
        if pos < self.toks.len() && matches!(self.toks[pos].value, Token::Whitespace(_)) {
            pos + 1
        } else {
            pos
        }
    }

    /// Is the token at `pos` whitespace.
    pub fn ws_at(&self, pos: usize) -> (b: bool)
        requires
            pos <= self.len(),
        ensures
            b == (pos < self.len() && self.toks@[pos as int].value is Whitespace),
    {
        pos < self.toks.len() && matches!(self.toks[pos].value, Token::Whitespace(_))
    }

    /// An identifier; a keyword or reserved keyword in its place is taken, with an error.
    pub fn identifier(&mut self, pos: usize) -> (r: Option<(Identifier, usize)>)
        requires
            pos <= old(self).len(),
        ensures
            final(self).toks == old(self).toks,
            r is Some == (pos < old(self).len() && identifier_name(old(self).toks@[pos as int].value) is Some),
            r matches Some((id, q)) ==> {
                &&& q == pos + 1
                &&& id.span == old(self).toks@[pos as int].span
                &&& id.name@ == identifier_name(old(self).toks@[pos as int].value)->0
                &&& final(self).errors@ == old(self).errors@ + identifier_error(old(self).toks@[pos as int])
            },
            r is None ==> final(self).errors@ == old(self).errors@,
    {
        if pos >= self.toks.len() {
            return None;
        }
        let t = &self.toks[pos];
        match &t.value {
            Token::Identifier(s) => {
                assert(identifier_error(self.toks@[pos as int]) =~= Seq::<ParseError>::empty());
                return Some((Identifier { span: t.span, name: s.clone() }, pos + 1));
            },
            _ => {},
        }
        match reserved_text(&t.value) {
            Some(k) => {
                self.error(t.span, ParseErrorKind::ReservedKeywordAsIdentifier(k));
                return Some((Identifier { span: t.span, name: k.to_owned() }, pos + 1));
            },
            None => {},
        }
        match keyword_text(&t.value) {
            Some(k) => {
                self.error(t.span, ParseErrorKind::KeywordAsIdentifier(k));
                Some((Identifier { span: t.span, name: k.to_owned() }, pos + 1))
            },
            None => None,
        }
    }

    /// A unit: an identifier, a unit token or `"`.
    pub fn unit(&self, pos: usize) -> (r: Option<(Unit, usize)>)
        requires
            pos <= self.len(),
        ensures
            r is Some == (pos < self.len() && unit_name(self.toks@[pos as int].value) is Some),
            r matches Some((u, q)) ==> q == pos + 1 && u.span == self.toks@[pos as int].span
                && u.name@ == unit_name(self.toks@[pos as int].value)->0,
    {
        if pos >= self.toks.len() {
            return None;
        }
        let t = &self.toks[pos];
        match &t.value {
            Token::Identifier(s) => Some((Unit { span: t.span, name: s.clone() }, pos + 1)),
            Token::Unit(s) => Some((Unit { span: t.span, name: s.clone() }, pos + 1)),
            Token::SigilQuote => {
                let name = String::from_str("\"");
                proof {
                    reveal_strlit("\"");
                }
                Some((Unit { span: t.span, name }, pos + 1))
            },
            _ => None,
        }
    }
}

/// The literal a single token gives, before a unit is considered.
pub open spec fn single_value(t: SpannedToken) -> Option<LiteralKind> {
    match t.value {
        Token::LiteralFloat(x) => Some(if is_float_text(x@) {
            LiteralKind::Float(FloatLiteral { span: t.span, raw: x })
        } else {
            LiteralKind::Error(LiteralError { span: t.span, kind: LiteralErrorKind::Float })
        }),
        Token::LiteralInt(x) => Some(match parse_int_spec(x@, i64::MIN as int, i64::MAX as int) {
            Ok(v) => LiteralKind::Integer(IntegerLiteral { span: t.span, value: v as i64, raw: x }),
            Err(e) => LiteralKind::Error(LiteralError { span: t.span, kind: LiteralErrorKind::Int(e) }),
        }),
        Token::LiteralString(c) => Some(LiteralKind::String(StringLiteral { span: t.span, content: c })),
        Token::LiteralBool(b) => Some(LiteralKind::Bool(BoolLiteral { span: t.span, value: b })),
        _ => None,
    }
}

/// Does `lit` combine the literal `kind` with the unit found, if any (its span and name):
/// a number with a unit is a quantity, anything else with a unit an error.
pub open spec fn with_unit(lit: LiteralKind, kind: LiteralKind, unit: Option<(Span, Seq<char>)>, span: Span) -> bool {
    match unit {
        None => lit == kind,
        Some((us, un)) => match kind {
            LiteralKind::Float(f) => lit matches LiteralKind::Quantity(qt) && qt.span == span && qt.raw == f.raw
                && qt.unit.span == us && qt.unit.name@ == un,
            LiteralKind::Integer(i) => lit matches LiteralKind::Quantity(qt) && qt.span == span && qt.raw == i.raw
                && qt.unit.span == us && qt.unit.name@ == un,
            _ => lit == LiteralKind::Error(LiteralError { span, kind: LiteralErrorKind::Untypable }),
        },
    }
}

impl<'t> Parser<'t> {
    /// The literal of the token at `pos`, before a unit is considered.
    fn single_value(&self, pos: usize) -> (r: Option<LiteralKind>)
        requires
            pos < self.len(),
        ensures
            r == single_value(self.toks@[pos as int]),
    {
        let t = &self.toks[pos];
        match &t.value {
            Token::LiteralFloat(x) => Some(if float_text(x.as_str()) {
                LiteralKind::Float(FloatLiteral { span: t.span, raw: x.clone() })
            } else {
                LiteralKind::Error(LiteralError { span: t.span, kind: LiteralErrorKind::Float })
            }),
            Token::LiteralInt(x) => Some(match parse_i64(x.as_str()) {
                Ok(v) => LiteralKind::Integer(IntegerLiteral { span: t.span, value: v, raw: x.clone() }),
                Err(e) => LiteralKind::Error(LiteralError { span: t.span, kind: LiteralErrorKind::Int(e) }),
            }),
            Token::LiteralString(c) => Some(LiteralKind::String(StringLiteral { span: t.span, content: c.clone() })),
            Token::LiteralBool(b) => Some(LiteralKind::Bool(BoolLiteral { span: t.span, value: *b })),
            _ => None,
        }
    }

    /// A literal: a number, string or boolean, a number optionally followed by a unit,
    /// with the comments and whitespace around it.
    pub fn literal(&self, pos: usize) -> (r: Option<(Literal, usize)>)
        requires
            pos <= self.len(),
        ensures
            ({
                let p1 = skip_extras(self.toks@, pos as int);
                &&& r is Some == (p1 < self.len() && single_value(self.toks@[p1]) is Some)
                &&& r matches Some((lit, q)) ==> {
                    let u = if p1 + 1 < self.len() && unit_name(self.toks@[p1 + 1].value) is Some {
                        Some((self.toks@[p1 + 1].span, unit_name(self.toks@[p1 + 1].value)->0))
                    } else {
                        None
                    };
                    let p2 = if u is Some { p1 + 2 } else { p1 + 1 };
                    &&& pos < q <= self.len()
                    &&& lit.span == self.cover(pos as int, q as int)
                    &&& extras_run(self.toks@, pos as int, p1, lit.extras.leading.0@)
                    &&& extras_run(self.toks@, p2, q as int, lit.extras.trailing.0@)
                    &&& with_unit(lit.literal, single_value(self.toks@[p1])->0, u, lit.span)
                }
            }),
    {
        let (leading, p1) = self.leading_extras(pos);
        proof {
            lemma_skip_extras(self.toks@, pos as int, p1 as int, leading.0@);
        }
        if p1 >= self.toks.len() {
            return None;
        }
        let kind = match self.single_value(p1) {
            Some(k) => k,
            None => return None,
        };
        let (unit, p2) = match self.unit(p1 + 1) {
            Some((u, q)) => (Some(u), q),
            None => (None, p1 + 1),
        };
        let (trailing, q) = self.trailing_extras(p2);
        let span = self.span_of(pos, q);
        let literal = match unit {
            None => kind,
            Some(u) => match kind {
                LiteralKind::Float(f) => LiteralKind::Quantity(QuantityLiteral { span, raw: f.raw, unit: u }),
                LiteralKind::Integer(i) => LiteralKind::Quantity(QuantityLiteral { span, raw: i.raw, unit: u }),
                _ => LiteralKind::Error(LiteralError { span, kind: LiteralErrorKind::Untypable }),
            },
        };
        Some((Literal { span, extras: ItemExtras { leading, trailing }, literal }, q))
    }
}

/// The position after the comments and whitespace from `pos` on.
pub open spec fn skip_extras(toks: Seq<SpannedToken>, pos: int) -> int
    decreases toks.len() - pos,
{
    if 0 <= pos < toks.len() && extra_of(toks[pos]) is Some {
        skip_extras(toks, pos + 1)
    } else {
        pos
    }
}

proof fn lemma_skip_extras(toks: Seq<SpannedToken>, pos: int, q: int, extras: Seq<ItemExtra>)
    requires
        extras_run(toks, pos, q, extras),
    ensures
        skip_extras(toks, pos) == q,
    decreases q - pos,
{
    if pos < q {
        assert(extra_of(toks[pos + 0]) == Some(extras[0]));
        let rest = extras.drop_first();
        assert forall|k: int| 0 <= k < q - (pos + 1) implies extra_of(#[trigger] toks[(pos + 1) + k]) == Some(rest[k]) by {
            assert(extra_of(toks[pos + (k + 1)]) == Some(extras[k + 1]));
        }
        lemma_skip_extras(toks, pos + 1, q, rest);
    }
}

/// The skip of comments and whitespace stops at a token that is neither, or at the end,
/// and skipping again from there stays put.
proof fn lemma_skip_extras_stop(toks: Seq<SpannedToken>, pos: int)
    requires
        0 <= pos,
    ensures
        pos <= skip_extras(toks, pos),
        pos <= toks.len() ==> skip_extras(toks, pos) <= toks.len(),
        skip_extras(toks, pos) < toks.len() ==> extra_of(toks[skip_extras(toks, pos)]) is None,
        skip_extras(toks, skip_extras(toks, pos)) == skip_extras(toks, pos),
    decreases toks.len() - pos,
{
    if 0 <= pos < toks.len() && extra_of(toks[pos]) is Some {
        lemma_skip_extras_stop(toks, pos + 1);
    }
}

/// The position after one whitespace token at `pos`, if there is one there.
pub open spec fn ws_skip(toks: Seq<SpannedToken>, pos: int) -> int {
    if 0 <= pos < toks.len() && toks[pos].value is Whitespace { pos + 1 } else { pos }
}

/// Does a literal token come first after the comments and whitespace from `pos` on.
pub open spec fn literal_at(toks: Seq<SpannedToken>, pos: int) -> bool {
    let p1 = skip_extras(toks, pos);
    0 <= p1 < toks.len() && single_value(toks[p1]) is Some
}

/// Where the literal that comes first from `pos` on ends: after its unit, if one follows
/// it, and after the comments and whitespace behind.
pub open spec fn literal_end(toks: Seq<SpannedToken>, pos: int) -> int {
    let p1 = skip_extras(toks, pos);
    let p2 = if p1 + 1 < toks.len() && unit_name(toks[p1 + 1].value) is Some { p1 + 2 } else { p1 + 1 };
    skip_extras(toks, p2)
}

/// Is the expression from `pos` on a literal that no element access follows.
pub open spec fn plain_literal_at(toks: Seq<SpannedToken>, pos: int) -> bool {
    &&& literal_at(toks, pos)
    &&& {
        let q = literal_end(toks, pos);
        !(0 <= q < toks.len() && (toks[q].value is SigilHash || toks[q].value is SigilDot
            || toks[q].value is SigilOpenSquareBracket))
    }
}

/// The binary operator the token at `q` stands for, if there is such a token.
pub open spec fn operator_token_at(toks: Seq<SpannedToken>, q: int) -> Option<BinaryOperator> {
    if 0 <= q < toks.len() { token_operator(toks[q].value) } else { None }
}

/// Does no binary operator of level `l` or tighter stand at `q`.
pub open spec fn ends_within(toks: Seq<SpannedToken>, q: int, l: int) -> bool {
    !(operator_token_at(toks, q) matches Some(op) && op_level(op) <= l)
}

/// Is `e` the literal expression that the literal first from `pos` on gives: its value, with
/// the unit right behind it if there is one, over the span up to the literal's end.
pub open spec fn literal_expr(toks: Seq<SpannedToken>, pos: int, e: Expression) -> bool {
    let p1 = skip_extras(toks, pos);
    let u = if p1 + 1 < toks.len() && unit_name(toks[p1 + 1].value) is Some {
        Some((toks[p1 + 1].span, unit_name(toks[p1 + 1].value)->0))
    } else {
        None
    };
    &&& e is Literal
    &&& with_unit(e->Literal_0.literal, single_value(toks[p1])->0, u, e->Literal_0.span)
    &&& e->Literal_0.span == cover_spec(toks, pos, literal_end(toks, pos))
}

/// Is `e` the binary operation `op` on the literals first from `a` and from `b` on.
pub open spec fn literal_operation(toks: Seq<SpannedToken>, e: Expression, op: BinaryOperator, a: int, b: int) -> bool {
    &&& e is BinaryOperation
    &&& e->BinaryOperation_0.op.value == op
    &&& literal_expr(toks, a, *e->BinaryOperation_0.lhs)
    &&& literal_expr(toks, b, *e->BinaryOperation_0.rhs)
}

/// Where the operand after the operand from `pos` on starts, where a binary operator
/// follows that operand: behind the operator and one whitespace token.
pub open spec fn next_operand(toks: Seq<SpannedToken>, pos: int) -> int {
    ws_skip(toks, literal_end(toks, pos) + 1)
}

/// The operator behind the literal from `pos` on.
pub open spec fn operator_after(toks: Seq<SpannedToken>, pos: int) -> Option<BinaryOperator> {
    operator_token_at(toks, literal_end(toks, pos))
}

/// Is an operator of level `l` or tighter behind the literal from `pos` on.
pub open spec fn joined_within(toks: Seq<SpannedToken>, pos: int, l: int) -> bool {
    operator_after(toks, pos) matches Some(op) && op_level(op) <= l
}

/// Two literals that no element access follows, joined by an operator of level `l` or
/// tighter, with no such operator behind the second: `a op b` from `pos` on.
pub open spec fn two_chain(toks: Seq<SpannedToken>, pos: int, l: int) -> bool {
    &&& plain_literal_at(toks, pos)
    &&& joined_within(toks, pos, l)
    &&& plain_literal_at(toks, next_operand(toks, pos))
    &&& ends_within(toks, literal_end(toks, next_operand(toks, pos)), l)
}

/// Three such literals joined by two such operators: `a op b op c` from `pos` on.
pub open spec fn three_chain(toks: Seq<SpannedToken>, pos: int, l: int) -> bool {
    &&& plain_literal_at(toks, pos)
    &&& joined_within(toks, pos, l)
    &&& two_chain(toks, next_operand(toks, pos), l)
}

/// The end of the last literal of the chain `a op b op c` from `pos` on.
pub open spec fn three_chain_end(toks: Seq<SpannedToken>, pos: int) -> int {
    literal_end(toks, next_operand(toks, next_operand(toks, pos)))
}

/// The tree of the chain `a op b op c` from `pos` on: `a op (b op c)` where the second
/// operator binds tighter than the first, else `(a op b) op c`.
pub open spec fn chain_tree(toks: Seq<SpannedToken>, e: Expression, pos: int) -> bool {
    let b = next_operand(toks, pos);
    let c = next_operand(toks, b);
    let o1 = operator_after(toks, pos)->0;
    let o2 = operator_after(toks, b)->0;
    &&& e is BinaryOperation
    &&& if op_level(o2) < op_level(o1) {
        &&& e->BinaryOperation_0.op.value == o1
        &&& literal_expr(toks, pos, *e->BinaryOperation_0.lhs)
        &&& literal_operation(toks, *e->BinaryOperation_0.rhs, o2, b, c)
    } else {
        &&& e->BinaryOperation_0.op.value == o2
        &&& literal_operation(toks, *e->BinaryOperation_0.lhs, o1, pos, b)
        &&& literal_expr(toks, c, *e->BinaryOperation_0.rhs)
    }
}

/// Where the value of a constant `pub name = value` written from `k` on starts.
pub open spec fn pub_constant_value(toks: Seq<SpannedToken>, k: int) -> int {
    ws_skip(toks, ws_skip(toks, k + 3) + 1)
}

/// Is a constant `pub name = literal;` written from `k` on, its name a plain identifier.
pub open spec fn pub_constant_at(toks: Seq<SpannedToken>, k: int) -> bool {
    &&& 0 <= k && k + 2 < toks.len()
    &&& toks[k].value is KeywordPub
    &&& toks[k + 1].value is Whitespace
    &&& toks[k + 2].value is Identifier
    &&& assignment_head(toks, k + 2)
    &&& lone_literal_at(toks, pub_constant_value(toks, k))
    &&& {
        let e = literal_end(toks, pub_constant_value(toks, k));
        0 <= e < toks.len() && toks[e].value is SigilSemiColon
    }
}

/// Is `st` the constant that `pub name = literal;` from `k` on declares: public by the
/// keyword, with that name, no type and the literal as its value.
pub open spec fn pub_constant(toks: Seq<SpannedToken>, k: int, st: Statement) -> bool {
    &&& st is Const
    &&& st->Const_0.id.name@ == identifier_name(toks[k + 2].value)->0
    &&& st->Const_0.id.span == toks[k + 2].span
    &&& st->Const_0.keyword_span == toks[k].span
    &&& st->Const_0.vis == Some(Spanned { span: toks[k].span, value: Visibility::Public })
    &&& st->Const_0.ty is None
    &&& literal_expr(toks, pub_constant_value(toks, k), *st->Const_0.expr)
}

/// Is an expression statement `a op b op c;` of literals written from `k` on.
pub open spec fn chain_statement_at(toks: Seq<SpannedToken>, k: int) -> bool {
    &&& three_chain(toks, k, 9)
    &&& 0 <= three_chain_end(toks, k) < toks.len()
    &&& toks[three_chain_end(toks, k)].value is SigilSemiColon
}

/// Is one of two plain statements written from `k` on: an expression `a op b op c;` of
/// literals, or a constant `pub name = literal;`.
pub open spec fn simple_statement_at(toks: Seq<SpannedToken>, k: int) -> bool {
    chain_statement_at(toks, k) || pub_constant_at(toks, k)
}

/// Where the plain statement from `k` on ends: after its `;`.
pub open spec fn simple_statement_end(toks: Seq<SpannedToken>, k: int) -> int {
    if chain_statement_at(toks, k) {
        three_chain_end(toks, k) + 1
    } else {
        literal_end(toks, pub_constant_value(toks, k)) + 1
    }
}

/// Is `st` the statement that the plain statement from `k` on is.
pub open spec fn simple_statement(toks: Seq<SpannedToken>, k: int, st: Statement) -> bool {
    if chain_statement_at(toks, k) {
        st is Expression && chain_tree(toks, st->Expression_0.expression, k)
    } else {
        pub_constant(toks, k, st)
    }
}

/// Does no statement start at `pos`: the token there starts no expression and is no doc
/// comment.
pub open spec fn opens_no_statement(toks: Seq<SpannedToken>, pos: int) -> bool {
    &&& 0 <= pos < toks.len()
    &&& opens_no_expression(toks, pos)
    &&& !(toks[pos].value is DocComment || toks[pos].value is InnerDocComment)
}

/// Where the `j`-th of plain statements (no definitions or `if`) written one after another
/// from `k` on starts: each behind the one before it and the comments and whitespace after
/// that.
pub open spec fn run_start(toks: Seq<SpannedToken>, k: int, j: nat) -> int
    decreases j,
{
    if j == 0 {
        k
    } else {
        skip_extras(toks, flat_statement_end(toks, run_start(toks, k, (j - 1) as nat)))
    }
}

/// Are `n` plain statements written one after another from `k` on.
pub open spec fn flat_run(toks: Seq<SpannedToken>, k: int, n: nat) -> bool {
    forall|j: nat| j < n ==> flat_statement_at(toks, #[trigger] run_start(toks, k, j))
}

/// A plain statement from `x` on ends after `x`, within the input, and the comments and
/// whitespace behind it end at a token that is neither, or at the end.
proof fn lemma_simple_end(toks: Seq<SpannedToken>, x: int)
    requires
        0 <= x,
        skip_extras(toks, x) == x,
        simple_statement_at(toks, x),
    ensures
        x < simple_statement_end(toks, x) <= toks.len(),
        simple_statement_end(toks, x) <= skip_extras(toks, simple_statement_end(toks, x)) <= toks.len(),
        skip_extras(toks, skip_extras(toks, simple_statement_end(toks, x))) == skip_extras(toks, simple_statement_end(toks, x)),
        skip_extras(toks, simple_statement_end(toks, x)) < toks.len()
            ==> extra_of(toks[skip_extras(toks, simple_statement_end(toks, x))]) is None,
{
    if chain_statement_at(toks, x) {
        let b = next_operand(toks, x);
        let c = next_operand(toks, b);
        lemma_literal_end(toks, x);
        lemma_skip_extras_stop(toks, x);
        lemma_literal_end(toks, b);
        lemma_skip_extras_stop(toks, b);
        lemma_literal_end(toks, c);
        lemma_skip_extras_stop(toks, c);
    } else {
        lemma_literal_end(toks, pub_constant_value(toks, x));
        lemma_skip_extras_stop(toks, pub_constant_value(toks, x));
    }
    lemma_skip_extras_stop(toks, simple_statement_end(toks, x));
}

/// A plain statement starts where a statement list would not stop.
proof fn lemma_simple_not_stop(toks: Seq<SpannedToken>, x: int)
    requires
        0 <= x,
        skip_extras(toks, x) == x,
        simple_statement_at(toks, x),
    ensures
        !list_stops_at(toks, x),
{
    lemma_simple_end(toks, x);
    if chain_statement_at(toks, x) {
        assert(single_value(toks[x]) is Some);
    } else {
        assert(identifier_name(toks[x].value) is Some);
    }
}

/// The starts of a run of plain statements lie in the input, each a token that is no
/// comment or whitespace, or the end.
proof fn lemma_run_starts(toks: Seq<SpannedToken>, k: int, j: nat)
    requires
        0 <= k <= toks.len(),
        skip_extras(toks, k) == k,
        flat_run(toks, k, j),
    ensures
        k <= run_start(toks, k, j) <= toks.len(),
        skip_extras(toks, run_start(toks, k, j)) == run_start(toks, k, j),
        run_start(toks, k, j) < toks.len() ==> extra_of(toks[run_start(toks, k, j)]) is None,
    decreases j,
{
    if j == 0 {
        lemma_skip_extras_stop(toks, k);
    } else {
        let i = (j - 1) as nat;
        assert(flat_run(toks, k, i)) by {
            assert forall|m: nat| m < i implies flat_statement_at(toks, #[trigger] run_start(toks, k, m)) by {
                assert(flat_statement_at(toks, run_start(toks, k, m)));
            }
        }
        lemma_run_starts(toks, k, i);
        assert(flat_statement_at(toks, run_start(toks, k, i)));
        lemma_flat_end(toks, run_start(toks, k, i));
    }
}

/// A run of plain statements after which a statement list stops has one length only.
proof fn lemma_run_unique(toks: Seq<SpannedToken>, k: int, n1: nat, n2: nat)
    requires
        0 <= k <= toks.len(),
        skip_extras(toks, k) == k,
        flat_run(toks, k, n1),
        list_stops_at(toks, run_start(toks, k, n1)),
        flat_run(toks, k, n2),
        list_stops_at(toks, run_start(toks, k, n2)),
    ensures
        n1 == n2,
{
    if n1 < n2 {
        lemma_run_starts(toks, k, n1);
        assert(flat_statement_at(toks, run_start(toks, k, n1)));
        lemma_flat_end(toks, run_start(toks, k, n1));
    } else if n2 < n1 {
        lemma_run_starts(toks, k, n2);
        assert(flat_statement_at(toks, run_start(toks, k, n2)));
        lemma_flat_end(toks, run_start(toks, k, n2));
    }
}

/// A body of plain statements at `o`: `{`, plain statements, local assignments and use
/// statements one after another, then `}`.
pub open spec fn plain_body_at(toks: Seq<SpannedToken>, o: int) -> bool {
    &&& 0 <= o < toks.len()
    &&& toks[o].value is SigilOpenCurlyBracket
    &&& exists|n: nat| #![trigger flat_run(toks, skip_extras(toks, o + 1), n)]
        flat_run(toks, skip_extras(toks, o + 1), n)
        && 0 <= run_start(toks, skip_extras(toks, o + 1), n) < toks.len()
        && toks[run_start(toks, skip_extras(toks, o + 1), n)].value is SigilCloseCurlyBracket
}

/// How many statements the body of plain statements at `o` holds.
pub open spec fn plain_body_len(toks: Seq<SpannedToken>, o: int) -> nat {
    choose|n: nat| #![trigger flat_run(toks, skip_extras(toks, o + 1), n)]
        flat_run(toks, skip_extras(toks, o + 1), n)
        && 0 <= run_start(toks, skip_extras(toks, o + 1), n) < toks.len()
        && toks[run_start(toks, skip_extras(toks, o + 1), n)].value is SigilCloseCurlyBracket
}

/// Where the body of plain statements at `o` ends: behind its `}`.
pub open spec fn plain_body_end(toks: Seq<SpannedToken>, o: int) -> int {
    run_start(toks, skip_extras(toks, o + 1), plain_body_len(toks, o)) + 1
}

/// Is `b` the body of plain statements at `o`: exactly those statements, no final
/// expression.
pub open spec fn plain_body(toks: Seq<SpannedToken>, o: int, b: Body) -> bool {
    let k = skip_extras(toks, o + 1);
    let n = plain_body_len(toks, o);
    &&& b.statements.statements@.len() == n
    &&& b.statements.tail is None
    &&& forall|j: int| 0 <= j < n ==> flat_statement(toks, run_start(toks, k, j as nat), #[trigger] b.statements.statements@[j].0)
}

/// Does a keyword open a plain definition: a function, a workbench or an inline module.
pub open spec fn def_word(t: Token) -> bool {
    t is KeywordFn || t is KeywordPart || t is KeywordSketch || t is KeywordOp || t is KeywordMod
}

/// Where the `{` of the plain definition at `k` stands: after the name for a module, after
/// the name and `()` otherwise, with whitespace allowed before each.
pub open spec fn def_brace(toks: Seq<SpannedToken>, k: int) -> int {
    if toks[k].value is KeywordMod {
        ws_skip(toks, k + 3)
    } else {
        ws_skip(toks, skip_extras(toks, ws_skip(toks, k + 3) + 1) + 1)
    }
}

/// A plain definition at `k`: `fn name() { .. }`, `part name() { .. }` (or `sketch`, `op`)
/// or `mod name { .. }`, the name an identifier, without parameters, and the body made of
/// plain statements.
pub open spec fn def_at(toks: Seq<SpannedToken>, k: int) -> bool {
    &&& def_head_at(toks, k)
    &&& plain_body_at(toks, def_brace(toks, k))
}

/// The head of a plain definition at `k`, up to its `{`: a keyword, whitespace, an
/// identifier, and `()` unless it is a module.
pub open spec fn def_head_at(toks: Seq<SpannedToken>, k: int) -> bool {
    &&& 0 <= k && k + 2 < toks.len()
    &&& def_word(toks[k].value)
    &&& toks[k + 1].value is Whitespace
    &&& toks[k + 2].value is Identifier
    &&& !(toks[k].value is KeywordMod) ==> {
        let b = ws_skip(toks, k + 3);
        let c = skip_extras(toks, b + 1);
        &&& 0 <= b < toks.len() && toks[b].value is SigilOpenBracket
        &&& 0 <= c < toks.len() && toks[c].value is SigilCloseBracket
    }
    &&& 0 <= def_brace(toks, k) < toks.len()
    &&& toks[def_brace(toks, k)].value is SigilOpenCurlyBracket
}

/// Where the plain definition at `k` ends: behind its `}` and the comments and whitespace
/// after it.
pub open spec fn def_end(toks: Seq<SpannedToken>, k: int) -> int {
    skip_extras(toks, plain_body_end(toks, def_brace(toks, k)))
}

/// The definition a statement holds, if it is a function, a workbench or a module.
pub open spec fn definition_of(st: Statement) -> Option<Definition> {
    match st {
        Statement::Function(d) => Some(d),
        Statement::Workbench(_, d) => Some(d),
        Statement::InlineModule(d) => Some(d),
        _ => None,
    }
}

/// Is `st` the plain definition at `k`: of the keyword's kind, with that name, no
/// visibility, no return type, no parameters, and exactly the statements of its body.
pub open spec fn plain_def(toks: Seq<SpannedToken>, k: int, st: Statement) -> bool {
    &&& match toks[k].value {
        Token::KeywordFn => st is Function,
        Token::KeywordPart => st matches Statement::Workbench(WorkbenchKind::Part, _),
        Token::KeywordSketch => st matches Statement::Workbench(WorkbenchKind::Sketch, _),
        Token::KeywordOp => st matches Statement::Workbench(WorkbenchKind::Op, _),
        Token::KeywordMod => st is InlineModule,
        _ => false,
    }
    &&& definition_of(st) matches Some(d) && {
        &&& d.id matches Some(id) && id.name@ == toks[k + 2].value->Identifier_0@ && id.span == toks[k + 2].span
        &&& d.vis is None
        &&& d.return_type is None
        &&& (toks[k].value is KeywordMod ==> d.parameters is None)
        &&& (!(toks[k].value is KeywordMod) ==> (d.parameters matches Some(pl) && pl.parameters@.len() == 0))
        &&& d.body matches Some(b) && plain_body(toks, def_brace(toks, k), b)
    }
}

/// What the statements tried first, those that end with `;`, find at a plain definition:
/// for a module a file module up to the `{`, otherwise the keyword read as a name; in
/// neither case does a `;` follow.
proof fn lemma_def_no_semicolon(toks: Seq<SpannedToken>, k: int)
    requires
        def_head_at(toks, k),
    ensures
        toks[k].value is KeywordMod ==> skip_extras(toks, k + 3) == def_brace(toks, k)
            && semicolon_end(toks, skip_extras(toks, k + 3)) is None,
        !(toks[k].value is KeywordMod) ==> plain_name_at(toks, k) && skip_extras(toks, k + 1) == k + 2
            && ends_within(toks, k + 2, 9) && semicolon_end(toks, k + 2) is None,
{
    if toks[k].value is KeywordMod {
        let o = def_brace(toks, k);
        if toks[k + 3].value is Whitespace {
            assert(skip_extras(toks, k + 4) == k + 4);
        } else {
            assert(skip_extras(toks, k + 3) == k + 3);
        }
        assert(first_structural(toks, o) == o);
    } else {
        assert(skip_extras(toks, k + 2) == k + 2);
        assert(skip_extras(toks, k + 1) == k + 2);
        let b = ws_skip(toks, k + 3);
        assert(first_structural(toks, b) == b);
        if toks[k + 3].value is Whitespace {
            assert(first_structural(toks, k + 3) == b);
        }
        assert(first_structural(toks, k + 2) == b);
    }
}

/// Is the `i`-th name of a path from `k` on an identifier.
pub open spec fn path_name(toks: Seq<SpannedToken>, k: int, i: int) -> bool {
    0 <= k + 2 * i < toks.len() && toks[k + 2 * i].value is Identifier
}

/// Does `::` stand before the `i`-th name of a path from `k` on.
pub open spec fn path_sep(toks: Seq<SpannedToken>, k: int, i: int) -> bool {
    0 <= k + 2 * i - 1 < toks.len() && toks[k + 2 * i - 1].value is SigilDoubleColon
}

/// `n` identifiers from `k` on with `::` between them, and no `::` after the last.
pub open spec fn use_path_at(toks: Seq<SpannedToken>, k: int, n: nat) -> bool {
    &&& n >= 1
    &&& 0 <= k
    &&& forall|i: int| 0 <= i < n ==> #[trigger] path_name(toks, k, i)
    &&& forall|i: int| 0 < i < n ==> #[trigger] path_sep(toks, k, i)
    &&& !path_sep(toks, k, n as int)
}

/// How many names the path of the use statement at `k` has.
pub open spec fn use_len(toks: Seq<SpannedToken>, k: int) -> nat {
    choose|n: nat| #![trigger use_path_at(toks, k + 2, n)] use_path_at(toks, k + 2, n)
}

/// Where the `;` of the use statement at `k` stands.
pub open spec fn use_semicolon(toks: Seq<SpannedToken>, k: int) -> int {
    skip_extras(toks, k + 2 * use_len(toks, k) + 1)
}

/// A plain use statement at `k`: `use a::b::c;`, of identifiers, without `as`.
pub open spec fn use_at(toks: Seq<SpannedToken>, k: int) -> bool {
    &&& 0 <= k && k + 1 < toks.len()
    &&& toks[k].value is KeywordUse
    &&& toks[k + 1].value is Whitespace
    &&& exists|n: nat| #![trigger use_path_at(toks, k + 2, n)] use_path_at(toks, k + 2, n)
    &&& 0 <= use_semicolon(toks, k) < toks.len()
    &&& toks[use_semicolon(toks, k)].value is SigilSemiColon
}

/// Is `st` the plain use statement at `k`: not public, without `as`, and importing exactly
/// the names of its path.
pub open spec fn plain_use(toks: Seq<SpannedToken>, k: int, st: Statement) -> bool {
    &&& st is Use
    &&& st->Use_0.vis is None
    &&& st->Use_0.use_as is None
    &&& st->Use_0.name.parts@.len() == use_len(toks, k)
    &&& forall|i: int| 0 <= i < use_len(toks, k) ==> (#[trigger] st->Use_0.name.parts@[i] matches UseStatementPart::Identifier(id)
        && id.name@ == toks[k + 2 + 2 * i].value->Identifier_0@)
}

/// A plain value from `v` on: literals joined by up to two operators, or a lone name,
/// that no further operator follows.
pub open spec fn plain_value_at(toks: Seq<SpannedToken>, v: int) -> bool {
    ||| three_chain(toks, v, 9)
    ||| two_chain(toks, v, 9)
    ||| plain_literal_at(toks, v) && ends_within(toks, literal_end(toks, v), 9)
    ||| plain_name_at(toks, v) && toks[v].value is Identifier && ends_within(toks, skip_extras(toks, v + 1), 9)
}

/// Where the plain value from `v` on ends, with the comments and whitespace after it.
pub open spec fn value_end(toks: Seq<SpannedToken>, v: int) -> int {
    if three_chain(toks, v, 9) {
        three_chain_end(toks, v)
    } else if two_chain(toks, v, 9) {
        literal_end(toks, next_operand(toks, v))
    } else if plain_literal_at(toks, v) {
        literal_end(toks, v)
    } else {
        skip_extras(toks, v + 1)
    }
}

/// Is `e` the expression of the plain value from `v` on.
pub open spec fn value_expr(toks: Seq<SpannedToken>, v: int, e: Expression) -> bool {
    if three_chain(toks, v, 9) {
        chain_tree(toks, e, v)
    } else if two_chain(toks, v, 9) {
        literal_operation(toks, e, operator_after(toks, v)->0, v, next_operand(toks, v))
    } else if plain_literal_at(toks, v) {
        literal_expr(toks, v, e)
    } else {
        name_at(toks, v, e)
    }
}

/// Where the value of an assignment whose name stands at `k` starts.
pub open spec fn assigned_value(toks: Seq<SpannedToken>, k: int) -> int {
    ws_skip(toks, ws_skip(toks, k + 1) + 1)
}

/// A plain local assignment at `k`: `name = value;` with an identifier and a plain value.
pub open spec fn assign_at(toks: Seq<SpannedToken>, k: int) -> bool {
    &&& assignment_head(toks, k)
    &&& toks[k].value is Identifier
    &&& plain_value_at(toks, assigned_value(toks, k))
    &&& 0 <= value_end(toks, assigned_value(toks, k)) < toks.len()
    &&& toks[value_end(toks, assigned_value(toks, k))].value is SigilSemiColon
}

/// Is `st` the plain local assignment at `k`: that name, no type, that value.
pub open spec fn plain_assign(toks: Seq<SpannedToken>, k: int, st: Statement) -> bool {
    &&& st is LocalAssignment
    &&& st->LocalAssignment_0.id.name@ == toks[k].value->Identifier_0@
    &&& st->LocalAssignment_0.id.span == toks[k].span
    &&& st->LocalAssignment_0.ty is None
    &&& value_expr(toks, assigned_value(toks, k), *st->LocalAssignment_0.expr)
}

/// Where the `{` of the `if` at `k` stands: behind its condition and whitespace.
pub open spec fn if_brace(toks: Seq<SpannedToken>, k: int) -> int {
    ws_skip(toks, value_end(toks, k + 2))
}

/// Where an `else` of the `if` at `k` would stand: behind its body and whitespace.
pub open spec fn else_pos(toks: Seq<SpannedToken>, k: int) -> int {
    ws_skip(toks, plain_body_end(toks, if_brace(toks, k)))
}

/// Does an `else` follow the body of the `if` at `k`.
pub open spec fn has_else(toks: Seq<SpannedToken>, k: int) -> bool {
    0 <= else_pos(toks, k) < toks.len() && toks[else_pos(toks, k)].value is KeywordElse
}

/// Where the `{` of the `else` of the `if` at `k` stands.
pub open spec fn else_brace(toks: Seq<SpannedToken>, k: int) -> int {
    ws_skip(toks, else_pos(toks, k) + 1)
}

/// Where the `if` at `k` ends: behind its last `}` and the comments and whitespace after it.
pub open spec fn if_end(toks: Seq<SpannedToken>, k: int) -> int {
    if has_else(toks, k) {
        skip_extras(toks, plain_body_end(toks, else_brace(toks, k)))
    } else {
        skip_extras(toks, plain_body_end(toks, if_brace(toks, k)))
    }
}

/// A plain `if` at `k`: `if value { statements }`, with `else { statements }` or without,
/// its condition a plain value and its bodies made of plain statements.
pub open spec fn if_at(toks: Seq<SpannedToken>, k: int) -> bool {
    &&& 0 <= k && k + 1 < toks.len()
    &&& toks[k].value is KeywordIf
    &&& toks[k + 1].value is Whitespace
    &&& plain_value_at(toks, k + 2)
    &&& plain_body_at(toks, if_brace(toks, k))
    &&& has_else(toks, k) ==> plain_body_at(toks, else_brace(toks, k))
}

/// Is `i` the plain `if` at `k`: its condition, its body, its `else` body if it has one,
/// and no `else if`.
pub open spec fn plain_if(toks: Seq<SpannedToken>, k: int, i: If) -> bool {
    &&& value_expr(toks, k + 2, *i.condition)
    &&& plain_body(toks, if_brace(toks, k), i.body)
    &&& i.next_if is None
    &&& (has_else(toks, k) ==> (i.else_body matches Some(b) && plain_body(toks, else_brace(toks, k), b)))
    &&& (!has_else(toks, k) ==> i.else_body is None)
}

/// Nothing continues the expression that ended at `q`: no field, index, attribute or binary
/// operator follows.
pub open spec fn expression_stops(toks: Seq<SpannedToken>, q: int) -> bool {
    &&& !(0 <= q < toks.len() && (toks[q].value is SigilDot || toks[q].value is SigilOpenSquareBracket
        || toks[q].value is SigilHash))
    &&& ends_within(toks, q, 9)
}

/// A plain `if` standing as a statement at `k`: nothing continues it, and no `;` follows it
/// before the next bracket.
pub open spec fn if_statement_at(toks: Seq<SpannedToken>, k: int) -> bool {
    &&& if_at(toks, k)
    &&& expression_stops(toks, if_end(toks, k))
    &&& semicolon_end(toks, if_end(toks, k)) is None
}

/// Is `st` the plain `if` statement at `k`.
pub open spec fn plain_if_statement(toks: Seq<SpannedToken>, k: int, st: Statement) -> bool {
    &&& st is Expression
    &&& st->Expression_0.expression is If
    &&& plain_if(toks, k, st->Expression_0.expression->If_0)
}

/// A plain return statement at `k`: `return value;` with a plain value.
pub open spec fn return_at(toks: Seq<SpannedToken>, k: int) -> bool {
    &&& 0 <= k < toks.len()
    &&& toks[k].value is KeywordReturn
    &&& plain_value_at(toks, ws_skip(toks, k + 1))
    &&& 0 <= value_end(toks, ws_skip(toks, k + 1)) < toks.len()
    &&& toks[value_end(toks, ws_skip(toks, k + 1))].value is SigilSemiColon
}

/// Is `st` the plain return statement at `k`: returning its value.
pub open spec fn plain_return(toks: Seq<SpannedToken>, k: int, st: Statement) -> bool {
    &&& st is Return
    &&& st->Return_0.value matches Some(e) && value_expr(toks, ws_skip(toks, k + 1), e)
}

/// A plain statement, local assignment or use statement at `k`: a statement that holds no
/// body.
pub open spec fn flat_statement_at(toks: Seq<SpannedToken>, k: int) -> bool {
    simple_statement_at(toks, k) || assign_at(toks, k) || use_at(toks, k) || return_at(toks, k)
}

/// Where the plain statement, local assignment or use statement at `k` ends.
pub open spec fn flat_statement_end(toks: Seq<SpannedToken>, k: int) -> int {
    if simple_statement_at(toks, k) {
        simple_statement_end(toks, k)
    } else if assign_at(toks, k) {
        value_end(toks, assigned_value(toks, k)) + 1
    } else if use_at(toks, k) {
        use_semicolon(toks, k) + 1
    } else {
        value_end(toks, ws_skip(toks, k + 1)) + 1
    }
}

/// Is `st` the plain statement, local assignment or use statement at `k`.
pub open spec fn flat_statement(toks: Seq<SpannedToken>, k: int, st: Statement) -> bool {
    if simple_statement_at(toks, k) {
        simple_statement(toks, k, st)
    } else if assign_at(toks, k) {
        plain_assign(toks, k, st)
    } else if use_at(toks, k) {
        plain_use(toks, k, st)
    } else {
        plain_return(toks, k, st)
    }
}

/// A statement without body ends after it starts, within the input, holds no brace, and
/// the comments and whitespace behind it end at a token that is neither, or at the end; a
/// statement list does not stop where it starts.
proof fn lemma_flat_end(toks: Seq<SpannedToken>, x: int)
    requires
        0 <= x,
        skip_extras(toks, x) == x,
        flat_statement_at(toks, x),
    ensures
        x < flat_statement_end(toks, x) <= skip_extras(toks, flat_statement_end(toks, x)) <= toks.len(),
        skip_extras(toks, skip_extras(toks, flat_statement_end(toks, x))) == skip_extras(toks, flat_statement_end(toks, x)),
        skip_extras(toks, flat_statement_end(toks, x)) < toks.len()
            ==> extra_of(toks[skip_extras(toks, flat_statement_end(toks, x))]) is None,
        brace_free(toks, x, flat_statement_end(toks, x)),
        !list_stops_at(toks, x),
{
    if simple_statement_at(toks, x) {
        lemma_simple_end(toks, x);
        lemma_simple_not_stop(toks, x);
        lemma_statement_brace_free(toks, x);
    } else if assign_at(toks, x) {
        lemma_assign_end(toks, x);
        lemma_skip_extras_stop(toks, value_end(toks, assigned_value(toks, x)) + 1);
    } else if use_at(toks, x) {
        lemma_use_end(toks, x);
        lemma_skip_extras_stop(toks, use_semicolon(toks, x) + 1);
        assert(identifier_name(toks[x].value) is Some);
    } else {
        let v = ws_skip(toks, x + 1);
        lemma_value_end(toks, v);
        lemma_skip_extras_stop(toks, value_end(toks, v) + 1);
        assert(identifier_name(toks[x].value) is Some);
        assert forall|i: int| x <= i < value_end(toks, v) + 1 implies !(#[trigger] toks[i].value is SigilOpenCurlyBracket)
            && !(toks[i].value is SigilCloseCurlyBracket) by {
            if i < v {
            } else {
            }
        }
    }
}

/// A plain statement, local assignment, use or return statement, definition or `if` at `k`.
pub open spec fn plain_statement_at(toks: Seq<SpannedToken>, k: int) -> bool {
    flat_statement_at(toks, k) || def_at(toks, k) || if_statement_at(toks, k)
}

/// Where the plain statement, definition or `if` at `k` ends.
pub open spec fn plain_statement_end(toks: Seq<SpannedToken>, k: int) -> int {
    if flat_statement_at(toks, k) {
        flat_statement_end(toks, k)
    } else if def_at(toks, k) {
        def_end(toks, k)
    } else {
        if_end(toks, k)
    }
}

/// Is `st` the plain statement, definition or `if` at `k`.
pub open spec fn plain_statement(toks: Seq<SpannedToken>, k: int, st: Statement) -> bool {
    if flat_statement_at(toks, k) {
        flat_statement(toks, k, st)
    } else if def_at(toks, k) {
        plain_def(toks, k, st)
    } else {
        plain_if_statement(toks, k, st)
    }
}

/// A plain `if` ends after it starts, within the input, and closes the `{` it opens.
#[verifier::rlimit(80)]
proof fn lemma_if_end(toks: Seq<SpannedToken>, x: int)
    requires
        if_at(toks, x),
    ensures
        x < if_end(toks, x) <= toks.len(),
        skip_extras(toks, if_end(toks, x)) == if_end(toks, x),
        if_end(toks, x) < toks.len() ==> extra_of(toks[if_end(toks, x)]) is None,
        open_braces(toks, if_end(toks, x)) == open_braces(toks, x),
{
    let v = x + 2;
    lemma_value_end(toks, v);
    let o = if_brace(toks, x);
    let k2 = skip_extras(toks, o + 1);
    let n = plain_body_len(toks, o);
    let rs = run_start(toks, k2, n);
    assert(flat_run(toks, k2, n));
    lemma_skip_extras_stop(toks, o + 1);
    lemma_run_starts(toks, k2, n);
    lemma_skip_extras_stop(toks, rs + 1);
    assert(brace_free(toks, x, o)) by {
        assert forall|i: int| x <= i < o implies !(#[trigger] toks[i].value is SigilOpenCurlyBracket)
            && !(toks[i].value is SigilCloseCurlyBracket) by {
            if i < v {
            } else if i < value_end(toks, v) {
            } else {
            }
        }
    }
    lemma_open_braces_free(toks, x, o);
    lemma_skip_brace_free(toks, o + 1);
    lemma_open_braces_free(toks, o + 1, k2);
    lemma_run_brace_free(toks, k2, n);
    lemma_open_braces_free(toks, k2, rs);
    lemma_skip_brace_free(toks, rs + 1);
    lemma_open_braces_nonneg(toks, o);
    assert(open_braces(toks, o + 1) == open_braces(toks, o) + 1);
    assert(toks[rs].value is SigilCloseCurlyBracket);
    assert(open_braces(toks, rs + 1) == open_braces(toks, rs) - 1);
    if has_else(toks, x) {
        let ep = else_pos(toks, x);
        let o2 = else_brace(toks, x);
        let k3 = skip_extras(toks, o2 + 1);
        let n2 = plain_body_len(toks, o2);
        let rs2 = run_start(toks, k3, n2);
        assert(flat_run(toks, k3, n2));
        lemma_skip_extras_stop(toks, o2 + 1);
        lemma_run_starts(toks, k3, n2);
        lemma_skip_extras_stop(toks, rs2 + 1);
        assert(brace_free(toks, rs + 1, o2)) by {
            assert forall|i: int| rs + 1 <= i < o2 implies !(#[trigger] toks[i].value is SigilOpenCurlyBracket)
                && !(toks[i].value is SigilCloseCurlyBracket) by {
                if i < ep {
                } else if i == ep {
                } else {
                }
            }
        }
        lemma_open_braces_free(toks, rs + 1, o2);
        lemma_skip_brace_free(toks, o2 + 1);
        lemma_open_braces_free(toks, o2 + 1, k3);
        lemma_run_brace_free(toks, k3, n2);
        lemma_open_braces_free(toks, k3, rs2);
        lemma_skip_brace_free(toks, rs2 + 1);
        lemma_open_braces_free(toks, rs2 + 1, if_end(toks, x));
        lemma_open_braces_nonneg(toks, o2);
        assert(open_braces(toks, o2 + 1) == open_braces(toks, o2) + 1);
        assert(toks[rs2].value is SigilCloseCurlyBracket);
        assert(open_braces(toks, rs2 + 1) == open_braces(toks, rs2) - 1);
    } else {
        lemma_open_braces_free(toks, rs + 1, if_end(toks, x));
    }
}

/// A plain value ends after it starts and holds no brace.
proof fn lemma_value_end(toks: Seq<SpannedToken>, v: int)
    requires
        0 <= v <= toks.len(),
        plain_value_at(toks, v),
    ensures
        v < value_end(toks, v) <= toks.len(),
        brace_free(toks, v, value_end(toks, v)),
{
    if three_chain(toks, v, 9) || two_chain(toks, v, 9) {
        let b = next_operand(toks, v);
        lemma_literal_brace_free(toks, v);
        lemma_literal_end(toks, v);
        lemma_literal_brace_free(toks, b);
        lemma_literal_end(toks, b);
        if three_chain(toks, v, 9) {
            let c = next_operand(toks, b);
            lemma_literal_brace_free(toks, c);
            lemma_literal_end(toks, c);
            assert forall|i: int| v <= i < value_end(toks, v) implies !(#[trigger] toks[i].value is SigilOpenCurlyBracket)
                && !(toks[i].value is SigilCloseCurlyBracket) by {
                if i < literal_end(toks, v) {
                } else if i < b {
                } else if i < literal_end(toks, b) {
                } else if i < c {
                } else {
                }
            }
        } else {
            assert forall|i: int| v <= i < value_end(toks, v) implies !(#[trigger] toks[i].value is SigilOpenCurlyBracket)
                && !(toks[i].value is SigilCloseCurlyBracket) by {
                if i < literal_end(toks, v) {
                } else if i < b {
                } else {
                }
            }
        }
    } else if plain_literal_at(toks, v) {
        lemma_literal_brace_free(toks, v);
        lemma_literal_end(toks, v);
    } else {
        lemma_skip_extras_stop(toks, v + 1);
        lemma_skip_brace_free(toks, v + 1);
    }
}

/// A plain local assignment ends behind its `;`, within the input, and holds no brace.
proof fn lemma_assign_end(toks: Seq<SpannedToken>, x: int)
    requires
        assign_at(toks, x),
    ensures
        x < value_end(toks, assigned_value(toks, x)) + 1 <= toks.len(),
        brace_free(toks, x, value_end(toks, assigned_value(toks, x)) + 1),
{
    let v = assigned_value(toks, x);
    lemma_value_end(toks, v);
    assert forall|i: int| x <= i < value_end(toks, v) + 1 implies !(#[trigger] toks[i].value is SigilOpenCurlyBracket)
        && !(toks[i].value is SigilCloseCurlyBracket) by {
        if i < v {
        } else {
        }
    }
}


/// A plain use statement ends behind its `;`, within the input, and holds no brace.
proof fn lemma_use_end(toks: Seq<SpannedToken>, x: int)
    requires
        use_at(toks, x),
    ensures
        x < use_semicolon(toks, x) + 1 <= toks.len(),
        brace_free(toks, x, use_semicolon(toks, x) + 1),
{
    let n = use_len(toks, x);
    assert(use_path_at(toks, x + 2, n));
    let e = x + 2 * n + 1;
    lemma_skip_extras_stop(toks, e);
    lemma_skip_brace_free(toks, e);
    assert forall|i: int| x <= i < use_semicolon(toks, x) + 1 implies !(#[trigger] toks[i].value is SigilOpenCurlyBracket)
        && !(toks[i].value is SigilCloseCurlyBracket) by {
        if i < x + 2 {
        } else if i < e {
            let d = i - (x + 2);
            if d % 2 == 0 {
                assert(path_name(toks, x + 2, d / 2));
            } else {
                assert(path_sep(toks, x + 2, d / 2 + 1));
            }
        } else {
        }
    }
}


/// Where the `j`-th of plain statements and definitions written one after another from
/// `k` on starts.
pub open spec fn plain_run_start(toks: Seq<SpannedToken>, k: int, j: nat) -> int
    decreases j,
{
    if j == 0 {
        k
    } else {
        skip_extras(toks, plain_statement_end(toks, plain_run_start(toks, k, (j - 1) as nat)))
    }
}

/// Are `n` plain statements and definitions written one after another from `k` on.
pub open spec fn plain_run(toks: Seq<SpannedToken>, k: int, n: nat) -> bool {
    forall|j: nat| j < n ==> plain_statement_at(toks, #[trigger] plain_run_start(toks, k, j))
}

/// A plain definition ends after it starts, within the input, at a token that is no comment
/// or whitespace, or at the end.
proof fn lemma_def_end(toks: Seq<SpannedToken>, x: int)
    requires
        def_at(toks, x),
    ensures
        x < def_brace(toks, x) < plain_body_end(toks, def_brace(toks, x)) <= def_end(toks, x) <= toks.len(),
        skip_extras(toks, def_end(toks, x)) == def_end(toks, x),
        def_end(toks, x) < toks.len() ==> extra_of(toks[def_end(toks, x)]) is None,
        skip_extras(toks, def_brace(toks, x) + 1) <= plain_body_end(toks, def_brace(toks, x)) - 1,
{
    let o = def_brace(toks, x);
    let k2 = skip_extras(toks, o + 1);
    let n = plain_body_len(toks, o);
    lemma_skip_extras_stop(toks, o + 1);
    lemma_skip_extras_stop(toks, ws_skip(toks, x + 3) + 1);
    assert(flat_run(toks, k2, n));
    lemma_run_starts(toks, k2, n);
    lemma_skip_extras_stop(toks, plain_body_end(toks, o));
}

/// A plain statement or definition ends after it starts, within the input, and the comments
/// and whitespace behind it end at a token that is neither, or at the end.
proof fn lemma_plain_end(toks: Seq<SpannedToken>, x: int)
    requires
        0 <= x,
        skip_extras(toks, x) == x,
        plain_statement_at(toks, x),
    ensures
        x < plain_statement_end(toks, x) <= skip_extras(toks, plain_statement_end(toks, x)) <= toks.len(),
        skip_extras(toks, skip_extras(toks, plain_statement_end(toks, x))) == skip_extras(toks, plain_statement_end(toks, x)),
        skip_extras(toks, plain_statement_end(toks, x)) < toks.len()
            ==> extra_of(toks[skip_extras(toks, plain_statement_end(toks, x))]) is None,
        !list_stops_at(toks, x),
{
    if flat_statement_at(toks, x) {
        lemma_flat_end(toks, x);
    } else if def_at(toks, x) {
        lemma_def_end(toks, x);
        assert(identifier_name(toks[x].value) is Some);
    } else {
        lemma_if_end(toks, x);
        assert(identifier_name(toks[x].value) is Some);
    }
}

/// The starts of a run of plain statements and definitions lie in the input, each a token
/// that is no comment or whitespace, or the end.
proof fn lemma_plain_run_starts(toks: Seq<SpannedToken>, k: int, j: nat)
    requires
        0 <= k <= toks.len(),
        skip_extras(toks, k) == k,
        plain_run(toks, k, j),
    ensures
        k <= plain_run_start(toks, k, j) <= toks.len(),
        skip_extras(toks, plain_run_start(toks, k, j)) == plain_run_start(toks, k, j),
        plain_run_start(toks, k, j) < toks.len() ==> extra_of(toks[plain_run_start(toks, k, j)]) is None,
    decreases j,
{
    if j == 0 {
        lemma_skip_extras_stop(toks, k);
    } else {
        let i = (j - 1) as nat;
        assert(plain_run(toks, k, i)) by {
            assert forall|m: nat| m < i implies plain_statement_at(toks, #[trigger] plain_run_start(toks, k, m)) by {
                assert(plain_statement_at(toks, plain_run_start(toks, k, m)));
            }
        }
        lemma_plain_run_starts(toks, k, i);
        assert(plain_statement_at(toks, plain_run_start(toks, k, i)));
        lemma_plain_end(toks, plain_run_start(toks, k, i));
    }
}

/// A run of plain statements and definitions after which a statement list stops has one
/// length only.
proof fn lemma_plain_run_unique(toks: Seq<SpannedToken>, k: int, n1: nat, n2: nat)
    requires
        0 <= k <= toks.len(),
        skip_extras(toks, k) == k,
        plain_run(toks, k, n1),
        list_stops_at(toks, plain_run_start(toks, k, n1)),
        plain_run(toks, k, n2),
        list_stops_at(toks, plain_run_start(toks, k, n2)),
    ensures
        n1 == n2,
{
    if n1 < n2 {
        lemma_plain_run_starts(toks, k, n1);
        assert(plain_statement_at(toks, plain_run_start(toks, k, n1)));
        lemma_plain_end(toks, plain_run_start(toks, k, n1));
    } else if n2 < n1 {
        lemma_plain_run_starts(toks, k, n2);
        assert(plain_statement_at(toks, plain_run_start(toks, k, n2)));
        lemma_plain_end(toks, plain_run_start(toks, k, n2));
    }
}

/// A body at `o` that may hold plain definitions: `{`, plain statements, definitions and
/// `if`s one after another, then `}`.
pub open spec fn deep_body_at(toks: Seq<SpannedToken>, o: int) -> bool {
    &&& 0 <= o < toks.len()
    &&& toks[o].value is SigilOpenCurlyBracket
    &&& exists|n: nat| #![trigger plain_run(toks, skip_extras(toks, o + 1), n)]
        plain_run(toks, skip_extras(toks, o + 1), n)
        && 0 <= plain_run_start(toks, skip_extras(toks, o + 1), n) < toks.len()
        && toks[plain_run_start(toks, skip_extras(toks, o + 1), n)].value is SigilCloseCurlyBracket
}

/// How many statements the body at `o` that may hold plain definitions holds.
pub open spec fn deep_body_len(toks: Seq<SpannedToken>, o: int) -> nat {
    choose|n: nat| #![trigger plain_run(toks, skip_extras(toks, o + 1), n)]
        plain_run(toks, skip_extras(toks, o + 1), n)
        && 0 <= plain_run_start(toks, skip_extras(toks, o + 1), n) < toks.len()
        && toks[plain_run_start(toks, skip_extras(toks, o + 1), n)].value is SigilCloseCurlyBracket
}

/// Where the body at `o` that may hold plain definitions ends: behind its `}`.
pub open spec fn deep_body_end(toks: Seq<SpannedToken>, o: int) -> int {
    plain_run_start(toks, skip_extras(toks, o + 1), deep_body_len(toks, o)) + 1
}

/// Is `b` the body at `o` that may hold plain definitions: exactly its statements.
pub open spec fn deep_body(toks: Seq<SpannedToken>, o: int, b: Body) -> bool {
    let k = skip_extras(toks, o + 1);
    let n = deep_body_len(toks, o);
    &&& b.statements.statements@.len() == n
    &&& b.statements.tail is None
    &&& forall|j: int| 0 <= j < n ==> plain_statement(toks, plain_run_start(toks, k, j as nat), #[trigger] b.statements.statements@[j].0)
}

/// A definition at `k` whose body holds plain definitions too: a module holding functions,
/// say.
pub open spec fn nested_def_at(toks: Seq<SpannedToken>, k: int) -> bool {
    &&& def_head_at(toks, k)
    &&& deep_body_at(toks, def_brace(toks, k))
}

/// Where the definition at `k` whose body holds plain definitions ends.
pub open spec fn nested_def_end(toks: Seq<SpannedToken>, k: int) -> int {
    skip_extras(toks, deep_body_end(toks, def_brace(toks, k)))
}

/// Is `st` the definition at `k` whose body holds plain definitions: as `plain_def` says,
/// but with the statements and definitions of that body.
pub open spec fn nested_def(toks: Seq<SpannedToken>, k: int, st: Statement) -> bool {
    &&& match toks[k].value {
        Token::KeywordFn => st is Function,
        Token::KeywordPart => st matches Statement::Workbench(WorkbenchKind::Part, _),
        Token::KeywordSketch => st matches Statement::Workbench(WorkbenchKind::Sketch, _),
        Token::KeywordOp => st matches Statement::Workbench(WorkbenchKind::Op, _),
        Token::KeywordMod => st is InlineModule,
        _ => false,
    }
    &&& definition_of(st) matches Some(d) && {
        &&& d.id matches Some(id) && id.name@ == toks[k + 2].value->Identifier_0@ && id.span == toks[k + 2].span
        &&& d.vis is None
        &&& d.return_type is None
        &&& (toks[k].value is KeywordMod ==> d.parameters is None)
        &&& (!(toks[k].value is KeywordMod) ==> (d.parameters matches Some(pl) && pl.parameters@.len() == 0))
        &&& d.body matches Some(b) && deep_body(toks, def_brace(toks, k), b)
    }
}

/// Does a statement list that reached `f` stop there: at the end of the input or at a token
/// that starts no statement.
pub open spec fn list_stops_at(toks: Seq<SpannedToken>, f: int) -> bool {
    f == toks.len() || opens_no_statement(toks, f)
}

/// Does the statement `st`, parsed from `pos`, end at `q`: its span is that of the tokens
/// from `pos` to some `e`, and `q` is `e` or the end of the `;` that follows it.
pub open spec fn statement_ends(toks: Seq<SpannedToken>, st: Statement, pos: int, q: int) -> bool {
    exists|e: int| #![trigger cover_spec(toks, pos, e)]
        pos <= e <= q && st.span_spec() == cover_spec(toks, pos, e) && (e == q || semicolon_end(toks, e) == Some(q))
}

/// The statements `sts` follow one another from `a` and reach `b`: each begins where the
/// one before it and the comments and whitespace after that ended, and ends as
/// `statement_ends` says.
pub open spec fn tiled(toks: Seq<SpannedToken>, sts: Seq<(Statement, TrailingExtras)>, a: int, b: int) -> bool
    decreases sts.len(),
{
    if sts.len() == 0 {
        a == b
    } else {
        exists|m: int, q: int| #![trigger statement_ends(toks, sts.last().0, m, q)]
            tiled(toks, sts.drop_last(), a, m) && statement_ends(toks, sts.last().0, m, q) && b == skip_extras(toks, q)
    }
}

/// Is `s` the span of the tokens `x..y` for some `a <= x <= y <= b`.
pub open spec fn span_within(toks: Seq<SpannedToken>, s: Span, a: int, b: int) -> bool {
    exists|x: int, y: int| #![trigger cover_spec(toks, x, y)] a <= x <= y <= b && s == cover_spec(toks, x, y)
}

/// Is a lone name at `pos`: an identifier, or a word that may be read as one but `if`, that
/// no `::`, call, field, index or attribute follows.
pub open spec fn plain_name_at(toks: Seq<SpannedToken>, pos: int) -> bool {
    &&& 0 <= pos < toks.len()
    &&& identifier_name(toks[pos].value) is Some
    &&& !(toks[pos].value is KeywordIf)
    &&& !(pos + 1 < toks.len() && toks[pos + 1].value is SigilDoubleColon)
    &&& {
        let n = skip_extras(toks, pos + 1);
        !(0 <= n < toks.len() && (toks[n].value is SigilOpenBracket || toks[n].value is SigilHash
            || toks[n].value is SigilDot || toks[n].value is SigilOpenSquareBracket))
    }
}

/// Is `e` the name of the identifier at `pos`: a path of that one name, over its token.
pub open spec fn name_at(toks: Seq<SpannedToken>, pos: int, e: Expression) -> bool {
    &&& e is SymbolPath
    &&& e->SymbolPath_0.prefix is None
    &&& e->SymbolPath_0.parts@.len() == 1
    &&& e->SymbolPath_0.parts@[0].name@ == identifier_name(toks[pos].value)->0
    &&& e->SymbolPath_0.parts@[0].span == toks[pos].span
    &&& e.span_spec() == toks[pos].span
}

/// The binary operations of `e`, parsed from the tokens `a..b`, stand in token order: the
/// operator of each is a token between its operands, the left one parsed from `a` and the
/// right one from just behind the operator and its whitespace; every other expression has
/// the span of tokens within, and is the literal or the name there, ending where they and
/// the comments and whitespace behind them end, where a plain literal or a lone name starts
/// it.
pub open spec fn ordered(toks: Seq<SpannedToken>, e: Expression, a: int, b: int) -> bool
    decreases e,
{
    match e {
        Expression::BinaryOperation(x) => exists|m: int|
            #![trigger ws_skip(toks, m)]
            a < m && 0 <= ws_skip(toks, m) < b && {
                let o = ws_skip(toks, m);
                &&& toks[o].span == x.op.span
                &&& token_operator(toks[o].value) == Some(x.op.value)
                &&& ordered(toks, *x.lhs, a, m)
                &&& ordered(toks, *x.rhs, ws_skip(toks, o + 1), b)
            },
        _ => {
            &&& span_within(toks, e.span_spec(), a, b)
            &&& plain_literal_at(toks, a) ==> literal_expr(toks, a, e) && b == literal_end(toks, a)
            &&& plain_name_at(toks, a) ==> name_at(toks, a, e) && b == skip_extras(toks, a + 1)
        },
    }
}

/// Does an operand certainly start from `p` on: a literal or a name.
pub open spec fn operand_start(toks: Seq<SpannedToken>, p: int) -> bool {
    literal_at(toks, p) || names_at(toks, p)
}

/// Would an operation of level `l` or tighter go on after an expression that ended at `q`:
/// an operator of such a level follows, and an operand after it.
pub open spec fn continues_at(toks: Seq<SpannedToken>, q: int, l: int) -> bool {
    let o = ws_skip(toks, q);
    &&& operator_token_at(toks, o) matches Some(op) && op_level(op) <= l
    &&& operand_start(toks, ws_skip(toks, o + 1))
}

/// Is the expression from `pos` on a lone literal: one that no element access, no unit
/// beyond its own and no binary operator follows.
pub open spec fn lone_literal_at(toks: Seq<SpannedToken>, pos: int) -> bool {
    &&& literal_at(toks, pos)
    &&& {
        let q = literal_end(toks, pos);
        !(0 <= q < toks.len() && (toks[q].value is SigilHash || toks[q].value is SigilDot
            || toks[q].value is SigilOpenSquareBracket || token_operator(toks[q].value) is Some))
    }
}

/// A literal ends past its token, at a token that is no comment or whitespace, or at the end.
proof fn lemma_literal_end(toks: Seq<SpannedToken>, pos: int)
    requires
        0 <= pos <= toks.len(),
        literal_at(toks, pos),
    ensures
        skip_extras(toks, pos) < literal_end(toks, pos) <= toks.len(),
        skip_extras(toks, literal_end(toks, pos)) == literal_end(toks, pos),
        ws_skip(toks, literal_end(toks, pos)) == literal_end(toks, pos),
        literal_end(toks, pos) < toks.len() ==> extra_of(toks[literal_end(toks, pos)]) is None,
{
    let p1 = skip_extras(toks, pos);
    lemma_skip_extras_stop(toks, pos);
    let p2 = if p1 + 1 < toks.len() && unit_name(toks[p1 + 1].value) is Some { p1 + 2 } else { p1 + 1 };
    lemma_skip_extras_stop(toks, p2);
}

/// Does no expression start at `pos`: the input ends there, or the token there is one that
/// no expression starts with, and no comment, whitespace or attribute: no literal, string,
/// name or keyword, `@`, opening bracket or unary operator.
pub open spec fn opens_no_expression(toks: Seq<SpannedToken>, pos: int) -> bool {
    &&& 0 <= pos
    &&& pos < toks.len() ==> {
        &&& extra_of(toks[pos]) is None
        &&& single_value(toks[pos]) is None
        &&& identifier_name(toks[pos].value) is None
        &&& !(toks[pos].value is Error || toks[pos].value is FormatStringStart || toks[pos].value is SigilAt
            || toks[pos].value is SigilHash || toks[pos].value is SigilOpenBracket
            || toks[pos].value is SigilOpenSquareBracket || toks[pos].value is SigilOpenCurlyBracket
            || toks[pos].value is OperatorSubtract || toks[pos].value is OperatorAdd || toks[pos].value is OperatorNot)
    }
}

/// Does an assignment start at `pos`: a name, optional whitespace and `=`.
pub open spec fn assignment_head(toks: Seq<SpannedToken>, pos: int) -> bool {
    &&& 0 <= pos < toks.len()
    &&& identifier_name(toks[pos].value) is Some
    &&& {
        let p1 = ws_skip(toks, pos + 1);
        0 <= p1 < toks.len() && toks[p1].value is OperatorAssignment
    }
}

/// Does a keyword come at `pos`, then one whitespace token and a name: a definition's head.
pub open spec fn named_head(toks: Seq<SpannedToken>, pos: int, t: Token) -> bool {
    &&& 0 <= pos && pos + 2 < toks.len()
    &&& toks[pos].value == t
    &&& toks[pos + 1].value is Whitespace
    &&& identifier_name(toks[pos + 2].value) is Some
}

/// Does a token open a definition of the kind `which`: a function (0), an init (1) or a
/// workbench (2).
pub open spec fn def_keyword(t: Token, which: u8) -> bool {
    ||| which == 0 && t is KeywordFn
    ||| which == 1 && t is KeywordInit
    ||| which == 2 && (t is KeywordSketch || t is KeywordPart || t is KeywordOp)
}

/// Is the attribute body at `pos` a lone name in square brackets: `[name]`.
pub open spec fn lone_name_attribute(toks: Seq<SpannedToken>, pos: int) -> bool {
    &&& 0 <= pos && pos + 2 < toks.len()
    &&& toks[pos].value is SigilOpenSquareBracket
    &&& identifier_name(toks[pos + 1].value) is Some
    &&& toks[pos + 2].value is SigilCloseSquareBracket
}

/// Are `parts` the names at `k`, `k + 2`, ... with `::` between them: the names of a path
/// written from `k` on.
pub open spec fn names_from(toks: Seq<SpannedToken>, k: int, parts: Seq<Identifier>) -> bool {
    forall|i: int| 0 <= i < parts.len() ==> name_in_path(toks, k, i, #[trigger] parts[i])
}

/// Is `id` the `i`-th name of a path written from `k` on.
pub open spec fn name_in_path(toks: Seq<SpannedToken>, k: int, i: int, id: Identifier) -> bool {
    &&& 0 <= k + 2 * i < toks.len()
    &&& identifier_name(toks[k + 2 * i].value) is Some
    &&& id.name@ == identifier_name(toks[k + 2 * i].value)->0
    &&& (i > 0 ==> toks[k + 2 * i - 1].value == Token::SigilDoubleColon)
}

/// A name written `::` after the names of a path extends them.
proof fn lemma_names_from_push(toks: Seq<SpannedToken>, k: int, prev: Seq<Identifier>, id: Identifier)
    requires
        names_from(toks, k, prev),
        prev.len() > 0,
        0 <= k + 2 * prev.len() < toks.len(),
        identifier_name(toks[k + 2 * prev.len()].value) is Some,
        id.name@ == identifier_name(toks[k + 2 * prev.len()].value)->0,
        toks[k + 2 * prev.len() - 1].value == Token::SigilDoubleColon,
    ensures
        names_from(toks, k, prev.push(id)),
{
    let parts = prev.push(id);
    assert forall|i: int| 0 <= i < parts.len() implies name_in_path(toks, k, i, #[trigger] parts[i]) by {
        if i < prev.len() {
            assert(parts[i] == prev[i]);
            assert(name_in_path(toks, k, i, prev[i]));
        }
    }
}

impl<'t> Parser<'t> {
    /// Drops the errors recorded since the errors were `orig`.
    fn restore(&mut self, n: usize, Ghost(orig): Ghost<Seq<ParseError>>)
        requires
            n == orig.len(),
            extends(orig, old(self).errors@),
        ensures
            final(self).toks == old(self).toks,
            final(self).errors@ == orig,
    {
        self.errors.truncate(n);
        assert(self.errors@ =~= orig);
    }

    /// Records that `label` was expected at `pos`.
    fn expected(&mut self, pos: usize, label: &'static str)
        requires
            pos <= old(self).len(),
        ensures
            final(self).toks == old(self).toks,
            extends(old(self).errors@, final(self).errors@),
            final(self).errors@.len() == old(self).errors@.len() + 1,
            final(self).errors@.drop_last() == old(self).errors@,
            expected_error(final(self).errors@.last(), old(self).toks@, pos as int, label),
    {
        let span = self.span_of(pos, pos);
        let mut expected: Vec<&'static str> = Vec::new();
        expected.push(label);
        let (found, found_is_error) = if pos < self.toks.len() {
            (Some(self.toks[pos].value.kind()), matches!(self.toks[pos].value, Token::Error(_)))
        } else {
            (None, false)
        };
        self.error(span, ParseErrorKind::Expected { expected, found, found_is_error });
        assert(self.errors@.drop_last() =~= old(self).errors@);
    }

    /// The lines of a doc block: doc comments, each followed by whitespace.
    pub fn doc_block(&self, pos: usize) -> (r: (DocBlock, usize))
        requires
            pos <= self.len(),
        ensures
            pos <= r.1 <= self.len(),
            r.0.span == self.cover(pos as int, r.1 as int),
            r.0.lines@.len() * 2 == r.1 - pos,
            !(pos < self.len() && self.toks@[pos as int].value is DocComment) ==> r.1 == pos,
            forall|i: int| 0 <= i < r.0.lines@.len() ==> {
                &&& #[trigger] self.toks@[pos + 2 * i].value is DocComment
                &&& self.toks@[pos + 2 * i].value->DocComment_0@ == r.0.lines@[i]@
                &&& self.toks@[pos + 2 * i + 1].value is Whitespace
            },
            !(r.1 + 1 < self.len() && self.toks@[r.1 as int].value is DocComment
                && self.toks@[r.1 + 1].value is Whitespace),
    {
        let mut lines: Vec<String> = Vec::new();
        let mut p = pos;
        while p < self.toks.len() && p + 1 < self.toks.len() && matches!(self.toks[p].value, Token::DocComment(_)) && matches!(self.toks[p + 1].value, Token::Whitespace(_))
            invariant
                pos <= p <= self.len(),
                lines@.len() * 2 == p - pos,
                p > pos ==> self.toks@[pos as int].value is DocComment,
                forall|i: int| 0 <= i < lines@.len() ==> {
                    &&& #[trigger] self.toks@[pos + 2 * i].value is DocComment
                    &&& self.toks@[pos + 2 * i].value->DocComment_0@ == lines@[i]@
                    &&& self.toks@[pos + 2 * i + 1].value is Whitespace
                },
            decreases self.len() - p,
        {
            match &self.toks[p].value {
                Token::DocComment(c) => {
                    let line = c.clone();
                    lines.push(line);
                    assert(self.toks@[pos + 2 * (lines@.len() - 1)].value->DocComment_0@ == lines@[lines@.len() - 1]@);
                },
                _ => {},
            }
            p = p + 2;
        }
        let span = self.span_of(pos, p);
        (DocBlock { span, lines }, p)
    }

    /// A `::`-separated name, with the comments and whitespace around it.
    pub fn qualified_name(&mut self, pos: usize) -> (r: Option<(SymbolPath, usize)>)
        requires
            pos <= old(self).len(),
        ensures
            final(self).step(*old(self), pos as int, end_of(r)),
            r matches Some((n, q)) ==> q > pos && n.span == old(self).cover(pos as int, q as int)
                && n.parts@.len() >= 1 && n.prefix is None,
            r is Some == names_at(old(self).toks@, pos as int),
            ({
                let k = skip_extras(old(self).toks@, pos as int);
                names_at(old(self).toks@, pos as int) && !old(self).at(k + 1, Token::SigilDoubleColon)
                    ==> (r matches Some((_, q)) && q == skip_extras(old(self).toks@, k + 1))
            }),
            r matches Some((n, q)) ==> {
                let k = skip_extras(old(self).toks@, pos as int);
                let last = k + 2 * n.parts@.len() - 1;
                &&& names_from(old(self).toks@, k, n.parts@)
                &&& q == skip_extras(old(self).toks@, last)
                &&& !(old(self).at(last, Token::SigilDoubleColon) && last + 1 < old(self).len()
                    && identifier_name(old(self).toks@[last + 1].value) is Some)
            },
    {
        let ghost orig = self.errors@;
        let ghost t = self.toks@;
        let save = self.errors.len();
        let (leading, p1) = self.leading_extras(pos);
        proof {
            lemma_skip_extras(self.toks@, pos as int, p1 as int, leading.0@);
        }
        let mut parts: Vec<Identifier> = Vec::new();
        let mut p = match self.identifier(p1) {
            Some((id, q)) => {
                parts.push(id);
                q
            },
            None => return None,
        };
        while p < self.toks.len() && p + 1 < self.toks.len() && matches!(self.toks[p].value, Token::SigilDoubleColon)
            invariant
                pos < p <= self.len(),
                p1 + 1 <= p,
                p > p1 + 1 ==> (p1 + 1 < t.len() && t[p1 + 1].value == Token::SigilDoubleColon),
                parts@.len() >= 1,
                self.toks == old(self).toks,
                t == self.toks@,
                extends(orig, self.errors@),
                p == p1 + 2 * parts@.len() - 1,
                names_from(t, p1 as int, parts@),
            ensures
                pos < p <= self.len(),
                p1 + 1 <= p,
                p > p1 + 1 ==> (p1 + 1 < t.len() && t[p1 + 1].value == Token::SigilDoubleColon),
                parts@.len() >= 1,
                self.toks == old(self).toks,
                t == self.toks@,
                extends(orig, self.errors@),
                p == p1 + 2 * parts@.len() - 1,
                names_from(t, p1 as int, parts@),
                !((p < t.len() && t[p as int].value == Token::SigilDoubleColon) && p + 1 < t.len()
                    && identifier_name(t[p + 1].value) is Some),
            decreases self.len() - p,
        {
            assert(p == p1 + 1 ==> (p1 + 1 < t.len() && t[p1 + 1].value == Token::SigilDoubleColon));
            match self.identifier(p + 1) {
                Some((id, q)) => {
                    let ghost prev = parts@;
                    proof {
                        lemma_names_from_push(t, p1 as int, prev, id);
                    }
                    parts.push(id);
                    p = q;
                },
                None => break,
            }
        }
        let (trailing, q) = self.trailing_extras(p);
        proof {
            lemma_skip_extras(self.toks@, p as int, q as int, trailing.0@);
        }
        let span = self.span_of(pos, q);
        Some((SymbolPath { span, extras: ItemExtras { leading, trailing }, prefix: None, parts }, q))
    }

    /// A type: a name, `[T]` or `(name: T, U)`.
    pub fn type_(&mut self, pos: usize) -> (r: Option<(Type, usize)>)
        requires
            pos <= old(self).len(),
        ensures
            final(self).step(*old(self), pos as int, end_of(r)),
            r matches Some((t, q)) ==> q > pos && t.span_spec() == old(self).cover(pos as int, q as int),
            pos < old(self).len() && old(self).toks@[pos as int].value is Identifier ==> (r matches Some((t, q))
                && q == pos + 1 && (t matches Type::Single(st)
                && st.name == old(self).toks@[pos as int].value->Identifier_0)),
            !(pos < old(self).len() && (old(self).toks@[pos as int].value is Identifier
                || old(self).toks@[pos as int].value is SigilOpenSquareBracket
                || old(self).toks@[pos as int].value is SigilOpenBracket)) ==> r is None,
        decreases old(self).len() - pos, 0nat,
    {
        let ghost orig = self.errors@;
        let save = self.errors.len();
        if pos >= self.toks.len() {
            return None;
        }
        match &self.toks[pos].value {
            Token::Identifier(s) => {
                let span = self.toks[pos].span;
                return Some((Type::Single(SingleType { span, name: s.clone() }), pos + 1));
            },
            Token::SigilOpenSquareBracket => {
                let p = self.maybe_ws(pos + 1);
                match self.type_(p) {
                    Some((inner, p2)) => {
                        let p3 = self.maybe_ws(p2);
                        if p3 < self.toks.len() && matches!(self.toks[p3].value, Token::SigilCloseSquareBracket) {
                            let span = self.span_of(pos, p3 + 1);
                            return Some((Type::Array(ArrayType { span, inner: Box::new(inner) }), p3 + 1));
                        }
                        self.restore(save, Ghost(orig));
                        return None;
                    },
                    None => return None,
                }
            },
            Token::SigilOpenBracket => {},
            _ => return None,
        }
        let mut inner: Vec<(Option<Identifier>, Type)> = Vec::new();
        let mut p = pos + 1;
        match self.tuple_type_item(p) {
            Some((item, q)) => {
                inner.push(item);
                p = q;
                while p < self.toks.len() && matches!(self.toks[p].value, Token::SigilComma)
                    invariant
                        pos < p <= self.len(),
                        self.toks == old(self).toks,
                        extends(orig, self.errors@),
                    decreases self.len() - p,
                {
                    match self.tuple_type_item(p + 1) {
                        Some((item, q)) => {
                            inner.push(item);
                            p = q;
                        },
                        None => {
                            p = p + 1;
                            break;
                        },
                    }
                }
            },
            None => {},
        }
        let p = self.maybe_ws(p);
        if p < self.toks.len() && matches!(self.toks[p].value, Token::SigilCloseBracket) {
            let span = self.span_of(pos, p + 1);
            return Some((Type::Tuple(TupleType { span, inner }), p + 1));
        }
        self.restore(save, Ghost(orig));
        None
    }

    /// An item of a tuple type: `name: T` or `T`, with optional whitespace around.
    fn tuple_type_item(&mut self, pos: usize) -> (r: Option<((Option<Identifier>, Type), usize)>)
        requires
            pos <= old(self).len(),
        ensures
            final(self).step(*old(self), pos as int, end_of(r)),
            r matches Some((_, q)) ==> q > pos,
            ({
                let p0 = ws_skip(old(self).toks@, pos as int);
                p0 < old(self).len() && old(self).toks@[p0].value is Identifier && !old(self).at(p0 + 1, Token::SigilColon)
                    ==> (r matches Some((item, _)) && item.0 is None
                    && (item.1 matches Type::Single(st) && st.name == old(self).toks@[p0].value->Identifier_0))
            }),
        decreases old(self).len() - pos, 1nat,
    {
        let ghost orig = self.errors@;
        let save = self.errors.len();
        let p0 = self.maybe_ws(pos);
        let (name, p) = match self.identifier(p0) {
            Some((id, q)) => {
                if q < self.toks.len() && matches!(self.toks[q].value, Token::SigilColon) {
                    (Some(id), q + 1)
                } else {
                    self.restore(save, Ghost(orig));
                    (None, pos)
                }
            },
            None => (None, pos),
        };
        let p = self.maybe_ws(p);
        match self.type_(p) {
            Some((t, q)) => {
                let q = self.maybe_ws(q);
                Some(((name, t), q))
            },
            None => {
                self.restore(save, Ghost(orig));
                None
            },
        }
    }
}

/// Does a format width or precision token hold at least one character, the first of
/// them ASCII (the token's text is read from its second character on).
pub open spec fn format_token_ok(t: Token) -> bool {
    match t {
        Token::StringFormatWidth(w) => w@.len() >= 1 && (w@[0] as u32) < 128,
        Token::StringFormatPrecision(w) => w@.len() >= 1 && (w@[0] as u32) < 128,
        _ => true,
    }
}

/// Every format width and precision token is as the lexer makes them.
pub open spec fn tokens_wf(toks: Seq<SpannedToken>) -> bool {
    forall|i: int| 0 <= i < toks.len() ==> format_token_ok(#[trigger] toks[i].value)
}

impl<'t> Parser<'t> {
    /// Every format width and precision token is as the lexer makes them.
    pub open spec fn wf(&self) -> bool {
        tokens_wf(self.toks@)
    }

    /// Is the token at `pos` `;`.
    fn semi_at(&self, pos: usize) -> (b: bool)
        ensures
            b == (pos < self.len() && self.toks@[pos as int].value is SigilSemiColon),
    {
        pos < self.toks.len() && matches!(self.toks[pos].value, Token::SigilSemiColon)
    }

    /// Is the token at `pos` one that gives the code structure: a bracket or `;`.
    fn structural_at(&self, pos: usize) -> (b: bool)
        requires
            pos < self.len(),
        ensures
            b == is_structural(self.toks@[pos as int].value),
    {
        match &self.toks[pos].value {
            Token::SigilOpenCurlyBracket | Token::SigilCloseCurlyBracket | Token::SigilOpenBracket
            | Token::SigilCloseBracket | Token::SigilOpenSquareBracket | Token::SigilCloseSquareBracket
            | Token::SigilSemiColon => true,
            _ => false,
        }
    }

    /// Skips the tokens up to the first `;` from `pos` on, without taking the `;`: its
    /// position, or the end if there is none.
    fn ignore_till_semi(&self, pos: usize) -> (q: usize)
        requires
            pos <= self.len(),
        ensures
            pos <= q <= self.len(),
            forall|i: int| pos <= i < q ==> !(self.toks@[i].value is SigilSemiColon),
            q < self.len() ==> self.toks@[q as int].value is SigilSemiColon,
    {
        let mut p = pos;
        while p < self.toks.len() && !self.semi_at(p)
            invariant
                pos <= p <= self.len(),
                forall|i: int| pos <= i < p ==> !(self.toks@[i].value is SigilSemiColon),
            decreases self.len() - p,
        {
            p = p + 1;
        }
        p
    }

    /// The position of the first bracket or `;` from `pos` on, or the end.
    fn skip_to_structural(&self, pos: usize) -> (q: usize)
        requires
            pos <= self.len(),
        ensures
            pos <= q <= self.len(),
            forall|i: int| pos <= i < q ==> !is_structural(#[trigger] self.toks@[i].value),
            q < self.len() ==> is_structural(self.toks@[q as int].value),
            q == first_structural(self.toks@, pos as int),
    {
        let mut p = pos;
        while p < self.toks.len() && !self.structural_at(p)
            invariant
                pos <= p <= self.len(),
                forall|i: int| pos <= i < p ==> !is_structural(#[trigger] self.toks@[i].value),
                first_structural(self.toks@, pos as int) == first_structural(self.toks@, p as int),
            decreases self.len() - p,
        {
            p = p + 1;
        }
        p
    }

    /// The kind of bracket a token opens (0 round, 1 square, 2 curly) or closes (3, 4, 5).
    fn bracket_at(&self, pos: usize) -> (k: u8)
        requires
            pos < self.len(),
        ensures
            k == bracket_kind(self.toks@[pos as int].value),
            k <= 6,
    {
        match &self.toks[pos].value {
            Token::SigilOpenBracket => 0,
            Token::SigilOpenSquareBracket => 1,
            Token::SigilOpenCurlyBracket => 2,
            Token::SigilCloseBracket => 3,
            Token::SigilCloseSquareBracket => 4,
            Token::SigilCloseCurlyBracket => 5,
            _ => 6,
        }
    }

    /// Skips a bracketed group that opens at `pos` with a bracket of kind `open`, brackets
    /// nested in it matched; fails if a bracket does not match or the input ends first.
    fn skip_nested(&self, pos: usize, open: u8) -> (r: Option<usize>)
        requires
            pos <= self.len(),
            open < 3,
        ensures
            opt_int(r) == group_end(self.toks@, pos as int, open),
            r matches Some(q) ==> pos < q <= self.len(),
    {
        if pos >= self.toks.len() || self.bracket_at(pos) != open {
            return None;
        }
        let mut stack: Vec<u8> = Vec::new();
        stack.push(open);
        let mut p = pos + 1;
        while p < self.toks.len()
            invariant
                pos < p <= self.len(),
                stack@.len() >= 1,
                forall|i: int| 0 <= i < stack@.len() ==> stack@[i] < 3,
                group_end(self.toks@, pos as int, open) == nested_end(self.toks@, p as int, stack@),
            decreases self.len() - p,
        {
            let k = self.bracket_at(p);
            if k < 3 {
                stack.push(k);
            } else if k < 6 {
                let top = stack[stack.len() - 1];
                if top + 3 != k {
                    return None;
                }
                stack.pop();
                if stack.len() == 0 {
                    return Some(p + 1);
                }
            }
            p = p + 1;
        }
        None
    }

    /// Skips a group in curly brackets that opens at `pos`, brackets nested in it matched.
    fn ignore_till_matched_curly(&self, pos: usize) -> (r: Option<usize>)
        requires
            pos <= self.len(),
        ensures
            opt_int(r) == group_end(self.toks@, pos as int, 2u8),
            r matches Some(q) ==> pos < q <= self.len(),
    {
        self.skip_nested(pos, 2)
    }

    /// Skips a group in round brackets that opens at `pos`, brackets nested in it matched.
    fn ignore_till_matched_brackets(&self, pos: usize) -> (r: Option<usize>)
        requires
            pos <= self.len(),
        ensures
            opt_int(r) == group_end(self.toks@, pos as int, 0u8),
            r matches Some(q) ==> pos < q <= self.len(),
    {
        self.skip_nested(pos, 0)
    }

    /// The recovery for a single expected token: takes one token that is not `;`, whitespace
    /// or one of the `except` kinds; before those it takes nothing; at the end it fails.
    fn recovery_expect_any_except(&self, pos: usize, except_curly: bool, except_round: bool, except_more: u8) -> (r: Option<usize>)
        requires
            pos <= self.len(),
        ensures
            r == if pos >= self.len() {
                None
            } else if excepted(self.toks@[pos as int].value, except_curly, except_round, except_more) {
                Some(pos)
            } else {
                Some((pos + 1) as usize)
            },
            r matches Some(q) ==> pos <= q <= pos + 1 && q <= self.len(),
            r matches Some(q) ==> q == (if excepted(self.toks@[pos as int].value, except_curly, except_round, except_more) { pos as int } else { pos + 1 }),
    {
        if pos >= self.toks.len() {
            return None;
        }
        let t = &self.toks[pos].value;
        let excepted = match t {
            Token::SigilSemiColon | Token::Whitespace(_) => true,
            Token::SigilOpenCurlyBracket => except_curly,
            Token::SigilOpenBracket => except_round,
            Token::SigilDoubleColon => except_more == 1,
            Token::SigilComma => except_more == 2 || except_more == 3,
            Token::OperatorAssignment => except_more == 2,
            Token::SigilCloseBracket => except_more == 2 || except_more == 3,
            _ => false,
        };
        if excepted {
            Some(pos)
        } else {
            Some(pos + 1)
        }
    }
}

/// Is `t` a token that the recovery for a single expected token does not take: `;`,
/// whitespace, `{` if `except_curly`, `(` if `except_round`, and with `except_more` 1 a
/// `::`, with 2 a `,`, `=` or `)`, with 3 a `,` or `)`.
pub open spec fn excepted(t: Token, except_curly: bool, except_round: bool, except_more: u8) -> bool {
    match t {
        Token::SigilSemiColon | Token::Whitespace(_) => true,
        Token::SigilOpenCurlyBracket => except_curly,
        Token::SigilOpenBracket => except_round,
        Token::SigilDoubleColon => except_more == 1,
        Token::SigilComma => except_more == 2 || except_more == 3,
        Token::OperatorAssignment => except_more == 2,
        Token::SigilCloseBracket => except_more == 2 || except_more == 3,
        _ => false,
    }
}

impl<'t> Parser<'t> {
    /// A list of statements, each with the comments and whitespace after it, and an
    /// optional final expression without semicolon.
    #[verifier::rlimit(80)]
    #[verifier::spinoff_prover]
    pub fn statement_list(&mut self, pos: usize) -> (r: (StatementList, usize))
        requires
            pos <= old(self).len(),
            old(self).wf(),
        ensures
            final(self).step(*old(self), pos as int, Some(r.1 as int)),
            r.0.span == old(self).cover(pos as int, r.1 as int),
            final(self).errors@.len() == old(self).errors@.len()
                ==> forall|i: int| 0 <= i < r.0.statements@.len() ==> !(#[trigger] r.0.statements@[i].0 is Error),
            exists|m: int| #![trigger tiled(old(self).toks@, r.0.statements@, skip_extras(old(self).toks@, pos as int), m)]
                tiled(old(self).toks@, r.0.statements@, skip_extras(old(self).toks@, pos as int), m)
                && (r.0.tail is None ==> r.1 == m)
                && (r.0.tail matches Some(ts) ==> ts.span == cover_spec(old(self).toks@, m, r.1 as int)),
            ({
                let k = skip_extras(old(self).toks@, pos as int);
                let f = skip_extras(old(self).toks@, simple_statement_end(old(self).toks@, k));
                simple_statement_at(old(self).toks@, k) && list_stops_at(old(self).toks@, f)
                    ==> r.1 == f && r.0.statements@.len() == 1 && r.0.tail is None
                    && simple_statement(old(self).toks@, k, r.0.statements@[0].0)
                    && final(self).errors@ == old(self).errors@
            }),
            forall|n: nat| #![trigger flat_run(old(self).toks@, skip_extras(old(self).toks@, pos as int), n)]
                flat_run(old(self).toks@, skip_extras(old(self).toks@, pos as int), n)
                && list_stops_at(old(self).toks@, run_start(old(self).toks@, skip_extras(old(self).toks@, pos as int), n))
                ==> r.1 == run_start(old(self).toks@, skip_extras(old(self).toks@, pos as int), n)
                && r.0.statements@.len() == n && r.0.tail is None && final(self).errors@ == old(self).errors@
                && forall|j: int| 0 <= j < n ==> flat_statement(old(self).toks@,
                    run_start(old(self).toks@, skip_extras(old(self).toks@, pos as int), j as nat), #[trigger] r.0.statements@[j].0),
            forall|n: nat| #![trigger plain_run(old(self).toks@, skip_extras(old(self).toks@, pos as int), n)]
                plain_run(old(self).toks@, skip_extras(old(self).toks@, pos as int), n)
                && list_stops_at(old(self).toks@, plain_run_start(old(self).toks@, skip_extras(old(self).toks@, pos as int), n))
                ==> r.1 == plain_run_start(old(self).toks@, skip_extras(old(self).toks@, pos as int), n)
                && r.0.statements@.len() == n && r.0.tail is None && final(self).errors@ == old(self).errors@
                && forall|j: int| 0 <= j < n ==> plain_statement(old(self).toks@,
                    plain_run_start(old(self).toks@, skip_extras(old(self).toks@, pos as int), j as nat), #[trigger] r.0.statements@[j].0),
            forall|n: nat| #![trigger program_run(old(self).toks@, skip_extras(old(self).toks@, pos as int), n)]
                program_run(old(self).toks@, skip_extras(old(self).toks@, pos as int), n)
                && list_stops_at(old(self).toks@, program_run_start(old(self).toks@, skip_extras(old(self).toks@, pos as int), n))
                ==> r.1 == program_run_start(old(self).toks@, skip_extras(old(self).toks@, pos as int), n)
                && r.0.statements@.len() == n && r.0.tail is None && final(self).errors@ == old(self).errors@
                && forall|j: int| 0 <= j < n ==> program_statement(old(self).toks@,
                    program_run_start(old(self).toks@, skip_extras(old(self).toks@, pos as int), j as nat), #[trigger] r.0.statements@[j].0),
        decreases old(self).len() - pos, 70nat,
    {
        let (leading, p1) = self.leading_extras(pos);
        let ghost t = self.toks@;
        let ghost k = p1 as int;
        let ghost f = skip_extras(t, simple_statement_end(t, k));
        let ghost single = simple_statement_at(t, k) && list_stops_at(t, f);
        proof {
            lemma_skip_extras(self.toks@, pos as int, p1 as int, leading.0@);
            lemma_skip_extras_stop(self.toks@, pos as int);
            if simple_statement_at(t, k) {
                lemma_skip_extras_stop(t, simple_statement_end(t, k));
                if chain_statement_at(t, k) {
                    let b = next_operand(t, k);
                    let c = next_operand(t, b);
                    lemma_literal_end(t, k);
                    lemma_skip_extras_stop(t, k);
                    lemma_literal_end(t, b);
                    lemma_skip_extras_stop(t, b);
                    lemma_literal_end(t, c);
                    lemma_skip_extras_stop(t, c);
                } else {
                    lemma_literal_end(t, pub_constant_value(t, k));
                    lemma_skip_extras_stop(t, pub_constant_value(t, k));
                }
            }
        }
        let ghost run = exists|n: nat| flat_run(t, k, n) && list_stops_at(t, run_start(t, k, n));
        let ghost n: nat = choose|n: nat| flat_run(t, k, n) && list_stops_at(t, run_start(t, k, n));
        let ghost prun = exists|n: nat| plain_run(t, k, n) && list_stops_at(t, plain_run_start(t, k, n));
        let ghost pn: nat = choose|n: nat| plain_run(t, k, n) && list_stops_at(t, plain_run_start(t, k, n));
        let ghost grun = exists|n: nat| program_run(t, k, n) && list_stops_at(t, program_run_start(t, k, n));
        let ghost gn: nat = choose|n: nat| program_run(t, k, n) && list_stops_at(t, program_run_start(t, k, n));
        let mut statements: Vec<(Statement, TrailingExtras)> = Vec::new();
        let mut p = p1;
        while p < self.toks.len()
            invariant
                pos <= p <= self.len(),
                self.toks == old(self).toks,
                self.wf(),
                extends(old(self).errors@, self.errors@),
                t == old(self).toks@,
                k == skip_extras(t, pos as int),
                skip_extras(t, k) == k,
                k < t.len() ==> extra_of(t[k]) is None,
                f == skip_extras(t, simple_statement_end(t, k)),
                single == (simple_statement_at(t, k) && list_stops_at(t, f)),
                single ==> k < f <= t.len() && (f < t.len() ==> extra_of(t[f]) is None),
                single ==> self.errors@ == old(self).errors@,
                single ==> (p == k && statements@.len() == 0) || (p == f && statements@.len() == 1
                    && simple_statement(t, k, statements@[0].0)),
                tiled(t, statements@, k, p as int),
                skip_extras(t, p as int) == p,
                self.errors@.len() == old(self).errors@.len()
                    ==> forall|i: int| 0 <= i < statements@.len() ==> !(#[trigger] statements@[i].0 is Error),
                run ==> flat_run(t, k, n) && list_stops_at(t, run_start(t, k, n)),
                prun ==> plain_run(t, k, pn) && list_stops_at(t, plain_run_start(t, k, pn)),
                grun ==> program_run(t, k, gn) && list_stops_at(t, program_run_start(t, k, gn)),
                grun ==> statements@.len() <= gn && p == program_run_start(t, k, statements@.len() as nat)
                    && self.errors@ == old(self).errors@
                    && forall|j: int| 0 <= j < statements@.len()
                        ==> program_statement(t, program_run_start(t, k, j as nat), #[trigger] statements@[j].0),
                prun ==> statements@.len() <= pn && p == plain_run_start(t, k, statements@.len() as nat)
                    && self.errors@ == old(self).errors@
                    && forall|j: int| 0 <= j < statements@.len()
                        ==> plain_statement(t, plain_run_start(t, k, j as nat), #[trigger] statements@[j].0),
                run ==> statements@.len() <= n && p == run_start(t, k, statements@.len() as nat)
                    && self.errors@ == old(self).errors@
                    && forall|j: int| 0 <= j < statements@.len()
                        ==> flat_statement(t, run_start(t, k, j as nat), #[trigger] statements@[j].0),
            ensures
                pos <= p <= self.len(),
                self.toks == old(self).toks,
                self.wf(),
                extends(old(self).errors@, self.errors@),
                single ==> self.errors@ == old(self).errors@,
                single ==> p == f && statements@.len() == 1 && simple_statement(t, k, statements@[0].0),
                tiled(t, statements@, k, p as int),
                skip_extras(t, p as int) == p,
                self.errors@.len() == old(self).errors@.len()
                    ==> forall|i: int| 0 <= i < statements@.len() ==> !(#[trigger] statements@[i].0 is Error),
                grun ==> statements@.len() == gn && p == program_run_start(t, k, gn) && self.errors@ == old(self).errors@
                    && forall|j: int| 0 <= j < statements@.len()
                        ==> program_statement(t, program_run_start(t, k, j as nat), #[trigger] statements@[j].0),
                prun ==> statements@.len() == pn && p == plain_run_start(t, k, pn) && self.errors@ == old(self).errors@
                    && forall|j: int| 0 <= j < statements@.len()
                        ==> plain_statement(t, plain_run_start(t, k, j as nat), #[trigger] statements@[j].0),
                run ==> statements@.len() == n && p == run_start(t, k, n) && self.errors@ == old(self).errors@
                    && forall|j: int| 0 <= j < statements@.len()
                        ==> flat_statement(t, run_start(t, k, j as nat), #[trigger] statements@[j].0),
            decreases self.len() - p,
        {
            let p0 = self.maybe_ws(p);
            match self.statement(p0) {
                Some((st, q)) => {
                    let (trailing, q2) = self.trailing_extras(q);
                    proof {
                        lemma_skip_extras(self.toks@, q as int, q2 as int, trailing.0@);
                        lemma_skip_extras_stop(t, q as int);
                        lemma_skip_extras_stop(t, p as int);
                        assert(extra_of(t[p as int]) is None);
                        assert(p0 == p);
                    }
                    let ghost before = statements@;
                    statements.push((st, trailing));
                    proof {
                        assert(statements@.drop_last() =~= before);
                        assert(statement_ends(t, statements@.last().0, p as int, q as int));
                        if grun {
                            let i = before.len() as nat;
                            assert(program_run_start(t, k, (i + 1) as nat)
                                == skip_extras(t, program_statement_end(t, program_run_start(t, k, i))));
                            assert forall|j: int| 0 <= j < statements@.len()
                                implies program_statement(t, program_run_start(t, k, j as nat), #[trigger] statements@[j].0) by {
                                if j < before.len() {
                                    assert(statements@[j] == before[j]);
                                }
                            }
                        }
                        if prun {
                            let i = before.len() as nat;
                            assert(plain_run_start(t, k, (i + 1) as nat)
                                == skip_extras(t, plain_statement_end(t, plain_run_start(t, k, i))));
                            assert forall|j: int| 0 <= j < statements@.len()
                                implies plain_statement(t, plain_run_start(t, k, j as nat), #[trigger] statements@[j].0) by {
                                if j < before.len() {
                                    assert(statements@[j] == before[j]);
                                }
                            }
                        }
                        if run {
                            let i = before.len() as nat;
                            assert(run_start(t, k, (i + 1) as nat) == skip_extras(t, flat_statement_end(t, run_start(t, k, i))));
                            assert forall|j: int| 0 <= j < statements@.len()
                                implies flat_statement(t, run_start(t, k, j as nat), #[trigger] statements@[j].0) by {
                                if j < before.len() {
                                    assert(statements@[j] == before[j]);
                                }
                            }
                        }
                    }
                    p = q2;
                },
                None => break,
            }
        }
        proof {
            if run {
                lemma_run_starts(t, k, n);
            }
            if prun {
                lemma_plain_run_starts(t, k, pn);
            }
            if grun {
                lemma_program_run_starts(t, k, gn);
            }
        }
        let ghost before_tail = self.errors@;
        let ghost m = p as int;
        let save = self.errors.len();
        let (tl, t1) = self.leading_extras(p);
        proof {
            lemma_skip_extras(self.toks@, p as int, t1 as int, tl.0@);
        }
        let (attr, t2) = self.outer_attributes(t1);
        let tail = match self.expression(t2) {
            Some((expression, t3)) => {
                let (tt, t4) = self.trailing_extras(t3);
                proof {
                    lemma_skip_extras(self.toks@, t3 as int, t4 as int, tt.0@);
                    lemma_skip_extras_stop(t, t3 as int);
                }
                let span = self.span_of(p, t4);
                p = t4;
                Some(Box::new(ExpressionStatement { span, extras: ItemExtras { leading: tl, trailing: tt }, attr, expression }))
            },
            None => {
                self.restore(save, Ghost(before_tail));
                None
            },
        };
        let (trailing, q) = self.trailing_extras(p);
        proof {
            lemma_skip_extras(self.toks@, p as int, q as int, trailing.0@);
        }
        let span = self.span_of(pos, q);
        proof {
            assert(tiled(t, statements@, skip_extras(t, pos as int), m));
            assert forall|n2: nat| flat_run(t, k, n2) && list_stops_at(t, run_start(t, k, n2)) implies n2 == n by {
                lemma_run_unique(t, k, n2, n);
            }
            assert forall|n2: nat| plain_run(t, k, n2) && list_stops_at(t, plain_run_start(t, k, n2)) implies n2 == pn by {
                lemma_plain_run_unique(t, k, n2, pn);
            }
            assert forall|n2: nat| program_run(t, k, n2) && list_stops_at(t, program_run_start(t, k, n2)) implies n2 == gn by {
                lemma_program_run_unique(t, k, n2, gn);
            }
            assert(tail is None ==> q == m);
            assert(tail matches Some(ts) ==> ts.span == cover_spec(t, m, q as int));
        }
        let r = (StatementList { span, extras: ItemExtras { leading, trailing }, statements, tail }, q);
        assert(tiled(t, r.0.statements@, skip_extras(t, pos as int), m)
            && (r.0.tail is None ==> r.1 == m)
            && (r.0.tail matches Some(ts) ==> ts.span == cover_spec(t, m, r.1 as int)));
        r
    }

    /// The `;` after a statement; where it is missing, anything but brackets up to a `;` is
    /// skipped, with an error.
    fn semicolon(&mut self, pos: usize) -> (r: Option<usize>)
        requires
            pos <= old(self).len(),
        ensures
            final(self).toks == old(self).toks,
            extends(old(self).errors@, final(self).errors@),
            r is None ==> final(self).errors@ == old(self).errors@,
            r matches Some(q) ==> pos < q <= old(self).len(),
            opt_int(r) == semicolon_end(old(self).toks@, pos as int),
            old(self).at(pos as int, Token::SigilSemiColon) ==> final(self).errors@ == old(self).errors@,
            r is Some && !old(self).at(pos as int, Token::SigilSemiColon) ==> {
                &&& final(self).errors@.len() == old(self).errors@.len() + 1
                &&& final(self).errors@.drop_last() == old(self).errors@
                &&& expected_error(final(self).errors@.last(), old(self).toks@, pos as int, "semicolon")
            },
    {
        if pos < self.toks.len() && self.semi_at(pos) {
            return Some(pos + 1);
        }
        let q = self.skip_to_structural(pos);
        if q < self.toks.len() && self.semi_at(q) {
            self.expected(pos, "semicolon");
            Some(q + 1)
        } else {
            None
        }
    }

    /// A statement.
    #[verifier::rlimit(100)]
    #[verifier::spinoff_prover]
    pub fn statement(&mut self, pos: usize) -> (r: Option<(Statement, usize)>)
        requires
            pos <= old(self).len(),
            old(self).wf(),
        ensures
            final(self).step(*old(self), pos as int, end_of(r)),
            r matches Some((st, _)) && st is Error ==> final(self).errors@.len() > old(self).errors@.len(),
            r matches Some((_, q)) ==> q > pos,
            ({
                let v = ws_skip(old(self).toks@, skip_extras(old(self).toks@, pos as int) + 1);
                let e = literal_end(old(self).toks@, v);
                leads_with(old(self).toks@, pos as int, Token::KeywordReturn) && lone_literal_at(old(self).toks@, v)
                    && semicolon_end(old(self).toks@, e) is Some
                    ==> (r matches Some((st, q)) && st is Return && q == semicolon_end(old(self).toks@, e)->0)
            }),
            pos < old(self).len() && old(self).toks@[pos as int].value is InnerDocComment ==> (r matches Some((st, q))
                && q == pos + 1 && (st matches Statement::InnerDocComment(c)
                && c.line == old(self).toks@[pos as int].value->InnerDocComment_0)),
            opens_no_statement(old(self).toks@, skip_extras(old(self).toks@, pos as int)) ==> r is None,
            r matches Some((st, q)) ==> statement_ends(old(self).toks@, st, pos as int, q as int),
            ({
                let k = skip_extras(old(self).toks@, pos as int);
                simple_statement_at(old(self).toks@, k) ==> (r matches Some((st, q))
                    && q == simple_statement_end(old(self).toks@, k) && simple_statement(old(self).toks@, k, st))
                    && final(self).errors@ == old(self).errors@
            }),
            ({
                let k = skip_extras(old(self).toks@, pos as int);
                if_statement_at(old(self).toks@, k) ==> (r matches Some((st, q)) && q == if_end(old(self).toks@, k)
                    && plain_if_statement(old(self).toks@, k, st)) && final(self).errors@ == old(self).errors@
            }),
            ({
                let k = skip_extras(old(self).toks@, pos as int);
                assign_at(old(self).toks@, k) ==> (r matches Some((st, q))
                    && q == value_end(old(self).toks@, assigned_value(old(self).toks@, k)) + 1
                    && plain_assign(old(self).toks@, k, st)) && final(self).errors@ == old(self).errors@
            }),
            ({
                let k = skip_extras(old(self).toks@, pos as int);
                use_at(old(self).toks@, k) ==> (r matches Some((st, q)) && q == use_semicolon(old(self).toks@, k) + 1
                    && plain_use(old(self).toks@, k, st)) && final(self).errors@ == old(self).errors@
            }),
            ({
                let k = skip_extras(old(self).toks@, pos as int);
                nested_def_at(old(self).toks@, k) ==> (r matches Some((st, q)) && q == nested_def_end(old(self).toks@, k)
                    && nested_def(old(self).toks@, k, st)) && final(self).errors@ == old(self).errors@
            }),
            ({
                let k = skip_extras(old(self).toks@, pos as int);
                def_at(old(self).toks@, k) ==> (r matches Some((st, q)) && q == def_end(old(self).toks@, k)
                    && plain_def(old(self).toks@, k, st)) && final(self).errors@ == old(self).errors@
            }),
            ({
                let k = skip_extras(old(self).toks@, pos as int);
                flat_statement_at(old(self).toks@, k) ==> (r matches Some((st, q)) && q == flat_statement_end(old(self).toks@, k)
                    && flat_statement(old(self).toks@, k, st)) && final(self).errors@ == old(self).errors@
            }),
            ({
                let k = skip_extras(old(self).toks@, pos as int);
                plain_statement_at(old(self).toks@, k) ==> (r matches Some((st, q)) && q == plain_statement_end(old(self).toks@, k)
                    && plain_statement(old(self).toks@, k, st)) && final(self).errors@ == old(self).errors@
            }),
            ({
                let k = skip_extras(old(self).toks@, pos as int);
                program_statement_at(old(self).toks@, k) ==> (r matches Some((st, q)) && q == program_statement_end(old(self).toks@, k)
                    && program_statement(old(self).toks@, k, st)) && final(self).errors@ == old(self).errors@
            }),
        decreases old(self).len() - pos, 69nat,
    {
        let ghost orig = self.errors@;
        let save = self.errors.len();
        let first = match self.return_statement(pos) {
            Some(x) => Some(x),
            None => match self.use_statement(pos) {
                Some(x) => Some(x),
                None => match self.const_assignment(pos) {
                    Some(x) => Some(x),
                    None => match self.pub_assignment(pos) {
                        Some(x) => Some(x),
                        None => match self.file_module(pos) {
                            Some(x) => Some(x),
                            None => match self.property_assignment(pos) {
                                Some(x) => Some(x),
                                None => match self.local_assignment_statement(pos) {
                                    Some(x) => Some(x),
                                    None => self.expression_statement(pos, false),
                                },
                            },
                        },
                    },
                },
            },
        };
        proof {
            let t = self.toks@;
            let k = skip_extras(t, pos as int);
            if def_head_at(t, k) {
                lemma_def_no_semicolon(t, k);
                lemma_skip_extras_stop(t, pos as int);
            }
        }
        match first {
            Some((st, p)) => {
                match self.semicolon(p) {
                    Some(q) => {
                        assert(cover_spec(self.toks@, pos as int, p as int) == st.span_spec());
                        return Some((st, q));
                    },
                    None => {
                        self.restore(save, Ghost(orig));
                    },
                }
            },
            None => {},
        }
        match self.reserved_keyword_statement(pos) {
            Some(x) => return Some(x),
            None => {},
        }
        match self.function_like(pos, 0) {
            Some(x) => return Some(x),
            None => {},
        }
        if pos < self.toks.len() {
            match &self.toks[pos].value {
                Token::InnerDocComment(c) => {
                    let span = self.toks[pos].span;
                    assert(cover_spec(self.toks@, pos as int, pos + 1) == span);
                    return Some((Statement::InnerDocComment(InnerDocComment { span, line: c.clone() }), pos + 1));
                },
                _ => {},
            }
        }
        match self.inner_attribute(pos) {
            Some((a, q)) => return Some((Statement::InnerAttribute(a), q)),
            None => {},
        }
        match self.function_like(pos, 1) {
            Some(x) => return Some(x),
            None => {},
        }
        match self.function_like(pos, 2) {
            Some(x) => return Some(x),
            None => {},
        }
        match self.inline_module(pos) {
            Some(x) => return Some(x),
            None => {},
        }
        self.expression_statement(pos, true)
    }

    /// A reserved keyword used as a statement: an error; the statement is skipped up to a
    /// braced block or a `;`.
    fn reserved_keyword_statement(&mut self, pos: usize) -> (r: Option<(Statement, usize)>)
        requires
            pos <= old(self).len(),
        ensures
            final(self).step(*old(self), pos as int, end_of(r)),
            r is Some ==> final(self).errors@.len() > old(self).errors@.len(),
            r matches Some((_, q)) ==> q > pos,
            !(pos < old(self).len() && reserved_spec(old(self).toks@[pos as int].value) is Some) ==> r is None,
            pos < old(self).len() && reserved_spec(old(self).toks@[pos as int].value) is Some
                && group_end(old(self).toks@, pos + 1, 2) is Some ==> {
                &&& r matches Some((st, q)) && st is Error && q == group_end(old(self).toks@, pos + 1, 2)->0
                &&& final(self).errors@ == old(self).errors@.push(ParseError {
                    span: old(self).cover(pos as int, pos + 1),
                    kind: ParseErrorKind::ReservedKeyword(reserved_spec(old(self).toks@[pos as int].value)->0),
                })
            },
            r matches Some((st, q)) ==> st.span_spec() == old(self).cover(pos as int, q as int),
    {
        if pos >= self.toks.len() {
            return None;
        }
        let kw = match reserved_text(&self.toks[pos].value) {
            Some(k) => k,
            None => return None,
        };
        let p = pos + 1;
        let p1 = self.maybe_ws(p);
        let not_assignment = (p1 < self.toks.len() && !matches!(self.toks[p1].value, Token::OperatorAssignment | Token::SigilDoubleColon))
            || self.semi_at(p);
        if !not_assignment {
            return None;
        }
        let q1 = self.skip_to_structural(p);
        let end = match self.ignore_till_matched_curly(q1) {
            Some(q) => Some(q),
            None => {
                let q2 = self.ignore_till_semi(p);
                if q2 > p && self.semi_at(q2) {
                    Some(q2 + 1)
                } else {
                    None
                }
            },
        };
        match end {
            Some(q) => {
                let span = self.span_of(pos, pos + 1);
                self.error(span, ParseErrorKind::ReservedKeyword(kw));
                let span = self.span_of(pos, q);
                Some((Statement::Error(span), q))
            },
            None => None,
        }
    }
}

impl<'t> Parser<'t> {
    /// Doc block, outer attributes and, where allowed, `pub` followed by whitespace.
    fn def_prefix(&mut self, pos: usize, allow_vis: bool) -> (r: (DocBlock, Vec<Attribute>, Option<Spanned<Visibility>>, usize))
        requires
            pos <= old(self).len(),
            old(self).wf(),
        ensures
            final(self).step(*old(self), pos as int, Some(r.3 as int)),
            pos < old(self).len() && extra_of(old(self).toks@[pos as int]) is None
                && !(old(self).toks@[pos as int].value is DocComment || old(self).toks@[pos as int].value is SigilHash
                || (allow_vis && old(self).toks@[pos as int].value is KeywordPub)) ==> r.3 == pos && r.2 is None
                && final(self).errors@ == old(self).errors@,
            allow_vis && pos + 1 < old(self).len() && old(self).toks@[pos as int].value is KeywordPub
                && old(self).toks@[pos + 1].value is Whitespace ==> r.3 == pos + 2
                && r.2 == Some(Spanned { span: old(self).toks@[pos as int].span, value: Visibility::Public })
                && final(self).errors@ == old(self).errors@,
        decreases old(self).len() - pos, 21nat,
    {
        let (doc, p1) = self.doc_block(pos);
        let (attr, p2) = self.outer_attributes(p1);
        if allow_vis && p2 < self.toks.len() && matches!(self.toks[p2].value, Token::KeywordPub) && self.ws_at(p2 + 1) {
            let span = self.toks[p2].span;
            (doc, attr, Some(Spanned { span, value: Visibility::Public }), p2 + 2)
        } else {
            (doc, attr, None, p2)
        }
    }

    /// An identifier where one is expected; in its place one other token (or none, before
    /// `;`, whitespace or the tokens that may follow) is taken as an empty name, with an error.
    fn identifier_or_skip(&mut self, pos: usize, except_curly: bool, except_round: bool, except_more: u8) -> (r: Option<(Identifier, usize)>)
        requires
            pos <= old(self).len(),
        ensures
            final(self).step(*old(self), pos as int, end_of(r)),
            r is Some == (pos < old(self).len()),
            pos < old(self).len() && identifier_name(old(self).toks@[pos as int].value) is Some ==> (r matches Some((id, q))
                && q == pos + 1 && id.name@ == identifier_name(old(self).toks@[pos as int].value)->0
                && id.span == old(self).toks@[pos as int].span
                && final(self).errors@ == old(self).errors@ + identifier_error(old(self).toks@[pos as int])),
            pos < old(self).len() && identifier_name(old(self).toks@[pos as int].value) is None ==> {
                &&& r matches Some((id, q)) && id.name@.len() == 0
                    && q == (if excepted(old(self).toks@[pos as int].value, except_curly, except_round, except_more) { pos as int } else { pos + 1 })
                &&& final(self).errors@.len() == old(self).errors@.len() + 1
                &&& final(self).errors@.drop_last() == old(self).errors@
                &&& expected_error(final(self).errors@.last(), old(self).toks@, pos as int, "identifier")
            },
    {
        match self.identifier(pos) {
            Some(x) => Some(x),
            None => match self.recovery_expect_any_except(pos, except_curly, except_round, except_more) {
                Some(q) => {
                    self.expected(pos, "identifier");
                    let span = self.span_of(pos, q);
                    Some((Identifier { span, name: String::new() }, q))
                },
                None => None,
            },
        }
    }

    /// `: T` after a name, with optional whitespace.
    fn type_annotation(&mut self, pos: usize) -> (r: (Option<Type>, usize))
        requires
            pos <= old(self).len(),
        ensures
            final(self).step(*old(self), pos as int, Some(r.1 as int)),
            !old(self).at(pos as int, Token::SigilColon) ==> r.1 == pos && r.0 is None
                && final(self).errors@ == old(self).errors@,
    {
        let ghost orig = self.errors@;
        let save = self.errors.len();
        if pos < self.toks.len() && matches!(self.toks[pos].value, Token::SigilColon) {
            let p = self.maybe_ws(pos + 1);
            match self.type_(p) {
                Some((t, q)) => {
                    let q = self.maybe_ws(q);
                    return (Some(t), q);
                },
                None => {
                    self.restore(save, Ghost(orig));
                },
            }
        }
        (None, pos)
    }

    /// An expression; where there is none, everything up to a `;` is an error expression.
    fn expression_or_skip(&mut self, pos: usize) -> (r: (Expression, usize))
        requires
            pos <= old(self).len(),
            old(self).wf(),
        ensures
            final(self).step(*old(self), pos as int, Some(r.1 as int)),
            lone_literal_at(old(self).toks@, pos as int) ==> r.1 == literal_end(old(self).toks@, pos as int)
                && literal_expr(old(self).toks@, pos as int, r.0) && final(self).errors@ == old(self).errors@,
            plain_value_at(old(self).toks@, pos as int) ==> r.1 == value_end(old(self).toks@, pos as int)
                && value_expr(old(self).toks@, pos as int, r.0) && final(self).errors@ == old(self).errors@,
        decreases old(self).len() - pos, 52nat,
    {
        match self.expression(pos) {
            Some(x) => x,
            None => {
                let q = self.ignore_till_semi(pos);
                self.expected(pos, "expression");
                let span = self.span_of(pos, q);
                (Expression::Error(span), q)
            },
        }
    }

    /// The part of an assignment after its keyword: `name: T = value`.
    fn assignment_rest(&mut self, pos: usize) -> (r: Option<(Identifier, Option<Type>, Expression, usize)>)
        requires
            pos <= old(self).len(),
            old(self).wf(),
        ensures
            final(self).step(*old(self), pos as int, match r { Some(x) => Some(x.3 as int), None => None }),
            r matches Some(x) ==> x.3 > pos,
            assignment_head(old(self).toks@, pos as int) ==> (r matches Some(x)
                && x.0.name@ == identifier_name(old(self).toks@[pos as int].value)->0 && x.1 is None),
            ({
                let v = ws_skip(old(self).toks@, ws_skip(old(self).toks@, pos + 1) + 1);
                assignment_head(old(self).toks@, pos as int) && old(self).toks@[pos as int].value is Identifier
                    && lone_literal_at(old(self).toks@, v) ==> (r matches Some(x)
                    && x.0.span == old(self).toks@[pos as int].span
                    && literal_expr(old(self).toks@, v, x.2) && x.3 == literal_end(old(self).toks@, v))
                    && final(self).errors@ == old(self).errors@
            }),
            ({
                let v = assigned_value(old(self).toks@, pos as int);
                assignment_head(old(self).toks@, pos as int) && old(self).toks@[pos as int].value is Identifier
                    && plain_value_at(old(self).toks@, v) ==> (r matches Some(x)
                    && x.0.span == old(self).toks@[pos as int].span
                    && value_expr(old(self).toks@, v, x.2) && x.3 == value_end(old(self).toks@, v))
                    && final(self).errors@ == old(self).errors@
            }),
            ({
                let p1 = ws_skip(old(self).toks@, pos + 1);
                !(pos < old(self).len() && identifier_name(old(self).toks@[pos as int].value) is Some)
                    || (pos < old(self).len() && !old(self).at(p1, Token::SigilColon) && !old(self).at(p1, Token::OperatorAssignment))
                    ==> r is None
            }),
        decreases old(self).len() - pos, 29nat,
    {
        let ghost orig = self.errors@;
        let save = self.errors.len();
        let (id, p) = match self.identifier(pos) {
            Some(x) => x,
            None => return None,
        };
        proof {
            if self.toks@[pos as int].value is Identifier {
                assert(identifier_error(self.toks@[pos as int]) =~= Seq::<ParseError>::empty());
                assert(self.errors@ =~= orig);
            }
        }
        let p = self.maybe_ws(p);
        let (ty, p) = self.type_annotation(p);
        if !(p < self.toks.len() && matches!(self.toks[p].value, Token::OperatorAssignment)) {
            self.restore(save, Ghost(orig));
            return None;
        }
        let p = self.maybe_ws(p + 1);
        let (expr, q) = self.expression_or_skip(p);
        Some((id, ty, expr, q))
    }

    /// `return value`.
    fn return_statement(&mut self, pos: usize) -> (r: Option<(Statement, usize)>)
        requires
            pos <= old(self).len(),
            old(self).wf(),
        ensures
            final(self).step(*old(self), pos as int, end_of(r)),
            r matches Some((st, _)) ==> st !is Error,
            r matches Some((_, q)) ==> q > pos,
            r is Some == leads_with(old(self).toks@, pos as int, Token::KeywordReturn),
            r matches Some((st, _)) ==> st is Return,
            ({
                let v = ws_skip(old(self).toks@, skip_extras(old(self).toks@, pos as int) + 1);
                leads_with(old(self).toks@, pos as int, Token::KeywordReturn) && lone_literal_at(old(self).toks@, v)
                    ==> (r matches Some((_, q)) && q == literal_end(old(self).toks@, v))
            }),
            r matches Some((st, q)) ==> st.span_spec() == old(self).cover(pos as int, q as int),
            ({
                let k = skip_extras(old(self).toks@, pos as int);
                return_at(old(self).toks@, k) ==> (r matches Some((st, q)) && q == value_end(old(self).toks@, ws_skip(old(self).toks@, k + 1))
                    && plain_return(old(self).toks@, k, st)) && final(self).errors@ == old(self).errors@
            }),
        decreases old(self).len() - pos, 68nat,
    {
        let (leading, p1) = self.leading_extras(pos);
        proof {
            lemma_skip_extras(self.toks@, pos as int, p1 as int, leading.0@);
            if p1 < self.len() && literal_at(self.toks@, ws_skip(self.toks@, p1 + 1)) {
                lemma_literal_end(self.toks@, ws_skip(self.toks@, p1 + 1));
            }
        }
        if !(p1 < self.toks.len() && matches!(self.toks[p1].value, Token::KeywordReturn)) {
            return None;
        }
        let keyword_span = self.toks[p1].span;
        let p = self.maybe_ws(p1 + 1);
        let (value, p) = match self.expression(p) {
            Some((e, q)) => (Some(e), q),
            None => (None, p),
        };
        let (trailing, q) = self.trailing_extras(p);
        proof {
            lemma_skip_extras(self.toks@, p as int, q as int, trailing.0@);
        }
        let span = self.span_of(pos, q);
        Some((Statement::Return(Return { span, keyword_span, extras: ItemExtras { leading, trailing }, value }), q))
    }

    /// One part of a use name: a name or `*`; in place of one, one other token (or none,
    /// before `;`, whitespace or `::`) is an error part.
    fn use_part(&mut self, pos: usize) -> (r: Option<(UseStatementPart, usize)>)
        requires
            pos <= old(self).len(),
        ensures
            final(self).step(*old(self), pos as int, end_of(r)),
            r is Some == (pos < old(self).len()),
            pos < old(self).len() && identifier_name(old(self).toks@[pos as int].value) is Some ==> (r matches Some((part, q))
                && q == pos + 1 && (part matches UseStatementPart::Identifier(id)
                && id.name@ == identifier_name(old(self).toks@[pos as int].value)->0)
                && final(self).errors@ == old(self).errors@ + identifier_error(old(self).toks@[pos as int])),
            pos < old(self).len() && identifier_name(old(self).toks@[pos as int].value) is None
                && old(self).toks@[pos as int].value is OperatorMultiply ==> r == Some(
                (UseStatementPart::Glob(old(self).toks@[pos as int].span), (pos + 1) as usize)),
            pos < old(self).len() && identifier_name(old(self).toks@[pos as int].value) is None
                && !(old(self).toks@[pos as int].value is OperatorMultiply) ==> {
                &&& r matches Some((part, _)) && part is Error
                &&& final(self).errors@.len() == old(self).errors@.len() + 1
                &&& final(self).errors@.drop_last() == old(self).errors@
                &&& expected_error(final(self).errors@.last(), old(self).toks@, pos as int, "identifier")
            },
    {
        match self.identifier(pos) {
            Some((id, q)) => return Some((UseStatementPart::Identifier(id), q)),
            None => {},
        }
        if pos < self.toks.len() && matches!(self.toks[pos].value, Token::OperatorMultiply) {
            return Some((UseStatementPart::Glob(self.toks[pos].span), pos + 1));
        }
        match self.recovery_expect_any_except(pos, false, false, 1) {
            Some(q) => {
                self.expected(pos, "identifier");
                let span = self.span_of(pos, q);
                Some((UseStatementPart::Error(span), q))
            },
            None => None,
        }
    }

    /// The name a use statement imports: parts separated by `::`.
    #[verifier::rlimit(60)]
    #[verifier::spinoff_prover]
    fn use_name(&mut self, pos: usize) -> (r: Option<(UseName, usize)>)
        requires
            pos <= old(self).len(),
        ensures
            final(self).step(*old(self), pos as int, end_of(r)),
            r is Some == (skip_extras(old(self).toks@, pos as int) < old(self).len()),
            forall|n: nat| #![trigger use_path_at(old(self).toks@, pos as int, n)] use_path_at(old(self).toks@, pos as int, n)
                ==> (r matches Some((u, q)) && q == skip_extras(old(self).toks@, pos + 2 * n - 1)
                && u.parts@.len() == n && final(self).errors@ == old(self).errors@
                && forall|i: int| 0 <= i < n ==> (#[trigger] u.parts@[i] matches UseStatementPart::Identifier(id)
                    && id.name@ == old(self).toks@[pos + 2 * i].value->Identifier_0@)),
    {
        let ghost t = self.toks@;
        let ghost fam = exists|n: nat| #![trigger use_path_at(t, pos as int, n)] use_path_at(t, pos as int, n);
        let ghost n: nat = choose|n: nat| #![trigger use_path_at(t, pos as int, n)] use_path_at(t, pos as int, n);
        let (leading, p1) = self.leading_extras(pos);
        proof {
            lemma_skip_extras(self.toks@, pos as int, p1 as int, leading.0@);
        }
        let mut parts: Vec<UseStatementPart> = Vec::new();
        proof {
            if fam {
                assert(path_name(t, pos as int, 0));
                assert(p1 == pos);
                assert(identifier_error(t[pos as int]) =~= Seq::<ParseError>::empty());
            }
        }
        let mut p = match self.use_part(p1) {
            Some((part, q)) => {
                parts.push(part);
                q
            },
            None => return None,
        };
        while p < self.toks.len() && matches!(self.toks[p].value, Token::SigilDoubleColon)
            invariant
                pos <= p <= self.len(),
                self.toks == old(self).toks,
                t == old(self).toks@,
                extends(old(self).errors@, self.errors@),
                fam ==> use_path_at(t, pos as int, n),
                fam && parts@.len() < n ==> path_sep(t, pos as int, parts@.len() as int),
                fam ==> 1 <= parts@.len() <= n && p == pos + 2 * parts@.len() - 1 && self.errors@ == old(self).errors@
                    && forall|i: int| 0 <= i < parts@.len() ==> (#[trigger] parts@[i] matches UseStatementPart::Identifier(id)
                        && id.name@ == t[pos + 2 * i].value->Identifier_0@),
            ensures
                pos <= p <= self.len(),
                self.toks == old(self).toks,
                extends(old(self).errors@, self.errors@),
                fam ==> parts@.len() == n && p == pos + 2 * n - 1 && self.errors@ == old(self).errors@
                    && forall|i: int| 0 <= i < parts@.len() ==> (#[trigger] parts@[i] matches UseStatementPart::Identifier(id)
                        && id.name@ == t[pos + 2 * i].value->Identifier_0@),
            decreases self.len() - p,
        {
            let ghost before = self.errors@;
            let ghost prev = parts@;
            proof {
                if fam {
                    if parts@.len() == n {
                        assert(path_sep(t, pos as int, n as int));
                    }
                    let m = parts@.len() as int;
                    assert(path_name(t, pos as int, m));
                    assert(identifier_error(t[pos + 2 * m]) =~= Seq::<ParseError>::empty());
                }
            }
            match self.use_part(p + 1) {
                Some((part, q)) => {
                    parts.push(part);
                    proof {
                        if fam {
                            assert forall|i: int| 0 <= i < parts@.len() implies (#[trigger] parts@[i] matches UseStatementPart::Identifier(id)
                                && id.name@ == t[pos + 2 * i].value->Identifier_0@) by {
                                if i < prev.len() {
                                    assert(parts@[i] == prev[i]);
                                }
                            }
                        }
                    }
                    p = q;
                },
                None => {
                    proof {
                        if fam {
                            assert(path_name(t, pos as int, parts@.len() as int));
                        }
                    }
                    break;
                },
            }
        }
        let (trailing, q) = self.trailing_extras(p);
        proof {
            lemma_skip_extras(self.toks@, p as int, q as int, trailing.0@);
            assert forall|n2: nat| use_path_at(t, pos as int, n2) implies n2 == n by {
                if n2 < n {
                    assert(path_sep(t, pos as int, n2 as int));
                } else if n < n2 {
                    assert(path_sep(t, pos as int, n as int));
                }
            }
        }
        let span = self.span_of(pos, q);
        Some((UseName { span, extras: ItemExtras { leading, trailing }, parts }, q))
    }

    /// `use a::b as c`.
    fn use_statement(&mut self, pos: usize) -> (r: Option<(Statement, usize)>)
        requires
            pos <= old(self).len(),
            old(self).wf(),
        ensures
            final(self).step(*old(self), pos as int, end_of(r)),
            r matches Some((st, _)) ==> st !is Error,
            r matches Some((_, q)) ==> q > pos,
            ({
                let k = skip_extras(old(self).toks@, pos as int);
                &&& leads_with(old(self).toks@, pos as int, Token::KeywordUse) && k + 1 < old(self).len()
                    && old(self).toks@[k + 1].value is Whitespace && skip_extras(old(self).toks@, k + 2) < old(self).len()
                    ==> (r matches Some((st, _)) && st is Use)
                &&& k < old(self).len() && !(old(self).toks@[k].value is SigilHash
                    || old(self).toks@[k].value is KeywordPub || old(self).toks@[k].value is KeywordUse) ==> r is None
            }),
            ({
                let k = skip_extras(old(self).toks@, pos as int);
                k + 2 < old(self).len() && old(self).toks@[k].value is KeywordPub && old(self).toks@[k + 1].value is Whitespace
                    && !(old(self).toks@[k + 2].value is KeywordUse) ==> r is None
            }),
            r matches Some((st, q)) ==> st.span_spec() == old(self).cover(pos as int, q as int),
            ({
                let k = skip_extras(old(self).toks@, pos as int);
                use_at(old(self).toks@, k) ==> (r matches Some((st, q)) && q == use_semicolon(old(self).toks@, k)
                    && plain_use(old(self).toks@, k, st)) && final(self).errors@ == old(self).errors@
            }),
        decreases old(self).len() - pos, 68nat,
    {
        let ghost orig = self.errors@;
        let save = self.errors.len();
        let (leading, p1) = self.leading_extras(pos);
        proof {
            lemma_skip_extras(self.toks@, pos as int, p1 as int, leading.0@);
            lemma_skip_extras_stop(self.toks@, pos as int);
        }
        let (attr, p2) = self.outer_attributes(p1);
        let (vis, p3) = if p2 < self.toks.len() && matches!(self.toks[p2].value, Token::KeywordPub) && self.ws_at(p2 + 1) {
            (Some(Spanned { span: self.toks[p2].span, value: Visibility::Public }), p2 + 2)
        } else {
            (None, p2)
        };
        if !(p3 < self.toks.len() && matches!(self.toks[p3].value, Token::KeywordUse) && self.ws_at(p3 + 1)) {
            self.restore(save, Ghost(orig));
            return None;
        }
        let keyword_span = self.toks[p3].span;
        proof {
            let t = self.toks@;
            if use_at(t, p1 as int) {
                assert(use_path_at(t, p1 + 2, use_len(t, p1 as int)));
            }
        }
        let (name, p) = match self.use_name(p3 + 2) {
            Some(x) => x,
            None => {
                self.restore(save, Ghost(orig));
                return None;
            },
        };
        let ghost before_as = self.errors@;
        let save2 = self.errors.len();
        let (use_as, p) = if p < self.toks.len() && matches!(self.toks[p].value, Token::KeywordAs) && self.ws_at(p + 1) {
            match self.identifier_or_skip(p + 2, false, false, 0) {
                Some((id, q)) => (Some(id), q),
                None => {
                    self.restore(save2, Ghost(before_as));
                    (None, p)
                },
            }
        } else {
            (None, p)
        };
        let (trailing, q) = self.trailing_extras(p);
        proof {
            lemma_skip_extras(self.toks@, p as int, q as int, trailing.0@);
        }
        let span = self.span_of(pos, q);
        Some((Statement::Use(UseStatement { span, attr, keyword_span, extras: ItemExtras { leading, trailing }, vis, name, use_as }), q))
    }

    /// `const A: T = value`, optionally `pub`.
    fn const_assignment(&mut self, pos: usize) -> (r: Option<(Statement, usize)>)
        requires
            pos <= old(self).len(),
            old(self).wf(),
        ensures
            final(self).step(*old(self), pos as int, end_of(r)),
            r matches Some((st, _)) ==> st !is Error,
            r matches Some((_, q)) ==> q > pos,
            ({
                let k = skip_extras(old(self).toks@, pos as int);
                &&& leads_with(old(self).toks@, pos as int, Token::KeywordConst)
                    && assignment_head(old(self).toks@, ws_skip(old(self).toks@, k + 1)) ==> (r matches Some((st, _)) && st is Const)
                &&& k < old(self).len() && !(old(self).toks@[k].value is DocComment || old(self).toks@[k].value is SigilHash || old(self).toks@[k].value is KeywordPub || old(self).toks@[k].value is KeywordConst) ==> r is None
            }),
            ({
                let k = skip_extras(old(self).toks@, pos as int);
                k + 2 < old(self).len() && old(self).toks@[k].value is KeywordPub && old(self).toks@[k + 1].value is Whitespace
                    && !(old(self).toks@[k + 2].value is KeywordConst) ==> r is None
            }),
            r matches Some((st, q)) ==> st.span_spec() == old(self).cover(pos as int, q as int),
        decreases old(self).len() - pos, 68nat,
    {
        let ghost orig = self.errors@;
        let save = self.errors.len();
        let (leading, p1) = self.leading_extras(pos);
        proof {
            lemma_skip_extras(self.toks@, pos as int, p1 as int, leading.0@);
            lemma_skip_extras_stop(self.toks@, pos as int);
        }
        let (doc, attr, vis, p2) = self.def_prefix(p1, true);
        if !(p2 < self.toks.len() && matches!(self.toks[p2].value, Token::KeywordConst)) {
            self.restore(save, Ghost(orig));
            return None;
        }
        let keyword_span = self.toks[p2].span;
        let p = self.maybe_ws(p2 + 1);
        match self.assignment_rest(p) {
            Some((id, ty, expr, p)) => {
                let (trailing, q) = self.trailing_extras(p);
                let span = self.span_of(pos, q);
                Some((Statement::Const(ConstAssignment { span, keyword_span, extras: ItemExtras { leading, trailing }, doc, attr, vis, id, ty, expr: Box::new(expr) }), q))
            },
            None => {
                self.restore(save, Ghost(orig));
                None
            },
        }
    }

    /// `pub A: T = value`: a public constant without `const`.
    fn pub_assignment(&mut self, pos: usize) -> (r: Option<(Statement, usize)>)
        requires
            pos <= old(self).len(),
            old(self).wf(),
        ensures
            final(self).step(*old(self), pos as int, end_of(r)),
            r matches Some((st, _)) ==> st !is Error,
            r matches Some((_, q)) ==> q > pos,
            ({
                let k = skip_extras(old(self).toks@, pos as int);
                &&& leads_with(old(self).toks@, pos as int, Token::KeywordPub)
                    && assignment_head(old(self).toks@, ws_skip(old(self).toks@, k + 1)) ==> (r matches Some((st, _)) && st is Const)
                &&& k < old(self).len() && !(old(self).toks@[k].value is DocComment || old(self).toks@[k].value is SigilHash || old(self).toks@[k].value is KeywordPub) ==> r is None
            }),
            ({
                let k = skip_extras(old(self).toks@, pos as int);
                pub_constant_at(old(self).toks@, k) ==> (r matches Some((st, q))
                    && q == literal_end(old(self).toks@, pub_constant_value(old(self).toks@, k)) && pub_constant(old(self).toks@, k, st))
                    && final(self).errors@ == old(self).errors@
            }),
            r matches Some((st, q)) ==> st.span_spec() == old(self).cover(pos as int, q as int),
        decreases old(self).len() - pos, 68nat,
    {
        let ghost orig = self.errors@;
        let save = self.errors.len();
        let (leading, p1) = self.leading_extras(pos);
        proof {
            lemma_skip_extras(self.toks@, pos as int, p1 as int, leading.0@);
            lemma_skip_extras_stop(self.toks@, pos as int);
            if pub_constant_at(self.toks@, p1 as int) {
                lemma_literal_end(self.toks@, pub_constant_value(self.toks@, p1 as int));
            }
        }
        let (doc, attr, _vis, p2) = self.def_prefix(p1, false);
        if !(p2 < self.toks.len() && matches!(self.toks[p2].value, Token::KeywordPub)) {
            self.restore(save, Ghost(orig));
            return None;
        }
        let keyword_span = self.toks[p2].span;
        let p = self.maybe_ws(p2 + 1);
        match self.assignment_rest(p) {
            Some((id, ty, expr, p)) => {
                let (trailing, q) = self.trailing_extras(p);
                proof {
                    lemma_skip_extras(self.toks@, p as int, q as int, trailing.0@);
                }
                let span = self.span_of(pos, q);
                let vis = Some(Spanned { span: keyword_span, value: Visibility::Public });
                Some((Statement::Const(ConstAssignment { span, keyword_span, extras: ItemExtras { leading, trailing }, doc, attr, vis, id, ty, expr: Box::new(expr) }), q))
            },
            None => {
                self.restore(save, Ghost(orig));
                None
            },
        }
    }

    /// `prop a: T = value`.
    fn property_assignment(&mut self, pos: usize) -> (r: Option<(Statement, usize)>)
        requires
            pos <= old(self).len(),
            old(self).wf(),
        ensures
            final(self).step(*old(self), pos as int, end_of(r)),
            r matches Some((st, _)) ==> st !is Error,
            r matches Some((_, q)) ==> q > pos,
            ({
                let k = skip_extras(old(self).toks@, pos as int);
                &&& leads_with(old(self).toks@, pos as int, Token::KeywordProp)
                    && assignment_head(old(self).toks@, ws_skip(old(self).toks@, k + 1)) ==> (r matches Some((st, _)) && st is Property)
                &&& k < old(self).len() && !(old(self).toks@[k].value is DocComment || old(self).toks@[k].value is SigilHash || old(self).toks@[k].value is KeywordProp) ==> r is None
            }),
            r matches Some((st, q)) ==> st.span_spec() == old(self).cover(pos as int, q as int),
        decreases old(self).len() - pos, 68nat,
    {
        let ghost orig = self.errors@;
        let save = self.errors.len();
        let (leading, p1) = self.leading_extras(pos);
        proof {
            lemma_skip_extras(self.toks@, pos as int, p1 as int, leading.0@);
            lemma_skip_extras_stop(self.toks@, pos as int);
        }
        let (doc, attr, _vis, p2) = self.def_prefix(p1, false);
        if !(p2 < self.toks.len() && matches!(self.toks[p2].value, Token::KeywordProp)) {
            self.restore(save, Ghost(orig));
            return None;
        }
        let keyword_span = self.toks[p2].span;
        let p = self.maybe_ws(p2 + 1);
        match self.assignment_rest(p) {
            Some((id, ty, expr, p)) => {
                let (trailing, q) = self.trailing_extras(p);
                let span = self.span_of(pos, q);
                Some((Statement::Property(PropertyAssignment { span, keyword_span, extras: ItemExtras { leading, trailing }, doc, attr, id, ty, value: Box::new(expr) }), q))
            },
            None => {
                self.restore(save, Ghost(orig));
                None
            },
        }
    }

    /// `a: T = value`, with attributes.
    fn local_assignment(&mut self, pos: usize) -> (r: Option<(LocalAssignment, usize)>)
        requires
            pos <= old(self).len(),
            old(self).wf(),
        ensures
            final(self).step(*old(self), pos as int, end_of(r)),
            r matches Some((a, q)) ==> q > pos && a.span == old(self).cover(pos as int, q as int),
            ({
                let k = skip_extras(old(self).toks@, pos as int);
                let a = ws_skip(old(self).toks@, k + 1);
                &&& assignment_head(old(self).toks@, k) ==> (r matches Some((asg, _))
                    && asg.id.name@ == identifier_name(old(self).toks@[k].value)->0 && asg.ty is None)
                &&& k < old(self).len() && identifier_name(old(self).toks@[k].value) is Some
                    && !old(self).at(a, Token::SigilColon) && !old(self).at(a, Token::OperatorAssignment) ==> r is None
            }),
            ({
                let k = skip_extras(old(self).toks@, pos as int);
                k < old(self).len() && identifier_name(old(self).toks@[k].value) is None
                    && !(old(self).toks@[k].value is SigilHash) ==> r is None
            }),
            ({
                let k = skip_extras(old(self).toks@, pos as int);
                assign_at(old(self).toks@, k) ==> (r matches Some((a, q)) && q == value_end(old(self).toks@, assigned_value(old(self).toks@, k))
                    && plain_assign(old(self).toks@, k, Statement::LocalAssignment(a)))
                    && final(self).errors@ == old(self).errors@
            }),
        decreases old(self).len() - pos, 30nat,
    {
        let ghost orig = self.errors@;
        let save = self.errors.len();
        let (leading, p1) = self.leading_extras(pos);
        proof {
            lemma_skip_extras(self.toks@, pos as int, p1 as int, leading.0@);
            lemma_skip_extras_stop(self.toks@, pos as int);
        }
        let (attr, p2) = self.outer_attributes(p1);
        match self.assignment_rest(p2) {
            Some((id, ty, expr, p)) => {
                let (trailing, q) = self.trailing_extras(p);
                proof {
                    lemma_skip_extras(self.toks@, p as int, q as int, trailing.0@);
                }
                let span = self.span_of(pos, q);
                Some((LocalAssignment { span, extras: ItemExtras { leading, trailing }, attr, id, ty, expr: Box::new(expr) }, q))
            },
            None => {
                self.restore(save, Ghost(orig));
                None
            },
        }
    }

    /// A local assignment as a statement.
    fn local_assignment_statement(&mut self, pos: usize) -> (r: Option<(Statement, usize)>)
        requires
            pos <= old(self).len(),
            old(self).wf(),
        ensures
            final(self).step(*old(self), pos as int, end_of(r)),
            r matches Some((st, _)) ==> st !is Error,
            r matches Some((_, q)) ==> q > pos,
            assignment_head(old(self).toks@, skip_extras(old(self).toks@, pos as int)) ==> (r matches Some((st, _)) && st is LocalAssignment),
            ({
                let k = skip_extras(old(self).toks@, pos as int);
                k < old(self).len() && identifier_name(old(self).toks@[k].value) is None
                    && !(old(self).toks@[k].value is SigilHash) ==> r is None
            }),
            r matches Some((st, q)) ==> st.span_spec() == old(self).cover(pos as int, q as int),
            ({
                let k = skip_extras(old(self).toks@, pos as int);
                let a = ws_skip(old(self).toks@, k + 1);
                k < old(self).len() && identifier_name(old(self).toks@[k].value) is Some
                    && !old(self).at(a, Token::SigilColon) && !old(self).at(a, Token::OperatorAssignment) ==> r is None
            }),
            ({
                let k = skip_extras(old(self).toks@, pos as int);
                assign_at(old(self).toks@, k) ==> (r matches Some((st, q)) && q == value_end(old(self).toks@, assigned_value(old(self).toks@, k))
                    && plain_assign(old(self).toks@, k, st)) && final(self).errors@ == old(self).errors@
            }),
        decreases old(self).len() - pos, 68nat,
    {
        match self.local_assignment(pos) {
            Some((a, q)) => Some((Statement::LocalAssignment(a), q)),
            None => None,
        }
    }

    /// An expression as a statement, with attributes; `block_like` asks for an expression
    /// that may stand without semicolon (a body or an `if`).
    #[verifier::rlimit(60)]
    #[verifier::spinoff_prover]
    fn expression_statement(&mut self, pos: usize, block_like: bool) -> (r: Option<(Statement, usize)>)
        requires
            pos <= old(self).len(),
            old(self).wf(),
        ensures
            final(self).step(*old(self), pos as int, end_of(r)),
            r matches Some((st, _)) ==> st !is Error,
            r matches Some((_, q)) ==> q > pos,
            !block_like && literal_at(old(self).toks@, pos as int) ==> (r matches Some((st, _)) && st is Expression),
            opens_no_expression(old(self).toks@, skip_extras(old(self).toks@, pos as int)) ==> r is None,
            ({
                let k = skip_extras(old(self).toks@, pos as int);
                !block_like && three_chain(old(self).toks@, k, 9) ==> (r matches Some((st, q)) && q == three_chain_end(old(self).toks@, k)
                    && st is Expression && chain_tree(old(self).toks@, st->Expression_0.expression, k))
                    && final(self).errors@ == old(self).errors@
            }),
            r matches Some((st, q)) ==> st.span_spec() == old(self).cover(pos as int, q as int),
            ({
                let k = skip_extras(old(self).toks@, pos as int);
                !block_like && plain_name_at(old(self).toks@, k) && ends_within(old(self).toks@, skip_extras(old(self).toks@, k + 1), 9)
                    ==> (r matches Some((_, q)) && q == skip_extras(old(self).toks@, k + 1))
            }),
            ({
                let k = skip_extras(old(self).toks@, pos as int);
                if_at(old(self).toks@, k) && expression_stops(old(self).toks@, if_end(old(self).toks@, k))
                    ==> (r matches Some((st, q)) && plain_if_statement(old(self).toks@, k, st)
                    && q == if_end(old(self).toks@, k)) && final(self).errors@ == old(self).errors@
            }),
        decreases old(self).len() - pos, 68nat,
    {
        let ghost orig = self.errors@;
        let save = self.errors.len();
        let (leading, p1) = self.leading_extras(pos);
        proof {
            lemma_skip_extras(self.toks@, pos as int, p1 as int, leading.0@);
            lemma_skip_extras_stop(self.toks@, pos as int);
        }
        let (attr, p2) = self.outer_attributes(p1);
        match self.expression(p2) {
            Some((expression, p)) => {
                if block_like && !expression.is_also_statement() {
                    self.restore(save, Ghost(orig));
                    return None;
                }
                proof {
                    let t = self.toks@;
                    let k = p1 as int;
                    if !block_like && three_chain(t, k, 9) {
                        let c = next_operand(t, next_operand(t, k));
                        lemma_literal_end(t, c);
                    }
                }
                let (trailing, q) = self.trailing_extras(p);
                proof {
                    lemma_skip_extras(self.toks@, p as int, q as int, trailing.0@);
                    lemma_skip_extras_stop(self.toks@, p1 + 1);
                    if if_at(self.toks@, p1 as int) {
                        lemma_if_end(self.toks@, p1 as int);
                    }
                }
                let span = self.span_of(pos, q);
                Some((Statement::Expression(ExpressionStatement { span, extras: ItemExtras { leading, trailing }, attr, expression }), q))
            },
            None => {
                self.restore(save, Ghost(orig));
                None
            },
        }
    }

    /// `mod name;`: a module in its own file.
    fn file_module(&mut self, pos: usize) -> (r: Option<(Statement, usize)>)
        requires
            pos <= old(self).len(),
            old(self).wf(),
        ensures
            final(self).step(*old(self), pos as int, end_of(r)),
            r matches Some((st, _)) ==> st !is Error,
            r matches Some((_, q)) ==> q > pos,
            ({
                let k = skip_extras(old(self).toks@, pos as int);
                &&& leads_with(old(self).toks@, pos as int, Token::KeywordMod) && k + 2 < old(self).len()
                    && old(self).toks@[k + 1].value is Whitespace ==> (r matches Some((st, _)) && st is FileModule)
                &&& k < old(self).len() && !(old(self).toks@[k].value is DocComment || old(self).toks@[k].value is SigilHash
                    || old(self).toks@[k].value is KeywordPub || old(self).toks@[k].value is KeywordMod) ==> r is None
            }),
            r matches Some((st, q)) ==> st.span_spec() == old(self).cover(pos as int, q as int),
            named_head(old(self).toks@, skip_extras(old(self).toks@, pos as int), Token::KeywordMod)
                ==> (r matches Some((_, q)) && q == skip_extras(old(self).toks@, skip_extras(old(self).toks@, pos as int) + 3)),
        decreases old(self).len() - pos, 68nat,
    {
        let ghost orig = self.errors@;
        let save = self.errors.len();
        let (leading, p1) = self.leading_extras(pos);
        proof {
            lemma_skip_extras(self.toks@, pos as int, p1 as int, leading.0@);
            lemma_skip_extras_stop(self.toks@, pos as int);
        }
        let (doc, attr, vis, p2) = self.def_prefix(p1, true);
        if !(p2 < self.toks.len() && matches!(self.toks[p2].value, Token::KeywordMod) && self.ws_at(p2 + 1)) {
            self.restore(save, Ghost(orig));
            return None;
        }
        let keyword_span = self.toks[p2].span;
        match self.identifier_or_skip(p2 + 2, true, false, 0) {
            Some((id, p)) => {
                let (trailing, q) = self.trailing_extras(p);
                proof {
                    lemma_skip_extras(self.toks@, p as int, q as int, trailing.0@);
                }
                let span = self.span_of(pos, q);
                Some((Statement::FileModule(Definition { span, keyword_span, extras: ItemExtras { leading, trailing }, doc, attr, vis, id: Some(id), parameters: None, return_type: None, body: None }), q))
            },
            None => {
                self.restore(save, Ghost(orig));
                None
            },
        }
    }

    /// `mod name { ... }`.
    #[verifier::rlimit(60)]
    #[verifier::spinoff_prover]
    fn inline_module(&mut self, pos: usize) -> (r: Option<(Statement, usize)>)
        requires
            pos <= old(self).len(),
            old(self).wf(),
        ensures
            final(self).step(*old(self), pos as int, end_of(r)),
            r matches Some((st, _)) ==> st !is Error,
            r matches Some((_, q)) ==> q > pos,
            ({
                let k = skip_extras(old(self).toks@, pos as int);
                &&& named_head(old(self).toks@, k, Token::KeywordMod)
                    && group_end(old(self).toks@, ws_skip(old(self).toks@, k + 3), 2) is Some ==> (r matches Some((st, _)) && st is InlineModule)
                &&& k < old(self).len() && !(old(self).toks@[k].value is DocComment || old(self).toks@[k].value is SigilHash
                    || old(self).toks@[k].value is KeywordPub || old(self).toks@[k].value is KeywordMod) ==> r is None
            }),
            r matches Some((st, q)) ==> st.span_spec() == old(self).cover(pos as int, q as int),
            ({
                let k = skip_extras(old(self).toks@, pos as int);
                def_at(old(self).toks@, k) && old(self).toks@[k].value is KeywordMod
                    ==> (r matches Some((st, q)) && q == def_end(old(self).toks@, k) && plain_def(old(self).toks@, k, st))
                    && final(self).errors@ == old(self).errors@
            }),
            ({
                let k = skip_extras(old(self).toks@, pos as int);
                nested_def_at(old(self).toks@, k) && old(self).toks@[k].value is KeywordMod
                    ==> (r matches Some((st, q)) && q == nested_def_end(old(self).toks@, k) && nested_def(old(self).toks@, k, st))
                    && final(self).errors@ == old(self).errors@
            }),
        decreases old(self).len() - pos, 68nat,
    {
        let ghost orig = self.errors@;
        let save = self.errors.len();
        let (leading, p1) = self.leading_extras(pos);
        proof {
            lemma_skip_extras(self.toks@, pos as int, p1 as int, leading.0@);
            lemma_skip_extras_stop(self.toks@, pos as int);
        }
        let (doc, attr, vis, p2) = self.def_prefix(p1, true);
        if !(p2 < self.toks.len() && matches!(self.toks[p2].value, Token::KeywordMod) && self.ws_at(p2 + 1)) {
            self.restore(save, Ghost(orig));
            return None;
        }
        let keyword_span = self.toks[p2].span;
        let (id, p) = match self.identifier_or_skip(p2 + 2, true, false, 0) {
            Some(x) => x,
            None => {
                self.restore(save, Ghost(orig));
                return None;
            },
        };
        let p = self.maybe_ws(p);
        proof {
            let t = self.toks@;
            let k = p1 as int;
            if def_at(t, k) && t[k].value is KeywordMod {
                let o = def_brace(t, k);
                assert(p == o);
                assert(identifier_error(t[k + 2]) =~= Seq::<ParseError>::empty());
                let n = plain_body_len(t, o);
                assert(flat_run(t, skip_extras(t, o + 1), n));
            }
            if nested_def_at(t, k) {
                let o = def_brace(t, k);
                assert(p == o);
                assert(identifier_error(t[k + 2]) =~= Seq::<ParseError>::empty());
                let n = deep_body_len(t, o);
                assert(plain_run(t, skip_extras(t, o + 1), n));
            }
        }
        match self.body(p) {
            Some((body, p)) => {
                let (trailing, q) = self.trailing_extras(p);
                proof {
                    lemma_skip_extras(self.toks@, p as int, q as int, trailing.0@);
                }
                let span = self.span_of(pos, q);
                Some((Statement::InlineModule(Definition { span, keyword_span, extras: ItemExtras { leading, trailing }, doc, attr, vis, id: Some(id), parameters: None, return_type: None, body: Some(body) }), q))
            },
            None => {
                self.restore(save, Ghost(orig));
                None
            },
        }
    }

    /// A function (`which` 0), an init (1) or a workbench (2): keyword, name, parameters and
    /// body; a function may declare its return type.
    #[verifier::rlimit(60)]
    #[verifier::spinoff_prover]
    fn function_like(&mut self, pos: usize, which: u8) -> (r: Option<(Statement, usize)>)
        requires
            pos <= old(self).len(),
            old(self).wf(),
        ensures
            final(self).step(*old(self), pos as int, end_of(r)),
            r matches Some((st, _)) ==> st !is Error,
            r matches Some((_, q)) ==> q > pos,
            ({
                let k = skip_extras(old(self).toks@, pos as int);
                let b = if which == 1 { ws_skip(old(self).toks@, k + 1) } else { ws_skip(old(self).toks@, k + 3) };
                let c = skip_extras(old(self).toks@, b + 1);
                let d = if which == 1 { c + 1 } else { ws_skip(old(self).toks@, c + 1) };
                &&& k < old(self).len() && def_keyword(old(self).toks@[k].value, which)
                    && (which == 1 || (k + 2 < old(self).len() && old(self).toks@[k + 1].value is Whitespace
                        && identifier_name(old(self).toks@[k + 2].value) is Some))
                    && old(self).at(b, Token::SigilOpenBracket) && old(self).at(c, Token::SigilCloseBracket)
                    && group_end(old(self).toks@, d, 2) is Some ==> (r matches Some((st, _))
                        && (if which == 0 { st is Function } else if which == 1 { st is Init } else { st is Workbench }))
                &&& k < old(self).len() && !(old(self).toks@[k].value is DocComment || old(self).toks@[k].value is SigilHash
                    || (which != 1 && old(self).toks@[k].value is KeywordPub) || def_keyword(old(self).toks@[k].value, which)) ==> r is None
            }),
            r matches Some((st, q)) ==> st.span_spec() == old(self).cover(pos as int, q as int),
            ({
                let k = skip_extras(old(self).toks@, pos as int);
                def_at(old(self).toks@, k) && def_keyword(old(self).toks@[k].value, which)
                    ==> (r matches Some((st, q)) && q == def_end(old(self).toks@, k) && plain_def(old(self).toks@, k, st))
                    && final(self).errors@ == old(self).errors@
            }),
            ({
                let k = skip_extras(old(self).toks@, pos as int);
                nested_def_at(old(self).toks@, k) && def_keyword(old(self).toks@[k].value, which)
                    ==> (r matches Some((st, q)) && q == nested_def_end(old(self).toks@, k) && nested_def(old(self).toks@, k, st))
                    && final(self).errors@ == old(self).errors@
            }),
        decreases old(self).len() - pos, 68nat,
    {
        let ghost orig = self.errors@;
        let save = self.errors.len();
        let (leading, p1) = self.leading_extras(pos);
        proof {
            lemma_skip_extras(self.toks@, pos as int, p1 as int, leading.0@);
            lemma_skip_extras_stop(self.toks@, pos as int);
        }
        let (doc, attr, vis, p2) = self.def_prefix(p1, which != 1);
        if p2 >= self.toks.len() {
            self.restore(save, Ghost(orig));
            return None;
        }
        let kind = match &self.toks[p2].value {
            Token::KeywordFn => if which == 0 { Some(WorkbenchKind::Op) } else { None },
            Token::KeywordInit => if which == 1 { Some(WorkbenchKind::Op) } else { None },
            Token::KeywordSketch => if which == 2 { Some(WorkbenchKind::Sketch) } else { None },
            Token::KeywordPart => if which == 2 { Some(WorkbenchKind::Part) } else { None },
            Token::KeywordOp => if which == 2 { Some(WorkbenchKind::Op) } else { None },
            _ => None,
        };
        let kind = match kind {
            Some(k) => k,
            None => {
                self.restore(save, Ghost(orig));
                return None;
            },
        };
        let keyword_span = self.toks[p2].span;
        let (id, p) = if which == 1 {
            (None, self.maybe_ws(p2 + 1))
        } else {
            if !self.ws_at(p2 + 1) {
                self.restore(save, Ghost(orig));
                return None;
            }
            match self.identifier_or_skip(p2 + 2, true, true, 0) {
                Some((id, p)) => (Some(id), self.maybe_ws(p)),
                None => {
                    self.restore(save, Ghost(orig));
                    return None;
                },
            }
        };
        let (parameters, p) = self.parameter_list(p);
        let p = if which == 1 { p } else { self.maybe_ws(p) };
        let (return_type, p) = if which == 0 && p < self.toks.len() && matches!(self.toks[p].value, Token::SigilSingleArrow) {
            let ghost before = self.errors@;
            let save2 = self.errors.len();
            let p3 = self.maybe_ws(p + 1);
            match self.type_(p3) {
                Some((t, p4)) => (Some(t), self.maybe_ws(p4)),
                None => {
                    self.restore(save2, Ghost(before));
                    (None, p)
                },
            }
        } else {
            (None, p)
        };
        proof {
            let t = self.toks@;
            let k = p1 as int;
            if def_at(t, k) && def_keyword(t[k].value, which) {
                let o = def_brace(t, k);
                assert(p == o);
                assert(identifier_error(t[k + 2]) =~= Seq::<ParseError>::empty());
                let n = plain_body_len(t, o);
                assert(flat_run(t, skip_extras(t, o + 1), n));
            }
            if nested_def_at(t, k) {
                let o = def_brace(t, k);
                assert(p == o);
                assert(identifier_error(t[k + 2]) =~= Seq::<ParseError>::empty());
                let n = deep_body_len(t, o);
                assert(plain_run(t, skip_extras(t, o + 1), n));
            }
        }
        match self.body(p) {
            Some((body, p)) => {
                let (trailing, q) = self.trailing_extras(p);
                proof {
                    lemma_skip_extras(self.toks@, p as int, q as int, trailing.0@);
                }
                let span = self.span_of(pos, q);
                let def = Definition { span, keyword_span, extras: ItemExtras { leading, trailing }, doc, attr, vis, id, parameters: Some(parameters), return_type, body: Some(body) };
                let st = if which == 0 {
                    Statement::Function(def)
                } else if which == 1 {
                    Statement::Init(def)
                } else {
                    Statement::Workbench(kind, def)
                };
                Some((st, q))
            },
            None => {
                self.restore(save, Ghost(orig));
                None
            },
        }
    }

    /// `#![...]`.
    fn inner_attribute(&mut self, pos: usize) -> (r: Option<(Attribute, usize)>)
        requires
            pos <= old(self).len(),
            old(self).wf(),
        ensures
            final(self).step(*old(self), pos as int, end_of(r)),
            r matches Some((_, q)) ==> q > pos,
            ({
                let k = skip_extras(old(self).toks@, pos as int);
                &&& !(old(self).at(k, Token::SigilHash) && old(self).at(k + 1, Token::OperatorNot)) ==> r is None
                &&& old(self).at(k, Token::SigilHash) && old(self).at(k + 1, Token::OperatorNot)
                    && lone_name_attribute(old(self).toks@, k + 2) ==> (r matches Some((a, _)) && a.is_inner && a.commands@.len() == 1)
            }),
            r matches Some((a, q)) ==> a.span == old(self).cover(pos as int, q as int),
        decreases old(self).len() - pos, 68nat,
    {
        let (leading, p1) = self.leading_extras(pos);
        proof {
            lemma_skip_extras(self.toks@, pos as int, p1 as int, leading.0@);
        }
        if !(p1 < self.toks.len() && matches!(self.toks[p1].value, Token::SigilHash) && p1 + 1 < self.toks.len() && matches!(self.toks[p1 + 1].value, Token::OperatorNot)) {
            return None;
        }
        match self.attribute_inner(p1 + 2) {
            Some((commands, p)) => {
                let (trailing, q) = self.trailing_extras(p);
                let span = self.span_of(pos, q);
                Some((Attribute { span, is_inner: true, extras: ItemExtras { leading, trailing }, commands }, q))
            },
            None => None,
        }
    }

    /// Outer attributes `#[...]`, each followed by whitespace.
    fn outer_attributes(&mut self, pos: usize) -> (r: (Vec<Attribute>, usize))
        requires
            pos <= old(self).len(),
            old(self).wf(),
        ensures
            final(self).step(*old(self), pos as int, Some(r.1 as int)),
            !leads_with(old(self).toks@, pos as int, Token::SigilHash) ==> r.1 == pos && final(self).errors@ == old(self).errors@,
        decreases old(self).len() - pos, 20nat,
    {
        let mut attrs: Vec<Attribute> = Vec::new();
        let mut p = pos;
        while p < self.toks.len()
            invariant
                pos <= p <= self.len(),
                self.toks == old(self).toks,
                self.wf(),
                extends(old(self).errors@, self.errors@),
                p == pos ==> self.errors@ == old(self).errors@,
                p > pos ==> leads_with(old(self).toks@, pos as int, Token::SigilHash),
            decreases self.len() - p,
        {
            let ghost before = self.errors@;
            let save = self.errors.len();
            let (leading, p1) = self.leading_extras(p);
            proof {
                lemma_skip_extras(self.toks@, p as int, p1 as int, leading.0@);
            }
            if !(p1 < self.toks.len() && matches!(self.toks[p1].value, Token::SigilHash)) {
                break;
            }
            match self.attribute_inner(p1 + 1) {
                Some((commands, p2)) => {
                    if !self.ws_at(p2) {
                        self.restore(save, Ghost(before));
                        break;
                    }
                    let (trailing, q) = self.trailing_extras(p2 + 1);
                    let span = self.span_of(p, q);
                    attrs.push(Attribute { span, is_inner: false, extras: ItemExtras { leading, trailing }, commands });
                    p = q;
                },
                None => break,
            }
        }
        (attrs, p)
    }

    /// `[command, command]` of an attribute.
    fn attribute_inner(&mut self, pos: usize) -> (r: Option<(Vec<AttributeCommand>, usize)>)
        requires
            pos <= old(self).len(),
            old(self).wf(),
        ensures
            final(self).step(*old(self), pos as int, end_of(r)),
            r matches Some((_, q)) ==> q > pos,
            !old(self).at(pos as int, Token::SigilOpenSquareBracket) ==> r is None,
            lone_name_attribute(old(self).toks@, pos as int) ==> (r matches Some((cmds, q)) && q == pos + 3 && cmds@.len() == 1),
        decreases old(self).len() - pos, 19nat,
    {
        let ghost orig = self.errors@;
        let save = self.errors.len();
        if !(pos < self.toks.len() && matches!(self.toks[pos].value, Token::SigilOpenSquareBracket)) {
            return None;
        }
        let mut commands: Vec<AttributeCommand> = Vec::new();
        let mut p = match self.attribute_command(pos + 1) {
            Some((c, q)) => {
                commands.push(c);
                q
            },
            None => return None,
        };
        while p < self.toks.len() && matches!(self.toks[p].value, Token::SigilComma)
            invariant
                pos < p <= self.len(),
                lone_name_attribute(old(self).toks@, pos as int) ==> p == pos + 2 && commands@.len() == 1,
                self.toks == old(self).toks,
                self.wf(),
                extends(orig, self.errors@),
            decreases self.len() - p,
        {
            let p1 = self.maybe_ws(p + 1);
            match self.attribute_command(p1) {
                Some((c, q)) => {
                    commands.push(c);
                    p = q;
                },
                None => break,
            }
        }
        let p = self.maybe_ws(p);
        if p < self.toks.len() && matches!(self.toks[p].value, Token::SigilCloseSquareBracket) {
            Some((commands, p + 1))
        } else {
            self.restore(save, Ghost(orig));
            None
        }
    }

    /// A command of an attribute: an assignment, a call or a name.
    fn attribute_command(&mut self, pos: usize) -> (r: Option<(AttributeCommand, usize)>)
        requires
            pos <= old(self).len(),
            old(self).wf(),
        ensures
            final(self).step(*old(self), pos as int, end_of(r)),
            r matches Some((_, q)) ==> q > pos,
            pos < old(self).len() && identifier_name(old(self).toks@[pos as int].value) is Some ==> r is Some,
            pos < old(self).len() && identifier_name(old(self).toks@[pos as int].value) is Some
                && old(self).at(pos + 1, Token::SigilCloseSquareBracket) ==> (r matches Some((c, q)) && q == pos + 1
                && (c matches AttributeCommand::Ident(id) && id.name@ == identifier_name(old(self).toks@[pos as int].value)->0)),
        decreases old(self).len() - pos, 34nat,
    {
        match self.local_assignment(pos) {
            Some((a, q)) => return Some((AttributeCommand::Assignment(a), q)),
            None => {},
        }
        match self.call_inner(pos) {
            Some((c, q)) => return Some((AttributeCommand::Call(c), q)),
            None => {},
        }
        match self.identifier(pos) {
            Some((id, q)) => Some((AttributeCommand::Ident(id), q)),
            None => None,
        }
    }
}

/// The binding level of a binary operator; higher binds looser.
pub open spec fn op_level(op: BinaryOperator) -> int {
    match op {
        BinaryOperator::Near => 1,
        BinaryOperator::PowerXor | BinaryOperator::Xor => 2,
        BinaryOperator::Union | BinaryOperator::Intersect => 3,
        BinaryOperator::Multiply | BinaryOperator::Divide => 4,
        BinaryOperator::Add | BinaryOperator::Subtract => 5,
        BinaryOperator::LessEqual | BinaryOperator::GreaterEqual => 6,
        BinaryOperator::LessThan | BinaryOperator::GreaterThan => 7,
        BinaryOperator::Equal | BinaryOperator::NotEqual => 8,
        BinaryOperator::Or | BinaryOperator::And => 9,
    }
}

/// An expression binds at level `l` or tighter: it is no binary operation, or one whose
/// operator's level is at most `l`.
pub open spec fn binds_within(e: Expression, l: int) -> bool {
    e matches Expression::BinaryOperation(b) ==> op_level(b.op.value) <= l
}

/// The binary operations of an expression nest by precedence, and operators of one level
/// group to the left: the left operand of each binds at its level or tighter, the right
/// operand strictly tighter.
pub open spec fn precedence_ok(e: Expression) -> bool
    decreases e,
{
    match e {
        Expression::BinaryOperation(b) => {
            &&& binds_within(*b.lhs, op_level(b.op.value))
            &&& binds_within(*b.rhs, op_level(b.op.value) - 1)
            &&& precedence_ok(*b.lhs)
            &&& precedence_ok(*b.rhs)
        },
        _ => true,
    }
}

impl<'t> Parser<'t> {
    /// The binary operator of level `l` at `pos`, if there is one.
    fn operator_at(&self, pos: usize, l: u8) -> (r: Option<BinaryOperator>)
        requires
            pos < self.len(),
        ensures
            r matches Some(op) ==> op_level(op) == l,
            r == match token_operator(self.toks@[pos as int].value) {
                Some(op) => if op_level(op) == l { Some(op) } else { None },
                None => None,
            },
    {
        let op = match &self.toks[pos].value {
            Token::OperatorNear => BinaryOperator::Near,
            Token::OperatorPowerXor => BinaryOperator::PowerXor,
            Token::OperatorXor => BinaryOperator::Xor,
            Token::OperatorUnion => BinaryOperator::Union,
            Token::OperatorIntersect => BinaryOperator::Intersect,
            Token::OperatorMultiply => BinaryOperator::Multiply,
            Token::OperatorDivide => BinaryOperator::Divide,
            Token::OperatorAdd => BinaryOperator::Add,
            Token::OperatorSubtract => BinaryOperator::Subtract,
            Token::OperatorLessEqual => BinaryOperator::LessEqual,
            Token::OperatorGreaterEqual => BinaryOperator::GreaterEqual,
            Token::OperatorLessThan => BinaryOperator::LessThan,
            Token::OperatorGreaterThan => BinaryOperator::GreaterThan,
            Token::OperatorEqual => BinaryOperator::Equal,
            Token::OperatorNotEqual => BinaryOperator::NotEqual,
            Token::OperatorOr => BinaryOperator::Or,
            Token::OperatorAnd => BinaryOperator::And,
            _ => return None,
        };
        let level: u8 = match op {
            BinaryOperator::Near => 1,
            BinaryOperator::PowerXor | BinaryOperator::Xor => 2,
            BinaryOperator::Union | BinaryOperator::Intersect => 3,
            BinaryOperator::Multiply | BinaryOperator::Divide => 4,
            BinaryOperator::Add | BinaryOperator::Subtract => 5,
            BinaryOperator::LessEqual | BinaryOperator::GreaterEqual => 6,
            BinaryOperator::LessThan | BinaryOperator::GreaterThan => 7,
            BinaryOperator::Equal | BinaryOperator::NotEqual => 8,
            BinaryOperator::Or | BinaryOperator::And => 9,
        };
        if level == l {
            Some(op)
        } else {
            None
        }
    }

    /// An expression.
    pub fn expression(&mut self, pos: usize) -> (r: Option<(Expression, usize)>)
        requires
            pos <= old(self).len(),
            old(self).wf(),
        ensures
            final(self).step(*old(self), pos as int, end_of(r)),
            r matches Some((e, q)) ==> q > pos && precedence_ok(e),
            literal_at(old(self).toks@, pos as int) ==> r is Some,
            lone_literal_at(old(self).toks@, pos as int) ==> (r matches Some((_, q)) && q == literal_end(old(self).toks@, pos as int)),
            opens_no_expression(old(self).toks@, pos as int) ==> r is None,
            plain_literal_at(old(self).toks@, pos as int) && ends_within(old(self).toks@, literal_end(old(self).toks@, pos as int), 9)
                ==> (r matches Some((e, q)) && q == literal_end(old(self).toks@, pos as int) && literal_expr(old(self).toks@, pos as int, e))
                && final(self).errors@ == old(self).errors@,
            two_chain(old(self).toks@, pos as int, 9) ==> (r matches Some((e, q))
                && q == literal_end(old(self).toks@, next_operand(old(self).toks@, pos as int))
                && literal_operation(old(self).toks@, e, operator_after(old(self).toks@, pos as int)->0, pos as int, next_operand(old(self).toks@, pos as int)))
                && final(self).errors@ == old(self).errors@,
            three_chain(old(self).toks@, pos as int, 9) ==> (r matches Some((e, q))
                && q == three_chain_end(old(self).toks@, pos as int) && chain_tree(old(self).toks@, e, pos as int))
                && final(self).errors@ == old(self).errors@,
            operand_start(old(self).toks@, pos as int) ==> r is Some,
            r matches Some((e, q)) ==> ordered(old(self).toks@, e, pos as int, q as int)
                && !continues_at(old(self).toks@, q as int, 9),
            plain_name_at(old(self).toks@, pos as int) && ends_within(old(self).toks@, skip_extras(old(self).toks@, pos + 1), 9)
                ==> (r matches Some((e, q)) && name_at(old(self).toks@, pos as int, e) && q == skip_extras(old(self).toks@, pos + 1)),
            plain_name_at(old(self).toks@, pos as int) && old(self).toks@[pos as int].value is Identifier
                && ends_within(old(self).toks@, skip_extras(old(self).toks@, pos + 1), 9) ==> final(self).errors@ == old(self).errors@,
            if_at(old(self).toks@, pos as int) && expression_stops(old(self).toks@, if_end(old(self).toks@, pos as int))
                ==> (r matches Some((e, q)) && e is If && plain_if(old(self).toks@, pos as int, e->If_0)
                && q == if_end(old(self).toks@, pos as int)) && final(self).errors@ == old(self).errors@,
        decreases old(self).len() - pos, 50nat,
    {
        self.binop(pos, 9)
    }

    /// Operands of level `l - 1` joined by the binary operators of level `l`, grouped to
    /// the left; level 0 is an operand.
    #[verifier::rlimit(60)]
    #[verifier::spinoff_prover]
    fn binop(&mut self, pos: usize, l: u8) -> (r: Option<(Expression, usize)>)
        requires
            pos <= old(self).len(),
            old(self).wf(),
            l <= 9,
        ensures
            final(self).step(*old(self), pos as int, end_of(r)),
            r matches Some((e, q)) ==> q > pos && precedence_ok(e) && binds_within(e, l as int)
                && (e is BinaryOperation ==> e.span_spec() == old(self).cover(pos as int, q as int)),
            literal_at(old(self).toks@, pos as int) ==> r is Some,
            lone_literal_at(old(self).toks@, pos as int) ==> (r matches Some((_, q)) && q == literal_end(old(self).toks@, pos as int)),
            opens_no_expression(old(self).toks@, pos as int) ==> r is None,
            plain_literal_at(old(self).toks@, pos as int) && ends_within(old(self).toks@, literal_end(old(self).toks@, pos as int), l as int)
                ==> (r matches Some((e, q)) && q == literal_end(old(self).toks@, pos as int) && literal_expr(old(self).toks@, pos as int, e))
                && final(self).errors@ == old(self).errors@,
            two_chain(old(self).toks@, pos as int, l as int) ==> (r matches Some((e, q))
                && q == literal_end(old(self).toks@, next_operand(old(self).toks@, pos as int))
                && literal_operation(old(self).toks@, e, operator_after(old(self).toks@, pos as int)->0, pos as int, next_operand(old(self).toks@, pos as int)))
                && final(self).errors@ == old(self).errors@,
            three_chain(old(self).toks@, pos as int, l as int) ==> (r matches Some((e, q))
                && q == three_chain_end(old(self).toks@, pos as int) && chain_tree(old(self).toks@, e, pos as int))
                && final(self).errors@ == old(self).errors@,
            operand_start(old(self).toks@, pos as int) ==> r is Some,
            r matches Some((e, q)) ==> ordered(old(self).toks@, e, pos as int, q as int)
                && !continues_at(old(self).toks@, q as int, l as int),
            plain_name_at(old(self).toks@, pos as int) && ends_within(old(self).toks@, skip_extras(old(self).toks@, pos + 1), l as int)
                ==> (r matches Some((e, q)) && name_at(old(self).toks@, pos as int, e) && q == skip_extras(old(self).toks@, pos + 1)),
            plain_name_at(old(self).toks@, pos as int) && old(self).toks@[pos as int].value is Identifier
                && ends_within(old(self).toks@, skip_extras(old(self).toks@, pos + 1), l as int) ==> final(self).errors@ == old(self).errors@,
            if_at(old(self).toks@, pos as int) && expression_stops(old(self).toks@, if_end(old(self).toks@, pos as int))
                ==> (r matches Some((e, q)) && e is If && plain_if(old(self).toks@, pos as int, e->If_0)
                && q == if_end(old(self).toks@, pos as int)) && final(self).errors@ == old(self).errors@,
        decreases old(self).len() - pos, 40nat + l as nat,
    {
        if l == 0 {
            return match self.operand(pos) {
                Some((e, q)) => {
                    Some((e, q))
                },
                None => None,
            };
        }
        let (mut lhs, mut p) = match self.binop(pos, l - 1) {
            Some(x) => x,
            None => return None,
        };
        let ghost t = self.toks@;
        let ghost e1 = literal_end(t, pos as int);
        let ghost b = next_operand(t, pos as int);
        let ghost e2 = literal_end(t, b);
        let ghost c = next_operand(t, b);
        let ghost e3 = literal_end(t, c);
        let ghost o1 = operator_after(t, pos as int)->0;
        let ghost o2 = operator_after(t, b)->0;
        let ghost one = plain_literal_at(t, pos as int) && ends_within(t, e1, l as int);
        let ghost two = two_chain(t, pos as int, l as int);
        let ghost three = three_chain(t, pos as int, l as int);
        let ghost word = plain_name_at(t, pos as int) && ends_within(t, skip_extras(t, pos + 1), l as int);
        let ghost iff = if_at(t, pos as int) && expression_stops(t, if_end(t, pos as int));
        proof {
            if literal_at(self.toks@, pos as int) {
                lemma_literal_end(self.toks@, pos as int);
                lemma_skip_extras_stop(self.toks@, pos as int);
                if e1 < t.len() && b <= t.len() && literal_at(t, b) {
                    lemma_literal_end(t, b);
                    lemma_skip_extras_stop(t, b);
                    if e2 < t.len() && c <= t.len() && literal_at(t, c) {
                        lemma_literal_end(t, c);
                        lemma_skip_extras_stop(t, c);
                    }
                }
            }
        }
        while p < self.toks.len()
            invariant
                t == self.toks@,
                t == old(self).toks@,
                e1 == literal_end(t, pos as int),
                b == next_operand(t, pos as int),
                e2 == literal_end(t, b),
                c == next_operand(t, b),
                e3 == literal_end(t, c),
                o1 == operator_after(t, pos as int)->0,
                o2 == operator_after(t, b)->0,
                one == (plain_literal_at(t, pos as int) && ends_within(t, e1, l as int)),
                two == two_chain(t, pos as int, l as int),
                three == three_chain(t, pos as int, l as int),
                literal_at(t, pos as int) ==> pos <= skip_extras(t, pos as int) < e1 <= t.len()
                    && ws_skip(t, e1) == e1,
                literal_at(t, pos as int) && e1 < t.len() && literal_at(t, b) ==> e1 < b <= skip_extras(t, b) < e2 <= t.len()
                    && ws_skip(t, e2) == e2,
                literal_at(t, pos as int) && e1 < t.len() && literal_at(t, b) && e2 < t.len() && literal_at(t, c)
                    ==> e2 < c <= skip_extras(t, c) < e3 <= t.len() && ws_skip(t, e3) == e3,
                one || two || three ==> self.errors@ == old(self).errors@,
                one ==> p == e1 && literal_expr(t, pos as int, lhs),
                two ==> (p == e1 && op_level(o1) == l && literal_expr(t, pos as int, lhs))
                    || (p == e2 && literal_operation(t, lhs, o1, pos as int, b)),
                three ==> (p == e1 && op_level(o1) == l && literal_expr(t, pos as int, lhs))
                    || (p == e2 && op_level(o2) == l && literal_operation(t, lhs, o1, pos as int, b))
                    || (p == e3 && chain_tree(t, lhs, pos as int)),
                pos < p <= self.len(),
                self.toks == old(self).toks,
                self.wf(),
                extends(old(self).errors@, self.errors@),
                precedence_ok(lhs),
                binds_within(lhs, l as int),
                1 <= l <= 9,
                lhs is BinaryOperation ==> lhs.span_spec() == old(self).cover(pos as int, p as int),
                lone_literal_at(old(self).toks@, pos as int) ==> p == literal_end(old(self).toks@, pos as int),
                literal_at(old(self).toks@, pos as int) ==> ws_skip(old(self).toks@, literal_end(old(self).toks@, pos as int)) == literal_end(old(self).toks@, pos as int),
                ordered(t, lhs, pos as int, p as int),
                !continues_at(t, p as int, l - 1),
                word == (plain_name_at(t, pos as int) && ends_within(t, skip_extras(t, pos + 1), l as int)),
                word ==> p == skip_extras(t, pos + 1) && name_at(t, pos as int, lhs),
                word && t[pos as int].value is Identifier ==> self.errors@ == old(self).errors@,
                iff == (if_at(t, pos as int) && expression_stops(t, if_end(t, pos as int))),
                iff ==> p == if_end(t, pos as int) && lhs is If && plain_if(t, pos as int, lhs->If_0)
                    && self.errors@ == old(self).errors@,
            ensures
                iff ==> p == if_end(t, pos as int) && lhs is If && plain_if(t, pos as int, lhs->If_0)
                    && self.errors@ == old(self).errors@,
                word ==> p == skip_extras(t, pos + 1) && name_at(t, pos as int, lhs),
                word && t[pos as int].value is Identifier ==> self.errors@ == old(self).errors@,
                ordered(t, lhs, pos as int, p as int),
                !continues_at(t, p as int, l as int),
                pos < p <= self.len(),
                self.toks == old(self).toks,
                extends(old(self).errors@, self.errors@),
                precedence_ok(lhs),
                binds_within(lhs, l as int),
                lhs is BinaryOperation ==> lhs.span_spec() == old(self).cover(pos as int, p as int),
                lone_literal_at(old(self).toks@, pos as int) ==> p == literal_end(old(self).toks@, pos as int),
                one ==> p == e1 && literal_expr(t, pos as int, lhs),
                two ==> p == e2 && literal_operation(t, lhs, o1, pos as int, b),
                three ==> p == e3 && chain_tree(t, lhs, pos as int),
                one || two || three ==> self.errors@ == old(self).errors@,
            decreases self.len() - p,
        {
            let ghost before = self.errors@;
            let save = self.errors.len();
            proof {
                lemma_skip_extras_stop(t, pos + 1);
                if iff {
                    lemma_if_end(t, pos as int);
                }
            }
            let p1 = self.maybe_ws(p);
            if p1 >= self.toks.len() {
                break;
            }
            let op = match self.operator_at(p1, l) {
                Some(op) => op,
                None => break,
            };
            let op_span = self.toks[p1].span;
            let p2 = self.maybe_ws(p1 + 1);
            match self.binop(p2, l - 1) {
                Some((rhs, q)) => {
                    let span = self.span_of(pos, q);
                    let ghost old_lhs = lhs;
                    lhs = Expression::BinaryOperation(BinaryOperation { span, lhs: Box::new(lhs), op: Spanned { span: op_span, value: op }, rhs: Box::new(rhs) });
                    proof {
                        assert(ws_skip(t, p as int) == p1);
                        let x = lhs->BinaryOperation_0;
                        assert(*x.lhs == old_lhs && *x.rhs == rhs);
                        assert(t[p1 as int].span == x.op.span);
                        assert(token_operator(t[p1 as int].value) == Some(x.op.value));
                    }
                    p = q;
                },
                None => {
                    self.restore(save, Ghost(before));
                    break;
                },
            }
        }
        Some((lhs, p))
    }

    /// An operand of a binary operation: an element access or a unary operation.
    fn operand(&mut self, pos: usize) -> (r: Option<(Expression, usize)>)
        requires
            pos <= old(self).len(),
            old(self).wf(),
        ensures
            final(self).step(*old(self), pos as int, end_of(r)),
            r matches Some((e, q)) ==> q > pos && !(e is BinaryOperation),
            literal_at(old(self).toks@, pos as int) ==> r is Some,
            lone_literal_at(old(self).toks@, pos as int) ==> (r matches Some((_, q)) && q == literal_end(old(self).toks@, pos as int)),
            plain_literal_at(old(self).toks@, pos as int) ==> (r matches Some((e, q)) && q == literal_end(old(self).toks@, pos as int)
                && literal_expr(old(self).toks@, pos as int, e)) && final(self).errors@ == old(self).errors@,
            opens_no_expression(old(self).toks@, pos as int) ==> r is None,
            r matches Some((e, q)) ==> span_within(old(self).toks@, e.span_spec(), pos as int, q as int),
            operand_start(old(self).toks@, pos as int) ==> r is Some,
            plain_name_at(old(self).toks@, pos as int) ==> (r matches Some((e, q)) && name_at(old(self).toks@, pos as int, e)
                && q == skip_extras(old(self).toks@, pos + 1)),
            plain_name_at(old(self).toks@, pos as int) && old(self).toks@[pos as int].value is Identifier
                ==> final(self).errors@ == old(self).errors@,
            if_at(old(self).toks@, pos as int) && expression_stops(old(self).toks@, if_end(old(self).toks@, pos as int))
                ==> (r matches Some((e, q)) && e is If && plain_if(old(self).toks@, pos as int, e->If_0)
                && q == if_end(old(self).toks@, pos as int)) && final(self).errors@ == old(self).errors@,
        decreases old(self).len() - pos, 39nat,
    {
        match self.element_access(pos) {
            Some(x) => Some(x),
            None => self.unary(pos),
        }
    }

    /// `-x`, `+x` or `!x`.
    fn unary(&mut self, pos: usize) -> (r: Option<(Expression, usize)>)
        requires
            pos <= old(self).len(),
            old(self).wf(),
        ensures
            final(self).step(*old(self), pos as int, end_of(r)),
            r matches Some((e, q)) ==> q > pos && (e is UnaryOperation) && e.span_spec() == old(self).cover(pos as int, q as int),
            ({
                let k = skip_extras(old(self).toks@, pos as int);
                let signed = k < old(self).len() && (old(self).toks@[k].value is OperatorSubtract
                    || old(self).toks@[k].value is OperatorAdd || old(self).toks@[k].value is OperatorNot);
                &&& !signed ==> r is None
                &&& signed && literal_at(old(self).toks@, ws_skip(old(self).toks@, k + 1)) ==> r is Some
            }),
            r matches Some((e, q)) ==> span_within(old(self).toks@, e.span_spec(), pos as int, q as int),
        decreases old(self).len() - pos, 37nat,
    {
        let (leading, p1) = self.leading_extras(pos);
        proof {
            lemma_skip_extras(self.toks@, pos as int, p1 as int, leading.0@);
        }
        if p1 >= self.toks.len() {
            return None;
        }
        let op = match &self.toks[p1].value {
            Token::OperatorSubtract => UnaryOperator::Minus,
            Token::OperatorAdd => UnaryOperator::Plus,
            Token::OperatorNot => UnaryOperator::Not,
            _ => return None,
        };
        let op_span = self.toks[p1].span;
        let p2 = self.maybe_ws(p1 + 1);
        match self.element_access(p2) {
            Some((rhs, p)) => {
                let (trailing, q) = self.trailing_extras(p);
                let span = self.span_of(pos, q);
                Some((Expression::UnaryOperation(UnaryOperation { span, extras: ItemExtras { leading, trailing }, op: Spanned { span: op_span, value: op }, rhs: Box::new(rhs) }), q))
            },
            None => None,
        }
    }

    /// A base expression followed by element accesses, if any.
    #[verifier::rlimit(60)]
    #[verifier::spinoff_prover]
    fn element_access(&mut self, pos: usize) -> (r: Option<(Expression, usize)>)
        requires
            pos <= old(self).len(),
            old(self).wf(),
        ensures
            final(self).step(*old(self), pos as int, end_of(r)),
            r matches Some((e, q)) ==> q > pos && !(e is BinaryOperation) && !(e is UnaryOperation),
            literal_at(old(self).toks@, pos as int) ==> r is Some,
            lone_literal_at(old(self).toks@, pos as int) ==> (r matches Some((_, q)) && q == literal_end(old(self).toks@, pos as int)),
            plain_literal_at(old(self).toks@, pos as int) ==> (r matches Some((e, q)) && q == literal_end(old(self).toks@, pos as int)
                && literal_expr(old(self).toks@, pos as int, e)) && final(self).errors@ == old(self).errors@,
            opens_no_expression(old(self).toks@, pos as int) ==> r is None,
            r matches Some((e, q)) ==> span_within(old(self).toks@, e.span_spec(), pos as int, q as int),
            operand_start(old(self).toks@, pos as int) ==> r is Some,
            plain_name_at(old(self).toks@, pos as int) ==> (r matches Some((e, q)) && name_at(old(self).toks@, pos as int, e)
                && q == skip_extras(old(self).toks@, pos + 1)),
            plain_name_at(old(self).toks@, pos as int) && old(self).toks@[pos as int].value is Identifier
                ==> final(self).errors@ == old(self).errors@,
            if_at(old(self).toks@, pos as int) && expression_stops(old(self).toks@, if_end(old(self).toks@, pos as int))
                ==> (r matches Some((e, q)) && e is If && plain_if(old(self).toks@, pos as int, e->If_0)
                && q == if_end(old(self).toks@, pos as int)) && final(self).errors@ == old(self).errors@,
        decreases old(self).len() - pos, 38nat,
    {
        let (base, p) = match self.base(pos) {
            Some(x) => x,
            None => return None,
        };
        proof {
            if literal_at(self.toks@, pos as int) {
                lemma_literal_end(self.toks@, pos as int);
            }
        }
        let ghost p0 = p as int;
        let mut chain: Vec<Element> = Vec::new();
        let mut p = p;
        while p < self.toks.len()
            invariant
                pos < p <= self.len(),
                plain_literal_at(old(self).toks@, pos as int) ==> p == literal_end(old(self).toks@, pos as int) && chain@.len() == 0
                    && literal_expr(old(self).toks@, pos as int, base) && self.errors@ == old(self).errors@,
                literal_at(old(self).toks@, pos as int) ==> skip_extras(old(self).toks@, literal_end(old(self).toks@, pos as int)) == literal_end(old(self).toks@, pos as int),
                self.toks == old(self).toks,
                self.wf(),
                extends(old(self).errors@, self.errors@),
                p0 <= p,
                span_within(old(self).toks@, base.span_spec(), pos as int, p0),
                plain_name_at(old(self).toks@, pos as int) && old(self).toks@[pos as int].value is Identifier
                    ==> self.errors@ == old(self).errors@,
                if_at(old(self).toks@, pos as int) && expression_stops(old(self).toks@, if_end(old(self).toks@, pos as int))
                    ==> p == p0 && chain@.len() == 0 && base is If && plain_if(old(self).toks@, pos as int, base->If_0)
                    && p0 == if_end(old(self).toks@, pos as int) && self.errors@ == old(self).errors@,
                plain_name_at(old(self).toks@, pos as int) ==> p == p0 && chain@.len() == 0
                    && name_at(old(self).toks@, pos as int, base) && p0 == skip_extras(old(self).toks@, pos + 1),
            decreases self.len() - p,
        {
            proof {
                lemma_skip_extras_stop(self.toks@, pos + 1);
                if if_at(self.toks@, pos as int) {
                    lemma_if_end(self.toks@, pos as int);
                }
            }
            match self.access(p) {
                Some((el, q)) => {
                    chain.push(el);
                    p = q;
                },
                None => break,
            }
        }
        if chain.len() == 0 {
            Some((base, p))
        } else {
            let span = self.span_of(pos, p);
            Some((Expression::ElementAccess(ElementAccess { span, expr: Box::new(base), element_chain: chain }), p))
        }
    }

    /// One element access: `#attr`, `.method(args)`, `.field` or `[index]`.
    fn access(&mut self, pos: usize) -> (r: Option<(Element, usize)>)
        requires
            pos <= old(self).len(),
            old(self).wf(),
        ensures
            final(self).step(*old(self), pos as int, end_of(r)),
            r matches Some((el, q)) ==> q > pos && el.span == old(self).cover(pos as int, q as int),
            ({
                let k = skip_extras(old(self).toks@, pos as int);
                &&& !(old(self).at(k, Token::SigilHash) || old(self).at(k, Token::SigilDot)
                    || old(self).at(k, Token::SigilOpenSquareBracket)) ==> r is None
                &&& old(self).at(k, Token::SigilHash) && k + 1 < old(self).len()
                    && identifier_name(old(self).toks@[k + 1].value) is Some ==> (r matches Some((el, _)) && el.inner is Attribute)
            }),
        decreases old(self).len() - pos, 35nat,
    {
        let ghost orig = self.errors@;
        let save = self.errors.len();
        let (leading, p1) = self.leading_extras(pos);
        proof {
            lemma_skip_extras(self.toks@, pos as int, p1 as int, leading.0@);
        }
        if p1 >= self.toks.len() {
            return None;
        }
        let inner = match &self.toks[p1].value {
            Token::SigilHash => match self.identifier(p1 + 1) {
                Some((id, q)) => Some((ElementInner::Attribute(id), q)),
                None => None,
            },
            Token::SigilDot => match self.call_inner(p1 + 1) {
                Some((c, q)) => Some((ElementInner::Method(Box::new(c)), q)),
                None => match self.identifier(p1 + 1) {
                    Some((id, q)) => Some((ElementInner::Tuple(id), q)),
                    None => None,
                },
            },
            Token::SigilOpenSquareBracket => match self.expression(p1 + 1) {
                Some((e, q)) => {
                    if q < self.toks.len() && matches!(self.toks[q].value, Token::SigilCloseSquareBracket) {
                        Some((ElementInner::ArrayElement(Box::new(e)), q + 1))
                    } else {
                        self.restore(save, Ghost(orig));
                        None
                    }
                },
                None => None,
            },
            _ => None,
        };
        match inner {
            Some((inner, p)) => {
                let (trailing, q) = self.trailing_extras(p);
                let span = self.span_of(pos, q);
                Some((Element { span, extras: ItemExtras { leading, trailing }, inner }, q))
            },
            None => None,
        }
    }
}

impl<'t> Parser<'t> {
    /// A base expression: a literal, a string, an `if`, a call, a marker, something in
    /// brackets, an array, a body or a name.
    #[verifier::rlimit(60)]
    #[verifier::spinoff_prover]
    fn base(&mut self, pos: usize) -> (r: Option<(Expression, usize)>)
        requires
            pos <= old(self).len(),
            old(self).wf(),
        ensures
            final(self).step(*old(self), pos as int, end_of(r)),
            r matches Some((e, q)) ==> q > pos && !(e is BinaryOperation) && !(e is UnaryOperation) && !(e is ElementAccess),
            literal_at(old(self).toks@, pos as int) ==> (r matches Some((e, q)) && literal_expr(old(self).toks@, pos as int, e)
                && q == literal_end(old(self).toks@, pos as int)) && final(self).errors@ == old(self).errors@,
            opens_no_expression(old(self).toks@, pos as int) ==> r is None,
            pos < old(self).len() && old(self).toks@[pos as int].value is Identifier && !old(self).at(pos + 1, Token::SigilDoubleColon)
                && !old(self).at(skip_extras(old(self).toks@, pos + 1), Token::SigilOpenBracket) ==> (r matches Some((e, _)) && e is SymbolPath),
            r matches Some((e, q)) ==> span_within(old(self).toks@, e.span_spec(), pos as int, q as int),
            names_at(old(self).toks@, pos as int) ==> r is Some,
            plain_name_at(old(self).toks@, pos as int) ==> (r matches Some((e, q)) && name_at(old(self).toks@, pos as int, e)
                && q == skip_extras(old(self).toks@, pos + 1)),
            plain_name_at(old(self).toks@, pos as int) && old(self).toks@[pos as int].value is Identifier
                ==> final(self).errors@ == old(self).errors@,
            if_at(old(self).toks@, pos as int) ==> (r matches Some((e, q)) && e is If && plain_if(old(self).toks@, pos as int, e->If_0)
                && q == if_end(old(self).toks@, pos as int)) && final(self).errors@ == old(self).errors@,
        decreases old(self).len() - pos, 36nat,
    {
        match self.literal(pos) {
            Some((lit, q)) => {
                proof {
                    let p1 = skip_extras(self.toks@, pos as int);
                    let p2 = if p1 + 1 < self.len() && unit_name(self.toks@[p1 + 1].value) is Some { p1 + 2 } else { p1 + 1 };
                    lemma_skip_extras(self.toks@, p2, q as int, lit.extras.trailing.0@);
                }
                return Some((Expression::Literal(lit), q));
            },
            None => {},
        }
        if pos < self.toks.len() && matches!(self.toks[pos].value, Token::Error(LexerError::UnclosedString(_))) {
            let q = self.ignore_till_semi(pos + 1);
            let span = self.span_of(pos + 1, q);
            let start = if span.start > 0 { span.start - 1 } else { 0 };
            self.error(Span { start, end: span.end }, ParseErrorKind::UnterminatedString);
            return Some((Expression::Error(span), q));
        }
        match self.string_format(pos) {
            Some((s, q)) => return Some((Expression::String(s), q)),
            None => {},
        }
        match self.if_expression(pos) {
            Some((i, q)) => return Some((Expression::If(i), q)),
            None => {},
        }
        match self.call_inner(pos) {
            Some((c, q)) => return Some((Expression::Call(c), q)),
            None => {},
        }
        if pos < self.toks.len() && matches!(self.toks[pos].value, Token::SigilAt) {
            match self.identifier(pos + 1) {
                Some((id, q)) => {
                    proof {
                        assert(id.span == cover_spec(self.toks@, pos + 1, pos + 2));
                    }
                    return Some((Expression::Marker(id), q));
                },
                None => {},
            }
        }
        match self.bracketed(pos) {
            Some((e, q)) => return Some((e, q)),
            None => {},
        }
        match self.tuple(pos) {
            Some((e, q)) => return Some((e, q)),
            None => {},
        }
        match self.ignore_till_matched_brackets(pos) {
            Some(q) => {
                self.expected(pos, "expression");
                let span = self.span_of(pos, q);
                return Some((Expression::Error(span), q));
            },
            None => {},
        }
        match self.array(pos, true) {
            Some((e, q)) => return Some((e, q)),
            None => {},
        }
        match self.array(pos, false) {
            Some((e, q)) => return Some((e, q)),
            None => {},
        }
        match self.body(pos) {
            Some((b, q)) => return Some((Expression::Body(b), q)),
            None => {},
        }
        self.name_expression(pos)
    }

    /// A name used as an expression: `a::b::c`; its span is that of the names.
    fn name_expression(&mut self, pos: usize) -> (r: Option<(Expression, usize)>)
        requires
            pos <= old(self).len(),
        ensures
            final(self).step(*old(self), pos as int, end_of(r)),
            r matches Some((e, q)) ==> q > pos && e is SymbolPath,
            r is Some == names_at(old(self).toks@, pos as int),
            r matches Some((e, q)) ==> span_within(old(self).toks@, e.span_spec(), pos as int, q as int),
            plain_name_at(old(self).toks@, pos as int) ==> (r matches Some((e, q)) && name_at(old(self).toks@, pos as int, e)
                && q == skip_extras(old(self).toks@, pos + 1)),
            plain_name_at(old(self).toks@, pos as int) && old(self).toks@[pos as int].value is Identifier
                ==> final(self).errors@ == old(self).errors@,
    {
        let (leading, p1) = self.leading_extras(pos);
        proof {
            lemma_skip_extras(self.toks@, pos as int, p1 as int, leading.0@);
        }
        let mut parts: Vec<Identifier> = Vec::new();
        let (first, mut p) = match self.identifier(p1) {
            Some(x) => x,
            None => return None,
        };
        let start = first.span.start;
        let mut end = first.span.end;
        let ghost f0 = first;
        let ghost e0 = self.errors@;
        proof {
            if plain_name_at(self.toks@, pos as int) && self.toks@[pos as int].value is Identifier {
                assert(extra_of(self.toks@[pos as int]) is None);
                assert(identifier_error(self.toks@[pos as int]) =~= Seq::<ParseError>::empty());
            }
        }
        let ghost p_first = p as int;
        parts.push(first);
        while p < self.toks.len() && matches!(self.toks[p].value, Token::SigilDoubleColon)
            invariant
                pos < p <= self.len(),
                pos <= p1 < p,
                parts@.len() >= 1,
                parts@[0] == f0,
                p_first == p1 + 1,
                p == p_first ==> parts@.len() == 1 && self.errors@ == e0,
                p_first <= p,
                p != p_first ==> p_first < self.len() && self.toks@[p_first].value is SigilDoubleColon,
                self.toks == old(self).toks,
                extends(old(self).errors@, self.errors@),
                start == self.toks@[p1 as int].span.start,
                end == self.toks@[p - 1].span.end,
            decreases self.len() - p,
        {
            match self.identifier(p + 1) {
                Some((id, q)) => {
                    end = id.span.end;
                    let ghost before = parts@;
                    parts.push(id);
                    assert(parts@[0] == before[0]);
                    p = q;
                },
                None => break,
            }
        }
        let (trailing, q) = self.trailing_extras(p);
        proof {
            assert(Span { start, end } == cover_spec(self.toks@, p1 as int, p as int));
            lemma_skip_extras(self.toks@, p as int, q as int, trailing.0@);
            if plain_name_at(self.toks@, pos as int) {
                assert(extra_of(self.toks@[pos as int]) is None);
                assert(p1 == pos);
                assert(p == pos + 1);
                assert(parts@.len() == 1);
            }
        }
        Some((Expression::SymbolPath(SymbolPath { span: Span { start, end }, extras: ItemExtras { leading, trailing }, prefix: None, parts }), q))
    }

    /// `(expr)`.
    fn bracketed(&mut self, pos: usize) -> (r: Option<(Expression, usize)>)
        requires
            pos <= old(self).len(),
            old(self).wf(),
        ensures
            final(self).step(*old(self), pos as int, end_of(r)),
            r matches Some((e, q)) ==> q > pos && (e is Bracketed) && e.span_spec() == old(self).cover(pos as int, q as int),
            !old(self).at(pos as int, Token::SigilOpenBracket) ==> r is None,
            ({
                let e = literal_end(old(self).toks@, ws_skip(old(self).toks@, pos + 1));
                old(self).at(pos as int, Token::SigilOpenBracket) && lone_literal_at(old(self).toks@, ws_skip(old(self).toks@, pos + 1))
                    && old(self).at(e, Token::SigilCloseBracket) ==> (r matches Some((_, q)) && q == e + 1)
            }),
        decreases old(self).len() - pos, 31nat,
    {
        let ghost orig = self.errors@;
        let save = self.errors.len();
        if !(pos < self.toks.len() && matches!(self.toks[pos].value, Token::SigilOpenBracket)) {
            return None;
        }
        let p = self.maybe_ws(pos + 1);
        proof {
            if literal_at(self.toks@, p as int) {
                lemma_literal_end(self.toks@, p as int);
            }
        }
        match self.expression(p) {
            Some((e, p)) => {
                let p = self.maybe_ws(p);
                if p < self.toks.len() && matches!(self.toks[p].value, Token::SigilCloseBracket) {
                    let span = self.span_of(pos, p + 1);
                    Some((Expression::Bracketed(Box::new(e), span), p + 1))
                } else {
                    self.restore(save, Ghost(orig));
                    None
                }
            },
            None => None,
        }
    }

    /// The items of a tuple or of call arguments: `name = value` or `value`, separated by
    /// commas, a trailing comma allowed.
    fn tuple_body(&mut self, pos: usize) -> (r: (Vec<TupleItem>, usize))
        requires
            pos <= old(self).len(),
            old(self).wf(),
        ensures
            final(self).step(*old(self), pos as int, Some(r.1 as int)),
            lone_literal_at(old(self).toks@, pos as int) && !old(self).at(literal_end(old(self).toks@, pos as int), Token::SigilComma)
                ==> r.1 == literal_end(old(self).toks@, pos as int),
        decreases old(self).len() - pos, 53nat,
    {
        proof {
            if literal_at(self.toks@, pos as int) {
                lemma_literal_end(self.toks@, pos as int);
            }
        }
        let mut items: Vec<TupleItem> = Vec::new();
        let mut p = match self.tuple_item(pos) {
            Some((item, q)) => {
                items.push(item);
                self.maybe_ws(q)
            },
            None => return (items, pos),
        };
        while p < self.toks.len() && matches!(self.toks[p].value, Token::SigilComma)
            invariant
                pos < p <= self.len(),
                self.toks == old(self).toks,
                self.wf(),
                extends(old(self).errors@, self.errors@),
                lone_literal_at(old(self).toks@, pos as int) && !old(self).at(literal_end(old(self).toks@, pos as int), Token::SigilComma)
                    ==> p == literal_end(old(self).toks@, pos as int),
            decreases self.len() - p,
        {
            let p1 = self.maybe_ws(p + 1);
            match self.tuple_item(p1) {
                Some((item, q)) => {
                    items.push(item);
                    p = self.maybe_ws(q);
                },
                None => {
                    p = p1;
                    break;
                },
            }
        }
        (items, p)
    }

    /// One tuple item: `name = value` or `value`.
    fn tuple_item(&mut self, pos: usize) -> (r: Option<(TupleItem, usize)>)
        requires
            pos <= old(self).len(),
            old(self).wf(),
        ensures
            final(self).step(*old(self), pos as int, end_of(r)),
            r matches Some((it, q)) ==> q > pos && it.span == old(self).cover(pos as int, q as int),
            literal_at(old(self).toks@, pos as int) ==> r is Some,
            lone_literal_at(old(self).toks@, pos as int) ==> (r matches Some((_, q)) && q == literal_end(old(self).toks@, pos as int)),
        decreases old(self).len() - pos, 52nat,
    {
        let ghost orig = self.errors@;
        let save = self.errors.len();
        let (leading, p1) = self.leading_extras(pos);
        proof {
            lemma_skip_extras(self.toks@, pos as int, p1 as int, leading.0@);
            lemma_skip_extras_stop(self.toks@, pos as int);
            if literal_at(self.toks@, pos as int) {
                lemma_literal_end(self.toks@, pos as int);
            }
        }
        let (id, p2) = match self.identifier(p1) {
            Some((id, q)) => {
                let q1 = self.maybe_ws(q);
                if q1 < self.toks.len() && matches!(self.toks[q1].value, Token::OperatorAssignment) {
                    (Some(id), self.maybe_ws(q1 + 1))
                } else {
                    self.restore(save, Ghost(orig));
                    (None, p1)
                }
            },
            None => (None, p1),
        };
        match self.expression(p2) {
            Some((expr, p)) => {
                let (trailing, q) = self.trailing_extras(p);
                proof {
                    lemma_skip_extras(self.toks@, p as int, q as int, trailing.0@);
                }
                let span = self.span_of(pos, q);
                Some((TupleItem { span, extras: ItemExtras { leading, trailing }, id, expr }, q))
            },
            None => {
                self.restore(save, Ghost(orig));
                None
            },
        }
    }

    /// `(a = 1, 2)`.
    fn tuple(&mut self, pos: usize) -> (r: Option<(Expression, usize)>)
        requires
            pos <= old(self).len(),
            old(self).wf(),
        ensures
            final(self).step(*old(self), pos as int, end_of(r)),
            r matches Some((e, q)) ==> q > pos && (e is Tuple) && e.span_spec() == old(self).cover(pos as int, q as int),
            !old(self).at(pos as int, Token::SigilOpenBracket) ==> r is None,
            ({
                let e = literal_end(old(self).toks@, pos + 1);
                old(self).at(pos as int, Token::SigilOpenBracket) && lone_literal_at(old(self).toks@, pos + 1)
                    && old(self).at(e, Token::SigilCloseBracket) ==> (r matches Some((_, q)) && q == e + 1)
            }),
        decreases old(self).len() - pos, 31nat,
    {
        let ghost orig = self.errors@;
        let save = self.errors.len();
        if !(pos < self.toks.len() && matches!(self.toks[pos].value, Token::SigilOpenBracket)) {
            return None;
        }
        let (leading, p1) = self.leading_extras(pos + 1);
        proof {
            lemma_skip_extras(self.toks@, pos + 1, p1 as int, leading.0@);
            lemma_skip_extras_stop(self.toks@, pos + 1);
            if literal_at(self.toks@, pos + 1) {
                lemma_literal_end(self.toks@, pos + 1);
            }
        }
        let p2 = self.maybe_ws(p1);
        let (values, p3) = self.tuple_body(p2);
        let (trailing, p) = self.trailing_extras(p3);
        proof {
            lemma_skip_extras(self.toks@, p3 as int, p as int, trailing.0@);
        }
        if p < self.toks.len() && matches!(self.toks[p].value, Token::SigilCloseBracket) {
            let span = self.span_of(pos, p + 1);
            Some((Expression::Tuple(TupleExpression { span, extras: ItemExtras { leading, trailing }, values }), p + 1))
        } else {
            self.restore(save, Ghost(orig));
            None
        }
    }

    /// An array item: an expression with the comments and whitespace around it.
    fn array_item(&mut self, pos: usize) -> (r: Option<(ArrayItem, usize)>)
        requires
            pos <= old(self).len(),
            old(self).wf(),
        ensures
            final(self).step(*old(self), pos as int, end_of(r)),
            r matches Some((it, q)) ==> q > pos && it.span == old(self).cover(pos as int, q as int),
            literal_at(old(self).toks@, pos as int) ==> r is Some,
            lone_literal_at(old(self).toks@, pos as int) ==> (r matches Some((_, q)) && q == literal_end(old(self).toks@, pos as int)),
        decreases old(self).len() - pos, 52nat,
    {
        let (leading, p1) = self.leading_extras(pos);
        proof {
            lemma_skip_extras(self.toks@, pos as int, p1 as int, leading.0@);
            lemma_skip_extras_stop(self.toks@, pos as int);
            if literal_at(self.toks@, pos as int) {
                lemma_literal_end(self.toks@, pos as int);
            }
        }
        match self.expression(p1) {
            Some((expr, p)) => {
                let (trailing, q) = self.trailing_extras(p);
                proof {
                    lemma_skip_extras(self.toks@, p as int, q as int, trailing.0@);
                }
                let span = self.span_of(pos, q);
                Some((ArrayItem { span, extras: ItemExtras { leading, trailing }, expr }, q))
            },
            None => None,
        }
    }

    /// `[a..b]` (`range`) or `[a, b, c]`, each with an optional unit.
    fn array(&mut self, pos: usize, range: bool) -> (r: Option<(Expression, usize)>)
        requires
            pos <= old(self).len(),
            old(self).wf(),
        ensures
            final(self).step(*old(self), pos as int, end_of(r)),
            r matches Some((e, q)) ==> q > pos && (e is ArrayRange || e is ArrayList) && e.span_spec() == old(self).cover(pos as int, q as int),
            r matches Some((e, _)) ==> (e is ArrayRange) == range,
            !old(self).at(pos as int, Token::SigilOpenSquareBracket) ==> r is None,
            ({
                let e = literal_end(old(self).toks@, pos + 1);
                !range && old(self).at(pos as int, Token::SigilOpenSquareBracket) && lone_literal_at(old(self).toks@, pos + 1)
                    && old(self).at(e, Token::SigilCloseSquareBracket) ==> r is Some
            }),
            ({
                let e1 = literal_end(old(self).toks@, pos + 1);
                let e2 = literal_end(old(self).toks@, e1 + 1);
                range && old(self).at(pos as int, Token::SigilOpenSquareBracket) && lone_literal_at(old(self).toks@, pos + 1)
                    && old(self).at(e1, Token::SigilDoubleDot) && lone_literal_at(old(self).toks@, e1 + 1)
                    && old(self).at(e2, Token::SigilCloseSquareBracket) ==> r is Some
            }),
        decreases old(self).len() - pos, 31nat,
    {
        let ghost orig = self.errors@;
        let save = self.errors.len();
        if !(pos < self.toks.len() && matches!(self.toks[pos].value, Token::SigilOpenSquareBracket)) {
            return None;
        }
        let p0 = self.maybe_ws(pos + 1);
        let (leading, p1) = self.leading_extras(p0);
        proof {
            lemma_skip_extras(self.toks@, p0 as int, p1 as int, leading.0@);
            lemma_skip_extras_stop(self.toks@, pos + 1);
            assert(skip_extras(self.toks@, pos + 1) == p1);
            if literal_at(self.toks@, pos + 1) {
                lemma_literal_end(self.toks@, pos + 1);
                let e1 = literal_end(self.toks@, pos + 1);
                if e1 < self.len() && literal_at(self.toks@, e1 + 1) {
                    lemma_literal_end(self.toks@, e1 + 1);
                }
            }
        }
        if range {
            let (start, p2) = match self.array_item(p1) {
                Some(x) => x,
                None => return None,
            };
            if !(p2 < self.toks.len() && matches!(self.toks[p2].value, Token::SigilDoubleDot)) {
                self.restore(save, Ghost(orig));
                return None;
            }
            let (end, p3) = match self.array_item(p2 + 1) {
                Some(x) => x,
                None => {
                    self.restore(save, Ghost(orig));
                    return None;
                },
            };
            let (trailing, p4) = self.trailing_extras(p3);
            proof {
                lemma_skip_extras(self.toks@, p3 as int, p4 as int, trailing.0@);
            }
            if !(p4 < self.toks.len() && matches!(self.toks[p4].value, Token::SigilCloseSquareBracket)) {
                self.restore(save, Ghost(orig));
                return None;
            }
            let (unit, q) = match self.unit(p4 + 1) {
                Some((u, q)) => (Some(u), q),
                None => (None, p4 + 1),
            };
            let span = self.span_of(pos, q);
            Some((Expression::ArrayRange(ArrayRangeExpression { span, extras: ItemExtras { leading, trailing }, start: Box::new(start), end: Box::new(end), unit }), q))
        } else {
            let mut items: Vec<ArrayItem> = Vec::new();
            let mut p = p1;
            match self.array_item(p1) {
                Some((item, q)) => {
                    items.push(item);
                    p = q;
                    while p < self.toks.len() && matches!(self.toks[p].value, Token::SigilComma)
                        invariant
                            pos < p <= self.len(),
                            self.toks == old(self).toks,
                            self.wf(),
                            extends(orig, self.errors@),
                            lone_literal_at(old(self).toks@, pos + 1) && old(self).at(literal_end(old(self).toks@, pos + 1), Token::SigilCloseSquareBracket)
                                ==> p == literal_end(old(self).toks@, pos + 1),
                        decreases self.len() - p,
                    {
                        let p5 = self.maybe_ws(p + 1);
                        match self.array_item(p5) {
                            Some((item, q)) => {
                                items.push(item);
                                p = q;
                            },
                            None => {
                                p = p5;
                                break;
                            },
                        }
                    }
                },
                None => {},
            }
            let (trailing, p4) = self.trailing_extras(p);
            proof {
                lemma_skip_extras(self.toks@, p as int, p4 as int, trailing.0@);
            }
            if !(p4 < self.toks.len() && matches!(self.toks[p4].value, Token::SigilCloseSquareBracket)) {
                self.restore(save, Ghost(orig));
                return None;
            }
            let (unit, q) = match self.unit(p4 + 1) {
                Some((u, q)) => (Some(u), q),
                None => (None, p4 + 1),
            };
            let span = self.span_of(pos, q);
            Some((Expression::ArrayList(ArrayListExpression { span, extras: ItemExtras { leading, trailing }, items, unit }), q))
        }
    }

    /// `{ statements }`; an unclosed or broken block is skipped to its matching `}`, with an
    /// error.
    #[verifier::rlimit(60)]
    #[verifier::spinoff_prover]
    pub fn body(&mut self, pos: usize) -> (r: Option<(Body, usize)>)
        requires
            pos <= old(self).len(),
            old(self).wf(),
        ensures
            final(self).step(*old(self), pos as int, end_of(r)),
            r matches Some((b, q)) ==> q > pos && b.span == old(self).cover(pos as int, q as int),
            group_end(old(self).toks@, pos as int, 2) is Some ==> r is Some,
            !old(self).at(ws_skip(old(self).toks@, pos as int), Token::SigilOpenCurlyBracket) ==> r is None,
            ({
                let o = ws_skip(old(self).toks@, pos as int);
                let k = skip_extras(old(self).toks@, o + 1);
                let f = skip_extras(old(self).toks@, simple_statement_end(old(self).toks@, k));
                old(self).at(o, Token::SigilOpenCurlyBracket) && simple_statement_at(old(self).toks@, k)
                    && old(self).at(f, Token::SigilCloseCurlyBracket) ==> (r matches Some((b, q)) && q == f + 1
                    && b.statements.statements@.len() == 1 && b.statements.tail is None
                    && simple_statement(old(self).toks@, k, b.statements.statements@[0].0))
                    && final(self).errors@ == old(self).errors@
            }),
            ({
                let o = ws_skip(old(self).toks@, pos as int);
                let k = skip_extras(old(self).toks@, o + 1);
                forall|n: nat| #![trigger flat_run(old(self).toks@, k, n)]
                    old(self).at(o, Token::SigilOpenCurlyBracket) && flat_run(old(self).toks@, k, n)
                    && old(self).at(run_start(old(self).toks@, k, n), Token::SigilCloseCurlyBracket)
                    ==> (r matches Some((b, q)) && q == run_start(old(self).toks@, k, n) + 1
                    && b.statements.statements@.len() == n && b.statements.tail is None
                    && forall|j: int| 0 <= j < n ==> flat_statement(old(self).toks@, run_start(old(self).toks@, k, j as nat),
                        #[trigger] b.statements.statements@[j].0))
                    && final(self).errors@ == old(self).errors@
            }),
            ({
                let o = ws_skip(old(self).toks@, pos as int);
                let k = skip_extras(old(self).toks@, o + 1);
                forall|n: nat| #![trigger plain_run(old(self).toks@, k, n)]
                    old(self).at(o, Token::SigilOpenCurlyBracket) && plain_run(old(self).toks@, k, n)
                    && old(self).at(plain_run_start(old(self).toks@, k, n), Token::SigilCloseCurlyBracket)
                    ==> (r matches Some((b, q)) && q == plain_run_start(old(self).toks@, k, n) + 1
                    && b.statements.statements@.len() == n && b.statements.tail is None
                    && forall|j: int| 0 <= j < n ==> plain_statement(old(self).toks@, plain_run_start(old(self).toks@, k, j as nat),
                        #[trigger] b.statements.statements@[j].0))
                    && final(self).errors@ == old(self).errors@
            }),
        decreases old(self).len() - pos, 31nat,
    {
        let ghost orig = self.errors@;
        let save = self.errors.len();
        let p = self.maybe_ws(pos);
        if p < self.toks.len() && matches!(self.toks[p].value, Token::SigilOpenCurlyBracket) {
            let (statements, q) = self.statement_list(p + 1);
            if q < self.toks.len() && matches!(self.toks[q].value, Token::SigilCloseCurlyBracket) {
                let span = self.span_of(pos, q + 1);
                return Some((Body { span, statements }, q + 1));
            }
            self.restore(save, Ghost(orig));
        }
        match self.ignore_till_matched_curly(pos) {
            Some(q) => {
                self.expected(pos, "code block");
                let span = self.span_of(pos, q);
                let empty = StatementList { span, extras: ItemExtras::empty(), statements: Vec::new(), tail: None };
                Some((Body { span, statements: empty }, q))
            },
            None => None,
        }
    }

    /// `if cond { } else if cond { } else { }`.
    #[verifier::rlimit(60)]
    fn if_expression(&mut self, pos: usize) -> (r: Option<(If, usize)>)
        requires
            pos <= old(self).len(),
            old(self).wf(),
        ensures
            final(self).step(*old(self), pos as int, end_of(r)),
            r matches Some((i, q)) ==> q > pos && i.span == old(self).cover(pos as int, q as int),
            !leads_with(old(self).toks@, pos as int, Token::KeywordIf) ==> r is None,
            ({
                let k = skip_extras(old(self).toks@, pos as int);
                leads_with(old(self).toks@, pos as int, Token::KeywordIf) && k + 1 < old(self).len()
                    && old(self).toks@[k + 1].value is Whitespace && lone_literal_at(old(self).toks@, k + 2)
                    && group_end(old(self).toks@, literal_end(old(self).toks@, k + 2), 2) is Some ==> r is Some
            }),
            ({
                let k = skip_extras(old(self).toks@, pos as int);
                if_at(old(self).toks@, k) ==> (r matches Some((i, q)) && q == if_end(old(self).toks@, k)
                    && plain_if(old(self).toks@, k, i)) && final(self).errors@ == old(self).errors@
            }),
        decreases old(self).len() - pos, 34nat,
    {
        let ghost orig = self.errors@;
        let save = self.errors.len();
        let (leading, p1) = self.leading_extras(pos);
        proof {
            lemma_skip_extras(self.toks@, pos as int, p1 as int, leading.0@);
            if p1 + 2 <= self.len() && literal_at(self.toks@, p1 + 2) {
                lemma_literal_end(self.toks@, p1 + 2);
            }
        }
        if !(p1 < self.toks.len() && matches!(self.toks[p1].value, Token::KeywordIf) && self.ws_at(p1 + 1)) {
            return None;
        }
        let if_span = self.toks[p1].span;
        let (condition, p) = match self.expression(p1 + 2) {
            Some(x) => x,
            None => return None,
        };
        let p = self.maybe_ws(p);
        proof {
            let t = self.toks@;
            if if_at(t, p1 as int) {
                let o = if_brace(t, p1 as int);
                assert(p == o);
                let n = plain_body_len(t, o);
                assert(flat_run(t, skip_extras(t, o + 1), n));
            }
        }
        let (body, p) = match self.body(p) {
            Some(x) => x,
            None => {
                self.restore(save, Ghost(orig));
                return None;
            },
        };
        let mut p = self.maybe_ws(p);
        let mut next_if_span: Option<Span> = None;
        let mut next_if: Option<Box<If>> = None;
        if p < self.toks.len() && matches!(self.toks[p].value, Token::KeywordElse) {
            let ghost before = self.errors@;
            let save2 = self.errors.len();
            let p2 = self.maybe_ws(p + 1);
            match self.if_expression(p2) {
                Some((inner, q)) => {
                    next_if_span = Some(self.toks[p].span);
                    next_if = Some(Box::new(inner));
                    p = q;
                },
                None => {
                    self.restore(save2, Ghost(before));
                },
            }
        }
        let mut else_span: Option<Span> = None;
        let mut else_body: Option<Body> = None;
        if p < self.toks.len() && matches!(self.toks[p].value, Token::KeywordElse) {
            let ghost before = self.errors@;
            let save3 = self.errors.len();
            let p2 = self.maybe_ws(p + 1);
            proof {
                let t = self.toks@;
                if if_at(t, p1 as int) && has_else(t, p1 as int) {
                    let o = else_brace(t, p1 as int);
                    assert(p2 == o);
                    let n = plain_body_len(t, o);
                    assert(flat_run(t, skip_extras(t, o + 1), n));
                }
            }
            match self.body(p2) {
                Some((b, q)) => {
                    else_span = Some(self.toks[p].span);
                    else_body = Some(b);
                    p = q;
                },
                None => {
                    self.restore(save3, Ghost(before));
                },
            }
        }
        let (trailing, q) = self.trailing_extras(p);
        proof {
            lemma_skip_extras(self.toks@, p as int, q as int, trailing.0@);
        }
        let span = self.span_of(pos, q);
        Some((If { span, if_span, extras: ItemExtras { leading, trailing }, condition: Box::new(condition), body, next_if_span, next_if, else_span, else_body }, q))
    }

    /// A call: a name and its arguments in brackets.
    fn call_inner(&mut self, pos: usize) -> (r: Option<(Call, usize)>)
        requires
            pos <= old(self).len(),
            old(self).wf(),
        ensures
            final(self).step(*old(self), pos as int, end_of(r)),
            r matches Some((c, q)) ==> q > pos && c.span == old(self).cover(pos as int, q as int),
            !names_at(old(self).toks@, pos as int) ==> r is None,
            ({
                let k = skip_extras(old(self).toks@, pos as int);
                let a = skip_extras(old(self).toks@, k + 1);
                &&& names_at(old(self).toks@, pos as int) && !old(self).at(k + 1, Token::SigilDoubleColon)
                    && group_end(old(self).toks@, a, 0) is Some ==> r is Some
                &&& names_at(old(self).toks@, pos as int) && !old(self).at(k + 1, Token::SigilDoubleColon)
                    && !old(self).at(a, Token::SigilOpenBracket) ==> r is None
            }),
        decreases old(self).len() - pos, 33nat,
    {
        let ghost orig = self.errors@;
        let save = self.errors.len();
        let (leading, p1) = self.leading_extras(pos);
        proof {
            lemma_skip_extras(self.toks@, pos as int, p1 as int, leading.0@);
            lemma_skip_extras_stop(self.toks@, pos as int);
        }
        let (name, p2) = match self.qualified_name(p1) {
            Some(x) => x,
            None => return None,
        };
        match self.argument_list(p2) {
            Some((arguments, p)) => {
                let (trailing, q) = self.trailing_extras(p);
                let span = self.span_of(pos, q);
                Some((Call { span, extras: ItemExtras { leading, trailing }, name, arguments }, q))
            },
            None => {
                self.restore(save, Ghost(orig));
                None
            },
        }
    }

    /// `(arguments)`; broken arguments are skipped to the matching `)`, with an error.
    fn argument_list(&mut self, pos: usize) -> (r: Option<(ArgumentList, usize)>)
        requires
            pos <= old(self).len(),
            old(self).wf(),
        ensures
            final(self).step(*old(self), pos as int, end_of(r)),
            r matches Some((_, q)) ==> q > pos,
            group_end(old(self).toks@, pos as int, 0) is Some ==> r is Some,
            !old(self).at(pos as int, Token::SigilOpenBracket) ==> r is None,
        decreases old(self).len() - pos, 54nat,
    {
        let ghost orig = self.errors@;
        let save = self.errors.len();
        if pos < self.toks.len() && matches!(self.toks[pos].value, Token::SigilOpenBracket) {
            let (leading, p1) = self.leading_extras(pos + 1);
            let (items, p2) = self.tuple_body(p1);
            let (trailing, p3) = self.trailing_extras(p2);
            if p3 < self.toks.len() && matches!(self.toks[p3].value, Token::SigilCloseBracket) {
                let span = self.span_of(pos + 1, p3);
                let mut arguments: Vec<Argument> = Vec::new();
                let mut items = items;
                while items.len() > 0
                    invariant
                        true,
                    decreases items.len(),
                {
                    let item = items.remove(0);
                    let arg = match item.id {
                        Some(id) => Argument::Named(NamedArgument { span: item.span, extras: item.extras, id, expr: item.expr }),
                        None => Argument::Unnamed(UnnamedArgument { span: item.span, extras: item.extras, expr: item.expr }),
                    };
                    arguments.push(arg);
                }
                return Some((ArgumentList { span, extras: ItemExtras { leading, trailing }, arguments }, p3 + 1));
            }
            self.restore(save, Ghost(orig));
        }
        match self.ignore_till_matched_brackets(pos) {
            Some(q) => {
                self.expected(pos, "function arguments");
                let span = self.span_of(pos, q);
                Some((ArgumentList { span, extras: ItemExtras::empty(), arguments: Vec::new() }, q))
            },
            None => None,
        }
    }

    /// A string with format expressions: `"a {b:05.2} c"`.
    fn string_format(&mut self, pos: usize) -> (r: Option<(FormatString, usize)>)
        requires
            pos <= old(self).len(),
            old(self).wf(),
        ensures
            final(self).step(*old(self), pos as int, end_of(r)),
            r matches Some((s, q)) ==> q > pos && s.span == old(self).cover(pos as int, q as int),
            ({
                let k = skip_extras(old(self).toks@, pos as int);
                &&& !old(self).at(k, Token::FormatStringStart) ==> r is None
                &&& old(self).at(k, Token::FormatStringStart) && old(self).at(k + 1, Token::FormatStringEnd)
                    ==> (r matches Some((f, _)) && f.parts@.len() == 0)
            }),
        decreases old(self).len() - pos, 34nat,
    {
        let ghost orig = self.errors@;
        let save = self.errors.len();
        let (leading, p1) = self.leading_extras(pos);
        proof {
            lemma_skip_extras(self.toks@, pos as int, p1 as int, leading.0@);
        }
        if !(p1 < self.toks.len() && matches!(self.toks[p1].value, Token::FormatStringStart)) {
            return None;
        }
        let mut parts: Vec<StringPart> = Vec::new();
        let mut p = p1 + 1;
        while p < self.toks.len()
            invariant
                pos < p <= self.len(),
                self.toks == old(self).toks,
                self.wf(),
                extends(orig, self.errors@),
                p1 + 1 <= p,
                old(self).at(p1 as int + 1, Token::FormatStringEnd) ==> p == p1 + 1 && parts@.len() == 0,
            decreases self.len() - p,
        {
            match self.string_part(p) {
                Some((part, q)) => {
                    parts.push(part);
                    p = q;
                },
                None => break,
            }
        }
        if !(p < self.toks.len() && matches!(self.toks[p].value, Token::FormatStringEnd)) {
            self.restore(save, Ghost(orig));
            return None;
        }
        let (trailing, q) = self.trailing_extras(p + 1);
        let span = self.span_of(pos, q);
        Some((FormatString { span, extras: ItemExtras { leading, trailing }, parts }, q))
    }

    /// A part of a format string: content, an escaped character or `{expr:spec}`.
    fn string_part(&mut self, pos: usize) -> (r: Option<(StringPart, usize)>)
        requires
            pos <= old(self).len(),
            old(self).wf(),
        ensures
            final(self).step(*old(self), pos as int, end_of(r)),
            r matches Some((_, q)) ==> q > pos,
            pos < old(self).len() && old(self).toks@[pos as int].value is StringContent ==> (r matches Some((part, q))
                && q == pos + 1 && (part matches StringPart::Content(c) && c.content == old(self).toks@[pos as int].value->StringContent_0)),
            pos < old(self).len() && old(self).toks@[pos as int].value is Character ==> (r matches Some((part, q))
                && q == pos + 1 && (part matches StringPart::Char(c) && c.character == old(self).toks@[pos as int].value->Character_0)),
            !(pos < old(self).len() && (old(self).toks@[pos as int].value is StringContent || old(self).toks@[pos as int].value is Character
                || old(self).toks@[pos as int].value is StringFormatOpen)) ==> r is None,
        decreases old(self).len() - pos, 35nat,
    {
        let ghost orig = self.errors@;
        let save = self.errors.len();
        if pos >= self.toks.len() {
            return None;
        }
        let span = self.toks[pos].span;
        match &self.toks[pos].value {
            Token::StringContent(c) => return Some((StringPart::Content(StringLiteral { span, content: c.clone() }), pos + 1)),
            Token::Character(c) => return Some((StringPart::Char(StringCharacter { span, character: *c }), pos + 1)),
            Token::StringFormatOpen => {},
            _ => return None,
        }
        let (leading, p1) = self.leading_extras(pos + 1);
        let (expr, p2) = match self.expression(p1) {
            Some(x) => x,
            None => return None,
        };
        let (specification, p3) = self.format_spec(p2);
        let (trailing, p4) = self.trailing_extras(p3);
        if p4 < self.toks.len() && matches!(self.toks[p4].value, Token::StringFormatClose) {
            let span = self.span_of(pos, p4 + 1);
            Some((StringPart::Expression(StringExpression { span, extras: ItemExtras { leading, trailing }, expr: Box::new(expr), specification: Box::new(specification) }), p4 + 1))
        } else {
            self.restore(save, Ghost(orig));
            None
        }
    }

    /// Width and precision of a format expression, each optional.
    fn format_spec(&self, pos: usize) -> (r: (StringFormatSpecification, usize))
        requires
            pos <= self.len(),
            self.wf(),
        ensures
            pos <= r.1 <= self.len(),
            r.0.span == self.cover(pos as int, r.1 as int),
    {
        let mut p = pos;
        let mut width: Option<Result<u32, (IntErrorKind, Span)>> = None;
        let mut precision: Option<Result<u32, (IntErrorKind, Span)>> = None;
        if p < self.toks.len() {
            match &self.toks[p].value {
                Token::StringFormatWidth(w) => {
                    assert(format_token_ok(self.toks@[p as int].value));
                    width = Some(match parse_u32_after_first(w.as_str()) {
                        Ok(v) => Ok(v),
                        Err(e) => Err((e, self.toks[p].span)),
                    });
                    p = p + 1;
                },
                _ => {},
            }
        }
        if p < self.toks.len() {
            match &self.toks[p].value {
                Token::StringFormatPrecision(w) => {
                    assert(format_token_ok(self.toks@[p as int].value));
                    precision = Some(match parse_u32_after_first(w.as_str()) {
                        Ok(v) => Ok(v),
                        Err(e) => Err((e, self.toks[p].span)),
                    });
                    p = p + 1;
                },
                _ => {},
            }
        }
        let span = self.span_of(pos, p);
        (StringFormatSpecification { span, precision, width }, p)
    }

    /// `(parameters)`; a broken list is skipped, to the matching `)` or to the next bracket
    /// or `;`, with an error.
    fn parameter_list(&mut self, pos: usize) -> (r: (ParameterList, usize))
        requires
            pos <= old(self).len(),
            old(self).wf(),
        ensures
            final(self).step(*old(self), pos as int, Some(r.1 as int)),
            ({
                let c = skip_extras(old(self).toks@, pos + 1);
                old(self).at(pos as int, Token::SigilOpenBracket) && old(self).at(c, Token::SigilCloseBracket)
                    ==> r.1 == c + 1 && r.0.parameters@.len() == 0 && final(self).errors@ == old(self).errors@
            }),
        decreases old(self).len() - pos, 29nat,
    {
        let ghost orig = self.errors@;
        let save = self.errors.len();
        if pos < self.toks.len() && matches!(self.toks[pos].value, Token::SigilOpenBracket) {
            let (leading, p1) = self.leading_extras(pos + 1);
            proof {
                lemma_skip_extras(self.toks@, pos + 1, p1 as int, leading.0@);
                lemma_skip_extras_stop(self.toks@, pos + 1);
            }
            let mut parameters: Vec<Parameter> = Vec::new();
            let mut p = p1;
            match self.parameter(p1) {
                Some((prm, q)) => {
                    parameters.push(prm);
                    p = q;
                    while p < self.toks.len() && matches!(self.toks[p].value, Token::SigilComma)
                        invariant
                            pos < p <= self.len(),
                            self.toks == old(self).toks,
                            self.wf(),
                            extends(orig, self.errors@),
                        decreases self.len() - p,
                    {
                        match self.parameter(p + 1) {
                            Some((prm, q)) => {
                                parameters.push(prm);
                                p = q;
                            },
                            None => {
                                p = p + 1;
                                break;
                            },
                        }
                    }
                },
                None => {},
            }
            let p2 = self.maybe_ws(p);
            let (trailing, p3) = self.trailing_extras(p2);
            proof {
                lemma_skip_extras(self.toks@, p2 as int, p3 as int, trailing.0@);
            }
            if p3 < self.toks.len() && matches!(self.toks[p3].value, Token::SigilCloseBracket) {
                let span = self.span_of(pos + 1, p3);
                return (ParameterList { span, extras: ItemExtras { leading, trailing }, parameters }, p3 + 1);
            }
            self.restore(save, Ghost(orig));
        }
        let q = match self.ignore_till_matched_brackets(pos) {
            Some(q) => q,
            None => self.skip_to_structural(pos),
        };
        self.expected(pos, "function parameters");
        let span = self.span_of(pos, q);
        (ParameterList { span, extras: ItemExtras::empty(), parameters: Vec::new() }, q)
    }

    /// A parameter: `name: T = default`, with doc block and attributes.
    fn parameter(&mut self, pos: usize) -> (r: Option<(Parameter, usize)>)
        requires
            pos <= old(self).len(),
            old(self).wf(),
        ensures
            final(self).step(*old(self), pos as int, end_of(r)),
            r matches Some((prm, q)) ==> q > pos && prm.span == old(self).cover(pos as int, q as int),
            ({
                let k = skip_extras(old(self).toks@, pos as int);
                let a = ws_skip(old(self).toks@, k + 1);
                k < old(self).len() && identifier_name(old(self).toks@[k].value) is Some
                    && !old(self).at(a, Token::SigilColon) && !old(self).at(a, Token::OperatorAssignment) ==> (r matches Some((prm, _))
                    && prm.id.name@ == identifier_name(old(self).toks@[k].value)->0 && prm.ty is None && prm.default is None)
            }),
            old(self).at(skip_extras(old(self).toks@, pos as int), Token::SigilCloseBracket) ==> r is None,
        decreases old(self).len() - pos, 28nat,
    {
        let ghost orig = self.errors@;
        let save = self.errors.len();
        let (leading, p0) = self.leading_extras(pos);
        proof {
            lemma_skip_extras(self.toks@, pos as int, p0 as int, leading.0@);
            lemma_skip_extras_stop(self.toks@, pos as int);
        }
        let p1 = self.maybe_ws(p0);
        let (doc, p2) = self.doc_block(p1);
        let (attr, p3) = self.outer_attributes(p2);
        let (id, p) = match self.identifier(p3) {
            Some(x) => x,
            None => {
                self.restore(save, Ghost(orig));
                return None;
            },
        };
        let mut p = self.maybe_ws(p);
        let mut ty: Option<Type> = None;
        if p < self.toks.len() && matches!(self.toks[p].value, Token::SigilColon) {
            let p4 = self.maybe_ws(p + 1);
            let (t, p5) = match self.type_(p4) {
                Some(x) => x,
                None => match self.recovery_expect_any_except(p4, false, false, 2) {
                    Some(q) => {
                        self.expected(p4, "type");
                        let span = self.span_of(p4, q);
                        (Type::Single(SingleType { span, name: String::new() }), q)
                    },
                    None => {
                        self.restore(save, Ghost(orig));
                        return None;
                    },
                },
            };
            ty = Some(t);
            p = self.maybe_ws(p5);
        }
        let mut default: Option<Expression> = None;
        if p < self.toks.len() && matches!(self.toks[p].value, Token::OperatorAssignment) {
            let p4 = self.maybe_ws(p + 1);
            let (e, p5) = match self.expression(p4) {
                Some(x) => x,
                None => match self.recovery_expect_any_except(p4, false, false, 3) {
                    Some(q) => {
                        self.expected(p4, "expression");
                        let span = self.span_of(p4, q);
                        (Expression::Error(span), q)
                    },
                    None => {
                        self.restore(save, Ghost(orig));
                        return None;
                    },
                },
            };
            default = Some(e);
            p = self.maybe_ws(p5);
        }
        let (trailing, q) = self.trailing_extras(p);
        let span = self.span_of(pos, q);
        Some((Parameter { span, extras: ItemExtras { leading, trailing }, doc, attr, id, ty, default }, q))
    }
}

/// How many `{` among the first `n` tokens are still open after them: each `}` closes
/// the last one still open, if any.
pub open spec fn open_braces(toks: Seq<SpannedToken>, n: int) -> int
    decreases n,
{
    if n <= 0 {
        0
    } else {
        let d = open_braces(toks, n - 1);
        match toks[n - 1].value {
            Token::SigilOpenCurlyBracket => d + 1,
            Token::SigilCloseCurlyBracket => if d > 0 { d - 1 } else { 0 },
            _ => d,
        }
    }
}

/// No `{` and no `}` stands among the tokens `a..b`.
pub open spec fn brace_free(toks: Seq<SpannedToken>, a: int, b: int) -> bool {
    forall|i: int| a <= i < b ==> !(#[trigger] toks[i].value is SigilOpenCurlyBracket) && !(toks[i].value is SigilCloseCurlyBracket)
}

/// Comments and whitespace hold no brace.
proof fn lemma_skip_brace_free(toks: Seq<SpannedToken>, pos: int)
    requires
        0 <= pos,
    ensures
        brace_free(toks, pos, skip_extras(toks, pos)),
    decreases toks.len() - pos,
{
    if 0 <= pos < toks.len() && extra_of(toks[pos]) is Some {
        lemma_skip_brace_free(toks, pos + 1);
    }
}

/// A literal, with its unit and the comments and whitespace around it, holds no `{`.
proof fn lemma_literal_brace_free(toks: Seq<SpannedToken>, pos: int)
    requires
        0 <= pos <= toks.len(),
        literal_at(toks, pos),
    ensures
        brace_free(toks, pos, literal_end(toks, pos)),
        pos < literal_end(toks, pos),
{
    let p1 = skip_extras(toks, pos);
    let p2 = if p1 + 1 < toks.len() && unit_name(toks[p1 + 1].value) is Some { p1 + 2 } else { p1 + 1 };
    lemma_skip_brace_free(toks, pos);
    lemma_skip_brace_free(toks, p2);
    lemma_skip_extras_stop(toks, pos);
    lemma_skip_extras_stop(toks, p2);
    assert forall|i: int| pos <= i < literal_end(toks, pos) implies !(#[trigger] toks[i].value is SigilOpenCurlyBracket) && !(toks[i].value is SigilCloseCurlyBracket) by {
        if i < p1 {
        } else if i < p2 {
        } else {
        }
    }
}

/// A plain statement holds no `{`.
proof fn lemma_statement_brace_free(toks: Seq<SpannedToken>, x: int)
    requires
        0 <= x,
        skip_extras(toks, x) == x,
        simple_statement_at(toks, x),
    ensures
        brace_free(toks, x, simple_statement_end(toks, x)),
{
    let e = simple_statement_end(toks, x);
    if chain_statement_at(toks, x) {
        let b = next_operand(toks, x);
        let c = next_operand(toks, b);
        lemma_literal_brace_free(toks, x);
        lemma_literal_end(toks, x);
        lemma_literal_brace_free(toks, b);
        lemma_literal_end(toks, b);
        lemma_literal_brace_free(toks, c);
        lemma_literal_end(toks, c);
        assert forall|i: int| x <= i < e implies !(#[trigger] toks[i].value is SigilOpenCurlyBracket) && !(toks[i].value is SigilCloseCurlyBracket) by {
            if i < literal_end(toks, x) {
            } else if i < b {
            } else if i < literal_end(toks, b) {
            } else if i < c {
            } else if i < literal_end(toks, c) {
            } else {
            }
        }
    } else {
        let v = pub_constant_value(toks, x);
        lemma_literal_brace_free(toks, v);
        lemma_literal_end(toks, v);
        assert forall|i: int| x <= i < e implies !(#[trigger] toks[i].value is SigilOpenCurlyBracket) && !(toks[i].value is SigilCloseCurlyBracket) by {
            if i < v {
            } else if i < literal_end(toks, v) {
            } else {
            }
        }
    }
}

/// A run of plain statements, with the comments and whitespace between them, holds no `{`.
proof fn lemma_run_brace_free(toks: Seq<SpannedToken>, k: int, j: nat)
    requires
        0 <= k <= toks.len(),
        skip_extras(toks, k) == k,
        flat_run(toks, k, j),
    ensures
        brace_free(toks, k, run_start(toks, k, j)),
    decreases j,
{
    if j > 0 {
        let i = (j - 1) as nat;
        assert(flat_run(toks, k, i)) by {
            assert forall|m: nat| m < i implies flat_statement_at(toks, #[trigger] run_start(toks, k, m)) by {
                assert(flat_statement_at(toks, run_start(toks, k, m)));
            }
        }
        lemma_run_brace_free(toks, k, i);
        lemma_run_starts(toks, k, i);
        let x = run_start(toks, k, i);
        assert(flat_statement_at(toks, x));
        lemma_flat_end(toks, x);
                lemma_skip_brace_free(toks, flat_statement_end(toks, x));
        let e = flat_statement_end(toks, x);
        assert forall|m: int| k <= m < run_start(toks, k, j) implies !(#[trigger] toks[m].value is SigilOpenCurlyBracket) && !(toks[m].value is SigilCloseCurlyBracket) by {
            if m < x {
            } else if m < e {
            } else {
            }
        }
    }
}

/// The number of open `{` is never negative.
proof fn lemma_open_braces_nonneg(toks: Seq<SpannedToken>, n: int)
    ensures
        open_braces(toks, n) >= 0,
    decreases n,
{
    if n > 0 {
        lemma_open_braces_nonneg(toks, n - 1);
    }
}

/// Tokens without braces leave the number of open `{` as it was.
proof fn lemma_open_braces_free(toks: Seq<SpannedToken>, a: int, b: int)
    requires
        0 <= a <= b <= toks.len(),
        brace_free(toks, a, b),
    ensures
        open_braces(toks, b) == open_braces(toks, a),
    decreases b - a,
{
    if a < b {
        lemma_open_braces_free(toks, a, b - 1);
        assert(!(toks[b - 1].value is SigilOpenCurlyBracket) && !(toks[b - 1].value is SigilCloseCurlyBracket));
    }
}

/// A plain definition closes the `{` it opens.
#[verifier::rlimit(30)]
proof fn lemma_def_braces(toks: Seq<SpannedToken>, x: int)
    requires
        def_at(toks, x),
    ensures
        open_braces(toks, def_end(toks, x)) == open_braces(toks, x),
{
    let o = def_brace(toks, x);
    let k2 = skip_extras(toks, o + 1);
    let n = plain_body_len(toks, o);
    let rs = run_start(toks, k2, n);
    lemma_def_end(toks, x);
    assert(flat_run(toks, k2, n));
    lemma_skip_extras_stop(toks, o + 1);
    lemma_run_starts(toks, k2, n);
    let b = ws_skip(toks, x + 3);
    lemma_skip_brace_free(toks, b + 1);
    lemma_skip_extras_stop(toks, b + 1);
    assert(brace_free(toks, x, o)) by {
        assert forall|i: int| x <= i < o implies !(#[trigger] toks[i].value is SigilOpenCurlyBracket)
            && !(toks[i].value is SigilCloseCurlyBracket) by {
            if i <= x + 2 || i < b {
            } else if i == b {
            } else if i < skip_extras(toks, b + 1) {
            } else {
            }
        }
    }
    lemma_open_braces_free(toks, x, o);
    lemma_skip_brace_free(toks, o + 1);
    lemma_open_braces_free(toks, o + 1, k2);
    lemma_run_brace_free(toks, k2, n);
    lemma_open_braces_free(toks, k2, rs);
    lemma_skip_brace_free(toks, rs + 1);
    lemma_skip_extras_stop(toks, rs + 1);
    lemma_open_braces_free(toks, rs + 1, def_end(toks, x));
    lemma_open_braces_nonneg(toks, o);
    assert(open_braces(toks, o + 1) == open_braces(toks, o) + 1);
    assert(toks[rs].value is SigilCloseCurlyBracket);
    assert(open_braces(toks, rs + 1) == open_braces(toks, rs) - 1);
}

/// A run of plain statements and definitions leaves the number of open `{` as it was.
proof fn lemma_plain_run_braces(toks: Seq<SpannedToken>, k: int, j: nat)
    requires
        0 <= k <= toks.len(),
        skip_extras(toks, k) == k,
        plain_run(toks, k, j),
    ensures
        open_braces(toks, plain_run_start(toks, k, j)) == open_braces(toks, k),
    decreases j,
{
    if j > 0 {
        let i = (j - 1) as nat;
        assert(plain_run(toks, k, i)) by {
            assert forall|m: nat| m < i implies plain_statement_at(toks, #[trigger] plain_run_start(toks, k, m)) by {
                assert(plain_statement_at(toks, plain_run_start(toks, k, m)));
            }
        }
        lemma_plain_run_braces(toks, k, i);
        lemma_plain_run_starts(toks, k, i);
        let x = plain_run_start(toks, k, i);
        assert(plain_statement_at(toks, x));
        lemma_plain_end(toks, x);
        let e = plain_statement_end(toks, x);
        if flat_statement_at(toks, x) {
            lemma_flat_end(toks, x);
            lemma_open_braces_free(toks, x, e);
        } else if def_at(toks, x) {
            lemma_def_braces(toks, x);
        } else {
            lemma_if_end(toks, x);
        }
        lemma_skip_brace_free(toks, e);
        lemma_open_braces_free(toks, e, skip_extras(toks, e));
    }
}

/// A definition whose body holds plain definitions ends after it starts, within the input,
/// and closes the `{` it opens.
#[verifier::rlimit(30)]
proof fn lemma_nested_def_end(toks: Seq<SpannedToken>, x: int)
    requires
        nested_def_at(toks, x),
    ensures
        x < nested_def_end(toks, x) <= toks.len(),
        skip_extras(toks, nested_def_end(toks, x)) == nested_def_end(toks, x),
        nested_def_end(toks, x) < toks.len() ==> extra_of(toks[nested_def_end(toks, x)]) is None,
        open_braces(toks, nested_def_end(toks, x)) == open_braces(toks, x),
{
    let o = def_brace(toks, x);
    let k2 = skip_extras(toks, o + 1);
    let n = deep_body_len(toks, o);
    let rs = plain_run_start(toks, k2, n);
    assert(plain_run(toks, k2, n));
    lemma_skip_extras_stop(toks, o + 1);
    lemma_plain_run_starts(toks, k2, n);
    lemma_skip_extras_stop(toks, rs + 1);
    let b = ws_skip(toks, x + 3);
    lemma_skip_brace_free(toks, b + 1);
    lemma_skip_extras_stop(toks, b + 1);
    assert(brace_free(toks, x, o)) by {
        assert forall|i: int| x <= i < o implies !(#[trigger] toks[i].value is SigilOpenCurlyBracket)
            && !(toks[i].value is SigilCloseCurlyBracket) by {
            if i <= x + 2 || i < b {
            } else if i == b {
            } else if i < skip_extras(toks, b + 1) {
            } else {
            }
        }
    }
    lemma_open_braces_free(toks, x, o);
    lemma_skip_brace_free(toks, o + 1);
    lemma_open_braces_free(toks, o + 1, k2);
    lemma_plain_run_braces(toks, k2, n);
    lemma_skip_brace_free(toks, rs + 1);
    lemma_open_braces_free(toks, rs + 1, nested_def_end(toks, x));
    lemma_open_braces_nonneg(toks, o);
    assert(open_braces(toks, o + 1) == open_braces(toks, o) + 1);
    assert(toks[rs].value is SigilCloseCurlyBracket);
    assert(open_braces(toks, rs + 1) == open_braces(toks, rs) - 1);
}

/// A statement of a program: a plain statement, definition or `if`, or a definition whose
/// body holds plain definitions.
pub open spec fn program_statement_at(toks: Seq<SpannedToken>, k: int) -> bool {
    plain_statement_at(toks, k) || nested_def_at(toks, k)
}

/// Where the statement of a program at `k` ends.
pub open spec fn program_statement_end(toks: Seq<SpannedToken>, k: int) -> int {
    if plain_statement_at(toks, k) { plain_statement_end(toks, k) } else { nested_def_end(toks, k) }
}

/// Is `st` the statement of a program at `k`.
pub open spec fn program_statement(toks: Seq<SpannedToken>, k: int, st: Statement) -> bool {
    if plain_statement_at(toks, k) { plain_statement(toks, k, st) } else { nested_def(toks, k, st) }
}

/// Where the `j`-th of statements of a program written one after another from `k` on
/// starts.
pub open spec fn program_run_start(toks: Seq<SpannedToken>, k: int, j: nat) -> int
    decreases j,
{
    if j == 0 {
        k
    } else {
        skip_extras(toks, program_statement_end(toks, program_run_start(toks, k, (j - 1) as nat)))
    }
}

/// Are `n` statements of a program written one after another from `k` on.
pub open spec fn program_run(toks: Seq<SpannedToken>, k: int, n: nat) -> bool {
    forall|j: nat| j < n ==> program_statement_at(toks, #[trigger] program_run_start(toks, k, j))
}

/// A statement of a program ends after it starts, within the input, leaves the number of
/// open `{` as it was, and a statement list does not stop where it starts.
proof fn lemma_program_end(toks: Seq<SpannedToken>, x: int)
    requires
        0 <= x,
        skip_extras(toks, x) == x,
        program_statement_at(toks, x),
    ensures
        x < program_statement_end(toks, x) <= skip_extras(toks, program_statement_end(toks, x)) <= toks.len(),
        skip_extras(toks, skip_extras(toks, program_statement_end(toks, x))) == skip_extras(toks, program_statement_end(toks, x)),
        skip_extras(toks, program_statement_end(toks, x)) < toks.len()
            ==> extra_of(toks[skip_extras(toks, program_statement_end(toks, x))]) is None,
        open_braces(toks, skip_extras(toks, program_statement_end(toks, x))) == open_braces(toks, x),
        !list_stops_at(toks, x),
{
    if plain_statement_at(toks, x) {
        lemma_plain_end(toks, x);
        let e = plain_statement_end(toks, x);
        if flat_statement_at(toks, x) {
            lemma_flat_end(toks, x);
            lemma_open_braces_free(toks, x, e);
        } else if def_at(toks, x) {
            lemma_def_braces(toks, x);
        } else {
            lemma_if_end(toks, x);
        }
        lemma_skip_brace_free(toks, e);
        lemma_open_braces_free(toks, e, skip_extras(toks, e));
    } else {
        lemma_nested_def_end(toks, x);
        assert(identifier_name(toks[x].value) is Some);
    }
}

/// The starts of a run of statements of a program lie in the input, each a token that is
/// no comment or whitespace, or the end, and the number of open `{` there is as at the
/// start of the run.
proof fn lemma_program_run_starts(toks: Seq<SpannedToken>, k: int, j: nat)
    requires
        0 <= k <= toks.len(),
        skip_extras(toks, k) == k,
        program_run(toks, k, j),
    ensures
        k <= program_run_start(toks, k, j) <= toks.len(),
        skip_extras(toks, program_run_start(toks, k, j)) == program_run_start(toks, k, j),
        program_run_start(toks, k, j) < toks.len() ==> extra_of(toks[program_run_start(toks, k, j)]) is None,
        open_braces(toks, program_run_start(toks, k, j)) == open_braces(toks, k),
    decreases j,
{
    if j == 0 {
        lemma_skip_extras_stop(toks, k);
    } else {
        let i = (j - 1) as nat;
        assert(program_run(toks, k, i)) by {
            assert forall|m: nat| m < i implies program_statement_at(toks, #[trigger] program_run_start(toks, k, m)) by {
                assert(program_statement_at(toks, program_run_start(toks, k, m)));
            }
        }
        lemma_program_run_starts(toks, k, i);
        assert(program_statement_at(toks, program_run_start(toks, k, i)));
        lemma_program_end(toks, program_run_start(toks, k, i));
    }
}

/// A run of statements of a program after which a statement list stops has one length only.
proof fn lemma_program_run_unique(toks: Seq<SpannedToken>, k: int, n1: nat, n2: nat)
    requires
        0 <= k <= toks.len(),
        skip_extras(toks, k) == k,
        program_run(toks, k, n1),
        list_stops_at(toks, program_run_start(toks, k, n1)),
        program_run(toks, k, n2),
        list_stops_at(toks, program_run_start(toks, k, n2)),
    ensures
        n1 == n2,
{
    if n1 < n2 {
        lemma_program_run_starts(toks, k, n1);
        assert(program_statement_at(toks, program_run_start(toks, k, n1)));
        lemma_program_end(toks, program_run_start(toks, k, n1));
    } else if n2 < n1 {
        lemma_program_run_starts(toks, k, n2);
        assert(program_statement_at(toks, program_run_start(toks, k, n2)));
        lemma_program_end(toks, program_run_start(toks, k, n2));
    }
}

/// Is every `{` of the tokens closed by a later `}`.
fn braces_closed(tokens: &Vec<SpannedToken>) -> (b: bool)
    ensures
        b == (open_braces(tokens@, tokens@.len() as int) == 0),
{
    let mut depth: usize = 0;
    let mut i: usize = 0;
    while i < tokens.len()
        invariant
            i <= tokens@.len(),
            depth == open_braces(tokens@, i as int),
            depth <= i,
        decreases tokens@.len() - i,
    {
        match tokens[i].value {
            Token::SigilOpenCurlyBracket => depth = depth + 1,
            Token::SigilCloseCurlyBracket => if depth > 0 {
                depth = depth - 1;
            },
            _ => {},
        }
        i = i + 1;
    }
    depth == 0
}

/// Parses a µcad program from its tokens: statements, one after another, up to the end of
/// input.
///
/// The program is returned if no error was found; otherwise the errors are. Statements that
/// stop short of the end, and a `{` that is never closed, are errors. A program written as
/// plain statements, local assignments, use and return statements, `if`s, functions,
/// workbenches and modules (see `program_statement_at`) is returned, each statement as
/// that form gives it.
pub fn parse(tokens: &Vec<SpannedToken>) -> (r: Result<Program, Vec<ParseError>>)
    requires
        tokens_wf(tokens@),
    ensures
        r matches Ok(p) ==> p.span == cover_spec(tokens@, 0, tokens@.len() as int),
        r matches Err(e) ==> e@.len() > 0,
        r matches Ok(p) ==> exists|m: int| #![trigger tiled(tokens@, p.statements.statements@, skip_extras(tokens@, 0), m)]
            tiled(tokens@, p.statements.statements@, skip_extras(tokens@, 0), m)
            && (p.statements.tail is None ==> m == tokens@.len())
            && (p.statements.tail matches Some(ts) ==> ts.span == cover_spec(tokens@, m, tokens@.len() as int)),
        r is Ok ==> open_braces(tokens@, tokens@.len() as int) == 0,
        forall|n: nat| #![trigger program_run(tokens@, skip_extras(tokens@, 0), n)]
            program_run(tokens@, skip_extras(tokens@, 0), n) && program_run_start(tokens@, skip_extras(tokens@, 0), n) == tokens@.len()
            ==> (r matches Ok(p) && p.statements.statements@.len() == n && p.statements.tail is None
            && forall|j: int| 0 <= j < n ==> program_statement(tokens@, program_run_start(tokens@, skip_extras(tokens@, 0), j as nat),
                #[trigger] p.statements.statements@[j].0)),
        r matches Ok(p) ==> forall|i: int| 0 <= i < p.statements.statements@.len()
            ==> !(#[trigger] p.statements.statements@[i].0 is Error),
{
    let mut parser = Parser::new(tokens);
    assert(parser.wf());
    proof {
        let k = skip_extras(tokens@, 0);
        lemma_skip_extras_stop(tokens@, 0);
        lemma_skip_brace_free(tokens@, 0);
        lemma_open_braces_free(tokens@, 0, k);
        assert forall|n: nat| program_run(tokens@, k, n) && program_run_start(tokens@, k, n) == tokens@.len()
            implies open_braces(tokens@, tokens@.len() as int) == 0 by {
            lemma_program_run_starts(tokens@, k, n);
        }
    }
    let (statements, q) = parser.statement_list(0);
    if q < tokens.len() {
        parser.expected(q, "end of input");
    }
    if parser.errors.len() == 0 && !braces_closed(tokens) {
        parser.expected(tokens.len(), "'}'");
    }
    if parser.errors.len() == 0 {
        let span = parser.span_of(0, tokens.len());
        Ok(Program { span, statements })
    } else {
        Err(parser.errors)
    }
}

} // verus!
