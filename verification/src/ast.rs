//! Abstract syntax tree of µcad source code.

use vstd::prelude::*;

use crate::span::{Span, Spanned};

verus! {

/// A µcad identifier.
#[derive(Debug, PartialEq)]
pub struct Identifier {
    /// Source span.
    pub span: Span,
    /// The name.
    pub name: String,
}

/// Whitespace.
#[derive(Debug, PartialEq)]
pub struct Whitespace(pub String);

/// The content of a comment.
#[derive(Debug, PartialEq)]
pub enum CommentInner {
    /// A comment starting with `//`.
    SingleLine(String),
    /// A comment embraced with `/* ... */`.
    MultiLine(String),
}

/// A single- or multi-line comment.
#[derive(Debug, PartialEq)]
pub struct Comment {
    /// Source span.
    pub span: Span,
    /// Content.
    pub inner: CommentInner,
}

/// A non-syntactic element: a comment or whitespace.
#[derive(Debug, PartialEq)]
pub enum ItemExtra {
    /// A comment.
    Comment(Comment),
    /// Whitespace.
    Whitespace(Whitespace),
}

/// Extras that occur before a syntax element.
#[derive(Debug, PartialEq)]
pub struct LeadingExtras(pub Vec<ItemExtra>);

/// Extras that occur after a syntax element.
#[derive(Debug, PartialEq)]
pub struct TrailingExtras(pub Vec<ItemExtra>);

/// Non-syntactic extras that can be attached to many nodes.
#[derive(Debug, PartialEq)]
pub struct ItemExtras {
    /// Extras before the node.
    pub leading: LeadingExtras,
    /// Extras after the node.
    pub trailing: TrailingExtras,
}

impl ItemExtras {
    /// No extras.
    pub fn empty() -> (e: ItemExtras)
        ensures
            e.leading.0@.len() == 0,
            e.trailing.0@.len() == 0,
    {
        ItemExtras { leading: LeadingExtras(Vec::new()), trailing: TrailingExtras(Vec::new()) }
    }
}

/// Lines of a doc block, including the `///` prefix.
#[derive(Debug, PartialEq)]
pub struct DocBlock {
    /// Source span.
    pub span: Span,
    /// The lines.
    pub lines: Vec<String>,
}

/// A visibility modifier.
#[derive(Debug, Clone, Copy, PartialEq, Eq, Structural)]
pub enum Visibility {
    /// `pub`
    Public,
}

/// A µcad unit: `mm`, `°`, `"`.
#[derive(Debug, PartialEq)]
pub struct Unit {
    /// Source span.
    pub span: Span,
    /// Unit name.
    pub name: String,
}

/// A type for a single value.
#[derive(Debug, PartialEq)]
pub struct SingleType {
    /// Source span.
    pub span: Span,
    /// Type name.
    pub name: String,
}

/// An array type `[T]`.
#[derive(Debug, PartialEq)]
pub struct ArrayType {
    /// Source span.
    pub span: Span,
    /// Element type.
    pub inner: Box<Type>,
}

/// A tuple type `(a: T, U)`.
#[derive(Debug, PartialEq)]
pub struct TupleType {
    /// Source span.
    pub span: Span,
    /// Items, optionally named.
    pub inner: Vec<(Option<Identifier>, Type)>,
}

/// The possible types.
#[derive(Debug, PartialEq)]
pub enum Type {
    /// A single value type.
    Single(SingleType),
    /// An array type.
    Array(ArrayType),
    /// A tuple type.
    Tuple(TupleType),
}

impl Type {
    /// The span of the type.
    pub open spec fn span_spec(&self) -> Span {
        match self {
            Type::Single(t) => t.span,
            Type::Array(t) => t.span,
            Type::Tuple(t) => t.span,
        }
    }

    /// The span of the type.
    pub fn span(&self) -> (s: Span)
        ensures
            s == match self {
                Type::Single(t) => t.span,
                Type::Array(t) => t.span,
                Type::Tuple(t) => t.span,
            },
    {
        match self {
            Type::Single(ty) => ty.span,
            Type::Array(ty) => ty.span,
            Type::Tuple(ty) => ty.span,
        }
    }
}

/// Why a number could not be read.
#[derive(Debug, Clone, Copy, PartialEq, Eq, Structural)]
pub enum IntErrorKind {
    /// No digits.
    Empty,
    /// A character that is not a digit.
    InvalidDigit,
    /// Too large.
    PosOverflow,
    /// Too small.
    NegOverflow,
}

/// The kinds of errors found in literal tokens.
#[derive(Debug, Clone, Copy, PartialEq, Eq, Structural)]
pub enum LiteralErrorKind {
    /// A float literal that is not a number.
    Float,
    /// An integer literal that is not an `i64`.
    Int(IntErrorKind),
    /// Unclosed string literal.
    UnclosedString,
    /// Only numeric literals can be typed.
    Untypable,
}

/// An error found in a literal.
#[derive(Debug, PartialEq)]
pub struct LiteralError {
    /// Source span.
    pub span: Span,
    /// Error kind.
    pub kind: LiteralErrorKind,
}

/// A string literal, without format expressions.
#[derive(Debug, PartialEq)]
pub struct StringLiteral {
    /// Source span.
    pub span: Span,
    /// Content.
    pub content: String,
}

/// A boolean literal.
#[derive(Debug, PartialEq)]
pub struct BoolLiteral {
    /// Source span.
    pub span: Span,
    /// Value.
    pub value: bool,
}

/// An integer literal without unit.
#[derive(Debug, PartialEq)]
pub struct IntegerLiteral {
    /// Source span.
    pub span: Span,
    /// Value.
    pub value: i64,
    /// The literal as written.
    pub raw: String,
}

/// A float literal without unit.
#[derive(Debug, PartialEq)]
pub struct FloatLiteral {
    /// Source span.
    pub span: Span,
    /// The literal as written.
    pub raw: String,
}

/// A number with a unit.
#[derive(Debug, PartialEq)]
pub struct QuantityLiteral {
    /// Source span.
    pub span: Span,
    /// The number as written.
    pub raw: String,
    /// The unit.
    pub unit: Unit,
}

/// The kinds of literal values.
#[derive(Debug, PartialEq)]
pub enum LiteralKind {
    /// An erroneous literal.
    Error(LiteralError),
    /// A string.
    String(StringLiteral),
    /// A boolean.
    Bool(BoolLiteral),
    /// An integer.
    Integer(IntegerLiteral),
    /// A float.
    Float(FloatLiteral),
    /// A number with unit.
    Quantity(QuantityLiteral),
}

impl LiteralKind {
    /// The span of the literal.
    pub fn span(&self) -> (s: Span)
        ensures
            s == match self {
                LiteralKind::Error(l) => l.span,
                LiteralKind::String(l) => l.span,
                LiteralKind::Bool(l) => l.span,
                LiteralKind::Integer(l) => l.span,
                LiteralKind::Float(l) => l.span,
                LiteralKind::Quantity(l) => l.span,
            },
    {
        match self {
            LiteralKind::Error(lit) => lit.span,
            LiteralKind::String(lit) => lit.span,
            LiteralKind::Bool(lit) => lit.span,
            LiteralKind::Integer(lit) => lit.span,
            LiteralKind::Float(lit) => lit.span,
            LiteralKind::Quantity(lit) => lit.span,
        }
    }
}

/// A literal value.
#[derive(Debug, PartialEq)]
pub struct Literal {
    /// Source span.
    pub span: Span,
    /// Extras.
    pub extras: ItemExtras,
    /// The literal.
    pub literal: LiteralKind,
}

/// Binary operators.
#[derive(Debug, Clone, Copy, PartialEq, Eq, Structural)]
pub enum BinaryOperator {
    /// `+`
    Add,
    /// `-`
    Subtract,
    /// `*`
    Multiply,
    /// `/`
    Divide,
    /// `|`
    Union,
    /// `&`
    Intersect,
    /// `^`
    PowerXor,
    /// `>`
    GreaterThan,
    /// `<`
    LessThan,
    /// `>=`
    GreaterEqual,
    /// `<=`
    LessEqual,
    /// `~`
    Near,
    /// `==`
    Equal,
    /// `!=`
    NotEqual,
    /// `and`
    And,
    /// `or`
    Or,
    /// `xor`
    Xor,
}

/// Unary operators.
#[derive(Debug, Clone, Copy, PartialEq, Eq, Structural)]
pub enum UnaryOperator {
    /// `-`
    Minus,
    /// `+`
    Plus,
    /// `!`
    Not,
}

/// A single character that is part of a format string.
#[derive(Debug, PartialEq)]
pub struct StringCharacter {
    /// Source span.
    pub span: Span,
    /// The character.
    pub character: char,
}

/// Width and precision of a format expression; each part may be missing.
#[derive(Debug, PartialEq)]
pub struct StringFormatSpecification {
    /// Source span.
    pub span: Span,
    /// Precision, or why it could not be read.
    pub precision: Option<Result<u32, (IntErrorKind, Span)>>,
    /// Width, or why it could not be read.
    pub width: Option<Result<u32, (IntErrorKind, Span)>>,
}

impl StringFormatSpecification {
    /// Check if any part of the specification is specified.
    pub fn is_some(&self) -> (b: bool)
        ensures
            b == (self.precision is Some || self.width is Some),
    {
        self.precision.is_some() || self.width.is_some()
    }
}

/// A format expression that is part of a format string.
#[derive(Debug, PartialEq)]
pub struct StringExpression {
    /// Source span.
    pub span: Span,
    /// Extras.
    pub extras: ItemExtras,
    /// The expression.
    pub expr: Box<Expression>,
    /// Format specification.
    pub specification: Box<StringFormatSpecification>,
}

/// A part of a format string.
#[derive(Debug, PartialEq)]
pub enum StringPart {
    /// An escaped character.
    Char(StringCharacter),
    /// Plain content.
    Content(StringLiteral),
    /// A format expression.
    Expression(StringExpression),
}

/// A string containing format expressions.
#[derive(Debug, PartialEq)]
pub struct FormatString {
    /// Source span.
    pub span: Span,
    /// Extras.
    pub extras: ItemExtras,
    /// Parts.
    pub parts: Vec<StringPart>,
}

/// An item of a tuple expression.
#[derive(Debug, PartialEq)]
pub struct TupleItem {
    /// Source span.
    pub span: Span,
    /// Extras.
    pub extras: ItemExtras,
    /// Optional name.
    pub id: Option<Identifier>,
    /// Value.
    pub expr: Expression,
}

/// A tuple expression.
#[derive(Debug, PartialEq)]
pub struct TupleExpression {
    /// Source span.
    pub span: Span,
    /// Extras.
    pub extras: ItemExtras,
    /// Items.
    pub values: Vec<TupleItem>,
}

/// An item of an array expression.
#[derive(Debug, PartialEq)]
pub struct ArrayItem {
    /// Source span.
    pub span: Span,
    /// Extras.
    pub extras: ItemExtras,
    /// Value.
    pub expr: Expression,
}

/// An array range `[start..end]`.
#[derive(Debug, PartialEq)]
pub struct ArrayRangeExpression {
    /// Source span.
    pub span: Span,
    /// Extras.
    pub extras: ItemExtras,
    /// First value (inclusive).
    pub start: Box<ArrayItem>,
    /// Last value (exclusive).
    pub end: Box<ArrayItem>,
    /// Optional unit.
    pub unit: Option<Unit>,
}

/// An array given as a list of items.
#[derive(Debug, PartialEq)]
pub struct ArrayListExpression {
    /// Source span.
    pub span: Span,
    /// Extras.
    pub extras: ItemExtras,
    /// Items.
    pub items: Vec<ArrayItem>,
    /// Optional unit.
    pub unit: Option<Unit>,
}

/// A qualified name: identifiers separated by `::`.
#[derive(Debug, PartialEq)]
pub struct SymbolPath {
    /// Source span.
    pub span: Span,
    /// Extras.
    pub extras: ItemExtras,
    /// Optional leading `::`.
    pub prefix: Option<Span>,
    /// The identifiers.
    pub parts: Vec<Identifier>,
}

impl SymbolPath {
    /// The path consisting of a single identifier.
    pub fn from_identifier(id: Identifier) -> (p: SymbolPath)
        ensures
            p.span == id.span,
            p.prefix is None,
            p.parts@ == seq![id],
            p.extras.leading.0@.len() == 0,
            p.extras.trailing.0@.len() == 0,
    {
        let span = id.span;
        let mut parts: Vec<Identifier> = Vec::new();
        parts.push(id);
        SymbolPath { span, extras: ItemExtras::empty(), prefix: None, parts }
    }
}

/// A binary operation.
#[derive(Debug, PartialEq)]
pub struct BinaryOperation {
    /// Source span.
    pub span: Span,
    /// Left operand.
    pub lhs: Box<Expression>,
    /// Operator.
    pub op: Spanned<BinaryOperator>,
    /// Right operand.
    pub rhs: Box<Expression>,
}

/// A unary operation.
#[derive(Debug, PartialEq)]
pub struct UnaryOperation {
    /// Source span.
    pub span: Span,
    /// Extras.
    pub extras: ItemExtras,
    /// Operator.
    pub op: Spanned<UnaryOperator>,
    /// Operand.
    pub rhs: Box<Expression>,
}

/// An argument without name.
#[derive(Debug, PartialEq)]
pub struct UnnamedArgument {
    /// Source span.
    pub span: Span,
    /// Extras.
    pub extras: ItemExtras,
    /// Value.
    pub expr: Expression,
}

/// An argument with a name.
#[derive(Debug, PartialEq)]
pub struct NamedArgument {
    /// Source span.
    pub span: Span,
    /// Extras.
    pub extras: ItemExtras,
    /// Name.
    pub id: Identifier,
    /// Value.
    pub expr: Expression,
}

/// A call argument.
#[derive(Debug, PartialEq)]
pub enum Argument {
    /// Without name.
    Unnamed(UnnamedArgument),
    /// With name.
    Named(NamedArgument),
}

impl Argument {
    /// The name of the argument, if specified.
    pub fn name(&self) -> (r: Option<&Identifier>)
        ensures
            r == match self {
                Argument::Unnamed(_) => None,
                Argument::Named(a) => Some(&a.id),
            },
    {
        match self {
            Argument::Unnamed(_) => None,
            Argument::Named(arg) => Some(&arg.id),
        }
    }

    /// The value of the argument.
    pub fn value(&self) -> (r: &Expression)
        ensures
            *r == match self {
                Argument::Unnamed(a) => a.expr,
                Argument::Named(a) => a.expr,
            },
    {
        match self {
            Argument::Unnamed(arg) => &arg.expr,
            Argument::Named(arg) => &arg.expr,
        }
    }

    /// The span of the argument.
    pub fn span(&self) -> (r: &Span)
        ensures
            *r == match self {
                Argument::Unnamed(a) => a.span,
                Argument::Named(a) => a.span,
            },
    {
        match self {
            Argument::Unnamed(arg) => &arg.span,
            Argument::Named(arg) => &arg.span,
        }
    }
}

/// A list of call arguments.
#[derive(Debug, PartialEq)]
pub struct ArgumentList {
    /// Source span.
    pub span: Span,
    /// Extras.
    pub extras: ItemExtras,
    /// Arguments.
    pub arguments: Vec<Argument>,
}

/// A call: `name(args)`.
#[derive(Debug, PartialEq)]
pub struct Call {
    /// Source span.
    pub span: Span,
    /// Extras.
    pub extras: ItemExtras,
    /// Called name.
    pub name: SymbolPath,
    /// Arguments.
    pub arguments: ArgumentList,
}

/// Element access kinds.
#[derive(Debug, PartialEq)]
pub enum ElementInner {
    /// `#attr`
    Attribute(Identifier),
    /// `.field`
    Tuple(Identifier),
    /// `.method(args)`
    Method(Box<Call>),
    /// `[index]`
    ArrayElement(Box<Expression>),
}

/// One element access.
#[derive(Debug, PartialEq)]
pub struct Element {
    /// Source span.
    pub span: Span,
    /// Extras.
    pub extras: ItemExtras,
    /// Access kind.
    pub inner: ElementInner,
}

/// An expression followed by element accesses.
#[derive(Debug, PartialEq)]
pub struct ElementAccess {
    /// Source span.
    pub span: Span,
    /// Accessed expression.
    pub expr: Box<Expression>,
    /// Accesses.
    pub element_chain: Vec<Element>,
}

/// A block of statements.
#[derive(Debug, PartialEq)]
pub struct Body {
    /// Source span.
    pub span: Span,
    /// Statements.
    pub statements: StatementList,
}

/// An if expression.
#[derive(Debug, PartialEq)]
pub struct If {
    /// Source span.
    pub span: Span,
    /// Span of `if`.
    pub if_span: Span,
    /// Extras.
    pub extras: ItemExtras,
    /// Condition.
    pub condition: Box<Expression>,
    /// Body.
    pub body: Body,
    /// Span of `else` before `next_if`.
    pub next_if_span: Option<Span>,
    /// `else if ...`
    pub next_if: Option<Box<If>>,
    /// Span of the final `else`.
    pub else_span: Option<Span>,
    /// Final else body.
    pub else_body: Option<Body>,
}

/// Any expression.
#[derive(Debug, PartialEq)]
pub enum Expression {
    /// A literal: `42mm`
    Literal(Literal),
    /// Something in brackets: `(42mm)`
    Bracketed(Box<Expression>, Span),
    /// A tuple: `(a = 1, b = 23)`
    Tuple(TupleExpression),
    /// A range: `[1..4]`
    ArrayRange(ArrayRangeExpression),
    /// A list: `[1, 2, 3]`
    ArrayList(ArrayListExpression),
    /// A format string.
    String(FormatString),
    /// A qualified name: `foo::bar`
    SymbolPath(SymbolPath),
    /// A marker: `@input`
    Marker(Identifier),
    /// A binary operation: `1 + 3`
    BinaryOperation(BinaryOperation),
    /// A unary operation: `-2`
    UnaryOperation(UnaryOperation),
    /// A body: `{ ... }`
    Body(Body),
    /// A call: `f(1, 2)`
    Call(Call),
    /// Element access: `a.b`, `a[1]`
    ElementAccess(ElementAccess),
    /// An if expression.
    If(If),
    /// An error.
    Error(Span),
}

impl Expression {
    /// The span of the expression.
    pub fn span(&self) -> (s: Span)
        ensures
            s == self.span_spec(),
    {
        match self {
            Expression::Literal(ex) => ex.span,
            Expression::Bracketed(_, span) => *span,
            Expression::Tuple(ex) => ex.span,
            Expression::ArrayRange(ex) => ex.span,
            Expression::ArrayList(ex) => ex.span,
            Expression::String(ex) => ex.span,
            Expression::SymbolPath(ex) => ex.span,
            Expression::Marker(ex) => ex.span,
            Expression::BinaryOperation(ex) => ex.span,
            Expression::UnaryOperation(ex) => ex.span,
            Expression::Body(ex) => ex.span,
            Expression::Call(ex) => ex.span,
            Expression::ElementAccess(ex) => ex.span,
            Expression::If(ex) => ex.span,
            Expression::Error(span) => *span,
        }
    }

    /// The span of the expression.
    pub open spec fn span_spec(&self) -> Span {
        match self {
            Expression::Literal(ex) => ex.span,
            Expression::Bracketed(_, span) => *span,
            Expression::Tuple(ex) => ex.span,
            Expression::ArrayRange(ex) => ex.span,
            Expression::ArrayList(ex) => ex.span,
            Expression::String(ex) => ex.span,
            Expression::SymbolPath(ex) => ex.span,
            Expression::Marker(ex) => ex.span,
            Expression::BinaryOperation(ex) => ex.span,
            Expression::UnaryOperation(ex) => ex.span,
            Expression::Body(ex) => ex.span,
            Expression::Call(ex) => ex.span,
            Expression::ElementAccess(ex) => ex.span,
            Expression::If(ex) => ex.span,
            Expression::Error(span) => *span,
        }
    }

    /// Can this expression also be used as a statement without a semicolon.
    pub fn is_also_statement(&self) -> (b: bool)
        ensures
            b == (self is Body || self is If),
    {
        match self {
            Expression::Body(_) | Expression::If(_) => true,
            _ => false,
        }
    }
}

/// Workbench kinds.
#[derive(Debug, Clone, Copy, PartialEq, Eq, Structural)]
pub enum WorkbenchKind {
    /// `sketch`
    Sketch,
    /// `part`
    Part,
    /// `op`
    Op,
}

impl WorkbenchKind {
    /// The keyword of the kind.
    pub fn keyword(&self) -> (s: &'static str)
        ensures
            s@ == match self {
                WorkbenchKind::Sketch => "sketch"@,
                WorkbenchKind::Part => "part"@,
                WorkbenchKind::Op => "op"@,
            },
    {
        match self {
            WorkbenchKind::Sketch => "sketch",
            WorkbenchKind::Part => "part",
            WorkbenchKind::Op => "op",
        }
    }
}

/// Contents of an attribute.
#[derive(Debug, PartialEq)]
pub enum AttributeCommand {
    /// A single identifier: `#[deprecated]`
    Ident(Identifier),
    /// A meta data assignment: `#[color = RED]`
    Assignment(LocalAssignment),
    /// A call: `#[export("file.svg")]`
    Call(Call),
}

/// An attribute: `#[...]` or `#![...]`.
#[derive(Debug, PartialEq)]
pub struct Attribute {
    /// Source span.
    pub span: Span,
    /// `#![...]`
    pub is_inner: bool,
    /// Extras.
    pub extras: ItemExtras,
    /// Commands.
    pub commands: Vec<AttributeCommand>,
}

/// A local assignment: `a = 42`
#[derive(Debug, PartialEq)]
pub struct LocalAssignment {
    /// Source span.
    pub span: Span,
    /// Extras.
    pub extras: ItemExtras,
    /// Attributes.
    pub attr: Vec<Attribute>,
    /// Name.
    pub id: Identifier,
    /// Optional type.
    pub ty: Option<Type>,
    /// Value.
    pub expr: Box<Expression>,
}

/// A constant: `const A = 42` or `pub A = 42`.
#[derive(Debug, PartialEq)]
pub struct ConstAssignment {
    /// Source span.
    pub span: Span,
    /// Span of `const` or `pub`.
    pub keyword_span: Span,
    /// Extras.
    pub extras: ItemExtras,
    /// Doc block.
    pub doc: DocBlock,
    /// Attributes.
    pub attr: Vec<Attribute>,
    /// Visibility.
    pub vis: Option<Spanned<Visibility>>,
    /// Name.
    pub id: Identifier,
    /// Optional type.
    pub ty: Option<Type>,
    /// Value.
    pub expr: Box<Expression>,
}

/// A property: `prop a = 42`
#[derive(Debug, PartialEq)]
pub struct PropertyAssignment {
    /// Source span.
    pub span: Span,
    /// Span of `prop`.
    pub keyword_span: Span,
    /// Extras.
    pub extras: ItemExtras,
    /// Doc block.
    pub doc: DocBlock,
    /// Attributes.
    pub attr: Vec<Attribute>,
    /// Name.
    pub id: Identifier,
    /// Optional type.
    pub ty: Option<Type>,
    /// Value.
    pub value: Box<Expression>,
}

/// A return statement.
#[derive(Debug, PartialEq)]
pub struct Return {
    /// Source span.
    pub span: Span,
    /// Span of `return`.
    pub keyword_span: Span,
    /// Extras.
    pub extras: ItemExtras,
    /// Returned value.
    pub value: Option<Expression>,
}

/// An inner doc comment line: `//! ...`
#[derive(Debug, PartialEq)]
pub struct InnerDocComment {
    /// Source span.
    pub span: Span,
    /// The line.
    pub line: String,
}

/// A statement made of an expression.
#[derive(Debug, PartialEq)]
pub struct ExpressionStatement {
    /// Source span.
    pub span: Span,
    /// Extras.
    pub extras: ItemExtras,
    /// Attributes.
    pub attr: Vec<Attribute>,
    /// The expression.
    pub expression: Expression,
}

/// A parameter of a function, workbench or init.
#[derive(Debug, PartialEq)]
pub struct Parameter {
    /// Source span.
    pub span: Span,
    /// Extras.
    pub extras: ItemExtras,
    /// Doc block.
    pub doc: DocBlock,
    /// Attributes.
    pub attr: Vec<Attribute>,
    /// Name.
    pub id: Identifier,
    /// Optional type.
    pub ty: Option<Type>,
    /// Optional default value.
    pub default: Option<Expression>,
}

/// A parameter list.
#[derive(Debug, PartialEq)]
pub struct ParameterList {
    /// Source span.
    pub span: Span,
    /// Extras.
    pub extras: ItemExtras,
    /// Parameters.
    pub parameters: Vec<Parameter>,
}

/// The parts of a use name, separated by `::`.
#[derive(Debug, PartialEq)]
pub enum UseStatementPart {
    /// A name.
    Identifier(Identifier),
    /// `*`
    Glob(Span),
    /// An error.
    Error(Span),
}

/// The name imported by a use statement.
#[derive(Debug, PartialEq)]
pub struct UseName {
    /// Source span.
    pub span: Span,
    /// Extras.
    pub extras: ItemExtras,
    /// Parts.
    pub parts: Vec<UseStatementPart>,
}

/// A use statement.
#[derive(Debug, PartialEq)]
pub struct UseStatement {
    /// Source span.
    pub span: Span,
    /// Attributes.
    pub attr: Vec<Attribute>,
    /// Span of `use`.
    pub keyword_span: Span,
    /// Extras.
    pub extras: ItemExtras,
    /// Visibility.
    pub vis: Option<Spanned<Visibility>>,
    /// Imported name.
    pub name: UseName,
    /// `as` name.
    pub use_as: Option<Identifier>,
}

/// A definition with a body: a workbench, module, function or init.
#[derive(Debug, PartialEq)]
pub struct Definition {
    /// Source span.
    pub span: Span,
    /// Span of the keyword.
    pub keyword_span: Span,
    /// Extras.
    pub extras: ItemExtras,
    /// Doc block.
    pub doc: DocBlock,
    /// Attributes.
    pub attr: Vec<Attribute>,
    /// Visibility.
    pub vis: Option<Spanned<Visibility>>,
    /// Name (inits have none).
    pub id: Option<Identifier>,
    /// Parameters (modules have none).
    pub parameters: Option<ParameterList>,
    /// Return type of a function.
    pub return_type: Option<Type>,
    /// Body (file modules have none).
    pub body: Option<Body>,
}

/// A µcad statement.
#[derive(Debug, PartialEq)]
pub enum Statement {
    /// `part Foo() { ... }`
    Workbench(WorkbenchKind, Definition),
    /// `mod foo { ... }`
    InlineModule(Definition),
    /// `mod foo;`
    FileModule(Definition),
    /// `fn bar() { ... }`
    Function(Definition),
    /// `use foo::bar;`
    Use(UseStatement),
    /// `const FOO = 42mm;`
    Const(ConstAssignment),
    /// `init() { ... }`
    Init(Definition),
    /// `return 23mm;`
    Return(Return),
    /// `#![...]`
    InnerAttribute(Attribute),
    /// `//! Doc comment`
    InnerDocComment(InnerDocComment),
    /// `foo = bar;`
    LocalAssignment(LocalAssignment),
    /// `prop bar = 42mm;`
    Property(PropertyAssignment),
    /// `foo | bar;`
    Expression(ExpressionStatement),
    /// An error.
    Error(Span),
}

impl Statement {
    /// The span of the statement.
    pub open spec fn span_spec(&self) -> Span {
        match self {
            Statement::Workbench(_, st) => st.span,
            Statement::InlineModule(st) => st.span,
            Statement::FileModule(st) => st.span,
            Statement::Function(st) => st.span,
            Statement::Use(st) => st.span,
            Statement::Const(st) => st.span,
            Statement::Init(st) => st.span,
            Statement::Return(st) => st.span,
            Statement::InnerAttribute(st) => st.span,
            Statement::InnerDocComment(st) => st.span,
            Statement::LocalAssignment(st) => st.span,
            Statement::Property(st) => st.span,
            Statement::Expression(st) => st.span,
            Statement::Error(span) => *span,
        }
    }

    /// The span of the statement.
    pub fn span(&self) -> (s: Span)
        ensures
            s == self.span_spec(),
            s == match self {
                Statement::Workbench(_, st) => st.span,
                Statement::InlineModule(st) => st.span,
                Statement::FileModule(st) => st.span,
                Statement::Function(st) => st.span,
                Statement::Use(st) => st.span,
                Statement::Const(st) => st.span,
                Statement::Init(st) => st.span,
                Statement::Return(st) => st.span,
                Statement::InnerAttribute(st) => st.span,
                Statement::InnerDocComment(st) => st.span,
                Statement::LocalAssignment(st) => st.span,
                Statement::Property(st) => st.span,
                Statement::Expression(st) => st.span,
                Statement::Error(span) => *span,
            },
    {
        match self {
            Statement::Workbench(_, st) => st.span,
            Statement::InlineModule(st) => st.span,
            Statement::FileModule(st) => st.span,
            Statement::Function(st) => st.span,
            Statement::Use(st) => st.span,
            Statement::Const(st) => st.span,
            Statement::Init(st) => st.span,
            Statement::Return(st) => st.span,
            Statement::InnerAttribute(st) => st.span,
            Statement::InnerDocComment(st) => st.span,
            Statement::LocalAssignment(st) => st.span,
            Statement::Property(st) => st.span,
            Statement::Expression(st) => st.span,
            Statement::Error(span) => *span,
        }
    }

    /// Is the statement supposed to end with a semicolon.
    pub fn ends_with_semicolon(&self) -> (b: bool)
        ensures
            b == match self {
                Statement::Use(_) | Statement::Const(_) | Statement::Return(_) | Statement::FileModule(_)
                | Statement::LocalAssignment(_) | Statement::Property(_) => true,
                Statement::Expression(e) => !(e.expression is Body || e.expression is If),
                _ => false,
            },
    {
        match self {
            Statement::Workbench(..) => false,
            Statement::InlineModule(_) => false,
            Statement::Function(_) => false,
            Statement::InnerAttribute(_) => false,
            Statement::InnerDocComment(_) => false,
            Statement::Init(_) => false,
            Statement::Error(_) => false,
            Statement::Use(_) => true,
            Statement::Const(_) => true,
            Statement::Return(_) => true,
            Statement::FileModule(_) => true,
            Statement::LocalAssignment(_) => true,
            Statement::Property(_) => true,
            Statement::Expression(e) => !e.expression.is_also_statement(),
        }
    }
}

/// A list of statements with an optional tail expression.
#[derive(Debug, PartialEq)]
pub struct StatementList {
    /// Source span.
    pub span: Span,
    /// Extras.
    pub extras: ItemExtras,
    /// Statements with the extras after each.
    pub statements: Vec<(Statement, TrailingExtras)>,
    /// A final expression without semicolon.
    pub tail: Option<Box<ExpressionStatement>>,
}

/// A parsed µcad program.
#[derive(Debug, PartialEq)]
pub struct Program {
    /// Source span.
    pub span: Span,
    /// Statements.
    pub statements: StatementList,
}

} // verus!
