//! The intermediate representation of definitions, as far as resolving reads it: the
//! names that are declared, the scopes they live in, and the paths that name values.

use vstd::prelude::*;

use crate::ast::WorkbenchKind;
use crate::library::symbol::Path;

verus! {

/// An expression, reduced to the paths it names, in the order they are met.
#[derive(Debug, PartialEq, Eq)]
pub enum Expression {
    /// A path naming a value or symbol.
    Name(Path),
    /// A value that names nothing, such as a literal.
    Value,
    /// An operation, a call or a list over sub-expressions.
    Compound(Vec<Expression>),
}

/// A parameter of a function, workbench or initializer.
#[derive(Debug, PartialEq, Eq)]
pub struct Parameter {
    /// The parameter's name.
    pub id: String,
    /// The default value, if any.
    pub default_value: Option<Expression>,
}

/// `name = expression;` inside a function.
#[derive(Debug, PartialEq, Eq)]
pub struct FunctionLocalAssignment {
    /// The local's name.
    pub id: String,
    /// The value assigned.
    pub expression: Expression,
}

/// A block `{ ... }` inside a function, with a scope of its own.
#[derive(Debug, PartialEq, Eq)]
pub struct Scope {
    /// The statements of the block.
    pub statements: Vec<FunctionStatement>,
}

/// A statement of a function body.
#[derive(Debug, PartialEq, Eq)]
pub enum FunctionStatement {
    /// An assignment to a local.
    LocalAssignment(FunctionLocalAssignment),
    /// A nested block.
    Scope(Scope),
    /// An expression, evaluated or returned.
    Expression(Expression),
}

/// The signature of a function.
#[derive(Debug, PartialEq, Eq)]
pub struct FunctionSignature {
    /// The parameters.
    pub parameters: Vec<Parameter>,
}

/// A function definition.
#[derive(Debug, PartialEq, Eq)]
pub struct Function {
    /// The signature.
    pub signature: FunctionSignature,
    /// The body.
    pub statements: Vec<FunctionStatement>,
}

/// An expression that builds models: a value, or a group of statements.
#[derive(Debug, PartialEq, Eq)]
pub enum WorkbenchExpression {
    /// A value.
    Value(Expression),
    /// A group of statements with a scope of its own.
    Group(Group),
}

/// A group of workbench statements: `{ ... }`.
#[derive(Debug, PartialEq, Eq)]
pub struct Group {
    /// The statements of the group.
    pub statements: Vec<WorkbenchStatement>,
}

/// A statement of a workbench body, optionally naming its value: `name = expression;`.
#[derive(Debug, PartialEq, Eq)]
pub struct WorkbenchStatement {
    /// The name given to the value, if any.
    pub name: Option<String>,
    /// The value.
    pub expression: WorkbenchExpression,
}

/// A statement of a source file: the same as one of a workbench body.
pub type SourceStatement = WorkbenchStatement;

/// An assignment to a building parameter inside an initializer: `name = expression;`.
#[derive(Debug, PartialEq, Eq)]
pub struct InitStatement {
    /// The parameter assigned.
    pub name: String,
    /// The value.
    pub expression: WorkbenchExpression,
}

/// An initializer of a workbench.
#[derive(Debug, PartialEq, Eq)]
pub struct Init {
    /// The initializer's parameters.
    pub parameters: Vec<Parameter>,
    /// Its statements.
    pub statements: Vec<InitStatement>,
}

/// The signature of a workbench: its building parameters and initializers.
#[derive(Debug, PartialEq, Eq)]
pub struct WorkbenchSignature {
    /// The building parameters.
    pub parameters: Vec<Parameter>,
    /// The initializers.
    pub inits: Vec<Init>,
}

/// A workbench definition.
#[derive(Debug, PartialEq, Eq)]
pub struct Workbench {
    /// What the workbench builds: a sketch, a part or an operation.
    pub kind: WorkbenchKind,
    /// The signature.
    pub signature: WorkbenchSignature,
    /// The body.
    pub statements: Vec<WorkbenchStatement>,
}

/// A constant definition: `const NAME = expression;`.
#[derive(Debug, PartialEq, Eq)]
pub struct Constant {
    /// The value.
    pub expr: Expression,
}

/// The statements of a source file.
#[derive(Debug, PartialEq, Eq)]
pub struct Source {
    /// The statements.
    pub statements: Vec<SourceStatement>,
}

} // verus!
