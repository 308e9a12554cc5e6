//! Checks on resolved symbols: the case of their names and the types of their values.

use vstd::prelude::*;

use crate::diag::{ResolveError, ResolveErrorKind};
use crate::library::SymbolDef;
use crate::span::Span;
use crate::visitor::text_equals;

verus! {

/// The case a name is written in.
#[derive(Debug, Clone, Copy, PartialEq, Eq, Structural)]
pub enum Case {
    /// `lower_snake_case`
    LowerSnake,
    /// `UPPER_SNAKE_CASE`
    UpperSnake,
    /// `PascalCase`
    Pascal,
    /// Any other way of writing.
    Other,
}

impl SymbolDef {
    /// The case the name of a symbol of this kind is to be written in: modules, source
    /// files and functions in lower snake case, workbenches in Pascal case, constants in
    /// upper snake case; the others have no rule.
    pub open spec fn expected_case_spec(&self) -> Option<Case> {
        match self {
            SymbolDef::SourceFile(_) | SymbolDef::InlineModule | SymbolDef::Function(_) => Some(Case::LowerSnake),
            SymbolDef::Workbench(_) => Some(Case::Pascal),
            SymbolDef::Constant(_) => Some(Case::UpperSnake),
            SymbolDef::Alias(_) | SymbolDef::Wildcard(_) | SymbolDef::Root(_) => None,
        }
    }

    /// The case the name of a symbol of this kind is to be written in.
    pub fn expected_case(&self) -> (c: Option<Case>)
        ensures
            c == self.expected_case_spec(),
            (self is SourceFile || self is InlineModule || self is Function) ==> c == Some(Case::LowerSnake),
            self is Workbench ==> c == Some(Case::Pascal),
            self is Constant ==> c == Some(Case::UpperSnake),
            (self is Alias || self is Wildcard || self is Root) ==> c is None,
    {
        match self {
            SymbolDef::SourceFile(_) | SymbolDef::InlineModule | SymbolDef::Function(_) => Some(Case::LowerSnake),
            SymbolDef::Workbench(_) => Some(Case::Pascal),
            SymbolDef::Constant(_) => Some(Case::UpperSnake),
            SymbolDef::Alias(_) | SymbolDef::Wildcard(_) | SymbolDef::Root(_) => None,
        }
    }

    /// Checks that a name at `span`, written in the case `actual`, fits this kind of symbol.
    pub fn case_check(&self, actual: Case, span: Span) -> (r: Result<(), ResolveError>)
        ensures
            match self.expected_case_spec() {
                Some(expected) => if expected == actual {
                    r is Ok
                } else {
                    r matches Err(e) && *e.0 == (ResolveErrorKind::WrongCase { expected, actual, src_ref: span })
                },
                None => r is Ok,
            },
            (self is SourceFile || self is InlineModule || self is Function) ==> (r is Ok <==> actual == Case::LowerSnake),
            self is Workbench ==> (r is Ok <==> actual == Case::Pascal),
            self is Constant ==> (r is Ok <==> actual == Case::UpperSnake),
            (self is Alias || self is Wildcard || self is Root) ==> r is Ok,
    {
        match self.expected_case() {
            Some(expected) => if expected == actual {
                Ok(())
            } else {
                Err(ResolveError::new(ResolveErrorKind::WrongCase { expected, actual, src_ref: span }))
            },
            None => Ok(()),
        }
    }
}

/// A type named at some place: one specified in the source, or one a value has.
#[derive(Debug, Clone, PartialEq, Eq)]
pub struct TypeAnnotation {
    /// The type, by its text.
    pub ty: String,
    /// Where it is.
    pub src_ref: Span,
}

/// Checks that the type a value has is the one specified, where both are known: types are
/// the same when their texts are.
pub fn type_check(specified: &Option<TypeAnnotation>, actual: &Option<TypeAnnotation>) -> (r: Result<(), ResolveError>)
    ensures
        match (*specified, *actual) {
            (Some(s), Some(a)) => if s.ty@ == a.ty@ {
                r is Ok
            } else {
                r matches Err(e) && *e.0 matches ResolveErrorKind::TypeMismatch {
                    specified: ts,
                    specified_src_ref: ss,
                    actual: ta,
                    actual_src_ref: sa,
                } && ts@ == s.ty@ && ss == s.src_ref && ta@ == a.ty@ && sa == a.src_ref
            },
            _ => r is Ok,
        },
{
    match (specified, actual) {
        (Some(s), Some(a)) => if text_equals(s.ty.as_str(), a.ty.as_str()) {
            Ok(())
        } else {
            Err(ResolveError::new(ResolveErrorKind::TypeMismatch {
                specified: s.ty.clone(),
                specified_src_ref: s.src_ref,
                actual: a.ty.clone(),
                actual_src_ref: a.src_ref,
            }))
        },
        _ => Ok(()),
    }
}

} // verus!
