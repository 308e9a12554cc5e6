//! Attributes attached to resolved symbols, parameters and functions.

use vstd::prelude::*;

verus! {

/// Attributes of a resolved symbol (none are kept yet).
#[derive(Debug, Default, Clone, Copy, PartialEq, Eq, Structural)]
pub struct SymbolAttributes {}

/// Attributes of a parameter (none are kept yet).
#[derive(Debug, Clone, Copy, PartialEq, Eq, Structural)]
pub struct ParameterAttributes;

/// Attributes of a function (none are kept yet).
#[derive(Debug, Clone, Copy, PartialEq, Eq, Structural)]
pub struct FunctionAttributes;

} // verus!
