//! The error taxonomy: parse-time errors, evaluation errors, and the
//! failures of vault loading, runtime construction and scene transitions.
use vstd::prelude::*;

verus! {

/// Malformed condition or effect text.
#[derive(Debug, Clone, Copy, PartialEq, Eq, Structural)]
pub struct ParseError {}

/// A condition or effect could not be evaluated against the store.
#[derive(Debug, Clone, Copy, PartialEq, Eq, Structural)]
pub enum EvalError {
    /// The variable is not present in the store.
    MissingVariable,
    /// The variable holds a non-integer value.
    NotNumeric,
    /// The literal does not parse as a 64-bit integer.
    BadLiteral,
    /// The comparison or assignment operator is not recognized.
    UnknownOperator,
    /// The connective of a compound condition is not `AND` or `OR`.
    UnknownLogical,
}

/// Loading produced no scene at all.
#[derive(Debug, Clone, Copy, PartialEq, Eq, Structural)]
pub struct LoadError {}

/// The requested start scene is absent from the vault.
#[derive(Debug, Clone, Copy, PartialEq, Eq, Structural)]
pub struct InitError {}

/// A transition request failed.
#[derive(Debug, Clone, Copy, PartialEq, Eq, Structural)]
pub enum ChooseError {
    /// The index is out of range for the current scene's choice list.
    ChoiceError,
    /// The chosen choice's target scene is absent from the vault.
    SceneNotFoundError,
    /// An effect of the chosen choice failed to apply.
    EffectError(EvalError),
}

} // verus!
