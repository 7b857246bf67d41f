//! Type checking errors for Cem.

use vstd::prelude::*;
use crate::types::{Type, TypeV, Effect, EffectV, StackType, StackTypeV, ty_v, eff_v, stk_v};
use crate::ast::strings_v;

verus! {

/// The result type of the checker; errors are boxed to keep results
/// small.
pub type TypeResult<T> = Result<T, Box<TypeError>>;

/// An error found while type checking.
#[derive(Debug)]
pub enum TypeError {
    /// A word needed more stack items than were available.
    StackUnderflow { word: String, required: usize, available: usize },
    /// A value had the wrong type for its context.
    TypeMismatch { expected: Type, actual: Type, context: String },
    /// A word's body did not realise its declared effect.
    EffectMismatch { expected: Effect, actual: Effect, word: String },
    /// A call of a word that is not defined.
    UndefinedWord { name: String },
    /// A mention of a type that is not defined.
    UndefinedType { name: String },
    /// A match that does not cover every variant of the scrutinee's type.
    NonExhaustiveMatch { ty_name: String, missing_variants: Vec<String> },
    /// Match branches that produce different stacks.
    InconsistentBranchEffects { ty_name: String, expected: Effect, actual: Effect, branch: String },
    /// An attempt to duplicate a value of a non-copyable type.
    CannotDuplicate { ty: Type, operation: String },
    /// A use of a value after it was moved (linearity violation).
    UseAfterMove { var: String },
    /// Two types that cannot be unified.
    UnificationError { ty1: Type, ty2: Type, reason: String },
    /// Two stack types that cannot be unified.
    StackUnificationError { stack1: StackType, stack2: StackType, reason: String },
    /// Any other checking error.
    Other { message: String },
}

/// Mathematical model of a type error. Diagnostic strings (reasons,
/// contexts, messages) are not part of the model; the error's kind and
/// the values it reports are.
pub enum ErrV {
    StackUnderflow { word: Seq<char>, required: int, available: int },
    TypeMismatch { expected: TypeV, actual: TypeV },
    EffectMismatch { expected: EffectV, actual: EffectV, word: Seq<char> },
    UndefinedWord { name: Seq<char> },
    UndefinedType { name: Seq<char> },
    NonExhaustiveMatch { ty_name: Seq<char>, missing_variants: Seq<Seq<char>> },
    InconsistentBranchEffects { ty_name: Seq<char>, expected: EffectV, actual: EffectV },
    CannotDuplicate { ty: TypeV },
    UseAfterMove { var: Seq<char> },
    UnificationError,
    StackUnificationError,
    Other,
}

impl View for TypeError {
    type V = ErrV;

    open spec fn view(&self) -> ErrV {
        match self {
            TypeError::StackUnderflow { word, required, available } => ErrV::StackUnderflow {
                word: word@,
                required: *required as int,
                available: *available as int,
            },
            TypeError::TypeMismatch { expected, actual, context: _ } => ErrV::TypeMismatch {
                expected: ty_v(*expected),
                actual: ty_v(*actual),
            },
            TypeError::EffectMismatch { expected, actual, word } => ErrV::EffectMismatch {
                expected: eff_v(*expected),
                actual: eff_v(*actual),
                word: word@,
            },
            TypeError::UndefinedWord { name } => ErrV::UndefinedWord { name: name@ },
            TypeError::UndefinedType { name } => ErrV::UndefinedType { name: name@ },
            TypeError::NonExhaustiveMatch { ty_name, missing_variants } => ErrV::NonExhaustiveMatch {
                ty_name: ty_name@,
                missing_variants: strings_v(missing_variants@),
            },
            TypeError::InconsistentBranchEffects { ty_name, expected, actual, branch: _ } => ErrV::InconsistentBranchEffects {
                ty_name: ty_name@,
                expected: eff_v(*expected),
                actual: eff_v(*actual),
            },
            TypeError::CannotDuplicate { ty, operation: _ } => ErrV::CannotDuplicate {
                ty: ty_v(*ty),
            },
            TypeError::UseAfterMove { var } => ErrV::UseAfterMove { var: var@ },
            TypeError::UnificationError { .. } => ErrV::UnificationError,
            TypeError::StackUnificationError { .. } => ErrV::StackUnificationError,
            TypeError::Other { .. } => ErrV::Other,
        }
    }
}

} // verus!
