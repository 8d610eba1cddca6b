//! The macro's input, as the expansion reads it.

use crate::guard::GuardToken;
use vstd::prelude::*;

verus! {

/// The scrutinee of the `match`: the macro wants it to be exactly `..`.
pub enum Scrutinee {
    /// A range expression: whether it has a start and an end, whether its
    /// limits are `..` (half open) rather than `..=`, and the span of its
    /// first attribute, if any.
    Range { has_start: bool, half_open: bool, has_end: bool, attr: Option<proc_macro2::Span> },
    /// Any other expression.
    Other,
}

/// The pattern of a `match` arm.
pub enum ArmPattern {
    /// `..`, with the span of its first attribute, if any.
    Rest { attr: Option<proc_macro2::Span> },
    /// `_`: the arm becomes the `else` branch.
    Wild,
    /// Any other pattern.
    Other,
}

/// The `if` guard of an arm: the span of the `if` keyword, and the top-level
/// tokens of the guard expression, `let <pattern> = <future> && <condition>`.
pub struct Guard {
    pub if_span: proc_macro2::Span,
    pub tokens: Vec<GuardToken>,
}

/// One arm of the `match`.
pub struct MatchArm {
    pub pat: ArmPattern,
    pub pat_span: proc_macro2::Span,
    pub guard: Option<Guard>,
    pub body: syn::Expr,
}

/// The whole input: whether `biased,` came first, the span of the first
/// attribute on the `match` expression, if any, its scrutinee and the
/// scrutinee's span, and its arms in order.
pub struct SelectInput {
    pub is_biased: bool,
    pub match_attr: Option<proc_macro2::Span>,
    pub scrutinee: Scrutinee,
    pub scrutinee_span: proc_macro2::Span,
    pub arms: Vec<MatchArm>,
}

} // verus!
