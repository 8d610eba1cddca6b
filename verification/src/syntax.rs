//! The outside syntax types that the expansion carries through, and the
//! trusted call into `syn` that it makes.

use crate::input::{ArmPattern, Scrutinee};
use quote::ToTokens;
use syn::spanned::Spanned;
use vstd::prelude::*;

verus! {

/// A `proc_macro2` span: where a token of the macro's input came from.
#[verifier::external_type_specification]
#[verifier::external_body]
pub struct ExSpan(proc_macro2::Span);

/// A single `proc_macro2` token tree.
#[verifier::external_type_specification]
#[verifier::external_body]
pub struct ExTokenTree(proc_macro2::TokenTree);

/// A `syn` pattern.
#[verifier::external_type_specification]
#[verifier::external_body]
pub struct ExPat(syn::Pat);

/// A `syn` expression.
#[verifier::external_type_specification]
#[verifier::external_body]
pub struct ExExpr(syn::Expr);

/// A `syn` `match` expression.
#[verifier::external_type_specification]
#[verifier::external_body]
pub struct ExExprMatch(syn::ExprMatch);

/// A `syn` parse error.
#[verifier::external_type_specification]
#[verifier::external_body]
pub struct ExError(syn::Error);

/// A parsed `let <pattern> = <expression>`: the span of its first attribute,
/// if it has one, the pattern and the expression, and (in ghost) the tokens it
/// was parsed from. Only [`parse_let_binding`] makes one.
pub struct LetBinding {
    attr: Option<proc_macro2::Span>,
    pat: syn::Pat,
    expr: syn::Expr,
    source: Ghost<Seq<proc_macro2::TokenTree>>,
}

impl LetBinding {
    /// The tokens this binding was parsed from.
    pub closed spec fn source(&self) -> Seq<proc_macro2::TokenTree> {
        self.source@
    }

    /// The span of the binding's first attribute, if it has one.
    pub closed spec fn attr(&self) -> Option<proc_macro2::Span> {
        self.attr
    }

    /// The span of the binding's first attribute, if it has one.
    pub fn attr_span(&self) -> (r: Option<proc_macro2::Span>)
        ensures
            r == self.attr(),
    {
        self.attr
    }

    /// The parsed pattern.
    pub fn pat(&self) -> &syn::Pat {
        &self.pat
    }

    /// The parsed expression: the future of a `select!` branch.
    pub fn expr(&self) -> &syn::Expr {
        &self.expr
    }

    /// The parsed pattern and expression.
    pub fn into_parts(self) -> (syn::Pat, syn::Expr) {
        (self.pat, self.expr)
    }
}

/// A failed parse of a `let` part: syn's error, and (in ghost) the tokens
/// whose parse failed. Only [`parse_let_binding`] makes one.
pub struct LetParseError {
    error: syn::Error,
    source: Ghost<Seq<proc_macro2::TokenTree>>,
}

impl LetParseError {
    /// The tokens whose parse failed.
    pub closed spec fn source(&self) -> Seq<proc_macro2::TokenTree> {
        self.source@
    }

    /// syn's error.
    pub fn error(&self) -> &syn::Error {
        &self.error
    }

    /// syn's error.
    pub fn into_error(self) -> syn::Error {
        self.error
    }
}

/// A binding standing for a parse of `source` that is never made.
pub closed spec fn unparsed_binding(source: Seq<proc_macro2::TokenTree>) -> LetBinding {
    LetBinding {
        attr: None,
        pat: vstd::pervasive::arbitrary(),
        expr: vstd::pervasive::arbitrary(),
        source: Ghost(source),
    }
}

/// An error standing for a parse of `source` that is never made.
pub closed spec fn unparsed_error(source: Seq<proc_macro2::TokenTree>) -> LetParseError {
    LetParseError { error: vstd::pervasive::arbitrary(), source: Ghost(source) }
}

/// The stand-ins carry the tokens they stand for, and no attribute.
pub proof fn lemma_unparsed(source: Seq<proc_macro2::TokenTree>)
    ensures
        unparsed_binding(source).source() == source,
        unparsed_binding(source).attr() is None,
        unparsed_error(source).source() == source,
{
}

/// Whether syn's `ExprLet` parser accepts `tokens` whole as
/// `let <pattern> = <expression>`: syn's grammar of Rust, which depends on the
/// tokens alone.
pub uninterp spec fn let_parses(tokens: Seq<proc_macro2::TokenTree>) -> bool;

/// Parses `tokens` as `let <pattern> = <expression>` with
/// `syn::parse2::<syn::ExprLet>`, and moves the parsed pattern and expression,
/// and the span of the first attribute, into a [`LetBinding`] that records
/// (in ghost) the tokens it came from; a failed parse's error likewise
/// records them.
///
/// The contract claims: the parse succeeds exactly when syn's grammar accepts
/// the tokens ([`let_parses`], a function of the tokens); the result records
/// the tokens handed in; and syn's parser for `ExprLet` always leaves its
/// attribute list empty, so a parsed binding carries no attribute. Which
/// pattern and expression syn builds from the tokens, and the text of its
/// error, are syn's grammar and are not restated.
#[verifier::external_body]
pub(crate) fn parse_let_binding(tokens: Vec<proc_macro2::TokenTree>) -> (r: Result<LetBinding, LetParseError>)
    ensures
        r is Ok <==> let_parses(tokens@),
        r matches Ok(b) ==> b.attr() is None && b.source() == tokens@,
        r matches Err(e) ==> e.source() == tokens@,
{
    let source = Ghost(tokens@);
    match syn::parse2::<syn::ExprLet>(tokens.into_iter().collect()) {
        Ok(e) => Ok(LetBinding {
            attr: match e.attrs.first() {
                Some(a) => Some(a.span()),
                None => None,
            },
            pat: *e.pat,
            expr: *e.expr,
            source,
        }),
        Err(error) => Err(LetParseError { error, source }),
    }
}

/// Whether syn's `ExprMatch` parser accepts `tokens` whole as a `match`
/// expression: syn's grammar of Rust, which depends on the tokens alone.
pub uninterp spec fn match_parses(tokens: Seq<proc_macro2::TokenTree>) -> bool;

/// Of the `match` that syn parses from `tokens`: whether it has an attribute.
pub uninterp spec fn match_has_attr(tokens: Seq<proc_macro2::TokenTree>) -> bool;

/// Of the `match` that syn parses from `tokens`: `None` when its scrutinee is
/// not a range expression, else whether the range has a start, whether its
/// limits are `..`, whether it has an end, and whether it has an attribute.
pub uninterp spec fn match_scrutinee(tokens: Seq<proc_macro2::TokenTree>) -> Option<(bool, bool, bool, bool)>;

/// Of the `match` that syn parses from `tokens`: how many arms it has.
pub uninterp spec fn match_arm_count(tokens: Seq<proc_macro2::TokenTree>) -> nat;

/// Of the `match` that syn parses from `tokens`: `Some(has_attr)` when arm
/// `i`'s pattern is `..` (with whether that pattern has an attribute), else
/// `None`.
pub uninterp spec fn match_arm_rest(tokens: Seq<proc_macro2::TokenTree>, i: int) -> Option<bool>;

/// Of the `match` that syn parses from `tokens`: whether arm `i`'s pattern is `_`.
pub uninterp spec fn match_arm_wild(tokens: Seq<proc_macro2::TokenTree>, i: int) -> bool;

/// Of the `match` that syn parses from `tokens`: the token trees of arm `i`'s
/// guard expression as syn prints them back, when the arm has a guard.
pub uninterp spec fn match_arm_guard(tokens: Seq<proc_macro2::TokenTree>, i: int) -> Option<Seq<proc_macro2::TokenTree>>;

/// A `match` that syn parsed, and (in ghost) the tokens it was parsed from.
/// Only [`parse_expr_match`] makes one.
pub struct ParsedMatch {
    expr: syn::ExprMatch,
    source: Ghost<Seq<proc_macro2::TokenTree>>,
    bodies: Ghost<Seq<syn::Expr>>,
}

impl ParsedMatch {
    /// The tokens this `match` was parsed from.
    pub closed spec fn source(&self) -> Seq<proc_macro2::TokenTree> {
        self.source@
    }

    /// The body of the parsed `match`'s arm `i`, as syn parsed it.
    pub closed spec fn body(&self, i: int) -> syn::Expr {
        self.bodies@[i]
    }
}

/// Whether a scrutinee model agrees with the shape syn gives for it.
pub open spec fn scrutinee_fits(s: Scrutinee, shape: Option<(bool, bool, bool, bool)>) -> bool {
    match (s, shape) {
        (Scrutinee::Other, None) => true,
        (Scrutinee::Range { has_start, half_open, has_end, attr }, Some((st, ho, en, at))) =>
            has_start == st && half_open == ho && has_end == en && (attr is Some) == at,
        _ => false,
    }
}

/// Whether a pattern model agrees with the shape syn gives for arm `i`.
pub open spec fn pattern_fits(p: ArmPattern, tokens: Seq<proc_macro2::TokenTree>, i: int) -> bool {
    match p {
        ArmPattern::Rest { attr } => match_arm_rest(tokens, i) == Some(attr is Some) && !match_arm_wild(tokens, i),
        ArmPattern::Wild => match_arm_wild(tokens, i) && match_arm_rest(tokens, i) is None,
        ArmPattern::Other => !match_arm_wild(tokens, i) && match_arm_rest(tokens, i) is None,
    }
}

/// Parses `tokens` as a `match` expression with `syn::parse2::<syn::ExprMatch>`,
/// recording (in ghost) the tokens parsed.
///
/// The contract claims that the parse succeeds exactly when syn's grammar
/// accepts the tokens ([`match_parses`]) and that the result records them;
/// what the parsed `match` holds is named, as functions of those tokens, by
/// the readers below. syn's error is not restated.
#[verifier::external_body]
pub(crate) fn parse_expr_match(tokens: Vec<proc_macro2::TokenTree>) -> (r: Result<ParsedMatch, syn::Error>)
    ensures
        r is Ok <==> match_parses(tokens@),
        r matches Ok(m) ==> m.source() == tokens@,
{
    let source = Ghost(tokens@);
    match syn::parse2::<syn::ExprMatch>(tokens.into_iter().collect()) {
        Ok(expr) => {
            let bodies = Ghost(expr.arms@.map_values(|a: syn::Arm| *a.body));
            Ok(ParsedMatch { expr, source, bodies })
        },
        Err(e) => Err(e),
    }
}

/// The span of the first attribute on the parsed `match`, if any (through
/// `Spanned::span`). The contract claims that there is one exactly when the
/// `match` has an attribute ([`match_has_attr`]); the span is not claimed.
#[verifier::external_body]
pub(crate) fn match_attr(m: &ParsedMatch) -> (r: Option<proc_macro2::Span>)
    ensures
        r is Some <==> match_has_attr(m.source()),
{
    match m.expr.attrs.first() {
        Some(a) => Some(a.span()),
        None => None,
    }
}

/// The shape of the parsed `match`'s scrutinee (`syn::Expr::Range` or
/// another expression, with the span of a range's first attribute) and the
/// scrutinee's span. The contract claims the shape ([`match_scrutinee`]);
/// the spans are not claimed.
#[verifier::external_body]
pub(crate) fn match_scrutinee_shape(m: &ParsedMatch) -> (r: (Scrutinee, proc_macro2::Span))
    ensures
        scrutinee_fits(r.0, match_scrutinee(m.source())),
{
    let shape = match &*m.expr.expr {
        syn::Expr::Range(r) => Scrutinee::Range {
            has_start: r.start.is_some(),
            half_open: matches!(r.limits, syn::RangeLimits::HalfOpen(_)),
            has_end: r.end.is_some(),
            attr: match r.attrs.first() {
                Some(a) => Some(a.span()),
                None => None,
            },
        },
        _ => Scrutinee::Other,
    };
    (shape, m.expr.expr.span())
}

/// How many arms the parsed `match` has ([`match_arm_count`]).
#[verifier::external_body]
pub(crate) fn arm_count(m: &ParsedMatch) -> (r: usize)
    ensures
        r == match_arm_count(m.source()),
{
    m.expr.arms.len()
}

/// The shape of arm `i`'s pattern (`syn::Pat::Rest` with the span of its
/// first attribute, `syn::Pat::Wild`, or another pattern) and the pattern's
/// span. The contract claims the shape ([`match_arm_rest`],
/// [`match_arm_wild`]); the spans are not claimed.
#[verifier::external_body]
pub(crate) fn arm_pattern(m: &ParsedMatch, i: usize) -> (r: (ArmPattern, proc_macro2::Span))
    requires
        i < match_arm_count(m.source()),
    ensures
        r.0 is Rest <==> match_arm_rest(m.source(), i as int) is Some,
        r.0 matches ArmPattern::Rest { attr } ==> match_arm_rest(m.source(), i as int) == Some(attr is Some),
        r.0 is Wild <==> match_arm_wild(m.source(), i as int),
{
    let pat = &m.expr.arms[i].pat;
    let shape = match pat {
        syn::Pat::Rest(r) => ArmPattern::Rest {
            attr: match r.attrs.first() {
                Some(x) => Some(x.span()),
                None => None,
            },
        },
        syn::Pat::Wild(_) => ArmPattern::Wild,
        _ => ArmPattern::Other,
    };
    (shape, pat.span())
}

/// The span of arm `i`'s `if` and its guard expression's token trees as syn
/// prints them (`ToTokens::to_token_stream`), when the arm has a guard. The
/// contract claims the trees ([`match_arm_guard`]); the span is not claimed.
#[verifier::external_body]
pub(crate) fn arm_guard(m: &ParsedMatch, i: usize) -> (r: Option<(proc_macro2::Span, Vec<proc_macro2::TokenTree>)>)
    requires
        i < match_arm_count(m.source()),
    ensures
        match r {
            Some((_, ts)) => match_arm_guard(m.source(), i as int) == Some(ts@),
            None => match_arm_guard(m.source(), i as int) is None,
        },
{
    match &m.expr.arms[i].guard {
        Some((if_token, g)) => Some((if_token.span(), g.to_token_stream().into_iter().collect())),
        None => None,
    }
}

/// A copy of arm `i`'s body (`Clone`, a deep copy). The contract claims it is
/// the body of the parsed `match`'s arm `i` ([`ParsedMatch::body`]).
#[verifier::external_body]
pub(crate) fn arm_body(m: &ParsedMatch, i: usize) -> (r: syn::Expr)
    requires
        i < match_arm_count(m.source()),
    ensures
        r == m.body(i as int),
{
    (*m.expr.arms[i].body).clone()
}

/// The character of the token tree `tokens[i]` when it is a punctuation
/// token (`proc_macro2::Punct::as_char`), else `None`.
pub uninterp spec fn punct_of(tokens: Seq<proc_macro2::TokenTree>, i: int) -> Option<char>;

/// The character of `tokens[i]` when it is a punctuation token, through
/// `proc_macro2::Punct::as_char`. The contract names the result
/// ([`punct_of`]), a function of the tokens.
#[verifier::external_body]
pub(crate) fn punct_at(tokens: &Vec<proc_macro2::TokenTree>, i: usize) -> (r: Option<char>)
    requires
        i < tokens.len(),
    ensures
        r == punct_of(tokens@, i as int),
{
    match &tokens[i] {
        proc_macro2::TokenTree::Punct(p) => Some(p.as_char()),
        _ => None,
    }
}

/// The text of `tokens[0]` when syn's `Ident` parser accepts that token alone
/// (an identifier that is not a keyword or `_`), else `None`.
pub uninterp spec fn ident_text(tokens: Seq<proc_macro2::TokenTree>) -> Option<Seq<char>>;

/// Reads the first token tree with `syn::parse2::<syn::Ident>`: its text
/// (`to_string`) and span when syn takes it as an identifier. The contract
/// names the text ([`ident_text`]), a function of the tokens; the span is not
/// claimed.
#[verifier::external_body]
pub(crate) fn first_ident(tokens: &Vec<proc_macro2::TokenTree>) -> (r: Option<(String, proc_macro2::Span)>)
    ensures
        match r {
            None => ident_text(tokens@) is None,
            Some((w, _)) => ident_text(tokens@) == Some(w@),
        },
{
    match tokens.first() {
        Some(t) => match syn::parse2::<syn::Ident>(proc_macro2::TokenStream::from(t.clone())) {
            Ok(id) => Some((id.to_string(), id.span())),
            Err(_) => None,
        },
        None => None,
    }
}

} // verus!
