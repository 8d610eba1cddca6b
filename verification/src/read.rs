//! Reading the macro's raw input tokens: the optional leading `biased,`, then
//! syn's parse of the `match`, read into the library's model.

use crate::errors::{biased_prefix, ErrorKind, MacroError};
use crate::expand::{tokio_select, Expansion};
use crate::guard::{trees, GuardToken};
use crate::input::{ArmPattern, Guard, MatchArm, Scrutinee, SelectInput};
use crate::expand::{
    attr_errors, guard_tokens, header_errors, is_full_range, let_part, needs_binding, pattern_errors,
    BranchView, ExpansionView,
};
use crate::guard::split_spec;
use crate::laws::{
    all_errors, arm_errors, arms_errors, branch_of_arm, expansion_by_arm, first_parse_failure,
    input_well_formed, parse_fails, some_parse_fails,
};
use crate::syntax::{match_arm_rest, match_arm_wild};
use crate::syntax::{
    arm_body, arm_count, arm_guard, arm_pattern, first_ident, ident_text, match_arm_count,
    match_arm_guard, match_attr, match_has_attr, match_parses, match_scrutinee,
    match_scrutinee_shape, parse_expr_match, pattern_fits, punct_at, punct_of, scrutinee_fits,
    ParsedMatch,
};
use vstd::prelude::*;

verus! {

/// Guard tokens whose punctuation characters are those of their trees.
pub open spec fn guard_classified(toks: Seq<GuardToken>) -> bool {
    forall|j: int| 0 <= j < toks.len() ==> #[trigger] toks[j].punct == punct_of(trees(toks), j)
}

/// An arm read from arm `i` of the `match` syn parses from `src`: its
/// pattern's shape, and its guard's token trees (classified), are syn's.
pub open spec fn arm_read_from(arm: MatchArm, src: Seq<proc_macro2::TokenTree>, i: int) -> bool {
    &&& pattern_fits(arm.pat, src, i)
    &&& match (arm.guard, match_arm_guard(src, i)) {
        (None, None) => true,
        (Some(g), Some(ts)) => trees(g.tokens@) == ts && guard_classified(g.tokens@),
        _ => false,
    }
}

/// An input read from the `match` syn parses from `src`: whether it has an
/// attribute, its scrutinee's shape, and its arms in order, each read from
/// the arm at its index.
pub open spec fn read_from(input: SelectInput, src: Seq<proc_macro2::TokenTree>) -> bool {
    &&& (input.match_attr is Some) == match_has_attr(src)
    &&& scrutinee_fits(input.scrutinee, match_scrutinee(src))
    &&& input.arms@.len() == match_arm_count(src)
    &&& forall|i: int| 0 <= i < input.arms@.len() ==> arm_read_from(#[trigger] input.arms@[i], src, i)
}

/// Pairs each token tree with its punctuation character, if it is one.
pub fn classify(tokens: Vec<proc_macro2::TokenTree>) -> (r: Vec<GuardToken>)
    ensures
        trees(r@) == tokens@,
        guard_classified(r@),
{
    let n = tokens.len();
    let mut puncts: Vec<Option<char>> = Vec::new();
    let mut i: usize = 0;
    while i < n
        invariant
            n == tokens@.len(),
            i <= n,
            puncts@.len() == i,
            forall|j: int| 0 <= j < i ==> #[trigger] puncts@[j] == punct_of(tokens@, j),
        decreases n - i,
    {
        puncts.push(punct_at(&tokens, i));
        i = i + 1;
    }
    let ghost orig = tokens@;
    let mut out: Vec<GuardToken> = Vec::new();
    for t in it: tokens
        invariant
            it.seq() == orig,
            puncts@.len() == orig.len(),
            forall|j: int| 0 <= j < orig.len() ==> #[trigger] puncts@[j] == punct_of(orig, j),
            out@.len() == it.index(),
            forall|j: int| 0 <= j < out@.len() ==> (#[trigger] out@[j]).tree == orig[j],
            forall|j: int| 0 <= j < out@.len() ==> (#[trigger] out@[j]).punct == punct_of(orig, j),
    {
        let k = out.len();
        let ghost before = out@;
        out.push(GuardToken { tree: t, punct: puncts[k] });
        assert(out@ == before.push(GuardToken { tree: t, punct: puncts@[k as int] }));
        assert(t == orig[k as int]);
    }
    assert(trees(out@) =~= orig);
    assert forall|j: int| 0 <= j < out@.len() implies #[trigger] out@[j].punct == punct_of(trees(out@), j) by {
        assert(out@[j].tree == orig[j]);
    }
    out
}

/// Each arm of the input has the body of the parsed `match`'s arm at its
/// index.
pub open spec fn bodies_read(input: SelectInput, m: ParsedMatch) -> bool {
    forall|i: int| 0 <= i < input.arms@.len() ==> (#[trigger] input.arms@[i]).body == m.body(i)
}

/// Reads a parsed `match` into the model: its first attribute's span, the
/// scrutinee's shape and span, and each arm's pattern, guard (classified) and
/// handler, in order.
pub fn read_match(m: &ParsedMatch, is_biased: bool) -> (r: SelectInput)
    ensures
        r.is_biased == is_biased,
        read_from(r, m.source()),
        bodies_read(r, *m),
{
    let match_attr = match_attr(m);
    let (scrutinee, scrutinee_span) = match_scrutinee_shape(m);
    let n = arm_count(m);
    let mut out: Vec<MatchArm> = Vec::new();
    let mut i: usize = 0;
    while i < n
        invariant
            n == match_arm_count(m.source()),
            i <= n,
            out@.len() == i,
            forall|j: int| 0 <= j < i ==> arm_read_from(#[trigger] out@[j], m.source(), j),
            forall|j: int| 0 <= j < i ==> (#[trigger] out@[j]).body == m.body(j),
        decreases n - i,
    {
        let (pat, pat_span) = arm_pattern(m, i);
        assert(pattern_fits(pat, m.source(), i as int));
        let guard = match arm_guard(m, i) {
            Some((if_span, guard_trees)) => Some(Guard { if_span, tokens: classify(guard_trees) }),
            None => None,
        };
        let body = arm_body(m, i);
        out.push(MatchArm { pat, pat_span, guard, body });
        i = i + 1;
    }
    SelectInput { is_biased, match_attr, scrutinee, scrutinee_span, arms: out }
}

/// Why the raw input was refused before any expansion.
pub enum InputError {
    /// A leading `<word>,` whose word is not `biased`.
    Prefix(MacroError),
    /// syn does not parse the rest as a `match` expression.
    Parse(syn::Error),
}

/// The leading word of the input: the text of the first token when it is an
/// identifier and the second token is a comma.
pub open spec fn prefix_word(tokens: Seq<proc_macro2::TokenTree>) -> Option<Seq<char>> {
    if tokens.len() >= 2 && punct_of(tokens, 1) == Some(',') {
        ident_text(tokens)
    } else {
        None
    }
}

/// The input starts with `biased,`.
pub open spec fn starts_biased(tokens: Seq<proc_macro2::TokenTree>) -> bool {
    prefix_word(tokens) == Some("biased"@)
}

/// The input starts with a word other than `biased` and a comma.
pub open spec fn prefix_refused(tokens: Seq<proc_macro2::TokenTree>) -> bool {
    prefix_word(tokens) matches Some(w) && w != "biased"@
}

/// The tokens of the `match` expression: after `biased,`, if it leads.
pub open spec fn match_tokens(tokens: Seq<proc_macro2::TokenTree>) -> Seq<proc_macro2::TokenTree> {
    if starts_biased(tokens) {
        tokens.skip(2)
    } else {
        tokens
    }
}

/// Expands the macro's raw input tokens: an optional leading `biased,`, then
/// a `match` that syn parses, read into the model and expanded by
/// [`tokio_select`].
pub fn expand_tokens(tokens: Vec<proc_macro2::TokenTree>) -> (r: Result<Expansion, InputError>)
    ensures
        (r matches Err(InputError::Prefix(_))) <==> prefix_refused(tokens@),
        r matches Err(InputError::Prefix(e)) ==> e.kind == ErrorKind::ExpectedBiased,
        (r matches Err(InputError::Parse(_))) <==> !prefix_refused(tokens@) && !match_parses(match_tokens(tokens@)),
        r matches Ok(x) ==> exists|input: SelectInput, m: ParsedMatch|
            #![trigger expansion_by_arm(input, x@), bodies_read(input, m)]
        {
            &&& expansion_by_arm(input, x@)
            &&& input.is_biased == starts_biased(tokens@)
            &&& m.source() == match_tokens(tokens@)
            &&& read_from(input, m.source())
            &&& bodies_read(input, m)
            &&& x@ matches ExpansionView::Select { branches, .. } ==> {
                &&& branches.len() == match_arm_count(m.source())
                &&& forall|i: int| 0 <= i < branches.len() ==> #[trigger] branch_body(branches[i]) == m.body(i)
            }
        },
{
    let word = if tokens.len() >= 2 {
        match punct_at(&tokens, 1) {
            Some(c) => if c == ',' {
                first_ident(&tokens)
            } else {
                None
            },
            None => None,
        }
    } else {
        None
    };
    let is_biased = match biased_prefix(word) {
        Ok(b) => b,
        Err(e) => return Err(InputError::Prefix(e)),
    };
    let mut tokens = tokens;
    let rest = if is_biased {
        tokens.split_off(2)
    } else {
        tokens
    };
    match parse_expr_match(rest) {
        Err(e) => Err(InputError::Parse(e)),
        Ok(m) => {
            let input = read_match(&m, is_biased);
            let x = tokio_select(input);
            proof {
                law_branch_handlers(input, m, x@);
            }
            assert(expansion_by_arm(input, x@) && bodies_read(input, m));
            Ok(x)
        },
    }
}

/// The kinds of a sequence of errors.
pub open spec fn error_kinds(es: Seq<MacroError>) -> Seq<ErrorKind> {
    es.map_values(|e: MacroError| e.kind)
}

/// Two arms of the same shape: the same kind of pattern, with an attribute
/// on a `..` in both or neither, a guard in both or neither, and the same
/// guard tokens.
pub open spec fn arm_alike(x: MatchArm, y: MatchArm) -> bool {
    &&& (x.pat is Wild) == (y.pat is Wild)
    &&& (x.pat is Other) == (y.pat is Other)
    &&& (x.pat matches ArmPattern::Rest { attr } ==> y.pat matches ArmPattern::Rest { attr: a2 }
        && (attr is Some) == (a2 is Some))
    &&& (x.guard is Some) == (y.guard is Some)
    &&& guard_tokens(x) == guard_tokens(y)
}

/// Two branches of the same shape: both `else`, or both futures whose
/// bindings come from the same tokens and whose conditions are the same.
pub open spec fn branch_alike(p: BranchView, q: BranchView) -> bool {
    match (p, q) {
        (BranchView::Else { .. }, BranchView::Else { .. }) => true,
        (BranchView::Future { binding: a, condition: c1, .. }, BranchView::Future { binding: b, condition: c2, .. }) =>
            a.source() == b.source() && c1 == c2,
        _ => false,
    }
}

proof fn lemma_kinds_concat(a: Seq<MacroError>, b: Seq<MacroError>)
    ensures
        error_kinds(a + b) == error_kinds(a) + error_kinds(b),
{
    assert(error_kinds(a + b) =~= error_kinds(a) + error_kinds(b));
}

proof fn lemma_attr_kinds(a: Option<proc_macro2::Span>, b: Option<proc_macro2::Span>)
    requires
        (a is Some) == (b is Some),
    ensures
        error_kinds(attr_errors(a)) == error_kinds(attr_errors(b)),
{
    assert(error_kinds(attr_errors(a)) =~= error_kinds(attr_errors(b)));
}

proof fn lemma_arm_kinds(x: MatchArm, y: MatchArm)
    requires
        arm_alike(x, y),
    ensures
        error_kinds(arm_errors(x)) == error_kinds(arm_errors(y)),
{
    match x.pat {
        ArmPattern::Wild => {
            assert(error_kinds(arm_errors(x)) =~= error_kinds(arm_errors(y)));
        },
        _ => {
            match (x.pat, y.pat) {
                (ArmPattern::Rest { attr: a1 }, ArmPattern::Rest { attr: a2 }) => lemma_attr_kinds(a1, a2),
                _ => {},
            }
            assert(error_kinds(pattern_errors(x)) =~= error_kinds(pattern_errors(y)));
            let gx = match x.guard {
                Some(g) => Seq::<MacroError>::empty(),
                None => seq![crate::errors::error_at(ErrorKind::ExpectedIfLet, x.pat_span)],
            };
            let gy = match y.guard {
                Some(g) => Seq::<MacroError>::empty(),
                None => seq![crate::errors::error_at(ErrorKind::ExpectedIfLet, y.pat_span)],
            };
            assert(error_kinds(gx) =~= error_kinds(gy));
            lemma_kinds_concat(pattern_errors(x), gx);
            lemma_kinds_concat(pattern_errors(y), gy);
        },
    }
}

proof fn lemma_arms_kinds(a1: Seq<MatchArm>, a2: Seq<MatchArm>)
    requires
        a1.len() == a2.len(),
        forall|i: int| 0 <= i < a1.len() ==> arm_alike(#[trigger] a1[i], a2[i]),
    ensures
        error_kinds(arms_errors(a1)) == error_kinds(arms_errors(a2)),
    decreases a1.len(),
{
    if a1.len() > 0 {
        let n = a1.len() - 1;
        let (f1, f2) = (a1.drop_last(), a2.drop_last());
        assert forall|i: int| 0 <= i < f1.len() implies arm_alike(#[trigger] f1[i], f2[i]) by {
            assert(f1[i] == a1[i] && f2[i] == a2[i]);
        }
        lemma_arms_kinds(f1, f2);
        assert(arm_alike(a1[n], a2[n]));
        lemma_arm_kinds(a1[n], a2[n]);
        lemma_kinds_concat(arms_errors(f1), arm_errors(a1[n]));
        lemma_kinds_concat(arms_errors(f2), arm_errors(a2[n]));
    }
}

proof fn lemma_read_alike(in1: SelectInput, in2: SelectInput, src: Seq<proc_macro2::TokenTree>)
    requires
        read_from(in1, src),
        read_from(in2, src),
    ensures
        in1.arms@.len() == in2.arms@.len(),
        forall|i: int| 0 <= i < in1.arms@.len() ==> arm_alike(#[trigger] in1.arms@[i], in2.arms@[i]),
        error_kinds(all_errors(in1)) == error_kinds(all_errors(in2)),
        input_well_formed(in1) ==> input_well_formed(in2),
{
    assert forall|i: int| 0 <= i < in1.arms@.len() implies arm_alike(#[trigger] in1.arms@[i], in2.arms@[i]) by {
        let (x, y) = (in1.arms@[i], in2.arms@[i]);
        assert(arm_read_from(x, src, i) && arm_read_from(y, src, i));
        match (x.guard, y.guard) {
            (Some(g1), Some(g2)) => {
                assert(trees(g1.tokens@) == trees(g2.tokens@));
                assert(trees(g1.tokens@).len() == g1.tokens@.len());
                assert(trees(g2.tokens@).len() == g2.tokens@.len());
                assert forall|j: int| 0 <= j < g1.tokens@.len() implies #[trigger] g1.tokens@[j] == g2.tokens@[j] by {
                    assert(trees(g1.tokens@)[j] == g1.tokens@[j].tree);
                    assert(trees(g2.tokens@)[j] == g2.tokens@[j].tree);
                    assert(g1.tokens@[j].punct == punct_of(trees(g1.tokens@), j));
                    assert(g2.tokens@[j].punct == punct_of(trees(g2.tokens@), j));
                }
                assert(g1.tokens@ =~= g2.tokens@);
            },
            _ => {},
        }
    }
    let h1 = header_errors(in1.match_attr, in1.scrutinee, in1.scrutinee_span);
    let h2 = header_errors(in2.match_attr, in2.scrutinee, in2.scrutinee_span);
    lemma_attr_kinds(in1.match_attr, in2.match_attr);
    let t1 = if is_full_range(in1.scrutinee) {
        match in1.scrutinee {
            Scrutinee::Range { attr, .. } => attr_errors(attr),
            Scrutinee::Other => Seq::empty(),
        }
    } else {
        seq![crate::errors::error_at(ErrorKind::ExpectedRest, in1.scrutinee_span)]
    };
    let t2 = if is_full_range(in2.scrutinee) {
        match in2.scrutinee {
            Scrutinee::Range { attr, .. } => attr_errors(attr),
            Scrutinee::Other => Seq::empty(),
        }
    } else {
        seq![crate::errors::error_at(ErrorKind::ExpectedRest, in2.scrutinee_span)]
    };
    match (in1.scrutinee, in2.scrutinee) {
        (Scrutinee::Range { attr: a1, .. }, Scrutinee::Range { attr: a2, .. }) => lemma_attr_kinds(a1, a2),
        _ => {},
    }
    assert(error_kinds(t1) =~= error_kinds(t2));
    lemma_kinds_concat(attr_errors(in1.match_attr), t1);
    lemma_kinds_concat(attr_errors(in2.match_attr), t2);
    lemma_arms_kinds(in1.arms@, in2.arms@);
    lemma_kinds_concat(h1, arms_errors(in1.arms@));
    lemma_kinds_concat(h2, arms_errors(in2.arms@));
    if input_well_formed(in1) {
        assert forall|i: int| 0 <= i < in2.arms@.len() implies crate::laws::arm_well_formed(#[trigger] in2.arms@[i]) by {
            assert(arm_alike(in1.arms@[i], in2.arms@[i]));
            assert(crate::laws::arm_well_formed(in1.arms@[i]));
        }
    }
}

/// Two expansions of `match`es read from the same tokens agree in all but
/// the flag, the spans, and what syn builds from each guard: both are parse
/// errors (for the same tokens) or neither; both are errors of the same kinds
/// in the same order; or both are `select!`s, each biased as its input says,
/// with branches of the same shapes in the same order. So a leading
/// `biased,` (which [`expand_tokens`] reads off before the `match`) only
/// makes the `select!` biased.
pub proof fn law_same_match_tokens(
    in1: SelectInput,
    in2: SelectInput,
    src: Seq<proc_macro2::TokenTree>,
    x1: ExpansionView,
    x2: ExpansionView,
)
    requires
        read_from(in1, src),
        read_from(in2, src),
        expansion_by_arm(in1, x1),
        expansion_by_arm(in2, x2),
    ensures
        x1 is LetError <==> x2 is LetError,
        x1 matches ExpansionView::LetError(e1) ==> (x2 matches ExpansionView::LetError(e2) && e1.source() == e2.source()),
        x1 matches ExpansionView::Errors(es1) ==> (x2 matches ExpansionView::Errors(es2)
            && error_kinds(es1) == error_kinds(es2)),
        x1 matches ExpansionView::Select { biased: b1, branches: br1 } ==> (
            x2 matches ExpansionView::Select { biased: b2, branches: br2 }
                && b1 == in1.is_biased && b2 == in2.is_biased && br1.len() == br2.len()
                && forall|i: int| 0 <= i < br1.len() ==> branch_alike(#[trigger] br1[i], br2[i])),
{
    lemma_read_alike(in1, in2, src);
    lemma_read_alike(in2, in1, src);
    let (a1, a2) = (in1.arms@, in2.arms@);
    assert forall|k: int| 0 <= k < a1.len() implies #[trigger] parse_fails(a1[k]) == parse_fails(a2[k])
        && let_part(a1[k]) == let_part(a2[k]) by {
        assert(arm_alike(a1[k], a2[k]));
    }
    if some_parse_fails(a1) {
        let k = choose|k: int| 0 <= k < a1.len() && #[trigger] parse_fails(a1[k]);
        assert(parse_fails(a2[k]));
    }
    if some_parse_fails(a2) {
        let k = choose|k: int| 0 <= k < a2.len() && #[trigger] parse_fails(a2[k]);
        assert(parse_fails(a1[k]));
    }
    assert(error_kinds(all_errors(in1)).len() == all_errors(in1).len());
    assert(error_kinds(all_errors(in2)).len() == all_errors(in2).len());
    if x1 is LetError {
        let e1 = x1->LetError_0;
        let e2 = x2->LetError_0;
        let k1 = choose|k: int| #[trigger] first_parse_failure(a1, k) && e1.source() == let_part(a1[k]);
        let k2 = choose|k: int| #[trigger] first_parse_failure(a2, k) && e2.source() == let_part(a2[k]);
        if k1 < k2 {
            assert(parse_fails(a1[k1]) == parse_fails(a2[k1]));
        } else if k2 < k1 {
            assert(parse_fails(a1[k2]) == parse_fails(a2[k2]));
        }
    }
    if x1 is Select {
        let br1 = x1->Select_branches;
        assert(!some_parse_fails(a2) && all_errors(in2).len() == 0);
        assert(x2 is Select);
        let br2 = x2->Select_branches;
        assert forall|i: int| 0 <= i < br1.len() implies branch_alike(#[trigger] br1[i], br2[i]) by {
            assert(branch_of_arm(a1[i], br1[i]));
            assert(branch_of_arm(a2[i], br2[i]));
            assert(arm_alike(a1[i], a2[i]));
        }
    }
}

/// The handler of a branch.
pub open spec fn branch_body(b: BranchView) -> syn::Expr {
    match b {
        BranchView::Else { body } => body,
        BranchView::Future { body, .. } => body,
    }
}

/// Each branch of the `select!` keeps its own arm's handler: when an input
/// read from a parsed `match` (as [`expand_tokens`] ensures) expands to a
/// `select!`, branch `i`'s handler is the body of the parsed `match`'s arm
/// `i`, and branch `i` is `else` exactly when arm `i`'s pattern is `_`.
pub proof fn law_branch_handlers(input: SelectInput, m: ParsedMatch, x: ExpansionView)
    requires
        read_from(input, m.source()),
        bodies_read(input, m),
        expansion_by_arm(input, x),
    ensures
        x matches ExpansionView::Select { branches, .. } ==> {
            &&& branches.len() == match_arm_count(m.source())
            &&& forall|i: int| 0 <= i < branches.len() ==> #[trigger] branch_body(branches[i]) == m.body(i)
                && (branches[i] is Else <==> match_arm_wild(m.source(), i))
        },
{
    if x is Select {
        let branches = x->Select_branches;
        assert forall|i: int| 0 <= i < branches.len() implies #[trigger] branch_body(branches[i]) == m.body(i)
            && (branches[i] is Else <==> match_arm_wild(m.source(), i)) by {
            let arm = input.arms@[i];
            assert(branch_of_arm(arm, branches[i]));
            assert(arm.body == m.body(i));
            assert(arm_read_from(arm, m.source(), i));
        }
    }
}

} // verus!
