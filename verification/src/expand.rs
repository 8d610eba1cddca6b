//! The rewrite of the `match` into the branches of `tokio::select!`.

use crate::errors::{error_at, ErrorKind, MacroError};
use crate::guard::{condition_view, split_guard, split_spec, GuardToken};
use crate::input::{ArmPattern, MatchArm, Scrutinee, SelectInput};
use crate::laws::{
    all_errors, branch_of_arm, first_parse_failure, input_well_formed, law_expansion_by_arm,
    some_parse_fails,
};
use crate::syntax::{
    lemma_unparsed, let_parses, parse_let_binding, unparsed_binding, unparsed_error, LetBinding,
    LetParseError,
};
use vstd::prelude::*;

verus! {

/// One branch of the `tokio::select!` that the macro emits.
pub enum SelectBranch {
    /// `else => <handler>`, from a `_` arm.
    Else { body: syn::Expr },
    /// `<pattern> = <future> (, if <condition>)? => <handler>,`, from a `..`
    /// arm: the pattern and future are those of the guard's parsed `let` part.
    Future {
        binding: LetBinding,
        condition: Option<Vec<proc_macro2::TokenTree>>,
        body: syn::Expr,
    },
}

/// A branch, with its condition as a sequence of token trees.
pub enum BranchView {
    Else { body: syn::Expr },
    Future {
        binding: LetBinding,
        condition: Option<Seq<proc_macro2::TokenTree>>,
        body: syn::Expr,
    },
}

impl View for SelectBranch {
    type V = BranchView;

    open spec fn view(&self) -> BranchView {
        match self {
            SelectBranch::Else { body } => BranchView::Else { body: *body },
            SelectBranch::Future { binding, condition, body } => BranchView::Future {
                binding: *binding,
                condition: condition_view(*condition),
                body: *body,
            },
        }
    }
}

/// The views of a sequence of branches.
pub open spec fn branches_view(v: Seq<SelectBranch>) -> Seq<BranchView> {
    v.map_values(|b: SelectBranch| b@)
}

/// What the macro expands to.
pub enum Expansion {
    /// `::tokio::select! { (biased;)? <branches> }`.
    Select { biased: bool, branches: Vec<SelectBranch> },
    /// One `compile_error!` per error, in order.
    Errors(Vec<MacroError>),
    /// The compile error of a guard whose `let` part did not parse.
    LetError(LetParseError),
}

/// An expansion, with its sequences as `Seq`.
pub enum ExpansionView {
    Select { biased: bool, branches: Seq<BranchView> },
    Errors(Seq<MacroError>),
    LetError(LetParseError),
}

impl View for Expansion {
    type V = ExpansionView;

    open spec fn view(&self) -> ExpansionView {
        match self {
            Expansion::Select { biased, branches } => ExpansionView::Select {
                biased: *biased,
                branches: branches_view(branches@),
            },
            Expansion::Errors(errors) => ExpansionView::Errors(errors@),
            Expansion::LetError(e) => ExpansionView::LetError(*e),
        }
    }
}

/// The errors found so far and the branches built so far.
pub struct ExpandState {
    pub errors: Seq<MacroError>,
    pub branches: Seq<BranchView>,
}

/// Where the walk over the arms stands: still running, or stopped by a guard
/// whose `let` part did not parse.
pub enum Progress {
    Running(ExpandState),
    Stopped(LetParseError),
}

/// What parsing the `let` part of a guard gave back.
pub type LetParse = Result<LetBinding, LetParseError>;

/// The error for an attribute at `attr`, if there is one.
pub open spec fn attr_errors(attr: Option<proc_macro2::Span>) -> Seq<MacroError> {
    match attr {
        Some(s) => seq![error_at(ErrorKind::NoAttributes, s)],
        None => Seq::empty(),
    }
}

/// Whether the scrutinee is a range with neither start nor end and `..` limits.
pub open spec fn is_full_range(s: Scrutinee) -> bool {
    match s {
        Scrutinee::Range { has_start, half_open, has_end, attr } => !has_start && half_open && !has_end,
        Scrutinee::Other => false,
    }
}

/// The errors of the `match` expression itself: an attribute on it, then a
/// scrutinee that is not `..` or carries an attribute.
pub open spec fn header_errors(match_attr: Option<proc_macro2::Span>, s: Scrutinee, s_span: proc_macro2::Span) -> Seq<MacroError> {
    attr_errors(match_attr) + if is_full_range(s) {
        match s {
            Scrutinee::Range { attr, .. } => attr_errors(attr),
            Scrutinee::Other => Seq::empty(),
        }
    } else {
        seq![error_at(ErrorKind::ExpectedRest, s_span)]
    }
}

/// The errors of an arm's pattern, when it is not `_`.
pub open spec fn pattern_errors(arm: MatchArm) -> Seq<MacroError> {
    match arm.pat {
        ArmPattern::Rest { attr } => attr_errors(attr),
        ArmPattern::Wild => Seq::empty(),
        ArmPattern::Other => seq![error_at(ErrorKind::ExpectedRest, arm.pat_span)],
    }
}

/// Whether the arm's guard gets its `let` part parsed: it is not `_` and has a guard.
pub open spec fn needs_binding(arm: MatchArm) -> bool {
    arm.pat !is Wild && arm.guard is Some
}

/// The tokens of an arm's guard (empty when it has none).
pub open spec fn guard_tokens(arm: MatchArm) -> Seq<GuardToken> {
    match arm.guard {
        Some(g) => g.tokens@,
        None => Seq::empty(),
    }
}

/// What follows the parse of a guard's `let` part: a parse error stops the
/// walk; a parsed binding with an attribute is an error; otherwise the arm
/// becomes a future branch.
pub open spec fn finish_spec(
    st: ExpandState,
    condition: Option<Seq<proc_macro2::TokenTree>>,
    body: syn::Expr,
    parsed: LetParse,
) -> Progress {
    match parsed {
        Err(e) => Progress::Stopped(e),
        Ok(b) => match b.attr() {
            Some(s) => Progress::Running(ExpandState {
                errors: st.errors.push(error_at(ErrorKind::NoAttributes, s)),
                branches: st.branches,
            }),
            None => Progress::Running(ExpandState {
                errors: st.errors,
                branches: st.branches.push(
                    BranchView::Future { binding: b, condition, body },
                ),
            }),
        },
    }
}

/// One arm's step; `parsed` is what the parse of its guard's `let` part gave,
/// read only when the arm needs a binding.
pub open spec fn arm_step(st: ExpandState, arm: MatchArm, parsed: LetParse) -> Progress {
    match arm.pat {
        ArmPattern::Wild => Progress::Running(ExpandState {
            errors: match arm.guard {
                Some(g) => st.errors.push(error_at(ErrorKind::NoGuard, g.if_span)),
                None => st.errors,
            },
            branches: st.branches.push(BranchView::Else { body: arm.body }),
        }),
        _ => {
            let errors = st.errors + pattern_errors(arm);
            match arm.guard {
                None => Progress::Running(ExpandState {
                    errors: errors.push(error_at(ErrorKind::ExpectedIfLet, arm.pat_span)),
                    branches: st.branches,
                }),
                Some(g) => finish_spec(
                    ExpandState { errors, branches: st.branches },
                    split_spec(g.tokens@).1,
                    arm.body,
                    parsed,
                ),
            }
        },
    }
}

/// The walk over `arms` in order, with `lets[i]` the parse result for `arms[i]`.
pub open spec fn run_arms(init: ExpandState, arms: Seq<MatchArm>, lets: Seq<LetParse>) -> Progress
    decreases arms.len(),
{
    if arms.len() == 0 {
        Progress::Running(init)
    } else {
        match run_arms(init, arms.drop_last(), lets.drop_last()) {
            Progress::Stopped(e) => Progress::Stopped(e),
            Progress::Running(st) => arm_step(st, arms.last(), lets.last()),
        }
    }
}

/// The state before the first arm.
pub open spec fn initial_state(input: SelectInput) -> ExpandState {
    ExpandState {
        errors: header_errors(input.match_attr, input.scrutinee, input.scrutinee_span),
        branches: Seq::empty(),
    }
}

/// The expansion once all arms are walked: the errors if there are any, else
/// the `select!` with its branches.
pub open spec fn conclude(st: ExpandState, biased: bool) -> ExpansionView {
    if st.errors.len() > 0 {
        ExpansionView::Errors(st.errors)
    } else {
        ExpansionView::Select { biased, branches: st.branches }
    }
}

/// The expansion of `input`, with `lets[i]` the parse result for arm `i`.
pub open spec fn spec_expand(input: SelectInput, lets: Seq<LetParse>) -> ExpansionView {
    match run_arms(initial_state(input), input.arms@, lets) {
        Progress::Stopped(e) => ExpansionView::LetError(e),
        Progress::Running(st) => conclude(st, input.is_biased),
    }
}

/// Parse results that fit `arms`: one per arm, and none that parsed carries
/// an attribute.
pub open spec fn lets_fit(arms: Seq<MatchArm>, lets: Seq<LetParse>) -> bool {
    &&& lets.len() == arms.len()
    &&& forall|i: int| 0 <= i < lets.len() ==> (#[trigger] lets[i] matches Ok(b) ==> b.attr() is None)
}

/// The tokens of an arm's guard that are handed to syn's parser: those
/// before its first top-level `&&`.
pub open spec fn let_part(arm: MatchArm) -> Seq<proc_macro2::TokenTree> {
    split_spec(guard_tokens(arm)).0
}

/// A parse result that is syn's for the arm: when the arm's guard's `let`
/// part is parsed, the result succeeded exactly when syn accepts that part,
/// and it came from that part.
pub open spec fn parse_fits(arm: MatchArm, p: LetParse) -> bool {
    needs_binding(arm) ==> {
        &&& (p is Ok <==> let_parses(let_part(arm)))
        &&& p matches Ok(b) ==> b.source() == let_part(arm)
        &&& p matches Err(e) ==> e.source() == let_part(arm)
    }
}

/// Parse results that are syn's, arm by arm.
pub open spec fn lets_follow_parse(arms: Seq<MatchArm>, lets: Seq<LetParse>) -> bool {
    forall|i: int| 0 <= i < arms.len() ==> #[trigger] parse_fits(arms[i], lets[i])
}

/// A stand-in parse result for an arm the walk never reaches.
pub open spec fn placeholder_parse(arm: MatchArm) -> LetParse {
    if let_parses(let_part(arm)) {
        Ok(unparsed_binding(let_part(arm)))
    } else {
        Err(unparsed_error(let_part(arm)))
    }
}

/// The errors of an optional attribute span.
pub fn attr_error_vec(attr: Option<proc_macro2::Span>) -> (r: Vec<MacroError>)
    ensures
        r@ == attr_errors(attr),
{
    let mut v = Vec::new();
    if let Some(s) = attr {
        v.push(MacroError { kind: ErrorKind::NoAttributes, span: s });
    }
    assert(v@ =~= attr_errors(attr));
    v
}

/// Checks the `match` expression itself: no attribute on it, and a scrutinee
/// that is exactly `..` with no attribute.
pub fn check_header(
    match_attr: Option<proc_macro2::Span>,
    scrutinee: &Scrutinee,
    scrutinee_span: proc_macro2::Span,
) -> (r: Vec<MacroError>)
    ensures
        r@ == header_errors(match_attr, *scrutinee, scrutinee_span),
{
    let mut errors = attr_error_vec(match_attr);
    match scrutinee {
        Scrutinee::Range { has_start, half_open, has_end, attr } => {
            if !*has_start && *half_open && !*has_end {
                let mut more = attr_error_vec(*attr);
                errors.append(&mut more);
            } else {
                errors.push(MacroError { kind: ErrorKind::ExpectedRest, span: scrutinee_span });
            }
        },
        Scrutinee::Other => {
            errors.push(MacroError { kind: ErrorKind::ExpectedRest, span: scrutinee_span });
        },
    }
    assert(errors@ =~= header_errors(match_attr, *scrutinee, scrutinee_span));
    errors
}

/// An arm whose guard's `let` part waits to be parsed: those tokens, the
/// condition after the first `&&`, if any, and the arm's handler.
pub struct PendingBinding {
    pub let_tokens: Vec<proc_macro2::TokenTree>,
    pub condition: Option<Vec<proc_macro2::TokenTree>>,
    pub body: syn::Expr,
}

/// The errors found and the branches built while walking the arms.
pub struct Expander {
    pub errors: Vec<MacroError>,
    pub branches: Vec<SelectBranch>,
}

impl View for Expander {
    type V = ExpandState;

    open spec fn view(&self) -> ExpandState {
        ExpandState { errors: self.errors@, branches: branches_view(self.branches@) }
    }
}

impl Expander {
    /// Pushes a branch.
    fn push_branch(&mut self, b: SelectBranch)
        ensures
            final(self)@.errors == old(self)@.errors,
            final(self)@.branches == old(self)@.branches.push(b@),
    {
        let ghost before = self.branches@;
        self.branches.push(b);
        assert(branches_view(self.branches@) =~= branches_view(before).push(b@));
    }

    /// Starts an arm: records the errors of its pattern and guard, and builds
    /// its `else` branch when it is `_`. When the arm needs its guard's `let`
    /// part parsed, returns that part split from the condition; the arm's step
    /// then ends with [`Expander::finish_arm`].
    pub fn begin_arm(&mut self, arm: MatchArm) -> (r: Option<PendingBinding>)
        ensures
            r is Some <==> needs_binding(arm),
            r is None ==> forall|p: LetParse|
                #[trigger] arm_step(old(self)@, arm, p) == Progress::Running(final(self)@),
            r matches Some(pb) ==> {
                &&& final(self)@ == ExpandState {
                    errors: old(self)@.errors + pattern_errors(arm),
                    branches: old(self)@.branches,
                }
                &&& pb.let_tokens@ == split_spec(guard_tokens(arm)).0
                &&& condition_view(pb.condition) == split_spec(guard_tokens(arm)).1
                &&& pb.body == arm.body
                &&& forall|p: LetParse|
                    #[trigger] arm_step(old(self)@, arm, p) == finish_spec(
                        final(self)@,
                        condition_view(pb.condition),
                        pb.body,
                        p,
                    )
            },
    {
        let ghost a = arm;
        let MatchArm { pat, pat_span, guard, body } = arm;
        match pat {
            ArmPattern::Wild => {
                if let Some(g) = guard {
                    self.errors.push(MacroError { kind: ErrorKind::NoGuard, span: g.if_span });
                }
                self.push_branch(SelectBranch::Else { body });
                return None;
            },
            ArmPattern::Rest { attr } => {
                let mut more = attr_error_vec(attr);
                self.errors.append(&mut more);
            },
            ArmPattern::Other => {
                self.errors.push(MacroError { kind: ErrorKind::ExpectedRest, span: pat_span });
            },
        }
        assert(self@.errors =~= old(self)@.errors + pattern_errors(a));
        match guard {
            None => {
                self.errors.push(MacroError { kind: ErrorKind::ExpectedIfLet, span: pat_span });
                None
            },
            Some(g) => {
                let (let_tokens, condition) = split_guard(g.tokens);
                Some(PendingBinding { let_tokens, condition, body })
            },
        }
    }

    /// Ends an arm whose guard's `let` part was parsed into `parsed`: a parse
    /// error is handed back; an attribute on the binding is an error;
    /// otherwise the arm's future branch is built.
    pub fn finish_arm(
        &mut self,
        condition: Option<Vec<proc_macro2::TokenTree>>,
        body: syn::Expr,
        parsed: LetParse,
    ) -> (r: Result<(), LetParseError>)
        ensures
            finish_spec(old(self)@, condition_view(condition), body, parsed) == match r {
                Ok(_) => Progress::Running(final(self)@),
                Err(e) => Progress::Stopped(e),
            },
    {
        match parsed {
            Err(e) => Err(e),
            Ok(b) => {
                match b.attr_span() {
                    Some(s) => {
                        self.errors.push(MacroError { kind: ErrorKind::NoAttributes, span: s });
                    },
                    None => {
                        self.push_branch(SelectBranch::Future { binding: b, condition, body });
                    },
                }
                Ok(())
            },
        }
    }

    /// The expansion once every arm is walked.
    pub fn conclude(self, biased: bool) -> (r: Expansion)
        ensures
            r@ == conclude(self@, biased),
    {
        if self.errors.len() > 0 {
            Expansion::Errors(self.errors)
        } else {
            Expansion::Select { biased, branches: self.branches }
        }
    }
}

/// A walk that stopped on a prefix of the arms stays stopped, with the same
/// error, over all of them.
pub proof fn lemma_stopped_stays(init: ExpandState, arms: Seq<MatchArm>, lets: Seq<LetParse>, k: int)
    requires
        arms.len() == lets.len(),
        0 <= k <= arms.len(),
        run_arms(init, arms.take(k), lets.take(k)) is Stopped,
    ensures
        run_arms(init, arms, lets) == run_arms(init, arms.take(k), lets.take(k)),
    decreases arms.len(),
{
    if k == arms.len() {
        assert(arms.take(k) =~= arms);
        assert(lets.take(k) =~= lets);
    } else {
        assert(arms.drop_last().take(k) =~= arms.take(k));
        assert(lets.drop_last().take(k) =~= lets.take(k));
        lemma_stopped_stays(init, arms.drop_last(), lets.drop_last(), k);
    }
}

/// Expands the `#[tokio_select]` input into `tokio::select!` branches, or
/// into the errors it holds.
///
/// The `let` part of each `..` arm's guard (its tokens before the first
/// top-level `&&`) is handed to syn's parser (see [`parse_let_binding`]); the
/// result is the expansion of `input` for the parse results that came back,
/// one per arm, each a success exactly when syn's grammar accepts that part.
pub fn tokio_select(input: SelectInput) -> (r: Expansion)
    ensures
        r@ is LetError <==> some_parse_fails(input.arms@),
        r@ matches ExpansionView::LetError(e) ==> exists|k: int|
            #[trigger] first_parse_failure(input.arms@, k) && e.source() == let_part(input.arms@[k]),
        r@ is Errors <==> !some_parse_fails(input.arms@) && all_errors(input).len() > 0,
        r@ matches ExpansionView::Errors(es) ==> es == all_errors(input),
        r@ matches ExpansionView::Select { biased, branches } ==> {
            &&& biased == input.is_biased
            &&& input_well_formed(input)
            &&& branches.len() == input.arms@.len()
            &&& forall|i: int| 0 <= i < branches.len() ==> branch_of_arm(input.arms@[i], #[trigger] branches[i])
        },
        exists|lets: Seq<LetParse>| {
            &&& #[trigger] lets_fit(input.arms@, lets)
            &&& lets_follow_parse(input.arms@, lets)
            &&& r@ == spec_expand(input, lets)
        },
{
    let ghost all = input.arms@;
    let ghost init = initial_state(input);
    let SelectInput { is_biased, match_attr, scrutinee, scrutinee_span, arms } = input;
    let mut ex = Expander { errors: check_header(match_attr, &scrutinee, scrutinee_span), branches: Vec::new() };
    assert(ex@.branches =~= Seq::<BranchView>::empty());
    let ghost mut lets: Seq<LetParse> = Seq::empty();
    for arm in it: arms
        invariant
            it.seq() == all,
            all == input.arms@,
            init == initial_state(input),
            lets_fit(all.take(it.index()), lets),
            lets_follow_parse(all.take(it.index()), lets),
            run_arms(init, all.take(it.index()), lets) == Progress::Running(ex@),
    {
        let ghost i = it.index();
        let ghost a = arm;
        let ghost before = ex@;
        assert(all.take(i + 1).drop_last() =~= all.take(i));
        assert(all.take(i + 1).last() == a);
        match ex.begin_arm(arm) {
            None => {
                let ghost filler: LetParse = Err(vstd::pervasive::arbitrary());
                proof {
                    assert(arm_step(before, a, filler) == Progress::Running(ex@));
                    assert(lets.push(filler).drop_last() =~= lets);
                    assert forall|j: int| 0 <= j < i + 1 implies #[trigger] parse_fits(all.take(i + 1)[j], lets.push(filler)[j]) by {
                        if j < i {
                            assert(all.take(i + 1)[j] == all.take(i)[j]);
                        }
                    }
                    lets = lets.push(filler);
                }
            },
            Some(pending) => {
                let PendingBinding { let_tokens, condition, body } = pending;
                let parsed = parse_let_binding(let_tokens);
                let ghost p = parsed;
                let ghost mid = ex@;
                let ghost cond = condition_view(condition);
                let done = ex.finish_arm(condition, body, parsed);
                proof {
                    assert(arm_step(before, a, p) == finish_spec(mid, cond, a.body, p));
                    assert(lets.push(p).drop_last() =~= lets);
                    assert forall|j: int| 0 <= j < i + 1 implies #[trigger] parse_fits(all.take(i + 1)[j], lets.push(p)[j]) by {
                        if j < i {
                            assert(all.take(i + 1)[j] == all.take(i)[j]);
                        }
                    }
                    lets = lets.push(p);
                }
                if let Err(e) = done {
                    proof {
                        let rest = Seq::new((all.len() - i - 1) as nat, |j: int| placeholder_parse(all[i + 1 + j]));
                        let full = lets + rest;
                        assert(full.take(i + 1) =~= lets);
                        assert forall|j: int| 0 <= j < all.len() implies #[trigger] parse_fits(all[j], full[j]) by {
                            if j <= i {
                                assert(all.take(i + 1)[j] == all[j]);
                                assert(full[j] == lets[j]);
                            } else {
                                assert(full[j] == placeholder_parse(all[j]));
                                lemma_unparsed(let_part(all[j]));
                            }
                        }
                        assert forall|j: int| 0 <= j < full.len() implies (#[trigger] full[j] matches Ok(b) ==> b.attr() is None) by {
                            if j <= i {
                                assert(full[j] == lets[j]);
                            } else {
                                assert(full[j] == placeholder_parse(all[j]));
                                lemma_unparsed(let_part(all[j]));
                            }
                        }
                        assert(run_arms(init, all.take(i + 1), lets) == Progress::Stopped(e));
                        lemma_stopped_stays(init, all, full, i + 1);
                        assert(lets_fit(all, full));
                        assert(Expansion::LetError(e)@ == spec_expand(input, full));
                        assert(lets_follow_parse(input.arms@, full));
                        law_expansion_by_arm(input, full);
                    }
                    return Expansion::LetError(e);
                }
            },
        }
    }
    assert(all.take(all.len() as int) =~= all);
    let r = ex.conclude(is_biased);
    assert(lets_fit(input.arms@, lets) && lets_follow_parse(input.arms@, lets) && r@ == spec_expand(input, lets));
    proof {
        law_expansion_by_arm(input, lets);
    }
    r
}

} // verus!
