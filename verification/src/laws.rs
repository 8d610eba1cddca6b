//! What holds of every expansion, whatever the parses of the guards' `let`
//! parts gave back.

use crate::errors::{error_at, ErrorKind, MacroError};
use crate::expand::{
    arm_step, guard_tokens, header_errors, initial_state, is_full_range,
    lemma_stopped_stays, let_part, lets_fit, lets_follow_parse, needs_binding, parse_fits, pattern_errors, run_arms, spec_expand,
    BranchView, ExpandState, ExpansionView, LetParse, Progress,
};
use crate::guard::split_spec;
use crate::syntax::{let_parses, LetBinding, LetParseError};
use crate::input::{ArmPattern, MatchArm, Scrutinee, SelectInput};
use vstd::prelude::*;

verus! {

/// The errors an arm reports when its guard's `let` part, if parsed, parsed.
pub open spec fn arm_errors(arm: MatchArm) -> Seq<MacroError> {
    match arm.pat {
        ArmPattern::Wild => match arm.guard {
            Some(g) => seq![error_at(ErrorKind::NoGuard, g.if_span)],
            None => Seq::empty(),
        },
        _ => pattern_errors(arm) + match arm.guard {
            Some(g) => Seq::<MacroError>::empty(),
            None => seq![error_at(ErrorKind::ExpectedIfLet, arm.pat_span)],
        },
    }
}

/// The errors of all arms, in order.
pub open spec fn arms_errors(arms: Seq<MatchArm>) -> Seq<MacroError>
    decreases arms.len(),
{
    if arms.len() == 0 {
        Seq::empty()
    } else {
        arms_errors(arms.drop_last()) + arm_errors(arms.last())
    }
}

/// The branch an arm yields when its guard's `let` part, if parsed, gave
/// `parsed`: the `else` branch for `_`, a future branch for a `..` arm with a
/// parsed guard, none for an arm without a guard.
pub open spec fn arm_branches(arm: MatchArm, parsed: LetParse) -> Seq<BranchView> {
    match arm.pat {
        ArmPattern::Wild => seq![BranchView::Else { body: arm.body }],
        _ => match arm.guard {
            None => Seq::empty(),
            Some(g) => match parsed {
                Ok(b) => seq![BranchView::Future {
                    binding: b,
                    condition: split_spec(g.tokens@).1,
                    body: arm.body,
                }],
                Err(_) => Seq::empty(),
            },
        },
    }
}

/// The branches of all arms, in order.
pub open spec fn arms_branches(arms: Seq<MatchArm>, lets: Seq<LetParse>) -> Seq<BranchView>
    decreases arms.len(),
{
    if arms.len() == 0 {
        Seq::empty()
    } else {
        arms_branches(arms.drop_last(), lets.drop_last()) + arm_branches(arms.last(), lets.last())
    }
}

/// Every guard whose `let` part is parsed parsed.
pub open spec fn parses_ok(arms: Seq<MatchArm>, lets: Seq<LetParse>) -> bool {
    forall|i: int| 0 <= i < arms.len() && #[trigger] needs_binding(arms[i]) ==> lets[i] is Ok
}

/// All errors of the input, in order: the header's, then each arm's.
pub open spec fn all_errors(input: SelectInput) -> Seq<MacroError> {
    header_errors(input.match_attr, input.scrutinee, input.scrutinee_span) + arms_errors(input.arms@)
}

/// An arm as the macro wants it: `_ => ..` without a guard, or
/// `.. if let .. => ..` with no attribute on the `..`.
pub open spec fn arm_well_formed(arm: MatchArm) -> bool {
    match arm.pat {
        ArmPattern::Wild => arm.guard is None,
        ArmPattern::Rest { attr } => attr is None && arm.guard is Some,
        ArmPattern::Other => false,
    }
}

/// An input as the macro wants it: no attribute on the `match`, a scrutinee
/// that is exactly `..` with no attribute, and well-formed arms.
pub open spec fn input_well_formed(input: SelectInput) -> bool {
    &&& input.match_attr is None
    &&& is_full_range(input.scrutinee)
    &&& input.scrutinee matches Scrutinee::Range { attr, .. } && attr is None
    &&& forall|i: int| 0 <= i < input.arms@.len() ==> arm_well_formed(#[trigger] input.arms@[i])
}

/// The branch a well-formed arm becomes.
pub open spec fn branch_of(arm: MatchArm, parsed: LetParse) -> BranchView {
    arm_branches(arm, parsed)[0]
}

proof fn lemma_run_parsed(init: ExpandState, arms: Seq<MatchArm>, lets: Seq<LetParse>)
    requires
        lets_fit(arms, lets),
        parses_ok(arms, lets),
    ensures
        run_arms(init, arms, lets) == Progress::Running(ExpandState {
            errors: init.errors + arms_errors(arms),
            branches: init.branches + arms_branches(arms, lets),
        }),
    decreases arms.len(),
{
    if arms.len() == 0 {
        assert(init.errors + arms_errors(arms) =~= init.errors);
        assert(init.branches + arms_branches(arms, lets) =~= init.branches);
    } else {
        let n = arms.len() - 1;
        let (front, fl) = (arms.drop_last(), lets.drop_last());
        assert forall|i: int| 0 <= i < fl.len() implies (#[trigger] fl[i] matches Ok(b) ==> b.attr() is None) by {
            assert(fl[i] == lets[i]);
        }
        assert forall|i: int| 0 <= i < front.len() && #[trigger] needs_binding(front[i]) implies fl[i] is Ok by {
            assert(front[i] == arms[i]);
            assert(needs_binding(arms[i]));
        }
        lemma_run_parsed(init, front, fl);
        let st = ExpandState {
            errors: init.errors + arms_errors(front),
            branches: init.branches + arms_branches(front, fl),
        };
        let arm = arms.last();
        let p = lets.last();
        assert(arm == arms[n]);
        assert(p == lets[n]);
        assert(needs_binding(arm) ==> p is Ok);
        assert(p matches Ok(b) ==> b.attr() is None);
        assert(st.errors + arm_errors(arm) =~= init.errors + arms_errors(arms));
        assert(st.branches + arm_branches(arm, p) =~= init.branches + arms_branches(arms, lets));
        let next = ExpandState {
            errors: st.errors + arm_errors(arm),
            branches: st.branches + arm_branches(arm, p),
        };
        match arm.pat {
            ArmPattern::Wild => {
                match arm.guard {
                    Some(g) => {
                        assert(st.errors.push(error_at(ErrorKind::NoGuard, g.if_span)) =~= next.errors);
                    },
                    None => {
                        assert(st.errors =~= next.errors);
                    },
                }
                assert(st.branches.push(BranchView::Else { body: arm.body }) =~= next.branches);
            },
            _ => {
                match arm.guard {
                    None => {
                        assert((st.errors + pattern_errors(arm)).push(error_at(ErrorKind::ExpectedIfLet, arm.pat_span))
                            =~= next.errors);
                        assert(st.branches =~= next.branches);
                    },
                    Some(g) => {
                        assert(st.errors + pattern_errors(arm) =~= next.errors);
                        let b = p->Ok_0;
                        assert(st.branches.push(BranchView::Future {
                            binding: b,
                            condition: split_spec(g.tokens@).1,
                            body: arm.body,
                        }) =~= next.branches);
                    },
                }
            },
        }
        assert(arm_step(st, arm, p) == Progress::Running(next));
    }
}

/// When every guard whose `let` part is parsed parsed, the input's errors,
/// if it has any, are reported in order, the header's first and then each
/// arm's; when it has none, the `select!` holds the arms' branches in order,
/// `biased` when the input said so.
pub proof fn law_parsed_guards(input: SelectInput, lets: Seq<LetParse>)
    requires
        lets_fit(input.arms@, lets),
        parses_ok(input.arms@, lets),
    ensures
        all_errors(input).len() > 0 ==> spec_expand(input, lets) == ExpansionView::Errors(all_errors(input)),
        all_errors(input).len() == 0 ==> spec_expand(input, lets) == (ExpansionView::Select {
            biased: input.is_biased,
            branches: arms_branches(input.arms@, lets),
        }),
{
    let init = initial_state(input);
    lemma_run_parsed(init, input.arms@, lets);
    assert(init.branches + arms_branches(input.arms@, lets) =~= arms_branches(input.arms@, lets));
}

/// The first guard whose `let` part does not parse decides the expansion:
/// its parse error is reported, and nothing else, whatever errors the other
/// arms hold.
pub proof fn law_first_parse_failure(input: SelectInput, lets: Seq<LetParse>, k: int)
    requires
        lets_fit(input.arms@, lets),
        0 <= k < input.arms@.len(),
        needs_binding(input.arms@[k]),
        lets[k] is Err,
        forall|j: int| 0 <= j < k && #[trigger] needs_binding(input.arms@[j]) ==> lets[j] is Ok,
    ensures
        spec_expand(input, lets) == ExpansionView::LetError(lets[k]->Err_0),
{
    let arms = input.arms@;
    let init = initial_state(input);
    let (front, fl) = (arms.take(k), lets.take(k));
    assert forall|i: int| 0 <= i < fl.len() implies (#[trigger] fl[i] matches Ok(b) ==> b.attr() is None) by {
        assert(fl[i] == lets[i]);
    }
    assert forall|i: int| 0 <= i < front.len() && #[trigger] needs_binding(front[i]) implies fl[i] is Ok by {
        assert(front[i] == arms[i]);
    }
    lemma_run_parsed(init, front, fl);
    assert(arms.take(k + 1).drop_last() =~= front);
    assert(lets.take(k + 1).drop_last() =~= fl);
    assert(arms.take(k + 1).last() == arms[k]);
    assert(lets.take(k + 1).last() == lets[k]);
    assert(run_arms(init, arms.take(k + 1), lets.take(k + 1)) == Progress::Stopped(lets[k]->Err_0));
    lemma_stopped_stays(init, arms, lets, k + 1);
}

proof fn lemma_well_formed_arms(arms: Seq<MatchArm>, lets: Seq<LetParse>)
    requires
        lets.len() == arms.len(),
        parses_ok(arms, lets),
        forall|i: int| 0 <= i < arms.len() ==> arm_well_formed(#[trigger] arms[i]),
    ensures
        arms_errors(arms) == Seq::<MacroError>::empty(),
        arms_branches(arms, lets) == Seq::new(arms.len(), |i: int| branch_of(arms[i], lets[i])),
    decreases arms.len(),
{
    if arms.len() == 0 {
        assert(arms_branches(arms, lets) =~= Seq::new(arms.len(), |i: int| branch_of(arms[i], lets[i])));
    } else {
        let n = arms.len() - 1;
        let (front, fl) = (arms.drop_last(), lets.drop_last());
        assert forall|i: int| 0 <= i < front.len() implies arm_well_formed(#[trigger] front[i]) by {
            assert(front[i] == arms[i]);
        }
        assert forall|i: int| 0 <= i < front.len() && #[trigger] needs_binding(front[i]) implies fl[i] is Ok by {
            assert(front[i] == arms[i]);
        }
        lemma_well_formed_arms(front, fl);
        let arm = arms.last();
        assert(arm == arms[n]);
        assert(arm_well_formed(arm));
        assert(arm.pat !is Wild ==> needs_binding(arm));
        assert(arm.pat !is Wild ==> lets[n] is Ok);
        assert(arm_errors(arm) =~= Seq::<MacroError>::empty());
        assert(arms_errors(arms) =~= Seq::<MacroError>::empty());
        assert(arm_branches(arm, lets.last()).len() == 1);
        assert(arms_branches(arms, lets) =~= Seq::new(arms.len(), |i: int| branch_of(arms[i], lets[i])));
    }
}

/// A well-formed input whose guards' `let` parts all parsed expands to a
/// `select!`, `biased` when the input said so, with one branch per arm in the
/// arms' order: `else => <handler>` for `_`, and for `.. if let <pattern> =
/// <future> && <condition> => <handler>` the branch `<pattern> = <future>,
/// if <condition> => <handler>`, the condition being the guard's tokens after
/// its first top-level `&&` (no condition when it has none).
pub proof fn law_well_formed_input(input: SelectInput, lets: Seq<LetParse>)
    requires
        input_well_formed(input),
        lets_fit(input.arms@, lets),
        parses_ok(input.arms@, lets),
    ensures
        spec_expand(input, lets) == (ExpansionView::Select {
            biased: input.is_biased,
            branches: Seq::new(input.arms@.len(), |i: int| branch_of(input.arms@[i], lets[i])),
        }),
{
    lemma_well_formed_arms(input.arms@, lets);
    assert(header_errors(input.match_attr, input.scrutinee, input.scrutinee_span) =~= Seq::<MacroError>::empty());
    assert(all_errors(input) =~= Seq::<MacroError>::empty());
    law_parsed_guards(input, lets);
}

/// When no arm has its guard's `let` part parsed, the expansion does not
/// depend on any parse result.
pub proof fn law_no_parse_needed(input: SelectInput, lets1: Seq<LetParse>, lets2: Seq<LetParse>)
    requires
        lets_fit(input.arms@, lets1),
        lets_fit(input.arms@, lets2),
        forall|i: int| 0 <= i < input.arms@.len() ==> !needs_binding(#[trigger] input.arms@[i]),
    ensures
        spec_expand(input, lets1) == spec_expand(input, lets2),
{
    lemma_branches_ignore_lets(input.arms@, lets1, lets2);
    law_parsed_guards(input, lets1);
    law_parsed_guards(input, lets2);
}

/// A leading `biased,` only makes the `select!` biased: with the same parse
/// results, two inputs that differ only in the flag give the same errors, the
/// same parse error, or the same branches.
pub proof fn law_biased_flag(a: SelectInput, b: SelectInput, lets: Seq<LetParse>)
    requires
        a.match_attr == b.match_attr,
        a.scrutinee == b.scrutinee,
        a.scrutinee_span == b.scrutinee_span,
        a.arms@ == b.arms@,
    ensures
        spec_expand(b, lets) == match spec_expand(a, lets) {
            ExpansionView::Select { biased, branches } => ExpansionView::Select { biased: b.is_biased, branches },
            other => other,
        },
{
    assert(initial_state(a) == initial_state(b));
}

/// Two walks that both stopped, or both run with the same errors and as many
/// branches.
pub open spec fn same_shape(p1: Progress, p2: Progress) -> bool {
    match (p1, p2) {
        (Progress::Stopped(_), Progress::Stopped(_)) => true,
        (Progress::Running(s1), Progress::Running(s2)) => s1.errors == s2.errors && s1.branches.len() == s2.branches.len(),
        _ => false,
    }
}

proof fn lemma_same_shape(init: ExpandState, arms: Seq<MatchArm>, lets1: Seq<LetParse>, lets2: Seq<LetParse>)
    requires
        lets_fit(arms, lets1),
        lets_fit(arms, lets2),
        lets_follow_parse(arms, lets1),
        lets_follow_parse(arms, lets2),
    ensures
        same_shape(run_arms(init, arms, lets1), run_arms(init, arms, lets2)),
    decreases arms.len(),
{
    if arms.len() > 0 {
        let n = arms.len() - 1;
        let front = arms.drop_last();
        let (f1, f2) = (lets1.drop_last(), lets2.drop_last());
        assert forall|i: int| 0 <= i < f1.len() implies (#[trigger] f1[i] matches Ok(b) ==> b.attr() is None) by {
            assert(f1[i] == lets1[i]);
        }
        assert forall|i: int| 0 <= i < f2.len() implies (#[trigger] f2[i] matches Ok(b) ==> b.attr() is None) by {
            assert(f2[i] == lets2[i]);
        }
        assert forall|i: int| 0 <= i < front.len() implies #[trigger] parse_fits(front[i], f1[i]) by {
            assert(front[i] == arms[i] && f1[i] == lets1[i]);
        }
        assert forall|i: int| 0 <= i < front.len() implies #[trigger] parse_fits(front[i], f2[i]) by {
            assert(front[i] == arms[i] && f2[i] == lets2[i]);
        }
        lemma_same_shape(init, front, f1, f2);
        assert(arms.last() == arms[n] && lets1.last() == lets1[n] && lets2.last() == lets2[n]);
        assert(parse_fits(arms[n], lets1[n]) && parse_fits(arms[n], lets2[n]));
        if needs_binding(arms[n]) {
            assert(lets1[n] is Ok <==> lets2[n] is Ok);
        }
    }
}

/// Parse results that follow syn's grammar fix everything but the parsed
/// patterns and futures and the parse error itself: whether the expansion is
/// errors, a parse error or a `select!`, the errors in order, the flag, and
/// the number of branches.
pub proof fn law_parse_outcomes_fix_shape(input: SelectInput, lets1: Seq<LetParse>, lets2: Seq<LetParse>)
    requires
        lets_fit(input.arms@, lets1),
        lets_fit(input.arms@, lets2),
        lets_follow_parse(input.arms@, lets1),
        lets_follow_parse(input.arms@, lets2),
    ensures
        spec_expand(input, lets1) is LetError <==> spec_expand(input, lets2) is LetError,
        spec_expand(input, lets1) is Errors ==> spec_expand(input, lets2) == spec_expand(input, lets1),
        spec_expand(input, lets1) matches ExpansionView::Select { biased, branches } ==> (
            spec_expand(input, lets2) matches ExpansionView::Select { biased: b2, branches: br2 }
                && b2 == biased && br2.len() == branches.len()),
{
    lemma_same_shape(initial_state(input), input.arms@, lets1, lets2);
}

/// Whatever the parses gave back, as long as they follow syn's grammar, an
/// input with a leading `biased,` expands like the same input without it,
/// except that its `select!` is biased: the same errors, a parse error on the
/// same inputs, and as many branches.
pub proof fn law_biased_prefix(a: SelectInput, b: SelectInput, lets_a: Seq<LetParse>, lets_b: Seq<LetParse>)
    requires
        a.match_attr == b.match_attr,
        a.scrutinee == b.scrutinee,
        a.scrutinee_span == b.scrutinee_span,
        a.arms@ == b.arms@,
        lets_fit(a.arms@, lets_a),
        lets_fit(b.arms@, lets_b),
        lets_follow_parse(a.arms@, lets_a),
        lets_follow_parse(b.arms@, lets_b),
    ensures
        spec_expand(a, lets_a) is LetError <==> spec_expand(b, lets_b) is LetError,
        spec_expand(a, lets_a) is Errors ==> spec_expand(b, lets_b) == spec_expand(a, lets_a),
        spec_expand(a, lets_a) matches ExpansionView::Select { biased, branches } ==> (
            spec_expand(b, lets_b) matches ExpansionView::Select { biased: b2, branches: br2 }
                && b2 == b.is_biased && br2.len() == branches.len()
                && forall|i: int| 0 <= i < br2.len() ==> branch_of_arm(b.arms@[i], #[trigger] br2[i])
                    && branch_of_arm(a.arms@[i], branches[i])),
        spec_expand(a, lets_a) matches ExpansionView::LetError(ea) ==> (
            spec_expand(b, lets_b) matches ExpansionView::LetError(eb) && eb.source() == ea.source()),
{
    law_biased_flag(a, b, lets_a);
    law_parse_outcomes_fix_shape(b, lets_a, lets_b);
    law_expansion_by_arm(a, lets_a);
    law_expansion_by_arm(b, lets_b);
    if spec_expand(a, lets_a) is LetError {
        let ea = spec_expand(a, lets_a)->LetError_0;
        let eb = spec_expand(b, lets_b)->LetError_0;
        let ka = choose|k: int| #[trigger] first_parse_failure(a.arms@, k) && ea.source() == let_part(a.arms@[k]);
        let kb = choose|k: int| #[trigger] first_parse_failure(b.arms@, k) && eb.source() == let_part(b.arms@[k]);
        if ka < kb {
            assert(!parse_fails(b.arms@[ka]));
        } else if kb < ka {
            assert(!parse_fails(a.arms@[kb]));
        }
    }
}

proof fn lemma_stop_source(init: ExpandState, arms: Seq<MatchArm>, lets: Seq<LetParse>)
    requires
        lets.len() == arms.len(),
        run_arms(init, arms, lets) is Stopped,
    ensures
        exists|k: int| 0 <= k < arms.len() && #[trigger] needs_binding(arms[k])
            && lets[k] == Err::<LetBinding, LetParseError>(run_arms(init, arms, lets)->Stopped_0),
    decreases arms.len(),
{
    let n = arms.len() - 1;
    let (front, fl) = (arms.drop_last(), lets.drop_last());
    match run_arms(init, front, fl) {
        Progress::Stopped(e) => {
            lemma_stop_source(init, front, fl);
            let k = choose|k: int| 0 <= k < front.len() && #[trigger] needs_binding(front[k])
                && fl[k] == Err::<LetBinding, LetParseError>(e);
            assert(front[k] == arms[k] && fl[k] == lets[k]);
        },
        Progress::Running(st) => {
            assert(arms.last() == arms[n] && lets.last() == lets[n]);
            assert(needs_binding(arms[n]));
        },
    }
}

/// A parse error in the expansion is the parse result of an arm whose
/// guard's `let` part is parsed.
pub proof fn law_let_error_source(input: SelectInput, lets: Seq<LetParse>)
    requires
        lets_fit(input.arms@, lets),
        spec_expand(input, lets) is LetError,
    ensures
        exists|k: int| 0 <= k < input.arms@.len() && #[trigger] needs_binding(input.arms@[k])
            && lets[k] == Err::<LetBinding, LetParseError>(spec_expand(input, lets)->LetError_0),
{
    lemma_stop_source(initial_state(input), input.arms@, lets);
}

proof fn lemma_branches_ignore_lets(arms: Seq<MatchArm>, lets1: Seq<LetParse>, lets2: Seq<LetParse>)
    requires
        lets1.len() == arms.len(),
        lets2.len() == arms.len(),
        forall|i: int| 0 <= i < arms.len() ==> !needs_binding(#[trigger] arms[i]),
    ensures
        arms_branches(arms, lets1) == arms_branches(arms, lets2),
    decreases arms.len(),
{
    if arms.len() > 0 {
        let front = arms.drop_last();
        assert forall|i: int| 0 <= i < front.len() implies !needs_binding(#[trigger] front[i]) by {
            assert(front[i] == arms[i]);
        }
        lemma_branches_ignore_lets(front, lets1.drop_last(), lets2.drop_last());
        assert(!needs_binding(arms[arms.len() - 1]));
    }
}

/// The arm's guard's `let` part is parsed, and syn does not accept it.
pub open spec fn parse_fails(arm: MatchArm) -> bool {
    needs_binding(arm) && !let_parses(let_part(arm))
}

/// Some arm's guard's `let` part fails to parse.
pub open spec fn some_parse_fails(arms: Seq<MatchArm>) -> bool {
    exists|k: int| 0 <= k < arms.len() && #[trigger] parse_fails(arms[k])
}

/// Arm `k` is the first whose guard's `let` part fails to parse.
pub open spec fn first_parse_failure(arms: Seq<MatchArm>, k: int) -> bool {
    &&& 0 <= k < arms.len()
    &&& parse_fails(arms[k])
    &&& forall|j: int| 0 <= j < k ==> !#[trigger] parse_fails(arms[j])
}

/// `b` is the branch the arm becomes: `else => <handler>` for `_`, and for a
/// `..` arm the binding parsed from its guard's `let` part, the condition
/// after its first `&&`, and its handler.
pub open spec fn branch_of_arm(arm: MatchArm, b: BranchView) -> bool {
    match arm.pat {
        ArmPattern::Wild => b == BranchView::Else { body: arm.body },
        _ => b matches BranchView::Future { binding, condition, body } && binding.source() == let_part(arm)
            && condition == split_spec(guard_tokens(arm)).1 && body == arm.body,
    }
}

proof fn lemma_first_failure(arms: Seq<MatchArm>)
    requires
        some_parse_fails(arms),
    ensures
        exists|k: int| #[trigger] first_parse_failure(arms, k),
    decreases arms.len(),
{
    let front = arms.drop_last();
    if some_parse_fails(front) {
        lemma_first_failure(front);
        let k = choose|k: int| #[trigger] first_parse_failure(front, k);
        assert forall|j: int| 0 <= j < k implies !#[trigger] parse_fails(arms[j]) by {
            assert(arms[j] == front[j]);
        }
        assert(arms[k] == front[k]);
        assert(first_parse_failure(arms, k));
    } else {
        let n = arms.len() - 1;
        let k = choose|k: int| 0 <= k < arms.len() && #[trigger] parse_fails(arms[k]);
        if k < n {
            assert(front[k] == arms[k]);
        }
        assert forall|j: int| 0 <= j < n implies !#[trigger] parse_fails(arms[j]) by {
            assert(arms[j] == front[j]);
            if parse_fails(front[j]) {
                assert(some_parse_fails(front));
            }
        }
        assert(first_parse_failure(arms, n));
    }
}

proof fn lemma_no_arm_errors(arms: Seq<MatchArm>)
    requires
        arms_errors(arms).len() == 0,
    ensures
        forall|i: int| 0 <= i < arms.len() ==> arm_well_formed(#[trigger] arms[i]),
    decreases arms.len(),
{
    if arms.len() > 0 {
        let front = arms.drop_last();
        let n = arms.len() - 1;
        lemma_no_arm_errors(front);
        let last = arms[n];
        assert(arm_errors(last).len() == 0);
        assert forall|i: int| 0 <= i < arms.len() implies arm_well_formed(#[trigger] arms[i]) by {
            if i < n {
                assert(arms[i] == front[i]);
            } else {
                match last.pat {
                    ArmPattern::Rest { attr } => {
                        if last.guard is None {
                            assert(arm_errors(last).len() > 0);
                        }
                    },
                    _ => {},
                }
            }
        }
    }
}

/// `x` is the expansion of `input`, stated arm by arm: the first guard whose
/// `let` part syn does not accept gives a parse error carrying that part;
/// otherwise the input's errors are reported in order if it has any;
/// otherwise the input is well formed and the `select!`, biased when the
/// input said so, has one branch per arm, each built from its own arm.
pub open spec fn expansion_by_arm(input: SelectInput, x: ExpansionView) -> bool {
    &&& (x is LetError <==> some_parse_fails(input.arms@))
    &&& x matches ExpansionView::LetError(e) ==> exists|k: int|
        #[trigger] first_parse_failure(input.arms@, k) && e.source() == let_part(input.arms@[k])
    &&& (x is Errors <==> !some_parse_fails(input.arms@) && all_errors(input).len() > 0)
    &&& x matches ExpansionView::Errors(es) ==> es == all_errors(input)
    &&& x matches ExpansionView::Select { biased, branches } ==> {
        &&& biased == input.is_biased
        &&& input_well_formed(input)
        &&& branches.len() == input.arms@.len()
        &&& forall|i: int| 0 <= i < branches.len() ==> branch_of_arm(input.arms@[i], #[trigger] branches[i])
    }
}

/// The expansion, stated arm by arm, for parse results that are syn's: the
/// first guard whose `let` part syn does not accept decides a parse error,
/// carrying that part; otherwise the input's errors are reported in order if
/// it has any; otherwise the input is well formed and the `select!`, biased
/// when the input said so, has one branch per arm, each built from its own
/// arm.
pub proof fn law_expansion_by_arm(input: SelectInput, lets: Seq<LetParse>)
    requires
        lets_fit(input.arms@, lets),
        lets_follow_parse(input.arms@, lets),
    ensures
        spec_expand(input, lets) is LetError <==> some_parse_fails(input.arms@),
        spec_expand(input, lets) matches ExpansionView::LetError(e) ==> exists|k: int|
            #[trigger] first_parse_failure(input.arms@, k) && e.source() == let_part(input.arms@[k]),
        spec_expand(input, lets) is Errors <==> !some_parse_fails(input.arms@) && all_errors(input).len() > 0,
        spec_expand(input, lets) matches ExpansionView::Errors(es) ==> es == all_errors(input),
        spec_expand(input, lets) matches ExpansionView::Select { biased, branches } ==> {
            &&& biased == input.is_biased
            &&& input_well_formed(input)
            &&& branches.len() == input.arms@.len()
            &&& forall|i: int| 0 <= i < branches.len() ==> branch_of_arm(input.arms@[i], #[trigger] branches[i])
        },
{
    let arms = input.arms@;
    if some_parse_fails(arms) {
        lemma_first_failure(arms);
        let k = choose|k: int| #[trigger] first_parse_failure(arms, k);
        assert(parse_fits(arms[k], lets[k]));
        assert forall|j: int| 0 <= j < k && #[trigger] needs_binding(arms[j]) implies lets[j] is Ok by {
            assert(parse_fits(arms[j], lets[j]));
            assert(!parse_fails(arms[j]));
        }
        law_first_parse_failure(input, lets, k);
    } else {
        assert forall|i: int| 0 <= i < arms.len() && #[trigger] needs_binding(arms[i]) implies lets[i] is Ok by {
            assert(parse_fits(arms[i], lets[i]));
            if !let_parses(let_part(arms[i])) {
                assert(parse_fails(arms[i]));
            }
        }
        law_parsed_guards(input, lets);
        if all_errors(input).len() == 0 {
            lemma_no_arm_errors(arms);
            assert(header_errors(input.match_attr, input.scrutinee, input.scrutinee_span).len() == 0);
            assert(input.match_attr is None);
            law_well_formed_input(input, lets);
            assert forall|i: int| 0 <= i < arms.len() implies branch_of_arm(arms[i], #[trigger] branch_of(arms[i], lets[i])) by {
                let arm = arms[i];
                assert(parse_fits(arm, lets[i]));
                assert(arm_well_formed(arm));
                match arm.pat {
                    ArmPattern::Wild => {},
                    _ => {
                        assert(needs_binding(arm));
                        assert(lets[i] is Ok);
                        let g = arm.guard->Some_0;
                        assert(guard_tokens(arm) == g.tokens@);
                        assert(arm_branches(arm, lets[i])[0] == BranchView::Future {
                            binding: lets[i]->Ok_0,
                            condition: split_spec(g.tokens@).1,
                            body: arm.body,
                        });
                    },
                }
            }
        }
    }
}

/// A leading `biased,` only makes the `select!` biased, for any two
/// expansions stated arm by arm (as [`crate::expand::tokio_select`] ensures):
/// the same errors, a parse error on the same inputs and for the same
/// tokens, and branches built from the same arms.
pub proof fn law_biased_prefix_by_arm(a: SelectInput, b: SelectInput, xa: ExpansionView, xb: ExpansionView)
    requires
        a.match_attr == b.match_attr,
        a.scrutinee == b.scrutinee,
        a.scrutinee_span == b.scrutinee_span,
        a.arms@ == b.arms@,
        expansion_by_arm(a, xa),
        expansion_by_arm(b, xb),
    ensures
        xa is LetError <==> xb is LetError,
        xa matches ExpansionView::LetError(ea) ==> (xb matches ExpansionView::LetError(eb) && eb.source() == ea.source()),
        xa is Errors ==> xb == xa,
        xa matches ExpansionView::Select { biased, branches } ==> (
            xb matches ExpansionView::Select { biased: b2, branches: br2 }
                && b2 == b.is_biased && br2.len() == branches.len()
                && forall|i: int| 0 <= i < br2.len() ==> branch_of_arm(b.arms@[i], #[trigger] br2[i])
                    && branch_of_arm(a.arms@[i], branches[i])),
{
    assert(all_errors(a) == all_errors(b));
    if xa is LetError {
        let ea = xa->LetError_0;
        let eb = xb->LetError_0;
        let ka = choose|k: int| #[trigger] first_parse_failure(a.arms@, k) && ea.source() == let_part(a.arms@[k]);
        let kb = choose|k: int| #[trigger] first_parse_failure(b.arms@, k) && eb.source() == let_part(b.arms@[k]);
        if ka < kb {
            assert(!parse_fails(b.arms@[ka]));
        } else if kb < ka {
            assert(!parse_fails(a.arms@[kb]));
        }
    }
    if xa is Select {
        assert(input_well_formed(b));
    }
}

} // verus!
