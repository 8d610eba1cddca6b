use better_tokio_select::errors::{biased_prefix, ErrorKind, MacroError};
use better_tokio_select::expand::{check_header, tokio_select, Expansion, SelectBranch};
use better_tokio_select::guard::GuardToken;
use better_tokio_select::input::{ArmPattern, Guard, MatchArm, Scrutinee, SelectInput};
use proc_macro2::{Span, TokenStream, TokenTree};
use quote::ToTokens;

fn span() -> Span {
    Span::call_site()
}

fn expr(src: &str) -> syn::Expr {
    syn::parse_str(src).unwrap()
}

fn guard(src: &str) -> Guard {
    let ts: TokenStream = src.parse().unwrap();
    let tokens = ts
        .into_iter()
        .map(|tree| {
            let punct = match &tree {
                TokenTree::Punct(p) => Some(p.as_char()),
                _ => None,
            };
            GuardToken { tree, punct }
        })
        .collect();
    Guard { if_span: span(), tokens }
}

fn rest_arm(guard_src: &str, body: &str) -> MatchArm {
    MatchArm { pat: ArmPattern::Rest { attr: None }, pat_span: span(), guard: Some(guard(guard_src)), body: expr(body) }
}

fn wild_arm(body: &str) -> MatchArm {
    MatchArm { pat: ArmPattern::Wild, pat_span: span(), guard: None, body: expr(body) }
}

fn full_range() -> Scrutinee {
    Scrutinee::Range { has_start: false, half_open: true, has_end: false, attr: None }
}

fn input(is_biased: bool, arms: Vec<MatchArm>) -> SelectInput {
    SelectInput { is_biased, match_attr: None, scrutinee: full_range(), scrutinee_span: span(), arms }
}

fn text<T: ToTokens>(t: &T) -> String {
    t.to_token_stream().to_string()
}

fn trees_text(trees: &[TokenTree]) -> String {
    trees.iter().cloned().collect::<TokenStream>().to_string()
}

fn kinds(errors: &[MacroError]) -> Vec<ErrorKind> {
    errors.iter().map(|e| e.kind).collect()
}

fn expect_select(e: Expansion) -> (bool, Vec<SelectBranch>) {
    match e {
        Expansion::Select { biased, branches } => (biased, branches),
        Expansion::Errors(errors) => panic!("unexpected errors {:?}", kinds(&errors)),
        Expansion::LetError(err) => panic!("unexpected parse error {}", err.error()),
    }
}

fn expect_errors(e: Expansion) -> Vec<ErrorKind> {
    match e {
        Expansion::Errors(errors) => kinds(&errors),
        _ => panic!("expected errors"),
    }
}

#[test]
fn one_future_arm_becomes_one_branch() {
    let (biased, branches) = expect_select(tokio_select(input(false, vec![rest_arm("let foo = async { 1 }", "foo")])));
    assert!(!biased);
    assert_eq!(branches.len(), 1);
    match &branches[0] {
        SelectBranch::Future { binding, condition, body } => {
            assert_eq!(text(binding.pat()), "foo");
            assert_eq!(text(binding.expr()), "async { 1 }");
            assert!(condition.is_none());
            assert_eq!(text(body), "foo");
        }
        SelectBranch::Else { .. } => panic!("expected a future branch"),
    }
}

#[test]
fn condition_after_and_and_becomes_if() {
    let (_, branches) = expect_select(tokio_select(input(false, vec![rest_arm("let v1 = & mut rx1 && a . is_none ()", "a = Some (v1)")])));
    match &branches[0] {
        SelectBranch::Future { binding, condition, .. } => {
            assert_eq!(text(binding.pat()), "v1");
            assert_eq!(text(binding.expr()), "& mut rx1");
            assert_eq!(trees_text(condition.as_ref().unwrap()), "a . is_none ()");
        }
        SelectBranch::Else { .. } => panic!("expected a future branch"),
    }
}

#[test]
fn pattern_with_constructor_is_kept() {
    let (_, branches) = expect_select(tokio_select(input(false, vec![rest_arm("let Some (x) = rx1 . recv ()", "msgs . push (x)")])));
    match &branches[0] {
        SelectBranch::Future { binding, .. } => {
            assert_eq!(text(binding.pat()), "Some (x)");
            assert_eq!(text(binding.expr()), "rx1 . recv ()");
        }
        SelectBranch::Else { .. } => panic!("expected a future branch"),
    }
}

#[test]
fn biased_and_else_keep_order() {
    let arms = vec![rest_arm("let _ = & mut two && count < 2", "{ count += 1 ; }"), wild_arm("break"), rest_arm("let x = one", "x")];
    let (biased, branches) = expect_select(tokio_select(input(true, arms)));
    assert!(biased);
    assert_eq!(branches.len(), 3);
    assert!(matches!(branches[0], SelectBranch::Future { .. }));
    match &branches[1] {
        SelectBranch::Else { body } => assert_eq!(text(body), "break"),
        SelectBranch::Future { .. } => panic!("expected the else branch"),
    }
    assert!(matches!(branches[2], SelectBranch::Future { .. }));
}

#[test]
fn else_only() {
    let (biased, branches) = expect_select(tokio_select(input(false, vec![wild_arm("1")])));
    assert!(!biased);
    assert_eq!(branches.len(), 1);
    assert!(matches!(branches[0], SelectBranch::Else { .. }));
}

#[test]
fn no_arms() {
    let (_, branches) = expect_select(tokio_select(input(false, Vec::new())));
    assert!(branches.is_empty());
}

#[test]
fn attribute_on_match_is_an_error() {
    let mut i = input(false, vec![rest_arm("let x = f", "x")]);
    i.match_attr = Some(span());
    assert_eq!(expect_errors(tokio_select(i)), vec![ErrorKind::NoAttributes]);
}

#[test]
fn scrutinee_must_be_full_range() {
    let mut i = input(false, vec![rest_arm("let x = f", "x")]);
    i.scrutinee = Scrutinee::Other;
    assert_eq!(expect_errors(tokio_select(i)), vec![ErrorKind::ExpectedRest]);

    let mut i = input(false, vec![rest_arm("let x = f", "x")]);
    i.scrutinee = Scrutinee::Range { has_start: true, half_open: true, has_end: false, attr: None };
    assert_eq!(expect_errors(tokio_select(i)), vec![ErrorKind::ExpectedRest]);

    let mut i = input(false, vec![rest_arm("let x = f", "x")]);
    i.scrutinee = Scrutinee::Range { has_start: false, half_open: false, has_end: false, attr: None };
    assert_eq!(expect_errors(tokio_select(i)), vec![ErrorKind::ExpectedRest]);

    let mut i = input(false, vec![rest_arm("let x = f", "x")]);
    i.scrutinee = Scrutinee::Range { has_start: false, half_open: true, has_end: false, attr: Some(span()) };
    assert_eq!(expect_errors(tokio_select(i)), vec![ErrorKind::NoAttributes]);
}

#[test]
fn check_header_lists_both_errors() {
    let errors = check_header(Some(span()), &Scrutinee::Other, span());
    assert_eq!(kinds(&errors), vec![ErrorKind::NoAttributes, ErrorKind::ExpectedRest]);
    assert!(check_header(None, &full_range(), span()).is_empty());
}

#[test]
fn arm_errors_are_reported_in_order() {
    let mut other_pat = rest_arm("let x = f", "x");
    other_pat.pat = ArmPattern::Other;
    let mut attr_pat = rest_arm("let y = g", "y");
    attr_pat.pat = ArmPattern::Rest { attr: Some(span()) };
    let mut no_guard = rest_arm("let z = h", "z");
    no_guard.guard = None;
    let mut wild_guard = wild_arm("0");
    wild_guard.guard = Some(guard("true"));
    let mut other_no_guard = wild_arm("1");
    other_no_guard.pat = ArmPattern::Other;
    let arms = vec![other_pat, attr_pat, no_guard, wild_guard, other_no_guard];
    assert_eq!(
        expect_errors(tokio_select(input(false, arms))),
        vec![
            ErrorKind::ExpectedRest,
            ErrorKind::NoAttributes,
            ErrorKind::ExpectedIfLet,
            ErrorKind::NoGuard,
            ErrorKind::ExpectedRest,
            ErrorKind::ExpectedIfLet,
        ]
    );
}

#[test]
fn header_errors_come_before_arm_errors() {
    let mut no_guard = rest_arm("let z = h", "z");
    no_guard.guard = None;
    let mut i = input(false, vec![no_guard]);
    i.scrutinee = Scrutinee::Other;
    assert_eq!(expect_errors(tokio_select(i)), vec![ErrorKind::ExpectedRest, ErrorKind::ExpectedIfLet]);
}

#[test]
fn guard_that_is_not_let_fails_to_parse() {
    match tokio_select(input(false, vec![rest_arm("x == 1", "x")])) {
        Expansion::LetError(_) => {}
        _ => panic!("expected a parse error"),
    }
}

#[test]
fn first_parse_failure_wins_over_other_errors() {
    let mut no_guard = rest_arm("let z = h", "z");
    no_guard.guard = None;
    let arms = vec![no_guard, rest_arm("let = 5", "x"), rest_arm("let x = ", "x")];
    let mut i = input(false, arms);
    i.match_attr = Some(span());
    match tokio_select(i) {
        Expansion::LetError(_) => {}
        _ => panic!("expected a parse error"),
    }
}

#[test]
fn parse_failure_with_trailing_tokens() {
    match tokio_select(input(false, vec![rest_arm("let x = a || b", "x")])) {
        Expansion::LetError(_) => {}
        _ => panic!("expected a parse error"),
    }
}

#[test]
fn messages() {
    assert_eq!(ErrorKind::NoAttributes.message(), "no attributes expected");
    assert_eq!(ErrorKind::ExpectedRest.message(), "expected `..`");
    assert_eq!(ErrorKind::NoGuard.message(), "no guard expected");
    assert_eq!(ErrorKind::ExpectedIfLet.message(), "expected `if let` guard after pattern");
    assert_eq!(ErrorKind::ExpectedBiased.message(), "expected `biased`");
}

#[test]
fn biased_prefix_words() {
    assert_eq!(biased_prefix(None).unwrap(), false);
    assert_eq!(biased_prefix(Some(("biased".to_string(), span()))).unwrap(), true);
    match biased_prefix(Some(("fair".to_string(), span()))) {
        Err(e) => assert_eq!(e.kind, ErrorKind::ExpectedBiased),
        Ok(_) => panic!("expected an error"),
    }
    assert!(biased_prefix(Some(("r#biased".to_string(), span()))).is_err());
}

#[test]
fn readme_proxy_example() {
    let arms = vec![
        rest_arm("let Ok(n) = reader.read(&mut buf) && can_read", "{ writer . write_all (& buf [.. n]) }"),
        rest_arm("let _ = shutdown.recv()", "{ return Ok (()) ; }"),
    ];
    let (biased, branches) = expect_select(tokio_select(input(false, arms)));
    assert!(!biased);
    assert_eq!(branches.len(), 2);
    match &branches[0] {
        SelectBranch::Future { binding, condition, body } => {
            assert_eq!(text(binding.pat()), "Ok (n)");
            assert_eq!(text(binding.expr()), "reader . read (& mut buf)");
            assert_eq!(trees_text(condition.as_ref().unwrap()), "can_read");
            assert_eq!(text(body), "{ writer . write_all (& buf [.. n]) }");
        }
        SelectBranch::Else { .. } => panic!("expected a future branch"),
    }
    match &branches[1] {
        SelectBranch::Future { binding, condition, .. } => {
            assert_eq!(text(binding.pat()), "_");
            assert_eq!(text(binding.expr()), "shutdown . recv ()");
            assert!(condition.is_none());
        }
        SelectBranch::Else { .. } => panic!("expected a future branch"),
    }
}

#[test]
fn readme_biased_example() {
    let arms = vec![
        rest_arm("let Some(Message::Data { id, payload }) = rx.recv()", "{ process (id , payload) . await ; }"),
        wild_arm("{ println ! (\"no messages pending\") ; }"),
    ];
    let (biased, branches) = expect_select(tokio_select(input(true, arms)));
    assert!(biased);
    assert_eq!(branches.len(), 2);
    match &branches[0] {
        SelectBranch::Future { binding, .. } => {
            assert_eq!(text(binding.pat()), "Some (Message :: Data { id , payload })");
            assert_eq!(text(binding.expr()), "rx . recv ()");
        }
        SelectBranch::Else { .. } => panic!("expected a future branch"),
    }
    assert!(matches!(branches[1], SelectBranch::Else { .. }));
}

#[test]
fn disabled_branch_keeps_false_condition() {
    let arms = vec![rest_arm("let _ = f && false", "{ unreachable ! () }"), rest_arm("let _ = rx", "()")];
    let (_, branches) = expect_select(tokio_select(input(false, arms)));
    match &branches[0] {
        SelectBranch::Future { condition, .. } => assert_eq!(trees_text(condition.as_ref().unwrap()), "false"),
        SelectBranch::Else { .. } => panic!("expected a future branch"),
    }
}

#[test]
fn many_branches_keep_count() {
    let arms: Vec<MatchArm> = (0..64).map(|_| rest_arm("let x = async { 1 }", "x")).collect();
    let (_, branches) = expect_select(tokio_select(input(false, arms)));
    assert_eq!(branches.len(), 64);
    assert!(branches.iter().all(|b| matches!(b, SelectBranch::Future { .. })));
}

#[test]
fn mut_ref_pattern_is_kept() {
    let (_, branches) = expect_select(tokio_select(input(false, vec![rest_arm("let Some(ref mut foo) = async { Some(1) }", "()")])));
    match &branches[0] {
        SelectBranch::Future { binding, .. } => assert_eq!(text(binding.pat()), "Some (ref mut foo)"),
        SelectBranch::Else { .. } => panic!("expected a future branch"),
    }
}

#[test]
fn wild_arm_with_guard_is_refused() {
    let mut wild_guard = wild_arm("0");
    wild_guard.guard = Some(guard("cond"));
    let e = expect_errors(tokio_select(input(false, vec![wild_guard, wild_arm("1")])));
    assert_eq!(e, vec![ErrorKind::NoGuard]);
}

#[test]
fn biased_flag_changes_only_the_flag() {
    let build = || vec![rest_arm("let a = f && ready", "a"), wild_arm("0")];
    let (b0, br0) = expect_select(tokio_select(input(false, build())));
    let (b1, br1) = expect_select(tokio_select(input(true, build())));
    assert!(!b0 && b1);
    assert_eq!(br0.len(), br1.len());

    let broken = || {
        let mut arm = rest_arm("let z = h", "z");
        arm.guard = None;
        vec![arm, wild_arm("1")]
    };
    assert_eq!(expect_errors(tokio_select(input(false, broken()))), expect_errors(tokio_select(input(true, broken()))));
}
