use better_tokio_select::errors::ErrorKind;
use better_tokio_select::expand::{Expansion, SelectBranch};
use better_tokio_select::read::{classify, expand_tokens, InputError};
use proc_macro2::{TokenStream, TokenTree};
use quote::ToTokens;

fn tokens(src: &str) -> Vec<TokenTree> {
    src.parse::<TokenStream>().unwrap().into_iter().collect()
}

fn text<T: ToTokens>(t: &T) -> String {
    t.to_token_stream().to_string()
}

fn select(src: &str) -> (bool, Vec<SelectBranch>) {
    match expand_tokens(tokens(src)) {
        Ok(Expansion::Select { biased, branches }) => (biased, branches),
        _ => panic!("expected a select"),
    }
}

fn errors(src: &str) -> Vec<ErrorKind> {
    match expand_tokens(tokens(src)) {
        Ok(Expansion::Errors(errors)) => errors.iter().map(|e| e.kind).collect(),
        _ => panic!("expected errors"),
    }
}

#[test]
fn raw_input_one_branch() {
    let (biased, branches) = select("match .. { .. if let foo = async { 1 } => foo, }");
    assert!(!biased);
    assert_eq!(branches.len(), 1);
    match &branches[0] {
        SelectBranch::Future { binding, condition, body } => {
            assert_eq!(text(binding.pat()), "foo");
            assert_eq!(text(binding.expr()), "async { 1 }");
            assert!(condition.is_none());
            assert_eq!(text(body), "foo");
        }
        SelectBranch::Else { .. } => panic!("expected a future branch"),
    }
}

#[test]
fn raw_input_biased_with_condition_and_else() {
    let (biased, branches) = select(
        "biased, match .. { .. if let _ = &mut two && count < 2 => { count += 1; } _ => break, }",
    );
    assert!(biased);
    assert_eq!(branches.len(), 2);
    match &branches[0] {
        SelectBranch::Future { binding, condition, .. } => {
            assert_eq!(text(binding.pat()), "_");
            assert_eq!(text(binding.expr()), "& mut two");
            let cond: TokenStream = condition.clone().unwrap().into_iter().collect();
            assert_eq!(cond.to_string(), "count < 2");
        }
        SelectBranch::Else { .. } => panic!("expected a future branch"),
    }
    match &branches[1] {
        SelectBranch::Else { body } => assert_eq!(text(body), "break"),
        SelectBranch::Future { .. } => panic!("expected the else branch"),
    }
}

#[test]
fn raw_input_other_word_is_refused() {
    match expand_tokens(tokens("fair, match .. { _ => 1 }")) {
        Err(InputError::Prefix(e)) => assert_eq!(e.kind, ErrorKind::ExpectedBiased),
        _ => panic!("expected a prefix error"),
    }
}

#[test]
fn raw_input_not_a_match_fails_to_parse() {
    assert!(matches!(expand_tokens(tokens("1 + 2")), Err(InputError::Parse(_))));
    assert!(matches!(expand_tokens(tokens("biased match .. { _ => 1 }")), Err(InputError::Parse(_))));
    assert!(matches!(expand_tokens(tokens("")), Err(InputError::Parse(_))));
}

#[test]
fn raw_input_unit_scrutinee_is_refused() {
    assert_eq!(
        errors("match () { () if let Ok(x) = f => x }"),
        vec![ErrorKind::ExpectedRest, ErrorKind::ExpectedRest]
    );
}

#[test]
fn raw_input_header_and_arm_errors() {
    assert_eq!(
        errors("#[attr] match x { .. => 1, _ if c => 2 }"),
        vec![
            ErrorKind::NoAttributes,
            ErrorKind::ExpectedRest,
            ErrorKind::ExpectedIfLet,
            ErrorKind::NoGuard,
        ]
    );
}

#[test]
fn raw_input_let_parse_failure() {
    assert!(matches!(
        expand_tokens(tokens("match .. { .. if x == 1 => x }")),
        Ok(Expansion::LetError(_))
    ));
}

#[test]
fn classify_marks_punctuation() {
    let toks = classify(tokens("a && (b && c)"));
    let puncts: Vec<Option<char>> = toks.iter().map(|t| t.punct).collect();
    assert_eq!(puncts, vec![None, Some('&'), Some('&'), None]);
}

#[test]
fn raw_input_else_only_biased_and_not() {
    for (src, want_biased) in [("biased, match .. { _ => 1, }", true), ("match .. { _ => 1, }", false)] {
        let (biased, branches) = select(src);
        assert_eq!(biased, want_biased);
        assert_eq!(branches.len(), 1);
        match &branches[0] {
            SelectBranch::Else { body } => assert_eq!(text(body), "1"),
            SelectBranch::Future { .. } => panic!("expected the else branch"),
        }
    }
}
