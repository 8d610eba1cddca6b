use better_tokio_select::guard::{split_guard, GuardToken};
use proc_macro2::{TokenStream, TokenTree};

fn guard(src: &str) -> Vec<GuardToken> {
    let ts: TokenStream = src.parse().unwrap();
    ts.into_iter()
        .map(|tree| {
            let punct = match &tree {
                TokenTree::Punct(p) => Some(p.as_char()),
                _ => None,
            };
            GuardToken { tree, punct }
        })
        .collect()
}

fn text(trees: Vec<TokenTree>) -> String {
    trees.into_iter().collect::<TokenStream>().to_string()
}

#[test]
fn split_at_first_and_and() {
    let (let_part, cond) = split_guard(guard("let foo = bar && baz && quux"));
    assert_eq!(text(let_part), "let foo = bar");
    assert_eq!(text(cond.unwrap()), "baz && quux");
}

#[test]
fn split_without_and_and_keeps_everything() {
    let (let_part, cond) = split_guard(guard("let Some(x) = rx.recv()"));
    assert_eq!(text(let_part), "let Some (x) = rx . recv ()");
    assert!(cond.is_none());
}

#[test]
fn split_ignores_and_and_inside_groups() {
    let (let_part, cond) = split_guard(guard("let x = (a && b)"));
    assert_eq!(text(let_part), "let x = (a && b)");
    assert!(cond.is_none());
}

#[test]
fn split_with_trailing_and_and_gives_empty_condition() {
    let (let_part, cond) = split_guard(guard("let x = y &&"));
    assert_eq!(text(let_part), "let x = y");
    assert_eq!(cond.unwrap().len(), 0);
}

#[test]
fn split_single_ampersand_is_not_a_split() {
    let (let_part, cond) = split_guard(guard("let x = & y"));
    assert_eq!(text(let_part), "let x = & y");
    assert!(cond.is_none());
}

#[test]
fn split_empty_guard() {
    let (let_part, cond) = split_guard(Vec::new());
    assert!(let_part.is_empty());
    assert!(cond.is_none());
}

#[test]
fn split_three_ampersands_splits_at_first_pair() {
    let (let_part, cond) = split_guard(guard("let x = a & & & b"));
    assert_eq!(text(let_part), "let x = a");
    assert_eq!(text(cond.unwrap()), "& b");
}
