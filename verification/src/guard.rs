//! Splitting an `if let` guard at its first top-level `&&`.

use vstd::prelude::*;

verus! {

/// One top-level token tree of a guard, with the character it holds when it
/// is a punctuation token.
pub struct GuardToken {
    pub tree: proc_macro2::TokenTree,
    pub punct: Option<char>,
}

/// The token trees of a sequence of guard tokens.
pub open spec fn trees(toks: Seq<GuardToken>) -> Seq<proc_macro2::TokenTree> {
    toks.map_values(|t: GuardToken| t.tree)
}

/// Whether `toks[i]` and `toks[i + 1]` are both `&`.
pub open spec fn and_and_at(toks: Seq<GuardToken>, i: int) -> bool {
    0 <= i && i + 1 < toks.len() && toks[i].punct == Some('&') && toks[i + 1].punct == Some('&')
}

/// The split of a guard: the tokens before the first `&&`, and the tokens
/// after it when there is one.
pub open spec fn split_spec(toks: Seq<GuardToken>) -> (Seq<proc_macro2::TokenTree>, Option<Seq<proc_macro2::TokenTree>>)
    decreases toks.len(),
{
    if toks.len() < 2 {
        (trees(toks), None)
    } else if and_and_at(toks, 0) {
        (Seq::empty(), Some(trees(toks.skip(2))))
    } else {
        let rest = split_spec(toks.drop_first());
        (seq![toks[0].tree] + rest.0, rest.1)
    }
}

/// The split of a guard either finds its first `&&` pair, keeping the tokens
/// before it and after it, or finds none and keeps every token.
pub proof fn law_guard_split(toks: Seq<GuardToken>)
    ensures
        match split_spec(toks).1 {
            None => {
                &&& split_spec(toks).0 == trees(toks)
                &&& forall|j: int| !and_and_at(toks, j)
            },
            Some(c) => exists|k: int| {
                &&& #[trigger] and_and_at(toks, k)
                &&& forall|j: int| 0 <= j < k ==> !and_and_at(toks, j)
                &&& split_spec(toks).0 == trees(toks.take(k))
                &&& c == trees(toks.skip(k + 2))
            },
        },
    decreases toks.len(),
{
    if toks.len() < 2 {
    } else if and_and_at(toks, 0) {
        assert(toks.take(0) =~= Seq::<GuardToken>::empty());
        assert(trees(toks.take(0)) =~= Seq::<proc_macro2::TokenTree>::empty());
    } else {
        let tail = toks.drop_first();
        law_guard_split(tail);
        assert forall|j: int| 1 <= j implies and_and_at(toks, j) == and_and_at(tail, j - 1) by {}
        match split_spec(tail).1 {
            None => {
                assert(trees(toks) =~= seq![toks[0].tree] + trees(tail));
            },
            Some(c) => {
                let k = choose|k: int| {
                    &&& #[trigger] and_and_at(tail, k)
                    &&& forall|j: int| 0 <= j < k ==> !and_and_at(tail, j)
                    &&& split_spec(tail).0 == trees(tail.take(k))
                    &&& c == trees(tail.skip(k + 2))
                };
                assert(and_and_at(toks, k + 1));
                assert(toks.take(k + 1) =~= seq![toks[0]] + tail.take(k));
                assert(trees(toks.take(k + 1)) =~= seq![toks[0].tree] + trees(tail.take(k)));
                assert(toks.skip(k + 3) =~= tail.skip(k + 2));
                assert forall|j: int| 0 <= j < k + 1 implies !and_and_at(toks, j) by {
                    if j > 0 {
                        assert(!and_and_at(tail, j - 1));
                    }
                }
            },
        }
    }
}

/// A guard whose tokens `k` and `k + 1` are the first pair of adjacent `&`
/// punctuation tokens splits there, whatever follows the pair: the let part
/// is the trees of the tokens before `k`, and the condition the trees of the
/// tokens from `k + 2` on.
pub proof fn law_split_at_first_ampersands(toks: Seq<GuardToken>, k: int)
    requires
        0 <= k,
        k + 1 < toks.len(),
        toks[k].punct == Some('&'),
        toks[k + 1].punct == Some('&'),
        forall|j: int| 0 <= j < k ==> !(#[trigger] toks[j].punct == Some('&') && toks[j + 1].punct == Some('&')),
    ensures
        split_spec(toks).0 == toks.take(k).map_values(|t: GuardToken| t.tree),
        split_spec(toks).1 == Some(toks.skip(k + 2).map_values(|t: GuardToken| t.tree)),
{
    law_guard_split(toks);
    assert(and_and_at(toks, k));
    match split_spec(toks).1 {
        None => {},
        Some(c) => {
            let k2 = choose|k2: int| {
                &&& #[trigger] and_and_at(toks, k2)
                &&& forall|j: int| 0 <= j < k2 ==> !and_and_at(toks, j)
                &&& split_spec(toks).0 == trees(toks.take(k2))
                &&& c == trees(toks.skip(k2 + 2))
            };
            if k2 < k {
                assert(toks[k2].punct == Some('&') && toks[k2 + 1].punct == Some('&'));
            }
            assert(k2 == k);
        },
    }
}

/// A guard with no two adjacent `&` punctuation tokens is not split: the let
/// part is the trees of all its tokens, and there is no condition.
pub proof fn law_split_without_ampersands(toks: Seq<GuardToken>)
    requires
        forall|j: int| 0 <= j && j + 1 < toks.len() ==> !(#[trigger] toks[j].punct == Some('&') && toks[j + 1].punct == Some('&')),
    ensures
        split_spec(toks).0 == toks.map_values(|t: GuardToken| t.tree),
        split_spec(toks).1 is None,
{
    law_guard_split(toks);
    match split_spec(toks).1 {
        None => {},
        Some(c) => {
            let k = choose|k: int| {
                &&& #[trigger] and_and_at(toks, k)
                &&& forall|j: int| 0 <= j < k ==> !and_and_at(toks, j)
                &&& split_spec(toks).0 == trees(toks.take(k))
                &&& c == trees(toks.skip(k + 2))
            };
            assert(toks[k].punct == Some('&') && toks[k + 1].punct == Some('&'));
        },
    }
}

/// Moves the token trees out of `toks`, in order.
pub fn into_trees(toks: Vec<GuardToken>) -> (r: Vec<proc_macro2::TokenTree>)
    ensures
        r@ == trees(toks@),
{
    let ghost orig = toks@;
    let mut out: Vec<proc_macro2::TokenTree> = Vec::new();
    for t in it: toks
        invariant
            it.seq() == orig,
            out@ == trees(orig.take(it.index())),
    {
        let ghost i = it.index();
        assert(orig.take(i + 1) =~= orig.take(i).push(orig[i]));
        out.push(t.tree);
        assert(trees(orig.take(i + 1)) =~= trees(orig.take(i)).push(orig[i].tree));
    }
    assert(orig.take(orig.len() as int) =~= orig);
    out
}

/// The condition half of a split, as a sequence.
pub open spec fn condition_view(c: Option<Vec<proc_macro2::TokenTree>>) -> Option<Seq<proc_macro2::TokenTree>> {
    match c {
        Some(v) => Some(v@),
        None => None,
    }
}

/// Splitting after a prefix that holds no `&&` keeps that prefix whole.
pub proof fn lemma_split_prefix(toks: Seq<GuardToken>, k: int)
    requires
        0 <= k <= toks.len(),
        forall|j: int| 0 <= j < k ==> !and_and_at(toks, j),
    ensures
        split_spec(toks).0 == trees(toks.take(k)) + split_spec(toks.skip(k)).0,
        split_spec(toks).1 == split_spec(toks.skip(k)).1,
    decreases k,
{
    if k == 0 {
        assert(toks.take(0) =~= Seq::<GuardToken>::empty());
        assert(toks.skip(0) =~= toks);
        assert(trees(toks.take(0)) =~= Seq::<proc_macro2::TokenTree>::empty());
        assert(split_spec(toks).0 =~= trees(toks.take(0)) + split_spec(toks.skip(0)).0);
    } else {
        let tail = toks.drop_first();
        assert forall|j: int| 0 <= j < k - 1 implies !and_and_at(tail, j) by {
            assert(!and_and_at(toks, j + 1));
        }
        lemma_split_prefix(tail, k - 1);
        assert(tail.skip(k - 1) =~= toks.skip(k));
        assert(toks.take(k) =~= seq![toks[0]] + tail.take(k - 1));
        assert(trees(toks.take(k)) =~= seq![toks[0].tree] + trees(tail.take(k - 1)));
        if toks.len() < 2 {
            assert(k == 1);
            assert(toks.skip(1).len() == 0);
            assert(trees(toks) =~= seq![toks[0].tree]);
            assert(trees(toks.skip(1)) =~= Seq::<proc_macro2::TokenTree>::empty());
            assert(split_spec(toks).0 =~= trees(toks.take(k)) + split_spec(toks.skip(k)).0);
        } else {
            assert(!and_and_at(toks, 0));
            assert(split_spec(toks).0 =~= trees(toks.take(k)) + split_spec(toks.skip(k)).0);
        }
    }
}

/// Splits a guard at its first top-level `&&`: the tokens before it, and,
/// when there is one, the tokens after it.
pub fn split_guard(toks: Vec<GuardToken>) -> (r: (Vec<proc_macro2::TokenTree>, Option<Vec<proc_macro2::TokenTree>>))
    ensures
        r.0@ == split_spec(toks@).0,
        condition_view(r.1) == split_spec(toks@).1,
        forall|k: int| 0 <= k && k + 1 < toks@.len() && toks@[k].punct == Some('&') && toks@[k + 1].punct == Some('&')
            && (forall|j: int| 0 <= j < k ==> !(#[trigger] toks@[j].punct == Some('&') && toks@[j + 1].punct == Some('&')))
            ==> r.0@ == toks@.take(k).map_values(|t: GuardToken| t.tree)
                && condition_view(r.1) == Some(toks@.skip(k + 2).map_values(|t: GuardToken| t.tree)),
        (forall|j: int| 0 <= j && j + 1 < toks@.len() ==> !(#[trigger] toks@[j].punct == Some('&') && toks@[j + 1].punct == Some('&')))
            ==> r.0@ == toks@.map_values(|t: GuardToken| t.tree) && r.1 is None,
{
    let ghost orig = toks@;
    let n = toks.len();
    let mut k: usize = 0;
    let mut found = false;
    while k < n && n - k >= 2
        invariant_except_break
            k <= n,
            !found,
        invariant
            n == toks@.len(),
            toks@ == orig,
            forall|j: int| 0 <= j < k ==> !and_and_at(orig, j),
        ensures
            k <= n,
            found ==> k + 1 < n && and_and_at(orig, k as int),
            !found ==> k + 1 >= n,
        decreases n - k,
    {
        let first = match toks[k].punct {
            Some(c) => c == '&',
            None => false,
        };
        let second = match toks[k + 1].punct {
            Some(c) => c == '&',
            None => false,
        };
        if first && second {
            found = true;
            break;
        }
        k = k + 1;
    }
    proof {
        lemma_split_prefix(orig, k as int);
        assert forall|k2: int| 0 <= k2 && k2 + 1 < orig.len() && orig[k2].punct == Some('&') && orig[k2 + 1].punct == Some('&')
            && (forall|j: int| 0 <= j < k2 ==> !(#[trigger] orig[j].punct == Some('&') && orig[j + 1].punct == Some('&')))
            implies split_spec(orig).0 == orig.take(k2).map_values(|t: GuardToken| t.tree)
                && split_spec(orig).1 == Some(orig.skip(k2 + 2).map_values(|t: GuardToken| t.tree)) by {
            law_split_at_first_ampersands(orig, k2);
        }
        if forall|j: int| 0 <= j && j + 1 < orig.len() ==> !(#[trigger] orig[j].punct == Some('&') && orig[j + 1].punct == Some('&')) {
            law_split_without_ampersands(orig);
        }
    }
    if found {
        let mut head = toks;
        let rest = head.split_off(k + 2);
        head.truncate(k);
        assert(head@ =~= orig.take(k as int));
        assert(rest@ =~= orig.skip(k as int).skip(2));
        let let_part = into_trees(head);
        let cond = into_trees(rest);
        assert(split_spec(orig.skip(k as int)).0 =~= Seq::<proc_macro2::TokenTree>::empty());
        assert(let_part@ =~= split_spec(orig).0);
        (let_part, Some(cond))
    } else {
        let ghost rest = orig.skip(k as int);
        assert(rest.len() < 2);
        assert(orig.take(k as int) + rest =~= orig);
        assert(trees(orig.take(k as int)) + trees(rest) =~= trees(orig));
        let let_part = into_trees(toks);
        (let_part, None)
    }
}

} // verus!
