//! Merging in either order: two forests merged one into the other hold the
//! same trees, whichever comes first, up to the order of trees side by side.

use vstd::prelude::*;
use crate::rule_tree::{Tree, label_of, find_label, lemma_find_label, merge_tree, merge_forest, add_tree, distinct_labels, tree_wf, forest_wf, lemma_merge_forest_wf, lemma_merge_tree_label};

verus! {

/// The first tree of `f` whose root is labelled `l`.
pub open spec fn tree_at(f: Seq<Tree>, l: Seq<char>) -> Option<Tree> {
    let k = find_label(f, l, 0);
    if 0 <= k < f.len() {
        Some(f[k])
    } else {
        None
    }
}

/// What stands under a label once two forests are merged: the tree of the
/// one, that of the other, or the two merged.
pub open spec fn combine(a: Option<Tree>, b: Option<Tree>) -> Option<Tree> {
    match a {
        Some(x) => match b {
            Some(y) => Some(merge_tree(x, y)),
            None => a,
        },
        None => b,
    }
}

/// The trees are the same up to the order of trees side by side: same
/// label, same flag, and below a node each tree of the one has its like in
/// the other.
pub open spec fn tree_equiv(a: Tree, b: Tree) -> bool
    decreases a, 0int,
{
    match a {
        Tree::Leaf(l) => b matches Tree::Leaf(m) && l == m,
        Tree::Node(l, e, f) => match b {
            Tree::Leaf(_) => false,
            Tree::Node(m, e2, g) => {
                &&& l == m
                &&& e == e2
                &&& forall|i: int| 0 <= i < f.len() ==> has_like(#[trigger] f[i], g)
                &&& forall|j: int| 0 <= j < g.len() ==> liked_by(f, #[trigger] g[j])
            },
        },
    }
}

/// The tree `t` has its like among the trees of `g`.
pub open spec fn has_like(t: Tree, g: Seq<Tree>) -> bool
    decreases t, 1int,
{
    exists|j: int| 0 <= j < g.len() && tree_equiv(t, #[trigger] g[j])
}

/// Some tree of `f` has its like in `u`.
pub open spec fn liked_by(f: Seq<Tree>, u: Tree) -> bool
    decreases f, 0int,
{
    exists|i: int| 0 <= i < f.len() && tree_equiv(#[trigger] f[i], u)
}

/// The forests hold the same trees up to order.
pub open spec fn forest_equiv(f: Seq<Tree>, g: Seq<Tree>) -> bool {
    &&& forall|i: int| 0 <= i < f.len() ==> has_like(#[trigger] f[i], g)
    &&& forall|j: int| 0 <= j < g.len() ==> liked_by(f, #[trigger] g[j])
}

/// Wherever the two trees have nodes under the same labels, the nodes agree
/// on whether a match may end on them.
pub open spec fn agree(a: Tree, b: Tree) -> bool
    decreases a,
{
    match a {
        Tree::Leaf(_) => true,
        Tree::Node(_, e, f) => match b {
            Tree::Leaf(_) => true,
            Tree::Node(_, e2, g) => e == e2 && forall|i: int, j: int|
                0 <= i < f.len() && 0 <= j < g.len() && label_of(f[i]) == label_of(g[j])
                    ==> agree(#[trigger] f[i], #[trigger] g[j]),
        },
    }
}

/// The trees of the two forests agree wherever their labels meet.
pub open spec fn forest_agree(f: Seq<Tree>, g: Seq<Tree>) -> bool {
    forall|i: int, j: int|
        0 <= i < f.len() && 0 <= j < g.len() && label_of(f[i]) == label_of(g[j]) ==> agree(
            #[trigger] f[i],
            #[trigger] g[j],
        )
}

/// Every tree is its own like.
pub proof fn lemma_equiv_refl(a: Tree)
    ensures
        tree_equiv(a, a),
    decreases a,
{
    match a {
        Tree::Leaf(_) => {},
        Tree::Node(_, _, f) => {
            assert forall|i: int| 0 <= i < f.len() implies has_like(#[trigger] f[i], f) by {
                lemma_equiv_refl(f[i]);
                assert(tree_equiv(f[i], f[i]));
            }
            assert forall|j: int| 0 <= j < f.len() implies liked_by(f, #[trigger] f[j]) by {
                lemma_equiv_refl(f[j]);
                assert(tree_equiv(f[j], f[j]));
            }
        },
    }
}

/// Forests with the same labels in the same places find a label at the
/// same place.
pub proof fn lemma_find_same_labels(a: Seq<Tree>, b: Seq<Tree>, l: Seq<char>, i: int)
    requires
        a.len() == b.len(),
        forall|k: int| 0 <= k < a.len() ==> label_of(#[trigger] a[k]) == label_of(b[k]),
        0 <= i <= a.len(),
    ensures
        find_label(a, l, i) == find_label(b, l, i),
    decreases a.len() - i,
{
    if i < a.len() {
        assert(label_of(a[i]) == label_of(b[i]));
        if label_of(a[i]) != l {
            lemma_find_same_labels(a, b, l, i + 1);
        }
    }
}

/// Where a label is found once a tree is put behind a forest.
pub proof fn lemma_find_push(r: Seq<Tree>, t: Tree, l: Seq<char>, i: int)
    requires
        0 <= i <= r.len(),
    ensures
        find_label(r.push(t), l, i) == (if find_label(r, l, i) < r.len() {
            find_label(r, l, i)
        } else if label_of(t) == l {
            r.len() as int
        } else {
            (r.len() + 1) as int
        }),
    decreases r.len() - i,
{
    let p = r.push(t);
    if i < r.len() {
        assert(p[i] == r[i]);
        if label_of(r[i]) != l {
            lemma_find_push(r, t, l, i + 1);
        }
    } else {
        assert(p[i] == t);
        assert(find_label(p, l, i + 1) == p.len());
    }
}

/// What stands under a label once a tree is added to a forest.
pub proof fn lemma_add_tree_at(r: Seq<Tree>, t: Tree, l: Seq<char>)
    ensures
        tree_at(add_tree(r, t), l) == (if l == label_of(t) {
            combine(tree_at(r, l), Some(t))
        } else {
            tree_at(r, l)
        }),
{
    let k = find_label(r, label_of(t), 0);
    lemma_find_label(r, label_of(t), 0);
    lemma_find_label(r, l, 0);
    if 0 <= k < r.len() {
        let m = merge_tree(r[k], t);
        lemma_merge_tree_label(r[k], t);
        let next = r.update(k, m);
        assert forall|q: int| 0 <= q < r.len() implies label_of(#[trigger] r[q]) == label_of(
            next[q],
        ) by {}
        lemma_find_same_labels(r, next, l, 0);
        let kk = find_label(r, l, 0);
        if l == label_of(t) {
            assert(kk == k);
        } else {
            if kk < r.len() {
                assert(kk != k);
                assert(next[kk] == r[kk]);
            }
        }
    } else {
        lemma_find_push(r, t, l, 0);
        let next = r.push(t);
        let kk = find_label(r, l, 0);
        if kk < r.len() {
            assert(next[kk] == r[kk]);
        } else if label_of(t) == l {
            assert(next[r.len() as int] == t);
        }
    }
}

/// In a forest without a label twice, each tree stands under its label.
pub proof fn lemma_tree_at_own(f: Seq<Tree>, i: int)
    requires
        distinct_labels(f),
        0 <= i < f.len(),
    ensures
        tree_at(f, label_of(f[i])) == Some(f[i]),
{
    lemma_find_label(f, label_of(f[i]), 0);
    let k = find_label(f, label_of(f[i]), 0);
    if k < i {
        assert(label_of(f[k]) != label_of(f[i]));
    }
}

/// What stands under a label once the first `n` trees of `g` are merged
/// into `f`: what `f` and those trees have under it, combined.
pub proof fn lemma_merge_forest_at(f: Seq<Tree>, g: Seq<Tree>, n: int, l: Seq<char>)
    requires
        distinct_labels(g),
        0 <= n <= g.len(),
    ensures
        tree_at(merge_forest(f, g, n), l) == combine(tree_at(f, l), tree_at(g.subrange(0, n), l)),
    decreases n,
{
    if n > 0 {
        lemma_merge_forest_at(f, g, n - 1, l);
        let prev = merge_forest(f, g, n - 1);
        let t = g[n - 1];
        lemma_add_tree_at(prev, t, l);
        assert(merge_forest(f, g, n) == add_tree(prev, t));
        let before = g.subrange(0, n - 1);
        let now = g.subrange(0, n);
        assert(now =~= before.push(t));
        lemma_find_push(before, t, l, 0);
        lemma_find_label(before, l, 0);
        let kb = find_label(before, l, 0);
        if l == label_of(t) {
            if kb < before.len() {
                assert(before[kb] == g[kb]);
                assert(label_of(g[kb]) != label_of(g[n - 1]));
            }
            assert(tree_at(before, l) is None);
            assert(now[n - 1] == t);
            assert(tree_at(now, l) == Some(t));
        } else {
            if kb < before.len() {
                assert(now[kb] == before[kb]);
            }
            assert(tree_at(now, l) == tree_at(before, l));
        }
    } else {
        assert(g.subrange(0, 0).len() == 0);
    }
}

/// Two trees of one label, merged in either order, are the same up to
/// order, where they are in order themselves and agree on their flags.
pub proof fn lemma_merge_commutes(a: Tree, b: Tree)
    requires
        tree_wf(a),
        tree_wf(b),
        label_of(a) == label_of(b),
        agree(a, b),
    ensures
        tree_equiv(merge_tree(a, b), merge_tree(b, a)),
    decreases a, 0int,
{
    match a {
        Tree::Node(l, e, f) => match b {
            Tree::Leaf(_) => {
                lemma_equiv_refl(merge_tree(a, b));
            },
            Tree::Node(m, e2, g) => {
                lemma_forest_commutes(f, g);
                let r1 = merge_forest(f, g, g.len() as int);
                let r2 = merge_forest(g, f, f.len() as int);
                assert(merge_tree(a, b) == Tree::Node(l, e, r1));
                assert(merge_tree(b, a) == Tree::Node(m, e2, r2));
                assert(forest_equiv(r1, r2));
            },
        },
        Tree::Leaf(_) => match b {
            Tree::Node(_, _, _) => {
                lemma_equiv_refl(merge_tree(a, b));
            },
            Tree::Leaf(_) => {},
        },
    }
}

/// Two forests merged one into the other hold the same trees up to order,
/// whichever comes first, where both are in order and agree on their flags.
pub proof fn lemma_forest_commutes(f: Seq<Tree>, g: Seq<Tree>)
    requires
        forest_wf(f),
        forest_wf(g),
        forest_agree(f, g),
    ensures
        forest_equiv(merge_forest(f, g, g.len() as int), merge_forest(g, f, f.len() as int)),
    decreases f, 1int,
{
    let r1 = merge_forest(f, g, g.len() as int);
    let r2 = merge_forest(g, f, f.len() as int);
    lemma_merge_forest_wf(f, g, g.len() as int);
    lemma_merge_forest_wf(g, f, f.len() as int);
    assert(g.subrange(0, g.len() as int) =~= g);
    assert(f.subrange(0, f.len() as int) =~= f);
    assert forall|l: Seq<char>|
        (tree_at(r1, l) is Some || tree_at(r2, l) is Some) implies (tree_at(r1, l) is Some
        && tree_at(r2, l) is Some && tree_equiv(
        tree_at(r1, l).unwrap(),
        tree_at(r2, l).unwrap(),
    )) by {
        lemma_merge_forest_at(f, g, g.len() as int, l);
        lemma_merge_forest_at(g, f, f.len() as int, l);
        lemma_find_label(f, l, 0);
        lemma_find_label(g, l, 0);
        let x = tree_at(f, l);
        let y = tree_at(g, l);
        if x is Some && y is Some {
            let p = find_label(f, l, 0);
            let q = find_label(g, l, 0);
            assert(agree(f[p], g[q]));
            lemma_merge_commutes(f[p], g[q]);
        } else if x is Some {
            lemma_equiv_refl(x.unwrap());
        } else if y is Some {
            lemma_equiv_refl(y.unwrap());
        }
    }
    assert forall|i: int| 0 <= i < r1.len() implies has_like(#[trigger] r1[i], r2) by {
        let l = label_of(r1[i]);
        lemma_tree_at_own(r1, i);
        lemma_find_label(r2, l, 0);
        let j = find_label(r2, l, 0);
        assert(tree_at(r2, l) is Some);
        assert(tree_equiv(r1[i], r2[j]));
    }
    assert forall|j: int| 0 <= j < r2.len() implies liked_by(r1, #[trigger] r2[j]) by {
        let l = label_of(r2[j]);
        lemma_tree_at_own(r2, j);
        lemma_find_label(r1, l, 0);
        let i = find_label(r1, l, 0);
        assert(tree_at(r1, l) is Some);
        assert(tree_equiv(r1[i], r2[j]));
    }
}

/// Alternation commutes under merge: the forest of two alternatives, the
/// tree `t1` of the one and `t2` of the other, holds the same trees up to
/// order whichever alternative is written first, where both trees are in
/// order and agree on their flags.
pub proof fn lemma_alternation_commutes(t1: Tree, t2: Tree)
    requires
        tree_wf(t1),
        tree_wf(t2),
        label_of(t1) == label_of(t2) ==> agree(t1, t2),
    ensures
        forest_equiv(
            add_tree(add_tree(Seq::empty(), t1), t2),
            add_tree(add_tree(Seq::empty(), t2), t1),
        ),
{
    let none = Seq::<Tree>::empty();
    let f = seq![t1];
    let g = seq![t2];
    assert(add_tree(none, t1) =~= f);
    assert(add_tree(none, t2) =~= g);
    assert(merge_forest(f, g, 0) == f);
    assert(merge_forest(f, g, 1) == add_tree(f, t2));
    assert(merge_forest(g, f, 0) == g);
    assert(merge_forest(g, f, 1) == add_tree(g, t1));
    lemma_forest_commutes(f, g);
}

} // verus!
