//! Rule trees: what a rule expression compiles to, and the merge that folds
//! trees with one root label into one.

use vstd::prelude::*;
use crate::text::str_eq;

verus! {

/// The trees that stand side by side: the alternatives at one place.
pub type Forest<'a> = Vec<Node<'a>>;

/// One node of a rule tree. A `Node` has a label, a flag that tells whether
/// a match may end on it, and the trees that may follow it. A `Leaf` has a
/// label only: a match always may end on it.
#[derive(Debug, PartialEq, Eq)]
pub enum Node<'a> {
    Node(&'a str, bool, Vec<Node<'a>>),
    Leaf(&'a str),
}

/// A rule tree as a mathematical value.
pub enum Tree {
    Node(Seq<char>, bool, Seq<Tree>),
    Leaf(Seq<char>),
}

/// The trees of a forest as mathematical values.
pub open spec fn forest_view(f: Seq<Node>) -> Seq<Tree>
    decreases f,
{
    Seq::new(
        f.len(),
        |i: int|
            if 0 <= i < f.len() {
                f[i].view()
            } else {
                Tree::Leaf(Seq::empty())
            },
    )
}

impl<'a> View for Node<'a> {
    type V = Tree;

    open spec fn view(&self) -> Tree
        decreases self,
    {
        match self {
            Node::Node(label, can_end, forest) => Tree::Node(
                label@,
                *can_end,
                forest_view(forest@),
            ),
            Node::Leaf(label) => Tree::Leaf(label@),
        }
    }
}

/// The label of a tree's root.
pub open spec fn label_of(t: Tree) -> Seq<char> {
    match t {
        Tree::Node(label, _, _) => label,
        Tree::Leaf(label) => label,
    }
}

/// Index of the first tree at or after `i` whose root is labelled `label`,
/// or the number of trees.
pub open spec fn find_label(f: Seq<Tree>, label: Seq<char>, i: int) -> int
    decreases f.len() - i,
{
    if 0 <= i < f.len() {
        if label_of(f[i]) == label {
            i
        } else {
            find_label(f, label, i + 1)
        }
    } else {
        f.len() as int
    }
}

pub proof fn lemma_find_label(f: Seq<Tree>, label: Seq<char>, i: int)
    requires
        0 <= i <= f.len(),
    ensures
        i <= find_label(f, label, i) <= f.len(),
        find_label(f, label, i) < f.len() ==> label_of(f[find_label(f, label, i)]) == label,
        forall|k: int| i <= k < find_label(f, label, i) ==> label_of(#[trigger] f[k]) != label,
    decreases f.len() - i,
{
    if i < f.len() && label_of(f[i]) != label {
        lemma_find_label(f, label, i + 1);
    }
}

/// The tree `a` with `b` merged into it.
///
/// Two nodes: the trees that follow `b` are merged into those that follow
/// `a`. A node and a leaf: the node, on which a match may now end. A leaf and
/// a node: that node, on which a match may end. Two leaves: the first.
pub open spec fn merge_tree(a: Tree, b: Tree) -> Tree
    decreases b, 0int,
{
    match a {
        Tree::Node(label, can_end, f) => match b {
            Tree::Leaf(_) => Tree::Node(label, true, f),
            Tree::Node(_, _, g) => Tree::Node(label, can_end, merge_forest(f, g, g.len() as int)),
        },
        Tree::Leaf(_) => match b {
            Tree::Node(root, _, g) => Tree::Node(root, true, g),
            Tree::Leaf(_) => a,
        },
    }
}

/// The forest `f1` with the first `n` trees of `f2` merged into it, one
/// after the other: each into the first tree with its root label, or put
/// behind the others where no tree has that label yet.
pub open spec fn merge_forest(f1: Seq<Tree>, f2: Seq<Tree>, n: int) -> Seq<Tree>
    decreases f2, n,
{
    if n <= 0 || n > f2.len() {
        f1
    } else {
        let prev = merge_forest(f1, f2, n - 1);
        let t = f2[n - 1];
        let k = find_label(prev, label_of(t), 0);
        if 0 <= k < prev.len() {
            prev.update(k, merge_tree(prev[k], t))
        } else {
            prev.push(t)
        }
    }
}

/// The forest `f` with the tree `t` added: merged into the first tree with
/// its root label, or put behind the others.
pub open spec fn add_tree(f: Seq<Tree>, t: Tree) -> Seq<Tree> {
    let k = find_label(f, label_of(t), 0);
    if 0 <= k < f.len() {
        f.update(k, merge_tree(f[k], t))
    } else {
        f.push(t)
    }
}

/// No two trees of the forest share a root label.
pub open spec fn distinct_labels(f: Seq<Tree>) -> bool {
    forall|i: int, j: int|
        0 <= i < j < f.len() ==> label_of(#[trigger] f[i]) != label_of(#[trigger] f[j])
}

/// Below every node, no two trees that stand side by side share a label.
pub open spec fn tree_wf(t: Tree) -> bool
    decreases t,
{
    match t {
        Tree::Node(_, _, f) => distinct_labels(f) && forall|i: int|
            0 <= i < f.len() ==> tree_wf(#[trigger] f[i]),
        Tree::Leaf(_) => true,
    }
}

/// No two trees of the forest share a root label, nor any two that stand
/// side by side below.
pub open spec fn forest_wf(f: Seq<Tree>) -> bool {
    distinct_labels(f) && forall|i: int| 0 <= i < f.len() ==> tree_wf(#[trigger] f[i])
}

/// Merging a tree into itself leaves it as it is.
pub proof fn lemma_merge_tree_idempotent(t: Tree)
    requires
        tree_wf(t),
    ensures
        merge_tree(t, t) == t,
    decreases t, 0int,
{
    match t {
        Tree::Node(label, can_end, f) => {
            lemma_merge_prefix_idempotent(f, f.len() as int);
        },
        Tree::Leaf(_) => {},
    }
}

/// Merging the first `n` trees of a forest into it leaves it as it is.
pub proof fn lemma_merge_prefix_idempotent(f: Seq<Tree>, n: int)
    requires
        forest_wf(f),
        0 <= n <= f.len(),
    ensures
        merge_forest(f, f, n) == f,
    decreases f, n,
{
    if n > 0 {
        lemma_merge_prefix_idempotent(f, n - 1);
        let t = f[n - 1];
        lemma_find_label(f, label_of(t), 0);
        let k = find_label(f, label_of(t), 0);
        assert(k == n - 1) by {
            if k < n - 1 {
                assert(label_of(f[k]) != label_of(f[n - 1]));
            }
        }
        lemma_merge_tree_idempotent(t);
        assert(f.update(k, merge_tree(f[k], t)) =~= f);
    }
}

/// Merge is idempotent: a forest in which no two trees side by side share a
/// label, merged with itself, is the same forest.
pub proof fn lemma_merge_idempotent(f: Seq<Tree>)
    requires
        forest_wf(f),
    ensures
        merge_forest(f, f, f.len() as int) == f,
{
    lemma_merge_prefix_idempotent(f, f.len() as int);
}

/// Merging trees of one label gives a tree of that label.
pub proof fn lemma_merge_tree_label(a: Tree, b: Tree)
    requires
        label_of(a) == label_of(b),
    ensures
        label_of(merge_tree(a, b)) == label_of(a),
{
}

/// Merging keeps trees in order: where no two trees side by side share a
/// label in `a` nor in `b`, none do in `a` with `b` merged into it.
pub proof fn lemma_merge_tree_wf(a: Tree, b: Tree)
    requires
        tree_wf(a),
        tree_wf(b),
    ensures
        tree_wf(merge_tree(a, b)),
    decreases b, 0int,
{
    match a {
        Tree::Node(_, _, f) => match b {
            Tree::Leaf(_) => {},
            Tree::Node(_, _, g) => {
                lemma_merge_forest_wf(f, g, g.len() as int);
            },
        },
        Tree::Leaf(_) => {},
    }
}

/// The same of a forest with the first `n` trees of another merged into it.
pub proof fn lemma_merge_forest_wf(f1: Seq<Tree>, f2: Seq<Tree>, n: int)
    requires
        forest_wf(f1),
        forall|i: int| 0 <= i < f2.len() ==> tree_wf(#[trigger] f2[i]),
        0 <= n <= f2.len(),
    ensures
        forest_wf(merge_forest(f1, f2, n)),
    decreases f2, n,
{
    if n > 0 {
        lemma_merge_forest_wf(f1, f2, n - 1);
        let prev = merge_forest(f1, f2, n - 1);
        let t = f2[n - 1];
        let k = find_label(prev, label_of(t), 0);
        lemma_find_label(prev, label_of(t), 0);
        if 0 <= k < prev.len() {
            lemma_merge_tree_wf(prev[k], t);
            lemma_merge_tree_label(prev[k], t);
            let next = prev.update(k, merge_tree(prev[k], t));
            assert forall|i: int, j: int| 0 <= i < j < next.len() implies label_of(
                #[trigger] next[i],
            ) != label_of(#[trigger] next[j]) by {
                assert(label_of(next[i]) == label_of(prev[i]));
                assert(label_of(next[j]) == label_of(prev[j]));
            }
        } else {
            let next = prev.push(t);
            assert forall|i: int, j: int| 0 <= i < j < next.len() implies label_of(
                #[trigger] next[i],
            ) != label_of(#[trigger] next[j]) by {
                if j == prev.len() {
                    assert(label_of(prev[i]) != label_of(t));
                } else {
                    assert(next[i] == prev[i] && next[j] == prev[j]);
                }
            }
        }
    }
}

/// Adding a tree keeps a forest in order.
pub proof fn lemma_add_tree_wf(f: Seq<Tree>, t: Tree)
    requires
        forest_wf(f),
        tree_wf(t),
    ensures
        forest_wf(add_tree(f, t)),
{
    let one = seq![t];
    assert(merge_forest(f, one, 0) == f);
    assert(merge_forest(f, one, 1) == add_tree(f, t));
    lemma_merge_forest_wf(f, one, 1);
}

/// A copy of the forest, tree by tree.
pub fn copy_forest<'a>(f: &Vec<Node<'a>>) -> (r: Vec<Node<'a>>)
    ensures
        forest_view(r@) == forest_view(f@),
    decreases f, 0int,
{
    let mut r: Vec<Node<'a>> = Vec::new();
    let mut i: usize = 0;
    while i < f.len()
        invariant
            i <= f.len(),
            r@.len() == i,
            forall|k: int| 0 <= k < i ==> (#[trigger] r@[k])@ == f@[k]@,
        decreases f.len() - i,
    {
        let c = f[i].copy();
        r.push(c);
        i += 1;
    }
    assert(forest_view(r@) =~= forest_view(f@));
    r
}

/// The tree `a` with `b` merged into it.
pub fn merged<'a>(a: Node<'a>, b: &Node<'a>) -> (r: Node<'a>)
    ensures
        r@ == merge_tree(a@, b@),
    decreases b, 1int,
{
    match a {
        Node::Node(label, can_end, forest) => match b {
            Node::Leaf(_) => Node::Node(label, true, forest),
            Node::Node(_, _, new_forest) => {
                let mut forest = forest;
                merge_node_forests(&mut forest, new_forest);
                Node::Node(label, can_end, forest)
            },
        },
        Node::Leaf(label) => match b {
            Node::Node(root, _, forest) => Node::Node(*root, true, copy_forest(forest)),
            Node::Leaf(_) => Node::Leaf(label),
        },
    }
}

/// Position of the first tree of `f` whose root is labelled as `label`.
pub fn position_of<'a>(f: &Vec<Node<'a>>, label: &str) -> (r: Option<usize>)
    ensures
        match r {
            Some(k) => k == find_label(forest_view(f@), label@, 0) && k < f@.len(),
            None => find_label(forest_view(f@), label@, 0) == f@.len(),
        },
{
    let ghost fv = forest_view(f@);
    let mut i: usize = 0;
    while i < f.len()
        invariant
            i <= f.len(),
            fv == forest_view(f@),
            find_label(fv, label@, 0) == find_label(fv, label@, i as int),
        decreases f.len() - i,
    {
        assert(fv[i as int] == f@[i as int]@);
        if str_eq(f[i].typechar(), label) {
            return Some(i);
        }
        i += 1;
    }
    None
}

/// Adds `node` to the forest: merges it into the first tree with its root
/// label, or puts it behind the others.
pub fn add_node<'a>(f: &mut Vec<Node<'a>>, node: Node<'a>)
    ensures
        forest_view(final(f)@) == add_tree(forest_view(old(f)@), node@),
{
    let ghost fv = forest_view(f@);
    match position_of(f, node.typechar()) {
        Some(k) => {
            let cur = f.remove(k);
            assert(cur@ == fv[k as int]);
            let m = merged(cur, &node);
            f.insert(k, m);
            assert(forest_view(f@) =~= fv.update(k as int, merge_tree(fv[k as int], node@)));
        },
        None => {
            f.push(node);
            assert(forest_view(f@) =~= fv.push(node@));
        },
    }
}

/// Merges the trees of `f2` into `f1`, one after the other: each into the
/// first tree with its root label, or behind the others.
pub fn merge_node_forests<'a>(f1: &mut Vec<Node<'a>>, f2: &Vec<Node<'a>>)
    ensures
        forest_view(final(f1)@) == merge_forest(
            forest_view(old(f1)@),
            forest_view(f2@),
            f2@.len() as int,
        ),
    decreases f2, 0int,
{
    let ghost v1 = forest_view(f1@);
    let ghost v2 = forest_view(f2@);
    let mut n: usize = 0;
    while n < f2.len()
        invariant
            n <= f2.len(),
            v1 == forest_view(old(f1)@),
            v2 == forest_view(f2@),
            forest_view(f1@) == merge_forest(v1, v2, n as int),
        decreases f2.len() - n,
    {
        let ghost prev = forest_view(f1@);
        let node_f2 = &f2[n];
        assert(v2[n as int] == node_f2@);
        match position_of(f1, node_f2.typechar()) {
            Some(k) => {
                let cur = f1.remove(k);
                assert(cur@ == prev[k as int]);
                let m = merged(cur, node_f2);
                f1.insert(k, m);
                assert(forest_view(f1@) =~= prev.update(
                    k as int,
                    merge_tree(prev[k as int], node_f2@),
                ));
            },
            None => {
                f1.push(node_f2.copy());
                assert(forest_view(f1@) =~= prev.push(node_f2@));
            },
        }
        n += 1;
    }
}

impl<'a> Node<'a> {
    /// The label of the root.
    pub fn typechar(&self) -> (r: &'a str)
        ensures
            r@ == label_of(self@),
    {
        match self {
            Node::Node(tc, _, _) => tc,
            Node::Leaf(tc) => tc,
        }
    }

    /// A copy of the tree.
    pub fn copy(&self) -> (r: Node<'a>)
        ensures
            r@ == self@,
        decreases self, 1int,
    {
        match self {
            Node::Node(tc, can_end, forest) => Node::Node(*tc, *can_end, copy_forest(forest)),
            Node::Leaf(tc) => Node::Leaf(*tc),
        }
    }

    /// Merges `node` into this tree.
    pub fn merge(&mut self, node: &Node<'a>)
        ensures
            final(self)@ == merge_tree(old(self)@, node@),
    {
        let mut taken = Node::Leaf("");
        core::mem::swap(self, &mut taken);
        *self = merged(taken, node);
    }
}

/// A declared name with what was said of it: the forest of its rule, and
/// for a primitive token the literals that it is restricted to.
pub struct Identity<'a> {
    pub name: &'a str,
    pub forest: Vec<Node<'a>>,
    pub constraints: Option<Vec<&'a str>>,
}

/// The texts of a list of literals.
pub open spec fn texts(lits: Seq<&str>) -> Seq<Seq<char>> {
    Seq::new(lits.len(), |i: int| lits[i]@)
}

/// An identity as a mathematical value.
pub struct IdentityView {
    pub name: Seq<char>,
    pub forest: Seq<Tree>,
    pub constraints: Option<Seq<Seq<char>>>,
}

impl<'a> View for Identity<'a> {
    type V = IdentityView;

    open spec fn view(&self) -> IdentityView {
        IdentityView {
            name: self.name@,
            forest: forest_view(self.forest@),
            constraints: match self.constraints {
                Some(c) => Some(texts(c@)),
                None => None,
            },
        }
    }
}

impl<'a> Identity<'a> {
    /// A primitive token: it has a list of literals, empty at first.
    pub fn token(name: &'a str) -> (r: Identity<'a>)
        ensures
            r.name == name,
            r.forest@.len() == 0,
            r.constraints matches Some(c) && c@.len() == 0,
    {
        Identity { name, forest: Vec::new(), constraints: Some(Vec::new()) }
    }

    /// A group: it has no list of literals.
    pub fn group(name: &'a str) -> (r: Identity<'a>)
        ensures
            r.name == name,
            r.forest@.len() == 0,
            r.constraints is None,
    {
        Identity { name, forest: Vec::new(), constraints: None }
    }

    /// Sets the literals of a primitive token. A group takes none: it is
    /// left as it is and the error says so.
    pub fn set_constraints(&mut self, new_constraints: Vec<&'a str>) -> (r: Result<(), String>)
        ensures
            final(self).name == old(self).name,
            final(self).forest == old(self).forest,
            old(self).constraints is Some ==> r is Ok && final(self).constraints == Some(
                new_constraints,
            ),
            old(self).constraints is None ==> final(self).constraints is None && (r matches Err(e)
                && e@
                == "You tried to assign constraints to a group, it's not supported by the language yet."@),
    {
        if self.constraints.is_some() {
            self.constraints = Some(new_constraints);
            Ok(())
        } else {
            Err(
                String::from_str(
                    "You tried to assign constraints to a group, it's not supported by the language yet.",
                ),
            )
        }
    }

    /// Sets the forest of the rule.
    pub fn set_forest(&mut self, new_forest: Vec<Node<'a>>) -> (r: Result<(), String>)
        ensures
            r is Ok,
            final(self).name == old(self).name,
            final(self).constraints == old(self).constraints,
            final(self).forest == new_forest,
    {
        self.forest = new_forest;
        Ok(())
    }
}

} // verus!
