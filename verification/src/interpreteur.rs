//! The consumer of the token stream: it records what is declared, and
//! compiles the rule of each declared name into a forest of rule trees.

use vstd::prelude::*;
use crate::token::{Content, Token, TokenType, TokenizerMessage, PARSING_ERROR};
use crate::bytes::{char_at_byte, char_position};
use crate::text::{trimmed, trim, str_eq, concat2, concat3, lemma_trim_bounds};
use crate::rule_tree::{Node, Tree, Identity, IdentityView, forest_view, forest_wf, add_tree, add_node, texts, lemma_add_tree_wf, merge_forest, lemma_merge_idempotent};
use crate::expression::{next_expr, lemma_next_expr_len, lemma_next_expr_trimmed, root_spec, read_args, parse_args};

verus! {

/// Why a rule expression does not compile.
pub enum CompileError {
    /// A label that is neither declared nor the name being defined.
    Undeclared(Seq<char>),
    /// The name being defined refers to itself with arguments.
    SelfArguments(Seq<char>),
    /// An operator without a term beside it, or a term that cannot be read.
    Malformed(Seq<char>),
}

/// The text that reports a compile error.
pub open spec fn message_of(e: CompileError) -> Seq<char> {
    match e {
        CompileError::Undeclared(label) => "The symbol '"@ + label + "' is not declared."@,
        CompileError::SelfArguments(name) => "The rule of '"@ + name
            + "' refers to itself with arguments."@,
        CompileError::Malformed(term) => "Malformed expression near '"@ + term + "'."@,
    }
}

/// The forest that the expression `e`, trimmed, compiles to for the name
/// `name`, added to the forest `acc` of the alternatives before it.
///
/// The first alternative is split off at `|` and its first term at `&`.
/// The term becomes a leaf where nothing follows it in its alternative, else
/// a node over the forest of what follows. It is merged into `acc` by its
/// label, and the other alternatives follow. Every label but `name` must
/// stand in `declared`; `name` takes no arguments; `END` is no label.
pub open spec fn compile_spec(
    declared: Seq<Seq<char>>,
    name: Seq<char>,
    e: Seq<char>,
    acc: Seq<Tree>,
) -> Result<Seq<Tree>, CompileError>
    decreases e.len(),
{
    if e.len() == 0 {
        Ok(acc)
    } else {
        let alt = next_expr(e, '|');
        let term = next_expr(alt.0, '&');
        match root_spec(term.0) {
            None => Err(CompileError::Malformed(term.0)),
            Some(root) => {
                if root.label.len() == 0 || root.label == "END"@ || (alt.2 && alt.1.len() == 0) || (
                term.2 && term.1.len() == 0) || term.1.len() >= e.len() || alt.1.len() >= e.len() {
                    Err(CompileError::Malformed(term.0))
                } else if root.label == name && root.has_args {
                    Err(CompileError::SelfArguments(name))
                } else if root.label != name && !declared.contains(root.label) {
                    Err(CompileError::Undeclared(root.label))
                } else if term.1.len() == 0 {
                    compile_spec(declared, name, alt.1, add_tree(acc, Tree::Leaf(root.label)))
                } else {
                    match compile_spec(declared, name, term.1, Seq::empty()) {
                        Err(e) => Err(e),
                        Ok(f) => compile_spec(
                            declared,
                            name,
                            alt.1,
                            add_tree(acc, Tree::Node(root.label, root.is_end, f)),
                        ),
                    }
                }
            },
        }
    }
}

/// What compiles is in order: no two trees side by side share a label.
pub proof fn lemma_compile_wf(
    declared: Seq<Seq<char>>,
    name: Seq<char>,
    e: Seq<char>,
    acc: Seq<Tree>,
)
    requires
        forest_wf(acc),
    ensures
        compile_spec(declared, name, e, acc) matches Ok(f) ==> forest_wf(f),
    decreases e.len(),
{
    if e.len() > 0 {
        let alt = next_expr(e, '|');
        let term = next_expr(alt.0, '&');
        match root_spec(term.0) {
            None => {},
            Some(root) => {
                if root.label.len() == 0 || root.label == "END"@ || (alt.2 && alt.1.len() == 0) || (
                term.2 && term.1.len() == 0) || term.1.len() >= e.len() || alt.1.len() >= e.len() {
                } else if root.label == name && root.has_args {
                } else if root.label != name && !declared.contains(root.label) {
                } else if term.1.len() == 0 {
                    lemma_add_tree_wf(acc, Tree::Leaf(root.label));
                    lemma_compile_wf(declared, name, alt.1, add_tree(acc, Tree::Leaf(root.label)));
                } else {
                    lemma_compile_wf(declared, name, term.1, Seq::empty());
                    match compile_spec(declared, name, term.1, Seq::empty()) {
                        Err(_) => {},
                        Ok(f) => {
                            let t = Tree::Node(root.label, root.is_end, f);
                            lemma_add_tree_wf(acc, t);
                            lemma_compile_wf(declared, name, alt.1, add_tree(acc, t));
                        },
                    }
                }
            },
        }
    }
}

/// What compiles, merged with itself, is the same forest.
pub proof fn lemma_compiled_merge_idempotent(
    declared: Seq<Seq<char>>,
    name: Seq<char>,
    e: Seq<char>,
)
    ensures
        compile_spec(declared, name, e, Seq::empty()) matches Ok(f) ==> merge_forest(
            f,
            f,
            f.len() as int,
        ) == f,
{
    lemma_compile_wf(declared, name, e, Seq::empty());
    match compile_spec(declared, name, e, Seq::empty()) {
        Ok(f) => {
            lemma_merge_idempotent(f);
        },
        Err(_) => {},
    }
}

/// The sections of a rule file.
#[derive(Clone, Copy, Debug, PartialEq, Eq, Structural)]
pub enum SectionKind {
    Declare,
    CharRules,
    TPrimRules,
    GroupRules,
}

/// The consumer's state: the text that the tokens point into, the declared
/// character classes with their definitions, the declared primitive tokens
/// and groups, and the section that the lines belong to.
pub struct Interpreteur<'a> {
    pub text: &'a str,
    pub symb_types: Vec<(&'a str, &'a str)>,
    pub token_types: Vec<Identity<'a>>,
    pub group_types: Vec<Identity<'a>>,
    pub current_section: &'a str,
    pub sections: Vec<(&'static str, SectionKind)>,
}

/// The names of the character classes.
pub open spec fn symbol_names(t: Seq<(&str, &str)>) -> Seq<Seq<char>> {
    Seq::new(t.len(), |i: int| t[i].0@)
}

/// The names of the identities.
pub open spec fn identity_names(t: Seq<Identity>) -> Seq<Seq<char>> {
    Seq::new(t.len(), |i: int| t[i].name@)
}

/// The character classes as mathematical values: name and definition.
pub open spec fn symbols_view(t: Seq<(&str, &str)>) -> Seq<(Seq<char>, Seq<char>)> {
    Seq::new(t.len(), |i: int| (t[i].0@, t[i].1@))
}

/// The identities as mathematical values.
pub open spec fn identities_view(t: Seq<Identity>) -> Seq<IdentityView> {
    Seq::new(t.len(), |i: int| t[i]@)
}

/// Index of the first of `names` at or after `i` that reads `name`, or the
/// number of names.
pub open spec fn first_index(names: Seq<Seq<char>>, name: Seq<char>, i: int) -> int
    decreases names.len() - i,
{
    if 0 <= i < names.len() {
        if names[i] == name {
            i
        } else {
            first_index(names, name, i + 1)
        }
    } else {
        names.len() as int
    }
}

pub proof fn lemma_first_index(names: Seq<Seq<char>>, name: Seq<char>, i: int)
    requires
        0 <= i <= names.len(),
    ensures
        i <= first_index(names, name, i) <= names.len(),
        first_index(names, name, i) < names.len() ==> names[first_index(names, name, i)] == name,
        forall|k: int| i <= k < first_index(names, name, i) ==> names[k] != name,
    decreases names.len() - i,
{
    if i < names.len() && names[i] != name {
        lemma_first_index(names, name, i + 1);
    }
}

/// A name is found among `names` exactly when it is one of them.
pub proof fn lemma_first_index_contains(names: Seq<Seq<char>>, name: Seq<char>)
    ensures
        (first_index(names, name, 0) < names.len()) == names.contains(name),
{
    lemma_first_index(names, name, 0);
    let k = first_index(names, name, 0);
    if k < names.len() {
        assert(names[k] == name);
    }
    if names.contains(name) {
        let j = choose|j: int| 0 <= j < names.len() && names[j] == name;
        if k >= names.len() {
            assert(names[j] != name);
        }
    }
}

/// The names of the table of character classes `t`.
pub open spec fn names_of_symbols(t: Seq<(Seq<char>, Seq<char>)>) -> Seq<Seq<char>> {
    Seq::new(t.len(), |i: int| t[i].0)
}

/// The names of the table of identities `t`.
pub open spec fn names_of_identities(t: Seq<IdentityView>) -> Seq<Seq<char>> {
    Seq::new(t.len(), |i: int| t[i].name)
}

/// The table `t` with the class `name` defined as `value`: in the place of
/// the first class of that name, or behind the others.
pub open spec fn put_symbol(t: Seq<(Seq<char>, Seq<char>)>, name: Seq<char>, value: Seq<char>) -> Seq<
    (Seq<char>, Seq<char>),
> {
    let k = first_index(names_of_symbols(t), name, 0);
    if 0 <= k < t.len() {
        t.update(k, (name, value))
    } else {
        t.push((name, value))
    }
}

/// The table `t` with the identity `v`: in the place of the first identity
/// of its name, or behind the others.
pub open spec fn put_identity(t: Seq<IdentityView>, v: IdentityView) -> Seq<IdentityView> {
    let k = first_index(names_of_identities(t), v.name, 0);
    if 0 <= k < t.len() {
        t.update(k, v)
    } else {
        t.push(v)
    }
}

/// An identity of which nothing is said yet: a primitive token with an
/// empty list of literals, or a group.
pub open spec fn fresh_identity(name: Seq<char>, token: bool) -> IdentityView {
    IdentityView {
        name,
        forest: Seq::empty(),
        constraints: if token {
            Some(Seq::empty())
        } else {
            None
        },
    }
}

/// Index of the first comma of `s` at or after `i`, or the length.
pub open spec fn comma_index(s: Seq<char>, i: int) -> int
    decreases s.len() - i,
{
    if 0 <= i < s.len() {
        if s[i] == ',' {
            i
        } else {
            comma_index(s, i + 1)
        }
    } else {
        s.len() as int
    }
}

pub proof fn lemma_comma_index_bounds(s: Seq<char>, i: int)
    requires
        0 <= i <= s.len(),
    ensures
        i <= comma_index(s, i) <= s.len(),
    decreases s.len() - i,
{
    if i < s.len() && s[i] != ',' {
        lemma_comma_index_bounds(s, i + 1);
    }
}

/// The table `t` with every name of the list `s` from `j` on declared as a
/// character class without definition; the names stand between commas and
/// are trimmed.
pub open spec fn declare_symbols(t: Seq<(Seq<char>, Seq<char>)>, s: Seq<char>, j: int) -> Seq<
    (Seq<char>, Seq<char>),
>
    decreases s.len() - j,
{
    let c = comma_index(s, j);
    if j < 0 || j > s.len() || c < j || c > s.len() {
        t
    } else {
        let next = put_symbol(t, trimmed(s.subrange(j, c)), Seq::empty());
        if c >= s.len() {
            next
        } else {
            declare_symbols(next, s, c + 1)
        }
    }
}

/// The table `t` with every name of the list `s` from `j` on declared anew.
pub open spec fn declare_identities(t: Seq<IdentityView>, s: Seq<char>, j: int, token: bool) -> Seq<
    IdentityView,
>
    decreases s.len() - j,
{
    let c = comma_index(s, j);
    if j < 0 || j > s.len() || c < j || c > s.len() {
        t
    } else {
        let next = put_identity(t, fresh_identity(trimmed(s.subrange(j, c)), token));
        if c >= s.len() {
            next
        } else {
            declare_identities(next, s, c + 1, token)
        }
    }
}

/// No name stands twice in the list.
pub open spec fn distinct_names(names: Seq<Seq<char>>) -> bool {
    forall|i: int, j: int| 0 <= i < j < names.len() ==> names[i] != names[j]
}

/// Position of the first character class called `name`.
pub fn has_symbol(t: &Vec<(&str, &str)>, name: &str) -> (r: Option<usize>)
    ensures
        r is Some == symbol_names(t@).contains(name@),
        match r {
            Some(k) => k < t@.len() && k == first_index(symbol_names(t@), name@, 0),
            None => first_index(symbol_names(t@), name@, 0) == t@.len(),
        },
{
    let ghost names = symbol_names(t@);
    proof {
        lemma_first_index_contains(names, name@);
    }
    let mut i: usize = 0;
    while i < t.len()
        invariant
            i <= t.len(),
            names == symbol_names(t@),
            first_index(names, name@, i as int) == first_index(names, name@, 0),
        decreases t.len() - i,
    {
        assert(names[i as int] == t@[i as int].0@);
        if str_eq(t[i].0, name) {
            return Some(i);
        }
        i += 1;
    }
    None
}

/// Position of the first identity called `name`.
pub fn has_identity(t: &Vec<Identity>, name: &str) -> (r: Option<usize>)
    ensures
        r is Some == identity_names(t@).contains(name@),
        match r {
            Some(k) => k < t@.len() && k == first_index(identity_names(t@), name@, 0),
            None => first_index(identity_names(t@), name@, 0) == t@.len(),
        },
{
    let ghost names = identity_names(t@);
    proof {
        lemma_first_index_contains(names, name@);
    }
    let mut i: usize = 0;
    while i < t.len()
        invariant
            i <= t.len(),
            names == identity_names(t@),
            first_index(names, name@, i as int) == first_index(names, name@, 0),
        decreases t.len() - i,
    {
        assert(names[i as int] == t@[i as int].name@);
        if str_eq(t[i].name, name) {
            return Some(i);
        }
        i += 1;
    }
    None
}

/// Defines the character class `name` as `value` in the table.
pub fn insert_symbol<'a>(t: &mut Vec<(&'a str, &'a str)>, name: &'a str, value: &'a str)
    ensures
        symbols_view(final(t)@) == put_symbol(symbols_view(old(t)@), name@, value@),
        distinct_names(symbol_names(old(t)@)) ==> distinct_names(symbol_names(final(t)@)),
{
    let ghost before = symbols_view(t@);
    let ghost names = symbol_names(t@);
    assert(names_of_symbols(before) =~= names);
    proof {
        lemma_first_index(names, name@, 0);
    }
    match has_symbol(t, name) {
        Some(k) => {
            t.set(k, (name, value));
            assert(symbols_view(t@) =~= before.update(k as int, (name@, value@)));
            assert(symbol_names(t@) =~= names);
        },
        None => {
            t.push((name, value));
            assert(symbols_view(t@) =~= before.push((name@, value@)));
            assert(symbol_names(t@) =~= names.push(name@));
        },
    }
}

/// Puts the identity `id` into the table, in the place of one of its name.
pub fn insert_identity<'a>(t: &mut Vec<Identity<'a>>, id: Identity<'a>)
    ensures
        identities_view(final(t)@) == put_identity(identities_view(old(t)@), id@),
        distinct_names(identity_names(old(t)@)) ==> distinct_names(identity_names(final(t)@)),
{
    let ghost before = identities_view(t@);
    let ghost names = identity_names(t@);
    assert(names_of_identities(before) =~= names);
    proof {
        lemma_first_index(names, id.name@, 0);
    }
    match has_identity(t, id.name) {
        Some(k) => {
            t.set(k, id);
            assert(identities_view(t@) =~= before.update(k as int, id@));
            assert(identity_names(t@) =~= names);
        },
        None => {
            t.push(id);
            assert(identities_view(t@) =~= before.push(id@));
            assert(identity_names(t@) =~= names.push(id.name@));
        },
    }
}

impl<'a> Interpreteur<'a> {
    /// Every name that was declared: character classes, primitive tokens, groups.
    pub open spec fn declared(&self) -> Seq<Seq<char>> {
        symbol_names(self.symb_types@) + identity_names(self.token_types@) + identity_names(
            self.group_types@,
        )
    }

    /// Tells whether `label` was declared.
    pub fn is_declared(&self, label: &str) -> (r: bool)
        ensures
            r == self.declared().contains(label@),
    {
        let a = has_symbol(&self.symb_types, label);
        let b = has_identity(&self.token_types, label);
        let c = has_identity(&self.group_types, label);
        proof {
            let x = symbol_names(self.symb_types@);
            let y = identity_names(self.token_types@);
            let z = identity_names(self.group_types@);
            let all = self.declared();
            if x.contains(label@) {
                let i = choose|i: int| 0 <= i < x.len() && x[i] == label@;
                assert(all[i] == label@);
            }
            if y.contains(label@) {
                let i = choose|i: int| 0 <= i < y.len() && y[i] == label@;
                assert(all[x.len() + i] == label@);
            }
            if z.contains(label@) {
                let i = choose|i: int| 0 <= i < z.len() && z[i] == label@;
                assert(all[x.len() + y.len() + i] == label@);
            }
            if all.contains(label@) {
                let i = choose|i: int| 0 <= i < all.len() && all[i] == label@;
                if i < x.len() {
                    assert(x[i] == label@);
                } else if i < x.len() + y.len() {
                    assert(y[i - x.len()] == label@);
                } else {
                    assert(z[i - x.len() - y.len()] == label@);
                }
            }
        }
        a.is_some() || b.is_some() || c.is_some()
    }

    /// Compiles the rule expression `expr` of the name `name` into a forest:
    /// one tree for each root label, the alternatives that share a label
    /// merged. Fails with a message where a label is not declared, where
    /// `name` refers to itself with arguments, or where the expression is
    /// malformed.
    pub fn ptoken_building_tree(&self, name: &'a str, expr: &'a str) -> (r: Result<
        Vec<Node<'a>>,
        String,
    >)
        ensures
            match compile_spec(self.declared(), name@, trimmed(expr@), Seq::empty()) {
                Ok(f) => r matches Ok(v) && forest_view(v@) == f,
                Err(e) => r matches Err(m) && m@ == message_of(e),
            },
            r matches Ok(v) ==> forest_wf(forest_view(v@)),
        decreases expr@.len(),
    {
        let mut rest: &'a str = trim(expr);
        let mut forest: Vec<Node<'a>> = Vec::new();
        let ghost declared = self.declared();
        let ghost goal = compile_spec(declared, name@, trimmed(expr@), Seq::empty());
        proof {
            lemma_trim_bounds(expr@);
            assert(forest_view(forest@) =~= Seq::<Tree>::empty());
            lemma_compile_wf(declared, name@, trimmed(expr@), Seq::empty());
        }
        while rest.unicode_len() > 0
            invariant
                declared == self.declared(),
                rest@.len() <= expr@.len(),
                goal == compile_spec(declared, name@, trimmed(expr@), Seq::empty()),
                goal == compile_spec(declared, name@, rest@, forest_view(forest@)),
            decreases rest@.len(),
        {
            let alt = Interpreteur::get_next_expr(rest, '|');
            let term = Interpreteur::get_next_expr(alt.0, '&');
            proof {
                lemma_next_expr_len(rest@, '|');
                lemma_next_expr_len(alt.0@, '&');
                lemma_next_expr_trimmed(alt.0@, '&');
            }
            let (label, has_args, is_end, _literals) = match Interpreteur::extract_root(term.0) {
                Some(t) => t,
                None => {
                    return Err(concat3("Malformed expression near '", term.0, "'."));
                },
            };
            if label.unicode_len() == 0 || str_eq(label, "END") || (alt.2 && alt.1.unicode_len()
                == 0) || (term.2 && term.1.unicode_len() == 0) {
                return Err(concat3("Malformed expression near '", term.0, "'."));
            }
            let own = str_eq(label, name);
            if own && has_args {
                return Err(concat3("The rule of '", name, "' refers to itself with arguments."));
            }
            if !own && !self.is_declared(label) {
                return Err(concat3("The symbol '", label, "' is not declared."));
            }
            let new_node = if term.1.unicode_len() == 0 {
                Node::Leaf(label)
            } else {
                match self.ptoken_building_tree(name, term.1) {
                    Ok(f) => Node::Node(label, is_end, f),
                    Err(e) => {
                        return Err(e);
                    },
                }
            };
            add_node(&mut forest, new_node);
            rest = alt.1;
        }
        Ok(forest)
    }
}

/// Index of the character that ends the operator of a line: the first `=`,
/// or the first `n` that follows an `i` once a space was read. `space`
/// tells whether a space stands before `i`, `prev` is the character before.
pub open spec fn op_index(s: Seq<char>, i: int, space: bool, prev: char) -> int
    decreases s.len() - i,
{
    if 0 <= i < s.len() {
        if s[i] == '=' || (s[i] == 'n' && space && prev == 'i') {
            i
        } else {
            op_index(s, i + 1, space || s[i] == ' ', s[i])
        }
    } else {
        s.len() as int
    }
}

/// The three parts of a line: what stands before the operator, the
/// operator, and what follows it. `None` where the line has no operator.
pub open spec fn split_spec(s: Seq<char>) -> Option<(Seq<char>, Seq<char>, Seq<char>)> {
    let k = op_index(s, 0, false, 'a');
    if k < 0 || k >= s.len() {
        None
    } else if s[k] == '=' {
        Some((s.subrange(0, k), s.subrange(k, k + 1), s.subrange(k + 1, s.len() as int)))
    } else if k >= 1 {
        Some((s.subrange(0, k - 1), s.subrange(k - 1, k + 1), s.subrange(k + 1, s.len() as int)))
    } else {
        None
    }
}

/// The section that the name `name` stands for.
pub open spec fn section_of(name: Seq<char>) -> Option<SectionKind> {
    if name == "DECLARE"@ {
        Some(SectionKind::Declare)
    } else if name == "CHAR_RULES"@ {
        Some(SectionKind::CharRules)
    } else if name == "TPRIM_RULES"@ {
        Some(SectionKind::TPrimRules)
    } else if name == "GROUP_RULES"@ {
        Some(SectionKind::GroupRules)
    } else {
        None
    }
}

impl<'a> Interpreteur<'a> {
    /// The four sections with their names.
    pub fn build_section_map() -> (r: Vec<(&'static str, SectionKind)>)
        ensures
            sections_ok(r@),
    {
        let mut res: Vec<(&'static str, SectionKind)> = Vec::new();
        res.push(("DECLARE", SectionKind::Declare));
        res.push(("CHAR_RULES", SectionKind::CharRules));
        res.push(("TPRIM_RULES", SectionKind::TPrimRules));
        res.push(("GROUP_RULES", SectionKind::GroupRules));
        res
    }
}

/// The table holds the four sections under their names, in their order.
pub open spec fn sections_ok(t: Seq<(&'static str, SectionKind)>) -> bool {
    &&& t.len() == 4
    &&& t[0].0@ == "DECLARE"@ && t[0].1 == SectionKind::Declare
    &&& t[1].0@ == "CHAR_RULES"@ && t[1].1 == SectionKind::CharRules
    &&& t[2].0@ == "TPRIM_RULES"@ && t[2].1 == SectionKind::TPrimRules
    &&& t[3].0@ == "GROUP_RULES"@ && t[3].1 == SectionKind::GroupRules
}

/// The three tables of `a` and `b` hold the same.
pub open spec fn same_tables(a: Interpreteur, b: Interpreteur) -> bool {
    &&& symbols_view(a.symb_types@) == symbols_view(b.symb_types@)
    &&& identities_view(a.token_types@) == identities_view(b.token_types@)
    &&& identities_view(a.group_types@) == identities_view(b.group_types@)
}

/// Text, section and section table of `a` and `b` are the same.
pub open spec fn same_frame(a: Interpreteur, b: Interpreteur) -> bool {
    &&& a.text == b.text
    &&& a.current_section@ == b.current_section@
    &&& a.sections == b.sections
}

/// What a line of the section `DECLARE` does: `CHARS`, `TPRIMS` and `GROUPS`
/// declare the names of their list in the table of their kind; any other
/// word is refused.
pub open spec fn define_post(
    before: Interpreteur,
    after: Interpreteur,
    left: Seq<char>,
    right: Seq<char>,
    r: Result<(), String>,
) -> bool {
    &&& same_frame(before, after)
    &&& if left == "CHARS"@ {
        &&& r is Ok
        &&& symbols_view(after.symb_types@) == declare_symbols(
            symbols_view(before.symb_types@),
            right,
            0,
        )
        &&& identities_view(after.token_types@) == identities_view(before.token_types@)
        &&& identities_view(after.group_types@) == identities_view(before.group_types@)
    } else if left == "TPRIMS"@ {
        &&& r is Ok
        &&& symbols_view(after.symb_types@) == symbols_view(before.symb_types@)
        &&& identities_view(after.token_types@) == declare_identities(
            identities_view(before.token_types@),
            right,
            0,
            true,
        )
        &&& identities_view(after.group_types@) == identities_view(before.group_types@)
    } else if left == "GROUPS"@ {
        &&& r is Ok
        &&& symbols_view(after.symb_types@) == symbols_view(before.symb_types@)
        &&& identities_view(after.token_types@) == identities_view(before.token_types@)
        &&& identities_view(after.group_types@) == declare_identities(
            identities_view(before.group_types@),
            right,
            0,
            false,
        )
    } else {
        &&& r matches Err(m) && m@ == "You can't define '"@ + left + "'"@
        &&& same_tables(before, after)
    }
}

/// What a line of the section `CHAR_RULES` does: it defines a declared
/// character class as what stands between the first and the last character
/// of `right`.
pub open spec fn symb_rules_post(
    before: Interpreteur,
    after: Interpreteur,
    left: Seq<char>,
    right: Seq<char>,
    r: Result<(), String>,
) -> bool {
    &&& same_frame(before, after)
    &&& identities_view(after.token_types@) == identities_view(before.token_types@)
    &&& identities_view(after.group_types@) == identities_view(before.group_types@)
    &&& if !symbol_names(before.symb_types@).contains(left) {
        &&& r matches Err(m) && m@ == left + " is an undefined symbol type."@
        &&& symbols_view(after.symb_types@) == symbols_view(before.symb_types@)
    } else if right.len() < 2 {
        &&& r matches Err(m) && m@ == "Malformed definition of '"@ + left + "'."@
        &&& symbols_view(after.symb_types@) == symbols_view(before.symb_types@)
    } else {
        &&& r is Ok
        &&& symbols_view(after.symb_types@) == put_symbol(
            symbols_view(before.symb_types@),
            left,
            right.subrange(1, right.len() - 1),
        )
    }
}

/// The literals of the list `right`: quoted texts between `[` and `]`,
/// separated by commas.
pub open spec fn literal_list(right: Seq<char>) -> Option<Seq<Seq<char>>> {
    if right.len() < 2 || right[0] != '[' || right.last() != ']' {
        None
    } else {
        match parse_args(right.subrange(1, right.len() - 1), 0, false, Seq::empty()) {
            Some(args) => if args.0 {
                None
            } else {
                Some(args.1)
            },
            None => None,
        }
    }
}

/// What a rule does to the table `before` of its kind, found at `k`: `=`
/// compiles the expression and sets the forest; `in`, where literals are
/// taken, sets them.
pub open spec fn rule_post(
    declared: Seq<Seq<char>>,
    before: Seq<IdentityView>,
    after: Seq<IdentityView>,
    left: Seq<char>,
    op: Seq<char>,
    right: Seq<char>,
    literals: bool,
    r: Result<(), String>,
) -> bool {
    let k = first_index(names_of_identities(before), left, 0);
    if !(0 <= k < before.len()) {
        &&& r is Err
        &&& after == before
    } else if op == "="@ || !literals {
        match compile_spec(declared, left, trimmed(right), Seq::empty()) {
            Ok(f) => r is Ok && after == before.update(
                k,
                IdentityView { forest: f, ..before[k] },
            ),
            Err(e) => (r matches Err(m) && m@ == message_of(e)) && after == before,
        }
    } else if op == "in"@ {
        match literal_list(right) {
            Some(lits) => if before[k].constraints is Some {
                r is Ok && after == before.update(
                    k,
                    IdentityView { constraints: Some(lits), ..before[k] },
                )
            } else {
                (r matches Err(m) && m@
                    == "You tried to assign constraints to a group, it's not supported by the language yet."@)
                    && after == before
            },
            None => (r matches Err(m) && m@ == "Malformed list of literals: '"@ + right + "'."@)
                && after == before,
        }
    } else {
        &&& r matches Err(m) && m@ == "This operator isn't authorized here: "@ + op
        &&& after == before
    }
}

/// What a line of the section `TPRIM_RULES` does.
pub open spec fn tprim_rules_post(
    before: Interpreteur,
    after: Interpreteur,
    left: Seq<char>,
    op: Seq<char>,
    right: Seq<char>,
    r: Result<(), String>,
) -> bool {
    &&& same_frame(before, after)
    &&& symbols_view(after.symb_types@) == symbols_view(before.symb_types@)
    &&& identities_view(after.group_types@) == identities_view(before.group_types@)
    &&& rule_post(
        before.declared(),
        identities_view(before.token_types@),
        identities_view(after.token_types@),
        left,
        op,
        right,
        true,
        r,
    )
    &&& !identity_names(before.token_types@).contains(left) ==> (r matches Err(m) && m@
        == "The primitve token "@ + left + " doesn't exists."@)
}

/// What a line of the section `GROUP_RULES` does.
pub open spec fn group_rules_post(
    before: Interpreteur,
    after: Interpreteur,
    left: Seq<char>,
    op: Seq<char>,
    right: Seq<char>,
    r: Result<(), String>,
) -> bool {
    &&& same_frame(before, after)
    &&& symbols_view(after.symb_types@) == symbols_view(before.symb_types@)
    &&& identities_view(after.token_types@) == identities_view(before.token_types@)
    &&& rule_post(
        before.declared(),
        identities_view(before.group_types@),
        identities_view(after.group_types@),
        left,
        op,
        right,
        false,
        r,
    )
    &&& !identity_names(before.group_types@).contains(left) ==> (r matches Err(m) && m@
        == "The group token "@ + left + " doesn't exists."@)
}

/// Declares every name of the list `right` as a character class.
pub fn declare_symbol_list<'a>(t: &mut Vec<(&'a str, &'a str)>, right: &'a str)
    ensures
        symbols_view(final(t)@) == declare_symbols(symbols_view(old(t)@), right@, 0),
        distinct_names(symbol_names(old(t)@)) ==> distinct_names(symbol_names(final(t)@)),
{
    let n = right.unicode_len();
    let ghost s = right@;
    let ghost goal = declare_symbols(symbols_view(t@), s, 0);
    let mut j: usize = 0;
    loop
        invariant_except_break
            j <= n,
            goal == declare_symbols(symbols_view(t@), s, j as int),
        invariant
            n == s.len(),
            s == right@,
            distinct_names(symbol_names(old(t)@)) ==> distinct_names(symbol_names(t@)),
        ensures
            symbols_view(t@) == goal,
        decreases n - j,
    {
        let mut c: usize = j;
        proof {
            lemma_comma_index_bounds(s, j as int);
        }
        while c < n && right.get_char(c) != ','
            invariant
                n == s.len(),
                s == right@,
                j <= c <= n,
                comma_index(s, c as int) == comma_index(s, j as int),
            decreases n - c,
        {
            c += 1;
        }
        let name = trim(right.substring_char(j, c));
        insert_symbol(t, name, right.substring_char(0, 0));
        assert(right@.subrange(0, 0) =~= Seq::<char>::empty());
        if c >= n {
            break;
        }
        j = c + 1;
    }
}

/// Declares every name of the list `right` anew, as a primitive token or
/// as a group.
pub fn declare_identity_list<'a>(t: &mut Vec<Identity<'a>>, right: &'a str, token: bool)
    ensures
        identities_view(final(t)@) == declare_identities(
            identities_view(old(t)@),
            right@,
            0,
            token,
        ),
        distinct_names(identity_names(old(t)@)) ==> distinct_names(identity_names(final(t)@)),
{
    let n = right.unicode_len();
    let ghost s = right@;
    let ghost goal = declare_identities(identities_view(t@), s, 0, token);
    let mut j: usize = 0;
    loop
        invariant_except_break
            j <= n,
            goal == declare_identities(identities_view(t@), s, j as int, token),
        invariant
            n == s.len(),
            s == right@,
            distinct_names(identity_names(old(t)@)) ==> distinct_names(identity_names(t@)),
        ensures
            identities_view(t@) == goal,
        decreases n - j,
    {
        let mut c: usize = j;
        proof {
            lemma_comma_index_bounds(s, j as int);
        }
        while c < n && right.get_char(c) != ','
            invariant
                n == s.len(),
                s == right@,
                j <= c <= n,
                comma_index(s, c as int) == comma_index(s, j as int),
            decreases n - c,
        {
            c += 1;
        }
        let name = trim(right.substring_char(j, c));
        let id = if token {
            Identity::token(name)
        } else {
            Identity::group(name)
        };
        proof {
            assert(forest_view(id.forest@) =~= Seq::<Tree>::empty());
            if token {
                assert(texts(id.constraints.unwrap()@) =~= Seq::<Seq<char>>::empty());
            }
            assert(id@ == fresh_identity(name@, token));
        }
        insert_identity(t, id);
        if c >= n {
            break;
        }
        j = c + 1;
    }
}

/// Sets the forest of the identity at `k`.
pub fn set_forest_at<'a>(t: &mut Vec<Identity<'a>>, k: usize, forest: Vec<Node<'a>>)
    requires
        k < old(t)@.len(),
    ensures
        identities_view(final(t)@) == identities_view(old(t)@).update(
            k as int,
            IdentityView { forest: forest_view(forest@), ..identities_view(old(t)@)[k as int] },
        ),
        identity_names(final(t)@) == identity_names(old(t)@),
{
    let ghost before = identities_view(t@);
    let ghost names = identity_names(t@);
    let mut id = t.remove(k);
    let _ = id.set_forest(forest);
    t.insert(k, id);
    assert(identity_names(t@) =~= names);
    assert(identities_view(t@) =~= before.update(
        k as int,
        IdentityView { forest: forest_view(forest@), ..before[k as int] },
    ));
}

/// Sets the literals of the identity at `k`, where it takes any.
pub fn set_constraints_at<'a>(t: &mut Vec<Identity<'a>>, k: usize, literals: Vec<&'a str>) -> (r:
    Result<(), String>)
    requires
        k < old(t)@.len(),
    ensures
        identities_view(old(t)@)[k as int].constraints is Some ==> r is Ok && identities_view(
            final(t)@,
        ) == identities_view(old(t)@).update(
            k as int,
            IdentityView {
                constraints: Some(texts(literals@)),
                ..identities_view(old(t)@)[k as int]
            },
        ),
        identities_view(old(t)@)[k as int].constraints is None ==> (r matches Err(m) && m@
            == "You tried to assign constraints to a group, it's not supported by the language yet."@)
            && identities_view(final(t)@) == identities_view(old(t)@),
        identity_names(final(t)@) == identity_names(old(t)@),
{
    let ghost before = identities_view(t@);
    let ghost names = identity_names(t@);
    let mut id = t.remove(k);
    assert(id@ == before[k as int]);
    let r = id.set_constraints(literals);
    t.insert(k, id);
    assert(identity_names(t@) =~= names);
    proof {
        if before[k as int].constraints is Some {
            assert(identities_view(t@) =~= before.update(
                k as int,
                IdentityView { constraints: Some(texts(literals@)), ..before[k as int] },
            ));
        } else {
            assert(identities_view(t@) =~= before);
        }
    }
    r
}

/// Reads a list of quoted literals between `[` and `]`.
pub fn read_literal_list<'a>(right: &'a str) -> (r: Option<Vec<&'a str>>)
    ensures
        match literal_list(right@) {
            Some(lits) => r matches Some(v) && texts(v@) == lits,
            None => r is None,
        },
{
    let n = right.unicode_len();
    if n < 2 || right.get_char(0) != '[' || right.get_char(n - 1) != ']' {
        return None;
    }
    match read_args(right.substring_char(1, n - 1)) {
        Some(p) => if p.0 {
            None
        } else {
            Some(p.1)
        },
        None => None,
    }
}

impl<'a> Interpreteur<'a> {
    /// The table of sections is the one that the lines are read by, and no
    /// name is declared twice in a table.
    pub open spec fn wf(&self) -> bool {
        &&& sections_ok(self.sections@)
        &&& distinct_names(symbol_names(self.symb_types@))
        &&& distinct_names(identity_names(self.token_types@))
        &&& distinct_names(identity_names(self.group_types@))
    }

    /// A consumer for the tokens of `text`, with nothing declared yet and
    /// no section entered.
    pub fn new(text: &'a str) -> (r: Interpreteur<'a>)
        ensures
            r.wf(),
            r.text == text,
            r.symb_types@.len() == 0,
            r.token_types@.len() == 0,
            r.group_types@.len() == 0,
            r.current_section@.len() == 0,
    {
        let none = text.substring_char(0, 0);
        Interpreteur {
            text,
            symb_types: Vec::new(),
            token_types: Vec::new(),
            group_types: Vec::new(),
            current_section: none,
            sections: Interpreteur::build_section_map(),
        }
    }

    /// Splits a line at its operator: `=`, or the word `in` behind a space.
    pub fn split_line(line: &'a str) -> (r: Option<(&'a str, &'a str, &'a str)>)
        ensures
            match split_spec(line@) {
                None => r is None,
                Some(parts) => r matches Some(p) && p.0@ == parts.0 && p.1@ == parts.1 && p.2@
                    == parts.2,
            },
    {
        let n = line.unicode_len();
        let mut space = false;
        let mut prev: char = 'a';
        let mut i: usize = 0;
        while i < n
            invariant
                n == line@.len(),
                i <= n,
                prev == 'i' ==> i >= 1,
                op_index(line@, i as int, space, prev) == op_index(line@, 0, false, 'a'),
            decreases n - i,
        {
            let c = line.get_char(i);
            if c == '=' {
                return Some(
                    (
                        line.substring_char(0, i),
                        line.substring_char(i, i + 1),
                        line.substring_char(i + 1, n),
                    ),
                );
            }
            if c == 'n' && space && prev == 'i' {
                return Some(
                    (
                        line.substring_char(0, i - 1),
                        line.substring_char(i - 1, i + 1),
                        line.substring_char(i + 1, n),
                    ),
                );
            }
            if c == ' ' {
                space = true;
            }
            prev = c;
            i += 1;
        }
        None
    }

    /// Reads a line of the section `DECLARE`.
    pub fn define_token(
        &mut self,
        left: &'a str,
        _op: &'a str,
        right: &'a str,
        _token_type: TokenType,
    ) -> (r: Result<(), String>)
        requires
            old(self).wf(),
        ensures
            final(self).wf(),
            define_post(*old(self), *final(self), left@, right@, r),
    {
        if str_eq(left, "CHARS") {
            declare_symbol_list(&mut self.symb_types, right);
            Ok(())
        } else if str_eq(left, "TPRIMS") {
            declare_identity_list(&mut self.token_types, right, true);
            Ok(())
        } else if str_eq(left, "GROUPS") {
            declare_identity_list(&mut self.group_types, right, false);
            Ok(())
        } else {
            Err(concat3("You can't define '", left, "'"))
        }
    }

    /// Reads a line of the section `TPRIM_RULES`: the rule or the literals
    /// of a declared primitive token.
    pub fn tprim_rules_token(
        &mut self,
        left: &'a str,
        op: &'a str,
        right: &'a str,
        _token_type: TokenType,
    ) -> (r: Result<(), String>)
        requires
            old(self).wf(),
        ensures
            final(self).wf(),
            tprim_rules_post(*old(self), *final(self), left@, op@, right@, r),
    {
        proof {
            assert(names_of_identities(identities_view(self.token_types@)) =~= identity_names(
                self.token_types@,
            ));
        }
        let k = match has_identity(&self.token_types, left) {
            Some(k) => k,
            None => {
                return Err(concat3("The primitve token ", left, " doesn't exists."));
            },
        };
        if str_eq(op, "=") {
            match self.ptoken_building_tree(left, right) {
                Ok(forest) => {
                    set_forest_at(&mut self.token_types, k, forest);
                    Ok(())
                },
                Err(m) => Err(m),
            }
        } else if str_eq(op, "in") {
            match read_literal_list(right) {
                Some(literals) => set_constraints_at(&mut self.token_types, k, literals),
                None => Err(concat3("Malformed list of literals: '", right, "'.")),
            }
        } else {
            Err(concat2("This operator isn't authorized here: ", op))
        }
    }

    /// Reads a line of the section `GROUP_RULES`: the rule of a declared group.
    pub fn group_rules_token(
        &mut self,
        left: &'a str,
        op: &'a str,
        right: &'a str,
        _token_type: TokenType,
    ) -> (r: Result<(), String>)
        requires
            old(self).wf(),
        ensures
            final(self).wf(),
            group_rules_post(*old(self), *final(self), left@, op@, right@, r),
    {
        proof {
            assert(names_of_identities(identities_view(self.group_types@)) =~= identity_names(
                self.group_types@,
            ));
        }
        let k = match has_identity(&self.group_types, left) {
            Some(k) => k,
            None => {
                return Err(concat3("The group token ", left, " doesn't exists."));
            },
        };
        match self.ptoken_building_tree(left, right) {
            Ok(forest) => {
                set_forest_at(&mut self.group_types, k, forest);
                Ok(())
            },
            Err(m) => Err(m),
        }
    }

    /// Reads a line of the section `CHAR_RULES`: the definition of a
    /// declared character class.
    pub fn symb_rules_token(
        &mut self,
        left: &'a str,
        _op: &'a str,
        right: &'a str,
        _token_type: TokenType,
    ) -> (r: Result<(), String>)
        requires
            old(self).wf(),
        ensures
            final(self).wf(),
            symb_rules_post(*old(self), *final(self), left@, right@, r),
    {
        if has_symbol(&self.symb_types, left).is_none() {
            return Err(concat2(left, " is an undefined symbol type."));
        }
        let n = right.unicode_len();
        if n < 2 {
            return Err(concat3("Malformed definition of '", left, "'."));
        }
        insert_symbol(&mut self.symb_types, left, right.substring_char(1, n - 1));
        Ok(())
    }
}

/// The text that the span of `token` covers in `text`: what stands between
/// the two bytes of the span, where both start a character or end the text
/// and are in order. `None` for any other token.
pub open spec fn line_of(text: Seq<char>, token: Token) -> Option<Seq<char>> {
    match token.content {
        Content::Span(from, to) => match char_at_byte(text, from as int) {
            Some(a) => match char_at_byte(text, to as int) {
                Some(b) => if a <= b {
                    Some(text.subrange(a, b))
                } else {
                    None
                },
                None => None,
            },
            None => None,
        },
        Content::Text(_) => None,
    }
}

/// What a token does to the consumer.
///
/// Only line tokens are read; the others leave the consumer as it is. The
/// line is the text that the token's span covers, trimmed. A line that starts with
/// `#` enters the section named behind it. Any other line is split at its
/// operator and read by the rules of the section entered.
pub open spec fn new_token_post(
    before: Interpreteur,
    after: Interpreteur,
    token: Token,
    r: Result<(), String>,
) -> bool {
    if token.token_type != TokenType::Line {
        r is Ok && same_frame(before, after) && same_tables(before, after)
    } else if line_of(before.text@, token) is None {
        &&& r matches Err(m) && m@ == "The span of the line lies outside the text."@
        &&& same_frame(before, after) && same_tables(before, after)
    } else {
        let line = trimmed(line_of(before.text@, token).unwrap());
        if line.len() > 0 && line[0] == '#' {
            &&& r is Ok
            &&& after.text == before.text
            &&& after.sections == before.sections
            &&& after.current_section@ == line.subrange(1, line.len() as int)
            &&& same_tables(before, after)
        } else {
            match section_of(before.current_section@) {
                None => {
                    &&& r matches Err(m) && m@ == "The section "@ + before.current_section@
                        + " doesn't exist"@
                    &&& same_frame(before, after) && same_tables(before, after)
                },
                Some(kind) => match split_spec(line) {
                    None => {
                        &&& r matches Err(m) && m@ == "Failed to tokenize a line"@
                        &&& same_frame(before, after) && same_tables(before, after)
                    },
                    Some(parts) => {
                        let left = trimmed(parts.0);
                        let op = trimmed(parts.1);
                        let right = trimmed(parts.2);
                        match kind {
                            SectionKind::Declare => define_post(before, after, left, right, r),
                            SectionKind::CharRules => symb_rules_post(
                                before,
                                after,
                                left,
                                right,
                                r,
                            ),
                            SectionKind::TPrimRules => tprim_rules_post(
                                before,
                                after,
                                left,
                                op,
                                right,
                                r,
                            ),
                            SectionKind::GroupRules => group_rules_post(
                                before,
                                after,
                                left,
                                op,
                                right,
                                r,
                            ),
                        }
                    },
                },
            }
        }
    }
}

impl<'a> Interpreteur<'a> {
    /// The section entered, if its name is one of the four.
    pub fn section(&self) -> (r: Option<SectionKind>)
        requires
            self.wf(),
        ensures
            r == section_of(self.current_section@),
    {
        if str_eq(self.sections[0].0, self.current_section) {
            Some(self.sections[0].1)
        } else if str_eq(self.sections[1].0, self.current_section) {
            Some(self.sections[1].1)
        } else if str_eq(self.sections[2].0, self.current_section) {
            Some(self.sections[2].1)
        } else if str_eq(self.sections[3].0, self.current_section) {
            Some(self.sections[3].1)
        } else {
            None
        }
    }

    /// Consumes one token of the stream.
    pub fn new_token(&mut self, token: Token) -> (r: Result<(), String>)
        requires
            old(self).wf(),
        ensures
            final(self).wf(),
            new_token_post(*old(self), *final(self), token, r),
    {
        if token.token_type != TokenType::Line {
            return Ok(());
        }
        let ends = match token.content {
            Content::Span(from, to) => match char_position(self.text, from) {
                Some(a) => match char_position(self.text, to) {
                    Some(b) => if a <= b {
                        Some((a, b))
                    } else {
                        None
                    },
                    None => None,
                },
                None => None,
            },
            Content::Text(_) => None,
        };
        let (i, j) = match ends {
            Some(ends) => ends,
            None => {
                return Err(String::from_str("The span of the line lies outside the text."));
            },
        };
        let line = trim(self.text.substring_char(i, j));
        let len = line.unicode_len();
        if len > 0 && line.get_char(0) == '#' {
            self.current_section = line.substring_char(1, len);
            return Ok(());
        }
        let kind = match self.section() {
            Some(kind) => kind,
            None => {
                return Err(concat3("The section ", self.current_section, " doesn't exist"));
            },
        };
        let (left, op, right) = match Interpreteur::split_line(line) {
            Some(parts) => parts,
            None => {
                return Err(String::from_str("Failed to tokenize a line"));
            },
        };
        match kind {
            SectionKind::Declare => self.define_token(
                trim(left),
                trim(op),
                trim(right),
                token.token_type,
            ),
            SectionKind::CharRules => self.symb_rules_token(
                trim(left),
                trim(op),
                trim(right),
                token.token_type,
            ),
            SectionKind::TPrimRules => self.tprim_rules_token(
                trim(left),
                trim(op),
                trim(right),
                token.token_type,
            ),
            SectionKind::GroupRules => self.group_rules_token(
                trim(left),
                trim(op),
                trim(right),
                token.token_type,
            ),
        }
    }
}

/// The message is a token for the consumer: neither an error token nor the
/// end marker.
pub open spec fn plain_token(m: TokenizerMessage) -> bool {
    m matches TokenizerMessage::Token(t) && t.token_type != TokenType::ERROR
}

/// The message is an error token.
pub open spec fn error_token(m: TokenizerMessage) -> bool {
    m matches TokenizerMessage::Token(t) && t.token_type == TokenType::ERROR
}

/// The diagnostic of an error token: the text that it carries, or the
/// fixed one where it carries none.
pub open spec fn diagnostic_of(m: TokenizerMessage) -> Seq<char> {
    match m {
        TokenizerMessage::Token(t) => match t.content {
            Content::Text(d) => d@,
            Content::Span(_, _) => PARSING_ERROR@,
        },
        TokenizerMessage::End => PARSING_ERROR@,
    }
}

/// The token that the message carries.
pub open spec fn token_of(m: TokenizerMessage) -> Token {
    match m {
        TokenizerMessage::Token(t) => t,
        TokenizerMessage::End => Token {
            token_type: TokenType::ERROR,
            content: Content::Span(0, 0),
            flag: crate::token::Flag::NoFlag,
        },
    }
}

/// The consumer went from `before` to `after` by taking the first `n`
/// messages, each a token that it accepted.
pub open spec fn consumed(
    before: Interpreteur,
    after: Interpreteur,
    messages: Seq<TokenizerMessage>,
    n: int,
) -> bool
    decreases n,
{
    if n <= 0 {
        after == before
    } else {
        &&& n <= messages.len()
        &&& plain_token(messages[n - 1])
        &&& exists|mid: Interpreteur|
            consumed(before, mid, messages, n - 1) && mid.wf() && #[trigger] new_token_post(
                mid,
                after,
                token_of(messages[n - 1]),
                Ok(()),
            )
    }
}

/// How a run over `messages` ends after `n` accepted tokens: well at the end
/// marker or where the messages end; with its diagnostic at an error token;
/// or with the consumer's own error at a token that it refuses.
pub open spec fn run_post(
    before: Interpreteur,
    after: Interpreteur,
    messages: Seq<TokenizerMessage>,
    n: int,
    r: Result<(), String>,
) -> bool {
    &&& 0 <= n <= messages.len()
    &&& if n == messages.len() || messages[n] == TokenizerMessage::End {
        r is Ok && consumed(before, after, messages, n)
    } else if error_token(messages[n]) {
        (r matches Err(m) && m@ == diagnostic_of(messages[n])) && consumed(
            before,
            after,
            messages,
            n,
        )
    } else {
        r is Err && exists|mid: Interpreteur|
            consumed(before, mid, messages, n) && mid.wf() && #[trigger] new_token_post(
                mid,
                after,
                token_of(messages[n]),
                r,
            )
    }
}

/// Feeds the messages of a run to the consumer, up to the end marker. An
/// error token ends the run with its diagnostic, and so does the first
/// token that the consumer refuses, with the consumer's message.
pub fn execute<'a>(interp: &mut Interpreteur<'a>, messages: &Vec<TokenizerMessage>) -> (r: Result<
    (),
    String,
>)
    requires
        old(interp).wf(),
    ensures
        final(interp).wf(),
        exists|n: int| run_post(*old(interp), *final(interp), messages@, n, r),
{
    let mut k: usize = 0;
    while k < messages.len()
        invariant
            k <= messages@.len(),
            interp.wf(),
            consumed(*old(interp), *interp, messages@, k as int),
        decreases messages@.len() - k,
    {
        let ghost mid = *interp;
        match messages[k] {
            TokenizerMessage::Token(token) => {
                if token.token_type == TokenType::ERROR {
                    let r = Err(
                        String::from_str(
                            match token.content {
                                Content::Text(diagnostic) => diagnostic,
                                Content::Span(_, _) => PARSING_ERROR,
                            },
                        ),
                    );
                    assert(error_token(messages@[k as int]));
                    assert(run_post(*old(interp), *interp, messages@, k as int, r));
                    return r;
                }
                match interp.new_token(token) {
                    Ok(_) => {
                        assert(new_token_post(mid, *interp, token_of(messages@[k as int]), Ok(())));
                        assert(consumed(*old(interp), *interp, messages@, k + 1));
                    },
                    Err(e) => {
                        let r = Err(e);
                        assert(new_token_post(mid, *interp, token_of(messages@[k as int]), r));
                        assert(run_post(*old(interp), *interp, messages@, k as int, r));
                        return r;
                    },
                }
            },
            TokenizerMessage::End => {
                assert(run_post(*old(interp), *interp, messages@, k as int, Ok(())));
                return Ok(());
            },
        }
        k += 1;
    }
    assert(run_post(*old(interp), *interp, messages@, k as int, Ok(())));
    Ok(())
}

} // verus!
