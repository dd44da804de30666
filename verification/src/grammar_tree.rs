//! The grammar of the rule language itself, as a table from group kind to
//! the root node of its subtree.

use vstd::prelude::*;
use crate::token::{Flag, TokenType, is_primitive, primitive, sections, macros, sections_spec, macros_spec};
use crate::grammar::{Node, Shape, Reaction, shapes, leaf_shape, node_shape, default_constraint};

verus! {

/// A table of group subtrees, each found by the kind of its root.
#[derive(Debug)]
pub struct GroupMap {
    pub entries: Vec<Node>,
}

/// Index of the first node of kind `kind` at or after `i`, or the length.
pub open spec fn find_kind(entries: Seq<Node>, kind: TokenType, i: int) -> int
    decreases entries.len() - i,
{
    if 0 <= i < entries.len() {
        if entries[i].type_token == kind {
            i
        } else {
            find_kind(entries, kind, i + 1)
        }
    } else {
        entries.len() as int
    }
}

pub proof fn lemma_find_kind(entries: Seq<Node>, kind: TokenType, i: int)
    requires
        0 <= i <= entries.len(),
    ensures
        i <= find_kind(entries, kind, i) <= entries.len(),
        find_kind(entries, kind, i) < entries.len() ==> entries[find_kind(
            entries,
            kind,
            i,
        )].type_token == kind,
        forall|k: int| i <= k < find_kind(entries, kind, i) ==> entries[k].type_token != kind,
    decreases entries.len() - i,
{
    if i < entries.len() && entries[i].type_token != kind {
        lemma_find_kind(entries, kind, i + 1);
    }
}

/// The kinds of the roots, in the order of the table.
pub open spec fn kinds_of(entries: Seq<Node>) -> Seq<TokenType> {
    Seq::new(entries.len(), |i: int| entries[i].type_token)
}

impl GroupMap {
    /// The subtree recorded for `kind`, if there is one.
    pub open spec fn lookup(&self, kind: TokenType) -> Option<Node> {
        let i = find_kind(self.entries@, kind, 0);
        if i < self.entries@.len() {
            Some(self.entries@[i])
        } else {
            None
        }
    }

    /// Every root is a well-formed node of a group kind, and no kind has
    /// two subtrees.
    pub open spec fn wf(&self) -> bool {
        &&& forall|i: int|
            0 <= i < self.entries@.len() ==> (#[trigger] self.entries@[i]).wf() && !is_primitive(
                self.entries@[i].type_token,
            )
        &&& forall|i: int, j: int|
            0 <= i < j < self.entries@.len() ==> (#[trigger] self.entries@[i]).type_token != (
            #[trigger] self.entries@[j]).type_token
    }

    pub fn new() -> (r: GroupMap)
        ensures
            r.entries@.len() == 0,
            r.wf(),
    {
        GroupMap { entries: Vec::new() }
    }

    /// Position of the subtree of `kind` in the table.
    pub fn position(&self, kind: TokenType) -> (r: Option<usize>)
        ensures
            match r {
                Some(i) => i == find_kind(self.entries@, kind, 0) && i < self.entries@.len(),
                None => find_kind(self.entries@, kind, 0) == self.entries@.len(),
            },
    {
        let mut i: usize = 0;
        while i < self.entries.len()
            invariant
                i <= self.entries.len(),
                find_kind(self.entries@, kind, 0) == find_kind(self.entries@, kind, i as int),
            decreases self.entries.len() - i,
        {
            if self.entries[i].type_token == kind {
                return Some(i);
            }
            i += 1;
        }
        None
    }

    pub fn get(&self, kind: TokenType) -> (r: Option<&Node>)
        ensures
            match r {
                Some(node) => self.lookup(kind) == Some(*node),
                None => self.lookup(kind) is None,
            },
    {
        match self.position(kind) {
            Some(i) => Some(&self.entries[i]),
            None => None,
        }
    }

    /// Records `node` as the subtree of its own kind, in place of an earlier
    /// one of that kind.
    pub fn insert(&mut self, node: Node)
        requires
            old(self).wf(),
            node.wf(),
            !is_primitive(node.type_token),
        ensures
            final(self).wf(),
            final(self).lookup(node.type_token) == Some(node),
            forall|k: TokenType|
                k != node.type_token ==> final(self).lookup(k) == old(self).lookup(k),
            final(self).entries@ == (if find_kind(old(self).entries@, node.type_token, 0) < old(
                self,
            ).entries@.len() {
                old(self).entries@.update(find_kind(old(self).entries@, node.type_token, 0), node)
            } else {
                old(self).entries@.push(node)
            }),
    {
        let ghost before = self.entries@;
        let ghost kind = node.type_token;
        let pos = self.position(node.type_token);
        match pos {
            Some(i) => {
                self.entries.set(i, node);
            },
            None => {
                self.entries.push(node);
            },
        }
        proof {
            let after = self.entries@;
            lemma_find_kind(before, kind, 0);
            lemma_find_kind(after, kind, 0);
            let at = find_kind(before, kind, 0);
            assert(after[at] == node);
            assert(forall|j: int| 0 <= j < before.len() && j != at ==> after[j] == before[j]);
            assert(find_kind(after, kind, 0) == at);
            assert forall|k: TokenType| k != kind implies self.lookup(k) == old(self).lookup(
                k,
            ) by {
                assert(forall|j: int|
                    0 <= j < before.len() ==> (before[j].type_token == k <==> after[j].type_token
                        == k));
                lemma_same_lookup(before, after, k, 0);
                lemma_find_kind(before, k, 0);
                lemma_find_kind(after, k, 0);
            }
        }
    }
}

/// Two tables that agree on which places hold kind `k`, and on what stands
/// there, find the same subtree for `k`.
pub proof fn lemma_same_lookup(a: Seq<Node>, b: Seq<Node>, k: TokenType, i: int)
    requires
        0 <= i <= a.len(),
        a.len() <= b.len(),
        forall|j: int| 0 <= j < a.len() ==> (a[j].type_token == k <==> b[j].type_token == k),
        forall|j: int| 0 <= j < a.len() && a[j].type_token == k ==> a[j] == b[j],
        forall|j: int| a.len() <= j < b.len() ==> b[j].type_token != k,
    ensures
        find_kind(a, k, i) < a.len() ==> find_kind(b, k, i) == find_kind(a, k, i),
        find_kind(a, k, i) == a.len() ==> find_kind(b, k, i) == b.len(),
    decreases b.len() - i,
{
    if i < a.len() {
        if a[i].type_token != k {
            lemma_same_lookup(a, b, k, i + 1);
        }
    } else {
        lemma_find_kind(b, k, i);
    }
}

/// The shape `s` with the reaction that emits a token.
pub open spec fn with_push(s: Shape) -> Shape {
    Shape { react: Some(Reaction::Push), ..s }
}

/// A reference to the subtree of `kind`: a leaf of that kind.
pub open spec fn group_ref(kind: TokenType) -> Shape {
    leaf_shape(kind, default_constraint(kind))
}

/// A symbol that must read `lit` and be followed by one of `groups`.
pub open spec fn symbol_then_shape(lit: &'static str, groups: Seq<Shape>) -> Shape {
    node_shape(TokenType::Symbol, groups, Seq::empty(), false, seq![lit])
}

/// An operator followed by a further expression.
pub open spec fn operator_shape() -> Shape {
    node_shape(
        TokenType::Operator,
        seq![group_ref(TokenType::Expression)],
        Seq::empty(),
        false,
        default_constraint(TokenType::Operator),
    )
}

/// A list of `item`s separated by commas: one item, then `,` and the list
/// again. With `emit`, a primitive item and the comma emit their tokens.
pub open spec fn serie_shape(kind: TokenType, item: TokenType, emit: bool) -> Shape {
    let comma = symbol_then_shape(",", seq![group_ref(kind)]);
    if is_primitive(item) {
        let comma = if emit {
            with_push(comma)
        } else {
            comma
        };
        let first = node_shape(item, Seq::empty(), seq![comma], true, default_constraint(item));
        let first = if emit {
            with_push(first)
        } else {
            first
        };
        node_shape(kind, Seq::empty(), seq![first], false, default_constraint(kind))
    } else {
        let first = node_shape(item, Seq::empty(), seq![comma], true, default_constraint(item));
        node_shape(kind, seq![first], Seq::empty(), false, default_constraint(kind))
    }
}

/// A line: a section header, a rule for a name, or a declaration, whose
/// keyword, `=` and names are emitted.
pub open spec fn line_shape() -> Shape {
    let rule = node_shape(
        TokenType::Ident,
        seq![group_ref(TokenType::InKeyword)],
        seq![
            symbol_then_shape(
                "=",
                seq![
                    group_ref(TokenType::Macro),
                    group_ref(TokenType::Expression),
                    group_ref(TokenType::String),
                ],
            ),
        ],
        false,
        Seq::empty(),
    );
    let declaration = with_push(
        node_shape(
            TokenType::Keyword,
            Seq::empty(),
            seq![with_push(symbol_then_shape("=", seq![group_ref(TokenType::SerieIdent)]))],
            false,
            seq!["CHARS", "TPRIMS", "GROUPS"],
        ),
    );
    node_shape(
        TokenType::Line,
        seq![group_ref(TokenType::Section)],
        seq![rule, declaration],
        false,
        Seq::empty(),
    )
}

/// `in` followed by a bracketed list of strings.
pub open spec fn in_keyword_shape() -> Shape {
    let closing = leaf_shape(TokenType::Symbol, seq!["]"]);
    let strings = node_shape(
        TokenType::SerieString,
        Seq::empty(),
        seq![closing],
        false,
        Seq::empty(),
    );
    let opening = symbol_then_shape("[", seq![strings]);
    let keyword = node_shape(TokenType::Keyword, Seq::empty(), seq![opening], false, seq!["in"]);
    node_shape(TokenType::InKeyword, Seq::empty(), seq![keyword], false, Seq::empty())
}

/// `#` followed by a section name, which is emitted with the section flag.
pub open spec fn section_shape() -> Shape {
    let name = Shape {
        flag: Flag::Section,
        react: Some(Reaction::Push),
        ..leaf_shape(TokenType::Ident, sections_spec())
    };
    let sharp = node_shape(TokenType::Symbol, Seq::empty(), seq![name], false, seq!["#"]);
    node_shape(TokenType::Section, Seq::empty(), seq![sharp], false, Seq::empty())
}

/// `@` followed by a macro name.
pub open spec fn macro_shape() -> Shape {
    let name = leaf_shape(TokenType::Ident, macros_spec());
    let at = node_shape(TokenType::Symbol, Seq::empty(), seq![name], false, seq!["@"]);
    node_shape(TokenType::Macro, Seq::empty(), seq![at], false, Seq::empty())
}

/// A value or a parenthesised expression, each optionally followed by an
/// operator and a further expression.
pub open spec fn expression_shape() -> Shape {
    let value = node_shape(
        TokenType::Value,
        Seq::empty(),
        seq![operator_shape()],
        true,
        Seq::empty(),
    );
    let closing = node_shape(
        TokenType::Symbol,
        Seq::empty(),
        seq![operator_shape()],
        true,
        seq![")"],
    );
    let inner = node_shape(
        TokenType::Expression,
        Seq::empty(),
        seq![closing],
        false,
        Seq::empty(),
    );
    let opening = symbol_then_shape("(", seq![inner]);
    node_shape(TokenType::Expression, seq![value], seq![opening], false, Seq::empty())
}

/// A name, optionally followed by arguments between braces.
pub open spec fn value_shape() -> Shape {
    let args = node_shape(
        TokenType::SerieArg,
        Seq::empty(),
        seq![leaf_shape(TokenType::Symbol, seq!["}"])],
        false,
        Seq::empty(),
    );
    let brace = node_shape(
        TokenType::Symbol,
        seq![args],
        seq![leaf_shape(TokenType::Symbol, seq!["}"])],
        false,
        seq!["{"],
    );
    let name = node_shape(TokenType::Ident, Seq::empty(), seq![brace], true, Seq::empty());
    node_shape(TokenType::Value, Seq::empty(), seq![name], false, Seq::empty())
}

/// One argument: a string, or the keyword `END`.
pub open spec fn arg_shape() -> Shape {
    node_shape(
        TokenType::Arg,
        seq![group_ref(TokenType::String)],
        seq![leaf_shape(TokenType::Keyword, seq!["END"])],
        false,
        Seq::empty(),
    )
}

/// A quoted string: the opening quote restarts on a failure just below it
/// and keeps noise significant.
pub open spec fn string_shape() -> Shape {
    let quote = Shape {
        noise: true,
        retry: 0,
        ..node_shape(
            TokenType::Symbol,
            seq![group_ref(TokenType::SerieChar)],
            Seq::empty(),
            true,
            seq!["\""],
        )
    };
    node_shape(TokenType::String, Seq::empty(), seq![quote], false, Seq::empty())
}

/// The characters of a string up to its closing quote.
pub open spec fn serie_char_shape() -> Shape {
    let character = Shape {
        noise: true,
        ..node_shape(
            TokenType::ComplexChar,
            Seq::empty(),
            seq![leaf_shape(TokenType::Symbol, seq!["\""])],
            false,
            Seq::empty(),
        )
    };
    node_shape(TokenType::SerieChar, seq![character], Seq::empty(), false, Seq::empty())
}

/// One character of a string: any symbol but a backslash or a quote, or a
/// backslash followed by any symbol. Each is emitted.
pub open spec fn complex_char_shape() -> Shape {
    let plain = Shape {
        allow: false,
        react: Some(Reaction::Push),
        ..leaf_shape(TokenType::Symbol, seq!["\\", "\"", "\'"])
    };
    let escaped = with_push(
        node_shape(
            TokenType::Symbol,
            Seq::empty(),
            seq![with_push(group_ref(TokenType::Symbol))],
            false,
            seq!["\\"],
        ),
    );
    node_shape(TokenType::ComplexChar, Seq::empty(), seq![plain, escaped], false, Seq::empty())
}

/// The grammar of the rule language: the subtree of each group kind.
pub open spec fn grammar_shapes() -> Seq<Shape> {
    seq![
        line_shape(),
        in_keyword_shape(),
        section_shape(),
        macro_shape(),
        expression_shape(),
        value_shape(),
        arg_shape(),
        serie_shape(TokenType::SerieArg, TokenType::Arg, false),
        serie_shape(TokenType::SerieIdent, TokenType::Ident, true),
        serie_shape(TokenType::SerieString, TokenType::String, false),
        string_shape(),
        serie_char_shape(),
        complex_char_shape(),
    ]
}

/// No node.
fn none() -> (v: Vec<Node>)
    ensures
        v@.len() == 0,
        shapes(v@) == Seq::<Shape>::empty(),
{
    let v: Vec<Node> = Vec::new();
    assert(shapes(v@) =~= Seq::<Shape>::empty());
    v
}

/// One node.
fn one(a: Node) -> (v: Vec<Node>)
    ensures
        v@ == seq![a],
        shapes(v@) == seq![a@],
{
    let v = vec![a];
    assert(v@ =~= seq![a]);
    assert(shapes(v@) =~= seq![a@]);
    v
}

/// Two nodes.
fn two(a: Node, b: Node) -> (v: Vec<Node>)
    ensures
        v@ == seq![a, b],
        shapes(v@) == seq![a@, b@],
{
    let v = vec![a, b];
    assert(v@ =~= seq![a, b]);
    assert(shapes(v@) =~= seq![a@, b@]);
    v
}

/// Three nodes.
fn three(a: Node, b: Node, c: Node) -> (v: Vec<Node>)
    ensures
        v@ == seq![a, b, c],
        shapes(v@) == seq![a@, b@, c@],
{
    let v = vec![a, b, c];
    assert(v@ =~= seq![a, b, c]);
    assert(shapes(v@) =~= seq![a@, b@, c@]);
    v
}

/// One literal.
fn literal(a: &'static str) -> (v: Vec<&'static str>)
    ensures
        v@ == seq![a],
{
    let v = vec![a];
    assert(v@ =~= seq![a]);
    v
}

/// Three literals.
fn literals(a: &'static str, b: &'static str, c: &'static str) -> (v: Vec<&'static str>)
    ensures
        v@ == seq![a, b, c],
{
    let v = vec![a, b, c];
    assert(v@ =~= seq![a, b, c]);
    v
}

/// A reference to the subtree of a group kind.
fn refer(kind: TokenType) -> (r: Node)
    ensures
        r@ == group_ref(kind),
        r.type_token == kind,
{
    let r = Node::leaf(kind);
    assert(shapes(r.groups@) =~= Seq::<Shape>::empty());
    assert(shapes(r.sons@) =~= Seq::<Shape>::empty());
    r
}

/// A leaf that accepts `lits` alone.
fn leaf_of(kind: TokenType, lits: Vec<&'static str>) -> (r: Node)
    ensures
        r@ == leaf_shape(kind, lits@),
        r.type_token == kind,
{
    let r = Node::leaf_c(kind, lits);
    assert(shapes(r.groups@) =~= Seq::<Shape>::empty());
    assert(shapes(r.sons@) =~= Seq::<Shape>::empty());
    r
}

/// A symbol that must read `lit` and be followed by one of `groups`.
fn symbol_then(lit: &'static str, groups: Vec<Node>) -> (r: Node)
    requires
        forall|i: int| 0 <= i < groups@.len() ==> !is_primitive(#[trigger] groups@[i].type_token),
    ensures
        r@ == symbol_then_shape(lit, shapes(groups@)),
        r.type_token == TokenType::Symbol,
{
    Node::new_c(TokenType::Symbol, groups, none(), literal(lit))
}

/// An operator followed by a further expression.
fn operator_then_expression() -> (r: Node)
    ensures
        r@ == operator_shape(),
        r.type_token == TokenType::Operator,
{
    Node::new(TokenType::Operator, one(refer(TokenType::Expression)), none())
}

/// A list of `item`s separated by commas.
fn serie(kind: TokenType, item: TokenType, emit: bool) -> (r: Node)
    requires
        !is_primitive(kind),
    ensures
        r@ == serie_shape(kind, item, emit),
        r.type_token == kind,
        r.wf(),
{
    let comma = symbol_then(",", one(refer(kind)));
    if primitive(item) {
        let comma = if emit {
            comma.push()
        } else {
            comma
        };
        let first = Node::new_end(item, none(), one(comma));
        let first = if emit {
            first.push()
        } else {
            first
        };
        Node::new(kind, none(), one(first))
    } else {
        let first = Node::new_end(item, none(), one(comma));
        Node::new(kind, one(first), none())
    }
}

/// A line: a section header, a rule for a name, or a declaration.
fn line_group() -> (r: Node)
    ensures
        r@ == line_shape(),
        r.type_token == TokenType::Line,
        r.wf(),
{
    let rule = Node::new(
        TokenType::Ident,
        one(refer(TokenType::InKeyword)),
        one(
            symbol_then(
                "=",
                three(
                    refer(TokenType::Macro),
                    refer(TokenType::Expression),
                    refer(TokenType::String),
                ),
            ),
        ),
    );
    let declaration = Node::new_c(
        TokenType::Keyword,
        none(),
        one(symbol_then("=", one(refer(TokenType::SerieIdent))).push()),
        literals("CHARS", "TPRIMS", "GROUPS"),
    ).push();
    Node::new(TokenType::Line, one(refer(TokenType::Section)), two(rule, declaration))
}

/// `in` followed by a bracketed list of strings.
fn in_keyword_group() -> (r: Node)
    ensures
        r@ == in_keyword_shape(),
        r.type_token == TokenType::InKeyword,
        r.wf(),
{
    let closing = leaf_of(TokenType::Symbol, literal("]"));
    let strings = Node::new(TokenType::SerieString, none(), one(closing));
    let opening = symbol_then("[", one(strings));
    let keyword = Node::new_c(TokenType::Keyword, none(), one(opening), literal("in"));
    Node::new(TokenType::InKeyword, none(), one(keyword))
}

/// `#` followed by a section name, which is emitted with the section flag.
fn section_group() -> (r: Node)
    ensures
        r@ == section_shape(),
        r.type_token == TokenType::Section,
        r.wf(),
{
    let name = leaf_of(TokenType::Ident, sections()).set_flag(Flag::Section).push();
    let sharp = Node::new_c(TokenType::Symbol, none(), one(name), literal("#"));
    Node::new(TokenType::Section, none(), one(sharp))
}

/// `@` followed by a macro name.
fn macro_group() -> (r: Node)
    ensures
        r@ == macro_shape(),
        r.type_token == TokenType::Macro,
        r.wf(),
{
    let name = leaf_of(TokenType::Ident, macros());
    let at = Node::new_c(TokenType::Symbol, none(), one(name), literal("@"));
    Node::new(TokenType::Macro, none(), one(at))
}

/// A value or a parenthesised expression.
fn expression_group() -> (r: Node)
    ensures
        r@ == expression_shape(),
        r.type_token == TokenType::Expression,
        r.wf(),
{
    let value = Node::new_end(TokenType::Value, none(), one(operator_then_expression()));
    let closing = Node::new_end_c(
        TokenType::Symbol,
        none(),
        one(operator_then_expression()),
        literal(")"),
    );
    let inner = Node::new(TokenType::Expression, none(), one(closing));
    let opening = symbol_then("(", one(inner));
    Node::new(TokenType::Expression, one(value), one(opening))
}

/// A name, optionally followed by arguments between braces.
fn value_group() -> (r: Node)
    ensures
        r@ == value_shape(),
        r.type_token == TokenType::Value,
        r.wf(),
{
    let args = Node::new(
        TokenType::SerieArg,
        none(),
        one(leaf_of(TokenType::Symbol, literal("}"))),
    );
    let brace = Node::new_c(
        TokenType::Symbol,
        one(args),
        one(leaf_of(TokenType::Symbol, literal("}"))),
        literal("{"),
    );
    let name = Node::new_end(TokenType::Ident, none(), one(brace));
    Node::new(TokenType::Value, none(), one(name))
}

/// One argument: a string, or the keyword `END`.
fn arg_group() -> (r: Node)
    ensures
        r@ == arg_shape(),
        r.type_token == TokenType::Arg,
        r.wf(),
{
    Node::new(
        TokenType::Arg,
        one(refer(TokenType::String)),
        one(leaf_of(TokenType::Keyword, literal("END"))),
    )
}

/// A quoted string.
fn string_group() -> (r: Node)
    ensures
        r@ == string_shape(),
        r.type_token == TokenType::String,
        r.wf(),
{
    let quote = Node::new_c_r(
        TokenType::Symbol,
        one(refer(TokenType::SerieChar)),
        none(),
        literal("\""),
        0,
    ).consider_garbage();
    Node::new(TokenType::String, none(), one(quote))
}

/// The characters of a string up to its closing quote.
fn serie_char_group() -> (r: Node)
    ensures
        r@ == serie_char_shape(),
        r.type_token == TokenType::SerieChar,
        r.wf(),
{
    let character = Node::new(
        TokenType::ComplexChar,
        none(),
        one(leaf_of(TokenType::Symbol, literal("\""))),
    ).consider_garbage();
    Node::new(TokenType::SerieChar, one(character), none())
}

/// One character of a string.
fn complex_char_group() -> (r: Node)
    ensures
        r@ == complex_char_shape(),
        r.type_token == TokenType::ComplexChar,
        r.wf(),
{
    let plain = leaf_of(TokenType::Symbol, literals("\\", "\"", "\'")).priv_const().push();
    let escaped = Node::new_c(
        TokenType::Symbol,
        none(),
        one(refer(TokenType::Symbol).push()),
        literal("\\"),
    ).push();
    Node::new(TokenType::ComplexChar, none(), two(plain, escaped))
}

/// No node at or after `i` has kind `kind`, so none is found.
pub proof fn lemma_absent(entries: Seq<Node>, kind: TokenType, i: int)
    requires
        0 <= i <= entries.len(),
        !kinds_of(entries).contains(kind),
    ensures
        find_kind(entries, kind, i) == entries.len(),
    decreases entries.len() - i,
{
    if i < entries.len() {
        assert(kinds_of(entries)[i] == entries[i].type_token);
        lemma_absent(entries, kind, i + 1);
    }
}

/// Adds the subtree of a kind that the table does not hold yet.
fn append_group(group_map: &mut GroupMap, node: Node)
    requires
        old(group_map).wf(),
        node.wf(),
        !is_primitive(node.type_token),
        !kinds_of(old(group_map).entries@).contains(node.type_token),
    ensures
        final(group_map).wf(),
        final(group_map).entries@ == old(group_map).entries@.push(node),
        kinds_of(final(group_map).entries@) == kinds_of(old(group_map).entries@).push(
            node.type_token,
        ),
        shapes(final(group_map).entries@) == shapes(old(group_map).entries@).push(node@),
{
    proof {
        lemma_absent(group_map.entries@, node.type_token, 0);
    }
    let ghost kind = node.type_token;
    let ghost shape = node@;
    group_map.insert(node);
    assert(kinds_of(group_map.entries@) =~= kinds_of(old(group_map).entries@).push(kind));
    assert(shapes(group_map.entries@) =~= shapes(old(group_map).entries@).push(shape));
}

/// The kinds whose subtrees the grammar defines, in the order of the table.
pub open spec fn grammar_kinds() -> Seq<TokenType> {
    seq![
        TokenType::Line,
        TokenType::InKeyword,
        TokenType::Section,
        TokenType::Macro,
        TokenType::Expression,
        TokenType::Value,
        TokenType::Arg,
        TokenType::SerieArg,
        TokenType::SerieIdent,
        TokenType::SerieString,
        TokenType::String,
        TokenType::SerieChar,
        TokenType::ComplexChar,
    ]
}

/// Builds the grammar of the rule language: the subtree of each of its
/// group kinds, the line first.
pub fn build_grammar_tree() -> (r: GroupMap)
    ensures
        r.wf(),
        kinds_of(r.entries@) == grammar_kinds(),
        shapes(r.entries@) == grammar_shapes(),
        r.lookup(TokenType::Line) is Some,
        r.lookup(TokenType::Line).unwrap()@ == line_shape(),
{
    let mut group_map = GroupMap::new();
    assert(kinds_of(group_map.entries@) =~= Seq::<TokenType>::empty());
    assert(shapes(group_map.entries@) =~= Seq::<Shape>::empty());
    append_group(&mut group_map, line_group());
    assert(kinds_of(group_map.entries@) =~= seq![TokenType::Line]);
    append_group(&mut group_map, in_keyword_group());
    assert(kinds_of(group_map.entries@) =~= seq![TokenType::Line, TokenType::InKeyword]);
    append_group(&mut group_map, section_group());
    assert(kinds_of(group_map.entries@) =~= seq![TokenType::Line, TokenType::InKeyword, TokenType::Section]);
    append_group(&mut group_map, macro_group());
    assert(kinds_of(group_map.entries@) =~= seq![TokenType::Line, TokenType::InKeyword, TokenType::Section, TokenType::Macro]);
    append_group(&mut group_map, expression_group());
    assert(kinds_of(group_map.entries@) =~= seq![TokenType::Line, TokenType::InKeyword, TokenType::Section, TokenType::Macro, TokenType::Expression]);
    append_group(&mut group_map, value_group());
    assert(kinds_of(group_map.entries@) =~= seq![TokenType::Line, TokenType::InKeyword, TokenType::Section, TokenType::Macro, TokenType::Expression, TokenType::Value]);
    append_group(&mut group_map, arg_group());
    assert(kinds_of(group_map.entries@) =~= seq![TokenType::Line, TokenType::InKeyword, TokenType::Section, TokenType::Macro, TokenType::Expression, TokenType::Value, TokenType::Arg]);
    append_group(&mut group_map, serie(TokenType::SerieArg, TokenType::Arg, false));
    assert(kinds_of(group_map.entries@) =~= seq![TokenType::Line, TokenType::InKeyword, TokenType::Section, TokenType::Macro, TokenType::Expression, TokenType::Value, TokenType::Arg, TokenType::SerieArg]);
    append_group(&mut group_map, serie(TokenType::SerieIdent, TokenType::Ident, true));
    assert(kinds_of(group_map.entries@) =~= seq![TokenType::Line, TokenType::InKeyword, TokenType::Section, TokenType::Macro, TokenType::Expression, TokenType::Value, TokenType::Arg, TokenType::SerieArg, TokenType::SerieIdent]);
    append_group(&mut group_map, serie(TokenType::SerieString, TokenType::String, false));
    assert(kinds_of(group_map.entries@) =~= seq![TokenType::Line, TokenType::InKeyword, TokenType::Section, TokenType::Macro, TokenType::Expression, TokenType::Value, TokenType::Arg, TokenType::SerieArg, TokenType::SerieIdent, TokenType::SerieString]);
    append_group(&mut group_map, string_group());
    assert(kinds_of(group_map.entries@) =~= seq![TokenType::Line, TokenType::InKeyword, TokenType::Section, TokenType::Macro, TokenType::Expression, TokenType::Value, TokenType::Arg, TokenType::SerieArg, TokenType::SerieIdent, TokenType::SerieString, TokenType::String]);
    append_group(&mut group_map, serie_char_group());
    assert(kinds_of(group_map.entries@) =~= seq![TokenType::Line, TokenType::InKeyword, TokenType::Section, TokenType::Macro, TokenType::Expression, TokenType::Value, TokenType::Arg, TokenType::SerieArg, TokenType::SerieIdent, TokenType::SerieString, TokenType::String, TokenType::SerieChar]);
    append_group(&mut group_map, complex_char_group());
    assert(kinds_of(group_map.entries@) =~= seq![TokenType::Line, TokenType::InKeyword, TokenType::Section, TokenType::Macro, TokenType::Expression, TokenType::Value, TokenType::Arg, TokenType::SerieArg, TokenType::SerieIdent, TokenType::SerieString, TokenType::String, TokenType::SerieChar, TokenType::ComplexChar]);
    proof {
        lemma_find_kind(group_map.entries@, TokenType::Line, 0);
        assert(kinds_of(group_map.entries@)[0] == TokenType::Line);
        assert(shapes(group_map.entries@)[0] == line_shape());
        assert(shapes(group_map.entries@) =~= grammar_shapes());
    }
    group_map
}

} // verus!
