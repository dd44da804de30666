//! The static grammar: nodes with their continuations, constraints and
//! reactions, and the candidate paths that the matcher builds from them.

use vstd::prelude::*;
use crate::token::{Content, Flag, Token, TokenType, TokenizerMessage, is_primitive, primitive, keywords, operators, keywords_spec, operators_spec};
use crate::text::str_eq;

verus! {

/// What a node does when the matcher selects it.
#[derive(Clone, Copy, Debug, PartialEq, Eq, Structural)]
pub enum Reaction {
    /// Emit a token of the node's kind and flag over the matched span.
    Push,
    /// Emit the end token, which covers no text: a statement ends here.
    End,
}

/// One point of the grammar tree.
///
/// `sons` are the primitive continuations, `groups` refer to other subtrees by
/// kind. `constraints` is a list of literals with its polarity: `true` allows
/// only the listed texts, `false` refuses them; an empty list accepts all.
/// `consider_garbage` keeps the matcher from discarding noise below this node,
/// and `retry` is the failure depth at which this node restarts, or -1.
#[derive(Debug)]
pub struct Node {
    pub type_token: TokenType,
    pub flag: Flag,
    pub groups: Vec<Node>,
    pub sons: Vec<Node>,
    pub can_end: bool,
    pub constraints: (Vec<&'static str>, bool),
    pub consider_garbage: bool,
    pub retry: i8,
    pub travel_react: Option<Reaction>,
}

/// A node with all that stands below it, as a mathematical value.
pub struct Shape {
    pub kind: TokenType,
    pub flag: Flag,
    pub groups: Seq<Shape>,
    pub sons: Seq<Shape>,
    pub can_end: bool,
    pub literals: Seq<&'static str>,
    pub allow: bool,
    pub noise: bool,
    pub retry: int,
    pub react: Option<Reaction>,
}

/// A node without children that may end, which accepts `literals` alone.
pub open spec fn leaf_shape(kind: TokenType, literals: Seq<&'static str>) -> Shape {
    Shape {
        kind,
        flag: Flag::NoFlag,
        groups: Seq::empty(),
        sons: Seq::empty(),
        can_end: true,
        literals,
        allow: true,
        noise: false,
        retry: -1,
        react: None,
    }
}

/// A node with children, without flag, reaction or retry, which discards
/// noise.
pub open spec fn node_shape(
    kind: TokenType,
    groups: Seq<Shape>,
    sons: Seq<Shape>,
    can_end: bool,
    literals: Seq<&'static str>,
) -> Shape {
    Shape {
        kind,
        flag: Flag::NoFlag,
        groups,
        sons,
        can_end,
        literals,
        allow: true,
        noise: false,
        retry: -1,
        react: None,
    }
}

/// The symbol `;` that ends a statement: a leaf whose reaction emits the
/// end token.
pub open spec fn semicolon_shape() -> Shape {
    Shape { react: Some(Reaction::End), ..leaf_shape(TokenType::Symbol, seq![";"]) }
}

/// The shapes of the nodes of a list.
pub open spec fn shapes(v: Seq<Node>) -> Seq<Shape>
    decreases v,
{
    Seq::new(
        v.len(),
        |i: int|
            if 0 <= i < v.len() {
                v[i].view()
            } else {
                leaf_shape(TokenType::ERROR, Seq::empty())
            },
    )
}

impl View for Node {
    type V = Shape;

    open spec fn view(&self) -> Shape
        decreases self,
    {
        Shape {
            kind: self.type_token,
            flag: self.flag,
            groups: shapes(self.groups@),
            sons: shapes(self.sons@),
            can_end: self.can_end,
            literals: self.constraints.0@,
            allow: self.constraints.1,
            noise: self.consider_garbage,
            retry: self.retry as int,
            react: self.travel_react,
        }
    }
}

/// Two nodes are equal when they are of the same kind.
impl PartialEq for Node {
    fn eq(&self, other: &Node) -> (r: bool) {
        other.type_token == self.type_token
    }
}

impl vstd::std_specs::cmp::PartialEqSpecImpl for Node {
    open spec fn obeys_eq_spec() -> bool {
        true
    }

    open spec fn eq_spec(&self, other: &Node) -> bool {
        other.type_token == self.type_token
    }
}

/// Every primitive child has a primitive kind, every group child has not.
pub open spec fn children_ok(groups: Seq<Node>, sons: Seq<Node>) -> bool {
    &&& forall|i: int| 0 <= i < sons.len() ==> is_primitive(#[trigger] sons[i].type_token)
    &&& forall|i: int| 0 <= i < groups.len() ==> !is_primitive(#[trigger] groups[i].type_token)
}

/// Some literal of `lits` reads `c`.
pub open spec fn lits_contain(lits: Seq<&'static str>, c: Seq<char>) -> bool {
    exists|i: int| 0 <= i < lits.len() && (#[trigger] lits[i])@ == c
}

/// The text `c` meets the constraint: the list is empty, or `c` is listed
/// exactly when the list is an allow-list.
pub open spec fn constraint_ok(lits: Seq<&'static str>, allow: bool, c: Seq<char>) -> bool {
    lits.len() == 0 || (lits_contain(lits, c) == allow)
}

/// The literals that a node of kind `kind` accepts when none are given.
pub open spec fn default_constraint(kind: TokenType) -> Seq<&'static str> {
    match kind {
        TokenType::Operator => operators_spec(),
        TokenType::Keyword => keywords_spec(),
        _ => Seq::empty(),
    }
}

pub fn get_default_constraint(token_type: TokenType) -> (r: Vec<&'static str>)
    ensures
        r@ == default_constraint(token_type),
{
    match token_type {
        TokenType::Operator => operators(),
        TokenType::Keyword => keywords(),
        _ => Vec::new(),
    }
}

/// Tells whether `lits` holds a literal that reads as `c`.
pub fn contains_literal(lits: &Vec<&'static str>, c: &str) -> (r: bool)
    ensures
        r == lits_contain(lits@, c@),
{
    let mut i: usize = 0;
    while i < lits.len()
        invariant
            i <= lits.len(),
            forall|k: int| 0 <= k < i ==> (#[trigger] lits@[k])@ != c@,
        decreases lits.len() - i,
    {
        if str_eq(lits[i], c) {
            return true;
        }
        i += 1;
    }
    false
}

impl Node {
    /// Tells whether the children given to a node are of the kinds that their
    /// places ask for.
    pub fn check_son(groups: &Vec<Node>, sons: &Vec<Node>) -> (r: bool)
        ensures
            r == children_ok(groups@, sons@),
    {
        let mut i: usize = 0;
        while i < sons.len()
            invariant
                i <= sons.len(),
                forall|k: int| 0 <= k < i ==> is_primitive(#[trigger] sons@[k].type_token),
            decreases sons.len() - i,
        {
            if !primitive(sons[i].type_token) {
                return false;
            }
            i += 1;
        }
        let mut j: usize = 0;
        while j < groups.len()
            invariant
                j <= groups.len(),
                forall|k: int| 0 <= k < sons.len() ==> is_primitive(#[trigger] sons@[k].type_token),
                forall|k: int| 0 <= k < j ==> !is_primitive(#[trigger] groups@[k].type_token),
            decreases groups.len() - j,
        {
            if primitive(groups[j].type_token) {
                return false;
            }
            j += 1;
        }
        true
    }
}

impl Node {
    /// The children are of the kinds that their places ask for.
    pub open spec fn wf(&self) -> bool {
        children_ok(self.groups@, self.sons@)
    }

    /// A node that must be continued, with the default literals of its kind.
    pub fn new(type_token: TokenType, groups: Vec<Node>, sons: Vec<Node>) -> (r: Node)
        requires
            children_ok(groups@, sons@),
        ensures
            r.type_token == type_token,
            r.flag == Flag::NoFlag,
            r.groups == groups,
            r.sons == sons,
            !r.can_end,
            r.constraints.0@ == default_constraint(type_token),
            r.constraints.1,
            !r.consider_garbage,
            r.retry == -1,
            r.travel_react is None,
    {
        Node::new_c(type_token, groups, sons, get_default_constraint(type_token))
    }

    /// A node that may end, restricted to `constraints`, which restarts on a
    /// failure of depth `depth`.
    pub fn new_c_r(
        type_token: TokenType,
        groups: Vec<Node>,
        sons: Vec<Node>,
        constraints: Vec<&'static str>,
        depth: i8,
    ) -> (r: Node)
        requires
            children_ok(groups@, sons@),
        ensures
            r.type_token == type_token,
            r.flag == Flag::NoFlag,
            r.groups == groups,
            r.sons == sons,
            r.can_end,
            r.constraints == (constraints, true),
            !r.consider_garbage,
            r.retry == depth,
            r.travel_react is None,
    {
        Node {
            type_token,
            flag: Flag::NoFlag,
            groups,
            sons,
            can_end: true,
            constraints: (constraints, true),
            consider_garbage: false,
            retry: depth,
            travel_react: None,
        }
    }

    /// A node without children, with the default literals of its kind.
    pub fn leaf(type_token: TokenType) -> (r: Node)
        ensures
            r.type_token == type_token,
            r.flag == Flag::NoFlag,
            r.groups@.len() == 0,
            r.sons@.len() == 0,
            r.can_end,
            r.constraints.0@ == default_constraint(type_token),
            r.constraints.1,
            !r.consider_garbage,
            r.retry == -1,
            r.travel_react is None,
    {
        Node::new_end(type_token, Vec::new(), Vec::new())
    }

    /// A node that may end, with the default literals of its kind.
    pub fn new_end(type_token: TokenType, groups: Vec<Node>, sons: Vec<Node>) -> (r: Node)
        requires
            children_ok(groups@, sons@),
        ensures
            r.type_token == type_token,
            r.flag == Flag::NoFlag,
            r.groups == groups,
            r.sons == sons,
            r.can_end,
            r.constraints.0@ == default_constraint(type_token),
            r.constraints.1,
            !r.consider_garbage,
            r.retry == -1,
            r.travel_react is None,
    {
        Node::new_end_c(type_token, groups, sons, get_default_constraint(type_token))
    }

    /// A node that must be continued, restricted to `constraints`.
    pub fn new_c(
        type_token: TokenType,
        groups: Vec<Node>,
        sons: Vec<Node>,
        constraints: Vec<&'static str>,
    ) -> (r: Node)
        requires
            children_ok(groups@, sons@),
        ensures
            r.type_token == type_token,
            r.flag == Flag::NoFlag,
            r.groups == groups,
            r.sons == sons,
            !r.can_end,
            r.constraints == (constraints, true),
            !r.consider_garbage,
            r.retry == -1,
            r.travel_react is None,
    {
        Node {
            type_token,
            flag: Flag::NoFlag,
            groups,
            sons,
            can_end: false,
            constraints: (constraints, true),
            consider_garbage: false,
            retry: -1,
            travel_react: None,
        }
    }

    /// A node without children, restricted to `constraints`.
    pub fn leaf_c(type_token: TokenType, constraints: Vec<&'static str>) -> (r: Node)
        ensures
            r.type_token == type_token,
            r.flag == Flag::NoFlag,
            r.groups@.len() == 0,
            r.sons@.len() == 0,
            r.can_end,
            r.constraints == (constraints, true),
            !r.consider_garbage,
            r.retry == -1,
            r.travel_react is None,
    {
        Node::new_end_c(type_token, Vec::new(), Vec::new(), constraints)
    }

    /// A node that may end, restricted to `constraints`.
    pub fn new_end_c(
        type_token: TokenType,
        groups: Vec<Node>,
        sons: Vec<Node>,
        constraints: Vec<&'static str>,
    ) -> (r: Node)
        requires
            children_ok(groups@, sons@),
        ensures
            r.type_token == type_token,
            r.flag == Flag::NoFlag,
            r.groups == groups,
            r.sons == sons,
            r.can_end,
            r.constraints == (constraints, true),
            !r.consider_garbage,
            r.retry == -1,
            r.travel_react is None,
    {
        Node {
            type_token,
            flag: Flag::NoFlag,
            groups,
            sons,
            can_end: true,
            constraints: (constraints, true),
            consider_garbage: false,
            retry: -1,
            travel_react: None,
        }
    }

    /// The node has no continuation at all.
    pub open spec fn leaf_spec(&self) -> bool {
        self.sons@.len() == 0 && self.groups@.len() == 0
    }

    pub fn is_leaf(&self) -> (r: bool)
        ensures
            r == self.leaf_spec(),
    {
        self.sons.len() == 0 && self.groups.len() == 0
    }

    /// Turns the list of literals into a deny-list.
    pub fn priv_const(self) -> (r: Node)
        ensures
            r == (Node { constraints: (self.constraints.0, false), ..self }),
    {
        let mut node = self;
        node.constraints.1 = false;
        node
    }

    /// The text `c` meets this node's constraint.
    pub open spec fn accepts(&self, c: Seq<char>) -> bool {
        constraint_ok(self.constraints.0@, self.constraints.1, c)
    }

    pub fn constraint_satisfied(&self, c: &str) -> (r: bool)
        ensures
            r == self.accepts(c@),
    {
        let contains = contains_literal(&self.constraints.0, c);
        self.constraints.0.len() == 0 || contains && self.constraints.1 || !contains
            && !self.constraints.1
    }

    /// Sets the reaction of the node.
    pub fn react(self, r: Reaction) -> (res: Node)
        ensures
            res == (Node { travel_react: Some(r), ..self }),
    {
        let mut node = self;
        node.travel_react = Some(r);
        node
    }

    /// Makes the node emit a token when it is matched.
    pub fn push(self) -> (res: Node)
        ensures
            res == (Node { travel_react: Some(Reaction::Push), ..self }),
    {
        let mut node = self;
        node.travel_react = Some(Reaction::Push);
        node
    }

    /// Keeps noise significant below this node.
    pub fn consider_garbage(self) -> (res: Node)
        ensures
            res == (Node { consider_garbage: true, ..self }),
    {
        let mut node = self;
        node.consider_garbage = true;
        node
    }

    /// A node of kind `type_token` restricted to `constraints`, which must be
    /// followed by `;`, where the end token is emitted.
    pub fn comma_leaf_c(type_token: TokenType, constraints: Vec<&'static str>) -> (r: Node)
        ensures
            r@ == node_shape(type_token, Seq::empty(), seq![semicolon_shape()], false, constraints@),
            r.type_token == type_token,
            r.wf(),
    {
        let sons = Node::semicolon_son();
        let groups: Vec<Node> = Vec::new();
        assert(shapes(groups@) =~= Seq::<Shape>::empty());
        Node::new_c(type_token, groups, sons, constraints)
    }

    /// A node of kind `type_token` with the default literals of its kind,
    /// which must be followed by `;`, where the end token is emitted.
    pub fn comma_leaf(type_token: TokenType) -> (r: Node)
        ensures
            r@ == node_shape(
                type_token,
                Seq::empty(),
                seq![semicolon_shape()],
                false,
                default_constraint(type_token),
            ),
            r.type_token == type_token,
            r.wf(),
    {
        let sons = Node::semicolon_son();
        let groups: Vec<Node> = Vec::new();
        assert(shapes(groups@) =~= Seq::<Shape>::empty());
        Node::new(type_token, groups, sons)
    }

    /// The one child of a node that a `;` must follow.
    fn semicolon_son() -> (sons: Vec<Node>)
        ensures
            shapes(sons@) == seq![semicolon_shape()],
            sons@.len() == 1,
            sons@[0].type_token == TokenType::Symbol,
    {
        let lits = vec![";"];
        assert(lits@ =~= seq![";"]);
        let semicolon = Node::leaf_c(TokenType::Symbol, lits).react(Reaction::End);
        assert(shapes(semicolon.groups@) =~= Seq::<Shape>::empty());
        assert(shapes(semicolon.sons@) =~= Seq::<Shape>::empty());
        let ghost shape = semicolon@;
        let sons = vec![semicolon];
        assert(shapes(sons@) =~= seq![shape]);
        sons
    }

    /// Sets the flag that the node's tokens carry.
    pub fn set_flag(self, flag: Flag) -> (res: Node)
        ensures
            res == (Node { flag: flag, ..self }),
    {
        let mut node = self;
        node.flag = flag;
        node
    }
}

/// A candidate continuation: the node under test first, then the group
/// nodes through which it was reached, nearest first.
#[derive(Debug, PartialEq)]
pub struct Path<'a> {
    pub path: Vec<&'a Node>,
}

/// The end token: a token of the kind `End` that covers no text.
pub open spec fn end_message() -> TokenizerMessage {
    TokenizerMessage::Token(
        Token { token_type: TokenType::End, content: Content::Span(0, 0), flag: Flag::NoFlag },
    )
}

/// The message that `node` emits over the span `content`: the end token
/// where that is its reaction, else a token of its kind and flag over the
/// span.
pub open spec fn reaction_message(node: &Node, content: (usize, usize)) -> TokenizerMessage {
    if node.travel_react == Some(Reaction::End) {
        end_message()
    } else {
        TokenizerMessage::Token(
            Token {
                token_type: node.type_token,
                content: Content::Span(content.0, content.1),
                flag: node.flag,
            },
        )
    }
}

/// The messages that the nodes of `path` emit over `content`: those with a
/// reaction, the farthest node first.
pub open spec fn reaction_messages(path: Seq<&Node>, content: (usize, usize)) -> Seq<
    TokenizerMessage,
>
    decreases path.len(),
{
    if path.len() == 0 {
        Seq::empty()
    } else {
        let last = path.last();
        let head = if last.travel_react is Some {
            seq![reaction_message(last, content)]
        } else {
            Seq::empty()
        };
        head + reaction_messages(path.drop_last(), content)
    }
}

impl<'a> Path<'a> {
    pub fn init(node: &'a Node) -> (r: Path<'a>)
        ensures
            r.path@ == seq![node],
    {
        let mut path: Vec<&'a Node> = Vec::new();
        path.push(node);
        assert(path@ =~= seq![node]);
        Path { path }
    }

    /// The node under test.
    pub fn p_node(&self) -> (r: &'a Node)
        requires
            self.path@.len() > 0,
        ensures
            r == self.path@[0],
    {
        self.path[0]
    }

    /// Fires the reactions along the path, the farthest node first, each
    /// appending its message to `out`.
    pub fn proke_travel_functions(&self, out: &mut Vec<TokenizerMessage>, content: (usize, usize))
        ensures
            final(out)@ == old(out)@ + reaction_messages(self.path@, content),
    {
        let mut i: usize = self.path.len();
        assert(self.path@.subrange(0, i as int) =~= self.path@);
        while i > 0
            invariant
                i <= self.path.len(),
                old(out)@ + reaction_messages(self.path@, content) == out@ + reaction_messages(
                    self.path@.subrange(0, i as int),
                    content,
                ),
            decreases i,
        {
            let node = self.path[i - 1];
            proof {
                let sub = self.path@.subrange(0, i as int);
                assert(sub.drop_last() =~= self.path@.subrange(0, i - 1));
                assert(sub.last() == node);
            }
            let ghost before = out@;
            match node.travel_react {
                Some(Reaction::Push) => {
                    push_token(out, node.type_token, content, node.flag);
                    assert(out@ =~= before + seq![reaction_message(node, content)]);
                },
                Some(Reaction::End) => {
                    end_request(out, node.type_token, content, node.flag);
                    assert(out@ =~= before + seq![reaction_message(node, content)]);
                },
                None => {},
            }
            assert(out@ + reaction_messages(self.path@.subrange(0, i - 1), content) =~= before
                + reaction_messages(self.path@.subrange(0, i as int), content));
            i -= 1;
        }
        assert(out@ + reaction_messages(self.path@.subrange(0, 0), content) =~= out@);
    }
}

/// Appends one token to the stream `out`.
pub fn push_token(
    out: &mut Vec<TokenizerMessage>,
    token_type: TokenType,
    content: (usize, usize),
    flag: Flag,
)
    ensures
        final(out)@ == old(out)@.push(
            TokenizerMessage::Token(
                Token { token_type, content: Content::Span(content.0, content.1), flag },
            ),
        ),
{
    out.push(TokenizerMessage::Token(Token::new(token_type, content, flag)));
}

/// Appends the end token to the stream `out`, whatever was matched.
pub fn end_request(
    out: &mut Vec<TokenizerMessage>,
    _token_type: TokenType,
    _content: (usize, usize),
    _flag: Flag,
)
    ensures
        final(out)@ == old(out)@.push(end_message()),
{
    push_token(out, TokenType::End, (0, 0), Flag::NoFlag);
}

} // verus!
