//! The tokenizer: a backtracking matcher that walks the grammar tree over
//! each logical line of a text and emits the tokens that the nodes ask for.

use vstd::prelude::*;
use std::collections::VecDeque;
use crate::token::{Content, Flag, Token, TokenType, TokenizerMessage, PARSING_ERROR};
use crate::grammar::{Node, Path, push_token, reaction_messages};
use crate::grammar_tree::{GroupMap, build_grammar_tree, find_kind, lemma_find_kind};
use crate::cursor::{TextTraveler, COM_CHAR, is_garbage_spec, is_garbage, is_number, is_number_spec, line_start, line_end};
use crate::text::{trimmed_end, lemma_back_white_bounds};
use crate::bytes::{bytes_upto, bytes_len, byte_length, lemma_bytes_monotone, lemma_bytes_subrange};
use crate::candidates::{CharClass, class_has, class_of, class_kinds, in_class, kinds_of_class, paths_view, paths_ok, first_symbol, symbol_accepts, lemma_first_symbol, keep_kinds, best, build_identity_map, build_priority_map, priority};

verus! {

/// End of the run of `class` that holds position `i`.
pub open spec fn run_end(s: Seq<char>, i: int, class: CharClass) -> int
    decreases s.len() - i,
{
    if 0 <= i < s.len() && class_has(class, s[i]) {
        run_end(s, i + 1, class)
    } else {
        i
    }
}

pub proof fn lemma_run_end_bounds(s: Seq<char>, i: int, class: CharClass)
    requires
        0 <= i <= s.len(),
    ensures
        i <= run_end(s, i, class) <= s.len(),
    decreases s.len() - i,
{
    if i < s.len() && class_has(class, s[i]) {
        lemma_run_end_bounds(s, i + 1, class);
    }
}

/// End of the token of `class` that starts at `i`: one sign alone, or the
/// character at `i` and the run of the class behind it.
pub open spec fn consume_run(s: Seq<char>, i: int, class: CharClass) -> int {
    if class == CharClass::Sign {
        i + 1
    } else {
        run_end(s, i + 1, class)
    }
}

/// Where a comment that starts at `i` ends: behind the next line break, or
/// at the end of the text.
pub open spec fn comment_end(s: Seq<char>, i: int) -> int
    decreases s.len() - i,
{
    if 0 <= i < s.len() {
        if s[i] == '\n' || i + 1 >= s.len() {
            i + 1
        } else {
            comment_end(s, i + 1)
        }
    } else {
        i
    }
}

pub proof fn lemma_comment_end_bounds(s: Seq<char>, i: int)
    requires
        0 <= i < s.len(),
    ensures
        i < comment_end(s, i) <= s.len(),
    decreases s.len() - i,
{
    if !(s[i] == '\n' || i + 1 >= s.len()) {
        lemma_comment_end_bounds(s, i + 1);
    }
}

/// The first position at or after `i` that holds neither noise nor a comment.
pub open spec fn garbage_end(s: Seq<char>, i: int) -> int
    decreases s.len() - i,
{
    if 0 <= i < s.len() {
        if s[i] == COM_CHAR {
            if i < comment_end(s, i) <= s.len() {
                garbage_end(s, comment_end(s, i))
            } else {
                i
            }
        } else if is_garbage_spec(s[i]) {
            garbage_end(s, i + 1)
        } else {
            i
        }
    } else {
        i
    }
}

/// The number of line breaks among the noise from `i` on, those inside
/// comments not counted.
pub open spec fn garbage_breaks(s: Seq<char>, i: int) -> nat
    decreases s.len() - i,
{
    if 0 <= i < s.len() {
        if s[i] == COM_CHAR {
            if i < comment_end(s, i) <= s.len() {
                garbage_breaks(s, comment_end(s, i))
            } else {
                0
            }
        } else if is_garbage_spec(s[i]) {
            (if s[i] == '\n' {
                1nat
            } else {
                0nat
            }) + garbage_breaks(s, i + 1)
        } else {
            0
        }
    } else {
        0
    }
}

pub proof fn lemma_garbage_end_bounds(s: Seq<char>, i: int)
    requires
        0 <= i <= s.len(),
    ensures
        i <= garbage_end(s, i) <= s.len(),
    decreases s.len() - i,
{
    if i < s.len() {
        if s[i] == COM_CHAR {
            lemma_comment_end_bounds(s, i);
            lemma_garbage_end_bounds(s, comment_end(s, i));
        } else if is_garbage_spec(s[i]) {
            lemma_garbage_end_bounds(s, i + 1);
        }
    }
}

/// The message of a line break.
pub open spec fn back_line() -> TokenizerMessage {
    TokenizerMessage::Token(
        Token { token_type: TokenType::BackLine, content: Content::Span(0, 0), flag: Flag::NoFlag },
    )
}

/// `n` line-break messages.
pub open spec fn back_lines(n: nat) -> Seq<TokenizerMessage> {
    Seq::new(n, |i: int| back_line())
}

/// The message of a failed match: an error token with its diagnostic.
pub open spec fn error_message() -> TokenizerMessage {
    TokenizerMessage::Token(
        Token {
            token_type: TokenType::ERROR,
            content: Content::Text(PARSING_ERROR),
            flag: Flag::NoFlag,
        },
    )
}

/// What reading the next token does to the candidates `paths` at position `i`
/// of `s`: whether a token can start there, where it ends, and the candidates
/// that are left.
///
/// A symbol candidate that accepts the character at `i` alone takes it as a
/// whole token. Else the character's class prunes the candidates and the run
/// of that class is read; a run of letters followed by a digit runs on over
/// letters and digits where an identifier is a candidate.
pub open spec fn next_token_spec(paths: Seq<Seq<&Node>>, s: Seq<char>, i: int) -> (
    bool,
    int,
    Seq<Seq<&Node>>,
) {
    let k = first_symbol(paths, seq![s[i]], 0);
    if k < paths.len() {
        (true, i + 1, seq![paths[k]])
    } else {
        match class_of(s[i]) {
            None => (true, i, paths),
            Some(class) => {
                let kept = keep_kinds(paths, class_kinds(class));
                if kept.len() == 0 {
                    (false, i, kept)
                } else {
                    let e1 = consume_run(s, i, class);
                    if class == CharClass::Letter && e1 < s.len() && is_number_spec(s[e1]) {
                        let kept2 = keep_kinds(kept, seq![TokenType::Ident]);
                        if kept2.len() > 0 {
                            (true, run_end(s, e1 + 1, CharClass::Alnum), kept2)
                        } else {
                            (true, e1, kept2)
                        }
                    } else {
                        (true, e1, kept)
                    }
                }
            },
        }
    }
}

/// A token that starts with a character which some symbol candidate accepts
/// alone is that one character: the run is never extended.
pub proof fn lemma_single_symbol_first(paths: Seq<Seq<&Node>>, s: Seq<char>, i: int, j: int)
    requires
        0 <= i < s.len(),
        0 <= j < paths.len(),
        paths[j].len() > 0,
        paths[j][0].type_token == TokenType::Symbol,
        paths[j][0].accepts(seq![s[i]]),
    ensures
        next_token_spec(paths, s, i).0,
        next_token_spec(paths, s, i).1 == i + 1,
        next_token_spec(paths, s, i).2.len() == 1,
        next_token_spec(paths, s, i).2[0][0].type_token == TokenType::Symbol,
        next_token_spec(paths, s, i).2[0][0].accepts(seq![s[i]]),
{
    lemma_first_symbol(paths, seq![s[i]], 0);
    assert(symbol_accepts(paths, seq![s[i]], j));
}

/// The first `n` primitive children, each as a path of its own.
pub open spec fn sons_paths<'a>(sons: Seq<Node>, n: int) -> Seq<Seq<&'a Node>> {
    Seq::new(n as nat, |i: int| seq![&sons[i]])
}

/// The paths `sub`, each with the group node `g` behind its last node.
pub open spec fn tag_paths<'a>(sub: Seq<Seq<&'a Node>>, g: &'a Node) -> Seq<Seq<&'a Node>> {
    Seq::new(sub.len(), |i: int| sub[i].push(g))
}

/// The candidates that the group child `g` stands for: those of the subtree
/// recorded for its kind, each tagged with `g` where `g` has a reaction or
/// children of its own. `fuel` bounds how deep group references are followed.
pub open spec fn group_paths<'a>(entries: Seq<Node>, g: &'a Node, fuel: nat) -> Seq<Seq<&'a Node>>
    decreases fuel, 0nat, 0nat,
{
    let i = find_kind(entries, g.type_token, 0);
    let sub = if fuel == 0 || i >= entries.len() || i < 0 {
        Seq::empty()
    } else {
        expand(entries, &entries[i], (fuel - 1) as nat)
    };
    if g.travel_react is Some || !g.leaf_spec() {
        tag_paths(sub, g)
    } else {
        sub
    }
}

/// The candidates of the first `n` group children, in their order.
pub open spec fn groups_paths<'a>(
    entries: Seq<Node>,
    groups: Seq<Node>,
    n: int,
    fuel: nat,
) -> Seq<Seq<&'a Node>>
    decreases fuel, 1nat, n,
{
    if n <= 0 || n > groups.len() {
        Seq::empty()
    } else {
        groups_paths(entries, groups, n - 1, fuel) + group_paths(entries, &groups[n - 1], fuel)
    }
}

/// The candidate continuations of `node`: its primitive children, then the
/// expansion of its group children.
pub open spec fn expand<'a>(entries: Seq<Node>, node: &'a Node, fuel: nat) -> Seq<Seq<&'a Node>>
    decreases fuel, 2nat, 0nat,
{
    sons_paths(node.sons@, node.sons@.len() as int) + groups_paths(
        entries,
        node.groups@,
        node.groups@.len() as int,
        fuel,
    )
}

pub proof fn lemma_expand_ok(entries: Seq<Node>, node: &Node, fuel: nat)
    ensures
        paths_ok(expand(entries, node, fuel)),
    decreases fuel, 2nat, 0nat,
{
    lemma_groups_ok(entries, node.groups@, node.groups@.len() as int, fuel);
}

pub proof fn lemma_groups_ok(entries: Seq<Node>, groups: Seq<Node>, n: int, fuel: nat)
    ensures
        paths_ok(groups_paths(entries, groups, n, fuel)),
    decreases fuel, 1nat, n,
{
    if !(n <= 0 || n > groups.len()) {
        lemma_groups_ok(entries, groups, n - 1, fuel);
        lemma_group_ok(entries, &groups[n - 1], fuel);
    }
}

pub proof fn lemma_group_ok(entries: Seq<Node>, g: &Node, fuel: nat)
    ensures
        paths_ok(group_paths(entries, g, fuel)),
    decreases fuel, 0nat, 0nat,
{
    let i = find_kind(entries, g.type_token, 0);
    if !(fuel == 0 || i >= entries.len() || i < 0) {
        lemma_expand_ok(entries, &entries[i], (fuel - 1) as nat);
    }
}

/// The tokenizer: the text to read and the grammar to read it by.
pub struct Tokenizer {
    pub text: String,
    pub group_map: GroupMap,
    pub priority_map: Vec<(TokenType, u8)>,
    pub identity_map: Vec<(CharClass, Vec<TokenType>)>,
}

/// How a match ended: with a failure of some depth or without, where the
/// cursor stands, and the messages emitted so far.
pub struct Outcome {
    pub err: Option<nat>,
    pub pos: int,
    pub out: Seq<TokenizerMessage>,
}

/// The node restarts on a failure of depth `d` below it.
pub open spec fn retries_on(node: &Node, d: nat) -> bool {
    node.retry >= 0 && node.retry as int == d
}

/// The outcome when nothing continues `node` at `pos`: a success where the
/// node may end, else a failure of depth 0.
pub open spec fn stop_here(node: &Node, pos: int, out: Seq<TokenizerMessage>) -> Outcome {
    Outcome {
        err: if node.can_end {
            None
        } else {
            Some(0nat)
        },
        pos,
        out,
    }
}

/// The outcome of matching `node` against the line `s` from `pos`, with the
/// messages `out` emitted before; `base` is the byte at which the line starts
/// in the source, and the spans of the tokens emitted are bytes of the source.
///
/// A leaf matches at once. Else noise is discarded, unless the node keeps
/// it; the next token is read and the best candidate for it chosen; its
/// reactions fire, the farthest node first, and the nodes of its path are
/// matched in turn. Where nothing continues, the node ends or fails with
/// depth 0. A failure below of the node's own retry depth restarts the node
/// where the cursor stands; any other comes back one deeper.
pub open spec fn travel_spec(
    entries: Seq<Node>,
    node: &Node,
    s: Seq<char>,
    base: usize,
    pos: int,
    out: Seq<TokenizerMessage>,
) -> Outcome
    decreases s.len() - pos, 0nat, 0nat,
{
    if node.leaf_spec() || pos < 0 || pos > s.len() {
        Outcome { err: None, pos, out }
    } else {
        let from = if node.consider_garbage {
            pos
        } else {
            garbage_end(s, pos)
        };
        let out1 = if node.consider_garbage {
            out
        } else {
            out + back_lines(garbage_breaks(s, pos))
        };
        if from >= s.len() || from < pos {
            stop_here(node, from, out1)
        } else {
            let step = next_token_spec(candidates_of(entries, node), s, from);
            let choice = if step.0 {
                best(step.2, s.subrange(from, step.1))
            } else {
                None
            };
            match choice {
                None => stop_here(node, from, out1),
                Some(k) => {
                    let path = step.2[k];
                    let out2 = out1 + reaction_messages(
                        path,
                        (
                            (bytes_upto(s, from) + base) as usize,
                            (bytes_upto(s, step.1) + base) as usize,
                        ),
                    );
                    if step.1 <= pos || step.1 > s.len() {
                        Outcome { err: Some(0nat), pos: step.1, out: out2 }
                    } else {
                        let sub = travel_path_spec(entries, path, 0, s, base, step.1, out2);
                        match sub.err {
                            None => sub,
                            Some(d) => if retries_on(node, d) {
                                if pos < sub.pos <= s.len() {
                                    travel_spec(entries, node, s, base, sub.pos, sub.out)
                                } else {
                                    sub
                                }
                            } else {
                                Outcome { err: Some(d + 1), pos: sub.pos, out: sub.out }
                            },
                        }
                    }
                },
            }
        }
    }
}

/// The outcome of matching the nodes of `path` from the `k`-th on, one after
/// the other, up to the first that fails.
pub open spec fn travel_path_spec(
    entries: Seq<Node>,
    path: Seq<&Node>,
    k: int,
    s: Seq<char>,
    base: usize,
    pos: int,
    out: Seq<TokenizerMessage>,
) -> Outcome
    decreases s.len() - pos, 1nat, path.len() - k,
{
    if k < 0 || k >= path.len() || pos < 0 || pos > s.len() {
        Outcome { err: None, pos, out }
    } else {
        let r = travel_spec(entries, path[k], s, base, pos, out);
        if r.err is Some || r.pos < pos || r.pos > s.len() {
            r
        } else {
            travel_path_spec(entries, path, k + 1, s, base, r.pos, r.out)
        }
    }
}

/// The messages of one line `s` matched from `pos` on against `root`, again
/// and again until the line is read, and whether all of it matched. A match
/// that fails, or that reads nothing, ends the line with an error token.
pub open spec fn line_spec(
    entries: Seq<Node>,
    root: &Node,
    s: Seq<char>,
    base: usize,
    pos: int,
    out: Seq<TokenizerMessage>,
) -> (bool, Seq<TokenizerMessage>)
    decreases s.len() - pos,
{
    if pos < 0 || pos >= s.len() {
        (true, out)
    } else {
        let o = travel_spec(entries, root, s, base, pos, out);
        if o.err is Some || o.pos <= pos || o.pos > s.len() {
            (false, o.out.push(error_message()))
        } else {
            let resume = garbage_end(s, o.pos);
            let out2 = o.out + back_lines(garbage_breaks(s, o.pos));
            if resume < o.pos || resume > s.len() {
                (true, out2)
            } else {
                line_spec(entries, root, s, base, resume, out2)
            }
        }
    }
}

/// The messages of one whole line `s`: leading noise discarded, then matched.
pub open spec fn whole_line_spec(
    entries: Seq<Node>,
    root: &Node,
    s: Seq<char>,
    base: usize,
    out: Seq<TokenizerMessage>,
) -> (bool, Seq<TokenizerMessage>) {
    line_spec(entries, root, s, base, garbage_end(s, 0), out + back_lines(garbage_breaks(s, 0)))
}

/// A line read from the part of `s` between two of its characters ends
/// within that part: its bytes, counted from where the part starts, do not
/// reach beyond where the part ends.
pub proof fn lemma_line_bytes(s: Seq<char>, start: int, end: int)
    requires
        0 <= start <= end <= s.len(),
    ensures
        0 <= bytes_upto(s, start),
        bytes_upto(s, start) + bytes_len(trimmed_end(s.subrange(start, end))) <= bytes_upto(
            s,
            end,
        ),
        bytes_upto(s, end) <= bytes_len(s),
{
    let part = s.subrange(start, end);
    lemma_back_white_bounds(part, 0, part.len() as int);
    let k = crate::text::back_white(part, 0, part.len() as int);
    lemma_bytes_subrange(part, 0, k);
    lemma_bytes_monotone(part, 0, k);
    lemma_bytes_monotone(part, k, part.len() as int);
    lemma_bytes_subrange(s, start, end);
    lemma_bytes_monotone(s, start, end);
    lemma_bytes_monotone(s, end, s.len() as int);
}

/// The message that closes a line which starts at byte `start` and was read
/// up to byte `end`.
pub open spec fn line_message(start: int, end: int) -> TokenizerMessage {
    TokenizerMessage::Token(
        Token {
            token_type: TokenType::Line,
            content: Content::Span(start as usize, end as usize),
            flag: Flag::NoFlag,
        },
    )
}

/// The messages of the text `s` from `pos` on: for each logical line its own
/// messages and then a line token over the bytes read for it, up to the
/// first line that fails; then the end of the stream.
pub open spec fn file_spec(
    entries: Seq<Node>,
    root: &Node,
    s: Seq<char>,
    pos: int,
    out: Seq<TokenizerMessage>,
) -> Seq<TokenizerMessage>
    decreases s.len() - pos,
{
    let start = line_start(s, pos);
    if pos < 0 || start >= s.len() || start < pos {
        out.push(TokenizerMessage::End)
    } else {
        let end = line_end(s, start, '\n');
        if end <= start || end > s.len() {
            out.push(TokenizerMessage::End)
        } else {
            let line = trimmed_end(s.subrange(start, end));
            let res = whole_line_spec(entries, root, line, bytes_upto(s, start) as usize, out);
            if !res.0 {
                res.1.push(TokenizerMessage::End)
            } else {
                file_spec(
                    entries,
                    root,
                    s,
                    end,
                    res.1.push(line_message(bytes_upto(s, start), bytes_upto(s, end))),
                )
            }
        }
    }
}

impl Tokenizer {
    /// Steps over the token of `class` that starts under the cursor.
    pub fn next_char_while(&self, chars: &mut TextTraveler, continue_cond: CharClass)
        requires
            old(chars).wf(),
            old(chars).char_i < old(chars).char_len,
        ensures
            final(chars).wf(),
            *final(chars) == (TextTraveler {
                char_i: final(chars).char_i,
                i: final(chars).i,
                ..*old(chars)
            }),
            final(chars).char_i == consume_run(old(chars).text@, old(chars).char_i as int, continue_cond),
            old(chars).char_i < final(chars).char_i <= old(chars).char_len,
    {
        chars.next();
        proof {
            lemma_run_end_bounds(chars.text@, chars.char_i as int, continue_cond);
        }
        if continue_cond != CharClass::Sign {
            while chars.char_i < chars.char_len && in_class(continue_cond, chars.text.get_char(chars.char_i))
                invariant
                    chars.wf(),
                    *chars == (TextTraveler { char_i: chars.char_i, i: chars.i, ..*old(chars) }),
                    old(chars).char_i < chars.char_i <= chars.char_len,
                    run_end(chars.text@, chars.char_i as int, continue_cond) == run_end(
                        chars.text@,
                        old(chars).char_i + 1,
                        continue_cond,
                    ),
                decreases chars.char_len - chars.char_i,
            {
                chars.step();
            }
        }
    }
}

/// The four classes that can start a token stand in the table, each with
/// the kinds that a run of it can be.
pub open spec fn identity_ok(table: Seq<(CharClass, Vec<TokenType>)>) -> bool {
    &&& table.len() == 4
    &&& table[0].0 == CharClass::Number
    &&& table[1].0 == CharClass::Letter
    &&& table[2].0 == CharClass::Sign
    &&& table[3].0 == CharClass::Operator
    &&& forall|i: int| 0 <= i < table.len() ==> (#[trigger] table[i]).1@ == class_kinds(table[i].0)
}

/// The table holds the five primitive kinds, each with its rank.
pub open spec fn priority_ok(table: Seq<(TokenType, u8)>) -> bool {
    &&& table.len() == 5
    &&& table[0].0 == TokenType::Ident
    &&& table[1].0 == TokenType::Number
    &&& table[2].0 == TokenType::Symbol
    &&& table[3].0 == TokenType::Operator
    &&& table[4].0 == TokenType::Keyword
    &&& forall|i: int| 0 <= i < table.len() ==> (#[trigger] table[i]).1 == priority(table[i].0)
}

/// The candidate continuations of `node` in the grammar `entries`, group
/// references followed as deep as the grammar has subtrees.
pub open spec fn candidates_of<'a>(entries: Seq<Node>, node: &'a Node) -> Seq<Seq<&'a Node>> {
    expand(entries, node, entries.len())
}

impl Tokenizer {
    /// The tables of the tokenizer are the ones that the matcher reads by.
    pub open spec fn wf(&self) -> bool {
        identity_ok(self.identity_map@) && priority_ok(self.priority_map@)
    }

    /// A tokenizer for `text` with the grammar of the rule language.
    pub fn new(text: String) -> (r: Tokenizer)
        ensures
            r.wf(),
            r.text == text,
            r.group_map.wf(),
            crate::grammar::shapes(r.group_map.entries@) == crate::grammar_tree::grammar_shapes(),
            r.group_map.lookup(TokenType::Line) is Some,
    {
        Tokenizer {
            text,
            group_map: build_grammar_tree(),
            priority_map: build_priority_map(),
            identity_map: build_identity_map(),
        }
    }

    /// A tokenizer for `text` with a grammar of the caller's.
    pub fn with_grammar(text: String, group_map: GroupMap) -> (r: Tokenizer)
        ensures
            r.wf(),
            r.text == text,
            r.group_map == group_map,
    {
        Tokenizer {
            text,
            group_map,
            priority_map: build_priority_map(),
            identity_map: build_identity_map(),
        }
    }

    /// Collects the candidate continuations of `node`, group references
    /// followed at most `fuel` deep.
    pub fn get_son_array_within<'a>(&'a self, node: &'a Node, fuel: usize) -> (r: VecDeque<
        Path<'a>,
    >)
        ensures
            paths_view(r@) == expand(self.group_map.entries@, node, fuel as nat),
            paths_ok(paths_view(r@)),
        decreases fuel,
    {
        let ghost entries = self.group_map.entries@;
        let mut res: VecDeque<Path<'a>> = VecDeque::new();
        let mut i: usize = 0;
        while i < node.sons.len()
            invariant
                i <= node.sons.len(),
                res@.len() == i,
                paths_view(res@) =~= sons_paths(node.sons@, i as int),
            decreases node.sons.len() - i,
        {
            let ghost seen = paths_view(res@);
            res.push_back(Path::init(&node.sons[i]));
            proof {
                let now = paths_view(res@);
                assert(forall|m: int| 0 <= m < i ==> now[m] == seen[m]);
                assert(now[i as int] == seq![&node.sons@[i as int]]);
            }
            i += 1;
        }
        let mut j: usize = 0;
        while j < node.groups.len()
            invariant
                j <= node.groups.len(),
                entries == self.group_map.entries@,
                paths_view(res@) =~= sons_paths(node.sons@, node.sons@.len() as int)
                    + groups_paths(entries, node.groups@, j as int, fuel as nat),
            decreases node.groups.len() - j,
        {
            let group = &node.groups[j];
            let mut paths: VecDeque<Path<'a>> = if fuel == 0 {
                VecDeque::new()
            } else {
                match self.group_map.get(group.type_token) {
                    Some(root) => {
                        proof {
                            lemma_find_kind(entries, group.type_token, 0);
                        }
                        self.get_son_array_within(root, fuel - 1)
                    },
                    None => VecDeque::new(),
                }
            };
            let ghost sub = paths_view(paths@);
            proof {
                lemma_find_kind(entries, group.type_token, 0);
                let at = find_kind(entries, group.type_token, 0);
                assert(sub =~= (if fuel == 0 || at >= entries.len() {
                    Seq::<Seq<&Node>>::empty()
                } else {
                    expand(entries, &entries[at], (fuel - 1) as nat)
                }));
            }
            let tagging = group.travel_react.is_some() || !group.is_leaf();
            let ghost before = paths_view(res@);
            let mut k: usize = 0;
            let n: usize = paths.len();
            while paths.len() > 0
                invariant
                    k + paths@.len() == n,
                    n == sub.len(),
                    forall|m: int| 0 <= m < paths@.len() ==> (#[trigger] paths@[m]).path@ == sub[k + m],
                    paths_view(res@) =~= before + (if tagging {
                        tag_paths(sub, group)
                    } else {
                        sub
                    }).take(k as int),
                ensures
                    paths@.len() == 0,
                decreases paths.len(),
            {
                let ghost rest = paths@;
                let mut p = match paths.pop_front() {
                    Some(p) => p,
                    None => {
                        break;
                    },
                };
                assert(p == rest[0]);
                assert forall|m: int| 0 <= m < paths@.len() implies (#[trigger] paths@[m]).path@
                    == sub[k + 1 + m] by {
                    assert(paths@[m] == rest[m + 1]);
                }
                if tagging {
                    p.path.push(group);
                }
                let ghost seen = paths_view(res@);
                res.push_back(p);
                proof {
                    let grown = if tagging {
                        tag_paths(sub, group)
                    } else {
                        sub
                    };
                    let now = paths_view(res@);
                    assert(forall|m: int| 0 <= m < seen.len() ==> now[m] == seen[m]);
                    assert(now[seen.len() as int] == grown[k as int]);
                    assert(grown.take(k + 1) =~= grown.take(k as int).push(grown[k as int]));
                }
                k += 1;
            }
            proof {
                let grown = if tagging {
                    tag_paths(sub, group)
                } else {
                    sub
                };
                assert(grown.take(k as int) =~= grown);
                assert(grown == group_paths(entries, group, fuel as nat));
                assert(groups_paths(entries, node.groups@, j + 1, fuel as nat) == groups_paths(
                    entries,
                    node.groups@,
                    j as int,
                    fuel as nat,
                ) + grown);
            }
            j += 1;
        }
        proof {
            lemma_expand_ok(entries, node, fuel as nat);
        }
        res
    }

    /// Collects the candidate continuations of `node`: its primitive children
    /// and the expansion of its group children.
    pub fn get_son_array<'a>(&'a self, node: &'a Node) -> (r: VecDeque<Path<'a>>)
        ensures
            paths_view(r@) == candidates_of(self.group_map.entries@, node),
            paths_ok(paths_view(r@)),
    {
        self.get_son_array_within(node, self.group_map.entries.len())
    }

    /// Discards noise and comments under the cursor, and emits a line-break
    /// token for each line break among the noise.
    pub fn skip_garbage(&self, chars: &mut TextTraveler, out: &mut Vec<TokenizerMessage>)
        requires
            old(chars).wf(),
        ensures
            final(chars).wf(),
            *final(chars) == (TextTraveler {
                char_i: final(chars).char_i,
                i: final(chars).i,
                ..*old(chars)
            }),
            final(chars).char_i == garbage_end(old(chars).text@, old(chars).char_i as int),
            old(chars).char_i <= final(chars).char_i <= old(chars).char_len,
            final(out)@ == old(out)@ + back_lines(
                garbage_breaks(old(chars).text@, old(chars).char_i as int),
            ),
    {
        let ghost s = chars.text@;
        let ghost mut emitted: nat = 0;
        proof {
            lemma_garbage_end_bounds(s, chars.char_i as int);
            assert(out@ =~= old(out)@ + back_lines(0));
        }
        while chars.char_i < chars.char_len
            invariant_except_break
                garbage_end(s, chars.char_i as int) == garbage_end(s, old(chars).char_i as int),
                emitted + garbage_breaks(s, chars.char_i as int) == garbage_breaks(
                    s,
                    old(chars).char_i as int,
                ),
            invariant
                chars.wf(),
                s == chars.text@,
                *chars == (TextTraveler { char_i: chars.char_i, i: chars.i, ..*old(chars) }),
                old(chars).char_i <= chars.char_i <= chars.char_len,
                out@ == old(out)@ + back_lines(emitted),
            ensures
                chars.char_i == garbage_end(s, old(chars).char_i as int),
                emitted == garbage_breaks(s, old(chars).char_i as int),
            decreases chars.char_len - chars.char_i,
        {
            let c = chars.text.get_char(chars.char_i);
            if c == COM_CHAR {
                let ghost start = chars.char_i as int;
                proof {
                    lemma_comment_end_bounds(s, start);
                }
                let mut done = false;
                while !done
                    invariant
                        chars.wf(),
                        s == chars.text@,
                        *chars == (TextTraveler { char_i: chars.char_i, i: chars.i, ..*old(chars) }),
                        old(chars).char_i <= chars.char_i <= chars.char_len,
                        start <= chars.char_i,
                        !done ==> chars.char_i < chars.char_len && comment_end(s, chars.char_i as int)
                            == comment_end(s, start),
                        done ==> chars.char_i == comment_end(s, start),
                    decreases chars.char_len - chars.char_i + (if done { 0int } else { 1int }),
                {
                    let read = chars.text.get_char(chars.char_i);
                    chars.step();
                    if read == '\n' || chars.char_i >= chars.char_len {
                        done = true;
                    }
                }
            } else {
                if !is_garbage(c) {
                    break;
                }
                if c == '\n' {
                    let ghost before = out@;
                    push_token(out, TokenType::BackLine, (0, 0), Flag::NoFlag);
                    proof {
                        assert(out@ =~= old(out)@ + back_lines(emitted + 1));
                        emitted = emitted + 1;
                    }
                }
                chars.step();
            }
        }
    }

    /// Reads the next token under the cursor and prunes the candidates
    /// `path_vec` to those that it can still be. The span of the token runs
    /// from the mark to the cursor.
    pub fn get_next_token<'a, 'b>(
        &self,
        path_vec: &mut VecDeque<Path<'a>>,
        chars: &mut TextTraveler<'b>,
    ) -> (r: Result<&'b str, String>)
        requires
            self.wf(),
            old(chars).wf(),
            old(chars).char_i < old(chars).char_len,
            paths_ok(paths_view(old(path_vec)@)),
        ensures
            final(chars).wf(),
            *final(chars) == (TextTraveler {
                char_mark: old(chars).char_i,
                mark: old(chars).i,
                char_i: final(chars).char_i,
                i: final(chars).i,
                ..*old(chars)
            }),
            final(chars).char_i == next_token_spec(
                paths_view(old(path_vec)@),
                old(chars).text@,
                old(chars).char_i as int,
            ).1,
            old(chars).char_i <= final(chars).char_i <= old(chars).char_len,
            paths_view(final(path_vec)@) == next_token_spec(
                paths_view(old(path_vec)@),
                old(chars).text@,
                old(chars).char_i as int,
            ).2,
            paths_ok(paths_view(final(path_vec)@)),
            r is Ok == next_token_spec(
                paths_view(old(path_vec)@),
                old(chars).text@,
                old(chars).char_i as int,
            ).0,
            r matches Ok(t) ==> t@ == old(chars).text@.subrange(
                old(chars).char_i as int,
                final(chars).char_i as int,
            ),
            r matches Err(e) ==> e@ == "FAILED TO TOKENIZE"@,
    {
        let ghost s = chars.text@;
        let ghost at = chars.char_i as int;
        let ghost pv = paths_view(path_vec@);
        let c = chars.text.get_char(chars.char_i);
        chars.mark();
        let single = chars.text.substring_char(chars.char_i, chars.char_i + 1);
        assert(single@ =~= seq![s[at]]);
        proof {
            lemma_first_symbol(pv, seq![s[at]], 0);
        }
        if self.detect_char_token(path_vec, single) {
            return Ok(chars.str_next());
        }
        let mut k: usize = 0;
        while k < self.identity_map.len()
            invariant
                self.wf(),
                k <= self.identity_map@.len(),
                forall|j: int| 0 <= j < k ==> !class_has((#[trigger] self.identity_map@[j]).0, c),
                chars.wf(),
                *chars == (TextTraveler {
                    char_mark: old(chars).char_i,
                    mark: old(chars).i,
                    ..*old(chars)
                }),
                path_vec@ == old(path_vec)@,
                pv == paths_view(path_vec@),
                paths_ok(pv),
                c == s[at],
                s == chars.text@,
                at == chars.char_i,
                at < chars.char_len,
                first_symbol(pv, seq![s[at]], 0) >= pv.len(),
            decreases self.identity_map@.len() - k,
        {
            let class = self.identity_map[k].0;
            if in_class(class, c) {
                assert(class_of(c) == Some(class)) by {
                    assert(self.identity_map@[0].0 == CharClass::Number);
                    assert(self.identity_map@[1].0 == CharClass::Letter);
                    assert(self.identity_map@[2].0 == CharClass::Sign);
                    assert(self.identity_map@[3].0 == CharClass::Operator);
                }
                assert(self.identity_map@[k as int].1@ == class_kinds(class));
                if self.clean_son_vec(path_vec, &self.identity_map[k].1) {
                    let ghost kept = paths_view(path_vec@);
                    assert(kept == keep_kinds(pv, class_kinds(class)));
                    assert(kept.len() > 0);
                    self.next_char_while(chars, class);
                    let ghost e1 = consume_run(s, at, class);
                    assert(chars.char_i == e1);
                    if chars.char_i < chars.char_len && class == CharClass::Letter && is_number(
                        chars.text.get_char(chars.char_i),
                    ) {
                        let ident = kinds_of_class(CharClass::Alnum);
                        assert(ident@ == seq![TokenType::Ident]);
                        if self.clean_son_vec(path_vec, &ident) {
                            self.next_char_while(chars, CharClass::Alnum);
                            assert(chars.char_i == run_end(s, e1 + 1, CharClass::Alnum));
                        }
                        assert(paths_view(path_vec@) == keep_kinds(kept, seq![TokenType::Ident]));
                    }
                    assert(chars.char_i == next_token_spec(pv, s, at).1);
                    assert(paths_view(path_vec@) == next_token_spec(pv, s, at).2);
                    return Ok(chars.get());
                } else {
                    return Err(String::from_str("FAILED TO TOKENIZE"));
                }
            }
            k += 1;
        }
        assert(class_of(c) is None) by {
            assert(self.identity_map@[0].0 == CharClass::Number);
            assert(self.identity_map@[1].0 == CharClass::Letter);
            assert(self.identity_map@[2].0 == CharClass::Sign);
            assert(self.identity_map@[3].0 == CharClass::Operator);
        }
        let t = chars.get();
        Ok(t)
    }
}

impl Tokenizer {
    /// Matches `current_node` against the text under the cursor, emitting the
    /// messages of the reactions that fire. A failure carries its depth.
    pub fn travel<'a>(
        &'a self,
        current_node: &'a Node,
        chars: &mut TextTraveler,
        out: &mut Vec<TokenizerMessage>,
    ) -> (r: Result<(), usize>)
        requires
            self.wf(),
            old(chars).wf(),
        ensures
            final(chars).wf(),
            final(chars).text == old(chars).text,
            final(chars).base_i == old(chars).base_i,
            final(chars).char_len == old(chars).char_len,
            old(chars).char_i <= final(chars).char_i <= old(chars).char_len,
            final(chars).char_i == travel_spec(
                self.group_map.entries@,
                current_node,
                old(chars).text@,
                old(chars).base_i,
                old(chars).char_i as int,
                old(out)@,
            ).pos,
            final(out)@ == travel_spec(
                self.group_map.entries@,
                current_node,
                old(chars).text@,
                old(chars).base_i,
                old(chars).char_i as int,
                old(out)@,
            ).out,
            match r {
                Ok(_) => travel_spec(
                    self.group_map.entries@,
                    current_node,
                    old(chars).text@,
                    old(chars).base_i,
                    old(chars).char_i as int,
                    old(out)@,
                ).err is None,
                Err(d) => travel_spec(
                    self.group_map.entries@,
                    current_node,
                    old(chars).text@,
                    old(chars).base_i,
                    old(chars).char_i as int,
                    old(out)@,
                ).err == Some(d as nat) && d <= old(chars).char_len - old(chars).char_i,
            },
        decreases old(chars).char_len - old(chars).char_i, 0nat,
    {
        let ghost entries = self.group_map.entries@;
        let ghost s = chars.text@;
        let ghost base = chars.base_i;
        let ghost goal = travel_spec(entries, current_node, s, base, chars.char_i as int, out@);
        if current_node.is_leaf() {
            return Ok(());
        }
        loop
            invariant
                self.wf(),
                chars.wf(),
                chars.text == old(chars).text,
                chars.base_i == old(chars).base_i,
                chars.char_len == old(chars).char_len,
                old(chars).char_i <= chars.char_i <= chars.char_len,
                entries == self.group_map.entries@,
                s == chars.text@,
                base == chars.base_i,
                !current_node.leaf_spec(),
                s == old(chars).text@,
                goal == travel_spec(entries, current_node, s, base, old(chars).char_i as int, old(out)@),
                goal == travel_spec(entries, current_node, s, base, chars.char_i as int, out@),
            decreases chars.char_len - chars.char_i,
        {
            let ghost pos = chars.char_i as int;
            if !current_node.consider_garbage {
                self.skip_garbage(chars, out);
            }
            if chars.char_i >= chars.char_len {
                if current_node.can_end {
                    return Ok(());
                }
                return Err(0);
            }
            let ghost from = chars.char_i as int;
            let ghost out1 = out@;
            let mut paths_vec = self.get_son_array(current_node);
            chars.save();
            let token = self.get_next_token(&mut paths_vec, chars);
            let ghost step = next_token_spec(candidates_of(entries, current_node), s, from);
            let choice = match token {
                Ok(token_string) => self.filter_nodes(&paths_vec, token_string),
                Err(_) => None,
            };
            match choice {
                Some(k) => {
                    let ghost pv = paths_view(paths_vec@);
                    assert(pv[k as int] == paths_vec@[k as int].path@);
                    assert(step.1 > from) by {
                        assert(s.subrange(from, step.1).len() > 0);
                    }
                    let content = chars.get_msg();
                    paths_vec[k].proke_travel_functions(out, content);
                    match self.travel_path(&paths_vec[k], chars, out) {
                        Ok(_) => {
                            return Ok(());
                        },
                        Err(depth) => {
                            if !(current_node.retry >= 0 && current_node.retry as usize == depth) {
                                return Err(depth + 1);
                            }
                        },
                    }
                },
                None => {
                    chars.go_back();
                    if current_node.can_end {
                        return Ok(());
                    }
                    return Err(0);
                },
            }
        }
    }

    /// Matches the nodes of `path` one after the other, up to the first that
    /// fails.
    pub fn travel_path<'a>(
        &'a self,
        path: &Path<'a>,
        chars: &mut TextTraveler,
        out: &mut Vec<TokenizerMessage>,
    ) -> (r: Result<(), usize>)
        requires
            self.wf(),
            old(chars).wf(),
        ensures
            final(chars).wf(),
            final(chars).text == old(chars).text,
            final(chars).base_i == old(chars).base_i,
            final(chars).char_len == old(chars).char_len,
            old(chars).char_i <= final(chars).char_i <= old(chars).char_len,
            final(chars).char_i == travel_path_spec(
                self.group_map.entries@,
                path.path@,
                0,
                old(chars).text@,
                old(chars).base_i,
                old(chars).char_i as int,
                old(out)@,
            ).pos,
            final(out)@ == travel_path_spec(
                self.group_map.entries@,
                path.path@,
                0,
                old(chars).text@,
                old(chars).base_i,
                old(chars).char_i as int,
                old(out)@,
            ).out,
            match r {
                Ok(_) => travel_path_spec(
                    self.group_map.entries@,
                    path.path@,
                    0,
                    old(chars).text@,
                    old(chars).base_i,
                    old(chars).char_i as int,
                    old(out)@,
                ).err is None,
                Err(d) => travel_path_spec(
                    self.group_map.entries@,
                    path.path@,
                    0,
                    old(chars).text@,
                    old(chars).base_i,
                    old(chars).char_i as int,
                    old(out)@,
                ).err == Some(d as nat) && d <= old(chars).char_len - old(chars).char_i,
            },
        decreases old(chars).char_len - old(chars).char_i, 1nat,
    {
        let ghost entries = self.group_map.entries@;
        let ghost s = chars.text@;
        let ghost base = chars.base_i;
        let ghost goal = travel_path_spec(entries, path.path@, 0, s, base, chars.char_i as int, out@);
        let mut k: usize = 0;
        while k < path.path.len()
            invariant
                self.wf(),
                chars.wf(),
                chars.text == old(chars).text,
                chars.base_i == old(chars).base_i,
                chars.char_len == old(chars).char_len,
                old(chars).char_i <= chars.char_i <= chars.char_len,
                entries == self.group_map.entries@,
                s == chars.text@,
                base == chars.base_i,
                k <= path.path@.len(),
                s == old(chars).text@,
                goal == travel_path_spec(
                    entries,
                    path.path@,
                    0,
                    s,
                    base,
                    old(chars).char_i as int,
                    old(out)@,
                ),
                goal == travel_path_spec(entries, path.path@, k as int, s, base, chars.char_i as int, out@),
            decreases path.path@.len() - k,
        {
            let ghost pos0 = chars.char_i as int;
            let ghost out0 = out@;
            let ghost sub = travel_spec(entries, path.path@[k as int], s, base, pos0, out0);
            assert(goal == (if sub.err is Some || sub.pos < pos0 || sub.pos > s.len() {
                sub
            } else {
                travel_path_spec(entries, path.path@, k + 1, s, base, sub.pos, sub.out)
            }));
            match self.travel(path.path[k], chars, out) {
                Ok(_) => {},
                Err(depth) => {
                    assert(sub.err == Some(depth as nat));
                    assert(chars.char_i == sub.pos);
                    assert(out@ == sub.out);
                    return Err(depth);
                },
            }
            k += 1;
        }
        Ok(())
    }
}

impl Tokenizer {
    /// Closes the stream.
    pub fn end(&self, out: &mut Vec<TokenizerMessage>)
        ensures
            final(out)@ == old(out)@.push(TokenizerMessage::End),
    {
        out.push(TokenizerMessage::End);
    }

    /// Matches one logical line, which starts at `base_i` in the source,
    /// against the line subtree, again and again until the line is read.
    /// Fails, behind an error token, at the first match that fails or reads
    /// nothing.
    pub fn tokenize_one_line<'a>(
        &'a self,
        line: &str,
        base_i: usize,
        out: &mut Vec<TokenizerMessage>,
    ) -> (r: Result<(), ()>)
        requires
            self.wf(),
            self.group_map.lookup(TokenType::Line) is Some,
            base_i + bytes_len(line@) <= usize::MAX,
        ensures
            r is Ok == whole_line_spec(
                self.group_map.entries@,
                &self.group_map.lookup(TokenType::Line).unwrap(),
                line@,
                base_i,
                old(out)@,
            ).0,
            final(out)@ == whole_line_spec(
                self.group_map.entries@,
                &self.group_map.lookup(TokenType::Line).unwrap(),
                line@,
                base_i,
                old(out)@,
            ).1,
    {
        let first_node = match self.group_map.get(TokenType::Line) {
            Some(node) => node,
            None => {
                return Err(());
            },
        };
        let ghost entries = self.group_map.entries@;
        let ghost s = line@;
        let mut chars = TextTraveler::new(line, base_i);
        self.skip_garbage(&mut chars, out);
        let ghost goal = whole_line_spec(entries, first_node, s, base_i, old(out)@);
        while chars.char_i < chars.char_len
            invariant
                self.wf(),
                chars.wf(),
                chars.text@ == s,
                chars.base_i == base_i,
                entries == self.group_map.entries@,
                self.group_map.lookup(TokenType::Line) == Some(*first_node),
                s == line@,
                goal == whole_line_spec(entries, first_node, s, base_i, old(out)@),
                goal == line_spec(entries, first_node, s, base_i, chars.char_i as int, out@),
            decreases chars.char_len - chars.char_i,
        {
            let start = chars.char_i;
            let failed = match self.travel(first_node, &mut chars, out) {
                Ok(_) => false,
                Err(_) => true,
            };
            if failed || chars.char_i <= start {
                out.push(TokenizerMessage::Token(Token::error(PARSING_ERROR)));
                return Err(());
            }
            self.skip_garbage(&mut chars, out);
        }
        Ok(())
    }

    /// Tokenizes the whole text: each logical line in turn, a line token
    /// behind the messages of each, up to the first line that fails; the
    /// stream ends with the end marker.
    pub fn tokenize_file(&self) -> (out: Vec<TokenizerMessage>)
        requires
            self.wf(),
            self.group_map.lookup(TokenType::Line) is Some,
        ensures
            out@ == file_spec(
                self.group_map.entries@,
                &self.group_map.lookup(TokenType::Line).unwrap(),
                self.text@,
                0,
                Seq::empty(),
            ),
            out@.len() > 0,
            out@.last() == TokenizerMessage::End,
            crate::stream::well_spanned(out@.drop_last(), bytes_len(self.text@)),
    {
        let mut out: Vec<TokenizerMessage> = Vec::new();
        let text = self.text.as_str();
        let _bytes = byte_length(text);
        let ghost entries = self.group_map.entries@;
        let ghost root = self.group_map.lookup(TokenType::Line).unwrap();
        let ghost s = text@;
        let ghost goal = file_spec(entries, &root, s, 0, Seq::empty());
        let mut chars = TextTraveler::new(text, 0);
        proof {
            crate::stream::lemma_file(entries, &root, s, 0, Seq::empty());
        }
        loop
            invariant_except_break
                goal == file_spec(entries, &root, s, chars.char_i as int, out@),
            invariant
                self.wf(),
                self.group_map.lookup(TokenType::Line) is Some,
                root == self.group_map.lookup(TokenType::Line).unwrap(),
                entries == self.group_map.entries@,
                chars.wf(),
                chars.text@ == s,
                s == self.text@,
                goal == file_spec(entries, &root, s, 0, Seq::empty()),
            ensures
                out@ == goal,
            decreases chars.char_len - chars.char_i,
        {
            let ghost pos = chars.char_i as int;
            proof {
                crate::cursor::lemma_line_start_bounds(s, pos);
            }
            match chars.compute_next_line() {
                Some((line, base_i)) => {
                    proof {
                        lemma_line_bytes(s, chars.char_mark as int, chars.char_i as int);
                    }
                    let failed = match self.tokenize_one_line(line, base_i, &mut out) {
                        Ok(_) => false,
                        Err(_) => true,
                    };
                    if failed {
                        self.end(&mut out);
                        break;
                    }
                    push_token(&mut out, TokenType::Line, (base_i, chars.i), Flag::NoFlag);
                },
                None => {
                    self.end(&mut out);
                    break;
                },
            }
        }
        out
    }
}

} // verus!
