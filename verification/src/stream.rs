//! What holds of every stream that the tokenizer emits: nothing sent is
//! taken back, every span lies in the source, and the end marker comes once,
//! at the end.

use vstd::prelude::*;
use crate::token::{Content, Token, TokenizerMessage};
use crate::grammar::{Node, reaction_messages};
use crate::cursor::{line_start, line_end, lemma_line_start_bounds, lemma_line_end_bounds};
use crate::text::trimmed_end;
use crate::bytes::{bytes_upto, bytes_len, lemma_bytes_monotone};
use crate::candidates::{class_of, CharClass};
use crate::tokenizer::{travel_spec, travel_path_spec, line_spec, whole_line_spec, file_spec, next_token_spec, candidates_of, garbage_end, garbage_breaks, back_lines, lemma_garbage_end_bounds, lemma_run_end_bounds, consume_run, error_message, line_message, lemma_line_bytes};

verus! {

/// The token carries no span, or one that is in order and ends within byte
/// `limit`.
pub open spec fn span_within(t: Token, limit: int) -> bool {
    match t.content {
        Content::Span(from, to) => from <= to <= limit,
        Content::Text(_) => true,
    }
}

/// Every message is a token, and the span of each that carries one is in
/// order and ends within byte `limit`.
pub open spec fn well_spanned(msgs: Seq<TokenizerMessage>, limit: int) -> bool {
    forall|i: int|
        0 <= i < msgs.len() ==> (#[trigger] msgs[i] matches TokenizerMessage::Token(t)
            && span_within(t, limit))
}

/// The stream `b` starts with the stream `a`.
pub open spec fn extends(a: Seq<TokenizerMessage>, b: Seq<TokenizerMessage>) -> bool {
    a.len() <= b.len() && forall|i: int| 0 <= i < a.len() ==> a[i] == b[i]
}

pub proof fn lemma_reactions_spanned(path: Seq<&Node>, content: (usize, usize), limit: int)
    requires
        content.0 <= content.1 <= limit,
    ensures
        well_spanned(reaction_messages(path, content), limit),
    decreases path.len(),
{
    if path.len() > 0 {
        lemma_reactions_spanned(path.drop_last(), content, limit);
    }
}

/// The token that is read at `i` ends behind `i` and within the text.
pub proof fn lemma_next_token_bounds(paths: Seq<Seq<&Node>>, s: Seq<char>, i: int)
    requires
        0 <= i < s.len(),
    ensures
        i <= next_token_spec(paths, s, i).1 <= s.len(),
{
    match class_of(s[i]) {
        None => {},
        Some(class) => {
            lemma_run_end_bounds(s, i + 1, class);
            let e1 = consume_run(s, i, class);
            if e1 < s.len() {
                lemma_run_end_bounds(s, e1 + 1, CharClass::Alnum);
            }
        },
    }
}

/// A match moves the cursor forward only and within the line; it keeps
/// what was emitted before it, and what it emits are tokens whose spans lie
/// in the line.
pub proof fn lemma_travel(
    entries: Seq<Node>,
    node: &Node,
    s: Seq<char>,
    base: usize,
    pos: int,
    out: Seq<TokenizerMessage>,
    limit: int,
)
    requires
        0 <= pos <= s.len(),
        base + bytes_len(s) <= limit <= usize::MAX,
        well_spanned(out, limit),
    ensures
        pos <= travel_spec(entries, node, s, base, pos, out).pos <= s.len(),
        extends(out, travel_spec(entries, node, s, base, pos, out).out),
        well_spanned(travel_spec(entries, node, s, base, pos, out).out, limit),
    decreases s.len() - pos, 0nat, 0nat,
{
    lemma_bytes_monotone(s, 0, s.len() as int);
    if !node.leaf_spec() {
        lemma_garbage_end_bounds(s, pos);
        let from = if node.consider_garbage {
            pos
        } else {
            garbage_end(s, pos)
        };
        let out1 = if node.consider_garbage {
            out
        } else {
            out + back_lines(garbage_breaks(s, pos))
        };
        assert(extends(out, out1));
        assert(well_spanned(out1, limit));
        if !(from >= s.len() || from < pos) {
            let step = next_token_spec(candidates_of(entries, node), s, from);
            lemma_next_token_bounds(candidates_of(entries, node), s, from);
            let choice = if step.0 {
                crate::candidates::best(step.2, s.subrange(from, step.1))
            } else {
                None
            };
            match choice {
                None => {},
                Some(k) => {
                    let path = step.2[k];
                    lemma_bytes_monotone(s, from, step.1);
                    lemma_bytes_monotone(s, step.1, s.len() as int);
                    let content = (
                        (bytes_upto(s, from) + base) as usize,
                        (bytes_upto(s, step.1) + base) as usize,
                    );
                    lemma_reactions_spanned(path, content, limit);
                    let out2 = out1 + reaction_messages(path, content);
                    assert(extends(out, out2));
                    assert(well_spanned(out2, limit));
                    if !(step.1 <= pos || step.1 > s.len()) {
                        lemma_travel_path(entries, path, 0, s, base, step.1, out2, limit);
                        let sub = travel_path_spec(entries, path, 0, s, base, step.1, out2);
                        assert(extends(out, sub.out));
                        match sub.err {
                            None => {},
                            Some(d) => {
                                if crate::tokenizer::retries_on(node, d) {
                                    if pos < sub.pos <= s.len() {
                                        lemma_travel(entries, node, s, base, sub.pos, sub.out, limit);
                                        let again = travel_spec(
                                            entries,
                                            node,
                                            s,
                                            base,
                                            sub.pos,
                                            sub.out,
                                        );
                                        assert(extends(out, again.out));
                                    }
                                }
                            },
                        }
                    }
                },
            }
        }
    }
}

/// The same of the nodes of a path matched one after the other.
pub proof fn lemma_travel_path(
    entries: Seq<Node>,
    path: Seq<&Node>,
    k: int,
    s: Seq<char>,
    base: usize,
    pos: int,
    out: Seq<TokenizerMessage>,
    limit: int,
)
    requires
        0 <= pos <= s.len(),
        base + bytes_len(s) <= limit <= usize::MAX,
        well_spanned(out, limit),
    ensures
        pos <= travel_path_spec(entries, path, k, s, base, pos, out).pos <= s.len(),
        extends(out, travel_path_spec(entries, path, k, s, base, pos, out).out),
        well_spanned(travel_path_spec(entries, path, k, s, base, pos, out).out, limit),
    decreases s.len() - pos, 1nat, path.len() - k,
{
    if !(k < 0 || k >= path.len()) {
        lemma_travel(entries, path[k], s, base, pos, out, limit);
        let r = travel_spec(entries, path[k], s, base, pos, out);
        if !(r.err is Some || r.pos < pos || r.pos > s.len()) {
            lemma_travel_path(entries, path, k + 1, s, base, r.pos, r.out, limit);
            let rest = travel_path_spec(entries, path, k + 1, s, base, r.pos, r.out);
            assert(extends(out, rest.out));
        }
    }
}

/// The stream of a text keeps what was emitted before it; it ends with the
/// end marker, and all that stands before the marker are tokens whose spans
/// lie within the bytes of the text.
pub proof fn lemma_file(
    entries: Seq<Node>,
    root: &Node,
    s: Seq<char>,
    pos: int,
    out: Seq<TokenizerMessage>,
)
    requires
        0 <= pos <= s.len(),
        bytes_len(s) <= usize::MAX,
        well_spanned(out, bytes_len(s)),
    ensures
        extends(out, file_spec(entries, root, s, pos, out)),
        file_spec(entries, root, s, pos, out).len() > 0,
        file_spec(entries, root, s, pos, out).last() == TokenizerMessage::End,
        well_spanned(file_spec(entries, root, s, pos, out).drop_last(), bytes_len(s)),
    decreases s.len() - pos,
{
    let limit = bytes_len(s);
    lemma_bytes_monotone(s, 0, s.len() as int);
    let start = line_start(s, pos);
    lemma_line_start_bounds(s, pos);
    assert(out.push(TokenizerMessage::End).drop_last() =~= out);
    if !(start >= s.len()) {
        let end = line_end(s, start, '\n');
        lemma_line_end_bounds(s, start, '\n');
        let part = s.subrange(start, end);
        let line = trimmed_end(part);
        lemma_line_bytes(s, start, end);
        lemma_bytes_monotone(s, start, end);
        let base = bytes_upto(s, start) as usize;
        lemma_whole_line(entries, root, line, base, out, limit);
        let res = whole_line_spec(entries, root, line, base, out);
        if !res.0 {
            assert(res.1.push(TokenizerMessage::End).drop_last() =~= res.1);
            assert(extends(out, res.1.push(TokenizerMessage::End)));
        } else {
            let next = res.1.push(line_message(bytes_upto(s, start), bytes_upto(s, end)));
            assert(extends(out, next));
            assert(well_spanned(next, limit));
            lemma_file(entries, root, s, end, next);
            assert(extends(out, file_spec(entries, root, s, end, next)));
        }
    }
}

/// A whole line that ends within `limit` keeps what was emitted before it,
/// and what it emits are tokens whose spans end within `limit`.
pub proof fn lemma_whole_line(
    entries: Seq<Node>,
    root: &Node,
    s: Seq<char>,
    base: usize,
    out: Seq<TokenizerMessage>,
    limit: int,
)
    requires
        base + bytes_len(s) <= limit <= usize::MAX,
        well_spanned(out, limit),
    ensures
        extends(out, whole_line_spec(entries, root, s, base, out).1),
        well_spanned(whole_line_spec(entries, root, s, base, out).1, limit),
{
    lemma_bytes_monotone(s, 0, s.len() as int);
    lemma_garbage_end_bounds(s, 0);
    let first = out + back_lines(garbage_breaks(s, 0));
    assert(extends(out, first));
    assert(well_spanned(first, limit));
    lemma_line(entries, root, s, base, garbage_end(s, 0), first, limit);
}

/// A line matched from `pos` on keeps what was emitted before it, and what
/// it emits are tokens whose spans end within `limit`.
pub proof fn lemma_line(
    entries: Seq<Node>,
    root: &Node,
    s: Seq<char>,
    base: usize,
    pos: int,
    out: Seq<TokenizerMessage>,
    limit: int,
)
    requires
        0 <= pos <= s.len(),
        base + bytes_len(s) <= limit <= usize::MAX,
        well_spanned(out, limit),
    ensures
        extends(out, line_spec(entries, root, s, base, pos, out).1),
        well_spanned(line_spec(entries, root, s, base, pos, out).1, limit),
    decreases s.len() - pos,
{
    lemma_bytes_monotone(s, 0, s.len() as int);
    if pos < s.len() {
        lemma_travel(entries, root, s, base, pos, out, limit);
        let o = travel_spec(entries, root, s, base, pos, out);
        if o.err is Some || o.pos <= pos || o.pos > s.len() {
            assert(extends(out, o.out.push(error_message())));
        } else {
            lemma_garbage_end_bounds(s, o.pos);
            let resume = garbage_end(s, o.pos);
            let out2 = o.out + back_lines(garbage_breaks(s, o.pos));
            assert(extends(out, out2));
            assert(well_spanned(out2, limit));
            if !(resume < o.pos || resume > s.len()) {
                lemma_line(entries, root, s, base, resume, out2, limit);
                assert(extends(out, line_spec(entries, root, s, base, resume, out2).1));
            }
        }
    }
}

} // verus!
