//! The language of rule expressions: alternatives separated by `|`, each a
//! sequence of terms separated by `&`, each term a label with optional
//! arguments between braces.

use vstd::prelude::*;
use crate::text::{trimmed, trim, str_eq, lemma_trim_bounds, lemma_trimmed_idempotent};
use crate::rule_tree::texts;
use crate::interpreteur::Interpreteur;

verus! {

/// The parenthesis depth behind the character `c`, read at depth `depth`.
/// A closing parenthesis at depth 0 leaves the depth at 0, and inside a
/// quoted string parentheses are text.
pub open spec fn depth_after(depth: int, c: char, quote: bool) -> int {
    if quote {
        depth
    } else if c == '(' {
        depth + 1
    } else if c == ')' {
        if depth > 0 {
            depth - 1
        } else {
            0
        }
    } else {
        depth
    }
}

/// Whether a quoted string is open behind the character `c`.
pub open spec fn quote_after(quote: bool, c: char) -> bool {
    if c == '"' {
        !quote
    } else {
        quote
    }
}

/// The character `c` separates: it is the separator `stop`, outside
/// parentheses and outside quotes.
pub open spec fn is_separator(c: char, stop: char, depth: int, quote: bool) -> bool {
    c != '(' && c != ')' && c != '"' && c == stop && !quote && depth == 0
}

/// Index of the first separator `stop` of `s` at or after `i`, read with the
/// depth and quote state that hold at `i`; the length where there is none.
pub open spec fn sep_index(s: Seq<char>, stop: char, i: int, depth: int, quote: bool) -> int
    decreases s.len() - i,
{
    if 0 <= i < s.len() {
        if is_separator(s[i], stop, depth, quote) {
            i
        } else {
            sep_index(s, stop, i + 1, depth_after(depth, s[i], quote), quote_after(quote, s[i]))
        }
    } else {
        s.len() as int
    }
}

pub proof fn lemma_sep_index_bounds(s: Seq<char>, stop: char, i: int, depth: int, quote: bool)
    requires
        0 <= i <= s.len(),
    ensures
        i <= sep_index(s, stop, i, depth, quote) <= s.len(),
    decreases s.len() - i,
{
    if i < s.len() && !is_separator(s[i], stop, depth, quote) {
        lemma_sep_index_bounds(
            s,
            stop,
            i + 1,
            depth_after(depth, s[i], quote),
            quote_after(quote, s[i]),
        );
    }
}

/// How many characters the separator at `k` takes: two where it is doubled.
pub open spec fn sep_width(s: Seq<char>, stop: char, k: int) -> int {
    if k + 1 < s.len() && s[k + 1] == stop {
        2
    } else {
        1
    }
}

/// Index of the `)` that closes the parentheses open at `i`, of which
/// `depth` are open; the length where none does. Parentheses inside a
/// quoted string are text and close nothing.
pub open spec fn close_index(s: Seq<char>, i: int, depth: int, quote: bool) -> int
    decreases s.len() - i,
{
    if 0 <= i < s.len() {
        if quote {
            close_index(s, i + 1, depth, s[i] != '"')
        } else if s[i] == '"' {
            close_index(s, i + 1, depth, true)
        } else if s[i] == '(' {
            close_index(s, i + 1, depth + 1, false)
        } else if s[i] == ')' {
            if depth <= 1 {
                i
            } else {
                close_index(s, i + 1, depth - 1, false)
            }
        } else {
            close_index(s, i + 1, depth, false)
        }
    } else {
        s.len() as int
    }
}

/// The whole of `s` stands between one pair of parentheses: it starts with
/// `(`, and the `)` that closes it is its last character.
pub open spec fn is_wrapped(s: Seq<char>) -> bool {
    s.len() >= 2 && s[0] == '(' && close_index(s, 1, 1, false) == s.len() - 1
}

/// The first part of `s` up to its first separator `stop`, what follows the
/// separator, both trimmed, and whether there is a separator. An expression
/// without separator that stands as a whole between one pair of parentheses
/// is read without them; any other is returned trimmed, as it is.
pub open spec fn next_expr(s: Seq<char>, stop: char) -> (Seq<char>, Seq<char>, bool)
    decreases s.len(),
{
    let k = sep_index(s, stop, 0, 0, false);
    if 0 <= k < s.len() {
        (
            trimmed(s.subrange(0, k)),
            trimmed(s.subrange(k + sep_width(s, stop, k), s.len() as int)),
            true,
        )
    } else if is_wrapped(s) {
        let inner = trimmed(s.subrange(1, s.len() - 1));
        if inner.len() < s.len() {
            next_expr(inner, stop)
        } else {
            (inner, Seq::empty(), false)
        }
    } else {
        (trimmed(s), Seq::empty(), false)
    }
}

/// Both parts are no longer than the expression, and what follows a
/// separator is shorter.
pub proof fn lemma_next_expr_len(s: Seq<char>, stop: char)
    ensures
        next_expr(s, stop).0.len() <= s.len(),
        next_expr(s, stop).1.len() <= s.len(),
        s.len() > 0 ==> next_expr(s, stop).1.len() < s.len(),
    decreases s.len(),
{
    let k = sep_index(s, stop, 0, 0, false);
    lemma_sep_index_bounds(s, stop, 0, 0, false);
    if 0 <= k < s.len() {
        lemma_trim_bounds(s.subrange(0, k));
        lemma_trim_bounds(s.subrange(k + sep_width(s, stop, k), s.len() as int));
    } else if is_wrapped(s) {
        let inner = trimmed(s.subrange(1, s.len() - 1));
        lemma_trim_bounds(s.subrange(1, s.len() - 1));
        lemma_next_expr_len(inner, stop);
    } else {
        lemma_trim_bounds(s);
    }
}

/// Both parts come trimmed.
pub proof fn lemma_next_expr_trimmed(s: Seq<char>, stop: char)
    ensures
        trimmed(next_expr(s, stop).0) == next_expr(s, stop).0,
        trimmed(next_expr(s, stop).1) == next_expr(s, stop).1,
    decreases s.len(),
{
    let k = sep_index(s, stop, 0, 0, false);
    assert(trimmed(Seq::<char>::empty()) =~= Seq::<char>::empty());
    if 0 <= k < s.len() {
        lemma_trimmed_idempotent(s.subrange(0, k));
        lemma_trimmed_idempotent(s.subrange(k + sep_width(s, stop, k), s.len() as int));
    } else if is_wrapped(s) {
        let inner = trimmed(s.subrange(1, s.len() - 1));
        lemma_trimmed_idempotent(s.subrange(1, s.len() - 1));
        if inner.len() < s.len() {
            lemma_next_expr_trimmed(inner, stop);
        }
    } else {
        lemma_trimmed_idempotent(s);
    }
}

impl<'a> Interpreteur<'a> {
    /// Tells whether the whole of `s` stands between one pair of parentheses.
pub fn wrapped(s: &str) -> (r: bool)
    ensures
        r == is_wrapped(s@),
{
    let n = s.unicode_len();
    if n < 2 || s.get_char(0) != '(' {
        return false;
    }
    let mut i: usize = 1;
    let mut depth: usize = 1;
    let mut quote = false;
    while i < n
        invariant
            n == s@.len(),
            1 <= i <= n,
            n >= 2,
            s@[0] == '(',
            1 <= depth <= i,
            close_index(s@, i as int, depth as int, quote) == close_index(s@, 1, 1, false),
        decreases n - i,
    {
        let c = s.get_char(i);
        if quote {
            quote = c != '"';
        } else if c == '"' {
            quote = true;
        } else if c == '(' {
            depth += 1;
        } else if c == ')' {
            if depth <= 1 {
                return i == n - 1;
            }
            depth -= 1;
        }
        i += 1;
    }
    false
}

/// Splits `expr` at its first separator `stop_char` that stands outside
    /// parentheses and quotes.
    pub fn get_next_expr(expr: &'a str, stop_char: char) -> (r: (&'a str, &'a str, bool))
        ensures
            r.0@ == next_expr(expr@, stop_char).0,
            r.1@ == next_expr(expr@, stop_char).1,
            r.2 == next_expr(expr@, stop_char).2,
    {
        let mut cur: &'a str = expr;
        loop
            invariant
                next_expr(cur@, stop_char) == next_expr(expr@, stop_char),
            decreases cur@.len(),
        {
            let n: usize = cur.unicode_len();
            let mut i: usize = 0;
            let mut depth: usize = 0;
            let mut quote = false;
            let mut found = false;
            proof {
                lemma_sep_index_bounds(cur@, stop_char, 0, 0, false);
            }
            while i < n && !found
                invariant
                    n == cur@.len(),
                    i <= n,
                    depth <= i,
                    !found ==> sep_index(cur@, stop_char, i as int, depth as int, quote) == sep_index(
                        cur@,
                        stop_char,
                        0,
                        0,
                        false,
                    ),
                    found ==> i < n && i == sep_index(cur@, stop_char, 0, 0, false),
                decreases n - i + (if found { 0int } else { 1int }),
            {
                let c = cur.get_char(i);
                if c == '(' {
                    if !quote {
                        depth += 1;
                    }
                    i += 1;
                } else if c == ')' {
                    if !quote && depth > 0 {
                        depth -= 1;
                    }
                    i += 1;
                } else if c == '"' {
                    quote = !quote;
                    i += 1;
                } else if c == stop_char && !quote && depth == 0 {
                    found = true;
                } else {
                    i += 1;
                }
            }
            if found {
                let width: usize = if i + 1 < n && cur.get_char(i + 1) == stop_char {
                    2
                } else {
                    1
                };
                let head = trim(cur.substring_char(0, i));
                let rest = trim(cur.substring_char(i + width, n));
                return (head, rest, true);
            }
            if Interpreteur::wrapped(cur) {
                let inner = trim(cur.substring_char(1, n - 1));
                proof {
                    lemma_trim_bounds(cur@.subrange(1, n - 1));
                }
                cur = inner;
            } else {
                return (trim(cur), cur.substring_char(n, n), false);
            }
        }
    }
}

/// What an argument of a term is.
pub enum ArgKind {
    /// The keyword `END`: a match may end on the term.
    End,
    /// A quoted literal, here without its quotes.
    Literal(Seq<char>),
    /// Neither: the argument is malformed.
    Bad,
}

/// Reads one trimmed argument.
pub open spec fn arg_kind(arg: Seq<char>) -> ArgKind {
    if arg == "END"@ {
        ArgKind::End
    } else if arg.len() >= 2 && arg[0] == '"' && arg.last() == '"' {
        ArgKind::Literal(arg.subrange(1, arg.len() - 1))
    } else {
        ArgKind::Bad
    }
}

/// Index of the first comma of `a` at or after `i` that stands outside
/// quotes, `quote` telling whether a quoted string is open at `i`.
pub open spec fn next_comma(a: Seq<char>, i: int, quote: bool) -> int
    decreases a.len() - i,
{
    if 0 <= i < a.len() {
        if a[i] == ',' && !quote {
            i
        } else {
            next_comma(a, i + 1, quote_after(quote, a[i]))
        }
    } else {
        a.len() as int
    }
}

pub proof fn lemma_next_comma_bounds(a: Seq<char>, i: int, quote: bool)
    requires
        0 <= i <= a.len(),
    ensures
        i <= next_comma(a, i, quote) <= a.len(),
    decreases a.len() - i,
{
    if i < a.len() && !(a[i] == ',' && !quote) {
        lemma_next_comma_bounds(a, i + 1, quote_after(quote, a[i]));
    }
}

/// The arguments of `a` from `j` on, read one after the other and added to
/// what was read before: whether `END` is among them, and the literals in
/// their order. `None` where an argument is malformed.
pub open spec fn parse_args(a: Seq<char>, j: int, is_end: bool, literals: Seq<Seq<char>>) -> Option<
    (bool, Seq<Seq<char>>),
>
    decreases a.len() - j,
{
    if j < 0 || j > a.len() {
        None
    } else {
        let c = next_comma(a, j, false);
        if c < j || c > a.len() {
            None
        } else {
            match arg_kind(trimmed(a.subrange(j, c))) {
                ArgKind::Bad => None,
                ArgKind::End => if c >= a.len() {
                    Some((true, literals))
                } else {
                    parse_args(a, c + 1, true, literals)
                },
                ArgKind::Literal(text) => if c >= a.len() {
                    Some((is_end, literals.push(text)))
                } else {
                    parse_args(a, c + 1, is_end, literals.push(text))
                },
            }
        }
    }
}

/// A term as it is read: its label, whether it has arguments, whether `END`
/// is among them, and its literals.
pub struct RootSpec {
    pub label: Seq<char>,
    pub has_args: bool,
    pub is_end: bool,
    pub literals: Seq<Seq<char>>,
}

/// Index of the first `{` of `s` at or after `i`, or the length.
pub open spec fn brace_index(s: Seq<char>, i: int) -> int
    decreases s.len() - i,
{
    if 0 <= i < s.len() {
        if s[i] == '{' {
            i
        } else {
            brace_index(s, i + 1)
        }
    } else {
        s.len() as int
    }
}

pub proof fn lemma_brace_index_bounds(s: Seq<char>, i: int)
    requires
        0 <= i <= s.len(),
    ensures
        i <= brace_index(s, i) <= s.len(),
    decreases s.len() - i,
{
    if i < s.len() && s[i] != '{' {
        lemma_brace_index_bounds(s, i + 1);
    }
}

/// Reads the term `s`: the label is what stands before the first `{`,
/// trimmed; the arguments stand between that brace and a closing brace at
/// the end. `None` where the closing brace is missing or an argument is
/// malformed.
pub open spec fn root_spec(s: Seq<char>) -> Option<RootSpec> {
    let k = brace_index(s, 0);
    if k >= s.len() {
        Some(RootSpec { label: trimmed(s), has_args: false, is_end: false, literals: Seq::empty() })
    } else if s.last() != '}' {
        None
    } else {
        match parse_args(s.subrange(k + 1, s.len() - 1), 0, false, Seq::empty()) {
            None => None,
            Some(args) => Some(
                RootSpec {
                    label: trimmed(s.subrange(0, k)),
                    has_args: true,
                    is_end: args.0,
                    literals: args.1,
                },
            ),
        }
    }
}

impl<'a> Interpreteur<'a> {
    /// Reads one argument and adds it to what was read before: `END` sets the
    /// flag, a quoted literal joins the list without its quotes. `None` where
    /// the argument is neither.
    pub fn match_node_arg(arg: &'a str, constraints: Vec<&'a str>, is_end: bool) -> (r: Option<
        (bool, Vec<&'a str>),
    >)
        ensures
            match arg_kind(trimmed(arg@)) {
                ArgKind::Bad => r is None,
                ArgKind::End => r matches Some(p) && p.0 && texts(p.1@) == texts(
                    constraints@,
                ),
                ArgKind::Literal(text) => r matches Some(p) && p.0 == is_end && texts(p.1@)
                    == texts(constraints@).push(text),
            },
    {
        let arg = trim(arg);
        let n = arg.unicode_len();
        if str_eq(arg, "END") {
            Some((true, constraints))
        } else if n >= 2 && arg.get_char(0) == '"' && arg.get_char(n - 1) == '"' {
            let mut constraints = constraints;
            let ghost before = texts(constraints@);
            let text = arg.substring_char(1, n - 1);
            constraints.push(text);
            assert(texts(constraints@) =~= before.push(text@));
            Some((is_end, constraints))
        } else {
            None
        }
    }
}

impl<'a> Interpreteur<'a> {
    /// Reads a term: its label, whether it has arguments, whether a match may
    /// end on it, and the literals that it is restricted to.
    pub fn extract_root(root: &'a str) -> (r: Option<(&'a str, bool, bool, Vec<&'a str>)>)
        ensures
            match root_spec(root@) {
                None => r is None,
                Some(spec) => r matches Some(t) && t.0@ == spec.label && t.1 == spec.has_args && t.2
                    == spec.is_end && texts(t.3@) == spec.literals,
            },
    {
        let n = root.unicode_len();
        let mut k: usize = 0;
        while k < n && root.get_char(k) != '{'
            invariant
                n == root@.len(),
                k <= n,
                brace_index(root@, k as int) == brace_index(root@, 0),
            decreases n - k,
        {
            k += 1;
        }
        if k >= n {
            let constraints: Vec<&'a str> = Vec::new();
            assert(texts(constraints@) =~= Seq::<Seq<char>>::empty());
            return Some((trim(root), false, false, constraints));
        }
        if root.get_char(n - 1) != '}' {
            return None;
        }
        let label = trim(root.substring_char(0, k));
        match read_args(root.substring_char(k + 1, n - 1)) {
            Some(p) => Some((label, true, p.0, p.1)),
            None => None,
        }
    }
}

/// Reads a list of arguments separated by commas that stand outside quotes.
pub fn read_args<'a>(args: &'a str) -> (r: Option<(bool, Vec<&'a str>)>)
    ensures
        match parse_args(args@, 0, false, Seq::empty()) {
            None => r is None,
            Some(spec) => r matches Some(p) && p.0 == spec.0 && texts(p.1@) == spec.1,
        },
{
    let mut constraints: Vec<&'a str> = Vec::new();
    assert(texts(constraints@) =~= Seq::<Seq<char>>::empty());
    let m = args.unicode_len();
    let ghost a = args@;
    let mut is_end = false;
    let mut j: usize = 0;
    let mut i: usize = 0;
    let mut quote = false;
    proof {
        lemma_next_comma_bounds(a, 0, false);
    }
    while i < m
        invariant
            m == a.len(),
            a == args@,
            j <= i <= m,
            next_comma(a, i as int, quote) == next_comma(a, j as int, false),
            parse_args(a, j as int, is_end, texts(constraints@)) == parse_args(
                a,
                0,
                false,
                Seq::empty(),
            ),
        decreases m - i,
    {
        let c = args.get_char(i);
        if c == ',' && !quote {
            match Interpreteur::match_node_arg(args.substring_char(j, i), constraints, is_end) {
                Some(p) => {
                    is_end = p.0;
                    constraints = p.1;
                },
                None => {
                    return None;
                },
            }
            j = i + 1;
            proof {
                lemma_next_comma_bounds(a, j as int, false);
            }
        } else if c == '"' {
            quote = !quote;
        }
        i += 1;
    }
    Interpreteur::match_node_arg(args.substring_char(j, m), constraints, is_end)
}

} // verus!
