//! Preparing a text before it is tokenized: macro lines, which `$`
//! introduces, and statements, which `;` ends.

use vstd::prelude::*;
use crate::text::{is_white, is_space, skip_white, trimmed, trim, concat2};
use crate::token::TokenizerMessage;
use crate::tokenizer::{Tokenizer, whole_line_spec};
use crate::token::TokenType;

verus! {

/// Index of the first `target` of `s` at or after `i` and before `hi`, or `hi`.
pub open spec fn char_index(s: Seq<char>, target: char, i: int, hi: int) -> int
    decreases hi - i,
{
    if 0 <= i < hi <= s.len() {
        if s[i] == target {
            i
        } else {
            char_index(s, target, i + 1, hi)
        }
    } else {
        hi
    }
}

pub proof fn lemma_char_index_bounds(s: Seq<char>, target: char, i: int, hi: int)
    requires
        0 <= i <= hi <= s.len(),
    ensures
        i <= char_index(s, target, i, hi) <= hi,
    decreases hi - i,
{
    if i < hi && s[i] != target {
        lemma_char_index_bounds(s, target, i + 1, hi);
    }
}

/// End of the word that starts at `i`: the first white space at or after
/// `i`, or the length.
pub open spec fn word_end(s: Seq<char>, i: int) -> int
    decreases s.len() - i,
{
    if 0 <= i < s.len() && !is_white(s[i]) {
        word_end(s, i + 1)
    } else {
        i
    }
}

pub proof fn lemma_word_end_bounds(s: Seq<char>, i: int)
    requires
        0 <= i <= s.len(),
    ensures
        i <= word_end(s, i) <= s.len(),
    decreases s.len() - i,
{
    if i < s.len() && !is_white(s[i]) {
        lemma_word_end_bounds(s, i + 1);
    }
}

/// The first word of `s`: what stands between its leading white space and
/// the next white space. Empty where `s` holds no word.
pub open spec fn first_word(s: Seq<char>) -> Seq<char> {
    s.subrange(skip_white(s, 0), word_end(s, skip_white(s, 0)))
}

/// The macro line of `s`, which holds a `$`: what follows the first `$` up
/// to the end of its line, the next `$` or the end of the text.
pub open spec fn macro_line(s: Seq<char>) -> Seq<char> {
    let start = char_index(s, '$', 0, s.len() as int) + 1;
    let stop = char_index(s, '$', start, s.len() as int);
    s.subrange(start, char_index(s, '\n', start, stop))
}

/// The message that refuses the macro line `m`.
pub open spec fn unknown_macro(m: Seq<char>) -> Seq<char> {
    "Unknow token: "@ + first_word(m)
}

/// Where the statement that starts at `i` ends: behind the first `;` that
/// stands outside single quotes, or at the end of the text. `quote` tells
/// whether a quoted text is open at `i`.
pub open spec fn query_end(s: Seq<char>, i: int, quote: bool) -> int
    decreases s.len() - i,
{
    if 0 <= i < s.len() {
        if s[i] == ';' && !quote {
            i + 1
        } else {
            query_end(s, i + 1, if s[i] == '\'' {
                !quote
            } else {
                quote
            })
        }
    } else {
        i
    }
}

pub proof fn lemma_query_end_bounds(s: Seq<char>, i: int, quote: bool)
    requires
        0 <= i <= s.len(),
    ensures
        i <= query_end(s, i, quote) <= s.len(),
        i < s.len() ==> i < query_end(s, i, quote),
    decreases s.len() - i,
{
    if i < s.len() && !(s[i] == ';' && !quote) {
        lemma_query_end_bounds(s, i + 1, if s[i] == '\'' {
            !quote
        } else {
            quote
        });
    }
}

/// The statement is complete: nothing was read, or the last character read
/// is `;`.
pub open spec fn query_closed(s: Seq<char>, from: int, end: int) -> bool {
    end <= from || s[end - 1] == ';'
}

/// Reads the next statement of `text` from `from` on. Returns where the
/// reading stopped and the statement, trimmed: as `Ok` where it is complete
/// or empty, as `Err` where the text ends before its `;`.
pub fn compute_next_query<'a>(text: &'a str, from: usize) -> (r: (Result<&'a str, &'a str>, usize))
    requires
        from <= text@.len(),
    ensures
        r.1 == query_end(text@, from as int, false),
        from <= r.1 <= text@.len(),
        from < text@.len() ==> from < r.1,
        match r.0 {
            Ok(q) => q@ == trimmed(text@.subrange(from as int, r.1 as int)) && (query_closed(
                text@,
                from as int,
                r.1 as int,
            ) || q@.len() == 0),
            Err(q) => q@ == trimmed(text@.subrange(from as int, r.1 as int)) && !query_closed(
                text@,
                from as int,
                r.1 as int,
            ) && q@.len() > 0,
        },
{
    let n = text.unicode_len();
    let mut i: usize = from;
    let mut last: char = ';';
    let mut quote = false;
    proof {
        lemma_query_end_bounds(text@, from as int, false);
    }
    let ghost end = query_end(text@, from as int, false);
    while i < n
        invariant_except_break
            query_end(text@, i as int, quote) == end,
        invariant
            n == text@.len(),
            from <= i <= n,
            from <= end <= n,
            from < n ==> from < end,
            end == query_end(text@, from as int, false),
            i == from ==> last == ';',
            i > from ==> last == text@[i - 1],
        ensures
            i == end,
            i > from ==> last == text@[i - 1],
            i == from ==> last == ';',
        decreases n - i,
    {
        let c = text.get_char(i);
        last = c;
        i += 1;
        if c == ';' && !quote {
            break;
        }
        if c == '\'' {
            quote = !quote;
        }
    }
    let query = trim(text.substring_char(from, i));
    if last != ';' && query.unicode_len() > 0 {
        (Err(query), i)
    } else {
        (Ok(query), i)
    }
}

impl Tokenizer {
    /// Reads a macro line. No macro is known: every line is refused, with
    /// its first word in the message.
    pub fn new_precompile_macro(&self, m: &str, _current_file_path: &str) -> (r: Result<
        String,
        String,
    >)
        ensures
            r matches Err(e) && e@ == unknown_macro(m@),
    {
        let n = m.unicode_len();
        let mut a: usize = 0;
        while a < n && is_space(m.get_char(a))
            invariant
                n == m@.len(),
                a <= n,
                skip_white(m@, a as int) == skip_white(m@, 0),
            decreases n - a,
        {
            a += 1;
        }
        let mut b: usize = a;
        while b < n && !is_space(m.get_char(b))
            invariant
                n == m@.len(),
                a <= b <= n,
                word_end(m@, b as int) == word_end(m@, a as int),
            decreases n - b,
        {
            b += 1;
        }
        Err(concat2("Unknow token: ", m.substring_char(a, b)))
    }

    /// Expands the macro lines of `input`. A text without `$` is returned as
    /// it is; else the first macro line is read, and refused.
    pub fn precompile(&self, input: &str, current_file_path: &str) -> (r: Result<String, String>)
        ensures
            char_index(input@, '$', 0, input@.len() as int) >= input@.len() ==> (r matches Ok(t)
                && t@ == input@),
            char_index(input@, '$', 0, input@.len() as int) < input@.len() ==> (r matches Err(e)
                && e@ == unknown_macro(macro_line(input@))),
    {
        let n = input.unicode_len();
        let dollar = find_char(input, '$', 0, n);
        if dollar >= n {
            return Ok(String::from_str(input));
        }
        let start = dollar + 1;
        let stop = find_char(input, '$', start, n);
        let end = find_char(input, '\n', start, stop);
        self.new_precompile_macro(input.substring_char(start, end), current_file_path)
    }

    /// Tokenizes one statement as a single line, and closes the stream.
    pub fn tokenize_query(&self, query: &str) -> (out: Vec<TokenizerMessage>)
        requires
            self.wf(),
            self.group_map.lookup(TokenType::Line) is Some,
        ensures
            out@ == whole_line_spec(
                self.group_map.entries@,
                &self.group_map.lookup(TokenType::Line).unwrap(),
                query@,
                0,
                Seq::empty(),
            ).1.push(TokenizerMessage::End),
    {
        let mut out: Vec<TokenizerMessage> = Vec::new();
        // The bytes of a text fit the machine's integers.
        let _bytes = crate::bytes::byte_length(query);
        let _ = self.tokenize_one_line(query, 0, &mut out);
        self.end(&mut out);
        out
    }
}

/// Position of the first `target` of `s` at or after `from` and before
/// `hi`, or `hi`.
pub fn find_char(s: &str, target: char, from: usize, hi: usize) -> (r: usize)
    requires
        from <= hi <= s@.len(),
    ensures
        r == char_index(s@, target, from as int, hi as int),
        from <= r <= hi,
{
    let mut i: usize = from;
    proof {
        lemma_char_index_bounds(s@, target, from as int, hi as int);
    }
    while i < hi && s.get_char(i) != target
        invariant
            from <= i <= hi <= s@.len(),
            char_index(s@, target, i as int, hi as int) == char_index(
                s@,
                target,
                from as int,
                hi as int,
            ),
        decreases hi - i,
    {
        i += 1;
    }
    i
}

} // verus!
