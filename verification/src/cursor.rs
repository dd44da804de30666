//! Character classes, and a cursor over one piece of text that marks spans
//! and saves positions to come back to.

use vstd::prelude::*;
use crate::stack::Stack;
use crate::text::{trimmed_end};
use crate::bytes::{bytes_upto, bytes_len, utf8_width, char_width, lemma_bytes_monotone};

verus! {

/// The character that starts a comment, which runs to the end of the line.
pub const COM_CHAR: char = '~';

/// The ten digits `0` to `9`.
pub open spec fn is_number_spec(c: char) -> bool {
    '0' <= c <= '9'
}

/// The letters `A` to `Z` and `a` to `z`, and the underscore.
pub open spec fn is_letter_spec(c: char) -> bool {
    ('A' <= c <= 'Z') || ('a' <= c <= 'z') || c == '_'
}

/// Noise between tokens: space, tab and line break.
pub open spec fn is_garbage_spec(c: char) -> bool {
    c == ' ' || c == '\t' || c == '\n'
}

pub open spec fn is_operator_spec(c: char) -> bool {
    c == '|' || c == '&'
}

/// Every character that is neither digit, letter, noise nor part of an
/// operator.
pub open spec fn is_sign_spec(c: char) -> bool {
    !is_number_spec(c) && !is_letter_spec(c) && !is_garbage_spec(c) && !is_operator_spec(c)
}

pub fn is_number(c: char) -> (r: bool)
    ensures
        r == is_number_spec(c),
{
    '0' <= c && c <= '9'
}

pub fn is_letter(c: char) -> (r: bool)
    ensures
        r == is_letter_spec(c),
{
    ('A' <= c && c <= 'Z') || ('a' <= c && c <= 'z') || c == '_'
}

pub fn is_garbage(c: char) -> (r: bool)
    ensures
        r == is_garbage_spec(c),
{
    c == ' ' || c == '\t' || c == '\n'
}

pub fn is_operator(c: char) -> (r: bool)
    ensures
        r == is_operator_spec(c),
{
    c == '|' || c == '&'
}

pub fn is_sign(c: char) -> (r: bool)
    ensures
        r == is_sign_spec(c),
{
    !is_number(c) && !is_letter(c) && !is_garbage(c) && !is_operator(c)
}

/// Characters that may stand before a line without belonging to it.
pub open spec fn is_line_lead(c: char) -> bool {
    c == '\\' || c == '\n' || c == ' ' || c == '\t'
}

/// Index of the first character at or after `i` that starts a line.
pub open spec fn line_start(s: Seq<char>, i: int) -> int
    decreases s.len() - i,
{
    if 0 <= i < s.len() && is_line_lead(s[i]) {
        line_start(s, i + 1)
    } else {
        i
    }
}

/// Where the cursor stands once it has read the line that runs through `j`:
/// behind the first line break that follows neither a backslash nor another
/// line break, or at the end of the text. `last` is the character before `j`.
pub open spec fn line_end(s: Seq<char>, j: int, last: char) -> int
    decreases s.len() - j,
{
    if 0 <= j < s.len() {
        if s[j] == '\n' && last != '\\' && last != '\n' {
            j + 1
        } else {
            line_end(s, j + 1, s[j])
        }
    } else {
        j
    }
}

pub proof fn lemma_line_start_bounds(s: Seq<char>, i: int)
    requires
        0 <= i <= s.len(),
    ensures
        i <= line_start(s, i) <= s.len(),
    decreases s.len() - i,
{
    if i < s.len() && is_line_lead(s[i]) {
        lemma_line_start_bounds(s, i + 1);
    }
}

pub proof fn lemma_line_end_bounds(s: Seq<char>, j: int, last: char)
    requires
        0 <= j <= s.len(),
    ensures
        j <= line_end(s, j, last) <= s.len(),
        j < s.len() ==> j < line_end(s, j, last),
    decreases s.len() - j,
{
    if j < s.len() && !(s[j] == '\n' && last != '\\' && last != '\n') {
        lemma_line_end_bounds(s, j + 1, s[j]);
    }
}

pub fn is_lead(c: char) -> (r: bool)
    ensures
        r == is_line_lead(c),
{
    c == '\\' || c == '\n' || c == ' ' || c == '\t'
}

/// A cursor over `text`, which is the part of a larger source that starts at
/// byte `base_i` of it. Positions are bytes: `i` is the byte at which the
/// character under the cursor starts, `mark` the byte at which the span
/// starts. The cursor reads by characters, so it keeps the index of each
/// beside its byte: `char_i` and `char_mark`, with `char_len` characters in
/// all. A saved position holds the index and the byte.
pub struct TextTraveler<'a> {
    pub save_stack: Stack<(usize, usize)>,
    pub char_mark: usize,
    pub mark: usize,
    pub base_i: usize,
    pub char_i: usize,
    pub i: usize,
    pub char_len: usize,
    pub text: &'a str,
}

impl<'a> TextTraveler<'a> {
    /// The cursor stands inside its text and every span that it can report
    /// fits the machine's integers.
    pub open spec fn wf(&self) -> bool {
        &&& self.char_len == self.text@.len()
        &&& self.char_i <= self.char_len
        &&& self.char_mark <= self.char_len
        &&& self.i == bytes_upto(self.text@, self.char_i as int)
        &&& self.mark == bytes_upto(self.text@, self.char_mark as int)
        &&& self.base_i + bytes_len(self.text@) <= usize::MAX
        &&& forall|k: int|
            0 <= k < self.save_stack@.len() ==> (#[trigger] self.save_stack@[k]).0 <= self.char_len
                && self.save_stack@[k].1 == bytes_upto(self.text@, self.save_stack@[k].0 as int)
    }

    /// The characters that are left to read.
    pub open spec fn remaining(&self) -> int {
        self.char_len - self.char_i
    }

    pub fn new(text: &'a str, base_i: usize) -> (r: TextTraveler<'a>)
        requires
            base_i + bytes_len(text@) <= usize::MAX,
        ensures
            r.wf(),
            r.text == text,
            r.base_i == base_i,
            r.char_i == 0,
            r.char_mark == 0,
            r.i == 0,
            r.mark == 0,
            r.save_stack@.len() == 0,
    {
        TextTraveler {
            save_stack: Stack::new(),
            char_mark: 0,
            mark: 0,
            base_i,
            char_i: 0,
            i: 0,
            char_len: text.unicode_len(),
            text,
        }
    }

    /// Starts a span at the cursor.
    pub fn mark(&mut self)
        requires
            old(self).wf(),
        ensures
            *final(self) == (TextTraveler {
                char_mark: old(self).char_i,
                mark: old(self).i,
                ..*old(self)
            }),
            final(self).wf(),
    {
        self.char_mark = self.char_i;
        self.mark = self.i;
    }

    /// The text of the span from the mark to the cursor.
    pub fn get(&self) -> (r: &'a str)
        requires
            self.wf(),
            self.char_mark <= self.char_i,
        ensures
            r@ == self.text@.subrange(self.char_mark as int, self.char_i as int),
    {
        self.text.substring_char(self.char_mark, self.char_i)
    }

    /// The span from the mark to the cursor, as bytes of the source.
    pub fn get_msg(&self) -> (r: (usize, usize))
        requires
            self.wf(),
        ensures
            r.0 == self.mark + self.base_i,
            r.1 == self.i + self.base_i,
            r.0 == bytes_upto(self.text@, self.char_mark as int) + self.base_i,
            r.1 == bytes_upto(self.text@, self.char_i as int) + self.base_i,
    {
        proof {
            lemma_bytes_monotone(self.text@, self.char_mark as int, self.char_len as int);
            lemma_bytes_monotone(self.text@, self.char_i as int, self.char_len as int);
        }
        (self.mark + self.base_i, self.i + self.base_i)
    }

    /// Remembers the cursor's position.
    pub fn save(&mut self)
        requires
            old(self).wf(),
        ensures
            *final(self) == (TextTraveler {
                save_stack: final(self).save_stack,
                ..*old(self)
            }),
            final(self).save_stack@ == old(self).save_stack@.push((old(self).char_i, old(self).i)),
            final(self).wf(),
    {
        self.save_stack.push((self.char_i, self.i));
    }

    /// Returns to the position that was remembered last, and forgets it.
    pub fn go_back(&mut self)
        requires
            old(self).wf(),
            old(self).save_stack@.len() > 0,
        ensures
            *final(self) == (TextTraveler {
                save_stack: final(self).save_stack,
                char_i: old(self).save_stack@.last().0,
                i: old(self).save_stack@.last().1,
                ..*old(self)
            }),
            final(self).save_stack@ == old(self).save_stack@.drop_last(),
            final(self).wf(),
    {
        match self.save_stack.pop() {
            Some(saved) => {
                self.char_i = saved.0;
                self.i = saved.1;
            },
            None => {},
        }
    }

    /// Steps over the character under the cursor: one character on, and as
    /// many bytes as the character takes.
    pub fn step(&mut self)
        requires
            old(self).wf(),
            old(self).char_i < old(self).char_len,
        ensures
            final(self).wf(),
            final(self).i == old(self).i + utf8_width(old(self).text@[old(self).char_i as int]),
            *final(self) == (TextTraveler {
                char_i: (old(self).char_i + 1) as usize,
                i: final(self).i,
                ..*old(self)
            }),
    {
        proof {
            lemma_bytes_monotone(self.text@, self.char_i + 1, self.char_len as int);
        }
        self.i += char_width(self.text.get_char(self.char_i));
        self.char_i += 1;
    }

    /// Reads one character and steps over it; at the end, reads nothing.
    pub fn next(&mut self) -> (r: Option<char>)
        requires
            old(self).wf(),
        ensures
            final(self).wf(),
            old(self).char_i < old(self).char_len ==> r == Some(old(self).text@[old(self).char_i as int])
                && *final(self) == (TextTraveler {
                char_i: (old(self).char_i + 1) as usize,
                i: final(self).i,
                ..*old(self)
            }),
            old(self).char_i >= old(self).char_len ==> r is None && *final(self) == *old(self),
            r matches Some(c) ==> final(self).i == old(self).i + utf8_width(c),
    {
        if self.char_i < self.char_len {
            let c = self.text.get_char(self.char_i);
            self.step();
            Some(c)
        } else {
            None
        }
    }

    /// The character under the cursor, if any.
    pub fn peek(&self) -> (r: Option<char>)
        requires
            self.wf(),
        ensures
            self.char_i < self.char_len ==> r == Some(self.text@[self.char_i as int]),
            self.char_i >= self.char_len ==> r is None,
    {
        if self.char_i < self.char_len {
            Some(self.text.get_char(self.char_i))
        } else {
            None
        }
    }

    /// Reads the next logical line: skips what may stand before it, then reads
    /// through the first line break that continues no line. Returns the line
    /// without trailing white space and the byte at which it starts, or
    /// `None` when nothing but such leading characters is left. The mark
    /// stands at the first character of the line.
    pub fn compute_next_line(&mut self) -> (r: Option<(&'a str, usize)>)
        requires
            old(self).wf(),
        ensures
            final(self).wf(),
            final(self).text == old(self).text,
            final(self).base_i == old(self).base_i,
            final(self).save_stack == old(self).save_stack,
            match r {
                None => line_start(old(self).text@, old(self).char_i as int) == old(self).char_len
                    && final(self).char_i == old(self).char_len && final(self).char_mark == old(self).char_mark,
                Some((line, start)) => {
                    &&& final(self).char_mark == line_start(old(self).text@, old(self).char_i as int)
                    &&& final(self).char_mark < old(self).char_len
                    &&& start == bytes_upto(old(self).text@, final(self).char_mark as int)
                    &&& final(self).char_i == line_end(
                        old(self).text@,
                        final(self).char_mark as int,
                        '\n',
                    )
                    &&& final(self).char_mark < final(self).char_i
                    &&& line@ == trimmed_end(
                        old(self).text@.subrange(final(self).char_mark as int, final(self).char_i as int),
                    )
                },
            },
    {
        proof {
            lemma_line_start_bounds(self.text@, self.char_i as int);
        }
        while self.char_i < self.char_len && is_lead(self.text.get_char(self.char_i))
            invariant
                self.wf(),
                self.text == old(self).text,
                self.base_i == old(self).base_i,
                self.save_stack == old(self).save_stack,
                self.char_mark == old(self).char_mark,
                self.char_len == old(self).char_len,
                line_start(self.text@, self.char_i as int) == line_start(
                    old(self).text@,
                    old(self).char_i as int,
                ),
            decreases self.char_len - self.char_i,
        {
            self.step();
        }
        if self.char_i >= self.char_len {
            return None;
        }
        self.mark();
        let mut last: char = '\n';
        proof {
            lemma_line_end_bounds(self.text@, self.char_i as int, '\n');
        }
        let ghost end = line_end(self.text@, self.char_mark as int, '\n');
        while self.char_i < self.char_len
            invariant_except_break
                line_end(self.text@, self.char_i as int, last) == end,
            invariant
                self.wf(),
                self.text == old(self).text,
                self.base_i == old(self).base_i,
                self.save_stack == old(self).save_stack,
                self.char_len == old(self).char_len,
                self.char_mark <= self.char_i,
                self.char_mark == line_start(old(self).text@, old(self).char_i as int),
                self.char_mark < self.char_len,
                self.char_mark < end <= self.char_len,
                end == line_end(self.text@, self.char_mark as int, '\n'),
            ensures
                self.char_i == end,
            decreases self.char_len - self.char_i,
        {
            let c = self.text.get_char(self.char_i);
            self.step();
            if c == '\n' && last != '\\' && last != '\n' {
                break;
            }
            last = c;
        }
        let line = self.text.substring_char(self.char_mark, self.char_i);
        Some((crate::text::trim_end(line), self.mark))
    }

    /// Steps over one character and hands it back as a slice.
    pub fn str_next(&mut self) -> (r: &'a str)
        requires
            old(self).wf(),
            old(self).char_i < old(self).char_len,
        ensures
            final(self).wf(),
            *final(self) == (TextTraveler {
                char_i: (old(self).char_i + 1) as usize,
                i: final(self).i,
                ..*old(self)
            }),
            r@ == old(self).text@.subrange(old(self).char_i as int, old(self).char_i + 1),
    {
        self.step();
        self.text.substring_char(self.char_i - 1, self.char_i)
    }
}

} // verus!
