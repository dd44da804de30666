//! A string under construction, which can be taken out whole.

use vstd::prelude::*;
use std::collections::hash_map::DefaultHasher;
use std::hash::Hasher;
use vstd::std_specs::hash::DefaultHasherAdditionalSpecFns;

verus! {

pub struct StringBuilder {
    string: String,
}

impl View for StringBuilder {
    type V = Seq<char>;

    /// The text built so far.
    closed spec fn view(&self) -> Seq<char> {
        self.string@
    }
}

/// What `Hash::hash` of a string that reads `s` writes to a hasher. It goes
/// by the text alone: strings that are equal hash equally.
pub uninterp spec fn string_writes(s: Seq<char>) -> Seq<Seq<u8>>;

/// `Hash::hash` of a string: feeds `s` to the hasher, which takes what a
/// string of that text writes behind what it was fed before. Which bytes
/// these are is not claimed.
#[verifier::external_body]
fn feed(s: &String, hasher: &mut DefaultHasher)
    ensures
        final(hasher)@ == old(hasher)@ + string_writes(s@),
{
    std::hash::Hash::hash(s, hasher);
}

/// The number that stands for the text `s`: half of what the default hasher
/// gives once it was fed a string of that text and nothing else.
pub open spec fn hash_of(s: Seq<char>) -> int {
    (DefaultHasher::spec_finish(string_writes(s)) as int) / 2
}

/// Half of `h`, which fits a signed integer.
pub fn halve(h: u64) -> (r: i64)
    ensures
        r == h / 2,
        r >= 0,
{
    (h / 2) as i64
}

impl StringBuilder {
    pub fn new() -> (r: StringBuilder)
        ensures
            r@ == Seq::<char>::empty(),
    {
        StringBuilder { string: String::new() }
    }

    pub fn from_string(s: String) -> (r: StringBuilder)
        ensures
            r@ == s@,
    {
        StringBuilder { string: s }
    }

    /// The text built so far.
    pub fn string(&self) -> (r: &String)
        ensures
            r@ == self@,
    {
        &self.string
    }

    /// Takes the text out and leaves the builder empty.
    pub fn extract(&mut self) -> (r: String)
        ensures
            r@ == old(self)@,
            final(self)@ == Seq::<char>::empty(),
    {
        let mut taken = String::new();
        core::mem::swap(&mut self.string, &mut taken);
        taken
    }

    /// Appends `c` to the text.
    pub fn new_char(&mut self, c: String)
        ensures
            final(self)@ == old(self)@ + c@,
    {
        self.string.append(c.as_str());
    }

    /// A number that stands for the text, never negative: half of what the
    /// standard library's default hasher gives for it.
    pub fn hash(&self) -> (r: i64)
        ensures
            r == hash_of(self@),
            r >= 0,
    {
        let mut hasher = DefaultHasher::new();
        feed(&self.string, &mut hasher);
        assert(hasher@ =~= string_writes(self.string@));
        halve(hasher.finish())
    }

    pub fn is_empty(&self) -> (r: bool)
        ensures
            r == (self@.len() == 0),
    {
        self.string.as_str().unicode_len() == 0
    }
}

} // verus!
