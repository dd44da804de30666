//! The candidate continuations of a match: how they are pruned by what the
//! next character can start, and how the best one is chosen for a token.

use vstd::prelude::*;
use std::collections::VecDeque;
use crate::token::TokenType;
use crate::grammar::{Node, Path};
use crate::tokenizer::Tokenizer;
use crate::cursor::{is_number_spec, is_letter_spec, is_sign_spec, is_operator_spec, is_number, is_letter, is_sign, is_operator};

verus! {

/// The classes of characters that a token can be a run of.
#[derive(Clone, Copy, Debug, PartialEq, Eq, Structural)]
pub enum CharClass {
    Number,
    Letter,
    Sign,
    Operator,
    /// Letters and digits together: the tail of an identifier.
    Alnum,
}

/// The character `c` belongs to `class`.
pub open spec fn class_has(class: CharClass, c: char) -> bool {
    match class {
        CharClass::Number => is_number_spec(c),
        CharClass::Letter => is_letter_spec(c),
        CharClass::Sign => is_sign_spec(c),
        CharClass::Operator => is_operator_spec(c),
        CharClass::Alnum => is_letter_spec(c) || is_number_spec(c),
    }
}

/// At most one of the four classes that can start a token holds a character.
pub proof fn lemma_classes_apart(c: char)
    ensures
        !(is_number_spec(c) && is_letter_spec(c)),
        !(is_number_spec(c) && is_sign_spec(c)),
        !(is_number_spec(c) && is_operator_spec(c)),
        !(is_letter_spec(c) && is_sign_spec(c)),
        !(is_letter_spec(c) && is_operator_spec(c)),
        !(is_sign_spec(c) && is_operator_spec(c)),
{
}

/// The class of tokens that `c` can start, if it can start one.
pub open spec fn class_of(c: char) -> Option<CharClass> {
    if is_number_spec(c) {
        Some(CharClass::Number)
    } else if is_letter_spec(c) {
        Some(CharClass::Letter)
    } else if is_sign_spec(c) {
        Some(CharClass::Sign)
    } else if is_operator_spec(c) {
        Some(CharClass::Operator)
    } else {
        None
    }
}

/// The token kinds that a run of `class` can be.
pub open spec fn class_kinds(class: CharClass) -> Seq<TokenType> {
    match class {
        CharClass::Number => seq![TokenType::Number],
        CharClass::Letter => seq![TokenType::Ident, TokenType::Keyword],
        CharClass::Sign => seq![TokenType::Symbol, TokenType::Operator],
        CharClass::Operator => seq![TokenType::Operator, TokenType::Symbol],
        CharClass::Alnum => seq![TokenType::Ident],
    }
}

/// The rank of a kind when several candidates accept one text: keywords
/// before symbols, symbols before the other primitive kinds.
pub open spec fn priority(kind: TokenType) -> int {
    match kind {
        TokenType::Keyword => 3,
        TokenType::Symbol => 2,
        TokenType::Ident => 1,
        TokenType::Number => 1,
        TokenType::Operator => 1,
        _ => 0,
    }
}

/// The candidate paths, each as the sequence of its nodes.
pub open spec fn paths_view(paths: Seq<Path>) -> Seq<Seq<&Node>> {
    Seq::new(paths.len(), |i: int| paths[i].path@)
}

/// Every candidate has a node under test.
pub open spec fn paths_ok(paths: Seq<Seq<&Node>>) -> bool {
    forall|i: int| 0 <= i < paths.len() ==> (#[trigger] paths[i]).len() > 0
}

/// The candidate at `i` is a symbol that accepts the text `c`.
pub open spec fn symbol_accepts(paths: Seq<Seq<&Node>>, c: Seq<char>, i: int) -> bool {
    paths[i][0].type_token == TokenType::Symbol && paths[i][0].accepts(c)
}

/// Index of the first candidate at or after `i` that is a symbol accepting
/// `c`, or the number of candidates.
pub open spec fn first_symbol(paths: Seq<Seq<&Node>>, c: Seq<char>, i: int) -> int
    decreases paths.len() - i,
{
    if 0 <= i < paths.len() {
        if symbol_accepts(paths, c, i) {
            i
        } else {
            first_symbol(paths, c, i + 1)
        }
    } else {
        paths.len() as int
    }
}

pub proof fn lemma_first_symbol(paths: Seq<Seq<&Node>>, c: Seq<char>, i: int)
    requires
        0 <= i <= paths.len(),
    ensures
        i <= first_symbol(paths, c, i) <= paths.len(),
        first_symbol(paths, c, i) < paths.len() ==> symbol_accepts(
            paths,
            c,
            first_symbol(paths, c, i),
        ),
        forall|k: int| i <= k < first_symbol(paths, c, i) ==> !symbol_accepts(paths, c, k),
    decreases paths.len() - i,
{
    if i < paths.len() && !symbol_accepts(paths, c, i) {
        lemma_first_symbol(paths, c, i + 1);
    }
}

/// The candidates whose node under test has one of `kinds`, in their order.
pub open spec fn keep_kinds(paths: Seq<Seq<&Node>>, kinds: Seq<TokenType>) -> Seq<Seq<&Node>>
    decreases paths.len(),
{
    if paths.len() == 0 {
        Seq::empty()
    } else {
        let rest = keep_kinds(paths.drop_last(), kinds);
        if kinds.contains(paths.last()[0].type_token) {
            rest.push(paths.last())
        } else {
            rest
        }
    }
}

pub proof fn lemma_keep_kinds_ok(paths: Seq<Seq<&Node>>, kinds: Seq<TokenType>)
    requires
        paths_ok(paths),
    ensures
        paths_ok(keep_kinds(paths, kinds)),
        keep_kinds(paths, kinds).len() <= paths.len(),
    decreases paths.len(),
{
    if paths.len() > 0 {
        lemma_keep_kinds_ok(paths.drop_last(), kinds);
    }
}

/// The candidate at `k` is the one to take for the text `token`: it accepts
/// the text, no accepting candidate ranks higher, and those before it rank
/// lower.
pub open spec fn is_best(paths: Seq<Seq<&Node>>, token: Seq<char>, k: int) -> bool {
    &&& 0 <= k < paths.len()
    &&& paths[k][0].accepts(token)
    &&& forall|j: int|
        0 <= j < paths.len() && (#[trigger] paths[j])[0].accepts(token) ==> priority(
            paths[j][0].type_token,
        ) <= priority(paths[k][0].type_token)
    &&& forall|j: int|
        0 <= j < k && (#[trigger] paths[j])[0].accepts(token) ==> priority(paths[j][0].type_token)
            < priority(paths[k][0].type_token)
}

/// No candidate can be taken for `token`: it is empty, or none accepts it.
pub open spec fn none_fits(paths: Seq<Seq<&Node>>, token: Seq<char>) -> bool {
    token.len() == 0 || forall|j: int|
        0 <= j < paths.len() ==> !(#[trigger] paths[j])[0].accepts(token)
}

/// The index of the candidate to take for `token`, if one fits.
pub open spec fn best(paths: Seq<Seq<&Node>>, token: Seq<char>) -> Option<int> {
    if none_fits(paths, token) {
        None
    } else {
        Some(choose|k: int| is_best(paths, token, k))
    }
}

/// At most one candidate is the best.
pub proof fn lemma_best_unique(paths: Seq<Seq<&Node>>, token: Seq<char>, a: int, b: int)
    requires
        is_best(paths, token, a),
        is_best(paths, token, b),
    ensures
        a == b,
{
    if a < b {
        assert(priority(paths[a][0].type_token) < priority(paths[b][0].type_token));
        assert(priority(paths[b][0].type_token) <= priority(paths[a][0].type_token));
    } else if b < a {
        assert(priority(paths[b][0].type_token) < priority(paths[a][0].type_token));
        assert(priority(paths[a][0].type_token) <= priority(paths[b][0].type_token));
    }
}

/// A text that a keyword candidate accepts is taken as a keyword, whatever
/// other candidates accept it too.
pub proof fn lemma_keyword_wins(paths: Seq<Seq<&Node>>, token: Seq<char>, k: int, j: int)
    requires
        is_best(paths, token, k),
        0 <= j < paths.len(),
        paths[j][0].type_token == TokenType::Keyword,
        paths[j][0].accepts(token),
    ensures
        paths[k][0].type_token == TokenType::Keyword,
{
    assert(priority(paths[j][0].type_token) <= priority(paths[k][0].type_token));
}

/// The rank of `kind`.
pub fn priority_of(kind: TokenType) -> (r: u8)
    ensures
        r == priority(kind),
{
    match kind {
        TokenType::Keyword => 3,
        TokenType::Symbol => 2,
        TokenType::Ident => 1,
        TokenType::Number => 1,
        TokenType::Operator => 1,
        _ => 0,
    }
}

/// The primitive kinds with their ranks.
pub fn build_priority_map() -> (r: Vec<(TokenType, u8)>)
    ensures
        r@.len() == 5,
        forall|i: int| 0 <= i < r@.len() ==> (#[trigger] r@[i]).1 == priority(r@[i].0),
        r@[0].0 == TokenType::Ident,
        r@[1].0 == TokenType::Number,
        r@[2].0 == TokenType::Symbol,
        r@[3].0 == TokenType::Operator,
        r@[4].0 == TokenType::Keyword,
{
    let mut priority_map: Vec<(TokenType, u8)> = Vec::new();
    priority_map.push((TokenType::Ident, 1));
    priority_map.push((TokenType::Number, 1));
    priority_map.push((TokenType::Symbol, 2));
    priority_map.push((TokenType::Operator, 1));
    priority_map.push((TokenType::Keyword, 3));
    priority_map
}

/// The four classes that can start a token, each with the kinds that a run
/// of it can be.
pub fn build_identity_map() -> (r: Vec<(CharClass, Vec<TokenType>)>)
    ensures
        r@.len() == 4,
        r@[0].0 == CharClass::Number,
        r@[1].0 == CharClass::Letter,
        r@[2].0 == CharClass::Sign,
        r@[3].0 == CharClass::Operator,
        forall|i: int| 0 <= i < r@.len() ==> (#[trigger] r@[i]).1@ == class_kinds(r@[i].0),
{
    let mut res: Vec<(CharClass, Vec<TokenType>)> = Vec::new();
    res.push((CharClass::Number, kinds_of_class(CharClass::Number)));
    res.push((CharClass::Letter, kinds_of_class(CharClass::Letter)));
    res.push((CharClass::Sign, kinds_of_class(CharClass::Sign)));
    res.push((CharClass::Operator, kinds_of_class(CharClass::Operator)));
    res
}

/// The kinds that a run of `class` can be.
pub fn kinds_of_class(class: CharClass) -> (r: Vec<TokenType>)
    ensures
        r@ == class_kinds(class),
{
    let r = match class {
        CharClass::Number => vec![TokenType::Number],
        CharClass::Letter => vec![TokenType::Ident, TokenType::Keyword],
        CharClass::Sign => vec![TokenType::Symbol, TokenType::Operator],
        CharClass::Operator => vec![TokenType::Operator, TokenType::Symbol],
        CharClass::Alnum => vec![TokenType::Ident],
    };
    assert(r@ =~= class_kinds(class));
    r
}

/// Tells whether `c` belongs to `class`.
pub fn in_class(class: CharClass, c: char) -> (r: bool)
    ensures
        r == class_has(class, c),
{
    match class {
        CharClass::Number => is_number(c),
        CharClass::Letter => is_letter(c),
        CharClass::Sign => is_sign(c),
        CharClass::Operator => is_operator(c),
        CharClass::Alnum => is_letter(c) || is_number(c),
    }
}

/// Tells whether `kinds` holds `kind`.
pub fn has_kind(kinds: &Vec<TokenType>, kind: TokenType) -> (r: bool)
    ensures
        r == kinds@.contains(kind),
{
    let mut i: usize = 0;
    while i < kinds.len()
        invariant
            i <= kinds.len(),
            forall|k: int| 0 <= k < i ==> kinds@[k] != kind,
        decreases kinds.len() - i,
    {
        if kinds[i] == kind {
            return true;
        }
        i += 1;
    }
    false
}

impl Tokenizer {
    /// If some candidate is a symbol that accepts the single character `c`, keeps
    /// the first such candidate alone and says so; else leaves the candidates.
    pub fn detect_char_token<'a>(&self, path_vec: &mut VecDeque<Path<'a>>, c: &str) -> (r: bool)
        requires
            paths_ok(paths_view(old(path_vec)@)),
        ensures
            r == (first_symbol(paths_view(old(path_vec)@), c@, 0) < old(path_vec)@.len()),
            r ==> paths_view(final(path_vec)@) == seq![
                paths_view(old(path_vec)@)[first_symbol(paths_view(old(path_vec)@), c@, 0)],
            ],
            !r ==> final(path_vec)@ == old(path_vec)@,
            paths_ok(paths_view(final(path_vec)@)),
    {
        let ghost pv = paths_view(path_vec@);
        let mut i: usize = 0;
        while i < path_vec.len()
            invariant
                i <= path_vec.len(),
                path_vec@ == old(path_vec)@,
                pv == paths_view(path_vec@),
                paths_ok(pv),
                first_symbol(pv, c@, 0) == first_symbol(pv, c@, i as int),
            decreases path_vec.len() - i,
        {
            assert(pv[i as int] == path_vec@[i as int].path@);
            assert(pv[i as int].len() > 0);
            let node = path_vec[i].p_node();
            if node.type_token == TokenType::Symbol && node.constraint_satisfied(c) {
                let ghost all = path_vec@;
                while path_vec.len() > i + 1
                    invariant
                        i < path_vec@.len() <= all.len(),
                        path_vec@ == all.subrange(0, path_vec@.len() as int),
                    decreases path_vec@.len(),
                {
                    let ghost longer = path_vec@;
                    path_vec.pop_back();
                    assert(path_vec@ =~= all.subrange(0, longer.len() - 1));
                }
                while path_vec.len() > 1
                    invariant
                        1 <= path_vec@.len(),
                        path_vec@.last() == all[i as int],
                    decreases path_vec@.len(),
                {
                    path_vec.pop_front();
                }
                assert(paths_view(path_vec@) =~= seq![pv[i as int]]);
                return true;
            }
            i += 1;
        }
        false
    }
}

impl Tokenizer {
    /// Keeps the candidates whose node under test has one of the kinds
    /// `author_type`, and tells whether any is left.
    pub fn clean_son_vec<'a>(
        &self,
        path_vec: &mut VecDeque<Path<'a>>,
        author_type: &Vec<TokenType>,
    ) -> (r: bool)
        requires
            paths_ok(paths_view(old(path_vec)@)),
        ensures
            paths_view(final(path_vec)@) == keep_kinds(paths_view(old(path_vec)@), author_type@),
            r == (final(path_vec)@.len() > 0),
            paths_ok(paths_view(final(path_vec)@)),
    {
        let ghost pv = paths_view(path_vec@);
        let mut kept: VecDeque<Path<'a>> = VecDeque::new();
        let n: usize = path_vec.len();
        let mut taken: usize = 0;
        assert(pv.take(0) =~= Seq::<Seq<&Node>>::empty());
        assert(paths_view(kept@) =~= Seq::<Seq<&Node>>::empty());
        while path_vec.len() > 0
            invariant
                taken + path_vec@.len() == n,
                n == pv.len(),
                paths_ok(pv),
                forall|k: int| 0 <= k < path_vec@.len() ==> (#[trigger] path_vec@[k]).path@ == pv[taken + k],
                paths_view(kept@) == keep_kinds(pv.take(taken as int), author_type@),
            ensures
                path_vec@.len() == 0,
            decreases path_vec.len(),
        {
            let ghost before = path_vec@;
            let ghost kept_before = paths_view(kept@);
            let p = match path_vec.pop_front() {
                Some(p) => p,
                None => {
                    break;
                },
            };
            proof {
                assert(p == before[0]);
                assert(p.path@ == pv[taken as int]);
                assert(pv.take(taken + 1).drop_last() =~= pv.take(taken as int));
                assert(pv.take(taken + 1).last() == pv[taken as int]);
                assert forall|k: int| 0 <= k < path_vec@.len() implies (#[trigger] path_vec@[k]).path@
                    == pv[taken + 1 + k] by {
                    assert(path_vec@[k] == before[k + 1]);
                }
            }
            if has_kind(author_type, p.p_node().type_token) {
                kept.push_back(p);
                assert(paths_view(kept@) =~= kept_before.push(pv[taken as int]));
            }
            taken += 1;
        }
        assert(pv.take(taken as int) =~= pv);
        proof {
            lemma_keep_kinds_ok(pv, author_type@);
        }
        *path_vec = kept;
        path_vec.len() > 0
    }
}

impl Tokenizer {
    /// Chooses the candidate to take for `token`: among those that accept it,
    /// the first of the highest rank. None is chosen for an empty text.
    pub fn filter_nodes<'a>(&self, paths: &VecDeque<Path<'a>>, token: &str) -> (r: Option<usize>)
        requires
            paths_ok(paths_view(paths@)),
        ensures
            r matches Some(k) ==> is_best(paths_view(paths@), token@, k as int),
            r is None ==> none_fits(paths_view(paths@), token@),
            r == match best(paths_view(paths@), token@) {
                Some(k) => Some(k as usize),
                None => None,
            },
    {
        let ghost pv = paths_view(paths@);
        if token.unicode_len() == 0 {
            return None;
        }
        let mut i: usize = 0;
        let mut res: Option<usize> = None;
        while i < paths.len()
            invariant
                i <= paths.len(),
                pv == paths_view(paths@),
                paths_ok(pv),
                token@.len() > 0,
                res matches Some(k) ==> k < i && is_best(pv.take(i as int), token@, k as int),
                res is None ==> forall|j: int| 0 <= j < i ==> !(#[trigger] pv[j])[0].accepts(token@),
            decreases paths.len() - i,
        {
            assert(pv[i as int] == paths@[i as int].path@);
            assert(pv[i as int].len() > 0);
            let node = paths[i].p_node();
            let ghost prev = pv.take(i as int);
            let ghost cur = pv.take(i + 1);
            assert(forall|j: int| 0 <= j < i ==> cur[j] == prev[j]);
            assert(cur[i as int] == pv[i as int]);
            if node.constraint_satisfied(token) {
                let better = match res {
                    None => true,
                    Some(k) => {
                        assert(prev[k as int] == pv[k as int]);
                        assert(pv[k as int] == paths@[k as int].path@);
                        priority_of(paths[k].p_node().type_token) < priority_of(node.type_token)
                    },
                };
                if better {
                    assert forall|j: int|
                        0 <= j < cur.len() && (#[trigger] cur[j])[0].accepts(token@) implies priority(
                        cur[j][0].type_token,
                    ) <= priority(cur[i as int][0].type_token) by {
                        if j < i {
                            assert(prev[j] == cur[j]);
                        }
                    }
                    assert forall|j: int|
                        0 <= j < i && (#[trigger] cur[j])[0].accepts(token@) implies priority(
                        cur[j][0].type_token,
                    ) < priority(cur[i as int][0].type_token) by {
                        assert(prev[j] == cur[j]);
                    }
                    res = Some(i);
                } else {
                    let ghost k = res.unwrap() as int;
                    assert forall|j: int|
                        0 <= j < cur.len() && (#[trigger] cur[j])[0].accepts(token@) implies priority(
                        cur[j][0].type_token,
                    ) <= priority(cur[k][0].type_token) by {
                        if j < i {
                            assert(prev[j] == cur[j]);
                        }
                    }
                    assert forall|j: int|
                        0 <= j < k && (#[trigger] cur[j])[0].accepts(token@) implies priority(
                        cur[j][0].type_token,
                    ) < priority(cur[k][0].type_token) by {
                        assert(prev[j] == cur[j]);
                    }
                }
            } else {
                proof {
                    if res is Some {
                        let k = res.unwrap() as int;
                        assert forall|j: int|
                            0 <= j < cur.len() && (#[trigger] cur[j])[0].accepts(
                                token@,
                            ) implies priority(cur[j][0].type_token) <= priority(
                            cur[k][0].type_token,
                        ) by {
                            if j < i {
                                assert(prev[j] == cur[j]);
                            }
                        }
                        assert forall|j: int|
                            0 <= j < k && (#[trigger] cur[j])[0].accepts(token@) implies priority(
                            cur[j][0].type_token,
                        ) < priority(cur[k][0].type_token) by {
                            assert(prev[j] == cur[j]);
                        }
                    }
                }
            }
            i += 1;
        }
        assert(pv.take(i as int) =~= pv);
        proof {
            match res {
                Some(k) => {
                    assert(!none_fits(pv, token@)) by {
                        assert(pv[k as int][0].accepts(token@));
                    }
                    let c = choose|c: int| is_best(pv, token@, c);
                    lemma_best_unique(pv, token@, k as int, c);
                },
                None => {},
            }
        }
        res
    }
}

} // verus!
