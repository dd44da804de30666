use std::collections::VecDeque;

use treelex::candidates::{
    build_identity_map, build_priority_map, in_class, kinds_of_class, priority_of, CharClass,
};
use treelex::cursor::{is_letter, is_number, is_operator, is_sign, TextTraveler};
use treelex::grammar::{end_request, get_default_constraint, push_token, Node, Path, Reaction};
use treelex::grammar_tree::{build_grammar_tree, GroupMap};
use treelex::token::{Content, Flag, Token, TokenType, TokenizerMessage, EMPTY_TOKEN, PARSING_ERROR};
use treelex::tokenizer::Tokenizer;

fn tok(kind: TokenType, from: usize, to: usize, flag: Flag) -> TokenizerMessage {
    TokenizerMessage::Token(Token::new(kind, (from, to), flag))
}

fn failure() -> TokenizerMessage {
    TokenizerMessage::Token(Token::error("Syntax error"))
}

fn span(t: &Token) -> (usize, usize) {
    match t.content {
        Content::Span(from, to) => (from, to),
        Content::Text(_) => panic!("the token carries no span"),
    }
}

fn run(text: &str) -> Vec<TokenizerMessage> {
    Tokenizer::new(text.to_string()).tokenize_file()
}

#[test]
fn declare_section_then_declaration() {
    let out = run("#DECLARE\nCHARS = a, b");
    let expected = vec![
        tok(TokenType::Ident, 1, 8, Flag::Section),
        tok(TokenType::Line, 0, 9, Flag::NoFlag),
        tok(TokenType::Keyword, 9, 14, Flag::NoFlag),
        tok(TokenType::Symbol, 15, 16, Flag::NoFlag),
        tok(TokenType::Ident, 17, 18, Flag::NoFlag),
        tok(TokenType::Symbol, 18, 19, Flag::NoFlag),
        tok(TokenType::Ident, 20, 21, Flag::NoFlag),
        tok(TokenType::Line, 9, 21, Flag::NoFlag),
        TokenizerMessage::End,
    ];
    assert_eq!(out, expected);
}

#[test]
fn declaration_tokens_keep_their_order() {
    let text = "#DECLARE\nCHARS = a, b";
    let out = run(text);
    let mut seen: Vec<(TokenType, String)> = Vec::new();
    for m in out.iter() {
        if let TokenizerMessage::Token(t) = m {
            if t.token_type != TokenType::Line {
                let (from, to) = span(t);
                seen.push((t.token_type, text[from..to].to_string()));
            }
        }
    }
    assert_eq!(
        seen,
        vec![
            (TokenType::Ident, "DECLARE".to_string()),
            (TokenType::Keyword, "CHARS".to_string()),
            (TokenType::Symbol, "=".to_string()),
            (TokenType::Ident, "a".to_string()),
            (TokenType::Symbol, ",".to_string()),
            (TokenType::Ident, "b".to_string()),
        ]
    );
    assert_eq!(out[out.len() - 2], tok(TokenType::Line, 9, 21, Flag::NoFlag));
}

#[test]
fn unmatched_parenthesis_is_a_failure() {
    let out = run("X = (A && B");
    assert_eq!(
        out,
        vec![failure(), TokenizerMessage::End]
    );
}

#[test]
fn failure_keeps_what_was_sent_and_ends_the_run() {
    let out = run("#DECLARE\nX = (A\nGROUPS = g");
    assert_eq!(
        out,
        vec![
            tok(TokenType::Ident, 1, 8, Flag::Section),
            tok(TokenType::Line, 0, 9, Flag::NoFlag),
            failure(),
            TokenizerMessage::End,
        ]
    );
}

#[test]
fn empty_text_gives_the_end_alone() {
    assert_eq!(run(""), vec![TokenizerMessage::End]);
    assert_eq!(run(" \n\t\\\n"), vec![TokenizerMessage::End]);
}

#[test]
fn exactly_one_end_marker_and_it_is_last() {
    for text in ["#DECLARE\nCHARS = a", "X = (", "", "T = A && B || C", "T = \"a\u{e9}b\"\n\nU in [\"x\"]"] {
        let out = run(text);
        let ends = out.iter().filter(|m| **m == TokenizerMessage::End).count();
        assert_eq!(ends, 1);
        assert_eq!(out[out.len() - 1], TokenizerMessage::End);
        for m in out.iter() {
            if let TokenizerMessage::Token(t) = m {
                if let Content::Span(from, to) = t.content {
                    assert!(from <= to && to <= text.len());
                    assert!(text.get(from..to).is_some());
                }
            }
        }
    }
}

#[test]
fn rule_line_with_expression_matches() {
    let out = run("T = X && Y || X && Z");
    assert_eq!(out, vec![tok(TokenType::Line, 0, 20, Flag::NoFlag), TokenizerMessage::End]);
    let single = run("T = X & Y | X & Z");
    assert_eq!(single, vec![tok(TokenType::Line, 0, 17, Flag::NoFlag), TokenizerMessage::End]);
}

#[test]
fn comment_is_discarded() {
    let out = run("GROUPS = g ~ a comment, (");
    assert_eq!(
        out,
        vec![
            tok(TokenType::Keyword, 0, 6, Flag::NoFlag),
            tok(TokenType::Symbol, 7, 8, Flag::NoFlag),
            tok(TokenType::Ident, 9, 10, Flag::NoFlag),
            tok(TokenType::Line, 0, 25, Flag::NoFlag),
            TokenizerMessage::End,
        ]
    );
}

#[test]
fn string_characters_are_emitted() {
    let out = run("T = \"a b\"");
    assert_eq!(
        out,
        vec![
            tok(TokenType::Symbol, 5, 6, Flag::NoFlag),
            tok(TokenType::Symbol, 6, 7, Flag::NoFlag),
            tok(TokenType::Symbol, 7, 8, Flag::NoFlag),
            tok(TokenType::Line, 0, 9, Flag::NoFlag),
            TokenizerMessage::End,
        ]
    );
}

#[test]
fn skip_garbage_emits_line_breaks() {
    let tk = Tokenizer::new(String::new());
    let text = " \n\t\nab";
    let mut chars = TextTraveler::new(text, 0);
    let mut out = Vec::new();
    tk.skip_garbage(&mut chars, &mut out);
    assert_eq!(chars.i, 4);
    assert_eq!(
        out,
        vec![
            tok(TokenType::BackLine, 0, 0, Flag::NoFlag),
            tok(TokenType::BackLine, 0, 0, Flag::NoFlag),
        ]
    );
    let mut c2 = TextTraveler::new("~ x\n y", 0);
    let mut out2 = Vec::new();
    tk.skip_garbage(&mut c2, &mut out2);
    assert_eq!(c2.i, 5);
    assert!(out2.is_empty());
}

#[test]
fn keyword_beats_ident() {
    let ident = Node::leaf(TokenType::Ident);
    let keyword = Node::leaf_c(TokenType::Keyword, vec!["in"]);
    let symbol = Node::leaf(TokenType::Symbol);
    let paths = VecDeque::from(vec![Path::init(&ident), Path::init(&keyword)]);
    assert_eq!(Tokenizer::new(String::new()).filter_nodes(&paths, "in"), Some(1));
    assert_eq!(Tokenizer::new(String::new()).filter_nodes(&paths, "inner"), Some(0));
    assert_eq!(Tokenizer::new(String::new()).filter_nodes(&paths, ""), None);
    let three = VecDeque::from(vec![Path::init(&ident), Path::init(&symbol), Path::init(&keyword)]);
    assert_eq!(Tokenizer::new(String::new()).filter_nodes(&three, "in"), Some(2));
    assert_eq!(Tokenizer::new(String::new()).filter_nodes(&three, "x"), Some(1));
    let twice = VecDeque::from(vec![Path::init(&ident), Path::init(&ident)]);
    assert_eq!(Tokenizer::new(String::new()).filter_nodes(&twice, "x"), Some(0));
    let none = VecDeque::from(vec![Path::init(&keyword)]);
    assert_eq!(Tokenizer::new(String::new()).filter_nodes(&none, "x"), None);
}

#[test]
fn single_character_symbol_is_never_extended() {
    let tk = Tokenizer::new(String::new());
    let root = Node::new(
        TokenType::Line,
        vec![],
        vec![Node::leaf(TokenType::Ident), Node::leaf_c(TokenType::Symbol, vec!["a"])],
    );
    let mut paths = tk.get_son_array(&root);
    assert_eq!(paths.len(), 2);
    let mut chars = TextTraveler::new("abc", 0);
    let got = tk.get_next_token(&mut paths, &mut chars);
    assert_eq!(got, Ok("a"));
    assert_eq!(chars.i, 1);
    assert_eq!(paths.len(), 1);
    assert_eq!(paths[0].path[0].type_token, TokenType::Symbol);

    let mut paths = tk.get_son_array(&root);
    let mut chars = TextTraveler::new("bca", 0);
    let got = tk.get_next_token(&mut paths, &mut chars);
    assert_eq!(got, Ok("bca"));
    assert_eq!(chars.i, 3);
    assert_eq!(paths.len(), 1);
    assert_eq!(paths[0].path[0].type_token, TokenType::Ident);
}

#[test]
fn next_token_runs_and_failures() {
    let tk = Tokenizer::new(String::new());
    let root = Node::new(
        TokenType::Line,
        vec![],
        vec![Node::leaf(TokenType::Ident), Node::leaf(TokenType::Number)],
    );
    let mut paths = tk.get_son_array(&root);
    let mut chars = TextTraveler::new("ab12_c d", 0);
    assert_eq!(tk.get_next_token(&mut paths, &mut chars), Ok("ab12_c"));
    assert_eq!(chars.get_msg(), (0, 6));

    let mut paths = tk.get_son_array(&root);
    let mut chars = TextTraveler::new("123ab", 0);
    assert_eq!(tk.get_next_token(&mut paths, &mut chars), Ok("123"));

    let mut paths = tk.get_son_array(&root);
    let mut chars = TextTraveler::new("&&", 0);
    assert_eq!(
        tk.get_next_token(&mut paths, &mut chars),
        Err("FAILED TO TOKENIZE".to_string())
    );
    assert!(paths.is_empty());

    let only_keyword =
        Node::new(TokenType::Line, vec![], vec![Node::leaf_c(TokenType::Keyword, vec!["ab"])]);
    let mut paths = tk.get_son_array(&only_keyword);
    let mut chars = TextTraveler::new("ab1", 0);
    assert_eq!(tk.get_next_token(&mut paths, &mut chars), Ok("ab"));
    assert!(paths.is_empty());

    let signs = Node::new(TokenType::Line, vec![], vec![Node::leaf(TokenType::Operator)]);
    let mut paths = tk.get_son_array(&signs);
    let mut chars = TextTraveler::new("++", 10);
    assert_eq!(tk.get_next_token(&mut paths, &mut chars), Ok("+"));
    assert_eq!(chars.get_msg(), (10, 11));
    let mut paths = tk.get_son_array(&signs);
    let mut chars = TextTraveler::new("&&|x", 0);
    assert_eq!(tk.get_next_token(&mut paths, &mut chars), Ok("&&|"));
}

fn retry_grammar() -> GroupMap {
    let b = Node::leaf_c(TokenType::Symbol, vec!["b"]).push();
    let a = Node::new_c(TokenType::Symbol, vec![], vec![b], vec!["a"]).push();
    let line = Node::new_c_r(TokenType::Line, vec![], vec![a], vec![], 0);
    let mut map = GroupMap::new();
    map.insert(line);
    map
}

#[test]
fn retry_then_fail_terminates() {
    let n = 5;
    let text = "a".repeat(n) + "c";
    let out = Tokenizer::with_grammar(text, retry_grammar()).tokenize_file();
    let mut expected: Vec<TokenizerMessage> =
        (0..n).map(|i| tok(TokenType::Symbol, i, i + 1, Flag::NoFlag)).collect();
    expected.push(failure());
    expected.push(TokenizerMessage::End);
    assert_eq!(out, expected);
}

#[test]
fn retry_then_match() {
    let out = Tokenizer::with_grammar("aaab".to_string(), retry_grammar()).tokenize_file();
    assert_eq!(
        out,
        vec![
            tok(TokenType::Symbol, 0, 1, Flag::NoFlag),
            tok(TokenType::Symbol, 1, 2, Flag::NoFlag),
            tok(TokenType::Symbol, 2, 3, Flag::NoFlag),
            tok(TokenType::Symbol, 3, 4, Flag::NoFlag),
            tok(TokenType::Line, 0, 4, Flag::NoFlag),
            TokenizerMessage::End,
        ]
    );
}

#[test]
fn travel_reports_the_depth_of_a_failure() {
    let c = Node::new_c(TokenType::Symbol, vec![], vec![], vec!["c"]);
    let b = Node::new_c(TokenType::Symbol, vec![], vec![c], vec!["b"]);
    let a = Node::new_c(TokenType::Symbol, vec![], vec![b], vec!["a"]);
    let root = Node::new(TokenType::Line, vec![], vec![a]);
    let tk = Tokenizer::with_grammar(String::new(), GroupMap::new());
    let mut out = Vec::new();
    let mut chars = TextTraveler::new("abx", 0);
    assert_eq!(tk.travel(&root, &mut chars, &mut out), Err(2));
    let mut chars = TextTraveler::new("x", 0);
    assert_eq!(tk.travel(&root, &mut chars, &mut out), Err(0));
    assert_eq!(chars.i, 0);
    let mut chars = TextTraveler::new("abc", 0);
    assert_eq!(tk.travel(&root, &mut chars, &mut out), Ok(()));
    assert_eq!(chars.i, 3);
    let leaf = Node::leaf(TokenType::Line);
    let mut chars = TextTraveler::new("abc", 0);
    assert_eq!(tk.travel(&leaf, &mut chars, &mut out), Ok(()));
    assert_eq!(chars.i, 0);
    assert!(out.is_empty());
}

#[test]
fn reactions_fire_from_the_farthest_node() {
    let near = Node::leaf(TokenType::Ident).push();
    let silent = Node::leaf(TokenType::Value);
    let far = Node::leaf(TokenType::Expression).set_flag(Flag::Section).react(Reaction::Push);
    let mut path = Path::init(&near);
    path.path.push(&silent);
    path.path.push(&far);
    assert_eq!(path.p_node().type_token, TokenType::Ident);
    let mut out = Vec::new();
    path.proke_travel_functions(&mut out, (3, 7));
    assert_eq!(
        out,
        vec![
            tok(TokenType::Expression, 3, 7, Flag::Section),
            tok(TokenType::Ident, 3, 7, Flag::NoFlag),
        ]
    );
}

#[test]
fn group_children_expand_and_tag() {
    let tk = Tokenizer::new(String::new());
    let line = tk.group_map.get(TokenType::Line).unwrap();
    let paths = tk.get_son_array(line);
    let kinds: Vec<(TokenType, usize)> =
        paths.iter().map(|p| (p.path[0].type_token, p.path.len())).collect();
    assert_eq!(
        kinds,
        vec![(TokenType::Ident, 1), (TokenType::Keyword, 1), (TokenType::Symbol, 1)]
    );
    let expression = tk.group_map.get(TokenType::Expression).unwrap();
    let paths = tk.get_son_array(expression);
    let kinds: Vec<(TokenType, usize)> =
        paths.iter().map(|p| (p.path[0].type_token, p.path.len())).collect();
    assert_eq!(kinds, vec![(TokenType::Symbol, 1), (TokenType::Ident, 2)]);
    assert_eq!(paths[1].path[1].type_token, TokenType::Value);
    assert!(tk.get_son_array_within(expression, 0).len() == 1);
}

#[test]
fn left_recursive_grammar_is_cut_off() {
    let line = Node::new(TokenType::Line, vec![Node::leaf(TokenType::Line)], vec![]);
    let mut map = GroupMap::new();
    map.insert(line);
    let out = Tokenizer::with_grammar("a".to_string(), map).tokenize_file();
    assert_eq!(out, vec![failure(), TokenizerMessage::End]);
}

#[test]
fn candidates_are_pruned() {
    let ident = Node::leaf(TokenType::Ident);
    let number = Node::leaf(TokenType::Number);
    let plus = Node::leaf_c(TokenType::Symbol, vec!["+"]);
    let any = Node::leaf(TokenType::Symbol);
    let mut paths = VecDeque::from(vec![Path::init(&ident), Path::init(&number), Path::init(&plus)]);
    assert!(Tokenizer::new(String::new()).clean_son_vec(&mut paths, &vec![TokenType::Symbol, TokenType::Ident]));
    let kinds: Vec<TokenType> = paths.iter().map(|p| p.path[0].type_token).collect();
    assert_eq!(kinds, vec![TokenType::Ident, TokenType::Symbol]);
    assert!(!Tokenizer::new(String::new()).clean_son_vec(&mut paths, &vec![TokenType::Keyword]));
    assert!(paths.is_empty());

    let mut paths =
        VecDeque::from(vec![Path::init(&ident), Path::init(&plus), Path::init(&any), Path::init(&number)]);
    assert!(!Tokenizer::new(String::new()).detect_char_token(&mut paths, "a") || paths.len() == 1);
    let mut paths =
        VecDeque::from(vec![Path::init(&ident), Path::init(&plus), Path::init(&any), Path::init(&number)]);
    assert!(Tokenizer::new(String::new()).detect_char_token(&mut paths, "+"));
    assert_eq!(paths.len(), 1);
    assert!(std::ptr::eq(paths[0].path[0], &plus));
    let mut paths = VecDeque::from(vec![Path::init(&ident), Path::init(&plus)]);
    assert!(!Tokenizer::new(String::new()).detect_char_token(&mut paths, "-"));
    assert_eq!(paths.len(), 2);
}

#[test]
fn character_classes() {
    assert!(is_number('0') && is_number('9') && !is_number('a') && !is_number('/'));
    assert!(is_letter('a') && is_letter('Z') && is_letter('_') && !is_letter('[') && !is_letter('1'));
    assert!(!is_letter('`') && !is_letter('^'));
    assert!(is_operator('|') && is_operator('&') && !is_operator('+'));
    assert!(is_sign('+') && is_sign('=') && is_sign('#') && is_sign('\\'));
    assert!(!is_sign(' ') && !is_sign('\t') && !is_sign('\n') && !is_sign('a') && !is_sign('|'));
    assert!(!is_number('\u{2030}') && !is_number('\u{130}') && !is_number('\u{660}'));
    assert!(!is_letter('\u{141}') && !is_letter('\u{e9}'));
    assert!(is_sign('\u{2030}') && is_sign('\u{141}') && is_sign('\u{e9}'));
    for n in 0..0x3000u32 {
        if let Some(c) = char::from_u32(n) {
            let classes = [is_number(c), is_letter(c), is_operator(c), is_sign(c)];
            assert!(classes.iter().filter(|b| **b).count() <= 1);
            assert_eq!(is_number(c), c.is_ascii_digit());
            assert_eq!(is_letter(c), c.is_ascii_alphabetic() || c == '_');
        }
    }
    assert!(in_class(CharClass::Alnum, 'a') && in_class(CharClass::Alnum, '1'));
    assert!(!in_class(CharClass::Alnum, '+'));
    assert_eq!(kinds_of_class(CharClass::Letter), vec![TokenType::Ident, TokenType::Keyword]);
    assert_eq!(kinds_of_class(CharClass::Operator), vec![TokenType::Operator, TokenType::Symbol]);
}

#[test]
fn priorities_and_tables() {
    assert_eq!(priority_of(TokenType::Keyword), 3);
    assert_eq!(priority_of(TokenType::Symbol), 2);
    assert_eq!(priority_of(TokenType::Ident), 1);
    assert_eq!(priority_of(TokenType::Number), 1);
    assert_eq!(priority_of(TokenType::Operator), 1);
    assert_eq!(priority_of(TokenType::Line), 0);
    assert_eq!(
        build_priority_map(),
        vec![
            (TokenType::Ident, 1),
            (TokenType::Number, 1),
            (TokenType::Symbol, 2),
            (TokenType::Operator, 1),
            (TokenType::Keyword, 3),
        ]
    );
    let table = build_identity_map();
    assert_eq!(table.len(), 4);
    assert_eq!(table[1], (CharClass::Letter, vec![TokenType::Ident, TokenType::Keyword]));
    assert_eq!(table[2], (CharClass::Sign, vec![TokenType::Symbol, TokenType::Operator]));
}

#[test]
fn next_char_while_steps_over_a_run() {
    let mut chars = TextTraveler::new("abc12+", 0);
    Tokenizer::new(String::new()).next_char_while(&mut chars, CharClass::Letter);
    assert_eq!(chars.i, 3);
    Tokenizer::new(String::new()).next_char_while(&mut chars, CharClass::Number);
    assert_eq!(chars.i, 5);
    let mut signs = TextTraveler::new("++", 0);
    Tokenizer::new(String::new()).next_char_while(&mut signs, CharClass::Sign);
    assert_eq!(signs.i, 1);
}

#[test]
fn grammar_nodes_and_constraints() {
    assert_eq!(get_default_constraint(TokenType::Operator), vec!["||", "&&", "|", "&"]);
    assert_eq!(
        get_default_constraint(TokenType::Keyword),
        vec!["GROUPS", "TPRIMS", "CHARS", "in", "END"]
    );
    assert!(get_default_constraint(TokenType::Ident).is_empty());
    let n = Node::new(TokenType::Keyword, vec![], vec![]);
    assert!(!n.can_end && n.retry == -1 && n.is_leaf() && n.constraints.1);
    assert!(n.constraint_satisfied("in") && !n.constraint_satisfied("out"));
    let deny = Node::leaf_c(TokenType::Symbol, vec!["\\", "\""]).priv_const();
    assert!(deny.can_end && !deny.constraints.1);
    assert!(deny.constraint_satisfied("a") && !deny.constraint_satisfied("\""));
    let free = Node::leaf(TokenType::Ident);
    assert!(free.constraint_satisfied("anything") && free.priv_const().constraint_satisfied("x"));
    let r = Node::new_c_r(TokenType::Symbol, vec![], vec![], vec!["\""], 0).consider_garbage();
    assert!(r.can_end && r.retry == 0 && r.consider_garbage);
    let e = Node::new_end(TokenType::Value, vec![], vec![Node::leaf(TokenType::Ident)]);
    assert!(e.can_end && !e.is_leaf());
    let ec = Node::new_end_c(TokenType::Symbol, vec![], vec![], vec![")"]).set_flag(Flag::Section);
    assert_eq!(ec.flag, Flag::Section);
    assert_eq!(ec.push().travel_react, Some(Reaction::Push));
    assert!(Node::check_son(&vec![Node::leaf(TokenType::Value)], &vec![Node::leaf(TokenType::Ident)]));
    assert!(!Node::check_son(&vec![Node::leaf(TokenType::Ident)], &vec![]));
    assert!(!Node::check_son(&vec![], &vec![Node::leaf(TokenType::Value)]));
}

#[test]
fn grammar_table() {
    let map = build_grammar_tree();
    let kinds: Vec<TokenType> = map.entries.iter().map(|n| n.type_token).collect();
    assert_eq!(
        kinds,
        vec![
            TokenType::Line,
            TokenType::InKeyword,
            TokenType::Section,
            TokenType::Macro,
            TokenType::Expression,
            TokenType::Value,
            TokenType::Arg,
            TokenType::SerieArg,
            TokenType::SerieIdent,
            TokenType::SerieString,
            TokenType::String,
            TokenType::SerieChar,
            TokenType::ComplexChar,
        ]
    );
    assert!(map.get(TokenType::Ident).is_none());
    assert_eq!(map.position(TokenType::Macro), Some(3));
    let mut small = GroupMap::new();
    small.insert(Node::leaf(TokenType::Line));
    small.insert(Node::new(TokenType::Value, vec![], vec![]));
    small.insert(Node::new(TokenType::Line, vec![], vec![]));
    assert_eq!(small.entries.len(), 2);
    assert!(!small.get(TokenType::Line).unwrap().can_end);
}

#[test]
fn push_token_appends() {
    let mut out = vec![TokenizerMessage::End];
    push_token(&mut out, TokenType::Number, (2, 4), Flag::NoFlag);
    assert_eq!(out, vec![TokenizerMessage::End, tok(TokenType::Number, 2, 4, Flag::NoFlag)]);
    assert_eq!(EMPTY_TOKEN, (0, 0));
    let tk = Tokenizer::new(String::new());
    tk.end(&mut out);
    assert_eq!(out.len(), 3);
    assert_eq!(out[2], TokenizerMessage::End);
}

#[test]
fn spans_are_byte_ranges() {
    let text = "T = \"\u{e9}\u{20ac}\u{1f600}\"\nGROUPS = g";
    let out = run(text);
    assert_eq!(
        out,
        vec![
            tok(TokenType::Symbol, 5, 7, Flag::NoFlag),
            tok(TokenType::Symbol, 7, 10, Flag::NoFlag),
            tok(TokenType::Symbol, 10, 14, Flag::NoFlag),
            tok(TokenType::Line, 0, 16, Flag::NoFlag),
            tok(TokenType::Keyword, 16, 22, Flag::NoFlag),
            tok(TokenType::Symbol, 23, 24, Flag::NoFlag),
            tok(TokenType::Ident, 25, 26, Flag::NoFlag),
            tok(TokenType::Line, 16, 26, Flag::NoFlag),
            TokenizerMessage::End,
        ]
    );
    let texts: Vec<&str> = out
        .iter()
        .filter_map(|m| match m {
            TokenizerMessage::Token(t) => Some(&text[span(t).0..span(t).1]),
            TokenizerMessage::End => None,
        })
        .collect();
    assert_eq!(texts[0], "\u{e9}");
    assert_eq!(texts[1], "\u{20ac}");
    assert_eq!(texts[2], "\u{1f600}");
    assert_eq!(texts[4], "GROUPS");
    assert_eq!(texts[7], "GROUPS = g");
}

#[test]
fn cursor_counts_bytes_for_spans() {
    let mut c = TextTraveler::new("a\u{e9}\u{20ac}b", 10);
    assert_eq!(c.next(), Some('a'));
    c.mark();
    c.save();
    assert_eq!(c.next(), Some('\u{e9}'));
    assert_eq!((c.char_i, c.i), (2, 3));
    assert_eq!(c.get(), "\u{e9}");
    assert_eq!(c.get_msg(), (11, 13));
    assert_eq!(c.str_next(), "\u{20ac}");
    assert_eq!((c.char_i, c.i), (3, 6));
    assert_eq!(c.get_msg(), (11, 16));
    c.step();
    assert_eq!((c.char_i, c.i), (4, 7));
    assert_eq!(c.next(), None);
    assert_eq!((c.char_i, c.i), (4, 7));
    c.go_back();
    assert_eq!((c.char_i, c.i), (1, 1));
    let mut lines = TextTraveler::new("\u{e9}\n\u{20ac}x \n", 0);
    assert_eq!(lines.compute_next_line(), Some(("\u{e9}", 0)));
    assert_eq!((lines.char_i, lines.i), (2, 3));
    assert_eq!(lines.compute_next_line(), Some(("\u{20ac}x", 3)));
    assert_eq!((lines.char_i, lines.i), (6, 9));
}

#[test]
fn the_error_token_carries_its_diagnostic() {
    let out = run("X = (");
    assert_eq!(out.len(), 2);
    match out[0] {
        TokenizerMessage::Token(t) => {
            assert_eq!(t.token_type, TokenType::ERROR);
            assert_eq!(t.content, Content::Text("Syntax error"));
            assert_eq!(t.flag, Flag::NoFlag);
        }
        TokenizerMessage::End => panic!("an error token comes first"),
    }
    assert_eq!(PARSING_ERROR, "Syntax error");
    assert_eq!(run("GROUPS = g").iter().filter(|m| **m == failure()).count(), 0);
}

#[test]
fn statements_end_with_the_end_token() {
    let end = tok(TokenType::End, 0, 0, Flag::NoFlag);
    let mut out = Vec::new();
    end_request(&mut out, TokenType::Ident, (3, 4), Flag::Section);
    assert_eq!(out, vec![end]);

    let node = Node::comma_leaf_c(TokenType::Keyword, vec!["RESET"]);
    assert_eq!(node.type_token, TokenType::Keyword);
    assert!(!node.can_end && node.groups.is_empty() && node.sons.len() == 1);
    assert_eq!(node.constraints, (vec!["RESET"], true));
    assert_eq!(node.sons[0].type_token, TokenType::Symbol);
    assert_eq!(node.sons[0].constraints, (vec![";"], true));
    assert_eq!(node.sons[0].travel_react, Some(Reaction::End));
    assert!(node.sons[0].can_end && node.sons[0].is_leaf());
    let plain = Node::comma_leaf(TokenType::Keyword);
    assert_eq!(plain.constraints.0, get_default_constraint(TokenType::Keyword));
    assert_eq!(plain.sons[0].travel_react, Some(Reaction::End));

    let line = Node::new(TokenType::Line, vec![], vec![node.push()]);
    let mut map = GroupMap::new();
    map.insert(line);
    let out = Tokenizer::with_grammar("RESET ;".to_string(), map).tokenize_file();
    assert_eq!(
        out,
        vec![
            tok(TokenType::Keyword, 0, 5, Flag::NoFlag),
            end,
            tok(TokenType::Line, 0, 7, Flag::NoFlag),
            TokenizerMessage::End,
        ]
    );
}
