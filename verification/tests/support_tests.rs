use std::collections::hash_map::DefaultHasher;
use std::hash::{Hash, Hasher};

use treelex::bytes::{byte_length, char_position, char_width};
use treelex::cursor::TextTraveler;
use treelex::sections::{DefineSection, GroupRulesSection, SymbolRulesSection, TPrimRulesSection};
use treelex::stack::Stack;
use treelex::string_builder::{halve, StringBuilder};
use treelex::text::{concat2, concat3, is_space, str_eq, trim, trim_end};
use treelex::precompile::{compute_next_query, find_char};
use treelex::token::{
    keywords, macros, operators, primitive, sections, Content, Flag, Token, TokenType,
    TokenizerMessage,
};
use treelex::tokenizer::Tokenizer;

#[test]
fn stack_operations() {
    let mut s: Stack<u32> = Stack::new();
    assert!(s.is_empty());
    assert_eq!(s.size(), 0);
    assert_eq!(s.pop(), None);
    assert_eq!(s.val(), None);
    assert!(s.val_mut().is_none());
    s.push(1);
    s.push(2);
    assert_eq!(s.size(), 2);
    assert_eq!(s.val(), Some(&2));
    s.change_top(5);
    assert_eq!(s.val(), Some(&5));
    if let Some(top) = s.val_mut() {
        *top = 7;
    }
    let copy = s.clone();
    assert_eq!(s.pop(), Some(7));
    assert_eq!(s.pop(), Some(1));
    assert!(s.is_empty());
    assert_eq!(copy.size(), 2);
    let mut one = Stack::init(9u8);
    assert_eq!(one.size(), 1);
    assert_eq!(one.val(), Some(&9));
    one.clear();
    assert!(one.is_empty());
}

#[test]
fn string_builder_operations() {
    let mut b = StringBuilder::new();
    assert!(b.is_empty());
    b.new_char("ab".to_string());
    b.new_char("c".to_string());
    assert!(!b.is_empty());
    assert_eq!(b.string(), "abc");
    let h = b.hash();
    assert!(h >= 0);
    assert_eq!(h, StringBuilder::from_string("abc".to_string()).hash());
    assert_ne!(h, StringBuilder::from_string("abd".to_string()).hash());
    assert_ne!(h, StringBuilder::new().hash());
    let mut hasher = DefaultHasher::new();
    "abc".to_string().hash(&mut hasher);
    assert_eq!(h, (hasher.finish() / 2) as i64);
    assert_eq!(b.extract(), "abc".to_string());
    assert!(b.is_empty());
    assert_eq!(b.extract(), String::new());
    assert_eq!(halve(7), 3);
    assert_eq!(halve(u64::MAX), i64::MAX);
    assert_eq!(halve(0), 0);
}

#[test]
fn text_helpers() {
    assert_eq!(trim("  a b \t\n"), "a b");
    assert_eq!(trim(""), "");
    assert_eq!(trim(" \u{a0}\u{3000} "), "");
    assert_eq!(trim("\u{2003}x\u{85}"), "x");
    assert_eq!(trim_end("  a \r\n"), "  a");
    assert_eq!(trim_end("   "), "");
    assert!(str_eq("abc", "abc") && !str_eq("abc", "abd") && !str_eq("ab", "abc"));
    assert!(str_eq("", ""));
    assert!(is_space(' ') && is_space('\u{b}') && is_space('\u{200a}') && !is_space('\u{200b}'));
    assert!(!is_space('a') && !is_space('\u{1c}'));
    assert_eq!(concat3("a", "bc", "d"), "abcd");
    assert_eq!(concat2("a", ""), "a");
}

#[test]
fn white_space_agrees_with_the_standard_library() {
    let mut n: u32 = 0;
    while n < 0x11000 {
        if let Some(c) = char::from_u32(n) {
            assert_eq!(is_space(c), c.is_whitespace());
        }
        n += 1;
    }
}

#[test]
fn cursor_moves() {
    let mut c = TextTraveler::new("ab cd", 100);
    assert_eq!(c.peek(), Some('a'));
    assert_eq!(c.next(), Some('a'));
    c.save();
    c.mark();
    assert_eq!(c.next(), Some('b'));
    assert_eq!(c.get(), "b");
    assert_eq!(c.get_msg(), (101, 102));
    assert_eq!(c.str_next(), " ");
    c.save();
    assert_eq!(c.next(), Some('c'));
    c.go_back();
    assert_eq!(c.i, 3);
    c.go_back();
    assert_eq!(c.i, 1);
    assert_eq!(c.save_stack.size(), 0);
    let mut end = TextTraveler::new("", 0);
    assert_eq!(end.peek(), None);
    assert_eq!(end.next(), None);
    assert_eq!(end.i, 0);
}

#[test]
fn logical_lines() {
    let text = " \n\\\n first \\\n more\n\nsecond\\\n\n\nthird  ";
    let mut c = TextTraveler::new(text, 0);
    assert_eq!(c.compute_next_line(), Some(("first \\\n more", 5)));
    assert_eq!(c.i, 19);
    assert_eq!(c.compute_next_line(), Some(("second\\\n\n\nthird", 20)));
    assert_eq!(c.i, text.len());
    assert_eq!(c.compute_next_line(), None);
    let mut two = TextTraveler::new("a\nb\n", 0);
    assert_eq!(two.compute_next_line(), Some(("a", 0)));
    assert_eq!(two.compute_next_line(), Some(("b", 2)));
    assert_eq!(two.compute_next_line(), None);
    let mut blank = TextTraveler::new(" \t\n\\", 0);
    assert_eq!(blank.compute_next_line(), None);
    assert_eq!(blank.i, 4);
}

#[test]
fn token_tables() {
    assert_eq!(keywords(), vec!["GROUPS", "TPRIMS", "CHARS", "in", "END"]);
    assert_eq!(sections(), vec!["DECLARE", "CHAR_RULES", "TPRIM_RULES", "GROUP_RULES"]);
    assert_eq!(macros(), vec!["DIGITS", "LETTERS", "OTHER"]);
    assert_eq!(operators(), vec!["||", "&&", "|", "&"]);
    for kind in [
        TokenType::Ident,
        TokenType::Number,
        TokenType::Symbol,
        TokenType::Operator,
        TokenType::Keyword,
    ] {
        assert!(primitive(kind));
    }
    for kind in [TokenType::Line, TokenType::String, TokenType::BackLine, TokenType::ERROR] {
        assert!(!primitive(kind));
    }
    let t = Token::new(TokenType::Ident, (1, 2), Flag::Section);
    assert_eq!(t.token_type, TokenType::Ident);
    assert_eq!(t.content, Content::Span(1, 2));
    assert_eq!(t.flag, Flag::Section);
    assert_eq!(
        Token::empty(TokenType::ERROR),
        Token::new(TokenType::ERROR, (0, 0), Flag::NoFlag)
    );
}

#[test]
fn section_readers_keep_their_text() {
    let token = Token::new(TokenType::Line, (0, 1), Flag::NoFlag);
    let mut d = DefineSection::new("text");
    d.new_token(token);
    assert_eq!(d.text, "text");
    let mut g = GroupRulesSection::new("g");
    g.new_token(token);
    assert_eq!(g.text, "g");
    let mut s = SymbolRulesSection::new("s");
    s.new_token(token);
    assert_eq!(s.text, "s");
    let mut t = TPrimRulesSection::new("t");
    t.new_token(token);
    assert_eq!(t.text, "t");
}

#[test]
fn statements_end_with_a_semicolon() {
    let text = "a; b;c";
    assert_eq!(compute_next_query(text, 0), (Ok("a;"), 2));
    assert_eq!(compute_next_query(text, 2), (Ok("b;"), 5));
    assert_eq!(compute_next_query(text, 5), (Err("c"), 6));
    assert_eq!(compute_next_query(text, 6), (Ok(""), 6));
    assert_eq!(compute_next_query("'x;y';z", 0), (Ok("'x;y';"), 6));
    assert_eq!(compute_next_query("a';", 0), (Ok("a';"), 3));
    assert_eq!(compute_next_query("  \n", 0), (Ok(""), 3));
    assert_eq!(compute_next_query("", 0), (Ok(""), 0));
    assert_eq!(compute_next_query(" x 'a' ", 0), (Err("x 'a'"), 7));
}

#[test]
fn macro_lines_are_refused() {
    let tk = Tokenizer::new(String::new());
    assert_eq!(tk.precompile("no macro here\n", "f"), Ok("no macro here\n".to_string()));
    assert_eq!(tk.precompile("", "f"), Ok(String::new()));
    assert_eq!(
        tk.precompile("x $inc file\nrest", "f"),
        Err("Unknow token: inc".to_string())
    );
    assert_eq!(tk.precompile("$\nabc", "f"), Err("Unknow token: ".to_string()));
    assert_eq!(tk.precompile("a$ b$c", "f"), Err("Unknow token: b".to_string()));
    assert_eq!(
        tk.new_precompile_macro("  load  this ", "f"),
        Err("Unknow token: load".to_string())
    );
    assert_eq!(tk.new_precompile_macro("", "f"), Err("Unknow token: ".to_string()));
    assert_eq!(find_char("abcabc", 'c', 0, 6), 2);
    assert_eq!(find_char("abcabc", 'c', 3, 6), 5);
    assert_eq!(find_char("abcabc", 'c', 3, 5), 5);
    assert_eq!(find_char("abcabc", 'x', 0, 6), 6);
    let out = tk.tokenize_query("GROUPS = g");
    assert_eq!(
        out,
        vec![
            TokenizerMessage::Token(Token::new(TokenType::Keyword, (0, 6), Flag::NoFlag)),
            TokenizerMessage::Token(Token::new(TokenType::Symbol, (7, 8), Flag::NoFlag)),
            TokenizerMessage::Token(Token::new(TokenType::Ident, (9, 10), Flag::NoFlag)),
            TokenizerMessage::End,
        ]
    );
    assert_eq!(
        tk.tokenize_query("= g"),
        vec![TokenizerMessage::Token(Token::error("Syntax error")), TokenizerMessage::End]
    );
}

#[test]
fn bytes_and_characters() {
    assert_eq!(char_width('a'), 1);
    assert_eq!(char_width('\u{7f}'), 1);
    assert_eq!(char_width('\u{80}'), 2);
    assert_eq!(char_width('\u{7ff}'), 2);
    assert_eq!(char_width('\u{800}'), 3);
    assert_eq!(char_width('\u{ffff}'), 3);
    assert_eq!(char_width('\u{10000}'), 4);
    assert_eq!(char_width('\u{10ffff}'), 4);
    let mut n: u32 = 0;
    while n < 0x11000 {
        if let Some(c) = char::from_u32(n) {
            assert_eq!(char_width(c), c.len_utf8());
        }
        n += 1;
    }
    let text = "a\u{e9}\u{20ac}\u{1f600}b";
    assert_eq!(byte_length(text), text.len());
    assert_eq!(byte_length(""), 0);
    assert_eq!(char_position(text, 0), Some(0));
    assert_eq!(char_position(text, 1), Some(1));
    assert_eq!(char_position(text, 2), None);
    assert_eq!(char_position(text, 3), Some(2));
    assert_eq!(char_position(text, 6), Some(3));
    assert_eq!(char_position(text, 8), None);
    assert_eq!(char_position(text, 10), Some(4));
    assert_eq!(char_position(text, 11), Some(5));
    assert_eq!(char_position(text, 12), None);
    for b in 0..=text.len() + 1 {
        assert_eq!(char_position(text, b).is_some(), text.is_char_boundary(b));
    }
}
