use treelex::expression::read_args;
use treelex::interpreteur::{execute, has_identity, has_symbol, Interpreteur, SectionKind};
use treelex::rule_tree::{add_node, copy_forest, merge_node_forests, merged, Identity, Node};
use treelex::token::{Flag, Token, TokenType, TokenizerMessage};
use treelex::tokenizer::Tokenizer;

fn leaf(s: &str) -> Node<'_> {
    Node::Leaf(s)
}

fn node<'a>(s: &'a str, can_end: bool, kids: Vec<Node<'a>>) -> Node<'a> {
    Node::Node(s, can_end, kids)
}

fn line(from: usize, to: usize) -> Token {
    Token::new(TokenType::Line, (from, to), Flag::NoFlag)
}

fn declared<'a>(text: &'a str) -> Interpreteur<'a> {
    let mut interp = Interpreteur::new(text);
    let out = Tokenizer::new(text.to_string()).tokenize_file();
    assert_eq!(execute(&mut interp, &out), Ok(()));
    interp
}

const XYZ: &str = "#DECLARE\nCHARS = X, Y, Z, A, B, C\nTPRIMS = T";

fn sorted_children<'a>(n: &Node<'a>) -> (&'a str, Vec<&'a str>) {
    match n {
        Node::Node(l, _, kids) => {
            let mut labels: Vec<&str> = kids.iter().map(|k| k.typechar()).collect();
            labels.sort();
            (l, labels)
        }
        Node::Leaf(l) => (l, vec![]),
    }
}

#[test]
fn shared_prefix_folds_into_one_root() {
    let interp = declared(XYZ);
    let forest = interp.ptoken_building_tree("T", "X & Y | X & Z").unwrap();
    assert_eq!(forest, vec![node("X", false, vec![leaf("Y"), leaf("Z")])]);
    let doubled = interp.ptoken_building_tree("T", "X && Y || X && Z").unwrap();
    assert_eq!(doubled, forest);
}

#[test]
fn alternation_order_changes_only_the_order_of_children() {
    let interp = declared(XYZ);
    let one = interp.ptoken_building_tree("T", "A & B | A & C").unwrap();
    let two = interp.ptoken_building_tree("T", "A & C | A & B").unwrap();
    assert_eq!(one, vec![node("A", false, vec![leaf("B"), leaf("C")])]);
    assert_eq!(two, vec![node("A", false, vec![leaf("C"), leaf("B")])]);
    assert_eq!(one.len(), two.len());
    assert_eq!(sorted_children(&one[0]), sorted_children(&two[0]));
}

#[test]
fn the_flag_of_the_first_alternative_stays() {
    let interp = declared(XYZ);
    let one = interp.ptoken_building_tree("T", "A{END} & B | A & C").unwrap();
    let two = interp.ptoken_building_tree("T", "A & C | A{END} & B").unwrap();
    assert_eq!(one, vec![node("A", true, vec![leaf("B"), leaf("C")])]);
    assert_eq!(two, vec![node("A", false, vec![leaf("C"), leaf("B")])]);
}

#[test]
fn merge_with_itself_changes_nothing() {
    let interp = declared(XYZ);
    let forest = interp.ptoken_building_tree("T", "A & B").unwrap();
    assert_eq!(forest, vec![node("A", false, vec![leaf("B")])]);
    let mut merged_forest = copy_forest(&forest);
    merge_node_forests(&mut merged_forest, &forest);
    assert_eq!(merged_forest, forest);

    let big = interp
        .ptoken_building_tree("T", "A & (B | C & X) | Y | Z{END} & A")
        .unwrap();
    let mut again = copy_forest(&big);
    merge_node_forests(&mut again, &big);
    assert_eq!(again, big);
}

#[test]
fn arguments_of_a_term() {
    assert_eq!(
        Interpreteur::extract_root("A{\"1\",\"2\", END}"),
        Some(("A", true, true, vec!["1", "2"]))
    );
    assert_eq!(Interpreteur::extract_root(" A "), Some(("A", false, false, vec![])));
    assert_eq!(Interpreteur::extract_root("A{END}"), Some(("A", true, true, vec![])));
    assert_eq!(Interpreteur::extract_root("A {\"a,b\"}"), Some(("A", true, false, vec!["a,b"])));
    assert_eq!(Interpreteur::extract_root("A{\"1\""), None);
    assert_eq!(Interpreteur::extract_root("A{1}"), None);
    assert_eq!(Interpreteur::extract_root("A{}"), None);
    assert_eq!(Interpreteur::extract_root("A{\"1\",}"), None);
}

#[test]
fn end_marks_a_node_as_acceptance_capable() {
    let interp = declared(XYZ);
    let forest = interp.ptoken_building_tree("T", "A{\"1\",\"2\", END} & B").unwrap();
    assert_eq!(forest, vec![node("A", true, vec![leaf("B")])]);
    let alone = interp.ptoken_building_tree("T", "A{\"1\",\"2\", END}").unwrap();
    assert_eq!(alone, vec![leaf("A")]);
}

#[test]
fn one_argument_at_a_time() {
    assert_eq!(Interpreteur::match_node_arg(" END ", vec!["x"], false), Some((true, vec!["x"])));
    assert_eq!(Interpreteur::match_node_arg("\"lit\"", vec!["x"], false), Some((false, vec!["x", "lit"])));
    assert_eq!(Interpreteur::match_node_arg("\"\"", vec![], true), Some((true, vec![""])));
    assert_eq!(Interpreteur::match_node_arg("lit", vec![], false), None);
    assert_eq!(Interpreteur::match_node_arg("\"", vec![], false), None);
    assert_eq!(read_args("\"a\", END ,\"b\""), Some((true, vec!["a", "b"])));
    assert_eq!(read_args(""), None);
}

#[test]
fn splitting_at_separators() {
    assert_eq!(Interpreteur::get_next_expr("A & B | C", '|'), ("A & B", "C", true));
    assert_eq!(Interpreteur::get_next_expr("A & B", '&'), ("A", "B", true));
    assert_eq!(Interpreteur::get_next_expr("A && B", '&'), ("A", "B", true));
    assert_eq!(Interpreteur::get_next_expr("A&B&C", '&'), ("A", "B&C", true));
    assert_eq!(Interpreteur::get_next_expr("(A | B) & C", '|'), ("(A | B) & C", "", false));
    assert_eq!(Interpreteur::get_next_expr("(A | B) & C", '&'), ("(A | B)", "C", true));
    assert_eq!(Interpreteur::get_next_expr("(A | B)", '|'), ("A", "B", true));
    assert_eq!(Interpreteur::get_next_expr("((A))", '|'), ("A", "", false));
    assert_eq!(Interpreteur::get_next_expr("(A) & (B)", '|'), ("(A) & (B)", "", false));
    assert_eq!(Interpreteur::get_next_expr("(A) & (B)", '&'), ("(A)", "(B)", true));
    assert_eq!(Interpreteur::get_next_expr("(A)(B)", '|'), ("(A)(B)", "", false));
    assert_eq!(Interpreteur::get_next_expr(" (A) ", '|'), ("(A)", "", false));
    assert_eq!(Interpreteur::get_next_expr("(A{\")\"} | B)", '|'), ("A{\")\"}", "B", true));
    assert_eq!(Interpreteur::get_next_expr("()", '|'), ("", "", false));
    assert_eq!(Interpreteur::get_next_expr("A{\"(\"} | B", '|'), ("A{\"(\"}", "B", true));
    assert!(Interpreteur::wrapped("(A | (B))"));
    assert!(!Interpreteur::wrapped("(A) | (B)"));
    assert!(!Interpreteur::wrapped("(A"));
    assert!(!Interpreteur::wrapped("A)"));
    assert!(!Interpreteur::wrapped("("));
    assert_eq!(Interpreteur::get_next_expr("A{\"|\"} | B", '|'), ("A{\"|\"}", "B", true));
    assert_eq!(Interpreteur::get_next_expr("A) | B", '|'), ("A)", "B", true));
    assert_eq!(Interpreteur::get_next_expr("(A | B", '|'), ("(A | B", "", false));
    assert_eq!(Interpreteur::get_next_expr("", '|'), ("", "", false));
    assert_eq!(Interpreteur::get_next_expr("A |", '|'), ("A", "", true));
    assert_eq!(Interpreteur::get_next_expr("| A", '|'), ("", "A", true));
}

#[test]
fn nested_expressions() {
    let interp = declared(XYZ);
    let forest = interp.ptoken_building_tree("T", "A & (B | C & X) | Y").unwrap();
    assert_eq!(
        forest,
        vec![
            node("A", false, vec![leaf("B"), node("C", false, vec![leaf("X")])]),
            leaf("Y"),
        ]
    );
    let both = interp.ptoken_building_tree("T", "A | A & B").unwrap();
    assert_eq!(both, vec![node("A", true, vec![leaf("B")])]);
    let other = interp.ptoken_building_tree("T", "A & B | A").unwrap();
    assert_eq!(other, vec![node("A", true, vec![leaf("B")])]);
    assert_eq!(interp.ptoken_building_tree("T", "   ").unwrap(), vec![]);
}

#[test]
fn self_reference() {
    let interp = declared(XYZ);
    let forest = interp.ptoken_building_tree("T", "A & T | B").unwrap();
    assert_eq!(forest, vec![node("A", false, vec![leaf("T")]), leaf("B")]);
    assert_eq!(
        interp.ptoken_building_tree("T", "A & T{END}"),
        Err("The rule of 'T' refers to itself with arguments.".to_string())
    );
    let fresh = Interpreteur::new("");
    assert_eq!(fresh.ptoken_building_tree("R", "R & R").unwrap(), vec![node("R", false, vec![leaf("R")])]);
}

#[test]
fn compile_errors() {
    let interp = declared(XYZ);
    assert_eq!(
        interp.ptoken_building_tree("T", "A & Q"),
        Err("The symbol 'Q' is not declared.".to_string())
    );
    assert_eq!(
        interp.ptoken_building_tree("T", "(A & B"),
        Err("The symbol '(A & B' is not declared.".to_string())
    );
    assert_eq!(
        interp.ptoken_building_tree("T", "A & | B"),
        Err("Malformed expression near 'A'.".to_string())
    );
    assert_eq!(
        interp.ptoken_building_tree("T", "| B"),
        Err("Malformed expression near ''.".to_string())
    );
    assert_eq!(
        interp.ptoken_building_tree("T", "A |"),
        Err("Malformed expression near 'A'.".to_string())
    );
    assert_eq!(
        interp.ptoken_building_tree("T", "A & END"),
        Err("Malformed expression near 'END'.".to_string())
    );
    assert_eq!(
        interp.ptoken_building_tree("T", "A{x} & B"),
        Err("Malformed expression near 'A{x}'.".to_string())
    );
}

#[test]
fn merge_rules() {
    let mut n = node("A", false, vec![leaf("B")]);
    n.merge(&leaf("A"));
    assert_eq!(n, node("A", true, vec![leaf("B")]));
    let mut l = leaf("A");
    l.merge(&node("Z", false, vec![leaf("C")]));
    assert_eq!(l, node("Z", true, vec![leaf("C")]));
    let mut l2 = leaf("A");
    l2.merge(&leaf("B"));
    assert_eq!(l2, leaf("A"));
    let mut m = node("A", false, vec![leaf("B"), node("C", false, vec![leaf("D")])]);
    m.merge(&node("A", true, vec![node("C", false, vec![leaf("E")]), leaf("F"), node("B", false, vec![leaf("G")])]));
    assert_eq!(
        m,
        node(
            "A",
            false,
            vec![
                node("B", true, vec![leaf("G")]),
                node("C", false, vec![leaf("D"), leaf("E")]),
                leaf("F"),
            ]
        )
    );
    assert_eq!(merged(leaf("A"), &leaf("A")), leaf("A"));
    assert_eq!(m.typechar(), "A");
    assert_eq!(m.copy(), m);
    let mut f = vec![leaf("A")];
    add_node(&mut f, leaf("B"));
    add_node(&mut f, node("A", false, vec![leaf("C")]));
    assert_eq!(f, vec![node("A", true, vec![leaf("C")]), leaf("B")]);
}

#[test]
fn identities() {
    let mut t = Identity::token("T");
    assert_eq!(t.name, "T");
    assert!(t.forest.is_empty());
    assert_eq!(t.constraints, Some(vec![]));
    assert_eq!(t.set_constraints(vec!["a", "b"]), Ok(()));
    assert_eq!(t.constraints, Some(vec!["a", "b"]));
    assert_eq!(t.set_forest(vec![leaf("X")]), Ok(()));
    assert_eq!(t.forest, vec![leaf("X")]);
    let mut g = Identity::group("G");
    assert_eq!(g.constraints, None);
    assert_eq!(
        g.set_constraints(vec!["a"]),
        Err("You tried to assign constraints to a group, it's not supported by the language yet."
            .to_string())
    );
    assert_eq!(g.constraints, None);
}

#[test]
fn lines_split_at_their_operator() {
    assert_eq!(Interpreteur::split_line("A = B & C"), Some(("A ", "=", " B & C")));
    assert_eq!(Interpreteur::split_line("T in [\"a\"]"), Some(("T ", "in", " [\"a\"]")));
    assert_eq!(Interpreteur::split_line("in = x"), Some(("in ", "=", " x")));
    assert_eq!(Interpreteur::split_line("Tin x"), None);
    assert_eq!(Interpreteur::split_line("a b"), None);
    assert_eq!(Interpreteur::split_line("=x"), Some(("", "=", "x")));
}

#[test]
fn declarations_fill_the_tables() {
    let text = "#DECLARE\nCHARS = a, b ,a\nTPRIMS = T, U\nGROUPS = G";
    let interp = declared(text);
    assert_eq!(interp.symb_types, vec![("a", ""), ("b", "")]);
    let tokens: Vec<&str> = interp.token_types.iter().map(|i| i.name).collect();
    assert_eq!(tokens, vec!["T", "U"]);
    assert_eq!(interp.token_types[0].constraints, Some(vec![]));
    let groups: Vec<&str> = interp.group_types.iter().map(|i| i.name).collect();
    assert_eq!(groups, vec!["G"]);
    assert_eq!(interp.group_types[0].constraints, None);
    assert_eq!(interp.current_section, "DECLARE");
    assert!(interp.is_declared("a") && interp.is_declared("U") && interp.is_declared("G"));
    assert!(!interp.is_declared("c"));
    assert_eq!(has_symbol(&interp.symb_types, "b"), Some(1));
    assert_eq!(has_identity(&interp.token_types, "U"), Some(1));
    assert_eq!(has_identity(&interp.token_types, "G"), None);
}

#[test]
fn whole_file() {
    let text = "#DECLARE\nCHARS = X, Y, Z\nTPRIMS = T\nGROUPS = G\n#CHAR_RULES\nX = \"x\"\n#TPRIM_RULES\nT = X && Y || X && Z\nT in [\"a\", \"b\"]\n#GROUP_RULES\nG = T && G\n";
    let interp = declared(text);
    assert_eq!(interp.symb_types, vec![("X", "x"), ("Y", ""), ("Z", "")]);
    assert_eq!(
        interp.token_types[0].forest,
        vec![node("X", false, vec![leaf("Y"), leaf("Z")])]
    );
    assert_eq!(interp.token_types[0].constraints, Some(vec!["a", "b"]));
    assert_eq!(interp.group_types[0].forest, vec![node("T", false, vec![leaf("G")])]);
    assert_eq!(interp.current_section, "GROUP_RULES");
}

#[test]
fn consumer_errors() {
    let text = "X = Y\n#NOWHERE\n#DECLARE\nWORDS = a\nno operator\n#TPRIM_RULES\nT = X\n#CHAR_RULES\n#GROUP_RULES\nT ~ X\n";
    let mut interp = Interpreteur::new(text);
    assert_eq!(interp.new_token(line(0, 5)), Err("The section  doesn't exist".to_string()));
    assert_eq!(interp.new_token(line(6, 14)), Ok(()));
    assert_eq!(interp.new_token(line(0, 5)), Err("The section NOWHERE doesn't exist".to_string()));
    assert_eq!(interp.new_token(line(15, 23)), Ok(()));
    assert_eq!(interp.new_token(line(24, 33)), Err("You can't define 'WORDS'".to_string()));
    assert_eq!(interp.new_token(line(34, 45)), Err("Failed to tokenize a line".to_string()));
    assert_eq!(interp.new_token(line(46, 58)), Ok(()));
    assert_eq!(
        interp.new_token(line(59, 64)),
        Err("The primitve token T doesn't exists.".to_string())
    );
    assert_eq!(interp.new_token(line(65, 76)), Ok(()));
    assert_eq!(
        interp.new_token(line(59, 64)),
        Err("T is an undefined symbol type.".to_string())
    );
    assert_eq!(interp.new_token(line(77, 89)), Ok(()));
    assert_eq!(
        interp.new_token(line(59, 64)),
        Err("The group token T doesn't exists.".to_string())
    );
    assert_eq!(
        interp.new_token(line(5, 2)),
        Err("The span of the line lies outside the text.".to_string())
    );
    assert_eq!(
        interp.new_token(line(0, 1000)),
        Err("The span of the line lies outside the text.".to_string())
    );
    assert_eq!(interp.new_token(Token::new(TokenType::Ident, (0, 1000), Flag::NoFlag)), Ok(()));
}

#[test]
fn rules_of_primitive_tokens() {
    let text = "#DECLARE\nCHARS = X\nTPRIMS = T\n#TPRIM_RULES\n";
    let mut interp = declared(text);
    assert_eq!(
        interp.tprim_rules_token("T", "+", "X", TokenType::Line),
        Err("This operator isn't authorized here: +".to_string())
    );
    assert_eq!(
        interp.tprim_rules_token("T", "in", "\"a\"", TokenType::Line),
        Err("Malformed list of literals: '\"a\"'.".to_string())
    );
    assert_eq!(
        interp.tprim_rules_token("T", "in", "[END]", TokenType::Line),
        Err("Malformed list of literals: '[END]'.".to_string())
    );
    assert_eq!(
        interp.tprim_rules_token("T", "=", "Q", TokenType::Line),
        Err("The symbol 'Q' is not declared.".to_string())
    );
    assert!(interp.token_types[0].forest.is_empty());
    assert_eq!(interp.tprim_rules_token("T", "=", "X", TokenType::Line), Ok(()));
    assert_eq!(interp.token_types[0].forest, vec![leaf("X")]);
    assert_eq!(
        interp.symb_rules_token("X", "=", "\"", TokenType::Line),
        Err("Malformed definition of 'X'.".to_string())
    );
    assert_eq!(interp.symb_rules_token("X", "=", "\"abc\"", TokenType::Line), Ok(()));
    assert_eq!(interp.symb_types, vec![("X", "abc")]);
    assert_eq!(interp.define_token("GROUPS", "=", "G , H", TokenType::Line), Ok(()));
    assert_eq!(interp.group_rules_token("H", "=", "G & T{\"x\", END} & X", TokenType::Line), Ok(()));
    assert_eq!(
        interp.group_types[1].forest,
        vec![node("G", false, vec![node("T", true, vec![leaf("X")])])]
    );
}

#[test]
fn execute_stops_at_errors_and_at_the_end() {
    let text = "#DECLARE\nCHARS = a";
    let mut interp = Interpreteur::new(text);
    let error = TokenizerMessage::Token(Token::error("Syntax error"));
    let first = TokenizerMessage::Token(line(0, 9));
    let second = TokenizerMessage::Token(line(9, 18));
    assert_eq!(
        execute(&mut interp, &vec![first, error, second]),
        Err("Syntax error".to_string())
    );
    assert_eq!(interp.current_section, "DECLARE");
    assert!(interp.symb_types.is_empty());
    assert_eq!(execute(&mut interp, &vec![TokenizerMessage::End, second]), Ok(()));
    assert!(interp.symb_types.is_empty());
    assert_eq!(execute(&mut interp, &vec![second]), Ok(()));
    assert_eq!(interp.symb_types, vec![("a", "")]);
    let mut lost = Interpreteur::new(text);
    assert_eq!(
        execute(&mut lost, &vec![second, first]),
        Err("The section  doesn't exist".to_string())
    );
    assert_eq!(interp.section(), Some(SectionKind::Declare));
    assert_eq!(lost.section(), None);
    let map = Interpreteur::build_section_map();
    assert_eq!(map[2], ("TPRIM_RULES", SectionKind::TPrimRules));
}

#[test]
fn lines_are_sliced_by_bytes() {
    let text = "#DECLARE\nCHARS = a, \u{e9}\u{20ac}\nTPRIMS = T\n";
    let mut interp = Interpreteur::new(text);
    assert_eq!(interp.new_token(line(0, 9)), Ok(()));
    assert_eq!(interp.new_token(line(9, 26)), Ok(()));
    assert_eq!(interp.symb_types, vec![("a", ""), ("\u{e9}\u{20ac}", "")]);
    assert_eq!(interp.new_token(line(26, 37)), Ok(()));
    let tokens: Vec<&str> = interp.token_types.iter().map(|i| i.name).collect();
    assert_eq!(tokens, vec!["T"]);
    assert_eq!(
        interp.new_token(line(9, 21)),
        Err("The span of the line lies outside the text.".to_string())
    );
    assert_eq!(
        interp.new_token(line(23, 37)),
        Err("The span of the line lies outside the text.".to_string())
    );
    assert_eq!(
        interp.new_token(line(26, text.len() + 1)),
        Err("The span of the line lies outside the text.".to_string())
    );
    assert_eq!(interp.new_token(line(text.len(), text.len())), Err("Failed to tokenize a line".to_string()));
    let carried = Token::error("Syntax error");
    assert_eq!(interp.new_token(carried), Ok(()));
    let mut other = Interpreteur::new(text);
    let own = TokenizerMessage::Token(Token::error("Broken input"));
    assert_eq!(execute(&mut other, &vec![own]), Err("Broken input".to_string()));
    let spanned = TokenizerMessage::Token(Token::new(TokenType::ERROR, (0, 0), Flag::NoFlag));
    assert_eq!(execute(&mut other, &vec![spanned]), Err("Syntax error".to_string()));
}

#[test]
fn a_file_with_wide_characters() {
    let text = "#DECLARE\nGROUPS = g ~ d\u{e9}claration \u{20ac}\nTPRIMS = T\n";
    let interp = declared(text);
    let groups: Vec<&str> = interp.group_types.iter().map(|i| i.name).collect();
    assert_eq!(groups, vec!["g ~ d\u{e9}claration \u{20ac}"]);
    let tokens: Vec<&str> = interp.token_types.iter().map(|i| i.name).collect();
    assert_eq!(tokens, vec!["T"]);
}
