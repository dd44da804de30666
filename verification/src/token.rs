//! Token kinds, flags, tokens and the messages that carry them to a consumer.

use vstd::prelude::*;

verus! {

/// The lexical and structural categories of the grammar.
#[derive(Clone, Copy, Debug, PartialEq, Eq, Hash, Structural)]
pub enum TokenType {
    Ident,
    Number,
    Symbol,
    Operator,
    Keyword,
    Line,
    SerieArg,
    Arg,
    InKeyword,
    Macro,
    Section,
    Expression,
    Value,
    SerieIdent,
    SerieString,
    String,
    SerieChar,
    ComplexChar,
    End,
    BackLine,
    ERROR,
}

/// The contextual role of a token.
#[derive(Clone, Copy, Debug, PartialEq, Eq, Hash, Structural)]
pub enum Flag {
    Section,
    NoFlag,
}

/// The span of an error or line-break token, which covers no text.
pub const EMPTY_TOKEN: (usize, usize) = (0, 0);

/// The diagnostic that the error token of a failed match carries.
pub const PARSING_ERROR: &'static str = "Syntax error";

/// What a token carries: the span of the source that it covers, in bytes
/// from the first to behind the last, or a text of its own.
#[derive(Clone, Copy, Debug, PartialEq, Eq)]
pub enum Content {
    Span(usize, usize),
    Text(&'static str),
}

/// One recognized unit: its kind, what it carries, and its flag. A matched
/// token carries its span; an error token carries its diagnostic.
#[derive(Clone, Copy, Debug, PartialEq, Eq)]
pub struct Token {
    pub token_type: TokenType,
    pub content: Content,
    pub flag: Flag,
}

/// What the tokenizer hands to its consumer: a token, or the end of the run.
#[derive(Clone, Copy, Debug, PartialEq, Eq)]
pub enum TokenizerMessage {
    Token(Token),
    End,
}

/// The primitive kinds are the five leaf-level lexical categories.
pub open spec fn is_primitive(kind: TokenType) -> bool {
    kind == TokenType::Ident || kind == TokenType::Symbol || kind == TokenType::Number || kind
        == TokenType::Operator || kind == TokenType::Keyword
}

/// Tells whether `kind` is one of the primitive kinds.
pub fn primitive(kind: TokenType) -> (r: bool)
    ensures
        r == is_primitive(kind),
{
    kind == TokenType::Ident || kind == TokenType::Symbol || kind == TokenType::Number || kind
        == TokenType::Operator || kind == TokenType::Keyword
}

impl Token {
    /// A token over the span `content` of the source.
    pub fn new(token_type: TokenType, content: (usize, usize), flag: Flag) -> (r: Token)
        ensures
            r == (Token { token_type, content: Content::Span(content.0, content.1), flag }),
    {
        Token { token_type, content: Content::Span(content.0, content.1), flag }
    }

    /// A token of `token_type` that covers no text and has no flag.
    pub fn empty(token_type: TokenType) -> (r: Token)
        ensures
            r == (Token { token_type, content: Content::Span(0, 0), flag: Flag::NoFlag }),
    {
        Token::new(token_type, EMPTY_TOKEN, Flag::NoFlag)
    }

    /// The error token that carries `diagnostic`.
    pub fn error(diagnostic: &'static str) -> (r: Token)
        ensures
            r == (Token {
                token_type: TokenType::ERROR,
                content: Content::Text(diagnostic),
                flag: Flag::NoFlag,
            }),
    {
        Token { token_type: TokenType::ERROR, content: Content::Text(diagnostic), flag: Flag::NoFlag }
    }
}

/// The keywords of the language.
pub open spec fn keywords_spec() -> Seq<&'static str> {
    seq!["GROUPS", "TPRIMS", "CHARS", "in", "END"]
}

/// The section names that may follow `#`.
pub open spec fn sections_spec() -> Seq<&'static str> {
    seq!["DECLARE", "CHAR_RULES", "TPRIM_RULES", "GROUP_RULES"]
}

/// The macro names that may follow `@`.
pub open spec fn macros_spec() -> Seq<&'static str> {
    seq!["DIGITS", "LETTERS", "OTHER"]
}

/// The operators of rule expressions, single or doubled.
pub open spec fn operators_spec() -> Seq<&'static str> {
    seq!["||", "&&", "|", "&"]
}

pub fn keywords() -> (r: Vec<&'static str>)
    ensures
        r@ == keywords_spec(),
{
    let r = vec!["GROUPS", "TPRIMS", "CHARS", "in", "END"];
    assert(r@ =~= keywords_spec());
    r
}

pub fn sections() -> (r: Vec<&'static str>)
    ensures
        r@ == sections_spec(),
{
    let r = vec!["DECLARE", "CHAR_RULES", "TPRIM_RULES", "GROUP_RULES"];
    assert(r@ =~= sections_spec());
    r
}

pub fn macros() -> (r: Vec<&'static str>)
    ensures
        r@ == macros_spec(),
{
    let r = vec!["DIGITS", "LETTERS", "OTHER"];
    assert(r@ =~= macros_spec());
    r
}

pub fn operators() -> (r: Vec<&'static str>)
    ensures
        r@ == operators_spec(),
{
    let r = vec!["||", "&&", "|", "&"];
    assert(r@ =~= operators_spec());
    r
}

} // verus!
