//! A bootstrapping lexer toolkit: a backtracking tokenizer driven by a static
//! grammar tree, and a compiler from rule expressions to prefix-merged rule
//! trees.
//!
//! The tokenizer walks the grammar over each logical line of a text and
//! emits a stream of tokens with their spans. The consumer of that stream
//! records what the text declares and compiles the rule of each declared
//! name into a forest of rule trees, in which alternatives that share a
//! root label are merged.

pub mod text;
pub mod bytes;
pub mod token;
pub mod stack;
pub mod string_builder;
pub mod cursor;
pub mod grammar;
pub mod grammar_tree;
pub mod candidates;
pub mod tokenizer;
pub mod stream;
pub mod rule_tree;
pub mod merge_laws;
pub mod expression;
pub mod interpreteur;
pub mod sections;
pub mod precompile;
