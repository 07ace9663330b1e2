//! A small Python interpreter: tokenizer, parser, and the value model its
//! evaluator runs on.
pub mod text;
pub mod lexer;
pub mod ast;
pub mod parser;
pub mod value;
pub mod table;
pub mod heap;
pub mod call;
pub mod rules;
pub mod objects;
pub mod machine;
pub mod json;
pub mod builtins;
pub mod show;
