//! An arithmetic expression calculator: a position-tracking lexer and a
//! recursive-descent parser that turn a textual expression over
//! `+ - * / % ^ ( )` and decimal literals into an expression tree, or into a
//! precisely located error.

pub mod lex;
pub mod parse;
