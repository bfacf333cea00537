//! A front end for the Monkey scripting language: a byte-oriented lexer and
//! a statement-level parser, with their behaviour stated and proved.

pub mod lexer;
pub mod parser;
