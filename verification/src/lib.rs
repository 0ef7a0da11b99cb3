//! A tokenizer for a Python-compatible source language: a backtracking
//! character scanner, sub-lexers for punctuators, names, numbers, strings
//! and comments, a line-orientation and indentation engine, and a pull-based
//! token stream, each proved against a mathematical model of the whole
//! scan. The numeric-atom grammar rules have verified recognizers of their
//! own.

pub mod charclass;
pub mod laws;
pub mod model;
pub mod parser;
pub mod tokenize;
pub mod tokens;
