#![allow(non_snake_case)]
//! A lexer, a recursive-descent parser and a MEPA code generator for
//! a subset of Pascal.
pub mod tokens;
pub mod texto;
pub mod lexer;
pub mod parser;
pub mod gramatica;
pub mod gerador_mepa;
pub mod posfixa;
pub mod leis_gerador;
pub mod analisador_lexico;
pub mod salva_gerador;
