//! A calculator's front half: reads an arithmetic expression written with
//! `+ - * /`, parentheses and decimal literals, and reduces it to the tree of
//! operations that fixes its value.

pub mod chars;
pub mod expr;
pub mod grammar;
pub mod lookahead;
pub mod cursor;
pub mod parser;
pub mod progress;
pub mod whitespace;
