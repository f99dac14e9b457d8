//! A verified assembler for the Hack machine.
//!
//! The assembler turns the lines of a program into words of sixteen binary digits, in two
//! passes: the first gives the labels their positions, the second resolves the symbols and
//! encodes the instructions. Every function of the library carries a contract that Verus
//! proves, and `theorems` states what holds of every assembled program.

pub mod assembler;
pub mod code;
pub mod error;
pub mod instruction;
pub mod numeral;
pub mod parser;
pub mod symbol_table;
pub mod text;
pub mod theorems;
