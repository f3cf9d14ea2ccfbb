//! An interpreter for the assembly dialect of the puzzle game "Human Resource Machine".
//!
//! A program is a list of labelled blocks of instructions. The interpreter moves one
//! held value (the "head") between an input queue, an output queue and a sparse memory
//! of numbered tiles, and every step of that is specified and verified.
pub mod text;
pub mod script_object;
pub mod interpreter;
pub mod cli_reader;
