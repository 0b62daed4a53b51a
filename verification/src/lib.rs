//! An interactive calculator language: scanner, recursive-descent parser,
//! name resolution against a persistent environment, and decimal formatting
//! of results.
//!
//! The way of a line of input:
//!
//! - [`scanner`] turns the text into tokens;
//! - [`interpreter::parser`] turns the tokens into a statement;
//! - [`interpreter`] resolves the statement against the environment of the
//!   session ([`interpreter::env`]) into a program of arithmetic steps;
//! - [`interpreter::evaluation`] walks through the program and, at its end,
//!   lets the statement take effect;
//! - [`util`] writes the result out in decimal digits.
//!
//! The crate decides *what* is computed; the arithmetic on numbers of 256
//! bits is carried out by the embedding program, which answers the requests
//! of an [`interpreter::evaluation::Evaluation`] one at a time.
//! [`interpreter::meaning`] says what a statement means without any steps,
//! and proves that programs and their evaluation compute just that.
//!
//! [`editor`] holds the state of the line editor around the calculator.

pub mod editor;
pub mod interpreter;
pub mod number;
pub mod scanner;
pub mod text;
pub mod util;
