//! A stack-machine calculator: expressions in infix, postfix or raw
//! notation are compiled into a small instruction set, and a machine with
//! a stack and a bank of memory cells executes the instructions one at a
//! time.
//!
//! Numbers are 64-bit IEEE-754 values. The library carries each of them as
//! its bit pattern in a `u64`. It compares and negates them, and leaves
//! the rest to its caller:
//!
//! - a scanner hands out every numeric literal as `Token::Literal`, and the
//!   caller replaces those that it can read by `Token::Number` before the
//!   tokens are compiled;
//! - an instruction of arithmetic pops its operands and hands them out as
//!   `Outcome::Compute`, and the caller pushes the result;
//! - the instruction that loads a random number hands out
//!   `Outcome::Sample`, and the caller pushes a sample;
//! - `Instruction::to_string` takes the text of a number from the caller.
//!
//! `scanner` and `parser` compile, `machine` executes, `console` is the
//! calculator behind its keyboard. `evaluation`, `laws` and `termination`
//! state and prove what holds of them.

pub mod console;
pub mod evaluation;
pub mod instructions;
pub mod laws;
pub mod machine;
pub mod number;
pub mod parser;
pub mod scanner;
pub mod termination;
pub mod text;
pub mod token;
