//! An interpreter for a minimal tape language of eight instructions.
//!
//! A program text is parsed into a sequence of [`Instruction`]s, which an
//! [`Interpreter`] then executes against a byte tape that grows on demand at
//! either end.  Every executable function carries a contract over a
//! mathematical model of the interpreter, and the laws of that model are
//! proved beside it:
//!
//! - [`instruction`]: the instruction alphabet and the parser;
//! - [`brackets`]: which bracket a jump goes to, and the scans that find it;
//! - [`machine`]: the state of the interpreter and what one step does to it;
//! - [`execution`]: what a run of many steps amounts to;
//! - [`patterns`]: what particular instruction sequences do when run;
//! - [`interpreter`]: the executable interpreter.

pub mod brackets;
pub mod execution;
pub mod instruction;
pub mod interpreter;
pub mod machine;
pub mod patterns;

pub use execution::Halt;
pub use instruction::Instruction;
pub use interpreter::{Interpreter, Outcome};
pub use machine::Fault;
