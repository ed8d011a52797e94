//! An interpreter for a small stack-oriented scripting language.
//!
//! A program is a stream of tokens. Literals are pushed on an operand stack,
//! operators pop their operands from it, and brace-delimited bodies give
//! loops, conditionals and functions. There is no parse tree: the tokenizer
//! reads the source text on demand, and every jump (a loop going round, a
//! break, a call, a return) is a change of the tokenizer's cursor.
//!
//! Each executable function carries a contract over a mathematical model of
//! the interpreter: [`lexer::scan`] says which token follows a cursor, and
//! [`engine::step`] says what one token does to the whole machine. The
//! modules [`laws`], [`balance`] and [`spacing`] hold what is proved of that
//! model.
//!
//! ```text
//! 0 =i ~{ i 3 == ? { $ } i . i 1 + =i }     // writes 0, 1 and 2
//! #double { 2 * } 21 double .               // writes 42
//! ```

pub mod balance;
pub mod engine;
pub mod error;
pub mod laws;
pub mod lexer;
pub mod scope;
pub mod spacing;
pub mod stack;
pub mod text;
pub mod token;
pub mod value;

pub use engine::{Brace, Event, Interpreter, Status};
pub use error::Error;
pub use lexer::Lexer;
pub use scope::VarStore;
pub use stack::OpStack;
pub use token::{Glyph, Op, Operator};
pub use value::Operand;
