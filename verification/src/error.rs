use vstd::prelude::*;

verus! {

/// Why a run was aborted.
///
/// An error is detected at the token that causes it and ends the run: the
/// language has no way to recover. A function that returns an error leaves
/// what it was given as it found it, so the cursor still stands in front of
/// the offending token.
#[derive(Clone, Copy, Debug, PartialEq, Eq, Structural)]
pub enum Error {
    /// A character that starts no token.
    UnrecognizedChar(char),
    /// A text literal that the end of the source cuts off: no quote of the
    /// kind that opened it follows.
    UnterminatedText,
    /// An integer literal that does not fit in 32 bits.
    NumberTooLarge,
    /// A closing brace while no body is open.
    UnmatchedClose,
    /// The source ended while a body was still open.
    UnclosedBody,
    /// A body that had to be skipped has no balanced pair of braces.
    UnbalancedBody,
    /// No opening brace follows a loop, else or define mark.
    MissingBody,
    /// A break with no loop or function around it.
    BreakOutsideLoop,
    /// An operator met operands of types it does not accept.
    TypeMismatch,
    /// Division by zero.
    DivisionByZero,
    /// The result of an arithmetic operator does not fit in 32 bits.
    Overflow,
    /// An index that is negative or not below the length of the text.
    IndexOutOfRange,
    /// A name that is neither a variable in scope nor a function.
    UnknownName,
    /// An operator needed more operands than the stack holds.
    StackUnderflow,
    /// An assignment while the stack is empty.
    EmptyAssign,
}

} // verus!
