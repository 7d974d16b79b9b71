//! The interpreter's error kinds.
//!
//! Every handler reports failure through one of these; nothing is recovered
//! from inside the engine, the caller decides (a REPL prints and goes on, a
//! script stops).

use vstd::prelude::*;

verus! {

/// Why a command failed.
#[derive(Debug, PartialEq, Eq)]
pub enum InterpError {
    /// A `$name` or bare variable lookup found no variable of that name.
    UndefinedVariable(String),
    /// A value of the wrong kind reached an operation (say, arithmetic on a
    /// string); holds the variable or operand at fault.
    TypeMismatch(String),
    /// `div` by integer zero or float zero.
    DivisionByZero,
    /// An array index at or past the array's length; holds the array's name.
    IndexOutOfBounds(String, usize),
    /// A dictionary lookup with an absent key: collection name, then key.
    KeyNotFound(String, String),
    /// Wrong arity or shape for a command; holds a usage line.
    MalformedCommand(String),
    /// A command name the dispatcher does not know.
    UnknownCommand(String),
    /// A command that must not run inside `$(...)`; holds the command name.
    IllegalInCaptureMode(String),
    /// Text that had to be a number but was not; holds the text.
    BadNumber(String),
    /// `pop` on an empty array; holds the array's name.
    EmptyCollection(String),
    /// The nesting or iteration budget ran out.
    RecursionLimit,
    /// The host failed to read, write or decode; holds the host's message.
    Io(String),
}

/// The mathematical model of an error: the same kinds over character
/// sequences.
pub enum ErrSpec {
    UndefinedVariable(Seq<char>),
    TypeMismatch(Seq<char>),
    DivisionByZero,
    IndexOutOfBounds(Seq<char>, int),
    KeyNotFound(Seq<char>, Seq<char>),
    MalformedCommand(Seq<char>),
    UnknownCommand(Seq<char>),
    IllegalInCaptureMode(Seq<char>),
    BadNumber(Seq<char>),
    EmptyCollection(Seq<char>),
    RecursionLimit,
    Io(Seq<char>),
}

/// The model of an error.
pub open spec fn emodel(e: InterpError) -> ErrSpec {
    match e {
        InterpError::UndefinedVariable(s) => ErrSpec::UndefinedVariable(s@),
        InterpError::TypeMismatch(s) => ErrSpec::TypeMismatch(s@),
        InterpError::DivisionByZero => ErrSpec::DivisionByZero,
        InterpError::IndexOutOfBounds(s, i) => ErrSpec::IndexOutOfBounds(s@, i as int),
        InterpError::KeyNotFound(c, k) => ErrSpec::KeyNotFound(c@, k@),
        InterpError::MalformedCommand(s) => ErrSpec::MalformedCommand(s@),
        InterpError::UnknownCommand(s) => ErrSpec::UnknownCommand(s@),
        InterpError::IllegalInCaptureMode(s) => ErrSpec::IllegalInCaptureMode(s@),
        InterpError::BadNumber(s) => ErrSpec::BadNumber(s@),
        InterpError::EmptyCollection(s) => ErrSpec::EmptyCollection(s@),
        InterpError::RecursionLimit => ErrSpec::RecursionLimit,
        InterpError::Io(s) => ErrSpec::Io(s@),
    }
}

} // verus!
