use vstd::prelude::*;

verus! {

/// The kinds of failure that compiling or running a program can report.
#[derive(Debug, Clone, Copy, PartialEq, Eq, Structural)]
pub enum ErrorKind {
    /// A symbol that no enclosing `lambda` binds (compile time).
    NameError,
    /// A malformed special form (compile time).
    SyntaxError,
    /// A wrong number of actuals, or an actual list that is not proper (compile time).
    ArityError,
    /// A value of the wrong shape at run time, or a literal in head position.
    TypeError,
    /// Division by zero, or a result outside the signed 32-bit range.
    ArithmeticError,
    /// A violation of the dump or stack discipline that compiled code never causes.
    InternalError,
}

/// An error: its kind and a message for people.
#[derive(Debug, Clone)]
pub struct Error {
    pub kind: ErrorKind,
    pub message: String,
}

/// The model of an error: its kind and the characters of its message.
pub struct Fault {
    pub kind: ErrorKind,
    pub message: Seq<char>,
}

/// The error model of a kind and a message.
pub open spec fn fault(kind: ErrorKind, message: Seq<char>) -> Fault {
    Fault { kind, message }
}

impl View for Error {
    type V = Fault;

    open spec fn view(&self) -> Fault {
        fault(self.kind, self.message@)
    }
}

/// Builds an error of the given kind and message.
pub fn error(kind: ErrorKind, message: &str) -> (e: Error)
    ensures
        e@ == fault(kind, message@),
{
    Error { kind, message: String::from_str(message) }
}

impl Error {
    /// The error as text: its message.
    pub fn to_string(&self) -> (r: String)
        ensures
            r@ == self.message@,
    {
        self.message.clone()
    }
}

} // verus!
