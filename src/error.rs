use vstd::prelude::*;

use crate::source::SrcRange;

verus! {

/// A token that was required at some place but not found.
#[derive(Copy, Clone, Debug, PartialEq, Eq, Structural)]
pub enum Expected {
    ArityIdent,
    NoArityIdent,
    Pipe,
    Arrow,
    Def,
}

/// A token that was found at a place where it cannot stand.
#[derive(Copy, Clone, Debug, PartialEq, Eq, Structural)]
pub enum Unexpected {
    Eof,
    Def,
    /// A token that cannot begin an expression, such as a stray `->`.
    Token,
}

/// Why a program failed while it ran.
#[derive(Copy, Clone, Debug, PartialEq, Eq, Structural)]
pub enum Fault {
    /// The program defines no `main`.
    NoMain,
    /// A destructuring declaration received something other than a list.
    DestructureNonList,
    /// A destructuring declaration received a list of another length.
    DestructureLength,
    /// An arithmetic operation or comparison received something other than two numbers.
    TypeMismatch,
    /// Arguments remained after the callee had become something other than a function.
    TooManyArguments,
    /// A universe was consumed that is not the current one.
    InvalidUniverse,
    /// A call named neither a local nor a global.
    UnknownItem,
    /// Evaluation went deeper than the depth it was given.
    DepthExceeded,
    /// A built-in operation was given another count of operands than it takes.
    OperandCount,
}

#[derive(Clone, Debug, PartialEq)]
pub enum ErrorKind {
    /// An unexpected character was encountered.
    UnexpectedChar(char),
    /// A delimiter was expected but was never found.
    ExpectedDelimiter(char),
    /// Expected the given thing, but found something else instead.
    Expected(Expected),
    /// An unexpected thing was found.
    Unexpected(Unexpected),
    /// The numerical format was not recognised.
    BadNumber,
    /// The identifier was not found in the current scope.
    UnknownIdent(String),
    /// The parser found an unbalanced net arity.
    IncorrectArity,
    /// Closures are only permitted to have a single parameter.
    OneParamOnly,
    /// The program failed while it ran.
    Fatal(Fault),
}

/// The mathematical form of an `ErrorKind`.
pub enum ErrorKindV {
    UnexpectedChar(char),
    ExpectedDelimiter(char),
    Expected(Expected),
    Unexpected(Unexpected),
    BadNumber,
    UnknownIdent(Seq<char>),
    IncorrectArity,
    OneParamOnly,
    Fatal(Fault),
}

impl View for ErrorKind {
    type V = ErrorKindV;

    open spec fn view(&self) -> ErrorKindV {
        match self {
            ErrorKind::UnexpectedChar(c) => ErrorKindV::UnexpectedChar(*c),
            ErrorKind::ExpectedDelimiter(c) => ErrorKindV::ExpectedDelimiter(*c),
            ErrorKind::Expected(e) => ErrorKindV::Expected(*e),
            ErrorKind::Unexpected(u) => ErrorKindV::Unexpected(*u),
            ErrorKind::BadNumber => ErrorKindV::BadNumber,
            ErrorKind::UnknownIdent(s) => ErrorKindV::UnknownIdent(s@),
            ErrorKind::IncorrectArity => ErrorKindV::IncorrectArity,
            ErrorKind::OneParamOnly => ErrorKindV::OneParamOnly,
            ErrorKind::Fatal(f) => ErrorKindV::Fatal(*f),
        }
    }
}

/// An error of lexing, parsing or running, with the source range it concerns where known.
#[derive(Clone, Debug, PartialEq)]
pub struct Error {
    pub kind: ErrorKind,
    pub range: Option<SrcRange>,
}

/// The mathematical form of an `Error`.
pub struct ErrorV {
    pub kind: ErrorKindV,
    pub range: Option<SrcRange>,
}

impl View for Error {
    type V = ErrorV;

    open spec fn view(&self) -> ErrorV {
        ErrorV { kind: self.kind@, range: self.range }
    }
}

/// An error of the given kind without a range.
pub open spec fn bare(kind: ErrorKindV) -> ErrorV {
    ErrorV { kind, range: None }
}

/// An error of the given kind at the given range.
pub open spec fn ranged(kind: ErrorKindV, range: SrcRange) -> ErrorV {
    ErrorV { kind, range: Some(range) }
}

impl Error {
    pub fn unexpected_char(c: char) -> (r: Self)
        ensures
            r@ == bare(ErrorKindV::UnexpectedChar(c)),
    {
        Error { kind: ErrorKind::UnexpectedChar(c), range: None }
    }

    pub fn expected_delimiter(c: char) -> (r: Self)
        ensures
            r@ == bare(ErrorKindV::ExpectedDelimiter(c)),
    {
        Error { kind: ErrorKind::ExpectedDelimiter(c), range: None }
    }

    pub fn expected(expected: Expected) -> (r: Self)
        ensures
            r@ == bare(ErrorKindV::Expected(expected)),
    {
        Error { kind: ErrorKind::Expected(expected), range: None }
    }

    pub fn unexpected_eof() -> (r: Self)
        ensures
            r@ == bare(ErrorKindV::Unexpected(Unexpected::Eof)),
    {
        Error { kind: ErrorKind::Unexpected(Unexpected::Eof), range: None }
    }

    pub fn unexpected(unexpected: Unexpected) -> (r: Self)
        ensures
            r@ == bare(ErrorKindV::Unexpected(unexpected)),
    {
        Error { kind: ErrorKind::Unexpected(unexpected), range: None }
    }

    pub fn bad_number() -> (r: Self)
        ensures
            r@ == bare(ErrorKindV::BadNumber),
    {
        Error { kind: ErrorKind::BadNumber, range: None }
    }

    pub fn unknown_ident(name: String) -> (r: Self)
        ensures
            r@ == bare(ErrorKindV::UnknownIdent(name@)),
    {
        Error { kind: ErrorKind::UnknownIdent(name), range: None }
    }

    pub fn incorrect_arity() -> (r: Self)
        ensures
            r@ == bare(ErrorKindV::IncorrectArity),
    {
        Error { kind: ErrorKind::IncorrectArity, range: None }
    }

    pub fn one_param_only() -> (r: Self)
        ensures
            r@ == bare(ErrorKindV::OneParamOnly),
    {
        Error { kind: ErrorKind::OneParamOnly, range: None }
    }

    pub fn fatal(fault: Fault) -> (r: Self)
        ensures
            r@ == bare(ErrorKindV::Fatal(fault)),
    {
        Error { kind: ErrorKind::Fatal(fault), range: None }
    }

    /// The same error, placed at `range`.
    pub fn at(self, range: SrcRange) -> (r: Self)
        ensures
            r@ == ranged(self@.kind, range),
    {
        Error { kind: self.kind, range: Some(range) }
    }
}

} // verus!
