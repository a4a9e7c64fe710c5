use vstd::prelude::*;

verus! {

/// Everything that can go wrong while parsing or rendering a template.
#[derive(Clone, Debug, PartialEq, Eq)]
pub enum Error {
    Writer,
    MissingTerminal(String),
    UnknownBlock(String),
    NoSuchVariable(String),
    ShouldBeInteger(String),
    NoAssignmentInWith,
    TooManyAssignmentsInWith,
}

/// The mathematical value of an [`Error`]: its kind and the text it names.
pub enum Fault {
    Writer,
    MissingTerminal(Seq<char>),
    UnknownBlock(Seq<char>),
    NoSuchVariable(Seq<char>),
    ShouldBeInteger(Seq<char>),
    NoAssignmentInWith,
    TooManyAssignmentsInWith,
}

impl View for Error {
    type V = Fault;

    open spec fn view(&self) -> Fault {
        match self {
            Error::Writer => Fault::Writer,
            Error::MissingTerminal(s) => Fault::MissingTerminal(s@),
            Error::UnknownBlock(s) => Fault::UnknownBlock(s@),
            Error::NoSuchVariable(s) => Fault::NoSuchVariable(s@),
            Error::ShouldBeInteger(s) => Fault::ShouldBeInteger(s@),
            Error::NoAssignmentInWith => Fault::NoAssignmentInWith,
            Error::TooManyAssignmentsInWith => Fault::TooManyAssignmentsInWith,
        }
    }
}

pub type Result<T> = core::result::Result<T, Error>;

} // verus!
