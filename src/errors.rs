use vstd::prelude::*;

verus! {

/// Every failure that the client reports.
#[derive(Clone, PartialEq, Debug)]
pub enum Error {
    Connect(String),
    DataParse(String),
    InvalidPassword(String),
    Daemon(String),
    Null(String),
    Network(String),
    Status(i32),
    Auth(String),
    InvalidURL(String),
    AlreadyAttached(String),
}

/// What an error says, with its text as characters.
pub enum Failure {
    Connect(Seq<char>),
    DataParse(Seq<char>),
    InvalidPassword(Seq<char>),
    Daemon(Seq<char>),
    Null(Seq<char>),
    Network(Seq<char>),
    Status(i32),
    Auth(Seq<char>),
    InvalidURL(Seq<char>),
    AlreadyAttached(Seq<char>),
}

impl View for Error {
    type V = Failure;

    open spec fn view(&self) -> Failure {
        match self {
            Error::Connect(s) => Failure::Connect(s@),
            Error::DataParse(s) => Failure::DataParse(s@),
            Error::InvalidPassword(s) => Failure::InvalidPassword(s@),
            Error::Daemon(s) => Failure::Daemon(s@),
            Error::Null(s) => Failure::Null(s@),
            Error::Network(s) => Failure::Network(s@),
            Error::Status(c) => Failure::Status(*c),
            Error::Auth(s) => Failure::Auth(s@),
            Error::InvalidURL(s) => Failure::InvalidURL(s@),
            Error::AlreadyAttached(s) => Failure::AlreadyAttached(s@),
        }
    }
}

/// The outcome of a fallible step, with the error seen through its view.
pub open spec fn outcome<T>(r: Result<T, Error>) -> Result<T, Failure> {
    match r {
        Ok(v) => Ok(v),
        Err(e) => Err(e@),
    }
}

impl Error {
    /// A copy of this error, equal to it.
    pub fn copied(&self) -> (r: Error)
        ensures
            r == *self,
    {
        match self {
            Error::Connect(s) => Error::Connect(s.clone()),
            Error::DataParse(s) => Error::DataParse(s.clone()),
            Error::InvalidPassword(s) => Error::InvalidPassword(s.clone()),
            Error::Daemon(s) => Error::Daemon(s.clone()),
            Error::Null(s) => Error::Null(s.clone()),
            Error::Network(s) => Error::Network(s.clone()),
            Error::Status(c) => Error::Status(*c),
            Error::Auth(s) => Error::Auth(s.clone()),
            Error::InvalidURL(s) => Error::InvalidURL(s.clone()),
            Error::AlreadyAttached(s) => Error::AlreadyAttached(s.clone()),
        }
    }
}

} // verus!
