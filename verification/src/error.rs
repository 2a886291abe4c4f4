//! Errors of the PLAID codec, storage and search pipeline.

use vstd::prelude::*;

verus! {

/// Errors returned by the PLAID codec, storage, and search pipeline.
#[derive(Debug)]
pub enum Error {
    /// An API input or index-construction argument is invalid.
    InvalidInput(String),
    /// A persisted PLAID file violates the versioned format.
    CorruptFile(String),
    /// A matrix could not be constructed with the requested shape.
    Shape(String),
}

/// Result type for the PLAID crate.
pub type Result<T> = std::result::Result<T, Error>;

/// What an [`Error`] says, with its text as a sequence of characters.
pub enum Fault {
    InvalidInput(Seq<char>),
    CorruptFile(Seq<char>),
    Shape(Seq<char>),
}

impl View for Error {
    type V = Fault;

    open spec fn view(&self) -> Fault {
        match self {
            Error::InvalidInput(message) => Fault::InvalidInput(message@),
            Error::CorruptFile(message) => Fault::CorruptFile(message@),
            Error::Shape(message) => Fault::Shape(message@),
        }
    }
}

impl Fault {
    /// The text shown to a user: the kind of error, then its message.
    pub open spec fn rendered(self) -> Seq<char> {
        match self {
            Fault::InvalidInput(message) => "invalid PLAID input: "@ + message,
            Fault::CorruptFile(message) => "corrupt PLAID file: "@ + message,
            Fault::Shape(message) => "invalid PLAID array shape: "@ + message,
        }
    }

    /// An error met while loading a file is reported as a corrupt file that
    /// quotes the error's own text.
    pub open spec fn in_file(self) -> Fault {
        Fault::CorruptFile(self.rendered())
    }
}

impl Error {
    /// The text shown to a user.
    pub fn to_string(&self) -> (result: String)
        ensures
            result@ == self@.rendered(),
    {
        let (head, message) = match self {
            Error::InvalidInput(message) => ("invalid PLAID input: ", message),
            Error::CorruptFile(message) => ("corrupt PLAID file: ", message),
            Error::Shape(message) => ("invalid PLAID array shape: ", message),
        };
        let mut text = head.to_owned();
        text.push_str(message.as_str());
        text
    }

    /// Reports an error met while loading a file.
    pub fn in_file(self) -> (result: Error)
        ensures
            result@ == self@.in_file(),
    {
        Error::CorruptFile(self.to_string())
    }

    /// An [`Error::InvalidInput`] with a fixed text.
    pub fn invalid(message: &str) -> (result: Error)
        ensures
            result@ == Fault::InvalidInput(message@),
    {
        Error::InvalidInput(message.to_owned())
    }

    /// An [`Error::CorruptFile`] with a fixed text.
    pub fn corrupt(message: &str) -> (result: Error)
        ensures
            result@ == Fault::CorruptFile(message@),
    {
        Error::CorruptFile(message.to_owned())
    }
}

} // verus!
