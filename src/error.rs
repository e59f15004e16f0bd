use vstd::prelude::*;

verus! {

/// The kind of failure met while parsing a `Link:` header.
#[derive(Copy, Clone, Debug, PartialEq, Eq, Structural)]
pub enum ErrorKind {
    /// An invariant of the parser itself did not hold.
    InternalError,
    /// A link reference could not be parsed as a URI.
    InvalidURI,
    /// A link parameter lacks its `=`.
    MalformedParam,
    /// A pair of the reference's query lacks its `=`.
    MalformedQuery,
    /// No `rel` parameter where one is required.
    MissingRel,
}

/// An error encountered when attempting to parse a `Link:` HTTP header.
#[derive(Copy, Clone, Debug, PartialEq, Eq, Structural)]
pub struct Error(pub ErrorKind);

impl Error {
    /// The human-readable description of this error.
    pub fn message(&self) -> (r: &'static str)
        ensures
            self.0 == ErrorKind::InternalError ==> r@ == "internal parser error"@,
            self.0 == ErrorKind::InvalidURI ==> r@ == "unable to parse URI component"@,
            self.0 == ErrorKind::MalformedParam ==> r@ == "malformed parameter list"@,
            self.0 == ErrorKind::MalformedQuery ==> r@ == "malformed URI query"@,
            self.0 == ErrorKind::MissingRel ==> r@ == "missing 'rel' parameter"@,
    {
        match self.0 {
            ErrorKind::InternalError => "internal parser error",
            ErrorKind::InvalidURI => "unable to parse URI component",
            ErrorKind::MalformedParam => "malformed parameter list",
            ErrorKind::MalformedQuery => "malformed URI query",
            ErrorKind::MissingRel => "missing 'rel' parameter",
        }
    }
}

impl<'a> From<&'a Error> for Error {
    /// Copies an error out of a shared reference.
    fn from(x: &'a Error) -> (r: Error)
        ensures
            r == *x,
    {
        Error(x.0)
    }
}

impl<'a> vstd::std_specs::convert::FromSpecImpl<&'a Error> for Error {
    open spec fn obeys_from_spec() -> bool {
        true
    }

    open spec fn from_spec(x: &'a Error) -> Error {
        *x
    }
}

} // verus!
