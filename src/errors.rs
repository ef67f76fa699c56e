use vstd::prelude::*;

verus! {

/// `std::io::Error`, carried opaquely by the error of a failed read.
#[verifier::external_type_specification]
#[verifier::external_body]
pub struct ExIoError(std::io::Error);

/// The ways in which reading or converting a number can fail.
#[derive(Debug)]
pub enum Error {
    /// Reading input from the system failed.
    IOError(std::io::Error),
    /// More than one base was chosen at once.
    ConfusingBaseError(ConfusingBaseError),
    /// A value or a digit has no counterpart in the requested domain.
    DataConversionError(String),
    /// A token is not an optional base prefix followed by letters and digits.
    RegexCaptureError(String),
}

/// The reason a set of base flags was refused: more than one of them was chosen.
#[derive(Debug)]
pub struct ConfusingBaseError {
    reason: String,
}

impl View for ConfusingBaseError {
    type V = Seq<char>;

    closed spec fn view(&self) -> Seq<char> {
        self.reason@
    }
}

impl ConfusingBaseError {
    pub fn new(reason: String) -> (r: ConfusingBaseError)
        ensures
            r@ == reason@,
    {
        ConfusingBaseError { reason }
    }

    /// The reason, as a message for the user.
    pub fn to_string(&self) -> (r: String)
        ensures
            r@ == self@,
    {
        self.reason.clone()
    }
}

/// A result whose failure is always an [`Error`].
pub enum Result<T> {
    Success(T),
    Failure(Error),
}

/// The message shown for an error that carries its text.
pub open spec fn error_text(e: Error) -> Seq<char> {
    match e {
        Error::IOError(_) => "IOError: "@,
        Error::ConfusingBaseError(c) => "ConfusingBaseError: "@ + c@,
        Error::DataConversionError(s) => "DataConversionError: "@ + s@,
        Error::RegexCaptureError(s) => "RegexCaptureError: "@ + s@,
    }
}

/// Relies on the `Debug` formatting of `std::io::Error` to describe a failed read.
#[verifier::external_body]
fn io_error_text(e: &std::io::Error) -> (r: String) {
    format!("{:#?}", e)
}

impl Error {
    /// The message for the user: the kind of the error, then its details.
    pub fn to_string(&self) -> (r: String)
        ensures
            !(self is IOError) ==> r@ == error_text(*self),
            self is IOError ==> r@.take("IOError: "@.len() as int) == "IOError: "@,
    {
        match self {
            Error::IOError(e) => {
                let mut s = String::from_str("IOError: ");
                let d = io_error_text(e);
                s.append(d.as_str());
                proof {
                    assert(s@.take("IOError: "@.len() as int) =~= "IOError: "@);
                }
                s
            },
            Error::ConfusingBaseError(c) => {
                let s = String::from_str("ConfusingBaseError: ");
                let d = c.to_string();
                s.concat(d.as_str())
            },
            Error::DataConversionError(m) => {
                let s = String::from_str("DataConversionError: ");
                s.concat(m.as_str())
            },
            Error::RegexCaptureError(m) => {
                let s = String::from_str("RegexCaptureError: ");
                s.concat(m.as_str())
            },
        }
    }
}

impl From<std::io::Error> for Error {
    fn from(e: std::io::Error) -> (r: Error)
        ensures
            r == Error::IOError(e),
    {
        Error::IOError(e)
    }
}

impl vstd::std_specs::convert::FromSpecImpl<std::io::Error> for Error {
    open spec fn obeys_from_spec() -> bool {
        true
    }

    open spec fn from_spec(e: std::io::Error) -> Error {
        Error::IOError(e)
    }
}

impl From<ConfusingBaseError> for Error {
    fn from(e: ConfusingBaseError) -> (r: Error)
        ensures
            r == Error::ConfusingBaseError(e),
    {
        Error::ConfusingBaseError(e)
    }
}

impl vstd::std_specs::convert::FromSpecImpl<ConfusingBaseError> for Error {
    open spec fn obeys_from_spec() -> bool {
        true
    }

    open spec fn from_spec(e: ConfusingBaseError) -> Error {
        Error::ConfusingBaseError(e)
    }
}

} // verus!
