use vstd::prelude::*;
use vstd::string::StringExecFns;

verus! {

/// Why a request could not be proxied. Each kind ends the request with an
/// error response of its own.
#[derive(Debug)]
pub enum Error {
    /// The origin could not be reached, or the exchange with it failed; holds
    /// the transport error's description.
    BadGateway(String),
    /// The origin's response body could not be read in full.
    ReadFailure,
    /// The outgoing response could not be assembled.
    CreateResponseFailure,
    /// An HTML body was not valid UTF-8.
    BadUtf8,
}

pub const BAD_GATEWAY_TEXT: &'static str = "Unable to connect to nyaa";

pub const READ_FAILURE_TEXT: &'static str = "Unable to read response";

pub const CREATE_RESPONSE_FAILURE_TEXT: &'static str = "Unable to create response";

pub const BAD_UTF8_TEXT: &'static str = "Unable to parse html page as utf-8";

/// Text that separates the description of a gateway failure from the
/// transport error's own text.
pub const DETAIL_SEPARATOR: &'static str = ": ";

/// The HTTP status that answers an error of this kind.
pub open spec fn status_of(e: &Error) -> u16 {
    match e {
        Error::BadGateway(_) => 502,
        _ => 500,
    }
}

/// The fixed description of an error of this kind.
pub open spec fn description_of(e: &Error) -> Seq<char> {
    match e {
        Error::BadGateway(_) => BAD_GATEWAY_TEXT@,
        Error::ReadFailure => READ_FAILURE_TEXT@,
        Error::CreateResponseFailure => CREATE_RESPONSE_FAILURE_TEXT@,
        Error::BadUtf8 => BAD_UTF8_TEXT@,
    }
}

/// The body of a gateway-failure response: the fixed description, then the
/// transport error's own text.
pub fn gateway_message(detail: &str) -> (r: String)
    ensures
        r@ == BAD_GATEWAY_TEXT@ + DETAIL_SEPARATOR@ + detail@,
{
    let mut m = String::from_str(BAD_GATEWAY_TEXT);
    m.append(DETAIL_SEPARATOR);
    m.append(detail);
    m
}

impl Error {
    /// 502 for a gateway failure, 500 for any other kind.
    pub fn status_code(&self) -> (r: u16)
        ensures
            r == status_of(self),
    {
        match self {
            Error::BadGateway(_) => 502,
            _ => 500,
        }
    }

    /// The fixed description of this kind of error.
    pub fn description(&self) -> (r: String)
        ensures
            r@ == description_of(self),
    {
        match self {
            Error::BadGateway(_) => String::from_str(BAD_GATEWAY_TEXT),
            Error::ReadFailure => String::from_str(READ_FAILURE_TEXT),
            Error::CreateResponseFailure => String::from_str(CREATE_RESPONSE_FAILURE_TEXT),
            Error::BadUtf8 => String::from_str(BAD_UTF8_TEXT),
        }
    }

    /// The body of the error response: the description, followed for a
    /// gateway failure by the text of the transport error.
    pub fn message(&self) -> (r: String)
        ensures
            !(self is BadGateway) ==> r@ == description_of(self),
            self is BadGateway ==> r@ == BAD_GATEWAY_TEXT@ + DETAIL_SEPARATOR@ + self->BadGateway_0@,
    {
        match self {
            Error::BadGateway(detail) => gateway_message(detail.as_str()),
            _ => self.description(),
        }
    }
}

} // verus!
