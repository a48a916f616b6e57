//! Error type of the filter.

use vstd::prelude::*;
use vstd::string::*;

verus! {

/// What can go wrong in the filter.
#[derive(Debug)]
#[non_exhaustive]
pub enum Error {
    /// The configuration could not be read; the text says why.
    Config(String),
    /// A socket or file operation failed; the text says why.
    Io(String),
    /// An OpenPGP length field or packet body runs past the end of the payload.
    TruncatedHeader,
    /// The server that takes the accepted mail answered with an unexpected line.
    MailSend { context: String, raw_smtp_answer: String },
}

/// The SMTP reply line that stands for an error, without the line ending.
pub open spec fn smtp_response_of(e: Error) -> Seq<char> {
    match e {
        Error::MailSend { context, raw_smtp_answer } => raw_smtp_answer@,
        Error::TruncatedHeader => "500 OpenPGP packet header is truncated - can't validate!"@,
        _ => "451 Local error"@,
    }
}

impl Error {
    /// Formats the error as an SMTP response.
    ///
    /// An answer of the reinjection server is handed on as it came, so that its
    /// rejection reaches the sender of the mail unaltered.
    pub fn smtp_response(&self) -> (r: String)
        ensures
            r@ == smtp_response_of(*self),
    {
        match self {
            Error::MailSend { context: _, raw_smtp_answer } => raw_smtp_answer.clone(),
            Error::TruncatedHeader => String::from_str(
                "500 OpenPGP packet header is truncated - can't validate!",
            ),
            _ => String::from_str("451 Local error"),
        }
    }
}

} // verus!
