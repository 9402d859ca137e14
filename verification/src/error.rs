use vstd::prelude::*;

verus! {

/// The error taxonomy of the protocol library.
///
/// Grammar-level failures (bad keyword, wrong arity, trailing tokens, bad
/// address or port) are `CommandParseError`; frame-level failures (empty
/// buffer, missing null terminator) are `InvalidMessage`; a frame whose
/// payload is not valid UTF-8 is `Utf8Error`. The three kinds never overlap.
#[derive(Debug)]
pub enum MiniFtpError {
    CommandParseError(String),
    InvalidMessage(String),
    Utf8Error,
}

impl MiniFtpError {
    /// True exactly for grammar-level failures.
    pub fn is_parse_error(&self) -> (r: bool)
        ensures
            r == (self matches MiniFtpError::CommandParseError(_)),
    {
        match self {
            MiniFtpError::CommandParseError(_) => true,
            _ => false,
        }
    }

    /// A human-readable description of the error.
    pub fn message(&self) -> (r: String)
        ensures
            match self {
                MiniFtpError::CommandParseError(d) => r@ == "invalid command: "@ + d@,
                MiniFtpError::InvalidMessage(d) => r@ == "invalid message: "@ + d@,
                MiniFtpError::Utf8Error => r@ == "UTF-8 error"@,
            },
    {
        match self {
            MiniFtpError::CommandParseError(d) => {
                let mut s = String::from_str("invalid command: ");
                s.append(d.as_str());
                s
            }
            MiniFtpError::InvalidMessage(d) => {
                let mut s = String::from_str("invalid message: ");
                s.append(d.as_str());
                s
            }
            MiniFtpError::Utf8Error => String::from_str("UTF-8 error"),
        }
    }
}

} // verus!
