//! Why a string is not a creditor reference.
use vstd::prelude::*;

verus! {

/// The reasons for which parsing or generating a reference fails. Each
/// carries the reference with its spaces taken out.
#[derive(Clone, Debug, Eq, PartialEq)]
pub enum ParseError {
    /// a character that is neither a digit nor an ASCII letter
    InvalidCharacter(String),
    /// check digits that are not two digits, or that do not check
    InvalidChecksum(String),
    /// a length outside five to twenty-five characters
    InvalidFormat(String),
    /// a reference that does not start with `RF`
    InvalidIdentifier(String),
}

impl ParseError {
    /// The string that the error carries.
    pub open spec fn message(&self) -> Seq<char> {
        match self {
            ParseError::InvalidCharacter(m) => m@,
            ParseError::InvalidChecksum(m) => m@,
            ParseError::InvalidFormat(m) => m@,
            ParseError::InvalidIdentifier(m) => m@,
        }
    }

    /// What went wrong, in words, without the string.
    pub open spec fn reason(&self) -> Seq<char> {
        match self {
            ParseError::InvalidCharacter(_) => "invalid character not parseable"@,
            ParseError::InvalidChecksum(_) => "checksum has invalid format"@,
            ParseError::InvalidFormat(_) => "invalid format not parseable"@,
            ParseError::InvalidIdentifier(_) => "identifier is not RF"@,
        }
    }

    /// The error in words, followed by the string in brackets.
    pub fn to_string(&self) -> (r: String)
        ensures
            r@ == self.reason() + " ["@ + self.message() + "]"@,
    {
        let (reason, m) = match self {
            ParseError::InvalidCharacter(m) => ("invalid character not parseable", m),
            ParseError::InvalidChecksum(m) => ("checksum has invalid format", m),
            ParseError::InvalidFormat(m) => ("invalid format not parseable", m),
            ParseError::InvalidIdentifier(m) => ("identifier is not RF", m),
        };
        let mut r = String::from_str(reason);
        r.append(" [");
        r.append(m.as_str());
        r.append("]");
        r
    }
}

} // verus!
