//! The error taxonomy: decode errors are fatal to a whole input, parse
//! errors to a single element unless structural, configuration errors
//! fatal before any parsing.

use vstd::prelude::*;
use vstd::string::StringExecFns;

verus! {

/// A whole input could not be decoded.
#[derive(Debug, PartialEq)]
pub enum DecodeError {
    /// The binary envelope is malformed.
    Protobuf(String),
    /// The document token stream is malformed.
    Xml(String),
    /// A scripted-comment payload is malformed.
    SpecialComment(String),
}

/// A single element, or a structural part of an input, could not be
/// parsed.
#[derive(Debug, PartialEq)]
pub enum ParseError {
    Xml(String),
    Protobuf(),
    SpecialComment(String),
}

/// Any failure of a conversion run.
#[derive(Debug, PartialEq)]
pub enum BiliassError {
    ParseError(ParseError),
    DecodeError(DecodeError),
    /// A keyword-exclusion pattern failed to compile.
    InvalidRegexError(String),
}

impl DecodeError {
    pub open spec fn spec_message(&self) -> Seq<char> {
        match self {
            DecodeError::Protobuf(s) => "Protobuf: "@ + s@,
            DecodeError::Xml(s) => "Xml: "@ + s@,
            DecodeError::SpecialComment(s) => "SpecialComment: "@ + s@,
        }
    }

    /// A diagnostic description of the error.
    pub fn to_message(&self) -> (r: String)
        ensures
            r@ == self.spec_message(),
    {
        match self {
            DecodeError::Protobuf(s) => {
                let mut m = String::from_str("Protobuf: ");
                m.append(s.as_str());
                m
            },
            DecodeError::Xml(s) => {
                let mut m = String::from_str("Xml: ");
                m.append(s.as_str());
                m
            },
            DecodeError::SpecialComment(s) => {
                let mut m = String::from_str("SpecialComment: ");
                m.append(s.as_str());
                m
            },
        }
    }
}

impl ParseError {
    pub open spec fn spec_message(&self) -> Seq<char> {
        match self {
            ParseError::Xml(s) => "Xml: "@ + s@,
            ParseError::Protobuf() => "Protobuf"@,
            ParseError::SpecialComment(s) => "SpecialComment: "@ + s@,
        }
    }

    /// A diagnostic description of the error.
    pub fn to_message(&self) -> (r: String)
        ensures
            r@ == self.spec_message(),
    {
        match self {
            ParseError::Xml(s) => {
                let mut m = String::from_str("Xml: ");
                m.append(s.as_str());
                m
            },
            ParseError::Protobuf() => String::from_str("Protobuf"),
            ParseError::SpecialComment(s) => {
                let mut m = String::from_str("SpecialComment: ");
                m.append(s.as_str());
                m
            },
        }
    }
}

impl BiliassError {
    pub open spec fn spec_message(&self) -> Seq<char> {
        match self {
            BiliassError::ParseError(e) => "ParseError: "@ + e.spec_message(),
            BiliassError::DecodeError(e) => "DecodeError: "@ + e.spec_message(),
            BiliassError::InvalidRegexError(s) => "InvalidRegexError: "@ + s@,
        }
    }

    /// A diagnostic description of the error.
    pub fn to_message(&self) -> (r: String)
        ensures
            r@ == self.spec_message(),
    {
        match self {
            BiliassError::ParseError(e) => {
                let mut m = String::from_str("ParseError: ");
                let inner = e.to_message();
                m.append(inner.as_str());
                m
            },
            BiliassError::DecodeError(e) => {
                let mut m = String::from_str("DecodeError: ");
                let inner = e.to_message();
                m.append(inner.as_str());
                m
            },
            BiliassError::InvalidRegexError(s) => {
                let mut m = String::from_str("InvalidRegexError: ");
                m.append(s.as_str());
                m
            },
        }
    }
}

impl From<ParseError> for BiliassError {
    fn from(e: ParseError) -> (r: BiliassError) {
        BiliassError::ParseError(e)
    }
}

impl vstd::std_specs::convert::FromSpecImpl<ParseError> for BiliassError {
    open spec fn obeys_from_spec() -> bool {
        true
    }

    open spec fn from_spec(e: ParseError) -> BiliassError {
        BiliassError::ParseError(e)
    }
}

impl From<DecodeError> for BiliassError {
    fn from(e: DecodeError) -> (r: BiliassError) {
        BiliassError::DecodeError(e)
    }
}

impl vstd::std_specs::convert::FromSpecImpl<DecodeError> for BiliassError {
    open spec fn obeys_from_spec() -> bool {
        true
    }

    open spec fn from_spec(e: DecodeError) -> BiliassError {
        BiliassError::DecodeError(e)
    }
}

} // verus!
