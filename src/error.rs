//! What can go wrong when a cookie or a cookie list is parsed.
use std::num::ParseIntError;
use vstd::prelude::*;
use vstd::string::StringExecFns;

verus! {

/// std's error for a malformed integer, carried inside `ParseError::ParseMaxAgeError`.
#[verifier::external_type_specification]
#[verifier::external_body]
pub struct ExParseIntError(ParseIntError);

/// The `key=value` pair that lacked its `=value` half.
#[derive(Debug, Clone, Copy, PartialEq, Eq, Structural)]
pub enum MissingPair {
    NameValue,
    Domain,
    Expires,
    MaxAge,
    Path,
    SameSite,
}

#[derive(Debug, Clone, PartialEq, Eq)]
pub enum ParseSameSiteError {
    UnknownValue(String),
}

#[derive(Debug, PartialEq, Eq)]
pub enum ParseError {
    EmptyName,
    MissingPair(MissingPair),
    UnknownAttribute(String),
    ParseMaxAgeError(ParseIntError),
    ParseSameSiteError(ParseSameSiteError),
}

/// The model of a `ParseError`: the failure and the text it names.
pub enum ParseFailure {
    EmptyName,
    MissingPair(MissingPair),
    UnknownAttribute(Seq<char>),
    MaxAge,
    UnknownSameSite(Seq<char>),
}

impl View for ParseSameSiteError {
    type V = Seq<char>;

    open spec fn view(&self) -> Seq<char> {
        match self {
            ParseSameSiteError::UnknownValue(v) => v@,
        }
    }
}

impl View for ParseError {
    type V = ParseFailure;

    open spec fn view(&self) -> ParseFailure {
        match self {
            ParseError::EmptyName => ParseFailure::EmptyName,
            ParseError::MissingPair(p) => ParseFailure::MissingPair(*p),
            ParseError::UnknownAttribute(a) => ParseFailure::UnknownAttribute(a@),
            ParseError::ParseMaxAgeError(_) => ParseFailure::MaxAge,
            ParseError::ParseSameSiteError(e) => ParseFailure::UnknownSameSite(e@),
        }
    }
}

/// The name of a pair, as an error message shows it.
pub open spec fn missing_pair_text(p: MissingPair) -> Seq<char> {
    match p {
        MissingPair::NameValue => "Name-Value"@,
        MissingPair::Domain => "Domain"@,
        MissingPair::Expires => "Expires"@,
        MissingPair::MaxAge => "Max-Age"@,
        MissingPair::Path => "Path"@,
        MissingPair::SameSite => "SameSite"@,
    }
}

impl MissingPair {
    /// The name of the pair, as an error message shows it.
    pub fn as_str(&self) -> (r: &'static str)
        ensures
            r@ == missing_pair_text(*self),
    {
        match self {
            MissingPair::NameValue => "Name-Value",
            MissingPair::Domain => "Domain",
            MissingPair::Expires => "Expires",
            MissingPair::MaxAge => "Max-Age",
            MissingPair::Path => "Path",
            MissingPair::SameSite => "SameSite",
        }
    }
}

impl ParseSameSiteError {
    /// A message for people: `unknown SameSite value: <value>`.
    pub fn to_string(&self) -> (r: String)
        ensures
            r@ == "unknown SameSite value: "@ + self@,
    {
        match self {
            ParseSameSiteError::UnknownValue(v) => {
                let mut s = String::from_str("unknown SameSite value: ");
                s.append(v.as_str());
                s
            },
        }
    }
}

/// Relies on the `Display` form of `ParseIntError`; nothing is known of its text.
#[verifier::external_body]
fn int_error_text(e: &ParseIntError) -> String {
    e.to_string()
}

impl ParseError {
    /// A message for people, naming the failure and the text involved.
    pub fn to_string(&self) -> (r: String)
        ensures
            match self {
                ParseError::EmptyName => r@ == "the provided name is empty."@,
                ParseError::MissingPair(p) => r@ == "missed pair: "@ + missing_pair_text(*p),
                ParseError::UnknownAttribute(a) => r@ == "unknown attribute: "@ + a@,
                ParseError::ParseMaxAgeError(_) => r@.len() >= "failed to parse Max-Age: "@.len()
                    && r@.subrange(0, "failed to parse Max-Age: "@.len() as int)
                    == "failed to parse Max-Age: "@,
                ParseError::ParseSameSiteError(e) => r@ == "failed to parse SameSite: "@ + "unknown SameSite value: "@
                    + e@,
            },
    {
        match self {
            ParseError::EmptyName => String::from_str("the provided name is empty."),
            ParseError::MissingPair(p) => {
                let mut s = String::from_str("missed pair: ");
                s.append(p.as_str());
                s
            },
            ParseError::UnknownAttribute(a) => {
                let mut s = String::from_str("unknown attribute: ");
                s.append(a.as_str());
                s
            },
            ParseError::ParseMaxAgeError(e) => {
                let mut s = String::from_str("failed to parse Max-Age: ");
                let ghost prefix = s@;
                s.append(int_error_text(e).as_str());
                assert(s@.subrange(0, prefix.len() as int) == prefix);
                s
            },
            ParseError::ParseSameSiteError(e) => {
                let mut s = String::from_str("failed to parse SameSite: ");
                s.append(e.to_string().as_str());
                assert(s@ =~= "failed to parse SameSite: "@ + "unknown SameSite value: "@ + e@);
                s
            },
        }
    }
}

} // verus!
