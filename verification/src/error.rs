use std::num::ParseIntError;
use vstd::prelude::*;

verus! {

/// `std::num::ParseIntError`, what `str::parse` gives back when a text is not an integer of
/// the asked type. Opaque here: it is only carried through.
#[verifier::external_type_specification]
#[verifier::external_body]
pub struct ExParseIntError(ParseIntError);

/// The ways in which a log line can fail to parse.
#[derive(Debug)]
pub enum ParseError {
    /// The line has fewer fields than the five it needs.
    MissingFields,
    /// The status or the latency is not a number of its type.
    InvalidNumber(ParseIntError),
    /// The latency field does not end in `ms`.
    InvalidLatencyFormat,
}

impl From<ParseIntError> for ParseError {
    fn from(err: ParseIntError) -> (r: Self) {
        ParseError::InvalidNumber(err)
    }
}

impl vstd::std_specs::convert::FromSpecImpl<ParseIntError> for ParseError {
    open spec fn obeys_from_spec() -> bool {
        true
    }

    open spec fn from_spec(v: ParseIntError) -> Self {
        ParseError::InvalidNumber(v)
    }
}

impl ParseError {
    /// The text that users see for this error.
    pub fn message(&self) -> (r: String)
        ensures
            *self matches ParseError::MissingFields ==> r@ == "log line is missing required fields"@,
            *self matches ParseError::InvalidLatencyFormat ==> r@
                == "latency format is invalid, expected 'ms' suffix"@,
            *self matches ParseError::InvalidNumber(err) ==> exists|detail: String|
                vstd::string::to_string_from_display_ensures::<ParseIntError>(&err, detail)
                    && r@ == "invalid number format: "@ + detail@,
    {
        match self {
            ParseError::MissingFields => "log line is missing required fields".to_owned(),
            ParseError::InvalidNumber(err) => {
                let prefix = "invalid number format: ".to_owned();
                let detail = err.to_string();
                prefix.concat(detail.as_str())
            },
            ParseError::InvalidLatencyFormat => "latency format is invalid, expected 'ms' suffix".to_owned(),
        }
    }
}

} // verus!
