//! The ways an expression can be rejected.

use crate::text::{debug_of, debug_text};
use vstd::prelude::*;
use vstd::string::*;

verus! {

/// Why an expression was rejected. Every failure is final: no partial result
/// is produced.
#[derive(Clone, Debug, PartialEq, Eq)]
pub enum ParseRollError {
    /// No term could be read from the text.
    EmptyExpression,
    /// A numeric field did not spell an acceptable integer; the field's text.
    IntegerFormat(String),
    /// The right-hand side of a division or remainder was zero.
    DivisionByZero,
    /// The right-hand side of a power was negative.
    InvalidExponent,
}

/// A `ParseRollError` with its text as a sequence of characters.
pub enum Rejection {
    EmptyExpression,
    IntegerFormat(Seq<char>),
    DivisionByZero,
    InvalidExponent,
}

impl View for ParseRollError {
    type V = Rejection;

    open spec fn view(&self) -> Rejection {
        match self {
            ParseRollError::EmptyExpression => Rejection::EmptyExpression,
            ParseRollError::IntegerFormat(s) => Rejection::IntegerFormat(s@),
            ParseRollError::DivisionByZero => Rejection::DivisionByZero,
            ParseRollError::InvalidExponent => Rejection::InvalidExponent,
        }
    }
}

/// The message that describes a rejection.
pub open spec fn message_of(e: Rejection) -> Seq<char> {
    match e {
        Rejection::EmptyExpression => "cannot parse term from empty string"@,
        Rejection::IntegerFormat(s) => "cannot parse integer from `"@ + s + "`"@,
        Rejection::DivisionByZero => "division by zero"@,
        Rejection::InvalidExponent => "negative exponent"@,
    }
}

impl ParseRollError {
    /// The message that describes this error.
    pub fn to_string(&self) -> (r: String)
        ensures
            r@ == message_of(self@),
    {
        match self {
            ParseRollError::EmptyExpression => String::from_str(
                "cannot parse term from empty string",
            ),
            ParseRollError::IntegerFormat(s) => {
                let mut out = String::from_str("cannot parse integer from `");
                out.append(s.as_str());
                out.append("`");
                out
            },
            ParseRollError::DivisionByZero => String::from_str("division by zero"),
            ParseRollError::InvalidExponent => String::from_str("negative exponent"),
        }
    }
}

/// The text that `{:?}` shows for an error, given the text that it shows
/// for the field the error carries: the name of the variant, and behind it,
/// in round brackets, the field if there is one.
pub open spec fn debug_form(e: Rejection, quoted: Seq<char>) -> Seq<char> {
    match e {
        Rejection::EmptyExpression => "EmptyExpression"@,
        Rejection::IntegerFormat(_) => "IntegerFormat("@ + quoted + ")"@,
        Rejection::DivisionByZero => "DivisionByZero"@,
        Rejection::InvalidExponent => "InvalidExponent"@,
    }
}

/// The field that an error carries; empty where it carries none.
pub open spec fn field_of(e: Rejection) -> Seq<char> {
    match e {
        Rejection::IntegerFormat(s) => s,
        _ => Seq::empty(),
    }
}

/// The text that `{:?}` shows for an error.
pub open spec fn shown(e: Rejection) -> Seq<char> {
    debug_form(e, debug_text(field_of(e)))
}

/// Renders an error behind the prefix `Error: `, given the text that `{:?}`
/// shows for its field.
pub fn stringify_with(error: &ParseRollError, quoted: &str) -> (r: String)
    ensures
        r@ == "Error: "@ + debug_form(error@, quoted@),
{
    let mut out = String::from_str("Error: ");
    match error {
        ParseRollError::EmptyExpression => out.append("EmptyExpression"),
        ParseRollError::IntegerFormat(_) => {
            out.append("IntegerFormat(");
            out.append(quoted);
            out.append(")");
        },
        ParseRollError::DivisionByZero => out.append("DivisionByZero"),
        ParseRollError::InvalidExponent => out.append("InvalidExponent"),
    }
    assert(out@ =~= "Error: "@ + debug_form(error@, quoted@));
    out
}

/// Renders an error for display to the user: what `{:?}` shows for it,
/// behind the prefix `Error: `.
pub fn stringify(error: &ParseRollError) -> (r: String)
    ensures
        r@ == "Error: "@ + shown(error@),
{
    match error {
        ParseRollError::IntegerFormat(s) => {
            let quoted = debug_of(s.as_str());
            stringify_with(error, quoted.as_str())
        },
        _ => {
            let r = stringify_with(error, "");
            assert(r@ =~= "Error: "@ + shown(error@));
            r
        },
    }
}

} // verus!
