//! What the errors say to a human reader.

use crate::env::{EvalError, EvalFault, Malformation, SpecialForm};
use crate::parser::{Expected, ParseError, ParseFault};
use crate::types::{joined, text_of, tokens_to_string};
use vstd::prelude::*;
use vstd::string::StringExecFns;

verus! {

/// What a reading error says.
pub open spec fn parse_message(fault: ParseFault) -> Seq<char> {
    match fault {
        ParseFault::UnexpectedToken(t) => "Unexpected token '"@ + t + "'"@,
        ParseFault::UnexpectedEndOfInput(Expected::Form) => "Unexpected EOF"@,
        ParseFault::UnexpectedEndOfInput(Expected::Closer(closer)) => "Expected "@ + closer.text()
            + ", received EOF"@,
        ParseFault::MalformedQuoteOrMeta => "Malformed quote or meta"@,
    }
}

/// The shape that a special form asks for.
pub open spec fn shape_text(form: SpecialForm) -> Seq<char> {
    match form {
        SpecialForm::Def => "(def! symbol value)"@,
        SpecialForm::Let => "(let* (symbol value ...) body)"@,
    }
}

/// What is wrong with the shape of a special form, in words.
pub open spec fn reason_text(reason: Malformation) -> Seq<char> {
    match reason {
        Malformation::Length => "wrong number of elements"@,
        Malformation::Bindings => "the bindings are no list or vector"@,
        Malformation::Pairing => "a name has no value"@,
        Malformation::Name => "a name is no symbol"@,
    }
}

/// What an evaluation error says. A primitive that got the wrong arguments
/// says which primitive it is and gives the texts of the arguments.
pub open spec fn eval_message(fault: EvalFault) -> Seq<char> {
    match fault {
        EvalFault::UnknownSymbol(name) => "Unknown symbol '"@ + name + "' found"@,
        EvalFault::MalformedSpecialForm(form, reason) => "Expected "@ + shape_text(form) + ": "@
            + reason_text(reason),
        EvalFault::NotAFunction(value) => "Not a function: "@ + text_of(value),
        EvalFault::ArityOrTypeMismatch(b, args) => b.symbol() + " received unexpected inputs: ["@
            + joined(args) + "]"@,
        EvalFault::DivisionByZero => "Division by zero"@,
    }
}

impl SpecialForm {
    /// The shape that the special form asks for.
    pub fn shape(self) -> (r: &'static str)
        ensures
            r@ == shape_text(self),
    {
        match self {
            SpecialForm::Def => "(def! symbol value)",
            SpecialForm::Let => "(let* (symbol value ...) body)",
        }
    }
}

impl Malformation {
    /// What is wrong, in words.
    pub fn reason(self) -> (r: &'static str)
        ensures
            r@ == reason_text(self),
    {
        match self {
            Malformation::Length => "wrong number of elements",
            Malformation::Bindings => "the bindings are no list or vector",
            Malformation::Pairing => "a name has no value",
            Malformation::Name => "a name is no symbol",
        }
    }
}

impl ParseError {
    /// What the error says.
    pub fn message(&self) -> (r: String)
        ensures
            r@ == parse_message(self@),
    {
        match self {
            ParseError::UnexpectedToken(t) => {
                let mut text = String::from_str("Unexpected token '");
                text.append(t.as_str());
                text.append("'");
                text
            },
            ParseError::UnexpectedEndOfInput(Expected::Form) => String::from_str("Unexpected EOF"),
            ParseError::UnexpectedEndOfInput(Expected::Closer(closer)) => {
                let mut text = String::from_str("Expected ");
                text.append(closer.token());
                text.append(", received EOF");
                text
            },
            ParseError::MalformedQuoteOrMeta => String::from_str("Malformed quote or meta"),
        }
    }
}

impl EvalError {
    /// What the error says.
    pub fn message(&self) -> (r: String)
        ensures
            r@ == eval_message(self@),
    {
        match self {
            EvalError::UnknownSymbol(name) => {
                let mut text = String::from_str("Unknown symbol '");
                text.append(name.as_str());
                text.append("' found");
                text
            },
            EvalError::MalformedSpecialForm(form, reason) => {
                let mut text = String::from_str("Expected ");
                text.append(form.shape());
                text.append(": ");
                text.append(reason.reason());
                text
            },
            EvalError::NotAFunction(value) => {
                let mut text = String::from_str("Not a function: ");
                text.append(value.to_text().as_str());
                text
            },
            EvalError::ArityOrTypeMismatch(b, args) => {
                let mut text = String::from_str(b.name());
                text.append(" received unexpected inputs: [");
                text.append(tokens_to_string(args.as_slice()).as_str());
                text.append("]");
                text
            },
            EvalError::DivisionByZero => String::from_str("Division by zero"),
        }
    }
}

} // verus!
