//! The errors that the machine raises: a kind and a message.

use vstd::prelude::*;
use vstd::string::StringExecFns;
use crate::types::{error_form, Form, LispyType};

verus! {

/// A symbol has no binding.
pub open spec fn not_defined(name: Seq<char>) -> Form {
    error_form("NOT_DEFINED"@, "Symbol "@ + name + " is not defined"@)
}

/// A value is of the wrong variant.
pub open spec fn incorrect_type(message: Seq<char>) -> Form {
    error_form("INCORRECT_TYPE"@, message)
}

/// There are too few or too many arguments or operands.
pub open spec fn incorrect_arity(message: Seq<char>) -> Form {
    error_form("INCORRECT_ARITY"@, message)
}

/// What is applied is no function.
pub open spec fn not_a_function() -> Form {
    error_form("NOT_A_FUNCTION"@, "Value is not a function"@)
}

/// The host could not do what it was asked.
pub open spec fn system_error(message: Seq<char>) -> Form {
    error_form("SYSTEM_ERROR"@, message)
}

/// A text could not be read.
pub open spec fn read_error(message: Seq<char>) -> Form {
    error_form("READ_ERROR"@, message)
}

/// A special form has too few operands.
pub open spec fn too_short() -> Form {
    incorrect_arity("Special form is missing an operand"@)
}


/// The error that the symbol `name` has no binding.
pub fn not_defined_error(name: &str) -> (error: LispyType)
    ensures
        error@ == not_defined(name@),
{
    let message = String::from_str("Symbol ").concat(name).concat(" is not defined");
    LispyType::create_error(message.as_str(), "NOT_DEFINED")
}

/// An `INCORRECT_TYPE` error.
pub fn incorrect_type_error(message: &str) -> (error: LispyType)
    ensures
        error@ == incorrect_type(message@),
{
    LispyType::create_error(message, "INCORRECT_TYPE")
}

/// An `INCORRECT_ARITY` error.
pub fn incorrect_arity_error(message: &str) -> (error: LispyType)
    ensures
        error@ == incorrect_arity(message@),
{
    LispyType::create_error(message, "INCORRECT_ARITY")
}

/// The `NOT_A_FUNCTION` error.
pub fn not_a_function_error() -> (error: LispyType)
    ensures
        error@ == not_a_function(),
{
    LispyType::create_error("Value is not a function", "NOT_A_FUNCTION")
}

/// A `SYSTEM_ERROR` error.
pub fn system_failure(message: &str) -> (error: LispyType)
    ensures
        error@ == system_error(message@),
{
    LispyType::create_error(message, "SYSTEM_ERROR")
}

/// A `READ_ERROR` error.
pub fn read_failure(message: &str) -> (error: LispyType)
    ensures
        error@ == read_error(message@),
{
    LispyType::create_error(message, "READ_ERROR")
}

/// The error that a special form has too few operands.
pub fn too_short_error() -> (error: LispyType)
    ensures
        error@ == too_short(),
{
    LispyType::create_error("Special form is missing an operand", "INCORRECT_ARITY")
}

} // verus!
