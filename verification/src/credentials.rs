//! The access token: where it is configured and how it is presented.

use crate::error::PipelineError;
use vstd::prelude::*;
use vstd::string::StringExecFns;

verus! {

/// The name of the environment variable that holds the access token.
pub fn token_variable() -> (name: &'static str)
    ensures
        name@ == "ASANA_PERSONAL_ACCESS_TOKEN"@,
{
    "ASANA_PERSONAL_ACCESS_TOKEN"
}

/// Decides on the outcome of looking the token up: a value that was found
/// is the token, whatever it holds, and a missing one is an error.
pub fn get_access_token(found: Option<String>) -> (token: Result<String, PipelineError>)
    ensures
        match found {
            Some(value) => token == Ok::<String, PipelineError>(value),
            None => token == Err::<String, PipelineError>(PipelineError::MissingToken),
        },
{
    match found {
        Some(value) => Ok(value),
        None => Err(PipelineError::MissingToken),
    }
}

/// The name of the header that carries the token.
pub fn authorization_header() -> (name: &'static str)
    ensures
        name@ == "Authorization"@,
{
    "Authorization"
}

/// The value of the authorization header for `token`.
pub open spec fn bearer_text(token: Seq<char>) -> Seq<char> {
    "Bearer "@ + token
}

/// Writes the value of the authorization header for `token`.
pub fn bearer_header_value(token: &str) -> (value: String)
    ensures
        value@ == bearer_text(token@),
{
    let mut value = String::from_str("Bearer ");
    value.append(token);
    value
}

} // verus!
