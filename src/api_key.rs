//! The two queries a frontend may make about the API key: its value, and
//! whether it is set.

use vstd::prelude::*;
use crate::environment::Environment;

verus! {

/// The name of the environment variable that holds the API key.
pub const API_KEY_VAR: &'static str = "DEEPGRAM_API_KEY";

/// The message given when the API key is not set.
pub const MISSING_KEY_MESSAGE: &'static str =
    "DEEPGRAM_API_KEY environment variable not set. Please set it before running the app.";

/// The API key, or the fixed message that asks the operator to set it.
pub fn get_deepgram_api_key(env: &Environment) -> (r: Result<String, String>)
    ensures
        r is Ok == env@.contains_key(API_KEY_VAR@),
        r is Ok ==> r->Ok_0@ == env@[API_KEY_VAR@],
        r is Err ==> r->Err_0@ == MISSING_KEY_MESSAGE@,
{
    match env.get(API_KEY_VAR) {
        Some(v) => Ok(v),
        None => Err(String::from_str(MISSING_KEY_MESSAGE)),
    }
}

/// Whether the API key is set.
pub fn is_api_key_configured(env: &Environment) -> (r: bool)
    ensures
        r == env@.contains_key(API_KEY_VAR@),
{
    env.contains(API_KEY_VAR)
}

} // verus!
