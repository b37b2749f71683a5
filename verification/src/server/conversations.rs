//! Conversation endpoints: the request body and its defaults.

use vstd::prelude::*;
use vstd::string::StringExecFns;

verus! {

/// Body of `POST /v1/conversations`.
#[derive(Debug, Clone)]
pub struct CreateBody {
    pub title: Option<String>,
}

/// The title of a new conversation: the one given, or `New conversation`.
pub fn conversation_title(body: CreateBody) -> (r: String)
    ensures
        match body.title {
            Some(t) => r@ == t@,
            None => r@ == "New conversation"@,
        },
{
    match body.title {
        Some(t) => t,
        None => String::from_str("New conversation"),
    }
}

} // verus!
