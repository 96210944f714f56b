//! What is answered to each request, as a status and a body.

use vstd::prelude::*;
use vstd::string::StringExecFns;
use vstd::utf8::{decode_utf8, valid_utf8};
use crate::db_client::SqliteDbClientError;

verus! {

/// The reply to a request for an imitation of a random user.
pub struct ImitateRandomUserResponse {
    pub user_name: String,
    pub imitation: String,
}

/// A status code with the text that goes with it.
pub struct Reply {
    pub status: u16,
    pub body: String,
}

/// The text that `raw` stands for once its percent-escapes are decoded;
/// `None` where the decoded bytes are no UTF-8 text.
pub uninterp spec fn url_decoded(raw: Seq<char>) -> Option<Seq<char>>;

/// Calls `urlencoding::decode`. Trusted: the result is a function of `raw`
/// alone, named `url_decoded`; nothing else is claimed of it.
#[verifier::external_body]
fn url_decode(raw: &str) -> (decoded: Option<String>)
    ensures
        decoded.is_some() == url_decoded(raw@).is_some(),
        decoded matches Some(text) ==> url_decoded(raw@) == Some(text@),
{
    match urlencoding::decode(raw) {
        Ok(text) => Some(text.into_owned()),
        Err(_) => None,
    }
}

/// Calls `std::str::from_utf8`. Trusted: the result is the text that the
/// bytes encode where they are valid UTF-8, and `None` where they are not.
#[verifier::external_body]
fn text_of_bytes(bytes: &[u8]) -> (text: Option<String>)
    ensures
        text.is_some() == valid_utf8(bytes@),
        text matches Some(t) ==> t@ == decode_utf8(bytes@),
{
    match std::str::from_utf8(bytes) {
        Ok(text) => Some(text.to_owned()),
        Err(_) => None,
    }
}

/// The user's name in a request path, or the reply 400 where the path
/// segment does not decode to text.
pub fn user_name_of(raw: &str) -> (r: Result<String, Reply>)
    ensures
        r.is_ok() == url_decoded(raw@).is_some(),
        r matches Ok(name) ==> url_decoded(raw@) == Some(name@),
        r matches Err(reply) ==> reply.status == 400 && reply.body@ == "Invalid utf8 in username"@,
{
    match url_decode(raw) {
        Some(name) => Ok(name),
        None => Err(Reply { status: 400, body: String::from_str("Invalid utf8 in username") }),
    }
}

/// The message in a request body, or the reply 400 where the body is not
/// UTF-8 text.
pub fn message_of(body: &[u8]) -> (r: Result<String, Reply>)
    ensures
        r.is_ok() == valid_utf8(body@),
        r matches Ok(message) ==> message@ == decode_utf8(body@),
        r matches Err(reply) ==> reply.status == 400 && reply.body@ == "Invalid utf8 in message"@,
{
    match text_of_bytes(body) {
        Some(message) => Ok(message),
        None => Err(Reply { status: 400, body: String::from_str("Invalid utf8 in message") }),
    }
}

/// The reply to a request for an imitation of a random user: 200 with the
/// serialised user name and imitation where there is one, else 500.
pub fn random_user_reply(serialized: Option<String>) -> (reply: Reply)
    ensures
        match serialized {
            Some(text) => reply.status == 200 && reply.body@ == text@,
            None => reply.status == 500 && reply.body@ == "Internal error"@,
        },
{
    match serialized {
        Some(text) => Reply { status: 200, body: text },
        None => Reply { status: 500, body: String::from_str("Internal error") },
    }
}

/// The reply to a message that was sent in: 201 where it was taken in, else 500.
pub fn add_message_reply(outcome: &Result<(), SqliteDbClientError>) -> (reply: Reply)
    ensures
        outcome.is_ok() ==> reply.status == 201 && reply.body@ == "Successfully added message"@,
        outcome.is_err() ==> reply.status == 500 && reply.body@ == "Error"@,
{
    match outcome {
        Ok(_) => Reply { status: 201, body: String::from_str("Successfully added message") },
        Err(_) => Reply { status: 500, body: String::from_str("Error") },
    }
}

/// The reply to a request for an imitation of the user named `user_name`:
/// 200 with the text, 404 where the user is unknown, else 500.
pub fn imitation_reply(outcome: Result<String, SqliteDbClientError>, user_name: &str) -> (reply: Reply)
    ensures
        match outcome {
            Ok(text) => reply.status == 200 && reply.body@ == text@,
            Err(SqliteDbClientError::UnknownUser(_)) => reply.status == 404 && reply.body@ == "Unknown user: "@
                + user_name@,
            Err(_) => reply.status == 500 && reply.body@ == "Internal error"@,
        },
{
    match outcome {
        Ok(text) => Reply { status: 200, body: text },
        Err(SqliteDbClientError::UnknownUser(_)) => Reply {
            status: 404,
            body: String::from_str("Unknown user: ").concat(user_name),
        },
        Err(_) => Reply { status: 500, body: String::from_str("Internal error") },
    }
}

} // verus!
