//! What to do with one connection, once its request has been read.

use crate::decimal::{decimal, push_decimal};
use crate::request::{handle_request, parse_request_line, RequestError};
use crate::response::{format_response, response_text};
use vstd::prelude::*;
use vstd::utf8::encode_utf8;

verus! {

/// What the server does next for a connection.
#[derive(Clone, Debug, PartialEq, Eq)]
pub enum Step {
    /// Approximate pi with this many terms, then answer with `success_response`.
    Compute { terms: usize },
    /// Send these bytes and close the connection.
    Respond { response: Vec<u8> },
}

/// The response to a connection that sent no request line.
pub open spec fn empty_request_response() -> Seq<u8> {
    encode_utf8(response_text("400 Bad Request"@, "Empty request received"@))
}

/// The response to a request line that was refused for `error`.
pub open spec fn error_response(error: RequestError) -> Seq<u8> {
    encode_utf8(response_text(error.status_text(), error.message_text()))
}

/// The body that reports an approximation of pi.
pub open spec fn success_body(terms: usize, value: Seq<char>, seconds: Seq<char>) -> Seq<char> {
    "The value of pi approximated using "@ + decimal(terms as nat) + " terms is: "@ + value
        + " (Time: "@ + seconds + " seconds)"@
}

/// The request line among the lines received on a connection: the first
/// line, unless nothing was received or the first line is empty.
pub open spec fn request_line(received: Seq<String>) -> Option<Seq<char>> {
    if received.len() > 0 && received[0]@.len() > 0 {
        Some(received[0]@)
    } else {
        None
    }
}

/// Decides what to do with a connection from the lines received on it. Only
/// the first line counts. Where there is none, or it is empty, the request
/// is answered as an empty one.
pub fn handle_connection(received: &[String]) -> (step: Step)
    ensures
        match step {
            Step::Compute { terms } => {
                &&& request_line(received@) matches Some(line)
                &&& parse_request_line(line) == Ok::<usize, RequestError>(terms)
            },
            Step::Respond { response } => match request_line(received@) {
                Some(line) => {
                    &&& parse_request_line(line) matches Err(error)
                    &&& response@ == error_response(error)
                },
                None => response@ == empty_request_response(),
            },
        },
{
    if received.len() == 0 || received[0].as_str().is_empty() {
        return Step::Respond {
            response: format_response("400 Bad Request", "Empty request received"),
        };
    }
    match handle_request(received[0].as_str()) {
        Ok(terms) => Step::Compute { terms },
        Err(error) => Step::Respond {
            response: format_response(error.status_line(), error.message()),
        },
    }
}

/// The `200 OK` response that reports `value` as the approximation of pi
/// with `terms` terms, computed in `seconds` seconds.
pub fn success_response(terms: usize, value: &str, seconds: &str) -> (response: Vec<u8>)
    ensures
        response@ == encode_utf8(response_text("200 OK"@, success_body(terms, value@, seconds@))),
{
    let mut body = String::from_str("The value of pi approximated using ");
    push_decimal(&mut body, terms);
    body.append(" terms is: ");
    body.append(value);
    body.append(" (Time: ");
    body.append(seconds);
    body.append(" seconds)");
    format_response("200 OK", body.as_str())
}

} // verus!
