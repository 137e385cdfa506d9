//! The response sent back on a connection.

use crate::decimal::{decimal, push_decimal};
use vstd::prelude::*;
use vstd::utf8::encode_utf8;

verus! {

/// The text of a response: the status line, the one header that gives the
/// body's length in bytes, a blank line, and the body.
pub open spec fn response_text(status_line: Seq<char>, body: Seq<char>) -> Seq<char> {
    "HTTP/1.1 "@ + status_line + "\r\nContent-Length: "@ + decimal(encode_utf8(body).len())
        + "\r\n\r\n"@ + body
}

/// The bytes of the response with the given status line and body.
pub fn format_response(status_line: &str, body: &str) -> (out: Vec<u8>)
    ensures
        out@ == encode_utf8(response_text(status_line@, body@)),
{
    let mut text = String::from_str("HTTP/1.1 ");
    text.append(status_line);
    text.append("\r\nContent-Length: ");
    push_decimal(&mut text, body.as_bytes().len());
    text.append("\r\n\r\n");
    text.append(body);
    text.as_str().as_bytes_vec()
}

/// The text of a response up to and including the blank line, for a body of
/// `length` bytes.
pub open spec fn response_head(status_line: Seq<char>, length: nat) -> Seq<char> {
    "HTTP/1.1 "@ + status_line + "\r\nContent-Length: "@ + decimal(length) + "\r\n\r\n"@
}

/// The bytes of two texts in a row are the bytes of the first followed by the
/// bytes of the second.
pub proof fn lemma_encode_utf8_concat(a: Seq<char>, b: Seq<char>)
    ensures
        encode_utf8(a + b) == encode_utf8(a) + encode_utf8(b),
    decreases a.len(),
{
    if a.len() == 0 {
        assert(a + b == b);
    } else {
        lemma_encode_utf8_concat(a.drop_first(), b);
        assert((a + b).drop_first() == a.drop_first() + b);
    }
}

/// The length that a response declares is the number of bytes that follow
/// its blank line, and those bytes are the body.
pub proof fn lemma_response_frames_body(status_line: Seq<char>, body: Seq<char>)
    ensures
        encode_utf8(response_text(status_line, body)) == encode_utf8(
            response_head(status_line, encode_utf8(body).len()),
        ) + encode_utf8(body),
{
    lemma_encode_utf8_concat(response_head(status_line, encode_utf8(body).len()), body);
}

} // verus!
