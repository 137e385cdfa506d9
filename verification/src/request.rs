//! The request line: what it asks for, or why it is refused.

use crate::decimal::{
    decimal, decimal_value, is_numeral, lemma_decimal_round_trip,
    lemma_parse_succeeds_on_numerals, parse_term_count, read_term_count, unsigned_part, IntError,
};
use crate::text::{
    chars_of, has_prefix, lemma_leading_is, not_whitespace, spells, split_whitespace, words,
};
use vstd::prelude::*;

verus! {

/// Why a request line is refused.
#[derive(Clone, Copy, Debug, PartialEq, Eq, Structural)]
pub enum RequestError {
    /// The line has fewer than three words.
    MalformedRequestLine,
    /// The first word is not `GET`.
    UnsupportedMethod,
    /// The second word does not begin with `/pi/`.
    UnknownPath,
    /// What follows `/pi/` is not the decimal numeral of a term count.
    InvalidTermCount(IntError),
}

impl IntError {
    /// The description of the failure.
    pub open spec fn message_text(self) -> Seq<char> {
        match self {
            IntError::Empty => "cannot parse integer from empty string"@,
            IntError::InvalidDigit => "invalid digit found in string"@,
            IntError::TooLarge => "number too large to fit in target type"@,
        }
    }

    /// The description of the failure.
    pub fn message(&self) -> (m: &'static str)
        ensures
            m@ == self.message_text(),
    {
        match self {
            IntError::Empty => "cannot parse integer from empty string",
            IntError::InvalidDigit => "invalid digit found in string",
            IntError::TooLarge => "number too large to fit in target type",
        }
    }
}

impl RequestError {
    /// The text sent to the client as the body of the error response.
    pub open spec fn message_text(self) -> Seq<char> {
        match self {
            RequestError::MalformedRequestLine => "Unknown method or path"@,
            RequestError::UnsupportedMethod => "Method must be GET"@,
            RequestError::UnknownPath => "Invalid path"@,
            RequestError::InvalidTermCount(e) => e.message_text(),
        }
    }

    /// The status line of the error response.
    pub open spec fn status_text(self) -> Seq<char> {
        match self {
            RequestError::MalformedRequestLine => "400 Bad Request"@,
            RequestError::UnsupportedMethod => "405 Method Not Allowed"@,
            RequestError::UnknownPath => "404 Not Found"@,
            RequestError::InvalidTermCount(_) => "400 Bad Request"@,
        }
    }

    /// The text sent to the client as the body of the error response.
    pub fn message(&self) -> (m: &'static str)
        ensures
            m@ == self.message_text(),
    {
        match self {
            RequestError::MalformedRequestLine => "Unknown method or path",
            RequestError::UnsupportedMethod => "Method must be GET",
            RequestError::UnknownPath => "Invalid path",
            RequestError::InvalidTermCount(e) => e.message(),
        }
    }

    /// The status line of the error response.
    pub fn status_line(&self) -> (m: &'static str)
        ensures
            m@ == self.status_text(),
    {
        match self {
            RequestError::MalformedRequestLine => "400 Bad Request",
            RequestError::UnsupportedMethod => "405 Method Not Allowed",
            RequestError::UnknownPath => "404 Not Found",
            RequestError::InvalidTermCount(_) => "400 Bad Request",
        }
    }
}

/// What a request line asks for: the term count of `GET /pi/<count> <version>`,
/// or the first of the four faults that the line shows.
pub open spec fn parse_request_line(line: Seq<char>) -> Result<usize, RequestError> {
    let parts = split_whitespace(line);
    if parts.len() < 3 {
        Err(RequestError::MalformedRequestLine)
    } else if parts[0] != "GET"@ {
        Err(RequestError::UnsupportedMethod)
    } else if !"/pi/"@.is_prefix_of(parts[1]) {
        Err(RequestError::UnknownPath)
    } else {
        match parse_term_count(parts[1].skip("/pi/"@.len() as int)) {
            Ok(terms) => Ok(terms),
            Err(e) => Err(RequestError::InvalidTermCount(e)),
        }
    }
}

/// Reads the term count out of a request line.
pub fn handle_request(request_line: &str) -> (r: Result<usize, RequestError>)
    ensures
        r == parse_request_line(request_line@),
{
    let chars = chars_of(request_line);
    let parts = words(&chars);
    assert(parts.deep_view().len() == parts.len());
    if parts.len() < 3 {
        return Err(RequestError::MalformedRequestLine);
    }
    assert(parts.deep_view()[0] == parts[0]@);
    assert(parts.deep_view()[1] == parts[1]@);
    if !spells(&parts[0], "GET") {
        return Err(RequestError::UnsupportedMethod);
    }
    let prefix = chars_of("/pi/");
    if !has_prefix(&parts[1], &prefix) {
        return Err(RequestError::UnknownPath);
    }
    match read_term_count(&parts[1], prefix.len()) {
        Ok(terms) => Ok(terms),
        Err(e) => Err(RequestError::InvalidTermCount(e)),
    }
}

/// The request line by which a client asks for an approximation with `terms`
/// terms.
pub open spec fn request_line_for(terms: nat) -> Seq<char> {
    "GET /pi/"@ + decimal(terms) + " HTTP/1.1"@
}

/// A request line that asks for a term count is read as that term count.
pub proof fn lemma_request_round_trip(terms: nat)
    requires
        terms <= usize::MAX,
    ensures
        parse_request_line(request_line_for(terms)) == Ok::<usize, RequestError>(terms as usize),
{
    reveal_strlit("GET /pi/");
    reveal_strlit(" HTTP/1.1");
    reveal_strlit("GET");
    reveal_strlit("/pi/");
    lemma_decimal_round_trip(terms);
    let count = decimal(terms);
    let width = count.len() as int;
    let line = request_line_for(terms);
    assert(line.len() == 17 + width);
    assert forall|i: int| 0 <= i < width implies line[8 + i] == count[i] by {}

    lemma_leading_is(line, not_whitespace(), 3);
    let after_method = line.skip(3);
    let path_on = line.skip(4);
    assert(after_method.drop_first() == path_on);
    assert forall|i: int| 0 <= i < 4 + width implies (not_whitespace())(#[trigger] path_on[i]) by {
        if i >= 4 {
            assert(path_on[i] == count[i - 4]);
        }
    }
    lemma_leading_is(path_on, not_whitespace(), 4 + width);
    let after_path = path_on.skip(4 + width);
    let version_on = line.skip(9 + width);
    assert(after_path.drop_first() == version_on);
    lemma_leading_is(version_on, not_whitespace(), 8);
    let end = version_on.skip(8);
    assert(end.len() == 0);

    assert(split_whitespace(end) == Seq::<Seq<char>>::empty());
    assert(split_whitespace(version_on) == seq![version_on.take(8)] + split_whitespace(end));
    assert(split_whitespace(after_path) == split_whitespace(version_on));
    assert(split_whitespace(path_on) == seq![path_on.take(4 + width)] + split_whitespace(
        after_path,
    ));
    assert(split_whitespace(after_method) == split_whitespace(path_on));
    assert(split_whitespace(line) == seq![line.take(3)] + split_whitespace(after_method));

    let parts = split_whitespace(line);
    assert(parts.len() == 3);
    assert(parts[0] == "GET"@);
    assert(parts[1] == path_on.take(4 + width));
    assert(parts[1].subrange(0, 4) == "/pi/"@);
    assert(parts[1].skip(4) == count);
}

/// A request line is accepted exactly if it has at least three words, the
/// first is `GET`, and the second is `/pi/` followed by a numeral within the
/// range of `usize`, with or without a `+` before it. The term count is then
/// the number that the numeral denotes.
pub proof fn lemma_accepted_request_lines(line: Seq<char>)
    ensures
        parse_request_line(line) is Ok <==> {
            let parts = split_whitespace(line);
            &&& parts.len() >= 3
            &&& parts[0] == "GET"@
            &&& "/pi/"@.is_prefix_of(parts[1])
            &&& is_numeral(unsigned_part(parts[1].skip(4)))
            &&& decimal_value(unsigned_part(parts[1].skip(4))) <= usize::MAX
        },
        parse_request_line(line) matches Ok(terms) ==> terms == decimal_value(
            unsigned_part(split_whitespace(line)[1].skip(4)),
        ),
{
    reveal_strlit("/pi/");
    let parts = split_whitespace(line);
    if parts.len() >= 3 {
        lemma_parse_succeeds_on_numerals(parts[1].skip(4));
    }
}

/// No refusal is answered as a fault of the server: the status of every
/// error response is of the 4xx class.
pub proof fn lemma_errors_are_client_errors(error: RequestError)
    ensures
        error.status_text().len() > 3,
        error.status_text()[0] == '4',
{
    reveal_strlit("400 Bad Request");
    reveal_strlit("404 Not Found");
    reveal_strlit("405 Method Not Allowed");
}

} // verus!
