use http_server::decimal::push_decimal;
use http_server::request_handler::{handle_connection, success_response, Step};
use http_server::response::format_response;

fn text(bytes: Vec<u8>) -> String {
    String::from_utf8(bytes).unwrap()
}

fn lines(request: &[&str]) -> Vec<String> {
    request.iter().map(|l| l.to_string()).collect()
}

#[test]
fn formats_a_minimal_response() {
    assert_eq!(
        text(format_response("200 OK", "hello")),
        "HTTP/1.1 200 OK\r\nContent-Length: 5\r\n\r\nhello"
    );
}

#[test]
fn formats_an_empty_body() {
    assert_eq!(
        text(format_response("404 Not Found", "")),
        "HTTP/1.1 404 Not Found\r\nContent-Length: 0\r\n\r\n"
    );
}

#[test]
fn content_length_counts_bytes_not_characters() {
    assert_eq!(
        text(format_response("400 Bad Request", "é∑𝄞")),
        "HTTP/1.1 400 Bad Request\r\nContent-Length: 9\r\n\r\né∑𝄞"
    );
    let body = "x".repeat(12345);
    let response = text(format_response("200 OK", &body));
    assert!(response.starts_with("HTTP/1.1 200 OK\r\nContent-Length: 12345\r\n\r\nxxx"));
    assert_eq!(response.len(), 42 + 12345);
}

#[test]
fn the_declared_length_is_the_length_of_what_follows_the_blank_line() {
    for body in ["", "a", "hello world", "größer", "line\r\n\r\nbreaks", "日本語のテキスト"] {
        let response = format_response("200 OK", body);
        let at = response.windows(4).position(|w| w == b"\r\n\r\n").unwrap();
        let head = std::str::from_utf8(&response[..at]).unwrap();
        let declared: usize = head
            .rsplit("Content-Length: ")
            .next()
            .unwrap()
            .parse()
            .unwrap();
        assert_eq!(declared, response.len() - at - 4);
        assert_eq!(&response[at + 4..], body.as_bytes());
    }
}

#[test]
fn decimal_numerals_agree_with_the_standard_formatter() {
    let mut samples = vec![0usize, 1, 9, 10, 11, 99, 100, 101, 1000, 65535, usize::MAX, usize::MAX - 1];
    for n in 0..200usize {
        samples.push(n.wrapping_mul(0x9E37_79B9).wrapping_add(n));
    }
    for n in samples {
        let mut out = String::from("n=");
        push_decimal(&mut out, n);
        assert_eq!(out, format!("n={}", n));
    }
}

#[test]
fn a_valid_request_asks_for_the_computation() {
    assert_eq!(
        handle_connection(&lines(&["GET /pi/1000 HTTP/1.1"])),
        Step::Compute { terms: 1000 }
    );
}

#[test]
fn only_the_first_line_counts() {
    assert_eq!(
        handle_connection(&lines(&[
            "GET /pi/3 HTTP/1.1",
            "Host: localhost",
            "POST /other HTTP/1.1"
        ])),
        Step::Compute { terms: 3 }
    );
    assert_eq!(
        handle_connection(&lines(&["Host: localhost", "GET /pi/3 HTTP/1.1"])),
        Step::Respond {
            response: b"HTTP/1.1 400 Bad Request\r\nContent-Length: 22\r\n\r\nUnknown method or path"
                .to_vec()
        }
    );
}

#[test]
fn success_reports_terms_value_and_time() {
    let response = text(success_response(1000, "3.140592653839794", "0.000"));
    let body = "The value of pi approximated using 1000 terms is: 3.140592653839794 (Time: 0.000 seconds)";
    assert_eq!(
        response,
        format!("HTTP/1.1 200 OK\r\nContent-Length: {}\r\n\r\n{}", body.len(), body)
    );
    assert!(response.starts_with("HTTP/1.1 200 OK\r\n"));
    assert!(response.contains("1000 terms"));
    let value: f64 = body
        .split("is: ")
        .nth(1)
        .unwrap()
        .split(' ')
        .next()
        .unwrap()
        .parse()
        .unwrap();
    assert!((value - std::f64::consts::PI).abs() < 0.01);
}

#[test]
fn success_with_no_terms() {
    assert_eq!(
        text(success_response(0, "0.000000000000000", "0.000")),
        "HTTP/1.1 200 OK\r\nContent-Length: 86\r\n\r\nThe value of pi approximated using 0 terms is: 0.000000000000000 (Time: 0.000 seconds)"
    );
}

#[test]
fn an_empty_request_is_a_bad_request() {
    assert_eq!(
        handle_connection(&[]),
        Step::Respond {
            response: b"HTTP/1.1 400 Bad Request\r\nContent-Length: 22\r\n\r\nEmpty request received"
                .to_vec()
        }
    );
}

#[test]
fn a_blank_first_line_is_an_empty_request() {
    let empty = Step::Respond {
        response: b"HTTP/1.1 400 Bad Request\r\nContent-Length: 22\r\n\r\nEmpty request received"
            .to_vec(),
    };
    assert_eq!(handle_connection(&lines(&[""])), empty);
    assert_eq!(
        handle_connection(&lines(&["", "GET /pi/5 HTTP/1.1"])),
        empty
    );
}

#[test]
fn each_fault_gets_its_response() {
    let cases = [
        ("GET", "HTTP/1.1 400 Bad Request\r\nContent-Length: 22\r\n\r\nUnknown method or path"),
        (
            "POST /pi/5 HTTP/1.1",
            "HTTP/1.1 405 Method Not Allowed\r\nContent-Length: 18\r\n\r\nMethod must be GET",
        ),
        (
            "GET /other HTTP/1.1",
            "HTTP/1.1 404 Not Found\r\nContent-Length: 12\r\n\r\nInvalid path",
        ),
        (
            "GET /pi/ HTTP/1.1",
            "HTTP/1.1 400 Bad Request\r\nContent-Length: 38\r\n\r\ncannot parse integer from empty string",
        ),
        (
            "GET /pi/abc HTTP/1.1",
            "HTTP/1.1 400 Bad Request\r\nContent-Length: 29\r\n\r\ninvalid digit found in string",
        ),
        (
            "GET /pi/340282366920938463463374607431768211456 HTTP/1.1",
            "HTTP/1.1 400 Bad Request\r\nContent-Length: 38\r\n\r\nnumber too large to fit in target type",
        ),
    ];
    for (line, expected) in cases {
        match handle_connection(&lines(&[line])) {
            Step::Respond { response } => assert_eq!(text(response), expected, "{}", line),
            step => panic!("{}: {:?}", line, step),
        }
    }
}

#[test]
fn no_fault_is_answered_as_a_server_fault() {
    for line in ["", " ", "GET", "PUT / x", "GET / x", "GET /pi/ x", "GET /pi/-1 x"] {
        match handle_connection(&lines(&[line])) {
            Step::Respond { response } => {
                assert!(text(response).starts_with("HTTP/1.1 4"), "{}", line)
            }
            step => panic!("{}: {:?}", line, step),
        }
    }
}

#[test]
fn each_request_gets_the_answer_to_its_own_term_count() {
    for terms in [0usize, 1, 2, 10, 999, 1000, 123456789] {
        let line = format!("GET /pi/{} HTTP/1.1", terms);
        assert_eq!(
            handle_connection(&lines(&[&line])),
            Step::Compute { terms }
        );
        let response = text(success_response(terms, "3.1", "0.001"));
        assert!(response.contains(&format!("using {} terms is", terms)));
    }
}
