use tcpaste::http::{
    bad_request_line_response, bad_request_path_response, file_not_found_response, file_response,
    forbidden_response, is_within_root, listing_failed_response, listing_response,
    missing_prefix_response, plan_request, Plan,
};

const ROOT: &[u8] = b"files";
const HIDDEN: &[u8] = b"secret";

fn plan(request: &[u8]) -> Plan {
    plan_request(request, HIDDEN, ROOT)
}

#[test]
fn traversal_target_is_bad_request() {
    let p = plan(b"GET /secret/../../etc/passwd HTTP/1.1\r\n\r\n");
    match p {
        Plan::Reply(bytes) => {
            assert_eq!(bytes, b"HTTP/1.1 400 Bad Request\r\n\r\nInvalid path specified.");
        }
        _ => panic!("traversal target must be answered directly"),
    }
}

#[test]
fn dotdot_without_slashes_is_bad_request() {
    let p = plan(b"GET /secret/..name HTTP/1.1\r\n");
    match p {
        Plan::Reply(bytes) => {
            assert_eq!(bytes, bad_request_path_response());
        }
        _ => panic!("any .. in the relative path must be rejected"),
    }
}

#[test]
fn wrong_prefix_is_not_found() {
    let p = plan(b"GET /wrong-prefix/anything HTTP/1.1\r\n");
    match p {
        Plan::Reply(bytes) => {
            assert_eq!(bytes, b"HTTP/1.1 404 Not Found\r\n\r\nNot Found");
        }
        _ => panic!("a target without the hidden prefix must be answered 404"),
    }
}

#[test]
fn bare_root_without_prefix_is_not_found() {
    let p = plan(b"GET / HTTP/1.1\r\n");
    match p {
        Plan::Reply(bytes) => assert_eq!(bytes, missing_prefix_response()),
        _ => panic!("/ does not carry the configured prefix"),
    }
}

#[test]
fn prefixed_directory_is_listing() {
    assert!(matches!(plan(b"GET /secret/ HTTP/1.1\r\n"), Plan::Listing));
    assert!(matches!(plan(b"GET /secret HTTP/1.1\r\n"), Plan::Listing));
}

#[test]
fn empty_prefix_serves_everyone() {
    let p = plan_request(b"GET / HTTP/1.1\r\n", b"", ROOT);
    assert!(matches!(p, Plan::Listing));
    match plan_request(b"GET /abc HTTP/1.1\r\n", b"", ROOT) {
        Plan::Serve(candidate) => assert_eq!(candidate, b"files/abc"),
        _ => panic!("a named file must be served"),
    }
}

#[test]
fn prefixed_file_is_served_from_root() {
    match plan(b"GET /secret/abc123 HTTP/1.1\r\n") {
        Plan::Serve(candidate) => assert_eq!(candidate, b"files/abc123"),
        _ => panic!("a named file must be served"),
    }
}

#[test]
fn extra_whitespace_still_parses() {
    match plan(b"GET   /secret/abc   HTTP/1.1\r\n") {
        Plan::Serve(candidate) => assert_eq!(candidate, b"files/abc"),
        _ => panic!("token runs of whitespace collapse"),
    }
}

#[test]
fn non_get_method_is_bad_request() {
    match plan(b"POST /secret/abc HTTP/1.1\r\n") {
        Plan::Reply(bytes) => {
            assert_eq!(bytes, b"HTTP/1.1 400 Bad Request\r\n\r\nInvalid request");
        }
        _ => panic!("only GET is accepted"),
    }
}

#[test]
fn short_request_line_is_bad_request() {
    match plan(b"GET /secret/abc\r\n") {
        Plan::Reply(bytes) => assert_eq!(bytes, bad_request_line_response()),
        _ => panic!("a request line needs exactly three tokens"),
    }
}

#[test]
fn four_tokens_is_bad_request() {
    match plan(b"GET /secret/abc HTTP/1.1 extra\r\n") {
        Plan::Reply(bytes) => assert_eq!(bytes, bad_request_line_response()),
        _ => panic!("a request line needs exactly three tokens"),
    }
}

#[test]
fn empty_request_is_bad_request() {
    match plan(b"") {
        Plan::Reply(bytes) => assert_eq!(bytes, bad_request_line_response()),
        _ => panic!("an empty request cannot parse"),
    }
}

#[test]
fn request_without_newline_still_parses() {
    match plan(b"GET /secret/abc HTTP/1.1") {
        Plan::Serve(candidate) => assert_eq!(candidate, b"files/abc"),
        _ => panic!("the first line may also be the whole request"),
    }
}

#[test]
fn prefix_match_is_textual() {
    match plan(b"GET /secretx HTTP/1.1\r\n") {
        Plan::Serve(candidate) => assert_eq!(candidate, b"files/x"),
        _ => panic!("the prefix check compares text, not path components"),
    }
}

#[test]
fn only_slashes_with_empty_prefix_is_listing() {
    assert!(matches!(plan_request(b"GET /// HTTP/1.1\r\n", b"", ROOT), Plan::Listing));
}

#[test]
fn file_response_is_exact() {
    let v = file_response(b"hello world");
    assert_eq!(v, b"HTTP/1.1 200 OK\r\nContent-Length: 11\r\n\r\nhello world");
}

#[test]
fn empty_file_response_is_exact() {
    let v = file_response(b"");
    assert_eq!(v, b"HTTP/1.1 200 OK\r\nContent-Length: 0\r\n\r\n");
}

#[test]
fn long_content_length_is_decimal() {
    let body = vec![120u8; 1205];
    let v = file_response(&body);
    let mut expected = b"HTTP/1.1 200 OK\r\nContent-Length: 1205\r\n\r\n".to_vec();
    expected.extend_from_slice(&body);
    assert_eq!(v, expected);
}

#[test]
fn listing_links_every_entry() {
    let names = vec![b"one".to_vec(), b"two".to_vec()];
    let v = listing_response(HIDDEN, &names);
    let body = b"<a href=\"/secret/one\">one</a><br><a href=\"/secret/two\">two</a><br>";
    let mut expected =
        format!("HTTP/1.1 200 OK\r\nContent-Length: {}\r\nContent-Type: text/html\r\n\r\n", body.len())
            .into_bytes();
    expected.extend_from_slice(body);
    assert_eq!(v, expected);
}

#[test]
fn empty_listing_is_exact() {
    let v = listing_response(HIDDEN, &Vec::new());
    assert_eq!(
        v,
        b"HTTP/1.1 200 OK\r\nContent-Length: 0\r\nContent-Type: text/html\r\n\r\n"
    );
}

#[test]
fn listing_without_prefix_links_plain() {
    let names = vec![b"one".to_vec()];
    let v = listing_response(b"", &names);
    let body = b"<a href=\"/one\">one</a><br>";
    let mut expected =
        format!("HTTP/1.1 200 OK\r\nContent-Length: {}\r\nContent-Type: text/html\r\n\r\n", body.len())
            .into_bytes();
    expected.extend_from_slice(body);
    assert_eq!(v, expected);
}

#[test]
fn containment_accepts_root_and_children() {
    assert!(is_within_root(b"/srv/files", b"/srv/files"));
    assert!(is_within_root(b"/srv/files", b"/srv/files/abc"));
}

#[test]
fn containment_rejects_escapes() {
    assert!(!is_within_root(b"/srv/files", b"/etc/passwd"));
    assert!(!is_within_root(b"/srv/files", b"/srv/files-evil/abc"));
    assert!(!is_within_root(b"/srv/files", b"/srv"));
}

#[test]
fn error_responses_are_exact() {
    assert_eq!(
        forbidden_response(),
        b"HTTP/1.1 403 Forbidden\r\n\r\nAccess Denied"
    );
    assert_eq!(
        file_not_found_response(),
        b"HTTP/1.1 404 Not Found\r\n\r\nFile not found"
    );
    assert_eq!(
        listing_failed_response(),
        b"HTTP/1.1 500 Internal Server Error\r\n\r\nUnable to read directory"
    );
}
