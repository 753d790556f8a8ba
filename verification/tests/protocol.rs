use async_minreq::framing::trimmed_equals;
use async_minreq::host::push_encoded_label;
use async_minreq::response::json_outcome;
use async_minreq::error::RequestError;
use async_minreq::framing::{
    framing_from_headers, head_line, trailer_line, HeadLineStep, HttpStreamState, TrailerLineStep,
};
use async_minreq::headers::Headers;
use async_minreq::host::ensure_ascii_host;
use async_minreq::line::{finish_line, push_line_chunk, LineStep};
use async_minreq::number::decimal_string;
use async_minreq::parse::{parse_chunk_size, parse_content_length, parse_header, parse_status_line};
use async_minreq::redirect::{get_redirect, redirected_method, Method, NextHop};
use async_minreq::response::{expects_body, BodyAction, ChunkSizeStep, Response, ResponseLazy};
use async_minreq::timeout::{connect_attempt_ends, effective_timeout, timeout_at_to_duration};

fn headers_of(pairs: &[(&str, &str)]) -> Headers {
    let mut h = Headers::new();
    for (k, v) in pairs {
        h.insert(k.to_string(), v.to_string());
    }
    h
}

fn lazy(status_line: &str, pairs: &[(&str, &str)]) -> ResponseLazy {
    ResponseLazy::from_head(status_line, headers_of(pairs), None).unwrap()
}

fn response_with_body(body: &[u8]) -> Response {
    Response::create(lazy("HTTP/1.1 200 OK", &[]), false, body.to_vec())
}

#[test]
fn status_line_ok() {
    assert_eq!(parse_status_line("HTTP/1.1 200 OK"), (200, "OK".to_string()));
}

#[test]
fn status_line_reason_keeps_spaces() {
    assert_eq!(
        parse_status_line("HTTP/1.1 203 Non-Authoritative Information"),
        (203, "Non-Authoritative Information".to_string())
    );
    assert_eq!(parse_status_line("HTTP/1.1 404 Not  Found "), (404, "Not  Found ".to_string()));
}

#[test]
fn status_line_without_reason() {
    assert_eq!(parse_status_line("HTTP/1.1 204"), (204, String::new()));
}

#[test]
fn status_line_signs() {
    assert_eq!(parse_status_line("HTTP/1.1 -5 X"), (-5, "X".to_string()));
    assert_eq!(parse_status_line("HTTP/1.1 +7 X"), (7, "X".to_string()));
}

#[test]
fn status_line_missing_gives_503() {
    let fallback = (503, "Server did not provide a status line".to_string());
    assert_eq!(parse_status_line(""), fallback);
    assert_eq!(parse_status_line("garbage"), fallback);
    assert_eq!(parse_status_line("HTTP/1.1 abc OK"), fallback);
    assert_eq!(parse_status_line("HTTP/1.1 2147483648 Big"), fallback);
    assert_eq!(parse_status_line("HTTP/1.1 2147483647 Big"), (2147483647, "Big".to_string()));
}

#[test]
fn header_name_lowercased_and_space_dropped() {
    assert_eq!(
        parse_header("Content-Type: text/html".to_string()),
        Some(("content-type".to_string(), "text/html".to_string()))
    );
}

#[test]
fn header_without_space() {
    assert_eq!(parse_header("X-A:b".to_string()), Some(("x-a".to_string(), "b".to_string())));
}

#[test]
fn header_only_one_space_dropped() {
    assert_eq!(parse_header("K:  v".to_string()), Some(("k".to_string(), " v".to_string())));
    assert_eq!(parse_header("K: ".to_string()), Some(("k".to_string(), String::new())));
    assert_eq!(parse_header("K:".to_string()), Some(("k".to_string(), String::new())));
}

#[test]
fn header_value_keeps_colons_and_case() {
    assert_eq!(
        parse_header("Location: http://Example.com:8080/A".to_string()),
        Some(("location".to_string(), "http://Example.com:8080/A".to_string()))
    );
}

#[test]
fn header_non_ascii_name_kept() {
    assert_eq!(parse_header("ÄB: ü".to_string()), Some(("Äb".to_string(), "ü".to_string())));
}

#[test]
fn header_without_colon_is_none() {
    assert_eq!(parse_header("no colon here".to_string()), None);
    assert_eq!(parse_header(String::new()), None);
}

#[test]
fn chunk_size_lines() {
    assert_eq!(parse_chunk_size("1a"), Some(26));
    assert_eq!(parse_chunk_size("1A;name=value"), Some(26));
    assert_eq!(parse_chunk_size(" ff \t"), Some(255));
    assert_eq!(parse_chunk_size(""), Some(0));
    assert_eq!(parse_chunk_size("0"), Some(0));
    assert_eq!(parse_chunk_size("+10"), Some(16));
}

#[test]
fn chunk_size_errors() {
    assert_eq!(parse_chunk_size("zz"), None);
    assert_eq!(parse_chunk_size("-1"), None);
    assert_eq!(parse_chunk_size("+"), None);
    assert_eq!(parse_chunk_size(";"), None);
    assert_eq!(parse_chunk_size("1 0"), None);
    assert_eq!(parse_chunk_size("10000000000000000"), None);
}

#[test]
fn content_length_values() {
    assert_eq!(parse_content_length("42"), Some(42));
    assert_eq!(parse_content_length(" 42\t"), Some(42));
    assert_eq!(parse_content_length("\u{a0}7\u{3000}"), Some(7));
    assert_eq!(parse_content_length("4x"), None);
    assert_eq!(parse_content_length(""), None);
    assert_eq!(parse_content_length("18446744073709551615"), Some(usize::MAX));
    assert_eq!(parse_content_length("18446744073709551616"), None);
}

#[test]
fn decimal_formatting() {
    assert_eq!(decimal_string(0), "0");
    assert_eq!(decimal_string(1234), "1234");
    assert_eq!(decimal_string(u64::MAX), u64::MAX.to_string());
}

#[test]
fn line_from_one_chunk() {
    let mut line = Vec::new();
    let chunk = b"HTTP/1.1 200 OK\r\nContent-Length: 3";
    assert_eq!(push_line_chunk(&mut line, chunk, None), LineStep::Complete(16));
    assert_eq!(line, b"HTTP/1.1 200 OK".to_vec());
    assert_eq!(&chunk[17..], b"Content-Length: 3");
    assert_eq!(finish_line(line).unwrap(), "HTTP/1.1 200 OK");
}

#[test]
fn line_across_chunks_carriage_return_in_earlier_chunk() {
    let mut line = Vec::new();
    assert_eq!(push_line_chunk(&mut line, b"abc\r", None), LineStep::More);
    assert_eq!(push_line_chunk(&mut line, b"\nxyz", None), LineStep::Complete(0));
    assert_eq!(line, b"abc".to_vec());
}

#[test]
fn line_bare_line_feed() {
    let mut line = Vec::new();
    assert_eq!(push_line_chunk(&mut line, b"a\rb\nc", None), LineStep::Complete(3));
    assert_eq!(line, b"a\rb".to_vec());
}

#[test]
fn line_over_limit_refused() {
    let mut line = Vec::new();
    assert_eq!(push_line_chunk(&mut line, b"0123456789", Some(11)), LineStep::More);
    assert_eq!(line.len(), 10);
    assert_eq!(push_line_chunk(&mut line, b"\n", Some(10)), LineStep::Overflow);
    assert_eq!(line.len(), 10);
    assert_eq!(push_line_chunk(&mut line, b"more", Some(10)), LineStep::Overflow);
    assert_eq!(push_line_chunk(&mut line, b"\n", Some(11)), LineStep::Complete(0));
}

#[test]
fn status_line_cap() {
    // 42 bytes of text, then CR LF: the limit must exceed the text and its CR.
    let head = b"HTTP/1.1 203 Non-Authoritative Information\r\n\r\n";
    let mut line = Vec::new();
    assert_eq!(push_line_chunk(&mut line, head, Some(43)), LineStep::Overflow);
    assert!(line.is_empty());
    assert_eq!(push_line_chunk(&mut line, head, Some(44)), LineStep::Complete(43));
    assert_eq!(parse_status_line(&finish_line(line).unwrap()), (203, "Non-Authoritative Information".to_string()));
    let mut blank = Vec::new();
    assert_eq!(push_line_chunk(&mut blank, &head[44..], None), LineStep::Complete(1));
    assert!(blank.is_empty());
}

#[test]
fn line_invalid_utf8() {
    assert!(matches!(finish_line(vec![0xff, 0xfe]), Err(RequestError::InvalidUtf8InResponse)));
    assert_eq!(finish_line("ü".as_bytes().to_vec()).unwrap(), "ü");
}

#[test]
fn headers_insert_get_remove() {
    let mut h = Headers::new();
    h.insert("a".to_string(), "1".to_string());
    h.insert("b".to_string(), "2".to_string());
    h.insert("a".to_string(), "3".to_string());
    assert_eq!(h.len(), 2);
    assert_eq!(h.get(&"a".to_string()), Some(&"3".to_string()));
    assert_eq!(h.name_at(0), "a");
    assert_eq!(h.value_at(1), "2");
    assert_eq!(h.remove(&"a".to_string()), Some("3".to_string()));
    assert_eq!(h.get(&"a".to_string()), None);
    assert_eq!(h.remove(&"a".to_string()), None);
    assert_eq!(h.len(), 1);
    let c = h.clone();
    assert_eq!(c.get(&"b".to_string()), Some(&"2".to_string()));
}

#[test]
fn head_lines_read() {
    let mut h = Headers::new();
    let mut budget = Some(100usize);
    assert_eq!(head_line(&mut h, &mut budget, "Content-Length: 5".to_string()), HeadLineStep::More);
    assert_eq!(budget, Some(100 - 17 - 2));
    assert_eq!(head_line(&mut h, &mut budget, "junk".to_string()), HeadLineStep::More);
    assert_eq!(budget, Some(81 - 6));
    assert_eq!(h.len(), 1);
    assert_eq!(head_line(&mut h, &mut budget, String::new()), HeadLineStep::EndOfHead);
    assert_eq!(budget, Some(75));
    assert_eq!(head_line(&mut h, &mut budget, "x".repeat(74)), HeadLineStep::BudgetOverflow);
    assert_eq!(budget, Some(75));
    let mut unlimited = None;
    assert_eq!(head_line(&mut h, &mut unlimited, "x".repeat(10_000)), HeadLineStep::More);
}

#[test]
fn trailer_lines_read() {
    let mut h = Headers::new();
    let mut budget = None;
    assert_eq!(trailer_line(&mut h, &mut budget, "Expires: never".to_string()), TrailerLineStep::More);
    assert_eq!(trailer_line(&mut h, &mut budget, String::new()), TrailerLineStep::Done);
    assert_eq!(h.get(&"expires".to_string()), Some(&"never".to_string()));
    let mut small = Some(3usize);
    assert_eq!(trailer_line(&mut h, &mut small, "ab".to_string()), TrailerLineStep::BudgetOverflow);
    assert_eq!(trailer_line(&mut h, &mut small, "a".to_string()), TrailerLineStep::Done);
    assert_eq!(small, Some(0));
}

#[test]
fn framing_from_content_length() {
    let h = headers_of(&[("content-length", " 12 ")]);
    assert_eq!(framing_from_headers(&h).unwrap(), HttpStreamState::ContentLength(12));
}

#[test]
fn framing_chunked_wins() {
    let h = headers_of(&[("content-length", "12"), ("Transfer-Encoding", " CHUNKED ")]);
    assert_eq!(framing_from_headers(&h).unwrap(), HttpStreamState::Chunked(true, 0, 0, false));
}

#[test]
fn framing_uses_unicode_lowercase() {
    // U+212A KELVIN SIGN lowercases to an ASCII 'k'.
    let h = headers_of(&[("transfer-encoding", "chun\u{212a}ed")]);
    assert_eq!(framing_from_headers(&h).unwrap(), HttpStreamState::Chunked(true, 0, 0, false));
}

#[test]
fn framing_end_on_close() {
    let h = headers_of(&[("server", "x")]);
    assert_eq!(framing_from_headers(&h).unwrap(), HttpStreamState::EndOnClose);
}

#[test]
fn framing_bad_content_length() {
    let h = headers_of(&[("transfer-encoding", "chunked"), ("content-length", "ten")]);
    assert!(matches!(framing_from_headers(&h), Err(RequestError::MalformedContentLength)));
}

#[test]
fn framing_last_content_length_counts() {
    let h = headers_of(&[("content-length", "3"), ("Content-Length ", "7")]);
    assert_eq!(framing_from_headers(&h).unwrap(), HttpStreamState::ContentLength(7));
}

#[test]
fn from_head_fields() {
    let l = ResponseLazy::from_head("HTTP/1.1 404 Not Found", headers_of(&[("a", "b")]), Some(9)).unwrap();
    assert_eq!(l.status_code, 404);
    assert_eq!(l.reason_phrase, "Not Found");
    assert_eq!(l.url, "");
    assert_eq!(l.state(), HttpStreamState::EndOnClose);
    assert_eq!(l.trailer_limit_exec(), Some(9));
    assert_eq!(l.next_action(), BodyAction::ReadUntilClosed);
}

#[test]
fn from_head_refuses_bad_length() {
    let r = ResponseLazy::from_head("HTTP/1.1 200 OK", headers_of(&[("content-length", "-1")]), None);
    assert!(matches!(r, Err(RequestError::MalformedContentLength)));
}

#[test]
fn content_length_steps_cap_expectation() {
    let mut l = lazy("HTTP/1.1 200 OK", &[("content-length", "20000")]);
    assert_eq!(l.next_action(), BodyAction::ReadContent);
    assert_eq!(l.take_content(100), Some((100, 16384)));
    assert_eq!(l.state(), HttpStreamState::ContentLength(19900));
    assert_eq!(l.take_content(19000), Some((19000, 16384)));
    assert_eq!(l.state(), HttpStreamState::ContentLength(900));
    assert_eq!(l.take_content(1000), Some((900, 900)));
    assert_eq!(l.next_action(), BodyAction::Done);
    assert_eq!(l.take_content(5), None);
    assert_eq!(l.state(), HttpStreamState::ContentLength(0));
}

#[test]
fn chunked_steps() {
    let mut l = lazy("HTTP/1.1 200 OK", &[("transfer-encoding", "chunked")]);
    assert_eq!(l.next_action(), BodyAction::ReadChunkSize);
    assert!(matches!(l.take_chunk_size("zz"), Err(RequestError::MalformedChunkLength)));
    assert_eq!(l.take_chunk_size("3").unwrap(), ChunkSizeStep::Data);
    assert_eq!(l.state(), HttpStreamState::Chunked(true, 3, 3, false));
    assert_eq!(l.next_action(), BodyAction::ReadChunkData);
    assert_eq!(l.take_chunk_data(2), Some((2, 3)));
    assert_eq!(l.take_chunk_data(10), Some((1, 1)));
    assert_eq!(l.take_chunk_data(10), None);
    assert_eq!(l.next_action(), BodyAction::ReadChunkEnd);
    assert!(matches!(l.take_chunk_end("x"), Err(RequestError::MalformedChunkLength)));
    assert!(l.take_chunk_end("").is_ok());
    assert_eq!(l.next_action(), BodyAction::ReadChunkSize);
    assert_eq!(l.take_chunk_size("4e20").unwrap(), ChunkSizeStep::Data);
    assert_eq!(l.state(), HttpStreamState::Chunked(true, 20000, 20003, false));
    assert_eq!(l.take_chunk_data(100), Some((100, 16384)));
    assert_eq!(l.take_chunk_data(19900), Some((19900, 16384)));
    assert!(l.take_chunk_end("").is_ok());
    assert_eq!(l.take_chunk_size("0").unwrap(), ChunkSizeStep::LastChunk);
    assert_eq!(l.state(), HttpStreamState::Chunked(false, 0, 20003, true));
    assert_eq!(l.next_action(), BodyAction::ReadTrailer);
    assert_eq!(l.take_trailer_line("Expires: never".to_string()), TrailerLineStep::More);
    assert_eq!(l.next_action(), BodyAction::ReadTrailer);
    assert_eq!(l.take_trailer_line(String::new()), TrailerLineStep::Done);
    assert_eq!(l.state(), HttpStreamState::Chunked(false, 0, 20003, false));
    assert_eq!(l.next_action(), BodyAction::Done);
    assert_eq!(l.take_chunk_data(10), None);
    assert_eq!(l.headers.get(&"content-length".to_string()), Some(&"20003".to_string()));
    assert_eq!(l.headers.get(&"expires".to_string()), Some(&"never".to_string()));
    assert_eq!(l.headers.get(&"transfer-encoding".to_string()), None);
}

#[test]
fn chunked_trailer_budget() {
    let mut l = ResponseLazy::from_head("HTTP/1.1 200 OK", headers_of(&[("transfer-encoding", "chunked")]), Some(10)).unwrap();
    assert_eq!(l.take_chunk_size("0").unwrap(), ChunkSizeStep::LastChunk);
    assert_eq!(l.take_trailer_line("a: b".to_string()), TrailerLineStep::More);
    assert_eq!(l.trailer_limit_exec(), Some(4));
    assert_eq!(l.take_trailer_line("abc".to_string()), TrailerLineStep::BudgetOverflow);
    assert_eq!(l.trailer_limit_exec(), Some(4));
}

#[test]
fn chunked_count_overflow() {
    let mut n = lazy("HTTP/1.1 200 OK", &[("transfer-encoding", "chunked")]);
    assert_eq!(n.take_chunk_size("1").unwrap(), ChunkSizeStep::Data);
    assert_eq!(n.take_chunk_data(1), Some((1, 1)));
    assert!(n.take_chunk_end("").is_ok());
    assert_eq!(n.take_chunk_size("ffffffffffffffff").unwrap(), ChunkSizeStep::CountOverflow);
    assert_eq!(n.state(), HttpStreamState::Chunked(true, 0, 1, false));
}

#[test]
fn lazy_getters() {
    let l = lazy("HTTP/1.1 404 Not Found", &[("a", "b")]);
    assert_eq!(l.status(), 404);
    assert_eq!(l.reason(), "Not Found");
    assert_eq!(l.header_fields().len(), 1);
    assert_eq!(l.url_str(), "");
    let r = Response::create(l, false, b"x".to_vec());
    assert_eq!(r.status(), 404);
    assert_eq!(r.reason(), "Not Found");
    assert_eq!(r.header_fields().get(&"a".to_string()), Some(&"b".to_string()));
    assert_eq!(r.url_str(), "");
}

#[test]
fn body_expected_rules() {
    assert!(expects_body(200, false));
    assert!(!expects_body(200, true));
    assert!(!expects_body(204, false));
    assert!(!expects_body(304, false));
}

#[test]
fn response_without_body_for_head() {
    let r = Response::create(lazy("HTTP/1.1 418 I'm a teapot", &[]), true, b"ignored".to_vec());
    assert_eq!(r.status_code, 418);
    assert_eq!(r.as_bytes(), b"");
}

#[test]
fn response_without_body_for_204() {
    let r = Response::create(lazy("HTTP/1.1 204 No Content", &[]), false, b"x".to_vec());
    assert!(r.into_bytes().is_empty());
}

#[test]
fn response_as_str() {
    let r = response_with_body("j: Q".as_bytes());
    assert_eq!(r.as_str().unwrap(), "j: Q");
    assert_eq!(r.as_bytes(), b"j: Q");
    assert_eq!(r.into_bytes(), b"j: Q".to_vec());
}

#[test]
fn response_as_str_invalid() {
    let r = response_with_body(&[0x66, 0x80]);
    assert!(matches!(r.as_str(), Err(RequestError::InvalidUtf8InBody(_))));
    let r = response_with_body(&[b'j', b':', b' ', 0xff]);
    assert!(matches!(r.as_str(), Err(RequestError::InvalidUtf8InBody(e)) if e.valid_up_to() == 3));
}

#[test]
fn response_json() {
    let r = response_with_body(br#"{"str": "Json test", "num": 42}"#);
    let v = r.json().unwrap();
    assert_eq!(v["str"], "Json test");
    assert_eq!(v["num"], 42);
}

#[test]
fn response_json_errors() {
    assert!(matches!(response_with_body(b"{").json(), Err(RequestError::SerdeJsonError(_))));
    assert!(matches!(response_with_body(&[0xff]).json(), Err(RequestError::InvalidUtf8InBody(_))));
}

#[test]
fn ascii_host_unchanged() {
    assert_eq!(ensure_ascii_host("example.com".to_string()).unwrap(), "example.com");
    assert_eq!(ensure_ascii_host(String::new()).unwrap(), "");
}

#[test]
fn unicode_host_punycoded() {
    assert_eq!(ensure_ascii_host("bücher.de".to_string()).unwrap(), "xn--bcher-kva.de");
    assert_eq!(
        ensure_ascii_host("例え.テスト".to_string()).unwrap(),
        "xn--r8jz45g.xn--zckzah"
    );
    assert_eq!(ensure_ascii_host("ü.".to_string()).unwrap(), "xn--tda.");
}

#[test]
fn redirect_decisions() {
    let loc = "/a".to_string();
    assert!(matches!(get_redirect(200, Some(&loc)), Ok(NextHop::Destination)));
    assert!(matches!(get_redirect(308, Some(&loc)), Ok(NextHop::Destination)));
    match get_redirect(302, Some(&loc)) {
        Ok(NextHop::Redirect(to)) => assert_eq!(to, "/a"),
        _ => panic!("302 should redirect"),
    }
    assert!(matches!(get_redirect(301, None), Err(RequestError::RedirectLocationMissing)));
}

#[test]
fn redirect_methods() {
    assert!(matches!(redirected_method(303, Method::Post), Method::Get));
    assert!(matches!(redirected_method(303, Method::Delete), Method::Get));
    assert!(matches!(redirected_method(302, Method::Post), Method::Post));
    assert!(matches!(redirected_method(303, Method::Head), Method::Head));
    assert!(matches!(redirected_method(303, Method::Custom("X".to_string())), Method::Custom(_)));
}

#[test]
fn timeouts() {
    assert_eq!(timeout_at_to_duration(None, 5).unwrap(), None);
    assert_eq!(timeout_at_to_duration(Some(10), 4).unwrap(), Some(6));
    assert_eq!(timeout_at_to_duration(Some(10), 10).unwrap(), Some(0));
    let err = timeout_at_to_duration(Some(10), 11).unwrap_err();
    assert_eq!(err.kind(), std::io::ErrorKind::TimedOut);
    assert_eq!(effective_timeout(Some(3), Some("9")), Some(3));
    assert_eq!(effective_timeout(None, Some("9")), Some(9));
    assert_eq!(effective_timeout(None, Some("nine")), None);
    assert_eq!(effective_timeout(None, None), None);
}

#[test]
fn connect_attempts() {
    assert!(connect_attempt_ends(true, 0, 3));
    assert!(!connect_attempt_ends(false, 0, 3));
    assert!(connect_attempt_ends(false, 2, 3));
}

#[test]
fn headers_equal_in_any_order() {
    let a = headers_of(&[("a", "1"), ("b", "2")]);
    let b = headers_of(&[("b", "2"), ("a", "1")]);
    assert!(a == b);
    let c = headers_of(&[("a", "1"), ("b", "3")]);
    assert!(a != c);
    let d = headers_of(&[("a", "1")]);
    assert!(a != d);
    let e = headers_of(&[("a", "1"), ("c", "2")]);
    assert!(a != e);
}

#[test]
fn headers_clone_keeps_order() {
    let a = headers_of(&[("x", "1"), ("y", "2")]);
    let b = a.clone();
    assert_eq!(b.len(), 2);
    assert_eq!(b.name_at(0), "x");
    assert_eq!(b.value_at(1), "2");
    assert!(a == b);
}

#[test]
fn response_equality_and_clone() {
    let a = response_with_body(b"hello");
    let b = a.clone();
    assert!(a == b);
    assert_eq!(b.as_bytes(), b"hello");
    assert_eq!(b.status_code, 200);
    assert_eq!(b.reason_phrase, "OK");
    let c = response_with_body(b"hellO");
    assert!(a != c);
    let d = Response::create(lazy("HTTP/1.1 201 OK", &[]), false, b"hello".to_vec());
    assert!(a != d);
    let e = Response::create(lazy("HTTP/1.1 200 OK", &[("k", "v")]), false, b"hello".to_vec());
    assert!(a != e);
}

/// Feeds `chunks` to the library's steps as the client does: the head line
/// by line, then the body piece by piece; gives the response and the body.
fn read_all(chunks: &[&[u8]], status_max: Option<usize>, mut header_max: Option<usize>) -> Result<(ResponseLazy, Vec<u8>), RequestError> {
    let mut queue: Vec<Vec<u8>> = chunks.iter().map(|c| c.to_vec()).collect();
    queue.reverse();
    fn next_line(queue: &mut Vec<Vec<u8>>, max: Option<usize>, err: RequestError) -> Result<String, RequestError> {
        let mut line = Vec::new();
        while let Some(chunk) = queue.pop() {
            match push_line_chunk(&mut line, &chunk, max) {
                LineStep::Overflow => return Err(err),
                LineStep::More => {}
                LineStep::Complete(k) => {
                    if k + 1 < chunk.len() {
                        queue.push(chunk[k + 1..].to_vec());
                    }
                    return finish_line(line);
                }
            }
        }
        finish_line(line)
    }
    let status = next_line(&mut queue, status_max, RequestError::StatusLineOverflow)?;
    let mut headers = Headers::new();
    loop {
        let text = next_line(&mut queue, header_max, RequestError::HeadersOverflow)?;
        match head_line(&mut headers, &mut header_max, text) {
            HeadLineStep::EndOfHead => break,
            HeadLineStep::More => {}
            HeadLineStep::BudgetOverflow => panic!("budget"),
        }
    }
    let mut meta = ResponseLazy::from_head(&status, headers, header_max)?;
    let mut body = Vec::new();
    loop {
        match meta.next_action() {
            BodyAction::Done => break,
            BodyAction::ReadUntilClosed => match queue.pop() {
                Some(c) => body.extend_from_slice(&c),
                None => break,
            },
            BodyAction::ReadContent | BodyAction::ReadChunkData => {
                let c = match queue.pop() {
                    Some(c) => c,
                    None => break,
                };
                let (take, expected) = if meta.next_action() == BodyAction::ReadContent {
                    meta.take_content(c.len()).unwrap()
                } else {
                    meta.take_chunk_data(c.len()).unwrap()
                };
                assert!(expected <= 16384);
                body.extend_from_slice(&c[..take]);
                if take < c.len() {
                    queue.push(c[take..].to_vec());
                }
            }
            BodyAction::ReadChunkSize => {
                let text = next_line(&mut queue, Some(1024), RequestError::MalformedChunkLength)?;
                meta.take_chunk_size(&text)?;
            }
            BodyAction::ReadChunkEnd => {
                let text = next_line(&mut queue, Some(1024), RequestError::MalformedChunkLength)?;
                meta.take_chunk_end(&text)?;
            }
            BodyAction::ReadTrailer => {
                let text = next_line(&mut queue, meta.trailer_limit_exec(), RequestError::HeadersOverflow)?;
                meta.take_trailer_line(text);
            }
        }
    }
    Ok((meta, body))
}

#[test]
fn head_read_line_by_line() {
    let wire: &[u8] = b"HTTP/1.1 200 OK\r\nContent-Length: 5\r\nX-A: b\r\n\r\nhelloEXTRA";
    let (meta, body) = read_all(&[wire], None, None).unwrap();
    assert_eq!(meta.status(), 200);
    assert_eq!(meta.header_fields().get(&"x-a".to_string()), Some(&"b".to_string()));
    assert_eq!(body, b"hello".to_vec());
}

#[test]
fn status_line_cap_through_reader() {
    let wire: &[u8] = b"HTTP/1.1 203 Non-Authoritative Information\r\n\r\n";
    assert!(matches!(read_all(&[wire], Some(43), None), Err(RequestError::StatusLineOverflow)));
    let (meta, _) = read_all(&[wire], Some(44), None).unwrap();
    assert_eq!(meta.status(), 203);
}

#[test]
fn header_cap_through_reader() {
    let mut wire = b"HTTP/1.1 200 OK\r\n".to_vec();
    for i in 0..20 {
        wire.extend_from_slice(format!("X-Long-{:02}: {}\r\n", i, "v".repeat(50)).as_bytes());
    }
    wire.extend_from_slice(b"\r\n");
    // Twenty lines of 61 bytes, each with CR LF, and the empty line: 1262 bytes.
    let pieces: Vec<&[u8]> = wire.chunks(7).collect();
    assert!(matches!(read_all(&pieces, None, Some(999)), Err(RequestError::HeadersOverflow)));
    assert!(matches!(read_all(&pieces, None, Some(1261)), Err(RequestError::HeadersOverflow)));
    assert!(read_all(&pieces, None, Some(1262)).is_ok());
    assert!(read_all(&pieces, None, Some(1500)).is_ok());
}

#[test]
fn chunked_body_is_the_payloads() {
    let wire: &[u8] = b"HTTP/1.1 200 OK\r\nTransfer-Encoding: chunked\r\n\r\n5\r\nhello\r\n7;ext=1\r\n, world\r\n0\r\nExpires: never\r\n\r\n";
    for size in [1usize, 3, 8, 1000] {
        let pieces: Vec<&[u8]> = wire.chunks(size).collect();
        let (meta, body) = read_all(&pieces, None, None).unwrap();
        assert_eq!(body, b"hello, world".to_vec());
        assert_eq!(meta.header_fields().get(&"content-length".to_string()), Some(&"12".to_string()));
        assert_eq!(meta.header_fields().get(&"transfer-encoding".to_string()), None);
        assert_eq!(meta.header_fields().get(&"expires".to_string()), Some(&"never".to_string()));
    }
}

#[test]
fn trimmed_comparison_after_lowering() {
    assert!(trimmed_equals(" chunked\t", "chunked"));
    assert!(!trimmed_equals("Chunked", "chunked"));
    assert!(!trimmed_equals("chunk", "chunked"));
    assert!(trimmed_equals("\u{a0}content-length\u{3000}", "content-length"));
}

#[test]
fn encoded_label_pushed() {
    let mut out = "a.".to_string();
    assert!(push_encoded_label(&mut out, Some("bcher-kva".to_string())));
    assert_eq!(out, "a.xn--bcher-kva");
    assert!(!push_encoded_label(&mut out, None));
    assert_eq!(out, "a.xn--bcher-kva");
}

#[test]
fn json_outcome_maps_errors() {
    let ok: Result<serde_json::Value, serde_json::Error> = serde_json::from_str("[1, 2]");
    assert_eq!(json_outcome(ok).unwrap()[1], 2);
    let bad: Result<serde_json::Value, serde_json::Error> = serde_json::from_str("[1,");
    assert!(matches!(json_outcome(bad), Err(RequestError::SerdeJsonError(_))));
    let r = response_with_body(b"{\"a\": [true, null]}");
    let v = r.json().unwrap();
    assert_eq!(v, serde_json::from_str::<serde_json::Value>("{\"a\": [true, null]}").unwrap());
}
