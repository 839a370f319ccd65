use h11::{ConnectionClosed, Data, EndOfMessage, Event, Headers, Request, Response};

#[test]
fn test_response_new_rejects_invalid_input() {
    assert!(Response::new(99, Headers::default(), b"OK".to_vec(), b"1.1".to_vec()).is_err());
    assert!(Response::new(1000, Headers::default(), b"OK".to_vec(), b"1.1".to_vec()).is_err());
    assert!(Response::new(
        200,
        Headers::default(),
        b"OK".to_vec(),
        b"HTTP/1.1".to_vec()
    )
    .is_err());
    assert!(Response::new(
        200,
        Headers::default(),
        b"bad\nreason".to_vec(),
        b"1.1".to_vec()
    )
    .is_err());
}

#[test]
fn test_request_new_rejects_invalid_http_version() {
    assert!(Request::new(
        b"GET".to_vec(),
        Headers::new(vec![(b"Host".to_vec(), b"example.com".to_vec())]).unwrap(),
        b"/".to_vec(),
        b"HTTP/1.1".to_vec(),
    )
    .is_err());
}

#[test]
fn test_request_new_accepts_borrowed_inputs_and_http11_default() {
    let request =
        Request::new_http11("GET", Headers::new(vec![("Host", "example.com")]).unwrap(), "/")
            .unwrap();

    assert_eq!(request.method, b"GET");
    assert_eq!(request.target, b"/");
    assert_eq!(request.http_version, b"1.1");
}

#[test]
fn test_response_new_accepts_borrowed_inputs_and_http11_default() {
    let response =
        Response::new_http11(200, Headers::new(vec![("Content-Length", "0")]).unwrap(), "OK")
            .unwrap();

    assert_eq!(response.status_code, 200);
    assert_eq!(response.reason, b"OK");
    assert_eq!(response.http_version, b"1.1");
}

fn local_message(result: Result<(), h11::ProtocolError>) -> (String, u16) {
    match result {
        Err(h11::ProtocolError::LocalProtocolError(e)) => (e.message, e.code),
        other => panic!("expected a local protocol error, got {other:?}"),
    }
}

fn host() -> Headers {
    Headers::new(vec![("Host", "example.com")]).unwrap()
}

#[test]
fn request_validation_reports_each_fault_in_order() {
    let bad_version = Request {
        method: b"GET".to_vec(),
        headers: host(),
        target: b"/".to_vec(),
        http_version: b"11".to_vec(),
    };
    assert_eq!(
        local_message(bad_version.validate()),
        ("Illegal HTTP version".to_string(), 400)
    );

    let missing_host = Request::new_http11("GET", Headers::default(), "/").unwrap_err();
    assert_eq!(
        missing_host,
        h11::ProtocolError::LocalProtocolError(("Missing mandatory Host: header", 400).into())
    );

    // HTTP/1.0 needs no Host field.
    assert!(Request::new("GET", Headers::default(), "/", "1.0").is_ok());

    let two_hosts = Headers::new(vec![("Host", "a"), ("host", "b")]).unwrap();
    let request = Request {
        method: b"GET".to_vec(),
        headers: two_hosts,
        target: b"/".to_vec(),
        http_version: b"1.0".to_vec(),
    };
    assert_eq!(
        local_message(request.validate()),
        ("Found multiple Host: headers".to_string(), 400)
    );

    assert_eq!(
        Request::new_http11("G ET", host(), "/").unwrap_err(),
        h11::ProtocolError::LocalProtocolError(("Illegal method characters", 400).into())
    );
    assert_eq!(
        Request::new_http11("GET", host(), "/a b").unwrap_err(),
        h11::ProtocolError::LocalProtocolError(("Illegal target characters", 400).into())
    );
    assert_eq!(
        Request::new_http11("GET", host(), "").unwrap_err(),
        h11::ProtocolError::LocalProtocolError(("Illegal target characters", 400).into())
    );
}

#[test]
fn request_new_keeps_its_inputs() {
    let request = Request::new(
        b"POST".as_slice(),
        host(),
        "/submit?x=1".to_string(),
        b"1.0".to_vec(),
    )
    .unwrap();
    assert_eq!(request.method, b"POST".to_vec());
    assert_eq!(request.target, b"/submit?x=1".to_vec());
    assert_eq!(request.http_version, b"1.0".to_vec());
    assert_eq!(request.headers, host());

    let from_literals = Request::new(b"GET", host(), b"/", b"1.1").unwrap();
    assert_eq!(from_literals, Request::new_http11("GET", host(), "/").unwrap());
}

#[test]
fn response_validation_bounds_and_messages() {
    assert!(Response::new_http11(100, Headers::default(), "Continue").is_ok());
    assert!(Response::new_http11(999, Headers::default(), "").is_ok());
    assert_eq!(
        Response::new_http11(99, Headers::default(), "OK").unwrap_err(),
        h11::ProtocolError::LocalProtocolError(("Illegal status code", 400).into())
    );
    assert_eq!(
        Response::new(200, Headers::default(), "OK", "1").unwrap_err(),
        h11::ProtocolError::LocalProtocolError(("Illegal HTTP version", 400).into())
    );
    assert_eq!(
        Response::new_http11(200, Headers::default(), "bad\rreason").unwrap_err(),
        h11::ProtocolError::LocalProtocolError(("Illegal reason phrase", 400).into())
    );
    // Tabs, spaces and bytes above 0x7f are allowed in a reason phrase.
    assert!(Response::new_http11(200, Headers::default(), b"a\tb \xff".to_vec()).is_ok());
    assert!(Response::new_http11(200, Headers::default(), b"a\x00b".to_vec()).is_err());
}

#[test]
fn response_event_variant_follows_status_code() {
    let informational = Response::new_http11(101, Headers::default(), "Switching").unwrap();
    assert!(matches!(Event::from(informational), Event::InformationalResponse(_)));
    let last_informational = Response::new_http11(199, Headers::default(), "").unwrap();
    assert!(matches!(Event::from(last_informational), Event::InformationalResponse(_)));
    let normal = Response::new_http11(200, Headers::default(), "OK").unwrap();
    assert!(matches!(Event::from(normal.clone()), Event::NormalResponse(r) if r == normal));
}

#[test]
fn other_events_wrap_their_value() {
    let data = Data { data: b"hello".to_vec(), chunk_start: true, chunk_end: false };
    assert_eq!(Event::from(data.clone()), Event::Data(data));
    assert_eq!(
        Event::from(EndOfMessage::default()),
        Event::EndOfMessage(EndOfMessage { headers: Headers::default() })
    );
    assert_eq!(Event::from(ConnectionClosed {}), Event::ConnectionClosed(ConnectionClosed {}));
    let request = Request::new_http11("GET", host(), "/").unwrap();
    assert_eq!(Event::from(request.clone()), Event::Request(request));
}

#[test]
fn request_debug_text_matches_the_original_form() {
    let request = Request::new_http11("GET", host(), "/").unwrap();
    assert_eq!(
        request.debug_text(),
        "Request { method: \"GET\", headers: Headers { Host: \"example.com\" }, target: \"/\", http_version: \"1.1\" }"
    );
    let odd = Request {
        method: b"G\x1bT".to_vec(),
        headers: Headers::default(),
        target: b"/\xe2\x82\xac".to_vec(),
        http_version: b"1.1".to_vec(),
    };
    assert_eq!(
        odd.debug_text(),
        format!(
            "Request {{ method: {:?}, headers: Headers, target: {:?}, http_version: \"1.1\" }}",
            String::from_utf8_lossy(b"G\x1bT"),
            String::from_utf8_lossy(b"/\xe2\x82\xac")
        )
    );
}
