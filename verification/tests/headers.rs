use h11::headers::has_expect_100_continue;
use h11::{
    get_comma_header, normalize_and_validate, set_comma_header, trim_ascii_whitespace, Headers,
    ProtocolError, Request,
};

type Field = (Vec<u8>, Vec<u8>, Vec<u8>);

fn fields(headers: &Headers) -> Vec<Field> {
    headers.raw_items().into_iter().cloned().collect()
}

fn field(raw: &[u8], name: &[u8], value: &[u8]) -> Field {
    (raw.to_vec(), name.to_vec(), value.to_vec())
}

#[test]
fn test_headers_new_rejects_invalid_input() {
    assert!(Headers::new(vec![(b"bad header".to_vec(), b"value".to_vec())]).is_err());
}

#[test]
fn test_non_utf8_comma_headers_do_not_panic() {
    assert_eq!(
        normalize_and_validate(vec![(b"Content-Length".to_vec(), b"\xff".to_vec())], true)
            .unwrap_err(),
        ProtocolError::LocalProtocolError("bad Content-Length".into())
    );

    let headers = normalize_and_validate(
        vec![(b"Connection".to_vec(), b"close, \xff".to_vec())],
        true,
    )
    .unwrap();
    assert_eq!(
        get_comma_header(&headers, b"connection"),
        vec![b"close".to_vec(), b"\xff".to_vec()]
    );
}

#[test]
fn test_headers_new_accepts_borrowed_inputs() {
    assert_eq!(
        fields(&Headers::new(vec![("Host", "example.com"), ("Accept", "*/*")]).unwrap()),
        vec![
            (b"Host".to_vec(), b"host".to_vec(), b"example.com".to_vec()),
            (b"Accept".to_vec(), b"accept".to_vec(), b"*/*".to_vec()),
        ]
    );
    assert_eq!(
        fields(&Headers::new(vec![(b"Host".as_slice(), b"example.com".as_slice())]).unwrap()),
        vec![(
            b"Host".to_vec(),
            b"host".to_vec(),
            b"example.com".to_vec()
        )]
    );
}

fn refused(headers: Vec<(Vec<u8>, Vec<u8>)>) -> ProtocolError {
    normalize_and_validate(headers, false).expect_err("Expect ProtocolError::LocalProtocolError")
}

fn one(name: &[u8], value: &[u8]) -> Vec<(Vec<u8>, Vec<u8>)> {
    vec![(name.to_vec(), value.to_vec())]
}

#[test]
fn test_normalize_and_validate() {
    assert_eq!(
        fields(&normalize_and_validate(vec![(b"foo".to_vec(), b"bar".to_vec())], false).unwrap()),
        vec![(b"foo".to_vec(), b"foo".to_vec(), b"bar".to_vec())]
    );

    // no leading/trailing whitespace in names
    assert_eq!(
        refused(one(b"foo ", b"bar")),
        ProtocolError::LocalProtocolError(
            ("Illegal header name [102, 111, 111, 32]".to_string(), 400).into()
        )
    );
    assert_eq!(
        refused(one(b" foo", b"bar")),
        ProtocolError::LocalProtocolError(
            ("Illegal header name [32, 102, 111, 111]".to_string(), 400).into()
        )
    );

    // no weird characters in names
    assert_eq!(
        refused(one(b"foo bar", b"baz")),
        ProtocolError::LocalProtocolError(
            (
                "Illegal header name [102, 111, 111, 32, 98, 97, 114]".to_string(),
                400
            )
                .into()
        )
    );
    assert_eq!(
        refused(one(b"foo\x00bar", b"baz")),
        ProtocolError::LocalProtocolError(
            (
                "Illegal header name [102, 111, 111, 0, 98, 97, 114]".to_string(),
                400
            )
                .into()
        )
    );
    // Not even 8-bit characters:
    assert_eq!(
        refused(one(b"foo\xffbar", b"baz")),
        ProtocolError::LocalProtocolError(
            (
                "Illegal header name [102, 111, 111, 255, 98, 97, 114]".to_string(),
                400
            )
                .into()
        )
    );
    // And not even the control characters we allow in values:
    assert_eq!(
        refused(one(b"foo\x01bar", b"baz")),
        ProtocolError::LocalProtocolError(
            (
                "Illegal header name [102, 111, 111, 1, 98, 97, 114]".to_string(),
                400
            )
                .into()
        )
    );

    // no return or NUL characters in values
    assert_eq!(
        refused(one(b"foo", b"bar\rbaz")),
        ProtocolError::LocalProtocolError(
            (
                "Illegal header value [98, 97, 114, 13, 98, 97, 122]".to_string(),
                400
            )
                .into()
        )
    );
    assert_eq!(
        refused(one(b"foo", b"bar\nbaz")),
        ProtocolError::LocalProtocolError(
            (
                "Illegal header value [98, 97, 114, 10, 98, 97, 122]".to_string(),
                400
            )
                .into()
        )
    );
    assert_eq!(
        refused(one(b"foo", b"bar\x00baz")),
        ProtocolError::LocalProtocolError(
            (
                "Illegal header value [98, 97, 114, 0, 98, 97, 122]".to_string(),
                400
            )
                .into()
        )
    );
    // no leading/trailing whitespace
    assert_eq!(
        refused(one(b"foo", b"barbaz  ")),
        ProtocolError::LocalProtocolError(
            (
                "Illegal header value [98, 97, 114, 98, 97, 122, 32, 32]".to_string(),
                400
            )
                .into()
        )
    );
    assert_eq!(
        refused(one(b"foo", b"  barbaz")),
        ProtocolError::LocalProtocolError(
            (
                "Illegal header value [32, 32, 98, 97, 114, 98, 97, 122]".to_string(),
                400
            )
                .into()
        )
    );
    assert_eq!(
        refused(one(b"foo", b"barbaz\t")),
        ProtocolError::LocalProtocolError(
            (
                "Illegal header value [98, 97, 114, 98, 97, 122, 9]".to_string(),
                400
            )
                .into()
        )
    );
    assert_eq!(
        refused(one(b"foo", b"\tbarbaz")),
        ProtocolError::LocalProtocolError(
            (
                "Illegal header value [9, 98, 97, 114, 98, 97, 122]".to_string(),
                400
            )
                .into()
        )
    );

    // content-length
    assert_eq!(
        fields(&normalize_and_validate(one(b"Content-Length", b"1"), false).unwrap()),
        vec![(
            b"Content-Length".to_vec(),
            b"content-length".to_vec(),
            b"1".to_vec()
        )]
    );
    assert_eq!(
        refused(one(b"Content-Length", b"asdf")),
        ProtocolError::LocalProtocolError(("bad Content-Length".to_string(), 400).into())
    );
    assert_eq!(
        refused(one(b"Content-Length", b"1x")),
        ProtocolError::LocalProtocolError(("bad Content-Length".to_string(), 400).into())
    );
    assert_eq!(
        refused(vec![
            (b"Content-Length".to_vec(), b"1".to_vec()),
            (b"Content-Length".to_vec(), b"2".to_vec())
        ]),
        ProtocolError::LocalProtocolError(
            ("conflicting Content-Length headers".to_string(), 400).into()
        )
    );
    assert_eq!(
        fields(
            &normalize_and_validate(
                vec![
                    (b"Content-Length".to_vec(), b"0".to_vec()),
                    (b"Content-Length".to_vec(), b"0".to_vec())
                ],
                false
            )
            .unwrap()
        ),
        vec![(
            b"Content-Length".to_vec(),
            b"content-length".to_vec(),
            b"0".to_vec()
        )]
    );
    assert_eq!(
        fields(&normalize_and_validate(one(b"Content-Length", b"0 , 0"), false).unwrap()),
        vec![(
            b"Content-Length".to_vec(),
            b"content-length".to_vec(),
            b"0".to_vec()
        )]
    );
    assert_eq!(
        refused(vec![
            (b"Content-Length".to_vec(), b"1".to_vec()),
            (b"Content-Length".to_vec(), b"1".to_vec()),
            (b"Content-Length".to_vec(), b"2".to_vec())
        ]),
        ProtocolError::LocalProtocolError(
            ("conflicting Content-Length headers".to_string(), 400).into()
        )
    );
    assert_eq!(
        refused(one(b"Content-Length", b"1 , 1,2")),
        ProtocolError::LocalProtocolError(
            ("conflicting Content-Length headers".to_string(), 400).into()
        )
    );

    // transfer-encoding
    assert_eq!(
        fields(&normalize_and_validate(one(b"Transfer-Encoding", b"chunked"), false).unwrap()),
        vec![(
            b"Transfer-Encoding".to_vec(),
            b"transfer-encoding".to_vec(),
            b"chunked".to_vec()
        )]
    );
    assert_eq!(
        fields(&normalize_and_validate(one(b"Transfer-Encoding", b"cHuNkEd"), false).unwrap()),
        vec![(
            b"Transfer-Encoding".to_vec(),
            b"transfer-encoding".to_vec(),
            b"chunked".to_vec()
        )]
    );
    assert_eq!(
        refused(one(b"Transfer-Encoding", b"gzip")),
        ProtocolError::LocalProtocolError(
            (
                "Only Transfer-Encoding: chunked is supported".to_string(),
                501
            )
                .into()
        )
    );
    assert_eq!(
        refused(vec![
            (b"Transfer-Encoding".to_vec(), b"chunked".to_vec()),
            (b"Transfer-Encoding".to_vec(), b"gzip".to_vec())
        ]),
        ProtocolError::LocalProtocolError(
            ("multiple Transfer-Encoding headers".to_string(), 501).into()
        )
    );
}

#[test]
fn test_get_set_comma_header() {
    let headers = normalize_and_validate(
        vec![
            (b"Connection".to_vec(), b"close".to_vec()),
            (b"whatever".to_vec(), b"something".to_vec()),
            (b"connectiON".to_vec(), b"fOo,, , BAR".to_vec()),
        ],
        false,
    )
    .unwrap();

    assert_eq!(
        get_comma_header(&headers, b"connection"),
        vec![b"close".to_vec(), b"foo".to_vec(), b"bar".to_vec()]
    );

    let headers =
        set_comma_header(&headers, b"newthing", vec![b"a".to_vec(), b"b".to_vec()]).unwrap();

    assert_eq!(
        fields(&headers),
        vec![
            field(b"connection", b"connection", b"close"),
            field(b"whatever", b"whatever", b"something"),
            field(b"connection", b"connection", b"fOo,, , BAR"),
            field(b"newthing", b"newthing", b"a"),
            field(b"newthing", b"newthing", b"b"),
        ]
    );

    let headers =
        set_comma_header(&headers, b"whatever", vec![b"different thing".to_vec()]).unwrap();

    assert_eq!(
        fields(&headers),
        vec![
            field(b"connection", b"connection", b"close"),
            field(b"connection", b"connection", b"fOo,, , BAR"),
            field(b"newthing", b"newthing", b"a"),
            field(b"newthing", b"newthing", b"b"),
            field(b"whatever", b"whatever", b"different thing"),
        ]
    );
}

fn request(headers: Vec<(&str, &str)>, http_version: &[u8]) -> Request {
    Request {
        method: b"GET".to_vec(),
        target: b"/".to_vec(),
        headers: Headers::new(headers).unwrap(),
        http_version: http_version.to_vec(),
    }
}

#[test]
fn test_has_100_continue() {
    assert!(has_expect_100_continue(&request(
        vec![("Host", "example.com"), ("Expect", "100-continue")],
        b"1.1"
    )));
    assert!(!has_expect_100_continue(&request(vec![("Host", "example.com")], b"1.1")));
    // Case insensitive
    assert!(has_expect_100_continue(&request(
        vec![("Host", "example.com"), ("Expect", "100-Continue")],
        b"1.1"
    )));
    // Doesn't work in HTTP/1.0
    assert!(!has_expect_100_continue(&request(
        vec![("Host", "example.com"), ("Expect", "100-continue")],
        b"1.0"
    )));
}

#[test]
fn expect_items_are_split_and_versions_compare_bytewise() {
    assert!(has_expect_100_continue(&request(
        vec![("Host", "h"), ("Expect", "foo, 100-continue")],
        b"2.0"
    )));
    assert!(!has_expect_100_continue(&request(
        vec![("Host", "h"), ("Expect", "100-continue-ish")],
        b"1.1"
    )));
}

#[test]
fn trimming_removes_ascii_whitespace_at_both_ends() {
    assert_eq!(trim_ascii_whitespace(b" \t a b \r\n"), b"a b".to_vec());
    assert_eq!(trim_ascii_whitespace(b"   "), Vec::<u8>::new());
    assert_eq!(trim_ascii_whitespace(b""), Vec::<u8>::new());
    // Vertical tab is not ASCII whitespace for this purpose.
    assert_eq!(trim_ascii_whitespace(b"\x0bx"), b"\x0bx".to_vec());
}

#[test]
fn header_collection_accessors() {
    let headers = Headers::new(vec![("A", "1"), ("b", "")]).unwrap();
    assert_eq!(headers.len(), 2);
    assert!(!headers.is_empty());
    assert!(Headers::default().is_empty());
    assert_eq!(
        headers.iter(),
        vec![(b"a".to_vec(), b"1".to_vec()), (b"b".to_vec(), b"".to_vec())]
    );
}

#[test]
fn renormalizing_stored_fields_gives_them_back() {
    let headers = Headers::new(vec![
        ("Host", "example.com"),
        ("Content-Length", "5 , 5"),
        ("content-length", "5"),
        ("Transfer-Encoding", "CHUNKED"),
        ("X-Thing", "a  b"),
    ])
    .unwrap();
    let raw: Vec<(Vec<u8>, Vec<u8>)> =
        fields(&headers).into_iter().map(|(raw, _, value)| (raw, value)).collect();
    assert_eq!(normalize_and_validate(raw.clone(), false).unwrap(), headers);
    assert_eq!(normalize_and_validate(raw, true).unwrap(), headers);
    assert_eq!(
        fields(&headers),
        vec![
            field(b"Host", b"host", b"example.com"),
            field(b"Content-Length", b"content-length", b"5"),
            field(b"Transfer-Encoding", b"transfer-encoding", b"chunked"),
            field(b"X-Thing", b"x-thing", b"a  b"),
        ]
    );
}

#[test]
fn setting_a_comma_header_replaces_its_items_only() {
    let headers = Headers::new(vec![
        ("Connection", "keep-alive"),
        ("Accept", "a, b"),
        ("connection", "Upgrade"),
    ])
    .unwrap();
    let updated =
        set_comma_header(&headers, b"connection", vec![b"Close, X".to_vec(), b"".to_vec()])
            .unwrap();
    assert_eq!(
        get_comma_header(&updated, b"connection"),
        vec![b"close".to_vec(), b"x".to_vec()]
    );
    assert_eq!(get_comma_header(&updated, b"ACCEPT"), get_comma_header(&headers, b"accept"));
    assert_eq!(
        set_comma_header(&headers, b"bad name", vec![b"x".to_vec()]).unwrap_err(),
        ProtocolError::LocalProtocolError(
            ("Illegal header name [98, 97, 100, 32, 110, 97, 109, 101]".to_string(), 400).into()
        )
    );
}

#[test]
fn parsed_fields_skip_syntax_checks_only() {
    let headers = normalize_and_validate(one(b"Bad Name", b" v "), true).unwrap();
    assert_eq!(fields(&headers), vec![field(b"Bad Name", b"bad name", b" v ")]);
    assert_eq!(
        normalize_and_validate(one(b"Transfer-Encoding", b"gzip"), true).unwrap_err(),
        ProtocolError::LocalProtocolError(
            ("Only Transfer-Encoding: chunked is supported".to_string(), 501).into()
        )
    );
    assert_eq!(
        normalize_and_validate(one(b"Content-Length", b""), true).unwrap_err(),
        ProtocolError::LocalProtocolError(("bad Content-Length".to_string(), 400).into())
    );
    assert_eq!(
        normalize_and_validate(one(b"Content-Length", b"1,,1"), true).unwrap_err(),
        ProtocolError::LocalProtocolError(
            ("conflicting Content-Length headers".to_string(), 400).into()
        )
    );
}

#[test]
fn setting_a_comma_header_matches_names_in_any_case() {
    let headers = Headers::new(vec![("Connection", "close"), ("Host", "h")]).unwrap();
    let updated = set_comma_header(&headers, b"Connection", vec![b"keep-alive".to_vec()]).unwrap();
    assert_eq!(get_comma_header(&updated, b"connection"), vec![b"keep-alive".to_vec()]);
    assert_eq!(
        fields(&updated),
        vec![
            field(b"host", b"host", b"h"),
            field(b"Connection", b"connection", b"keep-alive"),
        ]
    );
}

#[test]
fn default_headers_are_empty() {
    let headers = Headers::default();
    assert_eq!(headers.len(), 0);
    assert!(headers.is_empty());
    assert!(fields(&headers).is_empty());
}

#[test]
fn headers_debug_text_matches_the_original_form() {
    assert_eq!(Headers::default().debug_text(), "Headers");
    let headers = Headers::new(vec![("Host", "example.com"), ("Accept", "*/*")]).unwrap();
    assert_eq!(
        headers.debug_text(),
        "Headers { Host: \"example.com\", Accept: \"*/*\" }"
    );
    let odd = normalize_and_validate(
        vec![
            (b"X".to_vec(), b"a\"b\\c\td\x01\x7f\r\n\x00'".to_vec()),
            (b"Y".to_vec(), b"caf\xc3\xa9 \xff".to_vec()),
        ],
        true,
    )
    .unwrap();
    let expected = format!(
        "Headers {{ X: {:?}, Y: {:?} }}",
        String::from_utf8_lossy(b"a\"b\\c\td\x01\x7f\r\n\x00'"),
        String::from_utf8_lossy(b"caf\xc3\xa9 \xff")
    );
    assert_eq!(odd.debug_text(), expected);
    assert_eq!(
        odd.debug_text(),
        "Headers { X: \"a\\\"b\\\\c\\td\\u{1}\\u{7f}\\r\\n\\0'\", Y: \"caf\u{e9} \u{fffd}\" }"
    );
}
