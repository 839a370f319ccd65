use h11::{LocalProtocolError, ProtocolError, RemoteProtocolError};

#[test]
fn protocol_errors_implement_display_and_error() {
    let local = LocalProtocolError::from(("bad request", 400));
    assert_eq!(local.to_string(), "bad request (status code 400)");

    let remote = RemoteProtocolError::from(("bad gateway", 502));
    assert_eq!(remote.to_string(), "bad gateway (status code 502)");

    let error = ProtocolError::from(LocalProtocolError::from(("invalid", 400)));
    assert_eq!(
        error.to_string(),
        "local protocol error: invalid (status code 400)"
    );
    assert!(error.source().is_some());
}

#[test]
fn conversions_default_to_status_400() {
    let a = LocalProtocolError::from("oops");
    assert_eq!((a.message.as_str(), a.code), ("oops", 400));
    let b = LocalProtocolError::from("oops".to_string());
    assert_eq!((b.message.as_str(), b.code), ("oops", 400));
    let c = LocalProtocolError::from(("teapot".to_string(), 418));
    assert_eq!((c.message.as_str(), c.code), ("teapot", 418));
    let d = RemoteProtocolError::from("oops");
    assert_eq!((d.message.as_str(), d.code), ("oops", 400));
    let e = RemoteProtocolError::from("oops".to_string());
    assert_eq!((e.message.as_str(), e.code), ("oops", 400));
    let f = RemoteProtocolError::from(("gone".to_string(), 410));
    assert_eq!((f.message.as_str(), f.code), ("gone", 410));
}

#[test]
fn remote_errors_display_with_their_kind() {
    let error = ProtocolError::from(RemoteProtocolError::from(("bad chunk", 400)));
    assert_eq!(
        error.to_string(),
        "remote protocol error: bad chunk (status code 400)"
    );
    assert_eq!(error.source(), Some("bad chunk (status code 400)".to_string()));
    let zero = LocalProtocolError::from(("x", 0));
    assert_eq!(zero.to_string(), "x (status code 0)");
    let max = LocalProtocolError::from(("x", 65535));
    assert_eq!(max.to_string(), "x (status code 65535)");
}

#[test]
fn reraising_keeps_message_and_code() {
    let local = LocalProtocolError::from(("Illegal header name [32]", 400));
    let remote = local._reraise_as_remote_protocol_error();
    assert_eq!(remote, RemoteProtocolError::from(("Illegal header name [32]", 400)));
}
