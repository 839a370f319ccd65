//! Protocol events: request and response heads, body data, end of message,
//! connection closed, and the event enum that carries them.

use crate::error::{is_local_error, local_error, ProtocolError};
use crate::grammar::{
    check_http_version, check_reason_phrase, check_request_target, check_token, is_http_version,
    is_reason_phrase, is_request_target, is_token,
};
use crate::headers::{headers_debug_text, lookup_pairs, pairs_view, FieldView, Headers, PairView};
use crate::render::{append_quoted, quoted_text};
use crate::text::{bytes_equal, ByteSource};
use vstd::prelude::*;
use vstd::std_specs::convert::FromSpecImpl;
use vstd::string::StringExecFns;

verus! {

/// The bytes `host`.
pub open spec fn host_name() -> Seq<u8> {
    seq![104u8, 111u8, 115u8, 116u8]
}

/// The bytes `1.1`.
pub open spec fn http11() -> Seq<u8> {
    seq![49u8, 46u8, 49u8]
}

fn host_bytes() -> (r: Vec<u8>)
    ensures
        r@ == host_name(),
{
    let r = vec![104u8, 111u8, 115u8, 116u8];
    assert(r@ =~= host_name());
    r
}

fn http11_bytes() -> (r: Vec<u8>)
    ensures
        r@ == http11(),
{
    let r = vec![49u8, 46u8, 49u8];
    assert(r@ =~= http11());
    r
}

/// How many of the pairs have the name `name`.
pub open spec fn name_count(pairs: Seq<PairView>, name: Seq<u8>) -> nat
    decreases pairs.len(),
{
    if pairs.len() == 0 {
        0
    } else if pairs.last().0 == name {
        name_count(pairs.drop_last(), name) + 1
    } else {
        name_count(pairs.drop_last(), name)
    }
}

/// How many fields are named `host`.
pub open spec fn host_count(fields: Seq<FieldView>) -> nat {
    name_count(lookup_pairs(fields), host_name())
}

/// Why a request head is refused, checked in this order: the version is
/// not `d.d`; it is `1.1` and there is no `Host` field; there is more than
/// one `Host` field; the method is not a token; the target is not one or
/// more visible ASCII characters. `None` when it is accepted.
pub open spec fn request_error(
    method: Seq<u8>,
    fields: Seq<FieldView>,
    target: Seq<u8>,
    http_version: Seq<u8>,
) -> Option<Seq<char>> {
    if !is_http_version(http_version) {
        Some("Illegal HTTP version"@)
    } else if http_version == http11() && host_count(fields) == 0 {
        Some("Missing mandatory Host: header"@)
    } else if host_count(fields) > 1 {
        Some("Found multiple Host: headers"@)
    } else if !is_token(method) {
        Some("Illegal method characters"@)
    } else if !is_request_target(target) {
        Some("Illegal target characters"@)
    } else {
        None
    }
}

/// Why a response head is refused, checked in this order: the status code
/// is outside 100..=999; the version is not `d.d`; the reason phrase holds
/// a byte other than a space, a tab or a field character. `None` when it is
/// accepted.
pub open spec fn response_error(status_code: u16, http_version: Seq<u8>, reason: Seq<u8>) -> Option<
    Seq<char>,
> {
    if !(100 <= status_code && status_code <= 999) {
        Some("Illegal status code"@)
    } else if !is_http_version(http_version) {
        Some("Illegal HTTP version"@)
    } else if !is_reason_phrase(reason) {
        Some("Illegal reason phrase"@)
    } else {
        None
    }
}

/// `r` is what validation gives for the refusal `fault`: `Ok` when there is
/// none, else the local protocol error with that message and status 400.
pub open spec fn validation_result(r: Result<(), ProtocolError>, fault: Option<Seq<char>>) -> bool {
    match fault {
        None => r is Ok,
        Some(m) => r matches Err(e) && is_local_error(e, m, 400),
    }
}

fn refuse(message: &str) -> (r: Result<(), ProtocolError>)
    ensures
        r matches Err(e) && is_local_error(e, message@, 400),
{
    Err(local_error(String::from_str(message), 400))
}

/// The text of a request head: `Request { method: "GET", headers: ...,
/// target: "/", http_version: "1.1" }`, byte strings quoted and escaped.
pub open spec fn request_debug_text(
    method: Seq<u8>,
    fields: Seq<FieldView>,
    target: Seq<u8>,
    http_version: Seq<u8>,
) -> Seq<char> {
    "Request { method: "@ + quoted_text(method) + ", headers: "@ + headers_debug_text(fields)
        + ", target: "@ + quoted_text(target) + ", http_version: "@ + quoted_text(http_version)
        + " }"@
}

/// A request head.
#[derive(Debug, Clone, PartialEq, Eq, Default)]
pub struct Request {
    pub method: Vec<u8>,
    pub headers: Headers,
    pub target: Vec<u8>,
    pub http_version: Vec<u8>,
}

impl Request {
    /// Builds a request head and validates it (see `validate`).
    pub fn new<M: ByteSource, T: ByteSource, V: ByteSource>(
        method: M,
        headers: Headers,
        target: T,
        http_version: V,
    ) -> (r: Result<Self, ProtocolError>)
        ensures
            match request_error(
                method.byte_view(),
                headers@,
                target.byte_view(),
                http_version.byte_view(),
            ) {
                None => r matches Ok(req) && req.method@ == method.byte_view() && req.headers
                    == headers && req.target@ == target.byte_view() && req.http_version@
                    == http_version.byte_view(),
                Some(m) => r matches Err(e) && is_local_error(e, m, 400),
            },
    {
        let request = Request {
            method: method.to_byte_vec(),
            headers,
            target: target.to_byte_vec(),
            http_version: http_version.to_byte_vec(),
        };
        match request.validate() {
            Ok(()) => Ok(request),
            Err(e) => Err(e),
        }
    }

    /// Builds an HTTP/1.1 request head and validates it.
    pub fn new_http11<M: ByteSource, T: ByteSource>(method: M, headers: Headers, target: T) -> (r:
        Result<Self, ProtocolError>)
        ensures
            match request_error(method.byte_view(), headers@, target.byte_view(), http11()) {
                None => r matches Ok(req) && req.method@ == method.byte_view() && req.headers
                    == headers && req.target@ == target.byte_view() && req.http_version@
                    == http11(),
                Some(m) => r matches Err(e) && is_local_error(e, m, 400),
            },
    {
        Self::new(method, headers, target, http11_bytes())
    }

    /// The request head as its `Debug` text in the original form, byte
    /// strings read as UTF-8, quoted and escaped.
    pub fn debug_text(&self) -> (r: String)
        ensures
            r@ == request_debug_text(
                self.method@,
                self.headers@,
                self.target@,
                self.http_version@,
            ),
    {
        let mut out = String::from_str("Request { method: ");
        append_quoted(&mut out, self.method.as_slice());
        out.append(", headers: ");
        let headers = self.headers.debug_text();
        out.append(headers.as_str());
        out.append(", target: ");
        append_quoted(&mut out, self.target.as_slice());
        out.append(", http_version: ");
        append_quoted(&mut out, self.http_version.as_slice());
        out.append(" }");
        out
    }

    /// Checks the request head: the version is `d.d`, an HTTP/1.1 request
    /// has a `Host` field, there is at most one `Host` field, the method is
    /// a token and the target is visible ASCII.
    pub fn validate(&self) -> (r: Result<(), ProtocolError>)
        ensures
            validation_result(
                r,
                request_error(self.method@, self.headers@, self.target@, self.http_version@),
            ),
    {
        let pairs = self.headers.iter();
        let host = host_bytes();
        let ghost ps = pairs_view(pairs@);
        let mut host_count: usize = 0;
        let mut i: usize = 0;
        while i < pairs.len()
            invariant
                i <= pairs@.len(),
                ps == pairs_view(pairs@),
                host@ == host_name(),
                host_count == name_count(ps.subrange(0, i as int), host_name()),
                host_count <= i,
            decreases pairs@.len() - i,
        {
            assert(ps.subrange(0, i + 1).drop_last() =~= ps.subrange(0, i as int));
            if bytes_equal(pairs[i].0.as_slice(), host.as_slice()) {
                host_count = host_count + 1;
            }
            i = i + 1;
        }
        assert(ps.subrange(0, pairs@.len() as int) =~= ps);
        let one_one = http11_bytes();
        if !check_http_version(self.http_version.as_slice()) {
            return refuse("Illegal HTTP version");
        }
        if bytes_equal(self.http_version.as_slice(), one_one.as_slice()) && host_count == 0 {
            return refuse("Missing mandatory Host: header");
        }
        if host_count > 1 {
            return refuse("Found multiple Host: headers");
        }
        if !check_token(self.method.as_slice()) {
            return refuse("Illegal method characters");
        }
        if !check_request_target(self.target.as_slice()) {
            return refuse("Illegal target characters");
        }
        Ok(())
    }
}

/// A response head, informational or final.
#[derive(Debug, Clone, PartialEq, Eq, Default)]
pub struct Response {
    pub headers: Headers,
    pub http_version: Vec<u8>,
    pub reason: Vec<u8>,
    pub status_code: u16,
}

impl Response {
    /// Builds a response head and validates it (see `validate`).
    pub fn new<R: ByteSource, V: ByteSource>(
        status_code: u16,
        headers: Headers,
        reason: R,
        http_version: V,
    ) -> (r: Result<Self, ProtocolError>)
        ensures
            match response_error(status_code, http_version.byte_view(), reason.byte_view()) {
                None => r matches Ok(resp) && resp.status_code == status_code && resp.headers
                    == headers && resp.reason@ == reason.byte_view() && resp.http_version@
                    == http_version.byte_view(),
                Some(m) => r matches Err(e) && is_local_error(e, m, 400),
            },
    {
        let response = Response {
            headers,
            http_version: http_version.to_byte_vec(),
            reason: reason.to_byte_vec(),
            status_code,
        };
        match response.validate() {
            Ok(()) => Ok(response),
            Err(e) => Err(e),
        }
    }

    /// Builds an HTTP/1.1 response head and validates it.
    pub fn new_http11<R: ByteSource>(status_code: u16, headers: Headers, reason: R) -> (r: Result<
        Self,
        ProtocolError,
    >)
        ensures
            match response_error(status_code, http11(), reason.byte_view()) {
                None => r matches Ok(resp) && resp.status_code == status_code && resp.headers
                    == headers && resp.reason@ == reason.byte_view() && resp.http_version@
                    == http11(),
                Some(m) => r matches Err(e) && is_local_error(e, m, 400),
            },
    {
        Self::new(status_code, headers, reason, http11_bytes())
    }

    /// Checks the response head: the status code is in 100..=999, the
    /// version is `d.d` and the reason phrase holds no NUL, line feed,
    /// vertical tab, form feed or carriage return.
    pub fn validate(&self) -> (r: Result<(), ProtocolError>)
        ensures
            validation_result(r, response_error(self.status_code, self.http_version@, self.reason@)),
    {
        if !(100 <= self.status_code && self.status_code <= 999) {
            return refuse("Illegal status code");
        }
        if !check_http_version(self.http_version.as_slice()) {
            return refuse("Illegal HTTP version");
        }
        if !check_reason_phrase(self.reason.as_slice()) {
            return refuse("Illegal reason phrase");
        }
        Ok(())
    }
}

/// Part of a message body.
#[derive(Debug, Clone, PartialEq, Eq, Default)]
pub struct Data {
    pub data: Vec<u8>,
    pub chunk_start: bool,
    pub chunk_end: bool,
}

/// The end of a message, with its trailer fields.
#[derive(Debug, Clone, PartialEq, Eq, Default)]
pub struct EndOfMessage {
    pub headers: Headers,
}

/// The peer closed the connection.
#[derive(Debug, Clone, PartialEq, Eq, Default)]
pub struct ConnectionClosed {}

/// A protocol event.
#[derive(Debug, Clone, PartialEq, Eq)]
pub enum Event {
    Request(Request),
    NormalResponse(Response),
    InformationalResponse(Response),
    Data(Data),
    EndOfMessage(EndOfMessage),
    ConnectionClosed(ConnectionClosed),
    NeedData(),
    Paused(),
}

impl From<Request> for Event {
    fn from(request: Request) -> Self {
        Self::Request(request)
    }
}

impl FromSpecImpl<Request> for Event {
    open spec fn obeys_from_spec() -> bool {
        true
    }

    open spec fn from_spec(v: Request) -> Self {
        Event::Request(v)
    }
}

/// The event for a response head: informational for status codes
/// 100..=199, final otherwise.
pub open spec fn response_event(response: Response) -> Event {
    if 100 <= response.status_code && response.status_code <= 199 {
        Event::InformationalResponse(response)
    } else {
        Event::NormalResponse(response)
    }
}

impl From<Response> for Event {
    fn from(response: Response) -> Self {
        if 100 <= response.status_code && response.status_code <= 199 {
            Self::InformationalResponse(response)
        } else {
            Self::NormalResponse(response)
        }
    }
}

impl FromSpecImpl<Response> for Event {
    open spec fn obeys_from_spec() -> bool {
        true
    }

    open spec fn from_spec(v: Response) -> Self {
        response_event(v)
    }
}

impl From<Data> for Event {
    fn from(data: Data) -> Self {
        Self::Data(data)
    }
}

impl FromSpecImpl<Data> for Event {
    open spec fn obeys_from_spec() -> bool {
        true
    }

    open spec fn from_spec(v: Data) -> Self {
        Event::Data(v)
    }
}

impl From<EndOfMessage> for Event {
    fn from(end_of_message: EndOfMessage) -> Self {
        Self::EndOfMessage(end_of_message)
    }
}

impl FromSpecImpl<EndOfMessage> for Event {
    open spec fn obeys_from_spec() -> bool {
        true
    }

    open spec fn from_spec(v: EndOfMessage) -> Self {
        Event::EndOfMessage(v)
    }
}

impl From<ConnectionClosed> for Event {
    fn from(connection_closed: ConnectionClosed) -> Self {
        Self::ConnectionClosed(connection_closed)
    }
}

impl FromSpecImpl<ConnectionClosed> for Event {
    open spec fn obeys_from_spec() -> bool {
        true
    }

    open spec fn from_spec(v: ConnectionClosed) -> Self {
        Event::ConnectionClosed(v)
    }
}

} // verus!
