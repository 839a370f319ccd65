//! The protocol error types: an error caused by local misuse, one caused by
//! bytes from the peer, and the union of the two.

use crate::text::{append_decimal, decimal};
use vstd::prelude::*;
use vstd::std_specs::convert::FromSpecImpl;
use vstd::string::StringExecFns;

verus! {

/// How an error with `message` and status `code` is displayed:
/// `"<message> (status code <code>)"`.
pub open spec fn error_text(message: Seq<char>, code: u16) -> Seq<char> {
    message + " (status code "@ + decimal(code as nat) + ")"@
}

fn render_error(message: &String, code: u16) -> (r: String)
    ensures
        r@ == error_text(message@, code),
{
    let mut out = String::from_str(message.as_str());
    out.append(" (status code ");
    append_decimal(&mut out, code as u64);
    out.append(")");
    assert(out@ =~= error_text(message@, code));
    out
}

/// An error caused by what the local side asked for.
#[derive(Debug, PartialEq, Eq)]
pub struct LocalProtocolError {
    pub message: String,
    pub code: u16,
}

/// An error caused by bytes received from the peer.
#[derive(Debug, PartialEq, Eq)]
pub struct RemoteProtocolError {
    pub message: String,
    pub code: u16,
}

/// Either kind of protocol error.
#[derive(Debug, PartialEq, Eq)]
pub enum ProtocolError {
    LocalProtocolError(LocalProtocolError),
    RemoteProtocolError(RemoteProtocolError),
}

/// `e` is a local protocol error with this message and status code.
pub open spec fn is_local_error(e: ProtocolError, message: Seq<char>, code: u16) -> bool {
    e matches ProtocolError::LocalProtocolError(l) && l.message@ == message && l.code == code
}

/// A local protocol error with this message and status code.
pub fn local_error(message: String, code: u16) -> (e: ProtocolError)
    ensures
        is_local_error(e, message@, code),
{
    ProtocolError::LocalProtocolError(LocalProtocolError { message, code })
}

impl LocalProtocolError {
    /// The same message and status code, as an error of the peer.
    pub fn _reraise_as_remote_protocol_error(self) -> (r: RemoteProtocolError)
        ensures
            r.message == self.message,
            r.code == self.code,
    {
        RemoteProtocolError { message: self.message, code: self.code }
    }

    /// The error as text: `"<message> (status code <code>)"`.
    pub fn to_string(&self) -> (r: String)
        ensures
            r@ == error_text(self.message@, self.code),
    {
        render_error(&self.message, self.code)
    }
}

impl RemoteProtocolError {
    /// The error as text: `"<message> (status code <code>)"`.
    pub fn to_string(&self) -> (r: String)
        ensures
            r@ == error_text(self.message@, self.code),
    {
        render_error(&self.message, self.code)
    }
}

/// The text of a protocol error: its kind, then the text of the error it
/// holds.
pub open spec fn protocol_error_text(e: ProtocolError) -> Seq<char> {
    match e {
        ProtocolError::LocalProtocolError(l) => "local protocol error: "@ + error_text(
            l.message@,
            l.code,
        ),
        ProtocolError::RemoteProtocolError(r) => "remote protocol error: "@ + error_text(
            r.message@,
            r.code,
        ),
    }
}

/// The text of the error that a protocol error holds.
pub open spec fn source_text(e: ProtocolError) -> Seq<char> {
    match e {
        ProtocolError::LocalProtocolError(l) => error_text(l.message@, l.code),
        ProtocolError::RemoteProtocolError(r) => error_text(r.message@, r.code),
    }
}

impl ProtocolError {
    /// The error as text, naming its kind before the text of the inner error.
    pub fn to_string(&self) -> (r: String)
        ensures
            r@ == protocol_error_text(*self),
    {
        match self {
            ProtocolError::LocalProtocolError(error) => {
                let inner = error.to_string();
                let mut out = String::from_str("local protocol error: ");
                out.append(inner.as_str());
                out
            },
            ProtocolError::RemoteProtocolError(error) => {
                let inner = error.to_string();
                let mut out = String::from_str("remote protocol error: ");
                out.append(inner.as_str());
                out
            },
        }
    }

    /// The text of the error this one wraps; there always is one.
    pub fn source(&self) -> (r: Option<String>)
        ensures
            r matches Some(s) && s@ == source_text(*self),
    {
        match self {
            ProtocolError::LocalProtocolError(error) => Some(error.to_string()),
            ProtocolError::RemoteProtocolError(error) => Some(error.to_string()),
        }
    }
}

impl From<(String, u16)> for LocalProtocolError {
    fn from(value: (String, u16)) -> Self {
        LocalProtocolError { message: value.0, code: value.1 }
    }
}

impl FromSpecImpl<(String, u16)> for LocalProtocolError {
    open spec fn obeys_from_spec() -> bool {
        true
    }

    open spec fn from_spec(v: (String, u16)) -> Self {
        LocalProtocolError { message: v.0, code: v.1 }
    }
}

impl From<String> for LocalProtocolError {
    fn from(value: String) -> Self {
        LocalProtocolError { message: value, code: 400 }
    }
}

impl FromSpecImpl<String> for LocalProtocolError {
    open spec fn obeys_from_spec() -> bool {
        true
    }

    open spec fn from_spec(v: String) -> Self {
        LocalProtocolError { message: v, code: 400 }
    }
}

impl<'a> From<(&'a str, u16)> for LocalProtocolError {
    /// The message is a copy of the text; a `String` is known here by its
    /// characters only, so `from_spec` is not used for this conversion.
    fn from(value: (&'a str, u16)) -> (r: Self)
        ensures
            r.message@ == value.0@,
            r.code == value.1,
    {
        LocalProtocolError { message: String::from_str(value.0), code: value.1 }
    }
}

impl<'a> FromSpecImpl<(&'a str, u16)> for LocalProtocolError {
    open spec fn obeys_from_spec() -> bool {
        false
    }

    open spec fn from_spec(v: (&'a str, u16)) -> Self {
        choose|e: LocalProtocolError| e.message@ == v.0@ && e.code == v.1
    }
}

impl<'a> From<&'a str> for LocalProtocolError {
    /// The message is a copy of the text and the status code is 400; a
    /// `String` is known here by its characters only, so `from_spec` is not
    /// used for this conversion.
    fn from(value: &'a str) -> (r: Self)
        ensures
            r.message@ == value@,
            r.code == 400,
    {
        LocalProtocolError { message: String::from_str(value), code: 400 }
    }
}

impl<'a> FromSpecImpl<&'a str> for LocalProtocolError {
    open spec fn obeys_from_spec() -> bool {
        false
    }

    open spec fn from_spec(v: &'a str) -> Self {
        choose|e: LocalProtocolError| e.message@ == v@ && e.code == 400
    }
}

impl From<(String, u16)> for RemoteProtocolError {
    fn from(value: (String, u16)) -> Self {
        RemoteProtocolError { message: value.0, code: value.1 }
    }
}

impl FromSpecImpl<(String, u16)> for RemoteProtocolError {
    open spec fn obeys_from_spec() -> bool {
        true
    }

    open spec fn from_spec(v: (String, u16)) -> Self {
        RemoteProtocolError { message: v.0, code: v.1 }
    }
}

impl From<String> for RemoteProtocolError {
    fn from(value: String) -> Self {
        RemoteProtocolError { message: value, code: 400 }
    }
}

impl FromSpecImpl<String> for RemoteProtocolError {
    open spec fn obeys_from_spec() -> bool {
        true
    }

    open spec fn from_spec(v: String) -> Self {
        RemoteProtocolError { message: v, code: 400 }
    }
}

impl<'a> From<(&'a str, u16)> for RemoteProtocolError {
    /// The message is a copy of the text; a `String` is known here by its
    /// characters only, so `from_spec` is not used for this conversion.
    fn from(value: (&'a str, u16)) -> (r: Self)
        ensures
            r.message@ == value.0@,
            r.code == value.1,
    {
        RemoteProtocolError { message: String::from_str(value.0), code: value.1 }
    }
}

impl<'a> FromSpecImpl<(&'a str, u16)> for RemoteProtocolError {
    open spec fn obeys_from_spec() -> bool {
        false
    }

    open spec fn from_spec(v: (&'a str, u16)) -> Self {
        choose|e: RemoteProtocolError| e.message@ == v.0@ && e.code == v.1
    }
}

impl<'a> From<&'a str> for RemoteProtocolError {
    /// The message is a copy of the text and the status code is 400; a
    /// `String` is known here by its characters only, so `from_spec` is not
    /// used for this conversion.
    fn from(value: &'a str) -> (r: Self)
        ensures
            r.message@ == value@,
            r.code == 400,
    {
        RemoteProtocolError { message: String::from_str(value), code: 400 }
    }
}

impl<'a> FromSpecImpl<&'a str> for RemoteProtocolError {
    open spec fn obeys_from_spec() -> bool {
        false
    }

    open spec fn from_spec(v: &'a str) -> Self {
        choose|e: RemoteProtocolError| e.message@ == v@ && e.code == 400
    }
}

impl From<LocalProtocolError> for ProtocolError {
    fn from(value: LocalProtocolError) -> Self {
        ProtocolError::LocalProtocolError(value)
    }
}

impl FromSpecImpl<LocalProtocolError> for ProtocolError {
    open spec fn obeys_from_spec() -> bool {
        true
    }

    open spec fn from_spec(v: LocalProtocolError) -> Self {
        ProtocolError::LocalProtocolError(v)
    }
}

impl From<RemoteProtocolError> for ProtocolError {
    fn from(value: RemoteProtocolError) -> Self {
        ProtocolError::RemoteProtocolError(value)
    }
}

impl FromSpecImpl<RemoteProtocolError> for ProtocolError {
    open spec fn obeys_from_spec() -> bool {
        true
    }

    open spec fn from_spec(v: RemoteProtocolError) -> Self {
        ProtocolError::RemoteProtocolError(v)
    }
}

} // verus!
