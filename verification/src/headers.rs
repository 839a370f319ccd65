//! Header field collections: validation and normalisation of name/value
//! pairs, and reading and replacing comma-separated header values.

use crate::error::{is_local_error, local_error, ProtocolError};
use crate::events::{http11, Request};
use crate::render::{append_quoted, lossy_text, quoted_text, utf8_lossy};
use crate::grammar::{
    check_content_length, check_field_value, check_token, is_digits, is_field_value, is_token,
};
use crate::text::{
    append_debug_bytes, ascii_lowercase, bytes_equal, bytes_less, copy_bytes, debug_bytes,
    lemma_split_on_nonempty, lex_lt, lower, split_commas, split_on, trim, trim_ascii_whitespace,
    vecs_view, ByteSource,
};
use vstd::prelude::*;
use vstd::string::StringExecFns;

verus! {

/// A header field as stored: raw name, lower-case name, value.
pub type FieldView = (Seq<u8>, Seq<u8>, Seq<u8>);

/// A header field as given: name, value.
pub type PairView = (Seq<u8>, Seq<u8>);

/// A stored field, by its views.
pub open spec fn field_view(t: (Vec<u8>, Vec<u8>, Vec<u8>)) -> FieldView {
    (t.0@, t.1@, t.2@)
}

/// Stored fields, by their views.
pub open spec fn fields_view(v: Seq<(Vec<u8>, Vec<u8>, Vec<u8>)>) -> Seq<FieldView> {
    v.map_values(|t: (Vec<u8>, Vec<u8>, Vec<u8>)| field_view(t))
}

/// Name/value pairs, by their views.
pub open spec fn pairs_view(v: Seq<(Vec<u8>, Vec<u8>)>) -> Seq<PairView> {
    v.map_values(|p: (Vec<u8>, Vec<u8>)| (p.0@, p.1@))
}

/// HTTP header collection.
///
/// Each field keeps the name as it was given (for serialisation), the name
/// in lower case (for lookup), and the value.
#[derive(Clone, Debug, PartialEq, Eq, Hash, PartialOrd, Ord)]
pub struct Headers(Vec<(Vec<u8>, Vec<u8>, Vec<u8>)>);

impl Default for Headers {
    /// The collection with no fields.
    fn default() -> (r: Headers)
        ensures
            r@ == Seq::<FieldView>::empty(),
    {
        let r = Headers(Vec::new());
        assert(r@ =~= Seq::<FieldView>::empty());
        r
    }
}

impl View for Headers {
    type V = Seq<FieldView>;

    closed spec fn view(&self) -> Seq<FieldView> {
        fields_view(self.0@)
    }
}

/// The bytes `content-length`.
pub open spec fn content_length_name() -> Seq<u8> {
    seq![
        99u8, 111u8, 110u8, 116u8, 101u8, 110u8, 116u8, 45u8, 108u8, 101u8, 110u8, 103u8, 116u8,
        104u8,
    ]
}

/// The bytes `transfer-encoding`.
pub open spec fn transfer_encoding_name() -> Seq<u8> {
    seq![
        116u8, 114u8, 97u8, 110u8, 115u8, 102u8, 101u8, 114u8, 45u8, 101u8, 110u8, 99u8, 111u8,
        100u8, 105u8, 110u8, 103u8,
    ]
}

/// The bytes `chunked`.
pub open spec fn chunked_name() -> Seq<u8> {
    seq![99u8, 104u8, 117u8, 110u8, 107u8, 101u8, 100u8]
}

fn content_length_bytes() -> (r: Vec<u8>)
    ensures
        r@ == content_length_name(),
{
    let r = vec![
        99u8, 111u8, 110u8, 116u8, 101u8, 110u8, 116u8, 45u8, 108u8, 101u8, 110u8, 103u8, 116u8,
        104u8,
    ];
    assert(r@ =~= content_length_name());
    r
}

fn transfer_encoding_bytes() -> (r: Vec<u8>)
    ensures
        r@ == transfer_encoding_name(),
{
    let r = vec![
        116u8, 114u8, 97u8, 110u8, 115u8, 102u8, 101u8, 114u8, 45u8, 101u8, 110u8, 99u8, 111u8,
        100u8, 105u8, 110u8, 103u8,
    ];
    assert(r@ =~= transfer_encoding_name());
    r
}

fn chunked_bytes() -> (r: Vec<u8>)
    ensures
        r@ == chunked_name(),
{
    let r = vec![99u8, 104u8, 117u8, 110u8, 107u8, 101u8, 100u8];
    assert(r@ =~= chunked_name());
    r
}

/// Why a list of header fields is refused.
pub enum HeaderFault {
    IllegalName(Seq<u8>),
    IllegalValue(Seq<u8>),
    BadContentLength,
    ConflictingContentLength,
    MultipleTransferEncoding,
    UnsupportedTransferEncoding,
}

/// The message of the error for a refused list of header fields.
pub open spec fn fault_message(f: HeaderFault) -> Seq<char> {
    match f {
        HeaderFault::IllegalName(n) => "Illegal header name "@ + debug_bytes(n),
        HeaderFault::IllegalValue(v) => "Illegal header value "@ + debug_bytes(v),
        HeaderFault::BadContentLength => "bad Content-Length"@,
        HeaderFault::ConflictingContentLength => "conflicting Content-Length headers"@,
        HeaderFault::MultipleTransferEncoding => "multiple Transfer-Encoding headers"@,
        HeaderFault::UnsupportedTransferEncoding => "Only Transfer-Encoding: chunked is supported"@,
    }
}

/// The status code of the error for a refused list of header fields: 501
/// for a transfer coding that is not supported, else 400.
pub open spec fn fault_code(f: HeaderFault) -> u16 {
    match f {
        HeaderFault::MultipleTransferEncoding => 501,
        HeaderFault::UnsupportedTransferEncoding => 501,
        _ => 400,
    }
}

/// `e` is the local protocol error that reports `f`.
pub open spec fn reports_fault(e: ProtocolError, f: HeaderFault) -> bool {
    is_local_error(e, fault_message(f), fault_code(f))
}

/// What normalisation has produced after some fields: the fields kept, the
/// `Content-Length` value seen, whether a `Transfer-Encoding` was seen.
pub struct NormState {
    pub out: Seq<FieldView>,
    pub seen_content_length: Option<Seq<u8>>,
    pub saw_transfer_encoding: bool,
}

/// Nothing normalised yet.
pub open spec fn initial_state() -> NormState {
    NormState { out: Seq::empty(), seen_content_length: None, saw_transfer_encoding: false }
}

/// The comma-separated pieces of a `Content-Length` value, trimmed.
pub open spec fn length_parts(value: Seq<u8>) -> Seq<Seq<u8>> {
    split_on(value, 0x2Cu8).map_values(|p: Seq<u8>| trim(p))
}

/// All the byte strings are the same.
pub open spec fn all_equal(parts: Seq<Seq<u8>>) -> bool {
    forall|i: int| 0 <= i < parts.len() ==> #[trigger] parts[i] == parts[0]
}

/// One field through normalisation. Unless the fields come from the wire
/// (`parsed`), the name must be a token and the value a field value. The
/// name is lower-cased for lookup. A `Content-Length` value is a list of
/// equal decimal numbers, kept once; a repeated `Content-Length` must agree
/// and is dropped. One `Transfer-Encoding` is allowed, `chunked` in any case,
/// kept in lower case. Other fields are kept as they are.
pub open spec fn norm_step(st: NormState, name: Seq<u8>, value: Seq<u8>, parsed: bool) -> Result<
    NormState,
    HeaderFault,
> {
    if !parsed && !is_token(name) {
        Err(HeaderFault::IllegalName(name))
    } else if !parsed && !is_field_value(value) {
        Err(HeaderFault::IllegalValue(value))
    } else {
        let lname = lower(name);
        if lname == content_length_name() {
            let parts = length_parts(value);
            if !all_equal(parts) {
                Err(HeaderFault::ConflictingContentLength)
            } else if !is_digits(parts[0]) {
                Err(HeaderFault::BadContentLength)
            } else {
                match st.seen_content_length {
                    None => Ok(
                        NormState {
                            out: st.out.push((name, lname, parts[0])),
                            seen_content_length: Some(parts[0]),
                            saw_transfer_encoding: st.saw_transfer_encoding,
                        },
                    ),
                    Some(seen) => if seen == parts[0] {
                        Ok(st)
                    } else {
                        Err(HeaderFault::ConflictingContentLength)
                    },
                }
            }
        } else if lname == transfer_encoding_name() {
            if st.saw_transfer_encoding {
                Err(HeaderFault::MultipleTransferEncoding)
            } else if lower(value) != chunked_name() {
                Err(HeaderFault::UnsupportedTransferEncoding)
            } else {
                Ok(
                    NormState {
                        out: st.out.push((name, lname, lower(value))),
                        seen_content_length: st.seen_content_length,
                        saw_transfer_encoding: true,
                    },
                )
            }
        } else {
            Ok(
                NormState {
                    out: st.out.push((name, lname, value)),
                    seen_content_length: st.seen_content_length,
                    saw_transfer_encoding: st.saw_transfer_encoding,
                },
            )
        }
    }
}

/// Normalisation of the fields `hs`, one after the other; the first refused
/// field stops it.
pub open spec fn norm_run(hs: Seq<PairView>, parsed: bool) -> Result<NormState, HeaderFault>
    decreases hs.len(),
{
    if hs.len() == 0 {
        Ok(initial_state())
    } else {
        match norm_run(hs.drop_last(), parsed) {
            Err(f) => Err(f),
            Ok(st) => norm_step(st, hs.last().0, hs.last().1, parsed),
        }
    }
}

/// The stored fields that normalising `hs` gives, or why it is refused.
pub open spec fn spec_normalize(hs: Seq<PairView>, parsed: bool) -> Result<
    Seq<FieldView>,
    HeaderFault,
> {
    match norm_run(hs, parsed) {
        Ok(st) => Ok(st.out),
        Err(f) => Err(f),
    }
}

/// Once a prefix of the fields is refused, the whole list is refused for the
/// same reason.
pub proof fn lemma_norm_run_error_persists(hs: Seq<PairView>, parsed: bool, k: int)
    requires
        0 <= k <= hs.len(),
        norm_run(hs.take(k), parsed) is Err,
    ensures
        norm_run(hs, parsed) == norm_run(hs.take(k), parsed),
    decreases hs.len() - k,
{
    if k < hs.len() {
        assert(hs.take(k + 1).drop_last() =~= hs.take(k));
        lemma_norm_run_error_persists(hs, parsed, k + 1);
    } else {
        assert(hs.take(k) =~= hs);
    }
}

struct Accumulated {
    fields: Vec<(Vec<u8>, Vec<u8>, Vec<u8>)>,
    seen_content_length: Option<Vec<u8>>,
    saw_transfer_encoding: bool,
}

impl Accumulated {
    spec fn state(&self) -> NormState {
        NormState {
            out: fields_view(self.fields@),
            seen_content_length: match self.seen_content_length {
                Some(v) => Some(v@),
                None => None,
            },
            saw_transfer_encoding: self.saw_transfer_encoding,
        }
    }
}

fn illegal_name_error(name: &[u8]) -> (e: ProtocolError)
    ensures
        reports_fault(e, HeaderFault::IllegalName(name@)),
{
    let mut message = String::from_str("Illegal header name ");
    append_debug_bytes(&mut message, name);
    local_error(message, 400)
}

fn illegal_value_error(value: &[u8]) -> (e: ProtocolError)
    ensures
        reports_fault(e, HeaderFault::IllegalValue(value@)),
{
    let mut message = String::from_str("Illegal header value ");
    append_debug_bytes(&mut message, value);
    local_error(message, 400)
}

fn bad_content_length_error() -> (e: ProtocolError)
    ensures
        reports_fault(e, HeaderFault::BadContentLength),
{
    local_error(String::from_str("bad Content-Length"), 400)
}

fn conflicting_content_length_error() -> (e: ProtocolError)
    ensures
        reports_fault(e, HeaderFault::ConflictingContentLength),
{
    local_error(String::from_str("conflicting Content-Length headers"), 400)
}

fn multiple_transfer_encoding_error() -> (e: ProtocolError)
    ensures
        reports_fault(e, HeaderFault::MultipleTransferEncoding),
{
    local_error(String::from_str("multiple Transfer-Encoding headers"), 501)
}

fn unsupported_transfer_encoding_error() -> (e: ProtocolError)
    ensures
        reports_fault(e, HeaderFault::UnsupportedTransferEncoding),
{
    local_error(String::from_str("Only Transfer-Encoding: chunked is supported"), 501)
}

/// The trimmed pieces of a `Content-Length` value, when they are all equal.
fn single_length(value: &[u8]) -> (r: Option<Vec<u8>>)
    ensures
        all_equal(length_parts(value@)) ==> (r matches Some(v) && v@ == length_parts(value@)[0]),
        !all_equal(length_parts(value@)) ==> r is None,
{
    let parts = split_commas(value);
    proof {
        lemma_split_on_nonempty(value@, 0x2Cu8);
    }
    let ghost lp = length_parts(value@);
    let first = trim_ascii_whitespace(parts[0].as_slice());
    assert(first@ == lp[0]);
    let mut j: usize = 1;
    while j < parts.len()
        invariant
            1 <= j <= parts@.len(),
            vecs_view(parts@) == split_on(value@, 0x2Cu8),
            lp == length_parts(value@),
            first@ == lp[0],
            forall|k: int| 0 <= k < j ==> #[trigger] lp[k] == lp[0],
        decreases parts@.len() - j,
    {
        let piece = trim_ascii_whitespace(parts[j].as_slice());
        assert(piece@ == lp[j as int]);
        if !bytes_equal(piece.as_slice(), first.as_slice()) {
            return None;
        }
        j = j + 1;
    }
    Some(first)
}

fn accept_field(acc: &mut Accumulated, name: &Vec<u8>, value: &Vec<u8>, parsed: bool) -> (r: Result<
    (),
    ProtocolError,
>)
    ensures
        match norm_step(old(acc).state(), name@, value@, parsed) {
            Ok(st) => r is Ok && final(acc).state() == st,
            Err(f) => r matches Err(e) && reports_fault(e, f),
        },
{
    if !parsed {
        if !check_token(name.as_slice()) {
            return Err(illegal_name_error(name.as_slice()));
        }
        if !check_field_value(value.as_slice()) {
            return Err(illegal_value_error(value.as_slice()));
        }
    }
    let raw_name = copy_bytes(name.as_slice());
    let lname = ascii_lowercase(name.as_slice());
    let cl = content_length_bytes();
    let te = transfer_encoding_bytes();
    if bytes_equal(lname.as_slice(), cl.as_slice()) {
        let single = single_length(value.as_slice());
        let length = match single {
            None => {
                return Err(conflicting_content_length_error());
            },
            Some(length) => length,
        };
        if !check_content_length(length.as_slice()) {
            return Err(bad_content_length_error());
        }
        match &acc.seen_content_length {
            None => {
                let kept = copy_bytes(length.as_slice());
                acc.seen_content_length = Some(kept);
                acc.fields.push((raw_name, lname, length));
                assert(fields_view(acc.fields@) =~= fields_view(old(acc).fields@).push(
                    (name@, lower(name@), length_parts(value@)[0]),
                ));
                Ok(())
            },
            Some(seen) => {
                if bytes_equal(seen.as_slice(), length.as_slice()) {
                    Ok(())
                } else {
                    Err(conflicting_content_length_error())
                }
            },
        }
    } else if bytes_equal(lname.as_slice(), te.as_slice()) {
        if acc.saw_transfer_encoding {
            return Err(multiple_transfer_encoding_error());
        }
        let lvalue = ascii_lowercase(value.as_slice());
        let chunked = chunked_bytes();
        if !bytes_equal(lvalue.as_slice(), chunked.as_slice()) {
            return Err(unsupported_transfer_encoding_error());
        }
        acc.saw_transfer_encoding = true;
        acc.fields.push((raw_name, lname, lvalue));
        assert(fields_view(acc.fields@) =~= fields_view(old(acc).fields@).push(
            (name@, lower(name@), lower(value@)),
        ));
        Ok(())
    } else {
        let kept = copy_bytes(value.as_slice());
        acc.fields.push((raw_name, lname, kept));
        assert(fields_view(acc.fields@) =~= fields_view(old(acc).fields@).push(
            (name@, lower(name@), value@),
        ));
        Ok(())
    }
}

/// Normalizes and validates HTTP header fields.
///
/// Unless `_parsed` is set (fields already parsed from the wire), each name
/// must be a token and each value a field value. Names are kept as given and
/// in lower case; `Content-Length` and `Transfer-Encoding` must be
/// consistent (see `norm_step`).
pub fn normalize_and_validate(headers: Vec<(Vec<u8>, Vec<u8>)>, _parsed: bool) -> (r: Result<
    Headers,
    ProtocolError,
>)
    ensures
        match spec_normalize(pairs_view(headers@), _parsed) {
            Ok(out) => r matches Ok(h) && h@ == out,
            Err(f) => r matches Err(e) && reports_fault(e, f),
        },
{
    let ghost hs = pairs_view(headers@);
    let mut acc = Accumulated {
        fields: Vec::new(),
        seen_content_length: None,
        saw_transfer_encoding: false,
    };
    assert(acc.state() == initial_state()) by {
        assert(fields_view(acc.fields@) =~= Seq::<FieldView>::empty());
    }
    assert(hs.take(0) =~= Seq::<PairView>::empty());
    let mut i: usize = 0;
    while i < headers.len()
        invariant
            i <= headers@.len(),
            hs == pairs_view(headers@),
            norm_run(hs.take(i as int), _parsed) == Ok::<NormState, HeaderFault>(acc.state()),
        decreases headers@.len() - i,
    {
        assert(hs.take(i + 1).drop_last() =~= hs.take(i as int));
        let step = accept_field(&mut acc, &headers[i].0, &headers[i].1, _parsed);
        match step {
            Err(e) => {
                proof {
                    lemma_norm_run_error_persists(hs, _parsed, i + 1);
                }
                return Err(e);
            },
            Ok(()) => {},
        }
        i = i + 1;
    }
    assert(hs.take(i as int) =~= hs);
    Ok(Headers(acc.fields))
}

/// The name/value pairs given as byte sources, read as byte strings.
pub open spec fn sources_view<N: ByteSource, V: ByteSource>(v: Seq<(N, V)>) -> Seq<PairView> {
    v.map_values(|p: (N, V)| (p.0.byte_view(), p.1.byte_view()))
}

/// The lower-case name and the value of each field.
pub open spec fn lookup_pairs(fields: Seq<FieldView>) -> Seq<PairView> {
    fields.map_values(|t: FieldView| (t.1, t.2))
}

/// The raw name and the value of each field.
pub open spec fn raw_pairs(fields: Seq<FieldView>) -> Seq<PairView> {
    fields.map_values(|t: FieldView| (t.0, t.2))
}

impl Headers {
    /// Returns the lower-case name and the value of each field, in order.
    pub fn iter(&self) -> (r: Vec<(Vec<u8>, Vec<u8>)>)
        ensures
            pairs_view(r@) == lookup_pairs(self@),
    {
        let mut out: Vec<(Vec<u8>, Vec<u8>)> = Vec::new();
        let mut i: usize = 0;
        while i < self.0.len()
            invariant
                i <= self.0@.len(),
                pairs_view(out@) =~= lookup_pairs(fields_view(self.0@.subrange(0, i as int))),
            decreases self.0@.len() - i,
        {
            let name = copy_bytes(self.0[i].1.as_slice());
            let value = copy_bytes(self.0[i].2.as_slice());
            let ghost prev = out@;
            out.push((name, value));
            assert(out@ == prev.push((name, value)));
            assert(pairs_view(out@) =~= pairs_view(prev).push((name@, value@)));
            assert(fields_view(self.0@.subrange(0, i + 1)) =~= fields_view(self.0@.subrange(0, i as int)).push(field_view(self.0@[i as int])));
            i = i + 1;
            assert(pairs_view(out@) =~~= lookup_pairs(fields_view(self.0@.subrange(0, i as int))));
        }
        assert(self.0@.subrange(0, self.0@.len() as int) =~= self.0@);
        out
    }

    /// Returns the `(raw_name, name, value)` triples, in order.
    pub fn raw_items(&self) -> (r: Vec<&(Vec<u8>, Vec<u8>, Vec<u8>)>)
        ensures
            r@.map_values(|t: &(Vec<u8>, Vec<u8>, Vec<u8>)| field_view(*t)) == self@,
    {
        let mut out: Vec<&(Vec<u8>, Vec<u8>, Vec<u8>)> = Vec::new();
        let mut i: usize = 0;
        while i < self.0.len()
            invariant
                i <= self.0@.len(),
                out@.map_values(|t: &(Vec<u8>, Vec<u8>, Vec<u8>)| field_view(*t)) =~= fields_view(
                    self.0@.subrange(0, i as int),
                ),
            decreases self.0@.len() - i,
        {
            let ghost prev = out@;
            out.push(&self.0[i]);
            assert(self.0@.subrange(0, i + 1) =~= self.0@.subrange(0, i as int).push(self.0@[i as int]));
            assert(fields_view(self.0@.subrange(0, i + 1)) =~= fields_view(self.0@.subrange(0, i as int)).push(field_view(self.0@[i as int])));
            assert(out@.map_values(|t: &(Vec<u8>, Vec<u8>, Vec<u8>)| field_view(*t)) =~= prev.map_values(|t: &(Vec<u8>, Vec<u8>, Vec<u8>)| field_view(*t)).push(field_view(self.0@[i as int])));
            i = i + 1;
            assert(out@.map_values(|t: &(Vec<u8>, Vec<u8>, Vec<u8>)| field_view(*t))
                =~~= fields_view(self.0@.subrange(0, i as int)));
        }
        assert(self.0@.subrange(0, self.0@.len() as int) =~= self.0@);
        out
    }

    /// Returns the number of header fields.
    pub fn len(&self) -> (r: usize)
        ensures
            r == self@.len(),
    {
        self.0.len()
    }

    /// Returns true when the collection has no header fields.
    pub fn is_empty(&self) -> (r: bool)
        ensures
            r == (self@.len() == 0),
    {
        self.0.len() == 0
    }

    /// Builds and validates a header collection from name/value pairs given
    /// as bytes or text: each name must be a token and each value a field
    /// value, and `Content-Length` / `Transfer-Encoding` must be consistent.
    pub fn new<N: ByteSource, V: ByteSource>(headers: Vec<(N, V)>) -> (r: Result<
        Headers,
        ProtocolError,
    >)
        ensures
            match spec_normalize(sources_view(headers@), false) {
                Ok(out) => r matches Ok(h) && h@ == out,
                Err(f) => r matches Err(e) && reports_fault(e, f),
            },
    {
        let mut pairs: Vec<(Vec<u8>, Vec<u8>)> = Vec::new();
        let mut i: usize = 0;
        while i < headers.len()
            invariant
                i <= headers@.len(),
                pairs_view(pairs@) =~= sources_view(headers@.subrange(0, i as int)),
            decreases headers@.len() - i,
        {
            let name = headers[i].0.to_byte_vec();
            let value = headers[i].1.to_byte_vec();
            let ghost prev = pairs@;
            pairs.push((name, value));
            assert(pairs_view(pairs@) =~= pairs_view(prev).push((name@, value@)));
            assert(headers@.subrange(0, i + 1) =~= headers@.subrange(0, i as int).push(headers@[i as int]));
            assert(sources_view(headers@.subrange(0, i + 1)) =~= sources_view(headers@.subrange(0, i as int)).push((headers@[i as int].0.byte_view(), headers@[i as int].1.byte_view())));
            i = i + 1;
            assert(pairs_view(pairs@) =~~= sources_view(headers@.subrange(0, i as int)));
        }
        assert(headers@.subrange(0, headers@.len() as int) =~= headers@);
        normalize_and_validate(pairs, false)
    }
}

/// The non-empty byte strings of `s`, in order.
pub open spec fn nonempty_only(s: Seq<Seq<u8>>) -> Seq<Seq<u8>>
    decreases s.len(),
{
    if s.len() == 0 {
        Seq::empty()
    } else if s.last().len() > 0 {
        nonempty_only(s.drop_last()).push(s.last())
    } else {
        nonempty_only(s.drop_last())
    }
}

/// The items of a comma-separated value: lower-cased, split on commas,
/// trimmed, empty items left out.
pub open spec fn comma_items(value: Seq<u8>) -> Seq<Seq<u8>> {
    nonempty_only(split_on(lower(value), 0x2Cu8).map_values(|p: Seq<u8>| trim(p)))
}

/// The items of every field named `lname`, field after field.
pub open spec fn comma_values(fields: Seq<FieldView>, lname: Seq<u8>) -> Seq<Seq<u8>>
    decreases fields.len(),
{
    if fields.len() == 0 {
        Seq::empty()
    } else if fields.last().1 == lname {
        comma_values(fields.drop_last(), lname) + comma_items(fields.last().2)
    } else {
        comma_values(fields.drop_last(), lname)
    }
}

fn append_comma_items(out: &mut Vec<Vec<u8>>, value: &[u8])
    ensures
        vecs_view(final(out)@) == vecs_view(old(out)@) + comma_items(value@),
{
    let lvalue = ascii_lowercase(value);
    let pieces = split_commas(lvalue.as_slice());
    let ghost trimmed = split_on(lower(value@), 0x2Cu8).map_values(|p: Seq<u8>| trim(p));
    let ghost start = vecs_view(out@);
    let mut j: usize = 0;
    while j < pieces.len()
        invariant
            j <= pieces@.len(),
            vecs_view(pieces@) == split_on(lower(value@), 0x2Cu8),
            trimmed == split_on(lower(value@), 0x2Cu8).map_values(|p: Seq<u8>| trim(p)),
            vecs_view(out@) == start + nonempty_only(trimmed.subrange(0, j as int)),
        decreases pieces@.len() - j,
    {
        let piece = trim_ascii_whitespace(pieces[j].as_slice());
        assert(trimmed.subrange(0, j + 1).drop_last() =~= trimmed.subrange(0, j as int));
        assert(piece@ == trimmed[j as int]);
        assert(trimmed.subrange(0, j + 1).last() == trimmed[j as int]);
        let ghost prev = out@;
        if piece.len() > 0 {
            out.push(piece);
            assert(vecs_view(out@) =~= vecs_view(prev).push(trimmed[j as int]));
        }
        j = j + 1;
        assert(vecs_view(out@) =~~= start + nonempty_only(trimmed.subrange(0, j as int)));
    }
    assert(trimmed.subrange(0, pieces@.len() as int) =~= trimmed);
}

/// Reads a comma-separated header: the lower-cased, trimmed, non-empty
/// items of every field whose name is `name` in any case.
pub fn get_comma_header(headers: &Headers, name: &[u8]) -> (r: Vec<Vec<u8>>)
    ensures
        vecs_view(r@) == comma_values(headers@, lower(name@)),
{
    let mut out: Vec<Vec<u8>> = Vec::new();
    let lname = ascii_lowercase(name);
    let fields = &headers.0;
    let mut i: usize = 0;
    while i < fields.len()
        invariant
            i <= fields@.len(),
            fields@ == headers.0@,
            lname@ == lower(name@),
            vecs_view(out@) =~= comma_values(fields_view(fields@.subrange(0, i as int)), lname@),
        decreases fields@.len() - i,
    {
        assert(fields_view(fields@.subrange(0, i + 1)).drop_last() =~= fields_view(
            fields@.subrange(0, i as int),
        ));
        if bytes_equal(fields[i].1.as_slice(), lname.as_slice()) {
            append_comma_items(&mut out, fields[i].2.as_slice());
        }
        i = i + 1;
    }
    assert(fields@.subrange(0, fields@.len() as int) =~= fields@);
    out
}

/// The lower-case name and value of each field not named `name`.
pub open spec fn pairs_without(fields: Seq<FieldView>, name: Seq<u8>) -> Seq<PairView>
    decreases fields.len(),
{
    if fields.len() == 0 {
        Seq::empty()
    } else if fields.last().1 != name {
        pairs_without(fields.drop_last(), name).push((fields.last().1, fields.last().2))
    } else {
        pairs_without(fields.drop_last(), name)
    }
}

/// The pairs `(name, v)` for each `v` of `values`.
pub open spec fn pairs_named(name: Seq<u8>, values: Seq<Seq<u8>>) -> Seq<PairView> {
    values.map_values(|v: Seq<u8>| (name, v))
}

/// Replaces all instances of a comma-separated header: every field named
/// `name` in any case is dropped, the other fields are kept (under their
/// lower-case names), one field `name: v` is added for each new value, and
/// the result is validated as `Headers::new` validates.
pub fn set_comma_header(headers: &Headers, name: &[u8], new_values: Vec<Vec<u8>>) -> (r: Result<
    Headers,
    ProtocolError,
>)
    ensures
        match spec_normalize(
            pairs_without(headers@, lower(name@)) + pairs_named(name@, vecs_view(new_values@)),
            false,
        ) {
            Ok(out) => r matches Ok(h) && h@ == out,
            Err(f) => r matches Err(e) && reports_fault(e, f),
        },
{
    let mut pairs: Vec<(Vec<u8>, Vec<u8>)> = Vec::new();
    let lname = ascii_lowercase(name);
    let fields = &headers.0;
    let mut i: usize = 0;
    while i < fields.len()
        invariant
            i <= fields@.len(),
            fields@ == headers.0@,
            lname@ == lower(name@),
            pairs_view(pairs@) =~= pairs_without(
                fields_view(fields@.subrange(0, i as int)),
                lower(name@),
            ),
        decreases fields@.len() - i,
    {
        assert(fields_view(fields@.subrange(0, i + 1)).drop_last() =~= fields_view(
            fields@.subrange(0, i as int),
        ));
        if !bytes_equal(fields[i].1.as_slice(), lname.as_slice()) {
            let found_name = copy_bytes(fields[i].1.as_slice());
            let found_value = copy_bytes(fields[i].2.as_slice());
            pairs.push((found_name, found_value));
        }
        i = i + 1;
    }
    assert(fields@.subrange(0, fields@.len() as int) =~= fields@);
    let ghost kept = pairs_view(pairs@);
    let mut j: usize = 0;
    while j < new_values.len()
        invariant
            j <= new_values@.len(),
            pairs_view(pairs@) =~= kept + pairs_named(
                name@,
                vecs_view(new_values@.subrange(0, j as int)),
            ),
        decreases new_values@.len() - j,
    {
        let n = copy_bytes(name);
        let v = copy_bytes(new_values[j].as_slice());
        let ghost prev = pairs@;
        pairs.push((n, v));
        assert(pairs_view(pairs@) =~= pairs_view(prev).push((name@, new_values@[j as int]@)));
        assert(new_values@.subrange(0, j + 1) =~= new_values@.subrange(0, j as int).push(new_values@[j as int]));
        assert(pairs_named(name@, vecs_view(new_values@.subrange(0, j + 1))) =~= pairs_named(name@, vecs_view(new_values@.subrange(0, j as int))).push((name@, new_values@[j as int]@)));
        j = j + 1;
        assert(pairs_view(pairs@) =~~= kept + pairs_named(
            name@,
            vecs_view(new_values@.subrange(0, j as int)),
        ));
    }
    assert(new_values@.subrange(0, new_values@.len() as int) =~= new_values@);
    normalize_and_validate(pairs, false)
}

/// The bytes `expect`.
pub open spec fn expect_name() -> Seq<u8> {
    seq![101u8, 120u8, 112u8, 101u8, 99u8, 116u8]
}

/// The bytes `100-continue`.
pub open spec fn continue_token() -> Seq<u8> {
    seq![49u8, 48u8, 48u8, 45u8, 99u8, 111u8, 110u8, 116u8, 105u8, 110u8, 117u8, 101u8]
}

/// A request waits for `100 Continue` when its version is not below `1.1`
/// (byte-wise) and one of its `Expect` items is `100-continue`.
pub open spec fn expects_100_continue(http_version: Seq<u8>, fields: Seq<FieldView>) -> bool {
    !lex_lt(http_version, http11()) && comma_values(fields, expect_name()).contains(
        continue_token(),
    )
}

/// Returns whether a request contains an active `Expect: 100-continue`.
/// An HTTP/1.0 request's expectation is ignored (RFC 9110 section 10.1.1).
pub fn has_expect_100_continue(request: &Request) -> (r: bool)
    ensures
        r == expects_100_continue(request.http_version@, request.headers@),
{
    let one_one = vec![49u8, 46u8, 49u8];
    assert(one_one@ =~= http11());
    if bytes_less(request.http_version.as_slice(), one_one.as_slice()) {
        return false;
    }
    let expect = vec![101u8, 120u8, 112u8, 101u8, 99u8, 116u8];
    assert(expect@ =~= expect_name());
    assert(lower(expect@) =~= expect_name());
    let token = vec![49u8, 48u8, 48u8, 45u8, 99u8, 111u8, 110u8, 116u8, 105u8, 110u8, 117u8, 101u8];
    assert(token@ =~= continue_token());
    let items = get_comma_header(&request.headers, expect.as_slice());
    assert(vecs_view(items@) == comma_values(request.headers@, expect_name()));
    let mut i: usize = 0;
    while i < items.len()
        invariant
            i <= items@.len(),
            token@ == continue_token(),
            vecs_view(items@) == comma_values(request.headers@, expect_name()),
            !lex_lt(request.http_version@, http11()),
            forall|k: int| 0 <= k < i ==> vecs_view(items@)[k] != continue_token(),
        decreases items@.len() - i,
    {
        if bytes_equal(items[i].as_slice(), token.as_slice()) {
            assert(vecs_view(items@)[i as int] == continue_token());
            assert(vecs_view(items@).contains(continue_token()));
            assert(comma_values(request.headers@, expect_name()).contains(continue_token()));
            return true;
        }
        i = i + 1;
    }
    false
}

/// One field as the header list's text shows it: the raw name read as
/// UTF-8, `": "`, then the value quoted.
pub open spec fn field_entry(f: FieldView) -> Seq<char> {
    lossy_text(f.0) + ": "@ + quoted_text(f.2)
}

/// The fields' texts joined by `", "`.
pub open spec fn field_entries(fields: Seq<FieldView>) -> Seq<char>
    decreases fields.len(),
{
    if fields.len() == 0 {
        Seq::empty()
    } else if fields.len() == 1 {
        field_entry(fields[0])
    } else {
        field_entries(fields.drop_last()) + ", "@ + field_entry(fields.last())
    }
}

/// The text of a header list: `Headers` alone when it is empty, else
/// `Headers { Name: "value", ... }`.
pub open spec fn headers_debug_text(fields: Seq<FieldView>) -> Seq<char> {
    if fields.len() == 0 {
        "Headers"@
    } else {
        "Headers"@ + " { "@ + field_entries(fields) + " }"@
    }
}

impl Headers {
    /// The header list as its `Debug` text in the original form: each raw
    /// name read as UTF-8, with its value quoted and escaped.
    pub fn debug_text(&self) -> (r: String)
        ensures
            r@ == headers_debug_text(self@),
    {
        let mut out = String::from_str("Headers");
        if self.0.len() == 0 {
            return out;
        }
        out.append(" { ");
        let ghost start = out@;
        let mut i: usize = 0;
        while i < self.0.len()
            invariant
                i <= self.0@.len(),
                out@ == start + field_entries(fields_view(self.0@.subrange(0, i as int))),
            decreases self.0@.len() - i,
        {
            let ghost prev = fields_view(self.0@.subrange(0, i as int));
            assert(fields_view(self.0@.subrange(0, i + 1)).drop_last() =~= prev);
            assert(fields_view(self.0@.subrange(0, i + 1)).last() == field_view(self.0@[i as int]));
            if i > 0 {
                out.append(", ");
            }
            let name = utf8_lossy(self.0[i].0.as_slice());
            out.append(name.as_str());
            out.append(": ");
            append_quoted(&mut out, self.0[i].2.as_slice());
            i = i + 1;
            proof {
                let cur = fields_view(self.0@.subrange(0, i as int));
                if i == 1 {
                    assert(prev =~= Seq::<FieldView>::empty());
                    assert(cur[0] == field_view(self.0@[0]));
                }
            }
            assert(out@ =~= start + field_entries(fields_view(self.0@.subrange(0, i as int))));
        }
        assert(self.0@.subrange(0, self.0@.len() as int) =~= self.0@);
        out.append(" }");
        assert(out@ =~= headers_debug_text(self@));
        out
    }
}

} // verus!
