//! What validation, event conversion, `Expect: 100-continue` detection and
//! the quoted rendering of bytes do, stated over plain bytes and numbers.

use crate::events::{
    host_count, host_name, http11, name_count, request_error, response_error, response_event,
    Event, Response,
};
use crate::grammar::{is_alpha, is_digit, is_tchar};
use crate::headers::{
    comma_items, comma_values, continue_token, expect_name, expects_100_continue, lookup_pairs,
    FieldView,
};
use crate::render::{ascii_chars, escape_ascii, escaped_ascii, hex_text, quoted_text};
use crate::text::lex_lt;
use vstd::prelude::*;
use vstd::std_specs::convert::FromSpec;

verus! {

/// The lower-case hexadecimal digit for `d` in 0..16: `0`-`9`, then `a`-`f`.
pub open spec fn hex_digit_char(d: int) -> char {
    if d < 10 {
        (48 + d) as char
    } else {
        (87 + d) as char
    }
}

/// A decimal digit byte, `0` to `9`.
pub open spec fn digit_byte(b: u8) -> bool {
    0x30 <= b && b <= 0x39
}

/// A version `d.d`: digit, dot, digit.
pub open spec fn version_shape(v: Seq<u8>) -> bool {
    v.len() == 3 && digit_byte(v[0]) && v[1] == 0x2E && digit_byte(v[2])
}

/// A token byte: a letter, a digit, or one of ``!#$%&'*+-.^_`|~``.
pub open spec fn token_byte(b: u8) -> bool {
    (0x30 <= b && b <= 0x39) || (0x41 <= b && b <= 0x5A) || (0x61 <= b && b <= 0x7A) || b == 0x21
        || b == 0x23 || b == 0x24 || b == 0x25 || b == 0x26 || b == 0x27 || b == 0x2A || b == 0x2B
        || b == 0x2D || b == 0x2E || b == 0x5E || b == 0x5F || b == 0x60 || b == 0x7C || b == 0x7E
}

/// Some field is stored under the name `host`.
pub open spec fn some_host(fields: Seq<FieldView>) -> bool {
    exists|i: int| 0 <= i < fields.len() && (#[trigger] fields[i]).1 == seq![104u8, 111u8, 115u8, 116u8]
}

/// No two fields are stored under the name `host`.
pub open spec fn at_most_one_host(fields: Seq<FieldView>) -> bool {
    forall|i: int, j: int|
        0 <= i < fields.len() && 0 <= j < fields.len() && (#[trigger] fields[i]).1 == seq![
            104u8,
            111u8,
            115u8,
            116u8,
        ] && (#[trigger] fields[j]).1 == seq![104u8, 111u8, 115u8, 116u8] ==> i == j
}

proof fn lemma_host_count(fields: Seq<FieldView>)
    ensures
        (host_count(fields) == 0) == !some_host(fields),
        (host_count(fields) <= 1) == at_most_one_host(fields),
    decreases fields.len(),
{
    let h = seq![104u8, 111u8, 115u8, 116u8];
    assert(host_name() == h);
    if fields.len() == 0 {
        assert(lookup_pairs(fields).len() == 0);
    } else {
        let init = fields.drop_last();
        lemma_host_count(init);
        assert(lookup_pairs(fields).drop_last() =~= lookup_pairs(init));
        assert(lookup_pairs(fields).last() == (fields.last().1, fields.last().2));
        let n = fields.len() - 1;
        assert(fields.last() == fields[n]);
        assert(forall|i: int| 0 <= i < init.len() ==> #[trigger] init[i] == fields[i]);
        if some_host(fields) && fields.last().1 != h {
            let i = choose|i: int| 0 <= i < fields.len() && (#[trigger] fields[i]).1 == h;
            assert(i < n);
            assert(init[i].1 == h);
        }
        if some_host(init) {
            let i = choose|i: int| 0 <= i < init.len() && (#[trigger] init[i]).1 == h;
            assert(fields[i].1 == h);
        }
        if fields.last().1 == h {
            assert(fields[n].1 == h);
            if some_host(init) {
                let i = choose|i: int| 0 <= i < init.len() && (#[trigger] init[i]).1 == h;
                assert(fields[i].1 == h && i != n);
                assert(!at_most_one_host(fields));
            } else {
                assert forall|i: int, j: int|
                    0 <= i < fields.len() && 0 <= j < fields.len() && (#[trigger] fields[i]).1 == h
                        && (#[trigger] fields[j]).1 == h implies i == j by {
                    if i < n {
                        assert(init[i].1 == h);
                    }
                    if j < n {
                        assert(init[j].1 == h);
                    }
                }
            }
        } else {
            if at_most_one_host(init) {
                assert forall|i: int, j: int|
                    0 <= i < fields.len() && 0 <= j < fields.len() && (#[trigger] fields[i]).1 == h
                        && (#[trigger] fields[j]).1 == h implies i == j by {
                    assert(i < n && j < n);
                    assert(init[i] == fields[i] && init[j] == fields[j]);
                }
            } else {
                let (i, j) = choose|i: int, j: int|
                    0 <= i < init.len() && 0 <= j < init.len() && (#[trigger] init[i]).1 == h && (
                    #[trigger] init[j]).1 == h && i != j;
                assert(fields[i].1 == h && fields[j].1 == h);
            }
        }
    }
}

/// A response head is accepted exactly when its status code is in
/// 100..=999, its version is any `d.d` (`1.0` as well as `1.1`), and its
/// reason phrase holds no NUL, line feed, vertical tab, form feed or
/// carriage return.
pub proof fn law_response_accepted(status_code: u16, http_version: Seq<u8>, reason: Seq<u8>)
    ensures
        response_error(status_code, http_version, reason) is None <==> {
            &&& 100 <= status_code <= 999
            &&& version_shape(http_version)
            &&& forall|i: int|
                0 <= i < reason.len() ==> #[trigger] reason[i] != 0x00 && reason[i] != 0x0A
                    && reason[i] != 0x0B && reason[i] != 0x0C && reason[i] != 0x0D
        },
{
}

/// A request head is accepted exactly when its version is any `d.d`, its
/// method is a non-empty run of token bytes, its target is a non-empty run
/// of visible ASCII bytes (whatever the first byte: `*`, `http://...` and
/// `host:port` are targets too), at most one field is named `host`, and an
/// HTTP/1.1 request has one.
pub proof fn law_request_accepted(
    method: Seq<u8>,
    fields: Seq<FieldView>,
    target: Seq<u8>,
    http_version: Seq<u8>,
)
    ensures
        request_error(method, fields, target, http_version) is None <==> {
            &&& version_shape(http_version)
            &&& http_version == seq![49u8, 46u8, 49u8] ==> some_host(fields)
            &&& at_most_one_host(fields)
            &&& method.len() > 0
            &&& forall|i: int| 0 <= i < method.len() ==> token_byte(#[trigger] method[i])
            &&& target.len() > 0
            &&& forall|i: int| 0 <= i < target.len() ==> 0x21 <= #[trigger] target[i] <= 0x7E
        },
{
    lemma_host_count(fields);
    assert(http11() == seq![49u8, 46u8, 49u8]);
    assert(forall|b: u8| #[trigger] is_tchar(b) == token_byte(b));
}

/// Converting a response head into an event keeps the response and makes
/// it informational exactly for the status codes 100..=199 (`100 Continue`
/// included), final for every other code.
pub proof fn law_response_event(response: Response)
    ensures
        <Event as FromSpec<Response>>::obeys_from_spec(),
        (100 <= response.status_code <= 199) ==> <Event as FromSpec<Response>>::from_spec(response)
            == Event::InformationalResponse(response),
        !(100 <= response.status_code <= 199) ==> <Event as FromSpec<Response>>::from_spec(
            response,
        ) == Event::NormalResponse(response),
{
}

/// Inside quoted text, a printable ASCII byte other than `"` and `\` (the
/// space included) shows as itself; `\0`, tab, line feed, carriage return,
/// `"` and `\` show as two-character escapes; the other control bytes show
/// as `\u{h}` with the byte in lower-case hexadecimal.
pub proof fn law_escape_ascii(b: u8)
    ensures
        0x20 <= b <= 0x7E && b != 0x22 && b != 0x5C ==> escape_ascii(b) == seq![b as char],
        b == 0x00 ==> escape_ascii(b) == seq!['\\', '0'],
        b == 0x09 ==> escape_ascii(b) == seq!['\\', 't'],
        b == 0x0A ==> escape_ascii(b) == seq!['\\', 'n'],
        b == 0x0D ==> escape_ascii(b) == seq!['\\', 'r'],
        b == 0x22 ==> escape_ascii(b) == seq!['\\', '"'],
        b == 0x5C ==> escape_ascii(b) == seq!['\\', '\\'],
        (0x01 <= b <= 0x1F && b != 0x09 && b != 0x0A && b != 0x0D) || b == 0x7F ==> escape_ascii(b)
            == seq!['\\', 'u', '{'] + (if b < 16 {
            seq![hex_digit_char(b as int)]
        } else {
            seq![hex_digit_char(b as int / 16), hex_digit_char(b as int % 16)]
        }) + seq!['}'],
{
    if b >= 16 {
        let n = b as nat;
        assert(n / 16 < 16);
        assert(hex_text(n / 16) == seq![crate::render::hex_char((n / 16) as int)]);
        assert(hex_text(n) =~= seq![hex_digit_char(b as int / 16), hex_digit_char(b as int % 16)]);
    } else {
        assert(hex_text(b as nat) =~= seq![hex_digit_char(b as int)]);
    }
}

proof fn lemma_plain_escapes(s: Seq<u8>)
    requires
        forall|i: int|
            0 <= i < s.len() ==> 0x20 <= #[trigger] s[i] <= 0x7E && s[i] != 0x22 && s[i] != 0x5C,
    ensures
        escaped_ascii(s) == ascii_chars(s),
    decreases s.len(),
{
    if s.len() > 0 {
        let init = s.drop_last();
        assert(forall|i: int| 0 <= i < init.len() ==> #[trigger] init[i] == s[i]);
        lemma_plain_escapes(init);
        law_escape_ascii(s.last());
        assert(s.last() == s[s.len() - 1]);
        assert(ascii_chars(s) =~= ascii_chars(init) + seq![s.last() as char]);
    } else {
        assert(ascii_chars(s) =~= Seq::<char>::empty());
    }
}

/// A byte string of printable ASCII with no `"` or `\` shows as its own
/// characters between double quotes.
pub proof fn law_quoted_plain_text(s: Seq<u8>)
    requires
        forall|i: int|
            0 <= i < s.len() ==> 0x20 <= #[trigger] s[i] <= 0x7E && s[i] != 0x22 && s[i] != 0x5C,
    ensures
        quoted_text(s) == seq!['"'] + s.map_values(|b: u8| b as char) + seq!['"'],
{
    lemma_plain_escapes(s);
    assert(forall|i: int| 0 <= i < s.len() ==> #[trigger] s[i] < 0x80);
}

/// A version `d.d` is at least `1.1`, byte-wise, exactly when its major
/// digit is above 1, or is 1 with a minor digit of 1 or more.
pub proof fn law_version_at_least_http11(v: Seq<u8>)
    requires
        version_shape(v),
    ensures
        !lex_lt(v, http11()) <==> (v[0] > 0x31 || (v[0] == 0x31 && v[2] >= 0x31)),
{
    reveal_with_fuel(lex_lt, 4);
    assert(v.drop_first()[0] == v[1]);
    assert(v.drop_first().drop_first()[0] == v[2]);
    assert(v.drop_first().drop_first().drop_first().len() == 0);
    assert(http11().drop_first() =~= seq![46u8, 49u8]);
    assert(http11().drop_first().drop_first() =~= seq![49u8]);
    assert(http11().drop_first().drop_first().drop_first() =~= Seq::<u8>::empty());
}

proof fn lemma_comma_values_contains(fields: Seq<FieldView>, name: Seq<u8>, x: Seq<u8>)
    ensures
        comma_values(fields, name).contains(x) <==> exists|i: int|
            0 <= i < fields.len() && (#[trigger] fields[i]).1 == name && comma_items(
                fields[i].2,
            ).contains(x),
    decreases fields.len(),
{
    if fields.len() > 0 {
        let init = fields.drop_last();
        lemma_comma_values_contains(init, name, x);
        let n = fields.len() - 1;
        assert(fields.last() == fields[n]);
        assert(forall|i: int| 0 <= i < init.len() ==> #[trigger] init[i] == fields[i]);
        let a = comma_values(init, name);
        if fields.last().1 == name {
            let b = comma_items(fields.last().2);
            assert(comma_values(fields, name) == a + b);
            if (a + b).contains(x) {
                let k = choose|k: int| 0 <= k < (a + b).len() && (a + b)[k] == x;
                if k < a.len() {
                    assert(a[k] == x);
                    let i = choose|i: int|
                        0 <= i < init.len() && (#[trigger] init[i]).1 == name && comma_items(
                            init[i].2,
                        ).contains(x);
                    assert(fields[i] == init[i]);
                } else {
                    assert(b[k - a.len()] == x);
                    assert(fields[n].1 == name && comma_items(fields[n].2).contains(x));
                }
            }
            if exists|i: int|
                0 <= i < fields.len() && (#[trigger] fields[i]).1 == name && comma_items(
                    fields[i].2,
                ).contains(x) {
                let i = choose|i: int|
                    0 <= i < fields.len() && (#[trigger] fields[i]).1 == name && comma_items(
                        fields[i].2,
                    ).contains(x);
                if i < n {
                    assert(init[i] == fields[i]);
                    assert(a.contains(x));
                    let k = choose|k: int| 0 <= k < a.len() && a[k] == x;
                    assert((a + b)[k] == x);
                } else {
                    let k = choose|k: int| 0 <= k < b.len() && b[k] == x;
                    assert((a + b)[a.len() + k] == x);
                }
            }
        } else {
            if exists|i: int|
                0 <= i < fields.len() && (#[trigger] fields[i]).1 == name && comma_items(
                    fields[i].2,
                ).contains(x) {
                let i = choose|i: int|
                    0 <= i < fields.len() && (#[trigger] fields[i]).1 == name && comma_items(
                        fields[i].2,
                    ).contains(x);
                assert(i < n);
                assert(init[i] == fields[i]);
            }
        }
    }
}

/// A request waits for `100 Continue` exactly when its version is not below
/// `1.1` and some field named `expect` lists `100-continue` among its
/// comma-separated items; no other field (a `Content-Length`, say) has any
/// say in it.
pub proof fn law_expects_100_continue(http_version: Seq<u8>, fields: Seq<FieldView>)
    ensures
        expects_100_continue(http_version, fields) <==> {
            &&& !lex_lt(http_version, seq![49u8, 46u8, 49u8])
            &&& exists|i: int|
                0 <= i < fields.len() && (#[trigger] fields[i]).1 == seq![
                    101u8,
                    120u8,
                    112u8,
                    101u8,
                    99u8,
                    116u8,
                ] && comma_items(fields[i].2).contains(
                    seq![49u8, 48u8, 48u8, 45u8, 99u8, 111u8, 110u8, 116u8, 105u8, 110u8, 117u8, 101u8],
                )
        },
{
    assert(http11() == seq![49u8, 46u8, 49u8]);
    assert(expect_name() == seq![101u8, 120u8, 112u8, 101u8, 99u8, 116u8]);
    assert(continue_token() == seq![
        49u8,
        48u8,
        48u8,
        45u8,
        99u8,
        111u8,
        110u8,
        116u8,
        105u8,
        110u8,
        117u8,
        101u8,
    ]);
    lemma_comma_values_contains(fields, expect_name(), continue_token());
}

/// Adding a field whose name is not `expect` never changes whether a
/// request waits for `100 Continue`, wherever the field is added.
pub proof fn law_expects_ignores_other_fields(
    http_version: Seq<u8>,
    before: Seq<FieldView>,
    field: FieldView,
    after: Seq<FieldView>,
)
    requires
        field.1 != seq![101u8, 120u8, 112u8, 101u8, 99u8, 116u8],
    ensures
        expects_100_continue(http_version, before + seq![field] + after) == expects_100_continue(
            http_version,
            before + after,
        ),
{
    let e = seq![101u8, 120u8, 112u8, 101u8, 99u8, 116u8];
    let t = seq![49u8, 48u8, 48u8, 45u8, 99u8, 111u8, 110u8, 116u8, 105u8, 110u8, 117u8, 101u8];
    let with = before + seq![field] + after;
    let without = before + after;
    law_expects_100_continue(http_version, with);
    law_expects_100_continue(http_version, without);
    let b = before.len();
    if exists|i: int| 0 <= i < with.len() && (#[trigger] with[i]).1 == e && comma_items(with[i].2).contains(t) {
        let i = choose|i: int| 0 <= i < with.len() && (#[trigger] with[i]).1 == e && comma_items(with[i].2).contains(t);
        if i < b {
            assert(without[i] == with[i]);
        } else {
            assert(i != b);
            assert(without[i - 1] == with[i]);
        }
    }
    if exists|i: int| 0 <= i < without.len() && (#[trigger] without[i]).1 == e && comma_items(without[i].2).contains(t) {
        let i = choose|i: int| 0 <= i < without.len() && (#[trigger] without[i]).1 == e && comma_items(without[i].2).contains(t);
        if i < b {
            assert(with[i] == without[i]);
        } else {
            assert(with[i + 1] == without[i]);
        }
    }
}

} // verus!
