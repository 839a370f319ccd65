//! Properties of header normalisation and of comma-separated headers that
//! hold across calls: the shape of every normalised collection, that
//! normalising it again changes nothing, and what replacing a
//! comma-separated header does to reading it back.

use crate::grammar::{is_digit, is_digits, is_field_value, is_field_vchar, is_tchar, is_token};
use crate::headers::{
    chunked_name, comma_items, comma_values, nonempty_only, content_length_name, length_parts, norm_run,
    norm_step, pairs_named, pairs_without, raw_pairs, spec_normalize, transfer_encoding_name,
    FieldView, HeaderFault, NormState, PairView, initial_state,
};
use crate::text::{is_ascii_ws, lower, lower_byte, split_on, trim, trim_end, trim_start};
use vstd::prelude::*;

verus! {

/// Some field has the lower-case name `n`.
pub open spec fn has_name(out: Seq<FieldView>, n: Seq<u8>) -> bool {
    exists|i: int| 0 <= i < out.len() && #[trigger] out[i].1 == n
}

/// Every stored lower-case name is the lower-casing of its raw name.
pub open spec fn names_normalized(out: Seq<FieldView>) -> bool {
    forall|i: int| 0 <= i < out.len() ==> (#[trigger] out[i]).1 == lower(out[i].0)
}

/// The shape of a normalised collection: names are lower-cased; there is at
/// most one `content-length`, whose value is decimal digits, and at most one
/// `transfer-encoding`, whose value is `chunked`; unless the fields came
/// from the wire, every raw name is a token and every value a field value.
pub open spec fn well_formed_fields(out: Seq<FieldView>, parsed: bool) -> bool {
    &&& names_normalized(out)
    &&& forall|i: int|
        0 <= i < out.len() && (#[trigger] out[i]).1 == content_length_name() ==> is_digits(out[i].2)
    &&& forall|i: int|
        0 <= i < out.len() && (#[trigger] out[i]).1 == transfer_encoding_name() ==> out[i].2
            == chunked_name()
    &&& forall|i: int, j: int|
        0 <= i < out.len() && 0 <= j < out.len() && (#[trigger] out[i]).1 == content_length_name()
            && (#[trigger] out[j]).1 == content_length_name() ==> i == j
    &&& forall|i: int, j: int|
        0 <= i < out.len() && 0 <= j < out.len() && (#[trigger] out[i]).1
            == transfer_encoding_name() && (#[trigger] out[j]).1 == transfer_encoding_name() ==> i
            == j
    &&& !parsed ==> forall|i: int|
        0 <= i < out.len() ==> is_token((#[trigger] out[i]).0) && is_field_value(out[i].2)
}

spec fn state_inv(st: NormState, parsed: bool) -> bool {
    &&& well_formed_fields(st.out, parsed)
    &&& (st.seen_content_length is None <==> !has_name(st.out, content_length_name()))
    &&& forall|i: int|
        0 <= i < st.out.len() && (#[trigger] st.out[i]).1 == content_length_name()
            ==> st.seen_content_length == Some(st.out[i].2)
    &&& (st.saw_transfer_encoding <==> has_name(st.out, transfer_encoding_name()))
}

proof fn lemma_digits_field_value(s: Seq<u8>)
    requires
        is_digits(s),
    ensures
        is_field_value(s),
{
    assert(is_digit(s[0]));
    assert(is_digit(s.last()));
}

proof fn lemma_chunked_facts()
    ensures
        is_field_value(chunked_name()),
        lower(chunked_name()) == chunked_name(),
        content_length_name() != transfer_encoding_name(),
        content_length_name().len() == 14,
        transfer_encoding_name().len() == 17,
{
    let c = chunked_name();
    assert forall|i: int| 0 <= i < c.len() implies is_field_vchar(#[trigger] c[i]) by {}
    assert(lower(c) =~= c);
    assert(content_length_name().len() != transfer_encoding_name().len());
}

proof fn lemma_lower_idempotent(s: Seq<u8>)
    ensures
        lower(lower(s)) == lower(s),
{
    assert(lower(lower(s)) =~= lower(s));
}

proof fn lemma_step_keeps_inv(st: NormState, name: Seq<u8>, value: Seq<u8>, parsed: bool)
    requires
        state_inv(st, parsed),
        norm_step(st, name, value, parsed) is Ok,
    ensures
        norm_step(st, name, value, parsed) matches Ok(st2) && state_inv(st2, parsed),
{
    lemma_chunked_facts();
    let lname = lower(name);
    let st2 = norm_step(st, name, value, parsed)->Ok_0;
    let n = st.out.len();
    if lname == content_length_name() {
        let parts = length_parts(value);
        if st.seen_content_length is None {
            let e = (name, lname, parts[0]);
            assert(st2.out == st.out.push(e));
            lemma_digits_field_value(parts[0]);
            assert forall|i: int, j: int|
                0 <= i < st2.out.len() && 0 <= j < st2.out.len() && (#[trigger] st2.out[i]).1
                    == content_length_name() && (#[trigger] st2.out[j]).1
                    == content_length_name() implies i == j by {
                if i < n && j < n {
                    assert(st.out[i] == st2.out[i] && st.out[j] == st2.out[j]);
                } else if i < n {
                    assert(st.out[i] == st2.out[i]);
                    assert(has_name(st.out, content_length_name()));
                } else if j < n {
                    assert(st.out[j] == st2.out[j]);
                    assert(has_name(st.out, content_length_name()));
                }
            }
            assert forall|i: int, j: int|
                0 <= i < st2.out.len() && 0 <= j < st2.out.len() && (#[trigger] st2.out[i]).1
                    == transfer_encoding_name() && (#[trigger] st2.out[j]).1
                    == transfer_encoding_name() implies i == j by {
                assert(i < n && j < n);
                assert(st.out[i] == st2.out[i] && st.out[j] == st2.out[j]);
            }
            assert(has_name(st2.out, content_length_name())) by {
                assert(st2.out[n as int].1 == content_length_name());
            }
            assert(has_name(st2.out, transfer_encoding_name()) ==> has_name(
                st.out,
                transfer_encoding_name(),
            )) by {
                if has_name(st2.out, transfer_encoding_name()) {
                    let i = choose|i: int|
                        0 <= i < st2.out.len() && #[trigger] st2.out[i].1
                            == transfer_encoding_name();
                    assert(i < n);
                    assert(st.out[i] == st2.out[i]);
                }
            }
            assert(has_name(st.out, transfer_encoding_name()) ==> has_name(
                st2.out,
                transfer_encoding_name(),
            )) by {
                if has_name(st.out, transfer_encoding_name()) {
                    let i = choose|i: int|
                        0 <= i < st.out.len() && #[trigger] st.out[i].1 == transfer_encoding_name();
                    assert(st2.out[i] == st.out[i]);
                }
            }
            assert forall|i: int|
                0 <= i < st2.out.len() && (#[trigger] st2.out[i]).1 == content_length_name()
                    implies st2.seen_content_length == Some(st2.out[i].2) by {
                if i < n {
                    assert(st.out[i] == st2.out[i]);
                    assert(has_name(st.out, content_length_name()));
                }
            }
        }
    } else if lname == transfer_encoding_name() {
        let e = (name, lname, lower(value));
        assert(st2.out == st.out.push(e));
        assert(!has_name(st.out, transfer_encoding_name()));
        assert forall|i: int, j: int|
            0 <= i < st2.out.len() && 0 <= j < st2.out.len() && (#[trigger] st2.out[i]).1
                == transfer_encoding_name() && (#[trigger] st2.out[j]).1
                == transfer_encoding_name() implies i == j by {
            if i < n && j < n {
                assert(st.out[i] == st2.out[i] && st.out[j] == st2.out[j]);
            } else if i < n {
                assert(st.out[i] == st2.out[i]);
                assert(has_name(st.out, transfer_encoding_name()));
            } else if j < n {
                assert(st.out[j] == st2.out[j]);
                assert(has_name(st.out, transfer_encoding_name()));
            }
        }
        assert forall|i: int, j: int|
            0 <= i < st2.out.len() && 0 <= j < st2.out.len() && (#[trigger] st2.out[i]).1
                == content_length_name() && (#[trigger] st2.out[j]).1
                == content_length_name() implies i == j by {
            assert(i < n && j < n);
            assert(st.out[i] == st2.out[i] && st.out[j] == st2.out[j]);
        }
        assert(has_name(st2.out, transfer_encoding_name())) by {
            assert(st2.out[n as int].1 == transfer_encoding_name());
        }
        assert(has_name(st2.out, content_length_name()) <==> has_name(
            st.out,
            content_length_name(),
        )) by {
            if has_name(st2.out, content_length_name()) {
                let i = choose|i: int|
                    0 <= i < st2.out.len() && #[trigger] st2.out[i].1 == content_length_name();
                assert(i < n);
                assert(st.out[i] == st2.out[i]);
            }
            if has_name(st.out, content_length_name()) {
                let i = choose|i: int|
                    0 <= i < st.out.len() && #[trigger] st.out[i].1 == content_length_name();
                assert(st2.out[i] == st.out[i]);
            }
        }
        assert forall|i: int|
            0 <= i < st2.out.len() && (#[trigger] st2.out[i]).1 == content_length_name()
                implies st2.seen_content_length == Some(st2.out[i].2) by {
            assert(i < n);
            assert(st.out[i] == st2.out[i]);
        }
    } else {
        let e = (name, lname, value);
        assert(st2.out == st.out.push(e));
        assert forall|i: int, j: int|
            0 <= i < st2.out.len() && 0 <= j < st2.out.len() && (#[trigger] st2.out[i]).1
                == content_length_name() && (#[trigger] st2.out[j]).1
                == content_length_name() implies i == j by {
            assert(i < n && j < n);
            assert(st.out[i] == st2.out[i] && st.out[j] == st2.out[j]);
        }
        assert forall|i: int, j: int|
            0 <= i < st2.out.len() && 0 <= j < st2.out.len() && (#[trigger] st2.out[i]).1
                == transfer_encoding_name() && (#[trigger] st2.out[j]).1
                == transfer_encoding_name() implies i == j by {
            assert(i < n && j < n);
            assert(st.out[i] == st2.out[i] && st.out[j] == st2.out[j]);
        }
        assert(has_name(st2.out, content_length_name()) <==> has_name(
            st.out,
            content_length_name(),
        )) by {
            if has_name(st2.out, content_length_name()) {
                let i = choose|i: int|
                    0 <= i < st2.out.len() && #[trigger] st2.out[i].1 == content_length_name();
                assert(i < n);
                assert(st.out[i] == st2.out[i]);
            }
            if has_name(st.out, content_length_name()) {
                let i = choose|i: int|
                    0 <= i < st.out.len() && #[trigger] st.out[i].1 == content_length_name();
                assert(st2.out[i] == st.out[i]);
            }
        }
        assert(has_name(st2.out, transfer_encoding_name()) <==> has_name(
            st.out,
            transfer_encoding_name(),
        )) by {
            if has_name(st2.out, transfer_encoding_name()) {
                let i = choose|i: int|
                    0 <= i < st2.out.len() && #[trigger] st2.out[i].1 == transfer_encoding_name();
                assert(i < n);
                assert(st.out[i] == st2.out[i]);
            }
            if has_name(st.out, transfer_encoding_name()) {
                let i = choose|i: int|
                    0 <= i < st.out.len() && #[trigger] st.out[i].1 == transfer_encoding_name();
                assert(st2.out[i] == st.out[i]);
            }
        }
        assert forall|i: int|
            0 <= i < st2.out.len() && (#[trigger] st2.out[i]).1 == content_length_name()
                implies st2.seen_content_length == Some(st2.out[i].2) by {
            assert(i < n);
            assert(st.out[i] == st2.out[i]);
        }
    }
}

proof fn lemma_run_inv(hs: Seq<PairView>, parsed: bool)
    ensures
        norm_run(hs, parsed) matches Ok(st) ==> state_inv(st, parsed),
    decreases hs.len(),
{
    if hs.len() == 0 {
        assert(!has_name(Seq::<FieldView>::empty(), content_length_name()));
        assert(!has_name(Seq::<FieldView>::empty(), transfer_encoding_name()));
    } else {
        lemma_run_inv(hs.drop_last(), parsed);
        if let Ok(st) = norm_run(hs.drop_last(), parsed) {
            if norm_step(st, hs.last().0, hs.last().1, parsed) is Ok {
                lemma_step_keeps_inv(st, hs.last().0, hs.last().1, parsed);
            }
        }
    }
}

/// Every collection that normalisation produces is well formed: names are
/// stored lower-cased beside the raw name, at most one `Content-Length`
/// remains and its value is decimal digits, at most one `Transfer-Encoding`
/// remains and its value is `chunked`, and (unless the fields came from the
/// wire) names are tokens and values are field values.
pub proof fn law_normalized_fields_well_formed(hs: Seq<PairView>, parsed: bool)
    ensures
        spec_normalize(hs, parsed) matches Ok(out) ==> well_formed_fields(out, parsed),
{
    lemma_run_inv(hs, parsed);
}

/// The `Content-Length` value among `out`, the last one if there were
/// several.
pub open spec fn cl_seen(out: Seq<FieldView>) -> Option<Seq<u8>>
    decreases out.len(),
{
    if out.len() == 0 {
        None
    } else if out.last().1 == content_length_name() {
        Some(out.last().2)
    } else {
        cl_seen(out.drop_last())
    }
}

proof fn lemma_cl_seen_has_name(out: Seq<FieldView>)
    ensures
        cl_seen(out) is Some ==> has_name(out, content_length_name()),
    decreases out.len(),
{
    if out.len() > 0 {
        lemma_cl_seen_has_name(out.drop_last());
        if out.last().1 == content_length_name() {
            assert(out[out.len() - 1].1 == content_length_name());
        } else if cl_seen(out) is Some {
            let i = choose|i: int|
                0 <= i < out.drop_last().len() && #[trigger] out.drop_last()[i].1
                    == content_length_name();
            assert(out[i] == out.drop_last()[i]);
        }
    }
}

/// The state that normalising the first `k` stored fields again reaches.
spec fn prefix_state(out: Seq<FieldView>, k: int) -> NormState {
    NormState {
        out: out.take(k),
        seen_content_length: cl_seen(out.take(k)),
        saw_transfer_encoding: has_name(out.take(k), transfer_encoding_name()),
    }
}

proof fn lemma_split_without_sep(s: Seq<u8>, sep: u8)
    requires
        forall|i: int| 0 <= i < s.len() ==> s[i] != sep,
    ensures
        split_on(s, sep) == seq![s],
    decreases s.len(),
{
    if s.len() > 0 {
        lemma_split_without_sep(s.drop_last(), sep);
        assert(s.drop_last().push(s.last()) =~= s);
        assert(split_on(s, sep) =~= seq![s]);
    } else {
        assert(s =~= Seq::<u8>::empty());
    }
}

proof fn lemma_digits_length_parts(s: Seq<u8>)
    requires
        is_digits(s),
    ensures
        length_parts(s) == seq![s],
{
    assert forall|i: int| 0 <= i < s.len() implies s[i] != 0x2Cu8 by {
        assert(is_digit(s[i]));
    }
    lemma_split_without_sep(s, 0x2Cu8);
    assert(is_digit(s[0]));
    assert(!is_ascii_ws(s[0]));
    assert(trim_start(s) == s);
    assert(is_digit(s.last()));
    assert(trim_end(s) == s);
    assert(trim(s) == s);
    assert(length_parts(s) =~= seq![s]);
}

proof fn lemma_rerun_prefix(out: Seq<FieldView>, parsed: bool, k: int)
    requires
        well_formed_fields(out, parsed),
        0 <= k <= out.len(),
    ensures
        norm_run(raw_pairs(out).take(k), parsed) == Ok::<NormState, HeaderFault>(
            prefix_state(out, k),
        ),
    decreases k,
{
    lemma_chunked_facts();
    let rp = raw_pairs(out);
    if k == 0 {
        assert(rp.take(0) =~= Seq::<PairView>::empty());
        assert(out.take(0) =~= Seq::<FieldView>::empty());
        assert(!has_name(out.take(0), transfer_encoding_name()));
        assert(prefix_state(out, 0) == initial_state());
    } else {
        lemma_rerun_prefix(out, parsed, k - 1);
        assert(rp.take(k).drop_last() =~= rp.take(k - 1));
        let e = out[k - 1];
        assert(rp.take(k).last() == (e.0, e.2));
        let before = prefix_state(out, k - 1);
        assert(out.take(k).drop_last() =~= out.take(k - 1));
        assert(out.take(k) =~= out.take(k - 1).push(e));
        assert(out.take(k).last() == e);
        assert(e.1 == lower(e.0));
        let after = norm_step(before, e.0, e.2, parsed);
        if e.1 == content_length_name() {
            lemma_digits_length_parts(e.2);
            lemma_cl_seen_has_name(out.take(k - 1));
            if cl_seen(out.take(k - 1)) is Some {
                let i = choose|i: int|
                    0 <= i < out.take(k - 1).len() && #[trigger] out.take(k - 1)[i].1
                        == content_length_name();
                assert(out[i] == out.take(k - 1)[i]);
                assert(out[k - 1].1 == content_length_name());
                assert(false);
            }
            assert(has_name(out.take(k), transfer_encoding_name()) == has_name(
                out.take(k - 1),
                transfer_encoding_name(),
            )) by {
                if has_name(out.take(k), transfer_encoding_name()) {
                    let i = choose|i: int|
                        0 <= i < out.take(k).len() && #[trigger] out.take(k)[i].1
                            == transfer_encoding_name();
                    assert(i < k - 1);
                    assert(out.take(k - 1)[i] == out.take(k)[i]);
                }
                if has_name(out.take(k - 1), transfer_encoding_name()) {
                    let i = choose|i: int|
                        0 <= i < out.take(k - 1).len() && #[trigger] out.take(k - 1)[i].1
                            == transfer_encoding_name();
                    assert(out.take(k)[i] == out.take(k - 1)[i]);
                }
            }
            assert(after == Ok::<NormState, HeaderFault>(prefix_state(out, k)));
        } else if e.1 == transfer_encoding_name() {
            if has_name(out.take(k - 1), transfer_encoding_name()) {
                let i = choose|i: int|
                    0 <= i < out.take(k - 1).len() && #[trigger] out.take(k - 1)[i].1
                        == transfer_encoding_name();
                assert(out[i] == out.take(k - 1)[i]);
                assert(out[k - 1].1 == transfer_encoding_name());
                assert(false);
            }
            assert(has_name(out.take(k), transfer_encoding_name())) by {
                assert(out.take(k)[k - 1].1 == transfer_encoding_name());
            }
            assert(after == Ok::<NormState, HeaderFault>(prefix_state(out, k)));
        } else {
            assert(has_name(out.take(k), transfer_encoding_name()) == has_name(
                out.take(k - 1),
                transfer_encoding_name(),
            )) by {
                if has_name(out.take(k), transfer_encoding_name()) {
                    let i = choose|i: int|
                        0 <= i < out.take(k).len() && #[trigger] out.take(k)[i].1
                            == transfer_encoding_name();
                    assert(i < k - 1);
                    assert(out.take(k - 1)[i] == out.take(k)[i]);
                }
                if has_name(out.take(k - 1), transfer_encoding_name()) {
                    let i = choose|i: int|
                        0 <= i < out.take(k - 1).len() && #[trigger] out.take(k - 1)[i].1
                            == transfer_encoding_name();
                    assert(out.take(k)[i] == out.take(k - 1)[i]);
                }
            }
            assert(after == Ok::<NormState, HeaderFault>(prefix_state(out, k)));
        }
    }
}

/// Normalising again what normalisation produced (each field's raw name
/// with its stored value) gives the same fields back, with or without the
/// syntax checks.
pub proof fn law_normalize_idempotent(hs: Seq<PairView>, parsed: bool)
    ensures
        spec_normalize(hs, parsed) matches Ok(out) ==> spec_normalize(raw_pairs(out), parsed)
            == Ok::<Seq<FieldView>, HeaderFault>(out),
{
    lemma_run_inv(hs, parsed);
    if let Ok(out) = spec_normalize(hs, parsed) {
        lemma_rerun_prefix(out, parsed, out.len() as int);
        assert(raw_pairs(out).take(out.len() as int) =~= raw_pairs(out));
        assert(out.take(out.len() as int) =~= out);
    }
}

/// The items of every given pair whose name, lower-cased, is `lname`, pair
/// after pair.
pub open spec fn input_comma_values(hs: Seq<PairView>, lname: Seq<u8>) -> Seq<Seq<u8>>
    decreases hs.len(),
{
    if hs.len() == 0 {
        Seq::empty()
    } else if lower(hs.last().0) == lname {
        input_comma_values(hs.drop_last(), lname) + comma_items(hs.last().1)
    } else {
        input_comma_values(hs.drop_last(), lname)
    }
}

/// The items of each value, value after value.
pub open spec fn all_comma_items(values: Seq<Seq<u8>>) -> Seq<Seq<u8>>
    decreases values.len(),
{
    if values.len() == 0 {
        Seq::empty()
    } else {
        all_comma_items(values.drop_last()) + comma_items(values.last())
    }
}

proof fn lemma_comma_values_push(out: Seq<FieldView>, e: FieldView, lname: Seq<u8>)
    ensures
        comma_values(out.push(e), lname) == comma_values(out, lname) + (if e.1 == lname {
            comma_items(e.2)
        } else {
            Seq::empty()
        }),
{
    assert(out.push(e).drop_last() =~= out);
    if e.1 != lname {
        assert(comma_values(out, lname) + Seq::<Seq<u8>>::empty() =~= comma_values(out, lname));
    }
}

/// Outside `Content-Length`, normalisation keeps every comma-separated item
/// of the fields it is given.
proof fn lemma_comma_values_follow_input(hs: Seq<PairView>, parsed: bool, lname: Seq<u8>)
    requires
        lname != content_length_name(),
    ensures
        norm_run(hs, parsed) matches Ok(st) ==> comma_values(st.out, lname) == input_comma_values(
            hs,
            lname,
        ),
    decreases hs.len(),
{
    if hs.len() == 0 {
        assert(initial_state().out =~= Seq::<FieldView>::empty());
    } else {
        lemma_comma_values_follow_input(hs.drop_last(), parsed, lname);
        if let Ok(st) = norm_run(hs.drop_last(), parsed) {
            let name = hs.last().0;
            let value = hs.last().1;
            let ln = lower(name);
            if let Ok(st2) = norm_step(st, name, value, parsed) {
                let prev = input_comma_values(hs.drop_last(), lname);
                if ln == content_length_name() {
                    if st2.out != st.out {
                        lemma_comma_values_push(st.out, (name, ln, length_parts(value)[0]), lname);
                    }
                    assert(prev + Seq::<Seq<u8>>::empty() =~= prev);
                } else if ln == transfer_encoding_name() {
                    lemma_comma_values_push(st.out, (name, ln, lower(value)), lname);
                    lemma_lower_idempotent(value);
                    assert(comma_items(lower(value)) == comma_items(value));
                    if ln != lname {
                        assert(prev + Seq::<Seq<u8>>::empty() =~= prev);
                    }
                } else {
                    lemma_comma_values_push(st.out, (name, ln, value), lname);
                    if ln != lname {
                        assert(prev + Seq::<Seq<u8>>::empty() =~= prev);
                    }
                }
            }
        }
    }
}

proof fn lemma_input_comma_values_append(a: Seq<PairView>, b: Seq<PairView>, lname: Seq<u8>)
    ensures
        input_comma_values(a + b, lname) == input_comma_values(a, lname) + input_comma_values(
            b,
            lname,
        ),
    decreases b.len(),
{
    if b.len() == 0 {
        assert(a + b =~= a);
        assert(input_comma_values(a, lname) + Seq::<Seq<u8>>::empty() =~= input_comma_values(
            a,
            lname,
        ));
    } else {
        lemma_input_comma_values_append(a, b.drop_last(), lname);
        assert((a + b).drop_last() =~= a + b.drop_last());
        assert((a + b).last() == b.last());
        assert(input_comma_values(a + b, lname) =~= input_comma_values(a, lname)
            + input_comma_values(b, lname));
    }
}

proof fn lemma_lower_of_normalized_name(fields: Seq<FieldView>, i: int)
    requires
        names_normalized(fields),
        0 <= i < fields.len(),
    ensures
        lower(fields[i].1) == fields[i].1,
{
    assert(fields[i].1 == lower(fields[i].0));
    lemma_lower_idempotent(fields[i].0);
}

proof fn lemma_without_keeps_others(fields: Seq<FieldView>, name: Seq<u8>, other: Seq<u8>)
    requires
        names_normalized(fields),
        other != name,
    ensures
        input_comma_values(pairs_without(fields, name), other) == comma_values(fields, other),
        input_comma_values(pairs_without(fields, name), name) == Seq::<Seq<u8>>::empty(),
    decreases fields.len(),
{
    if fields.len() > 0 {
        let init = fields.drop_last();
        assert forall|i: int| 0 <= i < init.len() implies (#[trigger] init[i]).1 == lower(
            init[i].0,
        ) by {
            assert(init[i] == fields[i]);
        }
        lemma_without_keeps_others(init, name, other);
        let last = fields.last();
        lemma_lower_of_normalized_name(fields, fields.len() - 1);
        if last.1 != name {
            let rest = pairs_without(init, name);
            assert(pairs_without(fields, name) == rest.push((last.1, last.2)));
            assert(rest.push((last.1, last.2)).drop_last() =~= rest);
            if last.1 != other {
                let c = comma_values(init, other);
                assert(c + Seq::<Seq<u8>>::empty() =~= c);
            }
        } else {
            let c = comma_values(init, other);
            assert(c + Seq::<Seq<u8>>::empty() =~= c);
        }
    }
}

proof fn lemma_named_items(name: Seq<u8>, values: Seq<Seq<u8>>, other: Seq<u8>)
    ensures
        input_comma_values(pairs_named(name, values), lower(name)) == all_comma_items(values),
        other != lower(name) ==> input_comma_values(pairs_named(name, values), other)
            == Seq::<Seq<u8>>::empty(),
    decreases values.len(),
{
    if values.len() > 0 {
        lemma_named_items(name, values.drop_last(), other);
        assert(pairs_named(name, values).drop_last() =~= pairs_named(name, values.drop_last()));
        assert(pairs_named(name, values).last() == (name, values.last()));
        if other != lower(name) {
            assert(Seq::<Seq<u8>>::empty() + Seq::<Seq<u8>>::empty() =~= Seq::<Seq<u8>>::empty());
        }
    } else {
        assert(pairs_named(name, values) =~= Seq::<PairView>::empty());
    }
}

/// Replacing a comma-separated header and reading it back gives exactly the
/// items of the new values, in order: every earlier field of that name, in
/// any case, is gone. It holds for any name but `content-length` (whose
/// values are merged), in a collection whose stored names are lower-cased.
pub proof fn law_set_then_get_comma_header(
    fields: Seq<FieldView>,
    name: Seq<u8>,
    values: Seq<Seq<u8>>,
)
    requires
        names_normalized(fields),
        lower(name) != content_length_name(),
    ensures
        spec_normalize(pairs_without(fields, lower(name)) + pairs_named(name, values), false)
            matches Ok(out) ==> comma_values(out, lower(name)) == all_comma_items(values),
{
    let lname = lower(name);
    let hs = pairs_without(fields, lname) + pairs_named(name, values);
    lemma_comma_values_follow_input(hs, false, lname);
    lemma_input_comma_values_append(pairs_without(fields, lname), pairs_named(name, values), lname);
    lemma_without_keeps_others(fields, lname, content_length_name());
    lemma_named_items(name, values, content_length_name());
    assert(Seq::<Seq<u8>>::empty() + all_comma_items(values) =~= all_comma_items(values));
}

/// Replacing one comma-separated header leaves every other header's items
/// as they were (other than `content-length`, whose values are merged), in
/// a collection whose stored names are lower-cased.
pub proof fn law_set_comma_header_keeps_others(
    fields: Seq<FieldView>,
    name: Seq<u8>,
    values: Seq<Seq<u8>>,
    other: Seq<u8>,
)
    requires
        names_normalized(fields),
        other != lower(name),
        other != content_length_name(),
    ensures
        spec_normalize(pairs_without(fields, lower(name)) + pairs_named(name, values), false)
            matches Ok(out) ==> comma_values(out, other) == comma_values(fields, other),
{
    let lname = lower(name);
    let hs = pairs_without(fields, lname) + pairs_named(name, values);
    lemma_comma_values_follow_input(hs, false, other);
    lemma_input_comma_values_append(pairs_without(fields, lname), pairs_named(name, values), other);
    lemma_without_keeps_others(fields, lname, other);
    lemma_named_items(name, values, other);
    let c = comma_values(fields, other);
    assert(c + Seq::<Seq<u8>>::empty() =~= c);
}

/// The field that normalisation stores for the pair `(name, value)` when
/// the name is not `content-length`.
pub open spec fn stored_field(p: PairView) -> FieldView {
    let lname = lower(p.0);
    (p.0, lname, if lname == transfer_encoding_name() {
        lower(p.1)
    } else {
        p.1
    })
}

proof fn lemma_run_keeps_fields(hs: Seq<PairView>, parsed: bool)
    requires
        forall|i: int| 0 <= i < hs.len() ==> lower((#[trigger] hs[i]).0) != content_length_name(),
    ensures
        norm_run(hs, parsed) matches Ok(st) ==> st.out == hs.map_values(
            |p: PairView| stored_field(p),
        ),
    decreases hs.len(),
{
    if hs.len() == 0 {
        assert(initial_state().out =~= hs.map_values(|p: PairView| stored_field(p)));
    } else {
        let init = hs.drop_last();
        assert forall|i: int| 0 <= i < init.len() implies lower((#[trigger] init[i]).0)
            != content_length_name() by {
            assert(init[i] == hs[i]);
        }
        lemma_run_keeps_fields(init, parsed);
        assert(lower(hs[hs.len() - 1].0) != content_length_name());
        if let Ok(st) = norm_run(hs, parsed) {
            assert(hs.map_values(|p: PairView| stored_field(p)) =~= init.map_values(
                |p: PairView| stored_field(p),
            ).push(stored_field(hs.last())));
        }
    }
}

/// Normalisation keeps the raw casing of every name and the order of the
/// fields: with no `Content-Length` among them (whose repeats are merged),
/// the stored fields are the given ones, each with its raw name, its name
/// lower-cased, and its value (lower-cased for `Transfer-Encoding`).
pub proof fn law_normalize_keeps_fields(hs: Seq<PairView>, parsed: bool)
    requires
        forall|i: int| 0 <= i < hs.len() ==> lower((#[trigger] hs[i]).0) != content_length_name(),
    ensures
        spec_normalize(hs, parsed) matches Ok(out) ==> out == hs.map_values(
            |p: PairView| stored_field(p),
        ),
{
    lemma_run_keeps_fields(hs, parsed);
}

/// A comma-separated item as reading a header gives it: not empty, no
/// comma, no ASCII upper-case letter, no whitespace at either end.
pub open spec fn is_clean_item(x: Seq<u8>) -> bool {
    &&& x.len() > 0
    &&& forall|k: int| 0 <= k < x.len() ==> (#[trigger] x[k]) != 0x2Cu8 && lower_byte(x[k]) == x[k]
    &&& !is_ascii_ws(x[0])
    &&& !is_ascii_ws(x.last())
}

/// Every byte of `s` is a fixed point of lower-casing and, if `no_comma`,
/// not a comma.
spec fn bytes_ok(s: Seq<u8>, no_comma: bool) -> bool {
    forall|k: int| 0 <= k < s.len() ==> lower_byte(#[trigger] s[k]) == s[k] && (no_comma ==> s[k]
        != 0x2Cu8)
}

proof fn lemma_split_pieces_ok(s: Seq<u8>)
    requires
        bytes_ok(s, false),
    ensures
        forall|i: int| 0 <= i < split_on(s, 0x2Cu8).len() ==> bytes_ok(
            #[trigger] split_on(s, 0x2Cu8)[i],
            true,
        ),
    decreases s.len(),
{
    if s.len() > 0 {
        let init = s.drop_last();
        assert(bytes_ok(init, false)) by {
            assert forall|k: int| 0 <= k < init.len() implies lower_byte(#[trigger] init[k])
                == init[k] by {
                assert(init[k] == s[k]);
            }
        }
        lemma_split_pieces_ok(init);
        crate::text::lemma_split_on_nonempty(init, 0x2Cu8);
        let pieces = split_on(init, 0x2Cu8);
        if s.last() != 0x2Cu8 {
            let j = pieces.len() - 1;
            assert(bytes_ok(pieces[j], true));
            assert(lower_byte(s[s.len() - 1]) == s[s.len() - 1]);
            assert(bytes_ok(pieces.last().push(s.last()), true));
        } else {
            assert(bytes_ok(Seq::<u8>::empty(), true));
        }
    }
}

proof fn lemma_trim_start_suffix(s: Seq<u8>)
    ensures
        trim_start(s).len() <= s.len(),
        trim_start(s) == s.subrange(s.len() - trim_start(s).len(), s.len() as int),
        trim_start(s).len() > 0 ==> !is_ascii_ws(trim_start(s)[0]),
    decreases s.len(),
{
    if s.len() > 0 && is_ascii_ws(s[0]) {
        lemma_trim_start_suffix(s.drop_first());
        assert(s.drop_first().subrange(
            s.drop_first().len() - trim_start(s).len(),
            s.drop_first().len() as int,
        ) =~= s.subrange(s.len() - trim_start(s).len(), s.len() as int));
    } else {
        assert(s.subrange(0, s.len() as int) =~= s);
    }
}

proof fn lemma_trim_end_prefix(s: Seq<u8>)
    ensures
        trim_end(s).len() <= s.len(),
        trim_end(s) == s.subrange(0, trim_end(s).len() as int),
        trim_end(s).len() > 0 ==> !is_ascii_ws(trim_end(s).last()),
    decreases s.len(),
{
    if s.len() > 0 && is_ascii_ws(s.last()) {
        lemma_trim_end_prefix(s.drop_last());
        assert(s.drop_last().subrange(0, trim_end(s).len() as int) =~= s.subrange(
            0,
            trim_end(s).len() as int,
        ));
    } else {
        assert(s.subrange(0, s.len() as int) =~= s);
    }
}

proof fn lemma_trimmed_clean(x: Seq<u8>)
    requires
        bytes_ok(x, true),
        trim(x).len() > 0,
    ensures
        is_clean_item(trim(x)),
{
    let z = trim_start(x);
    lemma_trim_start_suffix(x);
    lemma_trim_end_prefix(z);
    let y = trim(x);
    let off = x.len() - z.len();
    assert forall|k: int| 0 <= k < y.len() implies (#[trigger] y[k]) != 0x2Cu8 && lower_byte(y[k])
        == y[k] by {
        assert(y[k] == z[k]);
        assert(z[k] == x[off + k]);
    }
    assert(y[0] == z[0]);
}

proof fn lemma_nonempty_only_clean(s: Seq<Seq<u8>>)
    requires
        forall|i: int| 0 <= i < s.len() && (#[trigger] s[i]).len() > 0 ==> is_clean_item(s[i]),
    ensures
        forall|i: int| 0 <= i < nonempty_only(s).len() ==> is_clean_item(
            #[trigger] nonempty_only(s)[i],
        ),
    decreases s.len(),
{
    if s.len() > 0 {
        let init = s.drop_last();
        assert forall|i: int| 0 <= i < init.len() && (#[trigger] init[i]).len() > 0 implies is_clean_item(
            init[i],
        ) by {
            assert(init[i] == s[i]);
        }
        lemma_nonempty_only_clean(init);
        assert(s.last() == s[s.len() - 1]);
        let prev = nonempty_only(init);
        if s.last().len() > 0 {
            assert forall|i: int| 0 <= i < nonempty_only(s).len() implies is_clean_item(
                #[trigger] nonempty_only(s)[i],
            ) by {
                assert(nonempty_only(s) == prev.push(s.last()));
                if i < prev.len() {
                    assert(nonempty_only(s)[i] == prev[i]);
                }
            }
        }
    }
}

proof fn lemma_comma_items_clean(value: Seq<u8>)
    ensures
        forall|i: int| 0 <= i < comma_items(value).len() ==> is_clean_item(
            #[trigger] comma_items(value)[i],
        ),
{
    let lv = lower(value);
    assert(bytes_ok(lv, false)) by {
        assert forall|k: int| 0 <= k < lv.len() implies lower_byte(#[trigger] lv[k]) == lv[k] by {
            assert(lv[k] == lower_byte(value[k]));
        }
    }
    lemma_split_pieces_ok(lv);
    let pieces = split_on(lv, 0x2Cu8);
    let trimmed = pieces.map_values(|p: Seq<u8>| trim(p));
    assert forall|i: int| 0 <= i < trimmed.len() && (#[trigger] trimmed[i]).len() > 0 implies is_clean_item(
        trimmed[i],
    ) by {
        assert(bytes_ok(pieces[i], true));
        lemma_trimmed_clean(pieces[i]);
    }
    lemma_nonempty_only_clean(trimmed);
}

/// Every item that reading a comma-separated header gives is non-empty,
/// lower-case, free of commas and trimmed of ASCII whitespace.
pub proof fn law_comma_values_clean(fields: Seq<FieldView>, lname: Seq<u8>)
    ensures
        forall|i: int| 0 <= i < comma_values(fields, lname).len() ==> is_clean_item(
            #[trigger] comma_values(fields, lname)[i],
        ),
    decreases fields.len(),
{
    if fields.len() > 0 {
        law_comma_values_clean(fields.drop_last(), lname);
        lemma_comma_items_clean(fields.last().2);
        let a = comma_values(fields.drop_last(), lname);
        let b = comma_items(fields.last().2);
        if fields.last().1 == lname {
            assert forall|i: int| 0 <= i < (a + b).len() implies is_clean_item(
                #[trigger] (a + b)[i],
            ) by {
                if i < a.len() {
                    assert((a + b)[i] == a[i]);
                } else {
                    assert((a + b)[i] == b[i - a.len()]);
                }
            }
        }
    }
}

/// The values of the fields whose lower-case name is `n`, in order.
pub open spec fn values_named(fields: Seq<FieldView>, n: Seq<u8>) -> Seq<Seq<u8>>
    decreases fields.len(),
{
    if fields.len() == 0 {
        Seq::empty()
    } else if fields.last().1 == n {
        values_named(fields.drop_last(), n).push(fields.last().2)
    } else {
        values_named(fields.drop_last(), n)
    }
}

/// Pairs that normalisation stores as they are: names are tokens and values
/// field values; a `content-length` value is decimal digits and a
/// `transfer-encoding` value is `chunked`; each of those two names occurs at
/// most once (in any case).
pub open spec fn clean_pairs(hs: Seq<PairView>) -> bool {
    &&& forall|i: int|
        0 <= i < hs.len() ==> is_token((#[trigger] hs[i]).0) && is_field_value(hs[i].1)
    &&& forall|i: int|
        0 <= i < hs.len() && lower((#[trigger] hs[i]).0) == content_length_name() ==> is_digits(
            hs[i].1,
        )
    &&& forall|i: int|
        0 <= i < hs.len() && lower((#[trigger] hs[i]).0) == transfer_encoding_name() ==> hs[i].1
            == chunked_name()
    &&& forall|i: int, j: int|
        0 <= i < hs.len() && 0 <= j < hs.len() && lower((#[trigger] hs[i]).0)
            == content_length_name() && lower((#[trigger] hs[j]).0) == content_length_name() ==> i
            == j
    &&& forall|i: int, j: int|
        0 <= i < hs.len() && 0 <= j < hs.len() && lower((#[trigger] hs[i]).0)
            == transfer_encoding_name() && lower((#[trigger] hs[j]).0) == transfer_encoding_name()
            ==> i == j
}

/// Pairs none of which is named `content-length` or `transfer-encoding`.
spec fn no_framing_names(hs: Seq<PairView>) -> bool {
    forall|i: int|
        0 <= i < hs.len() ==> lower((#[trigger] hs[i]).0) != content_length_name() && lower(
            hs[i].0,
        ) != transfer_encoding_name()
}

/// Clean pairs are accepted, each stored as `stored_field` says.
pub proof fn law_clean_pairs_accepted(hs: Seq<PairView>, parsed: bool)
    requires
        clean_pairs(hs),
    ensures
        spec_normalize(hs, parsed) == Ok::<Seq<FieldView>, HeaderFault>(
            hs.map_values(|p: PairView| stored_field(p)),
        ),
{
    lemma_chunked_facts();
    let out = hs.map_values(|p: PairView| stored_field(p));
    assert forall|i: int| 0 <= i < out.len() implies (#[trigger] out[i]).2 == hs[i].1 by {
        if lower(hs[i].0) == transfer_encoding_name() {
            assert(hs[i].1 == chunked_name());
        }
    }
    assert(well_formed_fields(out, parsed)) by {
        assert forall|i: int, j: int|
            0 <= i < out.len() && 0 <= j < out.len() && (#[trigger] out[i]).1
                == content_length_name() && (#[trigger] out[j]).1 == content_length_name()
                implies i == j by {
            assert(lower(hs[i].0) == content_length_name());
            assert(lower(hs[j].0) == content_length_name());
        }
        assert forall|i: int, j: int|
            0 <= i < out.len() && 0 <= j < out.len() && (#[trigger] out[i]).1
                == transfer_encoding_name() && (#[trigger] out[j]).1 == transfer_encoding_name()
                implies i == j by {
            assert(lower(hs[i].0) == transfer_encoding_name());
            assert(lower(hs[j].0) == transfer_encoding_name());
        }
    }
    assert(raw_pairs(out) =~= hs);
    lemma_rerun_prefix(out, parsed, out.len() as int);
    assert(raw_pairs(out).take(out.len() as int) =~= raw_pairs(out));
    assert(out.take(out.len() as int) =~= out);
}

proof fn lemma_lower_token(s: Seq<u8>)
    requires
        is_token(s),
    ensures
        is_token(lower(s)),
{
    assert forall|i: int| 0 <= i < lower(s).len() implies is_tchar(#[trigger] lower(s)[i]) by {
        assert(is_tchar(s[i]));
    }
}

proof fn lemma_without_from_fields(fields: Seq<FieldView>, n: Seq<u8>)
    ensures
        forall|i: int|
            0 <= i < pairs_without(fields, n).len() ==> exists|j: int|
                0 <= j < fields.len() && #[trigger] pairs_without(fields, n)[i] == (
                    #[trigger] fields[j].1,
                    fields[j].2,
                ),
    decreases fields.len(),
{
    if fields.len() > 0 {
        let init = fields.drop_last();
        lemma_without_from_fields(init, n);
        let p = pairs_without(init, n);
        assert forall|i: int| 0 <= i < pairs_without(fields, n).len() implies exists|j: int|
            0 <= j < fields.len() && #[trigger] pairs_without(fields, n)[i] == (
                #[trigger] fields[j].1,
                fields[j].2,
            ) by {
            if i < p.len() {
                let j = choose|j: int|
                    0 <= j < init.len() && #[trigger] p[i] == (#[trigger] init[j].1, init[j].2);
                assert(fields[j] == init[j]);
                assert(pairs_without(fields, n)[i] == p[i]);
            } else {
                let j = fields.len() - 1;
                assert(pairs_without(fields, n)[i] == (fields[j].1, fields[j].2));
            }
        }
    }
}

proof fn lemma_clean_push(p: Seq<PairView>, e: PairView)
    requires
        clean_pairs(p),
        is_token(e.0),
        is_field_value(e.1),
        lower(e.0) == content_length_name() ==> is_digits(e.1) && forall|i: int|
            0 <= i < p.len() ==> lower((#[trigger] p[i]).0) != content_length_name(),
        lower(e.0) == transfer_encoding_name() ==> e.1 == chunked_name() && forall|i: int|
            0 <= i < p.len() ==> lower((#[trigger] p[i]).0) != transfer_encoding_name(),
    ensures
        clean_pairs(p.push(e)),
{
    let q = p.push(e);
    assert forall|i: int| 0 <= i < p.len() implies #[trigger] q[i] == p[i] by {}
}

proof fn lemma_without_clean(fields: Seq<FieldView>, n: Seq<u8>)
    requires
        well_formed_fields(fields, false),
    ensures
        clean_pairs(pairs_without(fields, n)),
    decreases fields.len(),
{
    if fields.len() > 0 {
        let init = fields.drop_last();
        assert(well_formed_fields(init, false)) by {
            assert forall|i: int| 0 <= i < init.len() implies #[trigger] init[i] == fields[i] by {}
        }
        lemma_without_clean(init, n);
        let last = fields.last();
        let k = fields.len() - 1;
        assert(last == fields[k]);
        if last.1 != n {
            let p = pairs_without(init, n);
            lemma_lower_of_normalized_name(fields, k);
            lemma_lower_token(last.0);
            lemma_without_from_fields(init, n);
            assert forall|i: int| 0 <= i < p.len() && lower(last.1) == content_length_name() implies lower(
                (#[trigger] p[i]).0,
            ) != content_length_name() by {
                let j = choose|j: int|
                    0 <= j < init.len() && #[trigger] p[i] == (#[trigger] init[j].1, init[j].2);
                assert(init[j] == fields[j]);
                lemma_lower_of_normalized_name(fields, j);
            }
            assert forall|i: int| 0 <= i < p.len() && lower(last.1) == transfer_encoding_name() implies lower(
                (#[trigger] p[i]).0,
            ) != transfer_encoding_name() by {
                let j = choose|j: int|
                    0 <= j < init.len() && #[trigger] p[i] == (#[trigger] init[j].1, init[j].2);
                assert(init[j] == fields[j]);
                lemma_lower_of_normalized_name(fields, j);
            }
            lemma_clean_push(p, (last.1, last.2));
        }
    }
}

proof fn lemma_clean_append(a: Seq<PairView>, b: Seq<PairView>)
    requires
        clean_pairs(a),
        clean_pairs(b),
        no_framing_names(b),
    ensures
        clean_pairs(a + b),
{
    let c = a + b;
    assert forall|i: int| 0 <= i < c.len() implies #[trigger] c[i] == (if i < a.len() {
        a[i]
    } else {
        b[i - a.len()]
    }) by {}
}

proof fn lemma_values_named_append(a: Seq<FieldView>, b: Seq<FieldView>, n: Seq<u8>)
    ensures
        values_named(a + b, n) == values_named(a, n) + values_named(b, n),
    decreases b.len(),
{
    if b.len() == 0 {
        assert(a + b =~= a);
        assert(values_named(a, n) + Seq::<Seq<u8>>::empty() =~= values_named(a, n));
    } else {
        lemma_values_named_append(a, b.drop_last(), n);
        assert((a + b).drop_last() =~= a + b.drop_last());
        assert((a + b).last() == b.last());
        assert(values_named(a + b, n) =~= values_named(a, n) + values_named(b, n));
    }
}

proof fn lemma_without_values_named(fields: Seq<FieldView>, n: Seq<u8>, other: Seq<u8>)
    requires
        well_formed_fields(fields, false),
        other != n,
    ensures
        values_named(pairs_without(fields, n).map_values(|p: PairView| stored_field(p)), other)
            == values_named(fields, other),
    decreases fields.len(),
{
    lemma_chunked_facts();
    if fields.len() > 0 {
        let init = fields.drop_last();
        assert(well_formed_fields(init, false)) by {
            assert forall|i: int| 0 <= i < init.len() implies #[trigger] init[i] == fields[i] by {}
        }
        lemma_without_values_named(init, n, other);
        let last = fields.last();
        let k = fields.len() - 1;
        assert(last == fields[k]);
        lemma_lower_of_normalized_name(fields, k);
        let p = pairs_without(init, n);
        if last.1 != n {
            let e = (last.1, last.2);
            assert(stored_field(e) == (last.1, last.1, last.2));
            assert(p.push(e).map_values(|q: PairView| stored_field(q)) =~= p.map_values(
                |q: PairView| stored_field(q),
            ).push((last.1, last.1, last.2)));
            assert(p.map_values(|q: PairView| stored_field(q)).push((last.1, last.1, last.2)).drop_last()
                =~= p.map_values(|q: PairView| stored_field(q)));
        }
    }
}

proof fn lemma_named_stored(name: Seq<u8>, values: Seq<Seq<u8>>, other: Seq<u8>)
    requires
        other != lower(name),
    ensures
        values_named(pairs_named(name, values).map_values(|p: PairView| stored_field(p)), other)
            == Seq::<Seq<u8>>::empty(),
    decreases values.len(),
{
    if values.len() > 0 {
        lemma_named_stored(name, values.drop_last(), other);
        let m = pairs_named(name, values).map_values(|p: PairView| stored_field(p));
        assert(m.drop_last() =~= pairs_named(name, values.drop_last()).map_values(
            |p: PairView| stored_field(p),
        ));
        assert(m.last().1 == lower(name));
    }
}

/// Replacing a comma-separated header in a collection that `Headers::new`
/// built, under a token name other than `content-length` and
/// `transfer-encoding` with field values, succeeds; reading the header back
/// gives exactly the items of the new values; and every other name keeps
/// its values, in order.
pub proof fn law_set_comma_header_succeeds(
    fields: Seq<FieldView>,
    name: Seq<u8>,
    values: Seq<Seq<u8>>,
)
    requires
        well_formed_fields(fields, false),
        is_token(name),
        lower(name) != content_length_name(),
        lower(name) != transfer_encoding_name(),
        forall|k: int| 0 <= k < values.len() ==> is_field_value(#[trigger] values[k]),
    ensures
        ({
            let r = spec_normalize(
                pairs_without(fields, lower(name)) + pairs_named(name, values),
                false,
            );
            &&& r is Ok
            &&& comma_values(r->Ok_0, lower(name)) == all_comma_items(values)
            &&& forall|other: Seq<u8>|
                other != lower(name) ==> #[trigger] values_named(r->Ok_0, other) == values_named(
                    fields,
                    other,
                )
        }),
{
    let lname = lower(name);
    let a = pairs_without(fields, lname);
    let b = pairs_named(name, values);
    lemma_without_clean(fields, lname);
    assert(clean_pairs(b)) by {
        assert forall|i: int| 0 <= i < b.len() implies (#[trigger] b[i]) == (name, values[i]) by {}
    }
    assert(no_framing_names(b)) by {
        assert forall|i: int| 0 <= i < b.len() implies (#[trigger] b[i]) == (name, values[i]) by {}
    }
    lemma_clean_append(a, b);
    law_clean_pairs_accepted(a + b, false);
    law_set_then_get_comma_header(fields, name, values);
    let out = (a + b).map_values(|p: PairView| stored_field(p));
    assert(out =~= a.map_values(|p: PairView| stored_field(p)) + b.map_values(
        |p: PairView| stored_field(p),
    ));
    assert forall|other: Seq<u8>| other != lname implies #[trigger] values_named(out, other)
        == values_named(fields, other) by {
        lemma_values_named_append(
            a.map_values(|p: PairView| stored_field(p)),
            b.map_values(|p: PairView| stored_field(p)),
            other,
        );
        lemma_without_values_named(fields, lname, other);
        lemma_named_stored(name, values, other);
        let c = values_named(fields, other);
        assert(c + Seq::<Seq<u8>>::empty() =~= c);
    }
}

} // verus!
