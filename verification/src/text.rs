//! Byte-string helpers: ASCII case folding, whitespace trimming, splitting on
//! a separator, and decimal rendering of integers.

use vstd::prelude::*;
use vstd::slice::slice_to_vec;
use vstd::string::StringExecFns;
use vstd::utf8::encode_utf8;

verus! {

/// A value that can be read as a byte string: owned bytes, a byte slice or
/// array, or text (read as its UTF-8 encoding).
pub trait ByteSource {
    /// The bytes this value stands for.
    spec fn byte_view(&self) -> Seq<u8>;

    /// A copy of those bytes.
    fn to_byte_vec(&self) -> (r: Vec<u8>)
        ensures
            r@ == self.byte_view(),
    ;
}

impl ByteSource for Vec<u8> {
    open spec fn byte_view(&self) -> Seq<u8> {
        self@
    }

    fn to_byte_vec(&self) -> (r: Vec<u8>) {
        slice_to_vec(self.as_slice())
    }
}

impl<'a> ByteSource for &'a [u8] {
    open spec fn byte_view(&self) -> Seq<u8> {
        (*self)@
    }

    fn to_byte_vec(&self) -> (r: Vec<u8>) {
        slice_to_vec(*self)
    }
}

impl<'a> ByteSource for &'a str {
    open spec fn byte_view(&self) -> Seq<u8> {
        encode_utf8((*self)@)
    }

    fn to_byte_vec(&self) -> (r: Vec<u8>) {
        slice_to_vec((*self).as_bytes())
    }
}

impl<'a, const N: usize> ByteSource for &'a [u8; N] {
    open spec fn byte_view(&self) -> Seq<u8> {
        (*self)@
    }

    fn to_byte_vec(&self) -> (r: Vec<u8>) {
        slice_to_vec((*self).as_slice())
    }
}

impl ByteSource for String {
    open spec fn byte_view(&self) -> Seq<u8> {
        encode_utf8(self@)
    }

    fn to_byte_vec(&self) -> (r: Vec<u8>) {
        slice_to_vec(self.as_str().as_bytes())
    }
}

/// Whitespace as `u8::is_ascii_whitespace` defines it: space, tab, line feed,
/// form feed and carriage return.
pub open spec fn is_ascii_ws(b: u8) -> bool {
    b == 0x20 || b == 0x09 || b == 0x0A || b == 0x0C || b == 0x0D
}

/// `b` with an ASCII upper-case letter mapped to its lower-case form.
pub open spec fn lower_byte(b: u8) -> u8 {
    if 0x41 <= b && b <= 0x5A {
        (b + 32) as u8
    } else {
        b
    }
}

/// ASCII lower-casing of a byte string.
pub open spec fn lower(s: Seq<u8>) -> Seq<u8> {
    s.map_values(|b: u8| lower_byte(b))
}

/// `s` without its leading ASCII whitespace.
pub open spec fn trim_start(s: Seq<u8>) -> Seq<u8>
    decreases s.len(),
{
    if s.len() > 0 && is_ascii_ws(s[0]) {
        trim_start(s.drop_first())
    } else {
        s
    }
}

/// `s` without its trailing ASCII whitespace.
pub open spec fn trim_end(s: Seq<u8>) -> Seq<u8>
    decreases s.len(),
{
    if s.len() > 0 && is_ascii_ws(s.last()) {
        trim_end(s.drop_last())
    } else {
        s
    }
}

/// `s` without leading and trailing ASCII whitespace.
pub open spec fn trim(s: Seq<u8>) -> Seq<u8> {
    trim_end(trim_start(s))
}

/// The pieces of `s` between occurrences of `sep`, as `<[u8]>::split` yields
/// them: always at least one piece, an empty one for an empty input.
pub open spec fn split_on(s: Seq<u8>, sep: u8) -> Seq<Seq<u8>>
    decreases s.len(),
{
    if s.len() == 0 {
        seq![Seq::<u8>::empty()]
    } else {
        let init = split_on(s.drop_last(), sep);
        if s.last() == sep {
            init.push(Seq::<u8>::empty())
        } else {
            init.update(init.len() - 1, init.last().push(s.last()))
        }
    }
}

pub proof fn lemma_split_on_nonempty(s: Seq<u8>, sep: u8)
    ensures
        split_on(s, sep).len() >= 1,
    decreases s.len(),
{
    if s.len() > 0 {
        lemma_split_on_nonempty(s.drop_last(), sep);
    }
}

/// A copy of a byte slice.
pub fn copy_bytes(s: &[u8]) -> (r: Vec<u8>)
    ensures
        r@ == s@,
{
    slice_to_vec(s)
}

/// Whether two byte strings are equal.
pub fn bytes_equal(a: &[u8], b: &[u8]) -> (r: bool)
    ensures
        r == (a@ == b@),
{
    if a.len() != b.len() {
        return false;
    }
    let mut i: usize = 0;
    while i < a.len()
        invariant
            a@.len() == b@.len(),
            i <= a@.len(),
            forall|j: int| 0 <= j < i ==> a@[j] == b@[j],
        decreases a@.len() - i,
    {
        if a[i] != b[i] {
            return false;
        }
        i = i + 1;
    }
    assert(a@ =~= b@);
    true
}

/// `a` orders before `b` lexicographically, as `Vec<u8>` and `[u8]` order.
pub open spec fn lex_lt(a: Seq<u8>, b: Seq<u8>) -> bool
    decreases a.len(),
{
    if a.len() == 0 {
        b.len() > 0
    } else if b.len() == 0 {
        false
    } else if a[0] != b[0] {
        a[0] < b[0]
    } else {
        lex_lt(a.drop_first(), b.drop_first())
    }
}

/// Whether `a` orders before `b` lexicographically.
pub fn bytes_less(a: &[u8], b: &[u8]) -> (r: bool)
    ensures
        r == lex_lt(a@, b@),
{
    let mut i: usize = 0;
    assert(a@.subrange(0, a@.len() as int) =~= a@);
    assert(b@.subrange(0, b@.len() as int) =~= b@);
    while i < a.len() && i < b.len() && a[i] == b[i]
        invariant
            i <= a@.len(),
            i <= b@.len(),
            lex_lt(a@, b@) == lex_lt(a@.subrange(i as int, a@.len() as int), b@.subrange(i as int, b@.len() as int)),
        decreases a@.len() - i,
    {
        assert(a@.subrange(i as int, a@.len() as int).drop_first() =~= a@.subrange(i + 1, a@.len() as int));
        assert(b@.subrange(i as int, b@.len() as int).drop_first() =~= b@.subrange(i + 1, b@.len() as int));
        i = i + 1;
    }
    if i == a.len() {
        i < b.len()
    } else if i == b.len() {
        false
    } else {
        a[i] < b[i]
    }
}

/// ASCII lower-casing of a byte slice (`<[u8]>::to_ascii_lowercase`).
pub fn ascii_lowercase(s: &[u8]) -> (r: Vec<u8>)
    ensures
        r@ == lower(s@),
{
    let mut out: Vec<u8> = Vec::new();
    let mut i: usize = 0;
    while i < s.len()
        invariant
            i <= s@.len(),
            out@ =~= lower(s@.subrange(0, i as int)),
        decreases s@.len() - i,
    {
        let b = s[i];
        let c = if 0x41 <= b && b <= 0x5A {
            b + 32
        } else {
            b
        };
        out.push(c);
        i = i + 1;
        assert(out@ =~= lower(s@.subrange(0, i as int)));
    }
    assert(s@.subrange(0, s@.len() as int) =~= s@);
    out
}

fn is_ascii_ws_byte(b: u8) -> (r: bool)
    ensures
        r == is_ascii_ws(b),
{
    b == 0x20 || b == 0x09 || b == 0x0A || b == 0x0C || b == 0x0D
}

/// The bytes of `value` without leading and trailing ASCII whitespace.
pub fn trim_ascii_whitespace(value: &[u8]) -> (r: Vec<u8>)
    ensures
        r@ == trim(value@),
{
    let n = value.len();
    let mut start: usize = 0;
    assert(value@.subrange(0, n as int) =~= value@);
    while start < n && is_ascii_ws_byte(value[start])
        invariant
            start <= n,
            n == value@.len(),
            trim_start(value@) == trim_start(value@.subrange(start as int, n as int)),
        decreases n - start,
    {
        assert(value@.subrange(start as int, n as int).drop_first() =~= value@.subrange(
            start + 1,
            n as int,
        ));
        start = start + 1;
    }
    let mut end: usize = n;
    assert(trim_start(value@) == value@.subrange(start as int, n as int));
    while end > start && is_ascii_ws_byte(value[end - 1])
        invariant
            start <= end <= n,
            n == value@.len(),
            trim(value@) == trim_end(value@.subrange(start as int, end as int)),
        decreases end - start,
    {
        assert(value@.subrange(start as int, end as int).drop_last() =~= value@.subrange(
            start as int,
            end - 1,
        ));
        end = end - 1;
    }
    let mut out: Vec<u8> = Vec::new();
    let mut i: usize = start;
    while i < end
        invariant
            start <= i <= end <= n,
            n == value@.len(),
            out@ =~= value@.subrange(start as int, i as int),
        decreases end - i,
    {
        out.push(value[i]);
        i = i + 1;
    }
    out
}

/// The views of a sequence of byte vectors.
pub open spec fn vecs_view(v: Seq<Vec<u8>>) -> Seq<Seq<u8>> {
    v.map_values(|x: Vec<u8>| x@)
}

/// The pieces of `s` between commas (`s.split(|&b| b == b',')`).
pub fn split_commas(s: &[u8]) -> (r: Vec<Vec<u8>>)
    ensures
        vecs_view(r@) == split_on(s@, 0x2Cu8),
{
    let mut pieces: Vec<Vec<u8>> = Vec::new();
    let mut cur: Vec<u8> = Vec::new();
    let mut i: usize = 0;
    while i < s.len()
        invariant
            i <= s@.len(),
            vecs_view(pieces@).push(cur@) =~= split_on(s@.subrange(0, i as int), 0x2Cu8),
        decreases s@.len() - i,
    {
        let ghost before = s@.subrange(0, i as int);
        let ghost after = s@.subrange(0, i + 1);
        assert(after.drop_last() =~= before);
        if s[i] == 0x2C {
            let piece = cur;
            pieces.push(piece);
            cur = Vec::new();
            assert(vecs_view(pieces@) =~= split_on(before, 0x2Cu8));
        } else {
            cur.push(s[i]);
        }
        i = i + 1;
        assert(vecs_view(pieces@).push(cur@) =~= split_on(s@.subrange(0, i as int), 0x2Cu8));
    }
    assert(s@.subrange(0, s@.len() as int) =~= s@);
    pieces.push(cur);
    assert(vecs_view(pieces@) =~= split_on(s@, 0x2Cu8));
    pieces
}

/// The decimal digit character for `d` (taken modulo ten).
pub open spec fn digit_char(d: int) -> char {
    let d = d % 10;
    if d == 0 {
        '0'
    } else if d == 1 {
        '1'
    } else if d == 2 {
        '2'
    } else if d == 3 {
        '3'
    } else if d == 4 {
        '4'
    } else if d == 5 {
        '5'
    } else if d == 6 {
        '6'
    } else if d == 7 {
        '7'
    } else if d == 8 {
        '8'
    } else {
        '9'
    }
}

/// The decimal rendering of `n`, without leading zeros (`"0"` for zero).
pub open spec fn decimal(n: nat) -> Seq<char>
    decreases n,
{
    if n < 10 {
        seq![digit_char(n as int)]
    } else {
        decimal(n / 10).push(digit_char((n % 10) as int))
    }
}

/// The items of a byte list as `{:?}` renders them: decimal values joined by
/// `", "`.
pub open spec fn debug_items(s: Seq<u8>) -> Seq<char>
    decreases s.len(),
{
    if s.len() == 0 {
        Seq::empty()
    } else if s.len() == 1 {
        decimal(s[0] as nat)
    } else {
        debug_items(s.drop_last()) + seq![',', ' '] + decimal(s.last() as nat)
    }
}

/// A byte list as `{:?}` renders it, such as `[102, 111]`.
pub open spec fn debug_bytes(s: Seq<u8>) -> Seq<char> {
    seq!['['] + debug_items(s) + seq![']']
}

fn digit_str(d: u64) -> (r: &'static str)
    requires
        d < 10,
    ensures
        r@ == seq![digit_char(d as int)],
{
    if d == 0 {
        proof { reveal_strlit("0"); }
        "0"
    } else if d == 1 {
        proof { reveal_strlit("1"); }
        "1"
    } else if d == 2 {
        proof { reveal_strlit("2"); }
        "2"
    } else if d == 3 {
        proof { reveal_strlit("3"); }
        "3"
    } else if d == 4 {
        proof { reveal_strlit("4"); }
        "4"
    } else if d == 5 {
        proof { reveal_strlit("5"); }
        "5"
    } else if d == 6 {
        proof { reveal_strlit("6"); }
        "6"
    } else if d == 7 {
        proof { reveal_strlit("7"); }
        "7"
    } else if d == 8 {
        proof { reveal_strlit("8"); }
        "8"
    } else {
        proof { reveal_strlit("9"); }
        "9"
    }
}

/// Appends the decimal rendering of `n` to `out`.
pub fn append_decimal(out: &mut String, n: u64)
    ensures
        final(out)@ == old(out)@ + decimal(n as nat),
    decreases n,
{
    if n >= 10 {
        append_decimal(out, n / 10);
    }
    out.append(digit_str(n % 10));
    assert(final(out)@ =~= old(out)@ + decimal(n as nat));
}

/// Appends `s` rendered as `{:?}` renders a byte list to `out`.
pub fn append_debug_bytes(out: &mut String, s: &[u8])
    ensures
        final(out)@ == old(out)@ + debug_bytes(s@),
{
    proof { reveal_strlit("["); reveal_strlit("]"); reveal_strlit(", "); }
    out.append("[");
    let ghost start = out@;
    let mut i: usize = 0;
    while i < s.len()
        invariant
            i <= s@.len(),
            out@ == start + debug_items(s@.subrange(0, i as int)),
        decreases s@.len() - i,
    {
        let ghost next = s@.subrange(0, i + 1);
        assert(next.drop_last() =~= s@.subrange(0, i as int));
        proof { reveal_strlit(", "); }
        if i > 0 {
            out.append(", ");
        }
        append_decimal(out, s[i] as u64);
        assert(next.last() == s@[i as int]);
        i = i + 1;
        assert(out@ =~= start + debug_items(s@.subrange(0, i as int)));
    }
    assert(s@.subrange(0, s@.len() as int) =~= s@);
    out.append("]");
    assert(out@ =~= old(out)@ + debug_bytes(s@));
}

} // verus!
