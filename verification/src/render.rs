//! Text renderings of byte strings as `{:?}` shows text: the bytes read as
//! UTF-8 (invalid sequences replaced), then quoted with escapes.

use vstd::prelude::*;
use vstd::string::StringExecFns;

verus! {

/// Every byte is ASCII.
pub open spec fn is_ascii_bytes(s: Seq<u8>) -> bool {
    forall|i: int| 0 <= i < s.len() ==> #[trigger] s[i] < 0x80
}

/// ASCII bytes read as characters.
pub open spec fn ascii_chars(s: Seq<u8>) -> Seq<char> {
    s.map_values(|b: u8| b as char)
}

/// What `String::from_utf8_lossy` makes of `bytes`.
pub uninterp spec fn lossy_text(bytes: Seq<u8>) -> Seq<char>;

/// What `format!("{:?}", s)` makes of the text `s`.
pub uninterp spec fn str_debug_text(s: Seq<char>) -> Seq<char>;

/// Reads `bytes` as UTF-8 with `String::from_utf8_lossy`, which replaces
/// each invalid sequence by U+FFFD. The contract names the result, and
/// states that ASCII bytes (valid UTF-8) read as the same characters.
#[verifier::external_body]
pub fn utf8_lossy(bytes: &[u8]) -> (r: String)
    ensures
        r@ == lossy_text(bytes@),
        is_ascii_bytes(bytes@) ==> r@ == ascii_chars(bytes@),
{
    String::from_utf8_lossy(bytes).into_owned()
}

/// Renders text with std's `Debug` for `str` (`format!("{:?}", s)`); the
/// contract only names the result.
#[verifier::external_body]
fn str_debug(s: &str) -> (r: String)
    ensures
        r@ == str_debug_text(s@),
{
    format!("{:?}", s)
}

/// The lower-case hexadecimal digit for `d` (taken modulo 16).
pub open spec fn hex_char(d: int) -> char {
    let d = d % 16;
    if d < 10 {
        (48 + d) as char
    } else {
        (87 + d) as char
    }
}

/// The lower-case hexadecimal rendering of `n`, without leading zeros.
pub open spec fn hex_text(n: nat) -> Seq<char>
    decreases n,
{
    if n < 16 {
        seq![hex_char(n as int)]
    } else {
        hex_text(n / 16).push(hex_char((n % 16) as int))
    }
}

/// How `{:?}` shows an ASCII byte inside quoted text: `\0`, `\t`, `\r`,
/// `\n`, `\\` and `\"` for those characters, the character itself when it
/// is printable, and `\u{h}` in lower-case hexadecimal otherwise.
pub open spec fn escape_ascii(b: u8) -> Seq<char> {
    if b == 0x00 {
        seq!['\\', '0']
    } else if b == 0x09 {
        seq!['\\', 't']
    } else if b == 0x0A {
        seq!['\\', 'n']
    } else if b == 0x0D {
        seq!['\\', 'r']
    } else if b == 0x22 {
        seq!['\\', '"']
    } else if b == 0x5C {
        seq!['\\', '\\']
    } else if 0x20 <= b && b <= 0x7E {
        seq![b as char]
    } else {
        seq!['\\', 'u', '{'] + hex_text(b as nat) + seq!['}']
    }
}

/// The escapes of the bytes of `s`, one after the other.
pub open spec fn escaped_ascii(s: Seq<u8>) -> Seq<char>
    decreases s.len(),
{
    if s.len() == 0 {
        Seq::empty()
    } else {
        escaped_ascii(s.drop_last()) + escape_ascii(s.last())
    }
}

/// A byte string as `{:?}` shows it after `from_utf8_lossy`: for ASCII
/// bytes, the escaped characters in double quotes; otherwise what std
/// renders.
pub open spec fn quoted_text(s: Seq<u8>) -> Seq<char> {
    if is_ascii_bytes(s) {
        seq!['"'] + escaped_ascii(s) + seq!['"']
    } else {
        str_debug_text(lossy_text(s))
    }
}

fn hex_str(d: u8) -> (r: &'static str)
    requires
        d < 16,
    ensures
        r@ == seq![hex_char(d as int)],
{
    proof {
        reveal_strlit("0"); reveal_strlit("1"); reveal_strlit("2"); reveal_strlit("3");
        reveal_strlit("4"); reveal_strlit("5"); reveal_strlit("6"); reveal_strlit("7");
        reveal_strlit("8"); reveal_strlit("9"); reveal_strlit("a"); reveal_strlit("b");
        reveal_strlit("c"); reveal_strlit("d"); reveal_strlit("e"); reveal_strlit("f");
    }
    if d == 0 {
        "0"
    } else if d == 1 {
        "1"
    } else if d == 2 {
        "2"
    } else if d == 3 {
        "3"
    } else if d == 4 {
        "4"
    } else if d == 5 {
        "5"
    } else if d == 6 {
        "6"
    } else if d == 7 {
        "7"
    } else if d == 8 {
        "8"
    } else if d == 9 {
        "9"
    } else if d == 10 {
        "a"
    } else if d == 11 {
        "b"
    } else if d == 12 {
        "c"
    } else if d == 13 {
        "d"
    } else if d == 14 {
        "e"
    } else {
        "f"
    }
}

/// Appends the escape of one ASCII byte.
fn append_escape(out: &mut String, b: u8)
    requires
        b < 0x80,
    ensures
        final(out)@ == old(out)@ + escape_ascii(b),
{
    proof {
        reveal_strlit("\\0"); reveal_strlit("\\t"); reveal_strlit("\\n"); reveal_strlit("\\r");
        reveal_strlit("\\\""); reveal_strlit("\\\\"); reveal_strlit("\\u{"); reveal_strlit("}");
    }
    if b == 0x00 {
        out.append("\\0");
    } else if b == 0x09 {
        out.append("\\t");
    } else if b == 0x0A {
        out.append("\\n");
    } else if b == 0x0D {
        out.append("\\r");
    } else if b == 0x22 {
        out.append("\\\"");
    } else if b == 0x5C {
        out.append("\\\\");
    } else if 0x20 <= b && b <= 0x7E {
        let one: Vec<u8> = vec![b];
        assert(is_ascii_bytes(one@));
        let text = utf8_lossy(one.as_slice());
        assert(ascii_chars(one@) =~= seq![b as char]);
        out.append(text.as_str());
    } else {
        out.append("\\u{");
        if b >= 16 {
            out.append(hex_str(b / 16));
        }
        out.append(hex_str(b % 16));
        out.append("}");
        assert(b < 16 ==> hex_text(b as nat) == seq![hex_char(b as int)]);
        if b >= 16 {
            let ghost n = b as nat;
            assert(n / 16 < 16);
            assert(hex_text(n / 16) == seq![hex_char((n / 16) as int)]);
            assert(hex_text(n) == hex_text(n / 16).push(hex_char((n % 16) as int)));
            assert(hex_text(n) =~= seq![hex_char((b / 16) as int), hex_char((b % 16) as int)]);
        }
    }
    assert(final(out)@ =~= old(out)@ + escape_ascii(b));
}

/// Appends `s` as `{:?}` shows it after `from_utf8_lossy`.
pub fn append_quoted(out: &mut String, s: &[u8])
    ensures
        final(out)@ == old(out)@ + quoted_text(s@),
{
    let mut ascii = true;
    let mut j: usize = 0;
    while j < s.len()
        invariant
            j <= s@.len(),
            ascii == (forall|k: int| 0 <= k < j ==> #[trigger] s@[k] < 0x80),
        decreases s@.len() - j,
    {
        if s[j] >= 0x80 {
            ascii = false;
        }
        j = j + 1;
    }
    if !ascii {
        let text = utf8_lossy(s);
        let shown = str_debug(text.as_str());
        out.append(shown.as_str());
        return;
    }
    proof { reveal_strlit("\""); }
    out.append("\"");
    let ghost start = out@;
    let mut i: usize = 0;
    while i < s.len()
        invariant
            i <= s@.len(),
            is_ascii_bytes(s@),
            out@ == start + escaped_ascii(s@.subrange(0, i as int)),
        decreases s@.len() - i,
    {
        assert(s@.subrange(0, i + 1).drop_last() =~= s@.subrange(0, i as int));
        assert(s@[i as int] < 0x80);
        append_escape(out, s[i]);
        i = i + 1;
        assert(out@ =~= start + escaped_ascii(s@.subrange(0, i as int)));
    }
    assert(s@.subrange(0, s@.len() as int) =~= s@);
    out.append("\"");
    assert(out@ =~= old(out)@ + quoted_text(s@));
}

} // verus!
