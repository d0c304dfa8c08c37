//! Byte-level text encodings used to build hash payloads and messages:
//! decimal numbers, lower-case hexadecimal and JSON strings.

use vstd::prelude::*;
use vstd::utf8::encode_utf8;

verus! {

/// The ASCII decimal representation of `n`, most significant digit first,
/// with no leading zeros (as `Display` prints unsigned integers).
pub open spec fn decimal_digits(n: nat) -> Seq<u8>
    decreases n,
{
    if n < 10 {
        seq![(n + 48) as u8]
    } else {
        decimal_digits(n / 10) + seq![(n % 10 + 48) as u8]
    }
}

/// Appends the decimal representation of `n` to `out`.
pub fn push_decimal(n: u128, out: &mut Vec<u8>)
    ensures
        final(out)@ == old(out)@ + decimal_digits(n as nat),
    decreases n,
{
    if n >= 10 {
        push_decimal(n / 10, out);
    }
    let digit: u8 = (n % 10) as u8;
    out.push(digit + 48);
    proof {
        assert(final(out)@ =~= old(out)@ + decimal_digits(n as nat));
    }
}

} // verus!

verus! {

/// The lower-case hexadecimal digit for a value below 16.
pub open spec fn hex_digit(n: int) -> char {
    if n < 10 {
        (n + 48) as char
    } else {
        (n + 87) as char
    }
}

/// Lower-case hexadecimal text of `bytes`: two digits per byte, high nibble first.
pub open spec fn hex_lower(bytes: Seq<u8>) -> Seq<char> {
    Seq::new(
        2 * bytes.len(),
        |i: int|
            if i % 2 == 0 {
                hex_digit(bytes[i / 2] as int / 16)
            } else {
                hex_digit(bytes[i / 2] as int % 16)
            },
    )
}

/// Appends `c` to `s` (`String::push`).
#[verifier::external_body]
pub(crate) fn string_push(s: &mut String, c: char)
    ensures
        final(s)@ == old(s)@.push(c),
{
    s.push(c);
}

fn hex_digit_exec(n: u8) -> (c: char)
    requires
        n < 16,
    ensures
        c == hex_digit(n as int),
{
    if n < 10 {
        (n + 48) as char
    } else {
        (n + 87) as char
    }
}

/// Lower-case hexadecimal encoding of `bytes`.
pub fn to_hex_lower(bytes: &[u8]) -> (s: String)
    ensures
        s@ == hex_lower(bytes@),
{
    let mut s = String::new();
    let n = bytes.len();
    let mut i: usize = 0;
    while i < n
        invariant
            n == bytes@.len(),
            i <= n,
            s@ =~= hex_lower(bytes@.take(i as int)),
        decreases n - i,
    {
        let b = bytes[i];
        string_push(&mut s, hex_digit_exec(b / 16));
        string_push(&mut s, hex_digit_exec(b % 16));
        proof {
            let t = bytes@.take(i as int + 1);
            assert(t.len() == i + 1);
            assert forall|k: int| 0 <= k < 2 * (i + 1) implies #[trigger] hex_lower(t)[k] == s@[k] by {
                if k < 2 * i {
                    assert(k / 2 < i);
                    assert(hex_lower(bytes@.take(i as int))[k] == s@[k]);
                } else {
                    assert(k / 2 == i);
                }
            }
            assert(s@ =~= hex_lower(t));
        }
        i = i + 1;
    }
    proof {
        assert(bytes@.take(n as int) =~= bytes@);
    }
    s
}

} // verus!

verus! {

/// How a JSON serializer writes one byte of a string's UTF-8 encoding:
/// quote and backslash are escaped, the control bytes backspace, tab,
/// line feed, form feed and carriage return get their short escapes, other
/// bytes below 0x20 become `\u00XX` with lower-case hex digits, and every
/// other byte is written unchanged.
pub open spec fn json_escape_byte(b: u8) -> Seq<u8> {
    if b == 34 {
        seq![92u8, 34u8]
    } else if b == 92 {
        seq![92u8, 92u8]
    } else if b == 8 {
        seq![92u8, 98u8]
    } else if b == 9 {
        seq![92u8, 116u8]
    } else if b == 10 {
        seq![92u8, 110u8]
    } else if b == 12 {
        seq![92u8, 102u8]
    } else if b == 13 {
        seq![92u8, 114u8]
    } else if b < 32 {
        seq![92u8, 117u8, 48u8, 48u8, hex_digit(b as int / 16) as u8, hex_digit(b as int % 16) as u8]
    } else {
        seq![b]
    }
}

/// The escaped body of a JSON string whose UTF-8 bytes are `bytes`.
pub open spec fn json_escaped(bytes: Seq<u8>) -> Seq<u8>
    decreases bytes.len(),
{
    if bytes.len() == 0 {
        seq![]
    } else {
        json_escaped(bytes.drop_last()) + json_escape_byte(bytes.last())
    }
}

/// The JSON string literal of the text `s`, quotes included.
pub open spec fn json_string(s: Seq<char>) -> Seq<u8> {
    seq![34u8] + json_escaped(encode_utf8(s)) + seq![34u8]
}

/// `serde_json::to_vec` on a string: its JSON literal. The contract states
/// what serde_json's compact writer produces (its escape table and
/// lower-case `\u00XX` digits). Writing to a `Vec` cannot fail, so the
/// `unwrap` never panics.
#[verifier::external_body]
fn json_string_literal(s: &str) -> (literal: Vec<u8>)
    ensures
        literal@ == json_string(s@),
{
    serde_json::to_vec(s).unwrap()
}

/// Appends the JSON string literal of `s` to `out`.
pub fn push_json_string(s: &str, out: &mut Vec<u8>)
    ensures
        final(out)@ == old(out)@ + json_string(s@),
{
    let literal = json_string_literal(s);
    let ghost start = out@;
    let n = literal.len();
    let mut i: usize = 0;
    while i < n
        invariant
            n == literal@.len(),
            i <= n,
            out@ =~= start + literal@.take(i as int),
        decreases n - i,
    {
        out.push(literal[i]);
        i = i + 1;
    }
    proof {
        assert(literal@.take(n as int) =~= literal@);
    }
}

} // verus!

verus! {

/// The value of one hexadecimal digit byte, either case; `None` for any other byte.
pub open spec fn hex_value(b: u8) -> Option<u8> {
    if 48 <= b <= 57 {
        Some((b - 48) as u8)
    } else if 97 <= b <= 102 {
        Some((b - 87) as u8)
    } else if 65 <= b <= 70 {
        Some((b - 55) as u8)
    } else {
        None
    }
}

/// Decoding hexadecimal text (as bytes): it fails on an odd length or on any
/// byte that is not a hex digit; otherwise each pair of digits gives one
/// byte, high nibble first.
pub open spec fn hex_decode(text: Seq<u8>) -> Option<Seq<u8>> {
    if text.len() % 2 != 0 {
        None
    } else if exists|i: int| 0 <= i < text.len() && #[trigger] hex_value(text[i]) is None {
        None
    } else {
        Some(
            Seq::new(
                text.len() / 2,
                |k: int| (hex_value(text[2 * k])->0 * 16 + hex_value(text[2 * k + 1])->0) as u8,
            ),
        )
    }
}

fn hex_value_exec(b: u8) -> (r: Option<u8>)
    ensures
        r == hex_value(b),
{
    if 48 <= b && b <= 57 {
        Some(b - 48)
    } else if 97 <= b && b <= 102 {
        Some(b - 87)
    } else if 65 <= b && b <= 70 {
        Some(b - 55)
    } else {
        None
    }
}

/// Decodes hexadecimal text given as bytes.
pub fn decode_hex(text: &[u8]) -> (r: Option<Vec<u8>>)
    ensures
        match r {
            Some(v) => hex_decode(text@) == Some(v@),
            None => hex_decode(text@) is None,
        },
{
    let n = text.len();
    if n % 2 != 0 {
        return None;
    }
    let mut out: Vec<u8> = Vec::new();
    let mut k: usize = 0;
    while k < n / 2
        invariant
            n == text@.len(),
            n % 2 == 0,
            k <= n / 2,
            out@.len() == k,
            forall|j: int| 0 <= j < 2 * k ==> #[trigger] hex_value(text@[j]) is Some,
            forall|j: int|
                0 <= j < k ==> #[trigger] out@[j] == (hex_value(text@[2 * j])->0 * 16
                    + hex_value(text@[2 * j + 1])->0) as u8,
        decreases n / 2 - k,
    {
        let hi = hex_value_exec(text[2 * k]);
        let lo = hex_value_exec(text[2 * k + 1]);
        match (hi, lo) {
            (Some(h), Some(l)) => {
                out.push(h * 16 + l);
            },
            _ => {
                proof {
                    if hi is None {
                        assert(hex_value(text@[2 * k as int]) is None);
                    } else {
                        assert(hex_value(text@[2 * k + 1]) is None);
                    }
                }
                return None;
            },
        }
        k = k + 1;
    }
    proof {
        assert forall|i: int| 0 <= i < text@.len() implies #[trigger] hex_value(text@[i]) is Some by {}
        let expected = Seq::new(
            text@.len() / 2,
            |j: int| (hex_value(text@[2 * j])->0 * 16 + hex_value(text@[2 * j + 1])->0) as u8,
        );
        assert(out@ =~= expected);
    }
    Some(out)
}

/// Unicode `White_Space`, the property that `char::is_whitespace` and
/// `str::trim` go by.
pub open spec fn is_unicode_whitespace(c: char) -> bool {
    let v = c as u32;
    ||| 9 <= v <= 13
    ||| v == 32
    ||| v == 0x85
    ||| v == 0xA0
    ||| v == 0x1680
    ||| 0x2000 <= v <= 0x200A
    ||| v == 0x2028
    ||| v == 0x2029
    ||| v == 0x202F
    ||| v == 0x205F
    ||| v == 0x3000
}

/// `true` when nothing is left of `s` once surrounding white space is
/// trimmed, that is when every character of `s` is white space.
pub open spec fn is_blank(s: Seq<char>) -> bool {
    forall|i: int| 0 <= i < s.len() ==> is_unicode_whitespace(#[trigger] s[i])
}

fn is_whitespace_exec(c: char) -> (r: bool)
    ensures
        r == is_unicode_whitespace(c),
{
    let v = c as u32;
    (9 <= v && v <= 13) || v == 32 || v == 0x85 || v == 0xA0 || v == 0x1680 || (0x2000 <= v && v
        <= 0x200A) || v == 0x2028 || v == 0x2029 || v == 0x202F || v == 0x205F || v == 0x3000
}

/// Whether `s.trim().is_empty()`.
pub fn trims_to_empty(s: &str) -> (r: bool)
    ensures
        r == is_blank(s@),
{
    for c in it: s.chars()
        invariant
            it.seq() == s@,
            forall|i: int| 0 <= i < it.index() ==> is_unicode_whitespace(#[trigger] s@[i]),
    {
        if !is_whitespace_exec(c) {
            return false;
        }
    }
    true
}

} // verus!

verus! {

/// The UTF-8 bytes of a piece of text.
pub open spec fn utf8(s: &str) -> Seq<u8> {
    encode_utf8(s@)
}

/// Appends the UTF-8 bytes of `s` to `out`.
pub fn push_text(s: &str, out: &mut Vec<u8>)
    ensures
        final(out)@ == old(out)@ + encode_utf8(s@),
{
    let bytes = s.as_bytes();
    let ghost start = out@;
    let n = bytes.len();
    let mut i: usize = 0;
    while i < n
        invariant
            n == bytes@.len(),
            i <= n,
            out@ =~= start + bytes@.take(i as int),
        decreases n - i,
    {
        out.push(bytes[i]);
        i = i + 1;
    }
    proof {
        assert(bytes@.take(n as int) =~= bytes@);
    }
}

/// Whether `s` is exactly the text "0".
pub fn is_zero_text(s: &str) -> (r: bool)
    ensures
        r == (s@ == seq!['0']),
{
    let mut count: usize = 0;
    for c in it: s.chars()
        invariant
            it.seq() == s@,
            count == it.index(),
            count <= 1,
            forall|j: int| 0 <= j < count ==> s@[j] == '0',
    {
        if count >= 1 || c != '0' {
            proof {
                if count >= 1 {
                    assert(s@.len() >= 2);
                }
            }
            return false;
        }
        count = count + 1;
    }
    proof {
        if count == 1 {
            assert(s@ =~= seq!['0']);
        }
    }
    count == 1
}

} // verus!

verus! {

proof fn lemma_hex_digit(n: int)
    requires
        0 <= n < 16,
    ensures
        '\0' <= hex_digit(n) <= '\u{7f}',
        hex_value(hex_digit(n) as u8) == Some(n as u8),
{
    if n < 10 {
        assert(((n + 48) as char) as u32 == n + 48);
    } else {
        assert(((n + 87) as char) as u32 == n + 87);
    }
}

/// Hex encoding is undone by hex decoding: the lower-case hex text of any
/// bytes decodes back to those bytes.
pub proof fn lemma_hex_roundtrip(bytes: Seq<u8>)
    ensures
        hex_decode(encode_utf8(hex_lower(bytes))) == Some(bytes),
{
    let h = hex_lower(bytes);
    assert forall|i: int| 0 <= i < h.len() implies '\0' <= #[trigger] h[i] <= '\u{7f}' && hex_value(h[i] as u8) == Some(
        (if i % 2 == 0 { bytes[i / 2] as int / 16 } else { bytes[i / 2] as int % 16 }) as u8,
    ) by {
        if i % 2 == 0 {
            lemma_hex_digit(bytes[i / 2] as int / 16);
        } else {
            lemma_hex_digit(bytes[i / 2] as int % 16);
        }
    }
    assert(vstd::utf8::is_ascii_chars(h));
    vstd::utf8::is_ascii_chars_encode_utf8(h);
    let e = encode_utf8(h);
    assert(e.len() == 2 * bytes.len());
    assert forall|i: int| 0 <= i < e.len() implies #[trigger] hex_value(e[i]) is Some by {
        assert(h[i] as u8 == e[i]);
    }
    assert(!(exists|i: int| 0 <= i < e.len() && #[trigger] hex_value(e[i]) is None));
    let decoded = Seq::new(
        e.len() / 2,
        |k: int| (hex_value(e[2 * k])->0 * 16 + hex_value(e[2 * k + 1])->0) as u8,
    );
    assert forall|k: int| 0 <= k < bytes.len() implies #[trigger] decoded[k] == bytes[k] by {
        assert(h[2 * k] as u8 == e[2 * k]);
        assert(h[2 * k + 1] as u8 == e[2 * k + 1]);
        assert((2 * k) / 2 == k);
        assert((2 * k + 1) / 2 == k);
        assert((2 * k) % 2 == 0);
        assert((2 * k + 1) % 2 == 1);
    }
    assert(decoded =~= bytes);
}

} // verus!

verus! {

/// An ASCII decimal digit.
pub open spec fn is_digit_byte(b: u8) -> bool {
    48 <= b <= 57
}

/// Decimal text is a non-empty run of digits.
pub proof fn lemma_decimal_digits_are_digits(n: nat)
    ensures
        decimal_digits(n).len() >= 1,
        forall|i: int| 0 <= i < decimal_digits(n).len() ==> is_digit_byte(#[trigger] decimal_digits(n)[i]),
    decreases n,
{
    if n >= 10 {
        lemma_decimal_digits_are_digits(n / 10);
        let d = decimal_digits(n);
        assert forall|i: int| 0 <= i < d.len() implies is_digit_byte(#[trigger] d[i]) by {
            if i < d.len() - 1 {
                assert(d[i] == decimal_digits(n / 10)[i]);
            }
        }
    }
}

/// Different numbers have different decimal text.
pub proof fn lemma_decimal_digits_injective(x: nat, y: nat)
    requires
        decimal_digits(x) == decimal_digits(y),
    ensures
        x == y,
    decreases x,
{
    lemma_decimal_digits_are_digits(x / 10);
    lemma_decimal_digits_are_digits(y / 10);
    let dx = decimal_digits(x);
    let dy = decimal_digits(y);
    if x < 10 && y < 10 {
        assert(dx[0] == (x + 48) as u8);
        assert(dy[0] == (y + 48) as u8);
        assert(dx[0] == dy[0]);
    } else if x < 10 {
        assert(dy.len() >= 2);
    } else if y < 10 {
        assert(dx.len() >= 2);
    } else {
        assert(dx.last() == dy.last());
        assert(dx.last() == (x % 10 + 48) as u8);
        assert(dy.last() == (y % 10 + 48) as u8);
        assert(x % 10 == y % 10);
        assert(dx.drop_last() =~= decimal_digits(x / 10));
        assert(dy.drop_last() =~= decimal_digits(y / 10));
        lemma_decimal_digits_injective(x / 10, y / 10);
        assert(x == 10 * (x / 10) + x % 10);
        assert(y == 10 * (y / 10) + y % 10);
    }
}

/// Decimal text followed by something that does not start with a digit can
/// be split back apart.
pub proof fn lemma_decimal_prefix(x: nat, y: nat, r1: Seq<u8>, r2: Seq<u8>)
    requires
        decimal_digits(x) + r1 == decimal_digits(y) + r2,
        r1.len() > 0 && !is_digit_byte(r1[0]),
        r2.len() > 0 && !is_digit_byte(r2[0]),
    ensures
        x == y,
        r1 == r2,
{
    lemma_decimal_digits_are_digits(x);
    lemma_decimal_digits_are_digits(y);
    let dx = decimal_digits(x);
    let dy = decimal_digits(y);
    let m = dx + r1;
    if dx.len() < dy.len() {
        assert(m[dx.len() as int] == r1[0]);
        assert((dy + r2)[dx.len() as int] == dy[dx.len() as int]);
    } else if dy.len() < dx.len() {
        assert((dy + r2)[dy.len() as int] == r2[0]);
        assert(m[dy.len() as int] == dx[dy.len() as int]);
    }
    assert(dx =~= m.subrange(0, dx.len() as int));
    assert(dy =~= (dy + r2).subrange(0, dy.len() as int));
    assert(r1 =~= m.subrange(dx.len() as int, m.len() as int));
    assert(r2 =~= (dy + r2).subrange(dy.len() as int, m.len() as int));
    lemma_decimal_digits_injective(x, y);
}

/// The escaped body of a JSON string, read from the front.
pub proof fn lemma_json_escaped_front(b: u8, rest: Seq<u8>)
    ensures
        json_escaped(seq![b] + rest) == json_escape_byte(b) + json_escaped(rest),
    decreases rest.len(),
{
    let s = seq![b] + rest;
    if rest.len() == 0 {
        assert(s.drop_last() =~= Seq::<u8>::empty());
        assert(json_escaped(Seq::<u8>::empty()) =~= Seq::<u8>::empty());
        assert(json_escaped(s) =~= json_escape_byte(b));
    } else {
        assert(s.drop_last() =~= seq![b] + rest.drop_last());
        lemma_json_escaped_front(b, rest.drop_last());
        assert(json_escaped(s) =~= json_escape_byte(b) + json_escaped(rest));
    }
}

proof fn lemma_hex_digit_byte(n: int)
    requires
        0 <= n < 16,
    ensures
        hex_digit(n) as u8 == if n < 10 { n + 48 } else { n + 87 },
{
    if n < 10 {
        assert(((n + 48) as char) as u32 == n + 48);
    } else {
        assert(((n + 87) as char) as u32 == n + 87);
    }
}

/// Each escape starts with a backslash, or is a single byte that is
/// neither a quote nor a backslash.
proof fn lemma_escape_shape(b: u8)
    ensures
        json_escape_byte(b).len() >= 1,
        json_escape_byte(b)[0] != 34,
        json_escape_byte(b)[0] == 92 || json_escape_byte(b) == seq![b],
{
}

/// Escapes can be split back apart: the escape of a byte is never a proper
/// prefix of another, and different bytes have different escapes.
proof fn lemma_escape_prefix(x: u8, y: u8, t1: Seq<u8>, t2: Seq<u8>)
    requires
        json_escape_byte(x) + t1 == json_escape_byte(y) + t2,
    ensures
        x == y,
        t1 == t2,
{
    let ex = json_escape_byte(x);
    let ey = json_escape_byte(y);
    let m = ex + t1;
    let n = ey + t2;
    assert(m[0] == ex[0]);
    assert(n[0] == ey[0]);
    if ex[0] != 92 || ey[0] != 92 {
        assert(ex.len() == 1 && ey.len() == 1);
        assert(ex[0] == x);
        assert(ey[0] == y);
    } else {
        assert(m[1] == ex[1]);
        assert(n[1] == ey[1]);
        if ex[1] == 117 {
            lemma_hex_digit_byte(x as int / 16);
            lemma_hex_digit_byte(x as int % 16);
            lemma_hex_digit_byte(y as int / 16);
            lemma_hex_digit_byte(y as int % 16);
            assert(m[4] == ex[4] && m[5] == ex[5]);
            assert(n[4] == ey[4] && n[5] == ey[5]);
            assert(ex.len() == 6 && ey.len() == 6);
            assert(x as int / 16 == y as int / 16);
            assert(x as int % 16 == y as int % 16);
        } else {
            assert(ex.len() == 2 && ey.len() == 2);
        }
    }
    assert(ex == ey);
    assert(t1 =~= m.subrange(ex.len() as int, m.len() as int));
    assert(t2 =~= n.subrange(ey.len() as int, n.len() as int));
}

/// An escaped body followed by a quote can be split back apart: the quote
/// that ends it is the first unescaped one.
pub proof fn lemma_json_escaped_prefix(a: Seq<u8>, b: Seq<u8>, r1: Seq<u8>, r2: Seq<u8>)
    requires
        json_escaped(a) + (seq![34u8] + r1) == json_escaped(b) + (seq![34u8] + r2),
    ensures
        a == b,
        r1 == r2,
    decreases a.len(),
{
    let q1 = seq![34u8] + r1;
    let q2 = seq![34u8] + r2;
    if a.len() == 0 && b.len() == 0 {
        assert(json_escaped(a) =~= Seq::<u8>::empty());
        assert(json_escaped(b) =~= Seq::<u8>::empty());
        assert(q1 == q2);
        assert(r1 =~= q1.drop_first());
        assert(r2 =~= q2.drop_first());
        assert(a =~= b);
    } else if a.len() == 0 {
        assert(json_escaped(a) =~= Seq::<u8>::empty());
        assert(b =~= seq![b[0]] + b.drop_first());
        lemma_json_escaped_front(b[0], b.drop_first());
        lemma_escape_shape(b[0]);
        let rhs = json_escape_byte(b[0]) + (json_escaped(b.drop_first()) + q2);
        assert(json_escaped(b) + q2 =~= rhs);
        assert(rhs[0] == json_escape_byte(b[0])[0]);
        assert((json_escaped(a) + q1)[0] == 34);
    } else if b.len() == 0 {
        assert(json_escaped(b) =~= Seq::<u8>::empty());
        assert(a =~= seq![a[0]] + a.drop_first());
        lemma_json_escaped_front(a[0], a.drop_first());
        lemma_escape_shape(a[0]);
        let lhs = json_escape_byte(a[0]) + (json_escaped(a.drop_first()) + q1);
        assert(json_escaped(a) + q1 =~= lhs);
        assert(lhs[0] == json_escape_byte(a[0])[0]);
        assert((json_escaped(b) + q2)[0] == 34);
    } else {
        assert(a =~= seq![a[0]] + a.drop_first());
        assert(b =~= seq![b[0]] + b.drop_first());
        lemma_json_escaped_front(a[0], a.drop_first());
        lemma_json_escaped_front(b[0], b.drop_first());
        let t1 = json_escaped(a.drop_first()) + q1;
        let t2 = json_escaped(b.drop_first()) + q2;
        assert(json_escaped(a) + q1 =~= json_escape_byte(a[0]) + t1);
        assert(json_escaped(b) + q2 =~= json_escape_byte(b[0]) + t2);
        lemma_escape_prefix(a[0], b[0], t1, t2);
        lemma_json_escaped_prefix(a.drop_first(), b.drop_first(), r1, r2);
        assert(a =~= b);
    }
}

/// A JSON string literal followed by anything can be split back apart, and
/// different texts have different literals.
pub proof fn lemma_json_string_prefix(u: Seq<char>, v: Seq<char>, r1: Seq<u8>, r2: Seq<u8>)
    requires
        json_string(u) + r1 == json_string(v) + r2,
    ensures
        u == v,
        r1 == r2,
{
    let eu = json_escaped(encode_utf8(u));
    let ev = json_escaped(encode_utf8(v));
    let m1 = json_string(u) + r1;
    let m2 = json_string(v) + r2;
    assert(m1 =~= seq![34u8] + (eu + (seq![34u8] + r1)));
    assert(m2 =~= seq![34u8] + (ev + (seq![34u8] + r2)));
    assert(eu + (seq![34u8] + r1) =~= m1.drop_first());
    assert(ev + (seq![34u8] + r2) =~= m2.drop_first());
    lemma_json_escaped_prefix(encode_utf8(u), encode_utf8(v), r1, r2);
    vstd::utf8::encode_utf8_decode_utf8(u);
    vstd::utf8::encode_utf8_decode_utf8(v);
}

/// The UTF-8 bytes of ASCII text are its characters, byte for byte.
pub proof fn lemma_ascii_bytes(s: Seq<char>)
    requires
        vstd::utf8::is_ascii_chars(s),
    ensures
        encode_utf8(s).len() == s.len(),
        forall|i: int| 0 <= i < s.len() ==> encode_utf8(s)[i] == s[i] as u8,
{
    vstd::utf8::is_ascii_chars_encode_utf8(s);
}

} // verus!

verus! {

/// The ASCII lower-case form of a byte: `A`..`Z` become `a`..`z`; other
/// bytes stay.
pub open spec fn ascii_lower(b: u8) -> u8 {
    if 65 <= b <= 90 {
        (b + 32) as u8
    } else {
        b
    }
}

/// The ASCII upper-case form of a byte: `a`..`z` become `A`..`Z`; other
/// bytes stay.
pub open spec fn ascii_upper(b: u8) -> u8 {
    if 97 <= b <= 122 {
        (b - 32) as u8
    } else {
        b
    }
}

/// Hex decoding does not depend on letter case: text and its lower-case
/// form decode alike (both fail, or both give the same bytes).
pub proof fn lemma_hex_decode_ignores_case(text: Seq<u8>)
    ensures
        hex_decode(text.map_values(|b: u8| ascii_lower(b))) == hex_decode(text),
        hex_decode(text.map_values(|b: u8| ascii_upper(b))) == hex_decode(text),
{
    let lower = text.map_values(|b: u8| ascii_lower(b));
    let upper = text.map_values(|b: u8| ascii_upper(b));
    assert forall|b: u8| #[trigger] hex_value(ascii_lower(b)) == hex_value(b) && hex_value(ascii_upper(b)) == hex_value(b) by {}
    assert forall|i: int| 0 <= i < text.len() implies #[trigger] hex_value(lower[i]) == hex_value(text[i]) && hex_value(upper[i]) == hex_value(text[i]) by {
        assert(lower[i] == ascii_lower(text[i]));
        assert(upper[i] == ascii_upper(text[i]));
        assert(hex_value(ascii_lower(text[i])) == hex_value(text[i]));
        assert(hex_value(ascii_upper(text[i])) == hex_value(text[i]));
    }
    if text.len() % 2 == 0 {
        if exists|i: int| 0 <= i < text.len() && #[trigger] hex_value(text[i]) is None {
            let i = choose|i: int| 0 <= i < text.len() && #[trigger] hex_value(text[i]) is None;
            assert(hex_value(lower[i]) is None);
            assert(hex_value(upper[i]) is None);
        } else {
            assert(!exists|i: int| 0 <= i < lower.len() && #[trigger] hex_value(lower[i]) is None);
            assert(!exists|i: int| 0 <= i < upper.len() && #[trigger] hex_value(upper[i]) is None);
            let d = Seq::new(text.len() / 2, |k: int| (hex_value(text[2 * k])->0 * 16 + hex_value(text[2 * k + 1])->0) as u8);
            let dl = Seq::new(lower.len() / 2, |k: int| (hex_value(lower[2 * k])->0 * 16 + hex_value(lower[2 * k + 1])->0) as u8);
            let du = Seq::new(upper.len() / 2, |k: int| (hex_value(upper[2 * k])->0 * 16 + hex_value(upper[2 * k + 1])->0) as u8);
            assert forall|k: int| 0 <= k < d.len() implies #[trigger] dl[k] == d[k] && du[k] == d[k] by {
                assert(hex_value(lower[2 * k]) == hex_value(text[2 * k]));
                assert(hex_value(lower[2 * k + 1]) == hex_value(text[2 * k + 1]));
                assert(hex_value(upper[2 * k]) == hex_value(text[2 * k]));
                assert(hex_value(upper[2 * k + 1]) == hex_value(text[2 * k + 1]));
            }
            assert(dl =~= d);
            assert(du =~= d);
        }
    }
}

/// Upper-case hex text decodes like the lower-case text: the upper-case
/// hex of any bytes decodes back to those bytes.
pub proof fn lemma_upper_hex_roundtrip(bytes: Seq<u8>)
    ensures
        hex_decode(encode_utf8(hex_lower(bytes)).map_values(|b: u8| ascii_upper(b))) == Some(bytes),
{
    lemma_hex_roundtrip(bytes);
    lemma_hex_decode_ignores_case(encode_utf8(hex_lower(bytes)));
}

} // verus!
