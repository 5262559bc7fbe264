//! The byte- and character-level primitives of the query-string language:
//! percent decoding, form decoding and encoding, and decimal numbers.
use vstd::prelude::*;

use crate::trusted::{char_utf8_bytes, utf8_to_string};
use vstd::utf8::{decode_utf8, encode_scalar, valid_utf8};

verus! {

/// The value of a hexadecimal digit, or `-1` for any other byte.
pub open spec fn hex_val(b: u8) -> int {
    if 0x30 <= b <= 0x39 {
        b - 0x30
    } else if 0x61 <= b <= 0x66 {
        b - 0x57
    } else if 0x41 <= b <= 0x46 {
        b - 0x37
    } else {
        -1
    }
}

/// Percent decoding: each `%` followed by two hexadecimal digits becomes
/// one byte; everything else is copied.
pub open spec fn pct_decode_bytes(s: Seq<u8>) -> Seq<u8>
    decreases s.len(),
{
    if s.len() == 0 {
        Seq::empty()
    } else if s[0] == 0x25 && s.len() >= 3 && hex_val(s[1]) >= 0 && hex_val(s[2]) >= 0 {
        seq![(hex_val(s[1]) * 16 + hex_val(s[2])) as u8] + pct_decode_bytes(s.skip(3))
    } else {
        seq![s[0]] + pct_decode_bytes(s.skip(1))
    }
}

/// Form decoding turns `+` into a space before resolving percent escapes.
pub open spec fn plus_to_space(s: Seq<u8>) -> Seq<u8> {
    Seq::new(s.len(), |i: int| if s[i] == 0x2b { 0x20u8 } else { s[i] })
}

/// Form decoding of one query-string component: `+` means space, and
/// percent escapes are resolved.
pub open spec fn form_decode_bytes(s: Seq<u8>) -> Seq<u8> {
    pct_decode_bytes(plus_to_space(s))
}

/// The text of one query-string component: its form decoding read as
/// UTF-8, or nothing when the bytes are not valid UTF-8.
pub open spec fn component_text(s: Seq<u8>) -> Option<Seq<char>> {
    if valid_utf8(form_decode_bytes(s)) {
        Some(decode_utf8(form_decode_bytes(s)))
    } else {
        None
    }
}

/// The exact value of a hexadecimal digit byte.
fn hex_val_exec(b: u8) -> (r: i8)
    ensures
        r as int == hex_val(b),
{
    if 0x30 <= b && b <= 0x39 {
        (b - 0x30) as i8
    } else if 0x61 <= b && b <= 0x66 {
        (b - 0x57) as i8
    } else if 0x41 <= b && b <= 0x46 {
        (b - 0x37) as i8
    } else {
        -1
    }
}

/// Percent-decodes a byte string.
pub fn pct_decode(data: &[u8]) -> (r: Vec<u8>)
    ensures
        r@ == pct_decode_bytes(data@),
{
    let n = data.len();
    let mut out: Vec<u8> = Vec::new();
    let mut i: usize = 0;
    proof {
        assert(data@.skip(0) =~= data@);
        assert(Seq::<u8>::empty() + pct_decode_bytes(data@) =~= pct_decode_bytes(data@));
    }
    while i < n
        invariant
            n == data@.len(),
            i <= n,
            pct_decode_bytes(data@) =~= out@ + pct_decode_bytes(data@.skip(i as int)),
        decreases n - i,
    {
        let ghost rest = data@.skip(i as int);
        if data[i] == 0x25 && n - i >= 3 {
            let h = hex_val_exec(data[i + 1]);
            let l = hex_val_exec(data[i + 2]);
            if h >= 0 && l >= 0 {
                out.push((h as u8) * 16 + (l as u8));
                proof {
                    assert(rest.skip(3) =~= data@.skip(i as int + 3));
                    assert(out@ + pct_decode_bytes(data@.skip(i as int + 3)) =~= out@.drop_last()
                        + pct_decode_bytes(rest));
                }
                i = i + 3;
                continue ;
            }
        }
        out.push(data[i]);
        proof {
            assert(rest.skip(1) =~= data@.skip(i as int + 1));
            assert(out@ + pct_decode_bytes(data@.skip(i as int + 1)) =~= out@.drop_last()
                + pct_decode_bytes(rest));
        }
        i = i + 1;
    }
    proof {
        assert(data@.skip(n as int) =~= Seq::<u8>::empty());
        assert(out@ + Seq::<u8>::empty() =~= out@);
    }
    out
}

/// Form-decodes one component and reads it as UTF-8 text.
pub fn decode_component(data: &[u8]) -> (r: Option<String>)
    ensures
        r is Some <==> component_text(data@) is Some,
        r matches Some(s) ==> s@ == component_text(data@).unwrap(),
{
    let n = data.len();
    let mut mapped: Vec<u8> = Vec::new();
    let mut i: usize = 0;
    while i < n
        invariant
            n == data@.len(),
            i <= n,
            mapped@ =~= plus_to_space(data@).take(i as int),
        decreases n - i,
    {
        if data[i] == 0x2b {
            mapped.push(0x20);
        } else {
            mapped.push(data[i]);
        }
        proof {
            assert(mapped@ =~= plus_to_space(data@).take(i as int + 1));
        }
        i = i + 1;
    }
    proof {
        assert(plus_to_space(data@).take(n as int) =~= plus_to_space(data@));
    }
    let decoded = pct_decode(mapped.as_slice());
    match utf8_to_string(decoded.as_slice()) {
        Some(s) => {
            proof {
                vstd::utf8::encode_utf8_decode_utf8(s@);
            }
            Some(s)
        },
        None => None,
    }
}

/// The index of the first `b` in `s`, or `-1` when there is none.
pub open spec fn find_byte(s: Seq<u8>, b: u8) -> int
    decreases s.len(),
{
    if s.len() == 0 {
        -1
    } else if s[0] == b {
        0
    } else {
        let r = find_byte(s.drop_first(), b);
        if r < 0 {
            -1
        } else {
            r + 1
        }
    }
}

/// Splits `s` on `b`; the result always has at least one segment, and empty
/// segments are kept.
pub open spec fn split_byte(s: Seq<u8>, b: u8) -> Seq<Seq<u8>>
    decreases s.len(),
{
    let f = find_byte(s, b);
    if 0 <= f < s.len() {
        seq![s.take(f)] + split_byte(s.skip(f + 1), b)
    } else {
        seq![s]
    }
}

/// When the first `k` bytes of `s` are not `b`, the first `b` of `s` is at
/// `k` exactly when the byte there matches, and absent when `k` is the end.
pub proof fn lemma_find_byte_at(s: Seq<u8>, b: u8, k: int)
    requires
        0 <= k <= s.len(),
        forall|j: int| 0 <= j < k ==> s[j] != b,
        k < s.len() ==> s[k] == b,
    ensures
        find_byte(s, b) == if k == s.len() {
            -1int
        } else {
            k
        },
    decreases s.len(),
{
    if s.len() > 0 && s[0] != b {
        let t = s.drop_first();
        assert(forall|j: int| 0 <= j < k - 1 ==> t[j] != b);
        lemma_find_byte_at(t, b, k - 1);
    }
}

/// The position of the first `b` in the slice, if any.
pub fn find_byte_exec(data: &[u8], b: u8) -> (r: Option<usize>)
    ensures
        r matches Some(i) ==> i == find_byte(data@, b) && i < data@.len() && data@[i as int] == b,
        r is None ==> find_byte(data@, b) == -1,
        r is Some <==> find_byte(data@, b) >= 0,
{
    let n = data.len();
    let mut i: usize = 0;
    while i < n
        invariant
            n == data@.len(),
            i <= n,
            forall|j: int| 0 <= j < i ==> data@[j] != b,
        decreases n - i,
    {
        if data[i] == b {
            proof {
                lemma_find_byte_at(data@, b, i as int);
            }
            return Some(i);
        }
        i = i + 1;
    }
    proof {
        lemma_find_byte_at(data@, b, n as int);
    }
    None
}

/// Splits a byte slice on the given byte, keeping empty segments.
pub fn split_byte_exec(data: &[u8], b: u8) -> (r: Vec<Vec<u8>>)
    ensures
        r@.len() == split_byte(data@, b).len(),
        forall|j: int| 0 <= j < r@.len() ==> #[trigger] r@[j]@ == split_byte(data@, b)[j],
{
    let n = data.len();
    let mut segs: Vec<Vec<u8>> = Vec::new();
    let mut cur: Vec<u8> = Vec::new();
    let mut start: usize = 0;
    let mut i: usize = 0;
    proof {
        assert(byte_seq_views(segs@) =~= Seq::<Seq<u8>>::empty());
        assert(data@.skip(0) =~= data@);
        assert(Seq::<Seq<u8>>::empty() + split_byte(data@, b) =~= split_byte(data@, b));
    }
    while i < n
        invariant
            n == data@.len(),
            start <= i <= n,
            cur@ =~= data@.subrange(start as int, i as int),
            forall|j: int| start <= j < i ==> data@[j] != b,
            split_byte(data@, b) =~= byte_seq_views(segs@) + split_byte(
                data@.skip(start as int),
                b,
            ),
        decreases n - i,
    {
        if data[i] == b {
            let ghost rest = data@.skip(start as int);
            proof {
                lemma_find_byte_at(rest, b, i - start);
                assert(rest.take(i - start) =~= data@.subrange(start as int, i as int));
                assert(rest.skip(i - start + 1) =~= data@.skip(i as int + 1));
            }
            segs.push(cur);
            cur = Vec::new();
            proof {
                assert(byte_seq_views(segs@) =~= byte_seq_views(segs@.drop_last()).push(
                    data@.subrange(start as int, i as int),
                ));
                assert(split_byte(data@, b) =~= byte_seq_views(segs@) + split_byte(
                    data@.skip(i as int + 1),
                    b,
                ));
            }
            start = i + 1;
        } else {
            cur.push(data[i]);
            proof {
                assert(cur@ =~= data@.subrange(start as int, i as int + 1));
            }
        }
        i = i + 1;
    }
    let ghost rest = data@.skip(start as int);
    proof {
        lemma_find_byte_at(rest, b, n - start);
        assert(rest =~= data@.subrange(start as int, n as int));
    }
    segs.push(cur);
    proof {
        assert(byte_seq_views(segs@) =~= byte_seq_views(segs@.drop_last()).push(
            data@.subrange(start as int, n as int),
        ));
        assert(split_byte(data@, b) =~= byte_seq_views(segs@));
        assert(forall|j: int|
            0 <= j < segs@.len() ==> #[trigger] segs@[j]@ == byte_seq_views(segs@)[j]);
    }
    segs
}

/// The views of a sequence of byte vectors.
pub open spec fn byte_seq_views(items: Seq<Vec<u8>>) -> Seq<Seq<u8>> {
    Seq::new(items.len(), |i: int| items[i]@)
}

/// True for a decimal digit.
pub open spec fn is_digit(c: char) -> bool {
    '0' <= c && c <= '9'
}

/// The value of a string of decimal digits.
pub open spec fn digits_val(s: Seq<char>) -> int
    decreases s.len(),
{
    if s.len() == 0 {
        0
    } else {
        digits_val(s.drop_last()) * 10 + (s.last() as int - 0x30)
    }
}

/// What parsing an unsigned decimal number returns.
pub open spec fn u64_parse(s: Seq<char>) -> Option<u64> {
    if s.len() > 0 && (forall|i: int| 0 <= i < s.len() ==> is_digit(#[trigger] s[i])) && digits_val(
        s,
    ) <= u64::MAX {
        Some(digits_val(s) as u64)
    } else {
        None
    }
}

/// A digit string's value is not negative.
proof fn lemma_digits_val_nonneg(s: Seq<char>)
    requires
        forall|i: int| 0 <= i < s.len() ==> is_digit(#[trigger] s[i]),
    ensures
        digits_val(s) >= 0,
    decreases s.len(),
{
    if s.len() > 0 {
        lemma_digits_val_nonneg(s.drop_last());
    }
}

/// A digit string's value is at least the value of any of its prefixes.
proof fn lemma_digits_val_prefix(s: Seq<char>, i: int)
    requires
        forall|j: int| 0 <= j < s.len() ==> is_digit(#[trigger] s[j]),
        0 <= i <= s.len(),
    ensures
        digits_val(s) >= digits_val(s.take(i)),
    decreases s.len() - i,
{
    if i == s.len() {
        assert(s.take(i) =~= s);
    } else {
        let p = s.take(i + 1);
        assert(p.drop_last() =~= s.take(i));
        assert(forall|j: int| 0 <= j < p.len() ==> is_digit(#[trigger] p[j]));
        lemma_digits_val_nonneg(s.take(i));
        assert(digits_val(p) >= digits_val(s.take(i)));
        lemma_digits_val_prefix(s, i + 1);
    }
}

/// Parses an unsigned decimal number, rejecting the empty string, any
/// non-digit, and overflow.
pub fn parse_u64(s: &str) -> (r: Option<u64>)
    ensures
        r == u64_parse(s@),
{
    let n = s.unicode_len();
    if n == 0 {
        return None;
    }
    let mut val: u64 = 0;
    let mut i: usize = 0;
    while i < n
        invariant
            n == s@.len(),
            0 < n,
            i <= n,
            forall|j: int| 0 <= j < i ==> is_digit(#[trigger] s@[j]),
            val as int == digits_val(s@.take(i as int)),
        decreases n - i,
    {
        let c = s.get_char(i);
        if !(c >= '0' && c <= '9') {
            return None;
        }
        let d = (c as u8) - 0x30;
        proof {
            assert(s@.take(i as int + 1).drop_last() =~= s@.take(i as int));
            lemma_digits_val_nonneg(s@.take(i as int));
        }
        if val > (u64::MAX - (d as u64)) / 10 {
            proof {
                assert(digits_val(s@.take(i as int + 1)) > u64::MAX);
                if forall|j: int| 0 <= j < s@.len() ==> is_digit(#[trigger] s@[j]) {
                    lemma_digits_val_prefix(s@, i as int + 1);
                }
            }
            return None;
        }
        val = val * 10 + (d as u64);
        i = i + 1;
    }
    proof {
        assert(s@.take(n as int) =~= s@);
    }
    Some(val)
}

/// The character of a decimal digit value.
pub open spec fn digit_char(d: int) -> char {
    ((d + 0x30) as u8) as char
}

/// The decimal text of a non-negative number.
pub open spec fn dec_digits(n: int) -> Seq<char>
    decreases n,
{
    if n < 0 {
        Seq::empty()
    } else if n < 10 {
        seq![digit_char(n)]
    } else {
        dec_digits(n / 10).push(digit_char(n % 10))
    }
}

/// Formats a number as decimal text.
pub fn fmt_u64(n: u64) -> (r: String)
    ensures
        r@ == dec_digits(n as int),
    decreases n,
{
    if n < 10 {
        let mut s = String::new();
        s.push(((n as u8) + 0x30) as char);
        proof {
            assert(s@ =~= dec_digits(n as int));
        }
        s
    } else {
        let mut s = fmt_u64(n / 10);
        s.push((((n % 10) as u8) + 0x30) as char);
        proof {
            assert(s@ =~= dec_digits(n as int));
        }
        s
    }
}

/// Parsing the decimal text of a number gives the number back.
pub proof fn lemma_decimal_round_trip(n: u64)
    ensures
        u64_parse(dec_digits(n as int)) == Some(n),
    decreases n,
{
    let s = dec_digits(n as int);
    assert(digit_char(n as int % 10) as int == n as int % 10 + 0x30) by {
        let b: u8 = ((n as int % 10) + 0x30) as u8;
        assert((b as char) as int == b as int);
    }
    if n < 10 {
        assert(s =~= seq![digit_char(n as int)]);
        assert(digit_char(n as int) as int == n + 0x30) by {
            let b: u8 = ((n as int) + 0x30) as u8;
            assert((b as char) as int == b as int);
        }
        assert(is_digit(s[0]));
        assert(digits_val(s) == n) by {
            assert(s.len() == 1);
            assert(s.drop_last() =~= Seq::<char>::empty());
            assert(digits_val(Seq::<char>::empty()) == 0);
            assert(s.last() == digit_char(n as int));
            assert(s.last() as int == n + 0x30);
            assert(digits_val(s) == digits_val(s.drop_last()) * 10 + (s.last() as int - 0x30));
        }
        assert(forall|i: int| 0 <= i < s.len() ==> is_digit(#[trigger] s[i]));
        assert(u64_parse(s) == Some(n));
    } else {
        lemma_decimal_round_trip(n / 10);
        let p = dec_digits(n as int / 10);
        assert(s =~= p.push(digit_char(n as int % 10)));
        assert(s.drop_last() =~= p);
        assert(digits_val(s) == digits_val(p) * 10 + (n as int % 10));
        assert(forall|i: int| 0 <= i < p.len() ==> is_digit(#[trigger] p[i]));
        assert(forall|i: int| 0 <= i < s.len() ==> is_digit(#[trigger] s[i])) by {
            assert(forall|i: int| 0 <= i < s.len() - 1 ==> s[i] == p[i]);
            assert(is_digit(s[s.len() - 1]));
        }
        lemma_digits_val_nonneg(p);
        assert(digits_val(p) == n as int / 10);
        assert(digits_val(s) == n);
        assert(u64_parse(s) == Some(n));
    }
}

/// True for the characters that form encoding copies unchanged.
pub open spec fn form_safe(c: char) -> bool {
    ||| ('0' <= c && c <= '9')
    ||| ('a' <= c && c <= 'z')
    ||| ('A' <= c && c <= 'Z')
    ||| c == '*'
    ||| c == '-'
    ||| c == '.'
    ||| c == '_'
}

/// The uppercase hexadecimal character of a value below sixteen.
pub open spec fn hex_char(d: int) -> char {
    if d < 10 {
        ((d + 0x30) as u8) as char
    } else {
        ((d + 0x37) as u8) as char
    }
}

/// The percent escape of one byte.
pub open spec fn pct_escape(b: u8) -> Seq<char> {
    seq!['%', hex_char(b as int / 16), hex_char(b as int % 16)]
}

/// The percent escapes of a byte string.
pub open spec fn pct_escapes(s: Seq<u8>) -> Seq<char>
    decreases s.len(),
{
    if s.len() == 0 {
        Seq::empty()
    } else {
        pct_escape(s[0]) + pct_escapes(s.drop_first())
    }
}

/// Form encoding of one character: safe characters are copied, a space
/// becomes `+`, and anything else becomes the percent escapes of its UTF-8
/// bytes.
pub open spec fn form_encode_char(c: char) -> Seq<char> {
    if form_safe(c) {
        seq![c]
    } else if c == ' ' {
        seq!['+']
    } else {
        pct_escapes(encode_scalar(c as u32))
    }
}

/// Form encoding of a text, character by character.
pub open spec fn form_encode_text(s: Seq<char>) -> Seq<char>
    decreases s.len(),
{
    if s.len() == 0 {
        Seq::empty()
    } else {
        form_encode_char(s[0]) + form_encode_text(s.drop_first())
    }
}

/// Appends the percent escape of one byte.
fn push_pct_escape(out: &mut String, b: u8)
    ensures
        final(out)@ == old(out)@ + pct_escape(b),
{
    out.push('%');
    let h = b / 16;
    let l = b % 16;
    out.push(if h < 10 {
        (h + 0x30) as char
    } else {
        (h + 0x37) as char
    });
    out.push(if l < 10 {
        (l + 0x30) as char
    } else {
        (l + 0x37) as char
    });
    proof {
        assert(final(out)@ =~= old(out)@ + pct_escape(b));
    }
}

/// Form-encodes a text: safe characters are copied, a space becomes `+`,
/// and anything else becomes the percent escapes of its UTF-8 bytes.
pub fn form_encode(s: &str) -> (r: String)
    ensures
        r@ == form_encode_text(s@),
{
    let n = s.unicode_len();
    let mut out = String::new();
    let mut i: usize = 0;
    proof {
        assert(s@.skip(0) =~= s@);
        assert(Seq::<char>::empty() + form_encode_text(s@) =~= form_encode_text(s@));
    }
    while i < n
        invariant
            n == s@.len(),
            i <= n,
            form_encode_text(s@) =~= out@ + form_encode_text(s@.skip(i as int)),
        decreases n - i,
    {
        let ghost rest = s@.skip(i as int);
        let ghost pre = out@;
        let c = s.get_char(i);
        proof {
            assert(rest[0] == c);
            assert(rest.drop_first() =~= s@.skip(i as int + 1));
        }
        if (c >= '0' && c <= '9') || (c >= 'a' && c <= 'z') || (c >= 'A' && c <= 'Z') || c == '*'
            || c == '-' || c == '.' || c == '_' {
            out.push(c);
            proof {
                assert(out@ + form_encode_text(s@.skip(i as int + 1)) =~= pre + (seq![c]
                    + form_encode_text(rest.drop_first())));
            }
        } else if c == ' ' {
            out.push('+');
            proof {
                assert(out@ + form_encode_text(s@.skip(i as int + 1)) =~= pre + (seq!['+']
                    + form_encode_text(rest.drop_first())));
            }
        } else {
            let bytes = char_utf8_bytes(c);
            let m = bytes.len();
            let mut j: usize = 0;
            while j < m
                invariant
                    m == bytes@.len(),
                    j <= m,
                    bytes@ == encode_scalar(c as u32),
                    out@ =~= pre + pct_escapes(bytes@.take(j as int)),
                decreases m - j,
            {
                push_pct_escape(&mut out, bytes[j]);
                proof {
                    lemma_pct_escapes_snoc(bytes@, j as int);
                }
                j = j + 1;
            }
            proof {
                assert(bytes@.take(m as int) =~= bytes@);
                assert(out@ + form_encode_text(s@.skip(i as int + 1)) =~= pre + (pct_escapes(
                    bytes@,
                ) + form_encode_text(rest.drop_first())));
            }
        }
        i = i + 1;
    }
    proof {
        assert(s@.skip(n as int) =~= Seq::<char>::empty());
        assert(out@ + Seq::<char>::empty() =~= out@);
    }
    out
}

/// Escaping one more byte appends its escape.
proof fn lemma_pct_escapes_snoc(s: Seq<u8>, j: int)
    requires
        0 <= j < s.len(),
    ensures
        pct_escapes(s.take(j + 1)) =~= pct_escapes(s.take(j)) + pct_escape(s[j]),
    decreases j,
{
    if j == 0 {
        assert(s.take(1) =~= seq![s[0]]);
        assert(s.take(1).drop_first() =~= Seq::<u8>::empty());
        assert(s.take(0) =~= Seq::<u8>::empty());
    } else {
        let t = s.drop_first();
        lemma_pct_escapes_snoc(t, j - 1);
        assert(s.take(j + 1)[0] == s[0]);
        assert(s.take(j + 1).drop_first() =~= t.take(j));
        assert(s.take(j).drop_first() =~= t.take(j - 1));
        assert(t[j - 1] == s[j]);
    }
}

/// True exactly when the two strings hold the same characters.
pub fn str_is(a: &str, b: &str) -> (r: bool)
    ensures
        r == (a@ == b@),
{
    let n = a.unicode_len();
    let m = b.unicode_len();
    if n != m {
        return false;
    }
    let mut i: usize = 0;
    while i < n
        invariant
            n == a@.len(),
            n == b@.len(),
            i <= n,
            forall|j: int| 0 <= j < i ==> a@[j] == b@[j],
        decreases n - i,
    {
        if a.get_char(i) != b.get_char(i) {
            return false;
        }
        i = i + 1;
    }
    proof {
        assert(a@ =~= b@);
    }
    true
}

} // verus!
