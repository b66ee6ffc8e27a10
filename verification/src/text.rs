//! Text encodings: ASCII text of bytes, `application/x-www-form-urlencoded`
//! bytes, lowercase hex, and UTF-8 decoding.

use vstd::prelude::*;
use vstd::utf8::{
    decode_utf8, encode_utf8, encode_utf8_decode_utf8, encode_utf8_valid_utf8, is_ascii_chars,
    is_ascii_chars_encode_utf8, valid_utf8,
};

verus! {

/// Every byte is below 128.
pub open spec fn is_ascii_bytes(bytes: Seq<u8>) -> bool {
    forall|i: int| 0 <= i < bytes.len() ==> #[trigger] bytes[i] < 128
}

/// The characters whose codes are the given bytes.
pub open spec fn ascii_text(bytes: Seq<u8>) -> Seq<char> {
    Seq::new(bytes.len(), |i: int| bytes[i] as char)
}

/// ASCII bytes are valid UTF-8 and read as the characters with those codes.
pub proof fn lemma_ascii_utf8(bytes: Seq<u8>)
    requires
        is_ascii_bytes(bytes),
    ensures
        valid_utf8(bytes),
        decode_utf8(bytes) == ascii_text(bytes),
{
    let chars = ascii_text(bytes);
    assert forall|i: int| 0 <= i < chars.len() implies '\0' <= #[trigger] chars[i] <= '\u{7f}' by {
        let b = bytes[i];
        assert(b < 128);
        assert(chars[i] == b as char);
    }
    assert(is_ascii_chars(chars));
    is_ascii_chars_encode_utf8(chars);
    assert forall|i: int| 0 <= i < chars.len() implies #[trigger] encode_utf8(chars)[i]
        == bytes[i] by {
        assert(chars[i] as u8 == encode_utf8(chars)[i]);
        let b = bytes[i];
        assert((b as char) as u8 == b);
    }
    assert(encode_utf8(chars) =~= bytes);
    encode_utf8_valid_utf8(chars);
    encode_utf8_decode_utf8(chars);
}

/// The byte is an ASCII letter or digit.
pub open spec fn is_ascii_alphanumeric(b: u8) -> bool {
    (48 <= b <= 57) || (65 <= b <= 90) || (97 <= b <= 122)
}

/// The byte is left as it is by form-urlencoding.
pub open spec fn is_urlencode_unreserved(b: u8) -> bool {
    is_ascii_alphanumeric(b) || b == 42 || b == 45 || b == 46 || b == 95
}

/// The uppercase hex digit of a value below 16.
pub open spec fn hex_digit_upper(n: u8) -> char {
    if n < 10 {
        (48 + n) as char
    } else {
        (55 + n) as char
    }
}

/// The lowercase hex digit of a value below 16.
pub open spec fn hex_digit_lower(n: u8) -> char {
    if n < 10 {
        (48 + n) as char
    } else {
        (87 + n) as char
    }
}

/// The form-urlencoding of one byte: unreserved bytes stay, a space is `+`,
/// any other byte is `%` and its two uppercase hex digits.
pub open spec fn urlencode_byte(b: u8) -> Seq<char> {
    if is_urlencode_unreserved(b) {
        seq![b as char]
    } else if b == 32 {
        seq!['+']
    } else {
        seq!['%', hex_digit_upper(b / 16), hex_digit_upper(b % 16)]
    }
}

/// The `application/x-www-form-urlencoded` serialization of a byte string.
pub open spec fn urlencode(bytes: Seq<u8>) -> Seq<char>
    decreases bytes.len(),
{
    if bytes.len() == 0 {
        Seq::empty()
    } else {
        urlencode(bytes.drop_last()) + urlencode_byte(bytes.last())
    }
}

/// The lowercase hex encoding of a byte string, two digits per byte.
pub open spec fn hex_lower(bytes: Seq<u8>) -> Seq<char>
    decreases bytes.len(),
{
    if bytes.len() == 0 {
        Seq::empty()
    } else {
        hex_lower(bytes.drop_last()) + seq![
            hex_digit_lower(bytes.last() / 16),
            hex_digit_lower(bytes.last() % 16),
        ]
    }
}

/// `form_urlencoded::byte_serialize`, collected into a `String`. Its
/// contract claims what the crate's source does: bytes `*`, `-`, `.`, `_`,
/// ASCII letters and digits are kept, a space becomes `+`, and every other
/// byte becomes `%` followed by two uppercase hex digits.
#[verifier::external_body]
pub(crate) fn form_urlencode(bytes: &[u8]) -> (r: String)
    ensures
        r@ == urlencode(bytes@),
{
    form_urlencoded::byte_serialize(bytes).collect()
}

/// `hex::encode`. Its contract claims what the crate's source does: two
/// lowercase hex digits per byte, in order.
#[verifier::external_body]
pub(crate) fn hex_encode(bytes: &[u8]) -> (r: String)
    ensures
        r@ == hex_lower(bytes@),
{
    hex::encode(bytes)
}

/// `String::from_utf8`, with the error turned into `None`. Its contract
/// claims what std documents: the bytes are accepted exactly when they are
/// valid UTF-8, and the string then holds the characters they encode.
#[verifier::external_body]
pub(crate) fn string_from_utf8(bytes: Vec<u8>) -> (r: Option<String>)
    ensures
        r is Some <==> valid_utf8(bytes@),
        r matches Some(s) ==> s@ == decode_utf8(bytes@),
{
    String::from_utf8(bytes).ok()
}

/// `String::from_utf8_lossy`, made owned. Its contract claims what std
/// documents for valid UTF-8 input: the characters it encodes. What it
/// gives for invalid input (replacement characters) is left unsaid.
#[verifier::external_body]
pub(crate) fn string_from_utf8_lossy(bytes: &[u8]) -> (r: String)
    ensures
        valid_utf8(bytes@) ==> r@ == decode_utf8(bytes@),
{
    String::from_utf8_lossy(bytes).into_owned()
}

/// `str::starts_with` with a string pattern. Its contract claims what std
/// documents: whether `prefix` is a prefix of `s`.
#[verifier::external_body]
pub(crate) fn str_starts_with(s: &str, prefix: &str) -> (r: bool)
    ensures
        r == (prefix@.len() <= s@.len() && s@.subrange(0, prefix@.len() as int) == prefix@),
{
    s.starts_with(prefix)
}

/// The ASCII text of a byte string.
pub fn ascii_string(bytes: &[u8]) -> (r: String)
    requires
        is_ascii_bytes(bytes@),
    ensures
        r@ == ascii_text(bytes@),
{
    proof {
        lemma_ascii_utf8(bytes@);
    }
    string_from_utf8_lossy(bytes)
}

/// The shortest decimal digits of `n`, as ASCII bytes.
pub open spec fn decimal_digits(n: nat) -> Seq<u8>
    decreases n,
{
    if n < 10 {
        seq![(48 + n) as u8]
    } else {
        decimal_digits(n / 10) + seq![(48 + n % 10) as u8]
    }
}

proof fn lemma_decimal_digits_ascii(n: nat)
    ensures
        is_ascii_bytes(decimal_digits(n)),
        decimal_digits(n).len() >= 1,
    decreases n,
{
    if n >= 10 {
        lemma_decimal_digits_ascii(n / 10);
        let d = decimal_digits(n);
        assert forall|i: int| 0 <= i < d.len() implies #[trigger] d[i] < 128 by {
            if i < d.len() - 1 {
                assert(d[i] == decimal_digits(n / 10)[i]);
            }
        }
    }
}

/// The decimal text of a number.
pub fn decimal_string(n: u64) -> (r: String)
    ensures
        r@ == ascii_text(decimal_digits(n as nat)),
{
    let mut digits: Vec<u8> = Vec::new();
    let mut m: u64 = n;
    let ghost mut suffix: Seq<u8> = Seq::empty();
    // digits holds the last digits of n, least significant first
    while m >= 10
        invariant
            decimal_digits(n as nat) == decimal_digits(m as nat) + suffix,
            digits@ == suffix.reverse(),
        decreases m,
    {
        let d = (m % 10) as u8;
        proof {
            assert(decimal_digits(m as nat) == decimal_digits((m / 10) as nat) + seq![(48 + m % 10) as u8]);
            suffix = seq![(48 + m % 10) as u8] + suffix;
        }
        digits.push(48 + d);
        assert(digits@ =~= suffix.reverse()) by {
            assert(suffix.reverse() =~= suffix.drop_first().reverse().push(suffix[0]));
        }
        m = m / 10;
        assert(decimal_digits(n as nat) =~= decimal_digits(m as nat) + suffix);
    }
    digits.push(48 + m as u8);
    proof {
        suffix = seq![(48 + m) as u8] + suffix;
        assert(digits@ =~= suffix.reverse()) by {
            assert(suffix.reverse() =~= suffix.drop_first().reverse().push(suffix[0]));
        }
        assert(decimal_digits(n as nat) =~= suffix);
    }
    let mut out: Vec<u8> = Vec::new();
    let mut i: usize = digits.len();
    while i > 0
        invariant
            i <= digits@.len(),
            out@ == digits@.subrange(i as int, digits@.len() as int).reverse(),
        decreases i,
    {
        i = i - 1;
        out.push(digits[i]);
        assert(out@ =~= digits@.subrange(i as int, digits@.len() as int).reverse()) by {
            let t = digits@.subrange(i as int, digits@.len() as int);
            assert(t.reverse() =~= t.drop_first().reverse().push(t[0]));
            assert(t.drop_first() =~= digits@.subrange(i + 1, digits@.len() as int));
        }
    }
    assert(digits@.subrange(0, digits@.len() as int) =~= digits@);
    assert(out@ =~= decimal_digits(n as nat)) by {
        assert(suffix.reverse().reverse() =~= suffix);
    }
    proof {
        lemma_decimal_digits_ascii(n as nat);
    }
    ascii_string(out.as_slice())
}

} // verus!
