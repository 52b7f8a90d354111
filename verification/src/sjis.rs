//! Shift_JIS text and `application/x-www-form-urlencoded` bodies.
//!
//! The boards speak Shift_JIS.  Converting between Unicode and Shift_JIS is
//! done by `encoding_rs`; what this module adds on top (percent-encoding,
//! form bodies) is proved here.
use vstd::prelude::*;
use crate::text::chars_of;

verus! {

/// The bytes `encoding_rs::SHIFT_JIS.encode` produces for a text (with
/// unmappable characters written as HTML numeric character references).
pub uninterp spec fn shift_jis_encode(s: Seq<char>) -> Seq<u8>;

/// The text `encoding_rs::SHIFT_JIS.decode` produces for bytes (with BOM
/// sniffing and malformed sequences replaced by U+FFFD).
pub uninterp spec fn shift_jis_decode(b: Seq<u8>) -> Seq<char>;

/// Every character is ASCII.
pub open spec fn ascii_chars(s: Seq<char>) -> bool {
    forall|i: int| 0 <= i < s.len() ==> (#[trigger] s[i] as u32) < 128
}

/// Every byte is ASCII.
pub open spec fn ascii_bytes(b: Seq<u8>) -> bool {
    forall|i: int| 0 <= i < b.len() ==> #[trigger] b[i] < 128
}

/// Largest input these conversions accept.  `encoding_rs` panics when a
/// buffer size it computes overflows `usize`; below this length (four bytes
/// at most per character, ten at most per character written as a numeric
/// character reference) those sizes stay within `usize`.
pub open spec fn max_text_len() -> nat {
    (usize::MAX / 64) as nat
}

/// `encoding_rs::SHIFT_JIS.encode(s)`: the Shift_JIS bytes of `s`.  ASCII
/// text is its own encoding (the ASCII fast path of `Encoding::encode`).
#[verifier::external_body]
fn encode_shift_jis(s: &str) -> (r: Vec<u8>)
    requires
        s@.len() <= max_text_len(),
    ensures
        r@ == shift_jis_encode(s@),
        ascii_chars(s@) ==> r@.len() == s@.len() && (forall|i: int|
            0 <= i < s@.len() ==> #[trigger] r@[i] == s@[i] as u32),
{
    let (encoded, _, _) = encoding_rs::SHIFT_JIS.encode(s);
    encoded.into_owned()
}

/// `encoding_rs::SHIFT_JIS.decode(b)`: the text of Shift_JIS bytes.  ASCII
/// bytes decode to themselves (no BOM is ASCII; ASCII is borrowed as is).
#[verifier::external_body]
fn decode_shift_jis(b: &[u8]) -> (r: String)
    requires
        b@.len() <= max_text_len(),
    ensures
        r@ == shift_jis_decode(b@),
        ascii_bytes(b@) ==> r@.len() == b@.len() && (forall|i: int|
            0 <= i < b@.len() ==> #[trigger] r@[i] as u32 == b@[i]),
{
    let (decoded, _, _) = encoding_rs::SHIFT_JIS.decode(b);
    decoded.into_owned()
}

/// Decode Shift_JIS bytes to characters.
pub fn decode_sjis(b: &[u8]) -> (r: Vec<char>)
    requires
        b@.len() <= max_text_len(),
    ensures
        r@ == shift_jis_decode(b@),
{
    let s = decode_shift_jis(b);
    chars_of(s.as_str())
}

/// The upper-case hexadecimal digit of `v`: `b'0' + v` below ten,
/// `b'A' + v - 10` otherwise.
pub open spec fn hex_digit(v: int) -> int {
    if v <= 9 {
        48 + v
    } else {
        55 + v
    }
}

/// The hexadecimal digit of a nibble (defined wherever `b'A' + v` fits a
/// byte).
pub fn hex_char(v: u8) -> (r: u8)
    requires
        v <= 190,
    ensures
        r == hex_digit(v as int),
{
    if v <= 9 {
        48 + v
    } else {
        65 + v - 10
    }
}

/// A byte that a form value keeps as it is.
pub open spec fn unreserved(b: u8) -> bool {
    ||| (65 <= b && b <= 90)
    ||| (97 <= b && b <= 122)
    ||| (48 <= b && b <= 57)
    ||| b == 45
    ||| b == 95
    ||| b == 46
    ||| b == 126
}

/// The form encoding of one byte: itself, `+` for a space, `%XY` otherwise.
pub open spec fn escape_byte(b: u8) -> Seq<u8> {
    if unreserved(b) {
        seq![b]
    } else if b == 32 {
        seq![43u8]
    } else {
        seq![37u8, hex_digit(b as int / 16) as u8, hex_digit(b as int % 16) as u8]
    }
}

/// The form encoding of bytes.
pub open spec fn percent_encode(b: Seq<u8>) -> Seq<u8>
    decreases b.len(),
{
    if b.len() == 0 {
        Seq::<u8>::empty()
    } else {
        percent_encode(b.drop_last()) + escape_byte(b.last())
    }
}

/// The bytes of an ASCII text: each character's code.
pub open spec fn ascii_bytes_of(s: Seq<char>) -> Seq<u8> {
    s.map_values(|c: char| c as u32 as u8)
}

/// Form-encode bytes: unreserved bytes as they are, a space as `+`, any
/// other byte as `%` and two upper-case hexadecimal digits.
pub fn percent_encode_bytes(b: &[u8]) -> (r: Vec<u8>)
    ensures
        r@ == percent_encode(b@),
{
    let mut result: Vec<u8> = Vec::new();
    let mut i: usize = 0;
    assert(b@.take(0) =~= Seq::<u8>::empty());
    while i < b.len()
        invariant
            i <= b@.len(),
            result@ == percent_encode(b@.take(i as int)),
        decreases b.len() - i,
    {
        let byte = b[i];
        let ghost before = result@;
        assert(b@.take(i + 1).drop_last() =~= b@.take(i as int));
        if (65 <= byte && byte <= 90) || (97 <= byte && byte <= 122) || (48 <= byte && byte
            <= 57) || byte == 45 || byte == 95 || byte == 46 || byte == 126 {
            result.push(byte);
        } else if byte == 32 {
            result.push(43);
        } else {
            assert(byte >> 4 == byte / 16) by (bit_vector);
            assert(byte & 0x0f == byte % 16) by (bit_vector);
            result.push(37);
            result.push(hex_char(byte >> 4));
            result.push(hex_char(byte & 0x0f));
        }
        assert(result@ =~= before + escape_byte(b@[i as int]));
        i = i + 1;
    }
    assert(b@.take(b@.len() as int) =~= b@);
    result
}

/// Form-encode the Shift_JIS bytes of a text.  An ASCII text is encoded
/// from its own character codes.
pub fn urlencode_sjis(s: &str) -> (r: Vec<u8>)
    requires
        s@.len() <= max_text_len(),
    ensures
        r@ == percent_encode(shift_jis_encode(s@)),
        ascii_chars(s@) ==> r@ == percent_encode(ascii_bytes_of(s@)),
{
    let encoded = encode_shift_jis(s);
    proof {
        if ascii_chars(s@) {
            assert forall|i: int| 0 <= i < s@.len() implies #[trigger] encoded@[i] == ascii_bytes_of(
                s@,
            )[i] by {
                assert((s@[i] as u32) < 128);
            }
            assert(encoded@ =~= ascii_bytes_of(s@));
        }
    }
    percent_encode_bytes(encoded.as_slice())
}

/// One `key=value` field of a form body: the key's UTF-8 bytes, `=`, the
/// form encoding of the value's Shift_JIS bytes.
pub open spec fn form_field(key: Seq<char>, value: Seq<char>) -> Seq<u8> {
    vstd::utf8::encode_utf8(key) + seq![61u8] + percent_encode(shift_jis_encode(value))
}

/// A form body: the fields joined by `&`.
pub open spec fn form_body(pairs: Seq<(Seq<char>, Seq<char>)>) -> Seq<u8>
    decreases pairs.len(),
{
    if pairs.len() == 0 {
        Seq::<u8>::empty()
    } else if pairs.len() == 1 {
        form_field(pairs[0].0, pairs[0].1)
    } else {
        form_body(pairs.drop_last()) + seq![38u8] + form_field(pairs.last().0, pairs.last().1)
    }
}

/// A field of a form body whose value is ASCII: the value's own character
/// codes, form-encoded.
pub open spec fn ascii_form_field(key: Seq<char>, value: Seq<char>) -> Seq<u8> {
    vstd::utf8::encode_utf8(key) + seq![61u8] + percent_encode(ascii_bytes_of(value))
}

/// A form body of fields with ASCII values.
pub open spec fn ascii_form_body(pairs: Seq<(Seq<char>, Seq<char>)>) -> Seq<u8>
    decreases pairs.len(),
{
    if pairs.len() == 0 {
        Seq::<u8>::empty()
    } else if pairs.len() == 1 {
        ascii_form_field(pairs[0].0, pairs[0].1)
    } else {
        ascii_form_body(pairs.drop_last()) + seq![38u8] + ascii_form_field(
            pairs.last().0,
            pairs.last().1,
        )
    }
}

/// The views of key/value pairs.
pub open spec fn pairs_view(p: Seq<(String, String)>) -> Seq<(Seq<char>, Seq<char>)> {
    p.map_values(|x: (String, String)| (x.0@, x.1@))
}

fn append_bytes(a: &mut Vec<u8>, b: &[u8])
    ensures
        final(a)@ == old(a)@ + b@,
{
    let mut k: usize = 0;
    let ghost a0 = a@;
    while k < b.len()
        invariant
            k <= b@.len(),
            a@ == a0 + b@.take(k as int),
        decreases b.len() - k,
    {
        a.push(b[k]);
        k = k + 1;
        assert(a@ =~= a0 + b@.take(k as int));
    }
    assert(b@.take(b@.len() as int) =~= b@);
}

/// The form body of key/value pairs.
pub fn encode_body(pairs: &[(String, String)]) -> (r: Vec<u8>)
    requires
        forall|i: int| 0 <= i < pairs@.len() ==> (#[trigger] pairs@[i]).1@.len() <= max_text_len(),
    ensures
        r@ == form_body(pairs_view(pairs@)),
        (forall|i: int| 0 <= i < pairs@.len() ==> ascii_chars((#[trigger] pairs@[i]).1@)) ==> r@
            == ascii_form_body(pairs_view(pairs@)),
{
    let ghost all_ascii = forall|i: int|
        0 <= i < pairs@.len() ==> ascii_chars((#[trigger] pairs@[i]).1@);
    let mut body: Vec<u8> = Vec::new();
    let mut i: usize = 0;
    assert(pairs_view(pairs@).take(0) =~= Seq::<(Seq<char>, Seq<char>)>::empty());
    while i < pairs.len()
        invariant
            i <= pairs@.len(),
            forall|k: int| 0 <= k < pairs@.len() ==> (#[trigger] pairs@[k]).1@.len() <= max_text_len(),
            body@ == form_body(pairs_view(pairs@).take(i as int)),
            all_ascii == forall|k: int|
                0 <= k < pairs@.len() ==> ascii_chars((#[trigger] pairs@[k]).1@),
            all_ascii ==> body@ == ascii_form_body(pairs_view(pairs@).take(i as int)),
        decreases pairs.len() - i,
    {
        let ghost v = pairs_view(pairs@);
        let ghost before = body@;
        assert(v.take(i + 1).drop_last() =~= v.take(i as int));
        assert(v.take(i + 1).last() == v[i as int]);
        if i > 0 {
            body.push(38);
        } else {
            assert(v.take(1) =~= seq![v[0]]);
        }
        let key = pairs[i].0.as_str();
        append_bytes(&mut body, key.as_bytes());
        body.push(61);
        let enc = urlencode_sjis(pairs[i].1.as_str());
        append_bytes(&mut body, enc.as_slice());
        if i > 0 {
            assert(body@ =~= before + seq![38u8] + form_field(v[i as int].0, v[i as int].1));
        } else {
            assert(body@ =~= form_field(v[i as int].0, v[i as int].1));
        }
        proof {
            if all_ascii {
                assert(ascii_chars(pairs@[i as int].1@));
                assert(v[i as int].1 == pairs@[i as int].1@);
                if i > 0 {
                    assert(body@ =~= before + seq![38u8] + ascii_form_field(v[i as int].0, v[i as int].1));
                } else {
                    assert(body@ =~= ascii_form_field(v[i as int].0, v[i as int].1));
                }
            }
        }
        i = i + 1;
    }
    assert(pairs_view(pairs@).take(pairs@.len() as int) =~= pairs_view(pairs@));
    body
}

} // verus!
