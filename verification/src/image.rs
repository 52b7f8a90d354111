//! Image links in post bodies.
use vstd::prelude::*;
use crate::text::{trim, starts_with, contains, chars_of, string_of, trim_chars, starts_with_exec,
    contains_exec, slice_chars};

verus! {

/// What `str::to_lowercase` returns for a text (full Unicode lower-casing).
pub uninterp spec fn unicode_lowercase(s: Seq<char>) -> Seq<char>;

/// What `char::is_alphanumeric` says of a character.
pub uninterp spec fn unicode_alphanumeric(c: char) -> bool;

/// `str::to_lowercase`: the Unicode lower case of a text.  The contract
/// names the result; the case mapping tables are not stated.
#[verifier::external_body]
pub(crate) fn lowercase(s: &str) -> (r: String)
    ensures
        r@ == unicode_lowercase(s@),
{
    s.to_lowercase()
}

/// `char::is_alphanumeric`: alphabetic or numeric in Unicode.  Among ASCII
/// characters exactly the letters and digits are.
#[verifier::external_body]
fn is_alphanumeric(c: char) -> (r: bool)
    ensures
        r == unicode_alphanumeric(c),
        (c as u32) < 128 ==> (r <==> ((48 <= (c as u32) && (c as u32) <= 57) || (65 <= (c as u32)
            && (c as u32) <= 90) || (97 <= (c as u32) && (c as u32) <= 122))),
{
    c.is_alphanumeric()
}

/// Characters an image address keeps at its end.
pub open spec fn url_tail_char(c: char) -> bool {
    unicode_alphanumeric(c) || c == '/' || c == '-' || c == '_' || c == '.'
}

/// The text without the trailing characters an address does not end with.
pub open spec fn trim_url_tail(s: Seq<char>) -> Seq<char>
    decreases s.len(),
{
    if s.len() > 0 && !url_tail_char(s.last()) {
        trim_url_tail(s.drop_last())
    } else {
        s
    }
}

/// The extensions of image files.
pub open spec fn image_extensions() -> Seq<Seq<char>> {
    seq![".png"@, ".jpg"@, ".jpeg"@, ".gif"@, ".webp"@, ".bmp"@]
}

/// The image address of a body line: the trimmed line when it starts with
/// `http://` or `https://` and its lower case contains `.png`, `.jpg`,
/// `.jpeg`, `.gif`, `.webp` or `.bmp`, with trailing punctuation removed.
pub open spec fn image_url(line: Seq<char>) -> Option<Seq<char>> {
    let t = trim(line);
    let lower = unicode_lowercase(t);
    if !starts_with(t, "http://"@) && !starts_with(t, "https://"@) {
        None
    } else if exists|k: int| 0 <= k < 6 && contains(lower, #[trigger] image_extensions()[k]) {
        Some(trim_url_tail(t))
    } else {
        None
    }
}

/// A line is an image address exactly when, trimmed, it starts with
/// `http://` or `https://` and its lower case contains one of `.png`,
/// `.jpg`, `.jpeg`, `.gif`, `.webp` or `.bmp`; the address is then the
/// trimmed line up to its last letter, digit, `/`, `-`, `_` or `.`
/// (letters and digits as `char::is_alphanumeric` tells), a prefix of the
/// trimmed line.
pub proof fn law_image_links(line: Seq<char>)
    ensures
        ({
            let t = trim(line);
            let lower = unicode_lowercase(t);
            (image_url(line) is Some) <==> ((starts_with(t, "http://"@) || starts_with(
                t,
                "https://"@,
            )) && (contains(lower, ".png"@) || contains(lower, ".jpg"@) || contains(
                lower,
                ".jpeg"@,
            ) || contains(lower, ".gif"@) || contains(lower, ".webp"@) || contains(
                lower,
                ".bmp"@,
            )))
        }),
        image_url(line) matches Some(u) ==> {
            &&& u.len() <= trim(line).len()
            &&& u == trim(line).take(u.len() as int)
            &&& u.len() > 0 ==> {
                let c = u.last();
                unicode_alphanumeric(c) || c == '/' || c == '-' || c == '_' || c == '.'
            }
            &&& forall|k: int|
                u.len() <= k < trim(line).len() ==> {
                    let c = #[trigger] trim(line)[k];
                    !(unicode_alphanumeric(c) || c == '/' || c == '-' || c == '_' || c == '.')
                }
        },
{
    let t = trim(line);
    let lower = unicode_lowercase(t);
    let e = image_extensions();
    assert(e[0] == ".png"@ && e[1] == ".jpg"@ && e[2] == ".jpeg"@ && e[3] == ".gif"@ && e[4]
        == ".webp"@ && e[5] == ".bmp"@);
    if contains(lower, ".png"@) {
        assert(contains(lower, e[0]));
    }
    if contains(lower, ".jpg"@) {
        assert(contains(lower, e[1]));
    }
    if contains(lower, ".jpeg"@) {
        assert(contains(lower, e[2]));
    }
    if contains(lower, ".gif"@) {
        assert(contains(lower, e[3]));
    }
    if contains(lower, ".webp"@) {
        assert(contains(lower, e[4]));
    }
    if contains(lower, ".bmp"@) {
        assert(contains(lower, e[5]));
    }
    lemma_trim_url_tail(t);
}

/// `trim_url_tail` cuts a tail of characters an address does not end with.
proof fn lemma_trim_url_tail(s: Seq<char>)
    ensures
        trim_url_tail(s).len() <= s.len(),
        trim_url_tail(s) == s.take(trim_url_tail(s).len() as int),
        trim_url_tail(s).len() > 0 ==> url_tail_char(trim_url_tail(s).last()),
        forall|k: int| trim_url_tail(s).len() <= k < s.len() ==> !url_tail_char(#[trigger] s[k]),
    decreases s.len(),
{
    if s.len() > 0 && !url_tail_char(s.last()) {
        lemma_trim_url_tail(s.drop_last());
        let r = trim_url_tail(s.drop_last());
        assert(s.drop_last().take(r.len() as int) =~= s.take(r.len() as int));
        assert forall|k: int| r.len() <= k < s.len() implies !url_tail_char(#[trigger] s[k]) by {
            if k < s.len() - 1 {
                assert(s[k] == s.drop_last()[k]);
            }
        }
    } else {
        assert(s.take(s.len() as int) =~= s);
    }
}

/// The image address of a body line, if it is one.
pub fn find_image_url(line: &str) -> (r: Option<String>)
    ensures
        match r {
            Some(u) => image_url(line@) == Some(u@),
            None => image_url(line@) is None,
        },
{
    let lv = chars_of(line);
    let t = trim_chars(lv.as_slice());
    let http = chars_of("http://");
    let https = chars_of("https://");
    if !starts_with_exec(t.as_slice(), http.as_slice()) && !starts_with_exec(
        t.as_slice(),
        https.as_slice(),
    ) {
        return None;
    }
    let ts = string_of(t.as_slice());
    let lower_s = lowercase(ts.as_str());
    let lower = chars_of(lower_s.as_str());
    let exts: Vec<&str> = vec![".png", ".jpg", ".jpeg", ".gif", ".webp", ".bmp"];
    proof {
        reveal_strlit(".png");
        reveal_strlit(".jpg");
        reveal_strlit(".jpeg");
        reveal_strlit(".gif");
        reveal_strlit(".webp");
        reveal_strlit(".bmp");
    }
    assert(forall|k: int| 0 <= k < 6 ==> (#[trigger] exts@[k])@ == image_extensions()[k]);
    let mut k: usize = 0;
    let mut found = false;
    while k < exts.len()
        invariant
            k <= 6,
            exts@.len() == 6,
            lower@ == unicode_lowercase(t@),
            forall|m: int| 0 <= m < 6 ==> (#[trigger] exts@[m])@ == image_extensions()[m],
            forall|m: int| 0 <= m < 6 ==> (#[trigger] image_extensions()[m]).len() > 0,
            found ==> exists|m: int| 0 <= m < 6 && contains(lower@, #[trigger] image_extensions()[m]),
            !found ==> forall|m: int| 0 <= m < k ==> !contains(lower@, #[trigger] image_extensions()[m]),
        decreases exts.len() - k,
    {
        let e = chars_of(exts[k]);
        if contains_exec(lower.as_slice(), e.as_slice()) {
            found = true;
            assert(contains(lower@, image_extensions()[k as int]));
        }
        k = k + 1;
    }
    if !found {
        return None;
    }
    let mut b: usize = t.len();
    assert(t@.take(t@.len() as int) =~= t@);
    while b > 0 && !(is_alphanumeric(t[b - 1]) || t[b - 1] == '/' || t[b - 1] == '-' || t[b - 1]
        == '_' || t[b - 1] == '.')
        invariant
            b <= t@.len(),
            trim_url_tail(t@) == trim_url_tail(t@.take(b as int)),
        decreases b,
    {
        assert(t@.take(b as int).drop_last() =~= t@.take(b - 1));
        b = b - 1;
    }
    let cleaned = slice_chars(t.as_slice(), 0, b);
    proof {
        if b > 0 {
            assert(t@.take(b as int).last() == t@[b - 1]);
        }
        assert(cleaned@ =~= t@.take(b as int));
    }
    Some(string_of(cleaned.as_slice()))
}


/// The lower-case hexadecimal digits.
pub open spec fn hex_lower_digits() -> Seq<char> {
    seq!['0', '1', '2', '3', '4', '5', '6', '7', '8', '9', 'a', 'b', 'c', 'd', 'e', 'f']
}

/// The last `n` hexadecimal digits of `v`, lower case, zero-padded.
pub open spec fn hex_padded(v: nat, n: nat) -> Seq<char>
    decreases n,
{
    if n == 0 {
        Seq::empty()
    } else {
        hex_padded(v / 16, (n - 1) as nat).push(hex_lower_digits()[(v % 16) as int])
    }
}

fn hex_padded_exec(v: u64, n: usize) -> (r: Vec<char>)
    ensures
        r@ == hex_padded(v as nat, n as nat),
    decreases n,
{
    if n == 0 {
        return Vec::new();
    }
    let digits = vec!['0', '1', '2', '3', '4', '5', '6', '7', '8', '9', 'a', 'b', 'c', 'd', 'e', 'f'];
    assert(digits@ =~= hex_lower_digits());
    let mut r = hex_padded_exec(v / 16, n - 1);
    r.push(digits[(v % 16) as usize]);
    r
}

/// The file an image is kept in, named by the 64-bit hash of its address:
/// sixteen lower-case hexadecimal digits and `.img`.
pub fn hashed_file_name(hash: u64) -> (r: String)
    ensures
        r@ == hex_padded(hash as nat, 16) + ".img"@,
{
    let mut v = hex_padded_exec(hash, 16);
    let ext = chars_of(".img");
    crate::text::append_chars(&mut v, ext.as_slice());
    string_of(v.as_slice())
}

} // verus!
