//! The entries of the debug log: what each report appends to the log file.
use vstd::prelude::*;
use vstd::string::StringExecFns;
use crate::text::string_of;

verus! {

/// The entry of a message: the message on a line of its own.
pub fn log(msg: &str) -> (r: String)
    ensures
        r@ == msg@ + "\n"@,
{
    let mut out = String::from_str(msg);
    out.append("\n");
    out
}

/// The line of a response header: `name: value`, `<non-utf8>` for a value
/// that is not text.
pub open spec fn header_line(h: (Seq<char>, Option<Seq<char>>)) -> Seq<char> {
    h.0 + ": "@ + match h.1 {
        Some(v) => v,
        None => "<non-utf8>"@,
    } + "\n"@
}

/// The lines of the response headers, in order.
pub open spec fn header_lines(hs: Seq<(Seq<char>, Option<Seq<char>>)>) -> Seq<char>
    decreases hs.len(),
{
    if hs.len() == 0 {
        Seq::empty()
    } else {
        header_lines(hs.drop_last()) + header_line(hs.last())
    }
}

/// The views of response headers.
pub open spec fn headers_view(hs: Seq<(String, Option<String>)>) -> Seq<(Seq<char>, Option<Seq<char>>)> {
    hs.map_values(
        |h: (String, Option<String>)|
            (
                h.0@,
                match h.1 {
                    Some(v) => Some(v@),
                    None => None,
                },
            ),
    )
}

/// The entry of a response: a heading with the repost flag, the status,
/// each header, and an empty line.
pub fn response_headers(repost: bool, status: &str, headers: &[(String, Option<String>)]) -> (r:
    String)
    ensures
        r@ == "=== Response Headers (repost="@ + (if repost {
            "true"@
        } else {
            "false"@
        }) + ") ===\n"@ + "status = "@ + status@ + "\n"@ + header_lines(headers_view(headers@))
            + "\n"@,
{
    let mut out = String::from_str("=== Response Headers (repost=");
    if repost {
        out.append("true");
    } else {
        out.append("false");
    }
    out.append(") ===\n");
    out.append("status = ");
    out.append(status);
    out.append("\n");
    let ghost head = out@;
    let mut i: usize = 0;
    while i < headers.len()
        invariant
            i <= headers@.len(),
            out@ == head + header_lines(headers_view(headers@).take(i as int)),
        decreases headers.len() - i,
    {
        let (name, value) = &headers[i];
        out.append(name.as_str());
        out.append(": ");
        match value {
            Some(v) => out.append(v.as_str()),
            None => out.append("<non-utf8>"),
        }
        out.append("\n");
        assert(headers_view(headers@).take(i + 1).drop_last() =~= headers_view(headers@).take(
            i as int,
        ));
        assert(headers_view(headers@).take(i + 1).last() == headers_view(headers@)[i as int]);
        i = i + 1;
    }
    assert(headers_view(headers@).take(headers@.len() as int) =~= headers_view(headers@));
    out.append("\n");
    out
}

/// The entry of the cookies sent: a heading, the cookie header or
/// `<none>`, and an empty line.
pub fn cookies(cookie_header: Option<&str>) -> (r: String)
    ensures
        r@ == "=== Cookies ===\n"@ + match cookie_header {
            Some(v) => v@,
            None => "<none>"@,
        } + "\n"@ + "\n"@,
{
    let mut out = String::from_str("=== Cookies ===\n");
    match cookie_header {
        Some(v) => out.append(v),
        None => out.append("<none>"),
    }
    out.append("\n");
    out.append("\n");
    out
}

/// The entry of a response body: a heading, the text, and an empty line.
pub fn body(text: &str) -> (r: String)
    ensures
        r@ == "=== Body ===\n"@ + text@ + "\n"@ + "\n"@,
{
    let mut out = String::from_str("=== Body ===\n");
    out.append(text);
    out.append("\n");
    out.append("\n");
    out
}

/// A rule of sixty dashes between entries.
pub fn separator() -> (r: String)
    ensures
        r@ == Seq::new(60, |i: int| '-') + "\n"@,
{
    let mut v: Vec<char> = Vec::new();
    let mut i: usize = 0;
    while i < 60
        invariant
            i <= 60,
            v@ == Seq::new(i as nat, |k: int| '-'),
        decreases 60 - i,
    {
        v.push('-');
        i = i + 1;
        assert(v@ =~= Seq::new(i as nat, |k: int| '-'));
    }
    let mut out = string_of(v.as_slice());
    out.append("\n");
    out
}

} // verus!
