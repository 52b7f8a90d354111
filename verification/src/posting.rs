//! Board addresses and the posting protocol of `bbs.cgi`.
//!
//! A post is sent as a Shift_JIS form to `https://<host>/test/bbs.cgi`.  The
//! server may answer with a confirmation page holding a hidden `feature`
//! field; the form is then sent again with that field added.  The sending
//! itself is done by the application; this module builds the requests and
//! decides on each answer.
use vstd::prelude::*;
use vstd::string::{StringExecFns, StrSliceExecFns};
use crate::text::{
    split_char, trim_end_char, lines, contains, decimal, chars_of, string_of, split_char_exec,
    trim_end_char_chars, lines_exec, contains_exec, decimal_exec, append_chars, slice_chars,
    views, join, join_exec,
};
use crate::types::opt_view;
use crate::sjis::{
    shift_jis_decode, decode_sjis, max_text_len, form_body, pairs_view, encode_body,
};

verus! {

// ---------------------------------------------------------------------------
// Board addresses
// ---------------------------------------------------------------------------

/// The `/`-separated pieces of an address without trailing slashes.
pub open spec fn url_pieces(u: Seq<char>) -> Seq<Seq<char>> {
    split_char(trim_end_char(u, '/'), '/')
}

/// The host of a board address (third piece), if any.
pub open spec fn url_host(u: Seq<char>) -> Option<Seq<char>> {
    let p = url_pieces(u);
    if p.len() > 2 {
        Some(p[2])
    } else {
        None
    }
}

/// The board name of a board address (last piece).
pub open spec fn url_board(u: Seq<char>) -> Seq<char> {
    url_pieces(u).last()
}

/// Host and board name of a board address.
pub fn url_parts(u: &str) -> (r: (Option<String>, String))
    ensures
        opt_view(r.0) == url_host(u@),
        r.1@ == url_board(u@),
{
    let v = chars_of(u);
    let t = trim_end_char_chars(v.as_slice(), '/');
    let pieces = split_char_exec(t.as_slice(), '/');
    proof {
        crate::text::lemma_split_char_nonempty(t@, '/');
    }
    assert(views(pieces@).len() == pieces@.len());
    let host = if pieces.len() > 2 {
        assert(views(pieces@)[2] == pieces@[2]@);
        Some(string_of(pieces[2].as_slice()))
    } else {
        None
    };
    let last = pieces.len() - 1;
    assert(views(pieces@)[last as int] == pieces@[last as int]@);
    (host, string_of(pieces[last].as_slice()))
}

/// The web address of a thread:
/// `https://<host>/test/read.cgi/<board>/<thread>` (an empty host when the
/// board address has none).
pub open spec fn thread_web_url(board_url: Seq<char>, thread_id: Seq<char>) -> Seq<char> {
    let host = match url_host(board_url) {
        Some(h) => h,
        None => Seq::empty(),
    };
    "https://"@ + host + "/test/read.cgi/"@ + url_board(board_url) + "/"@ + thread_id
}

/// The web address of a thread.
pub fn thread_web_url_exec(board_url: &str, thread_id: &str) -> (r: String)
    ensures
        r@ == thread_web_url(board_url@, thread_id@),
{
    let (host, board) = url_parts(board_url);
    let mut out = chars_of("https://");
    match host {
        Some(h) => {
            let hv = chars_of(h.as_str());
            append_chars(&mut out, hv.as_slice());
        },
        None => {},
    }
    let mid = chars_of("/test/read.cgi/");
    append_chars(&mut out, mid.as_slice());
    let bv = chars_of(board.as_str());
    append_chars(&mut out, bv.as_slice());
    let sl = chars_of("/");
    append_chars(&mut out, sl.as_slice());
    let tv = chars_of(thread_id);
    append_chars(&mut out, tv.as_slice());
    proof {
        match url_host(board_url@) {
            Some(h) => {},
            None => {
                assert("https://"@ + Seq::<char>::empty() =~= "https://"@);
            },
        }
    }
    assert(out@ =~= thread_web_url(board_url@, thread_id@));
    string_of(out.as_slice())
}

/// Host and board name used to file a board's caches: the host, or
/// `unknown_host` when the address has none, and the board name.
pub open spec fn cache_location(board_url: Seq<char>) -> (Seq<char>, Seq<char>) {
    (
        match url_host(board_url) {
            Some(h) => h,
            None => "unknown_host"@,
        },
        url_board(board_url),
    )
}

/// Host and board name used to file a board's caches.
pub fn cache_location_exec(board_url: &str) -> (r: (String, String))
    ensures
        (r.0@, r.1@) == cache_location(board_url@),
{
    let (host, board) = url_parts(board_url);
    let h = match host {
        Some(h) => h,
        None => String::from_str("unknown_host"),
    };
    (h, board)
}

// ---------------------------------------------------------------------------
// Building the post
// ---------------------------------------------------------------------------

/// Where and what to post.
pub struct PreparedPost {
    pub url: String,
    pub host: String,
    pub referer: String,
    pub pairs: Vec<(String, String)>,
    pub body: Vec<u8>,
}

/// The form fields of a post, in order.
pub open spec fn post_fields(
    name: Seq<char>,
    email: Seq<char>,
    message: Seq<char>,
    board: Seq<char>,
    thread_id: Seq<char>,
    time: u64,
) -> Seq<(Seq<char>, Seq<char>)> {
    seq![
        ("FROM"@, name),
        ("mail"@, email),
        ("MESSAGE"@, message),
        ("bbs"@, board),
        ("key"@, thread_id),
        ("time"@, decimal(time as nat)),
        ("submit"@, "書き込む"@),
        ("oekaki_thread1"@, Seq::<char>::empty()),
    ]
}

/// The message for a board address without host or board name.
pub open spec fn invalid_board_url() -> Seq<char> {
    "Invalid board URL"@
}

/// The post of a message to a thread at `time` (seconds since the epoch):
/// refused when the board address has no host or no board name; otherwise
/// sent to `https://<host>/test/bbs.cgi?guid=ON` with the form of
/// `post_fields`.
pub fn post_message(
    board_url: &str,
    thread_id: &str,
    name: &str,
    email: &str,
    message: &str,
    time: u64,
) -> (r: Result<PreparedPost, String>)
    requires
        name@.len() <= max_text_len(),
        email@.len() <= max_text_len(),
        message@.len() <= max_text_len(),
        thread_id@.len() <= max_text_len(),
        board_url@.len() <= max_text_len(),
    ensures
        match r {
            Ok(p) => {
                &&& url_host(board_url@) matches Some(h) && h.len() > 0
                &&& url_board(board_url@).len() > 0
                &&& p.host@ == url_host(board_url@)->0
                &&& p.url@ == "https://"@ + p.host@ + "/test/bbs.cgi?guid=ON"@
                &&& p.referer@ == "https://"@ + p.host@ + "/test/bbs.cgi"@
                &&& pairs_view(p.pairs@) == post_fields(
                    name@,
                    email@,
                    message@,
                    url_board(board_url@),
                    thread_id@,
                    time,
                )
                &&& p.body@ == form_body(pairs_view(p.pairs@))
            },
            Err(e) => {
                &&& e@ == invalid_board_url()
                &&& !(url_host(board_url@) matches Some(h) && h.len() > 0) || url_board(
                    board_url@,
                ).len() == 0
            },
        },
{
    let (host, board) = url_parts(board_url);
    let host = match host {
        Some(h) => {
            if h.as_str().is_empty() {
                return Err(String::from_str("Invalid board URL"));
            }
            h
        },
        None => return Err(String::from_str("Invalid board URL")),
    };
    if board.as_str().is_empty() {
        return Err(String::from_str("Invalid board URL"));
    }
    let hv = chars_of(host.as_str());
    let mut url = chars_of("https://");
    append_chars(&mut url, hv.as_slice());
    let mut referer = slice_chars(url.as_slice(), 0, url.len());
    let tail = chars_of("/test/bbs.cgi?guid=ON");
    append_chars(&mut url, tail.as_slice());
    let rtail = chars_of("/test/bbs.cgi");
    append_chars(&mut referer, rtail.as_slice());
    let time_s = string_of(decimal_exec(time).as_slice());
    let mut pairs: Vec<(String, String)> = Vec::new();
    pairs.push((String::from_str("FROM"), String::from_str(name)));
    pairs.push((String::from_str("mail"), String::from_str(email)));
    pairs.push((String::from_str("MESSAGE"), String::from_str(message)));
    pairs.push((String::from_str("bbs"), board));
    pairs.push((String::from_str("key"), String::from_str(thread_id)));
    pairs.push((String::from_str("time"), time_s));
    pairs.push((String::from_str("submit"), String::from_str("書き込む")));
    pairs.push((String::from_str("oekaki_thread1"), String::new()));
    proof {
        reveal_strlit("書き込む");
        crate::text::lemma_decimal_len(time as nat);
        assert(pairs_view(pairs@) =~= post_fields(
            name@,
            email@,
            message@,
            url_board(board_url@),
            thread_id@,
            time,
        ));
    }
    proof {
        let u = trim_end_char(board_url@, '/');
        crate::text::lemma_trim_end_char_len(board_url@, '/');
        crate::text::lemma_split_char_piece_len(u, '/');
        crate::text::lemma_split_char_nonempty(u, '/');
        assert(url_board(board_url@) == split_char(u, '/')[split_char(u, '/').len() - 1]);
        assert forall|i: int| 0 <= i < pairs@.len() implies (#[trigger] pairs@[i]).1@.len()
            <= max_text_len() by {
            assert(pairs_view(pairs@)[i].1 == pairs@[i].1@);
        }
    }
    let body = encode_body(pairs.as_slice());
    let p = PreparedPost {
        url: string_of(url.as_slice()),
        host,
        referer: string_of(referer.as_slice()),
        pairs,
        body,
    };
    assert(p.url@ =~= "https://"@ + p.host@ + "/test/bbs.cgi?guid=ON"@);
    assert(p.referer@ =~= "https://"@ + p.host@ + "/test/bbs.cgi"@);
    Ok(p)
}

/// The request headers of a post from host `host` with referer `referer`.
pub open spec fn post_header_list(host: Seq<char>, referer: Seq<char>) -> Seq<
    (Seq<char>, Seq<char>),
> {
    seq![
        ("Accept"@, "text/html,application/xhtml+xml,application/xml;q=0.9,*/*;q=0.8"@),
        ("Accept-Language"@, "ja,en-US;q=0.9,en;q=0.8"@),
        ("Content-Type"@, "application/x-www-form-urlencoded"@),
        ("Origin"@, "https://"@ + host),
        ("Priority"@, "u=0, i"@),
        ("Referer"@, referer),
        ("Sec-Fetch-Dest"@, "document"@),
        ("Sec-Fetch-Mode"@, "navigate"@),
        ("Sec-Fetch-Site"@, "same-origin"@),
        ("Sec-Fetch-User"@, "?1"@),
        ("TE"@, "trailers"@),
        ("Upgrade-Insecure-Requests"@, "1"@),
    ]
}

/// The header names of a post request.
pub open spec fn post_header_names() -> Seq<Seq<char>> {
    seq![
        "Accept"@,
        "Accept-Language"@,
        "Content-Type"@,
        "Origin"@,
        "Priority"@,
        "Referer"@,
        "Sec-Fetch-Dest"@,
        "Sec-Fetch-Mode"@,
        "Sec-Fetch-Site"@,
        "Sec-Fetch-User"@,
        "TE"@,
        "Upgrade-Insecure-Requests"@,
    ]
}

/// A post declares what it sends and where from: its one `Content-Type`
/// header names the form encoding `form_body` produces
/// (`application/x-www-form-urlencoded`), its one `Origin` is the board's
/// host over HTTPS, its one `Referer` is the given page, and no header name
/// occurs twice.
pub proof fn law_post_headers_declare_form(host: Seq<char>, referer: Seq<char>)
    ensures
        exists|i: int|
            0 <= i < post_header_list(host, referer).len() && #[trigger] post_header_list(
                host,
                referer,
            )[i] == ("Content-Type"@, "application/x-www-form-urlencoded"@),
        forall|i: int|
            0 <= i < post_header_list(host, referer).len() && (#[trigger] post_header_list(
                host,
                referer,
            )[i]).0 == "Content-Type"@ ==> post_header_list(host, referer)[i].1
                == "application/x-www-form-urlencoded"@,
        forall|i: int|
            0 <= i < post_header_list(host, referer).len() && (#[trigger] post_header_list(
                host,
                referer,
            )[i]).0 == "Origin"@ ==> post_header_list(host, referer)[i].1 == "https://"@ + host,
        forall|i: int|
            0 <= i < post_header_list(host, referer).len() && (#[trigger] post_header_list(
                host,
                referer,
            )[i]).0 == "Referer"@ ==> post_header_list(host, referer)[i].1 == referer,
        forall|i: int, j: int|
            0 <= i < j < post_header_list(host, referer).len() ==> (#[trigger] post_header_list(
                host,
                referer,
            )[i]).0 != (#[trigger] post_header_list(host, referer)[j]).0,
{
    let l = post_header_list(host, referer);
    let n = post_header_names();
    reveal_strlit("Accept");
    reveal_strlit("Accept-Language");
    reveal_strlit("Content-Type");
    reveal_strlit("Origin");
    reveal_strlit("Priority");
    reveal_strlit("Referer");
    reveal_strlit("Sec-Fetch-Dest");
    reveal_strlit("Sec-Fetch-Mode");
    reveal_strlit("Sec-Fetch-Site");
    reveal_strlit("Sec-Fetch-User");
    reveal_strlit("TE");
    reveal_strlit("Upgrade-Insecure-Requests");
    assert(l.len() == n.len());
    assert forall|i: int| 0 <= i < l.len() implies #[trigger] l[i].0 == n[i] by {}
    assert(l[2] == ("Content-Type"@, "application/x-www-form-urlencoded"@));
    assert forall|i: int, j: int| 0 <= i < j < n.len() implies #[trigger] n[i] != #[trigger] n[j] by {
        if n[i].len() == n[j].len() {
            if n[i][0] == n[j][0] {
                if n[i].len() > 13 {
                    assert(n[i][9] != n[j][9] || n[i][10] != n[j][10]);
                } else {
                    assert(n[i][1] != n[j][1] || n[i][2] != n[j][2]);
                }
            }
        }
    }
    assert forall|i: int| 0 <= i < l.len() && l[i].0 == "Content-Type"@ implies i == 2 by {
        if i != 2 {
            assert(n[i] != n[2]);
        }
    }
    assert forall|i: int| 0 <= i < l.len() && l[i].0 == "Origin"@ implies i == 3 by {
        if i != 3 {
            assert(n[i] != n[3]);
        }
    }
    assert forall|i: int| 0 <= i < l.len() && l[i].0 == "Referer"@ implies i == 5 by {
        if i != 5 {
            assert(n[i] != n[5]);
        }
    }
    assert forall|i: int, j: int| 0 <= i < j < l.len() implies l[i].0 != l[j].0 by {
        assert(n[i] != n[j]);
    }
}

/// The request headers of a post.
pub fn post_headers(host: &str, referer: &str) -> (r: Vec<(String, String)>)
    ensures
        pairs_view(r@) == post_header_list(host@, referer@),
{
    let mut origin = chars_of("https://");
    let hv = chars_of(host);
    append_chars(&mut origin, hv.as_slice());
    let mut h: Vec<(String, String)> = Vec::new();
    h.push(
        (
            String::from_str("Accept"),
            String::from_str("text/html,application/xhtml+xml,application/xml;q=0.9,*/*;q=0.8"),
        ),
    );
    h.push((String::from_str("Accept-Language"), String::from_str("ja,en-US;q=0.9,en;q=0.8")));
    h.push(
        (String::from_str("Content-Type"), String::from_str("application/x-www-form-urlencoded")),
    );
    h.push((String::from_str("Origin"), string_of(origin.as_slice())));
    h.push((String::from_str("Priority"), String::from_str("u=0, i")));
    h.push((String::from_str("Referer"), String::from_str(referer)));
    h.push((String::from_str("Sec-Fetch-Dest"), String::from_str("document")));
    h.push((String::from_str("Sec-Fetch-Mode"), String::from_str("navigate")));
    h.push((String::from_str("Sec-Fetch-Site"), String::from_str("same-origin")));
    h.push((String::from_str("Sec-Fetch-User"), String::from_str("?1")));
    h.push((String::from_str("TE"), String::from_str("trailers")));
    h.push((String::from_str("Upgrade-Insecure-Requests"), String::from_str("1")));
    assert(pairs_view(h@) =~= post_header_list(host@, referer@));
    h
}

// ---------------------------------------------------------------------------
// Answers of the server
// ---------------------------------------------------------------------------

/// The value of attribute `attr` of the first element of an HTML document
/// that the CSS selector `selector` matches, as `scraper` parses and selects
/// it (none when the selector does not parse).
pub uninterp spec fn html_first_attr(html: Seq<char>, selector: Seq<char>, attr: Seq<char>) -> Option<
    Seq<char>,
>;

/// `scraper`: parse `html` as a document and the selector `query`, select
/// the elements it matches, and give attribute `attr` of the first one.
/// The contract only names that result; what the HTML parser makes of a
/// page is not stated.
#[verifier::external_body]
fn extract_feature(html: &str, query: &str, attr: &str) -> (r: Option<String>)
    ensures
        opt_view(r) == html_first_attr(html@, query@, attr@),
{
    let document = scraper::Html::parse_document(html);
    let selector = scraper::Selector::parse(query).ok()?;
    document.select(&selector).next()?.value().attr(attr).map(str::to_string)
}

/// The selector of the hidden `feature` field of a confirmation page.
pub open spec fn feature_selector() -> Seq<char> {
    "input[name=\"feature\"]"@
}

/// The `value` of the first `input[name="feature"]` element of a page.
pub open spec fn html_feature_value(html: Seq<char>) -> Option<Seq<char>> {
    html_first_attr(html, feature_selector(), "value"@)
}

/// A line of an answer that reports an error.
pub open spec fn error_line(l: Seq<char>) -> bool {
    contains(l, "ERROR"@) || contains(l, "エラー"@)
}

/// The first line (from `i` on) that reports an error.
pub open spec fn first_error_line(ls: Seq<Seq<char>>, i: int) -> Option<Seq<char>>
    decreases ls.len() - i,
{
    if i < 0 || i >= ls.len() {
        None
    } else if error_line(ls[i]) {
        Some(ls[i])
    } else {
        first_error_line(ls, i + 1)
    }
}

/// The error message of an answer: its first line reporting an error, cut
/// to 100 characters, or `HTTP error: <status>`.
pub open spec fn error_message(text: Seq<char>, status: Seq<char>) -> Seq<char> {
    match first_error_line(lines(text), 0) {
        Some(l) => if l.len() <= 100 {
            l
        } else {
            l.take(100)
        },
        None => "HTTP error: "@ + status,
    }
}

/// The error message of an answer.
pub fn extract_error(text: &[char], status: &str) -> (r: String)
    ensures
        r@ == error_message(text@, status@),
{
    let ls = lines_exec(text);
    let ghost lv = views(ls@);
    let err = chars_of("ERROR");
    let jp = chars_of("エラー");
    proof {
        reveal_strlit("ERROR");
        reveal_strlit("エラー");
    }
    let mut i: usize = 0;
    while i < ls.len()
        invariant
            i <= ls@.len(),
            lv == views(ls@),
            lv == lines(text@),
            err@ == "ERROR"@,
            jp@ == "エラー"@,
            err@.len() > 0,
            jp@.len() > 0,
            first_error_line(lv, 0) == first_error_line(lv, i as int),
        decreases ls.len() - i,
    {
        assert(lv[i as int] == ls@[i as int]@);
        if contains_exec(ls[i].as_slice(), err.as_slice()) || contains_exec(
            ls[i].as_slice(),
            jp.as_slice(),
        ) {
            let l = &ls[i];
            let n = if l.len() <= 100 {
                l.len()
            } else {
                100
            };
            let cut = slice_chars(l.as_slice(), 0, n);
            proof {
                assert(error_line(lv[i as int]));
                assert(first_error_line(lv, i as int) == Some(lv[i as int]));
                assert(l@ == lv[i as int]);
                if l@.len() <= 100 {
                    assert(cut@ =~= l@);
                } else {
                    assert(cut@ =~= l@.take(100));
                }
                assert(cut@ == error_message(text@, status@));
            }
            return string_of(cut.as_slice());
        }
        i = i + 1;
    }
    let mut out = chars_of("HTTP error: ");
    let sv = chars_of(status);
    append_chars(&mut out, sv.as_slice());
    string_of(out.as_slice())
}

/// What to do after an answer to a post.
pub enum PostStep {
    /// Send the form again, with this body.
    Repost(Vec<u8>),
    /// The post is over, with this outcome.
    Done(Result<(), String>),
}

/// The decision after the first answer, given whether its status is a
/// success, its text, and the `feature` value found in it: an error unless
/// the answer succeeded and holds a `feature` value; then the form again
/// with `feature=<value>` appended.
pub fn first_answer_decision(
    prepared: &PreparedPost,
    success: bool,
    status_text: &str,
    text: &[char],
    feature: Option<String>,
) -> (r: PostStep)
    requires
        forall|i: int|
            0 <= i < prepared.pairs@.len() ==> (#[trigger] prepared.pairs@[i]).1@.len()
                <= max_text_len(),
        feature matches Some(f) ==> f@.len() <= max_text_len(),
    ensures
        match r {
            PostStep::Repost(body) => success && (feature matches Some(f) && body@ == form_body(
                pairs_view(prepared.pairs@).push(("feature"@, f@)),
            )),
            PostStep::Done(res) => (!success || feature is None) && (res matches Err(e) && e@
                == error_message(text@, status_text@)),
        },
{
    if !success {
        return PostStep::Done(Err(extract_error(text, status_text)));
    }
    match feature {
        Some(fv) => {
            let mut pairs: Vec<(String, String)> = Vec::new();
            let mut i: usize = 0;
            while i < prepared.pairs.len()
                invariant
                    i <= prepared.pairs@.len(),
                    pairs_view(pairs@) == pairs_view(prepared.pairs@).take(i as int),
                    forall|k: int|
                        0 <= k < pairs@.len() ==> (#[trigger] pairs@[k]).1@.len()
                            <= max_text_len(),
                    forall|k: int|
                        0 <= k < prepared.pairs@.len() ==> (#[trigger] prepared.pairs@[k]).1@.len()
                            <= max_text_len(),
                decreases prepared.pairs.len() - i,
            {
                let k = prepared.pairs[i].0.clone();
                let v = prepared.pairs[i].1.clone();
                let ghost before = pairs_view(pairs@);
                pairs.push((k, v));
                assert(pairs_view(pairs@) =~= before.push(pairs_view(prepared.pairs@)[i as int]));
                assert(pairs_view(prepared.pairs@).take(i + 1) =~= pairs_view(prepared.pairs@).take(
                    i as int,
                ).push(pairs_view(prepared.pairs@)[i as int]));
                assert(pairs_view(pairs@) =~= pairs_view(prepared.pairs@).take(i + 1));
                i = i + 1;
            }
            assert(pairs_view(prepared.pairs@).take(prepared.pairs@.len() as int) =~= pairs_view(
                prepared.pairs@,
            ));
            let ghost fv_view = fv@;
            pairs.push((String::from_str("feature"), fv));
            assert(pairs_view(pairs@) =~= pairs_view(prepared.pairs@).push(("feature"@, fv_view)));
            PostStep::Repost(encode_body(pairs.as_slice()))
        },
        None => PostStep::Done(Err(extract_error(text, status_text))),
    }
}

/// A success status (2xx).
pub open spec fn status_success(status: u16) -> bool {
    200 <= status && status <= 299
}

/// A redirection status (3xx).
pub open spec fn status_redirection(status: u16) -> bool {
    300 <= status && status <= 399
}

/// The `feature` value of a page is longer than the Shift_JIS encoder can
/// size.
pub open spec fn feature_too_long(html: Seq<char>) -> bool {
    match html_feature_value(html) {
        Some(f) => f.len() > max_text_len(),
        None => false,
    }
}

/// The step after the first answer to a post (status code, its text, the
/// Shift_JIS body): the decision of `first_answer_decision` on the decoded
/// body and, for a success, the `feature` value `scraper` finds in it.
/// None when that value is longer than the Shift_JIS encoder can size, where
/// encoding it for the second post could not go on.
pub fn first_answer_step(prepared: &PreparedPost, status: u16, status_text: &str, body: &[u8]) -> (r:
    Option<PostStep>)
    requires
        body@.len() <= max_text_len(),
        forall|i: int|
            0 <= i < prepared.pairs@.len() ==> (#[trigger] prepared.pairs@[i]).1@.len()
                <= max_text_len(),
    ensures
        r is None <==> (status_success(status) && feature_too_long(shift_jis_decode(body@))),
        r matches Some(PostStep::Repost(b)) ==> status_success(status) && (html_feature_value(
            shift_jis_decode(body@),
        ) matches Some(f) && b@ == form_body(pairs_view(prepared.pairs@).push(("feature"@, f)))),
        r matches Some(PostStep::Done(res)) ==> {
            &&& !status_success(status) || html_feature_value(shift_jis_decode(body@)) is None
            &&& res matches Err(e) && e@ == error_message(shift_jis_decode(body@), status_text@)
        },
{
    let text = decode_sjis(body);
    let success = 200 <= status && status <= 299;
    let feature = if success {
        let t = string_of(text.as_slice());
        let f = extract_feature(t.as_str(), "input[name=\"feature\"]", "value");
        match f {
            Some(v) => {
                if v.as_str().unicode_len() > usize::MAX / 64 {
                    return None;
                }
                Some(v)
            },
            None => None,
        }
    } else {
        None
    };
    Some(first_answer_decision(prepared, success, status_text, text.as_slice(), feature))
}

/// The answer to a repost ends the post successfully: a success or a
/// redirection status.
pub fn repost_accepted(status: u16) -> (r: bool)
    ensures
        r == (status_redirection(status) || status_success(status)),
{
    (300 <= status && status <= 399) || (200 <= status && status <= 299)
}

/// The error of a refused repost, from its status text and Shift_JIS body.
pub fn repost_error(status_text: &str, body: &[u8]) -> (r: String)
    requires
        body@.len() <= max_text_len(),
    ensures
        r@ == error_message(shift_jis_decode(body@), status_text@),
{
    let text = decode_sjis(body);
    extract_error(text.as_slice(), status_text)
}


// ---------------------------------------------------------------------------
// The cookie jar
// ---------------------------------------------------------------------------

/// The `name=value` pairs of the cookies for a request, joined by `; `.
pub open spec fn cookie_pairs_text(pairs: Seq<(Seq<char>, Seq<char>)>) -> Seq<char> {
    join(pairs.map_values(|p: (Seq<char>, Seq<char>)| p.0 + "="@ + p.1), "; "@)
}

/// The `Cookie` header the jar sends with a request: its cookies' pairs
/// joined by `; `, or none when that text is empty.
pub fn cookie_header(pairs: &[(String, String)]) -> (r: Option<String>)
    ensures
        match r {
            Some(h) => h@ == cookie_pairs_text(pairs_view(pairs@)) && h@.len() > 0,
            None => cookie_pairs_text(pairs_view(pairs@)).len() == 0,
        },
{
    let ghost pv = pairs_view(pairs@);
    let ghost texts = pv.map_values(|p: (Seq<char>, Seq<char>)| p.0 + "="@ + p.1);
    let mut ls: Vec<Vec<char>> = Vec::new();
    let mut i: usize = 0;
    while i < pairs.len()
        invariant
            i <= pairs@.len(),
            pv == pairs_view(pairs@),
            texts == pv.map_values(|p: (Seq<char>, Seq<char>)| p.0 + "="@ + p.1),
            views(ls@) == texts.take(i as int),
        decreases pairs.len() - i,
    {
        let mut l = chars_of(pairs[i].0.as_str());
        let eq = chars_of("=");
        append_chars(&mut l, eq.as_slice());
        let v = chars_of(pairs[i].1.as_str());
        append_chars(&mut l, v.as_slice());
        let ghost before = views(ls@);
        ls.push(l);
        assert(pv[i as int] == (pairs@[i as int].0@, pairs@[i as int].1@));
        assert(views(ls@) =~= before.push(texts[i as int]));
        assert(texts.take(i + 1) =~= texts.take(i as int).push(texts[i as int]));
        i = i + 1;
    }
    assert(texts.take(pairs@.len() as int) =~= texts);
    let sep = chars_of("; ");
    let joined = join_exec(&ls, sep.as_slice());
    if joined.len() == 0 {
        None
    } else {
        Some(string_of(joined.as_slice()))
    }
}

} // verus!
