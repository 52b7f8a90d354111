//! The DAT format of a thread's posts, and the local cache of posts.
//!
//! A DAT line reads `name<>mail<>date ID:xxx<>body`, with `<br>` for line
//! breaks in the body.
use vstd::prelude::*;
use crate::text::{
    free_of, has_no, trimmed, is_ws, br_encode, lemma_br_encode_free, lemma_br_encode_last,
    lemma_trim_unchanged, lemma_split_once_pair, lemma_trimmed, lemma_find_none,
    lemma_br_round_trip, lemma_lines_join,
    trim, find, split_once, lines, replace, join, trim_end_char, views, decimal, chars_of,
    string_of, trim_chars, find_exec, split_once_exec, lines_exec, replace_exec, join_exec,
    trim_end_char_chars, slice_chars, concat_chars, append_chars,
};
use crate::types::{Post, PostView, posts_view, opt_view};
use crate::sjis::{shift_jis_decode, decode_sjis, max_text_len};

verus! {

/// The field separator `<>`.
pub open spec fn field_sep() -> Seq<char> {
    seq!['<', '>']
}

/// The line break of a body, `<br>`.
pub open spec fn br_tag() -> Seq<char> {
    seq!['<', 'b', 'r', '>']
}

/// A newline.
pub open spec fn newline() -> Seq<char> {
    seq!['\n']
}

/// The marker ` ID:` between a date and a poster ID.
pub open spec fn id_marker() -> Seq<char> {
    seq![' ', 'I', 'D', ':']
}

/// The field separator `<>`.
pub fn field_sep_exec() -> (r: Vec<char>)
    ensures
        r@ == field_sep(),
{
    let r = vec!['<', '>'];
    assert(r@ =~= field_sep());
    r
}

/// The line break of a body, `<br>`.
pub fn br_tag_exec() -> (r: Vec<char>)
    ensures
        r@ == br_tag(),
{
    let r = vec!['<', 'b', 'r', '>'];
    assert(r@ =~= br_tag());
    r
}

/// A newline.
pub fn newline_exec() -> (r: Vec<char>)
    ensures
        r@ == newline(),
{
    let r = vec!['\n'];
    assert(r@ =~= newline());
    r
}

fn id_marker_exec() -> (r: Vec<char>)
    ensures
        r@ == id_marker(),
{
    let r = vec![' ', 'I', 'D', ':'];
    assert(r@ =~= id_marker());
    r
}

/// The date and poster ID of a DAT date field: split at the first ` ID:`,
/// both sides trimmed; no ID when the marker is absent.
pub open spec fn split_date_id(date_id: Seq<char>) -> (Seq<char>, Option<Seq<char>>) {
    match find(date_id, id_marker()) {
        Some(i) => (trim(date_id.take(i)), Some(trim(date_id.skip(i + 4)))),
        None => (date_id, None),
    }
}

/// The post a (trimmed) DAT line stands for: at least three `<>`
/// separators; name, mail and date trimmed; the body is everything after the
/// third separator, with `<br>` turned into newlines.
pub open spec fn dat_entry(line: Seq<char>) -> Option<PostView> {
    match split_once(line, field_sep()) {
        Some((f0, r0)) => match split_once(r0, field_sep()) {
            Some((f1, r1)) => match split_once(r1, field_sep()) {
                Some((f2, body)) => {
                    let (date, id) = split_date_id(trim(f2));
                    Some(
                        PostView {
                            name: trim(f0),
                            email: trim(f1),
                            date,
                            body: replace(body, br_tag(), newline()),
                            id,
                        },
                    )
                },
                None => None,
            },
            None => None,
        },
        None => None,
    }
}

/// The posts of a DAT text: one per line that reads as a post, in order.
pub open spec fn parse_dat(text: Seq<char>) -> Seq<PostView> {
    lines(text).filter_map(|l: Seq<char>| dat_entry(trim(l)))
}

fn split_date_id_exec(date_id: Vec<char>) -> (r: (Vec<char>, Option<Vec<char>>))
    ensures
        (r.0@, match r.1 {
            Some(v) => Some(v@),
            None => None,
        }) == split_date_id(date_id@),
{
    let marker = id_marker_exec();
    match find_exec(date_id.as_slice(), marker.as_slice()) {
        Some(idx) => {
            proof {
                crate::text::lemma_find_from_occurs(date_id@, marker@, 0);
                assert(crate::text::occurs_at(date_id@, marker@, idx as int));
            }
            let dl = date_id.len();
            assert(dl == date_id@.len());
            let d0 = slice_chars(date_id.as_slice(), 0, idx);
            let i0 = slice_chars(date_id.as_slice(), idx + 4, dl);
            assert(d0@ =~= date_id@.take(idx as int));
            assert(i0@ =~= date_id@.skip(idx + 4));
            (trim_chars(d0.as_slice()), Some(trim_chars(i0.as_slice())))
        },
        None => (date_id, None),
    }
}

/// The post a trimmed DAT line stands for.
fn dat_entry_exec(line: &[char]) -> (r: Option<Post>)
    ensures
        match r {
            Some(p) => dat_entry(line@) == Some(p@),
            None => dat_entry(line@) is None,
        },
{
    let sep = field_sep_exec();
    let (f0, r0) = match split_once_exec(line, sep.as_slice()) {
        Some(x) => x,
        None => return None,
    };
    let (f1, r1) = match split_once_exec(r0.as_slice(), sep.as_slice()) {
        Some(x) => x,
        None => return None,
    };
    let (f2, body) = match split_once_exec(r1.as_slice(), sep.as_slice()) {
        Some(x) => x,
        None => return None,
    };
    let name = trim_chars(f0.as_slice());
    let email = trim_chars(f1.as_slice());
    let date_id = trim_chars(f2.as_slice());
    let br = br_tag_exec();
    let nl = newline_exec();
    let body2 = replace_exec(body.as_slice(), br.as_slice(), nl.as_slice());
    let (date, id) = split_date_id_exec(date_id);
    let id_s = match id {
        Some(v) => Some(string_of(v.as_slice())),
        None => None,
    };
    let p = Post {
        name: string_of(name.as_slice()),
        email: string_of(email.as_slice()),
        date: string_of(date.as_slice()),
        body: string_of(body2.as_slice()),
        id: id_s,
    };
    Some(p)
}

/// The posts of a DAT text.
pub fn parse_dat_text(text: &[char]) -> (r: Vec<Post>)
    ensures
        posts_view(r@) == parse_dat(text@),
{
    let ls = lines_exec(text);
    let ghost lv = views(ls@);
    let mut out: Vec<Post> = Vec::new();
    let mut i: usize = 0;
    assert(lv.take(0) =~= Seq::<Seq<char>>::empty());
    assert(posts_view(out@) =~= Seq::<PostView>::empty());
    while i < ls.len()
        invariant
            lv == views(ls@),
            i <= ls@.len(),
            posts_view(out@) == lv.take(i as int).filter_map(|l: Seq<char>| dat_entry(trim(l))),
        decreases ls.len() - i,
    {
        assert(lv.take(i + 1).drop_last() =~= lv.take(i as int));
        assert(lv.take(i + 1).last() == ls@[i as int]@);
        let line = trim_chars(ls[i].as_slice());
        let ghost before = posts_view(out@);
        match dat_entry_exec(line.as_slice()) {
            Some(p) => {
                out.push(p);
                assert(posts_view(out@) =~= before + seq![p@]);
            },
            None => {},
        }
        i = i + 1;
    }
    assert(lv.take(ls@.len() as int) =~= lv);
    out
}

/// The posts of a thread from its fetched DAT file (Shift_JIS bytes).
pub fn fetch_posts(bytes: &[u8]) -> (r: Vec<Post>)
    requires
        bytes@.len() <= max_text_len(),
    ensures
        posts_view(r@) == parse_dat(shift_jis_decode(bytes@)),
{
    let text = decode_sjis(bytes);
    parse_dat_text(text.as_slice())
}

/// The posts of the local cache of a thread (the same format, in UTF-8).
pub fn parse_posts_cache(content: &str) -> (r: Vec<Post>)
    ensures
        posts_view(r@) == parse_dat(content@),
{
    let text = chars_of(content);
    parse_dat_text(text.as_slice())
}

/// The address of a thread's DAT file: the board address without trailing
/// slashes, then `/dat/<thread>.dat`.
pub open spec fn dat_url(board_url: Seq<char>, thread_id: Seq<char>) -> Seq<char> {
    trim_end_char(board_url, '/') + seq!['/', 'd', 'a', 't', '/'] + thread_id + seq![
        '.',
        'd',
        'a',
        't',
    ]
}

/// The address of a thread's DAT file.
pub fn dat_url_exec(board_url: &str, thread_id: &str) -> (r: String)
    ensures
        r@ == dat_url(board_url@, thread_id@),
{
    let b = chars_of(board_url);
    let mut u = trim_end_char_chars(b.as_slice(), '/');
    let mid = vec!['/', 'd', 'a', 't', '/'];
    append_chars(&mut u, mid.as_slice());
    let t = chars_of(thread_id);
    append_chars(&mut u, t.as_slice());
    let ext = vec!['.', 'd', 'a', 't'];
    append_chars(&mut u, ext.as_slice());
    assert(u@ =~= dat_url(board_url@, thread_id@));
    string_of(u.as_slice())
}

/// ` ID:<id>` for a post with an ID, nothing otherwise.
pub open spec fn id_suffix(id: Option<Seq<char>>) -> Seq<char> {
    match id {
        Some(i) => id_marker() + i,
        None => Seq::<char>::empty(),
    }
}

/// The cache line of a post: `name<>mail<>date<>` then the ID suffix and
/// the body with newlines written as `<br>`.
pub open spec fn post_cache_line(p: PostView) -> Seq<char> {
    p.name + field_sep() + p.email + field_sep() + p.date + field_sep() + id_suffix(p.id)
        + replace(p.body, newline(), br_tag())
}

/// The cache text of posts: their lines joined by newlines.
pub open spec fn posts_cache_text(posts: Seq<PostView>) -> Seq<char> {
    join(posts.map_values(|p: PostView| post_cache_line(p)), newline())
}

fn post_cache_line_exec(p: &Post) -> (r: Vec<char>)
    ensures
        r@ == post_cache_line(p@),
{
    let sep = field_sep_exec();
    let mut out = chars_of(p.name.as_str());
    append_chars(&mut out, sep.as_slice());
    let e = chars_of(p.email.as_str());
    append_chars(&mut out, e.as_slice());
    append_chars(&mut out, sep.as_slice());
    let d = chars_of(p.date.as_str());
    append_chars(&mut out, d.as_slice());
    append_chars(&mut out, sep.as_slice());
    match &p.id {
        Some(id) => {
            let m = id_marker_exec();
            append_chars(&mut out, m.as_slice());
            let iv = chars_of(id.as_str());
            append_chars(&mut out, iv.as_slice());
        },
        None => {},
    }
    let b = chars_of(p.body.as_str());
    let nl = newline_exec();
    let br = br_tag_exec();
    let b2 = replace_exec(b.as_slice(), nl.as_slice(), br.as_slice());
    append_chars(&mut out, b2.as_slice());
    assert(out@ =~= post_cache_line(p@));
    out
}

/// The cache text of posts.
pub fn posts_cache_text_exec(posts: &[Post]) -> (r: String)
    ensures
        r@ == posts_cache_text(posts_view(posts@)),
{
    let mut ls: Vec<Vec<char>> = Vec::new();
    let mut i: usize = 0;
    while i < posts.len()
        invariant
            i <= posts@.len(),
            views(ls@) == posts_view(posts@).take(i as int).map_values(
                |p: PostView| post_cache_line(p),
            ),
        decreases posts.len() - i,
    {
        let l = post_cache_line_exec(&posts[i]);
        let ghost before = views(ls@);
        ls.push(l);
        assert(views(ls@) =~= before.push(post_cache_line(posts@[i as int]@)));
        assert(posts_view(posts@).take(i + 1) =~= posts_view(posts@).take(i as int).push(
            posts@[i as int]@,
        ));
        assert(views(ls@) =~= posts_view(posts@).take(i + 1).map_values(
            |p: PostView| post_cache_line(p),
        ));
        i = i + 1;
    }
    assert(posts_view(posts@).take(posts@.len() as int) =~= posts_view(posts@));
    let nl = newline_exec();
    let t = join_exec(&ls, nl.as_slice());
    string_of(t.as_slice())
}


/// A post the cache keeps as it is: no poster ID; a name, mail and date
/// without `<>` or line breaks and with no white space at their ends; a
/// date without ` ID:`; a body without `<br>` that does not end with white
/// space other than a newline.
///
/// A post with an ID is not kept: the cache writes the ID after the date's
/// separator, so it reads back as the start of the body.
pub open spec fn cacheable_post(p: PostView) -> bool {
    &&& p.id is None
    &&& has_no(p.name, field_sep()) && free_of(p.name, '\n') && trimmed(p.name)
    &&& has_no(p.email, field_sep()) && free_of(p.email, '\n') && trimmed(p.email)
    &&& has_no(p.date, field_sep()) && free_of(p.date, '\n') && trimmed(p.date)
    &&& has_no(p.date, id_marker())
    &&& has_no(p.body, br_tag())
    &&& p.body.len() > 0 && p.body.last() != '\n' ==> !is_ws(p.body.last())
}

proof fn lemma_post_line(p: PostView)
    requires
        cacheable_post(p),
    ensures
        free_of(post_cache_line(p), '\n'),
        post_cache_line(p).len() > 0,
        post_cache_line(p).last() != '\r',
        dat_entry(trim(post_cache_line(p))) == Some(p),
{
    let sep = field_sep();
    let rb = br_encode(p.body);
    assert(replace(p.body, newline(), br_tag()) == rb);
    let r1 = p.date + sep + rb;
    let r0 = p.email + sep + r1;
    let line = post_cache_line(p);
    assert(id_suffix(p.id) =~= Seq::<char>::empty());
    assert(line =~= p.name + sep + r0);
    lemma_br_encode_free(p.body);
    assert forall|i: int| 0 <= i < line.len() implies line[i] != '\n' by {
        let n = p.name.len();
        let e = p.email.len();
        let d = p.date.len();
        if i < n {
            assert(line[i] == p.name[i]);
        } else if i < n + 2 {
        } else if i < n + 2 + e {
            assert(line[i] == p.email[i - n - 2]);
        } else if i < n + 4 + e {
        } else if i < n + 4 + e + d {
            assert(line[i] == p.date[i - n - 4 - e]);
        } else if i < n + 6 + e + d {
        } else {
            assert(line[i] == rb[i - n - 6 - e - d]);
        }
    }
    if p.name.len() > 0 {
        assert(line[0] == p.name[0]);
    } else {
        assert(line[0] == '<');
    }
    if p.body.len() > 0 {
        lemma_br_encode_last(p.body);
        assert(line.last() == rb.last());
    } else {
        assert(rb.len() == 0);
        assert(line.last() == '>');
    }
    lemma_trim_unchanged(line);
    lemma_split_once_pair(p.name, '<', '>', r0);
    lemma_split_once_pair(p.email, '<', '>', r1);
    lemma_split_once_pair(p.date, '<', '>', rb);
    lemma_trimmed(p.name);
    lemma_trimmed(p.email);
    lemma_trimmed(p.date);
    lemma_find_none(p.date, id_marker(), 0);
    lemma_br_round_trip(p.body);
}

proof fn lemma_post_lines(ps: Seq<PostView>)
    requires
        forall|k: int| 0 <= k < ps.len() ==> cacheable_post(#[trigger] ps[k]),
    ensures
        ps.map_values(|p: PostView| post_cache_line(p)).filter_map(
            |l: Seq<char>| dat_entry(trim(l)),
        ) == ps,
    decreases ps.len(),
{
    let ls = ps.map_values(|p: PostView| post_cache_line(p));
    if ps.len() > 0 {
        let init = ps.drop_last();
        assert forall|k: int| 0 <= k < init.len() implies cacheable_post(#[trigger] init[k]) by {
            assert(init[k] == ps[k]);
        }
        lemma_post_lines(init);
        assert(ls.drop_last() =~= init.map_values(|p: PostView| post_cache_line(p)));
        assert(ps[ps.len() - 1] == ps.last());
        lemma_post_line(ps.last());
        assert(ls.last() == post_cache_line(ps.last()));
        assert(init + seq![ps.last()] =~= ps);
    }
}

/// What the post cache writes it reads back, for posts it keeps as they
/// are (`cacheable_post`): the posts of the text are those posts, in the
/// same order.
pub proof fn law_posts_cache_roundtrip(ps: Seq<PostView>)
    requires
        forall|k: int| 0 <= k < ps.len() ==> cacheable_post(#[trigger] ps[k]),
    ensures
        parse_dat(posts_cache_text(ps)) == ps,
{
    let ls = ps.map_values(|p: PostView| post_cache_line(p));
    assert forall|k: int| 0 <= k < ls.len() implies free_of(#[trigger] ls[k], '\n') && ls[k].len()
        > 0 && ls[k].last() != '\r' by {
        lemma_post_line(ps[k]);
    }
    assert(newline() =~= seq!['\n']);
    lemma_lines_join(ls);
    lemma_post_lines(ps);
}

} // verus!
