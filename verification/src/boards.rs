//! The board menu (`bbsmenu.html`), and the local cache of boards.
//!
//! The menu lists categories as `<br><b>Name</b><br>` and boards as
//! `<a href=https://host.5ch.io/board/>Name</a>`.  The two patterns are
//! recognized as the regular expressions
//! `(?i)<br>\s*<b>(.*?)</b>\s*<br>` and
//! `(?i)<a\s+href=(https?://[0-9a-z]+\.5ch\.io/[0-9a-z]+/)>([^<]*?)</a>`
//! match them (leftmost-first, non-overlapping, ASCII case folding, `\s`
//! being ASCII whitespace); each step of that matching is spelled out below.
use vstd::prelude::*;
use vstd::string::StringExecFns;
use crate::text::{
    free_of, is_ws, lemma_trim_unchanged, lemma_split_once_char, lemma_lines_join,
    trim, starts_with, split_once, find, lines, join, views, chars_of, string_of, trim_chars,
    slice_chars, split_once_exec, find_exec, lines_exec, join_exec, append_chars,
};
use crate::types::{Board, BoardView, boards_view};
use crate::order::{sort_boards, sort_boards_exec};
use crate::sjis::{shift_jis_decode, decode_sjis, max_text_len};

verus! {

// ---------------------------------------------------------------------------
// Character classes and literal pieces
// ---------------------------------------------------------------------------

/// `c` matches the lower-case pattern character `p` under ASCII case
/// folding.
pub open spec fn ci_eq(c: char, p: char) -> bool {
    c == p || (97 <= (p as u32) && (p as u32) <= 122 && (c as u32) == (p as u32) - 32)
}

fn ci_eq_exec(c: char, p: char) -> (r: bool)
    ensures
        r == ci_eq(c, p),
{
    let pu = p as u32;
    c == p || (97 <= pu && pu <= 122 && (c as u32) == pu - 32)
}

/// The lower-case pattern `pat` occurs at `i` under ASCII case folding.
pub open spec fn ci_occurs(s: Seq<char>, pat: Seq<char>, i: int) -> bool {
    0 <= i && i + pat.len() <= s.len() && forall|k: int|
        0 <= k < pat.len() ==> ci_eq(#[trigger] s[i + k], pat[k])
}

fn ci_occurs_exec(s: &[char], pat: &[char], i: usize) -> (r: bool)
    ensures
        r == ci_occurs(s@, pat@, i as int),
{
    if i > s.len() || pat.len() > s.len() - i {
        return false;
    }
    let mut k: usize = 0;
    while k < pat.len()
        invariant
            i + pat.len() <= s.len(),
            k <= pat.len(),
            forall|m: int| 0 <= m < k ==> ci_eq(#[trigger] s@[i + m], pat@[m]),
        decreases pat.len() - k,
    {
        if !ci_eq_exec(s[i + k], pat[k]) {
            return false;
        }
        k = k + 1;
    }
    true
}

/// `\s` of the regular expressions: ASCII whitespace `[\t\n\v\f\r ]`.
pub open spec fn re_space(c: char) -> bool {
    let u = c as u32;
    (9 <= u && u <= 13) || u == 32
}

/// `[0-9a-z]` under ASCII case folding.
pub open spec fn re_alnum(c: char) -> bool {
    let u = c as u32;
    (48 <= u && u <= 57) || (65 <= u && u <= 90) || (97 <= u && u <= 122)
}

fn re_space_exec(c: char) -> (r: bool)
    ensures
        r == re_space(c),
{
    let u = c as u32;
    (9 <= u && u <= 13) || u == 32
}

fn re_alnum_exec(c: char) -> (r: bool)
    ensures
        r == re_alnum(c),
{
    let u = c as u32;
    (48 <= u && u <= 57) || (65 <= u && u <= 90) || (97 <= u && u <= 122)
}

/// End of the run of `\s` starting at `i`.
pub open spec fn space_end(s: Seq<char>, i: int) -> int
    decreases s.len() - i,
{
    if 0 <= i < s.len() && re_space(s[i]) {
        space_end(s, i + 1)
    } else {
        i
    }
}

/// End of the run of `[0-9a-z]` starting at `i`.
pub open spec fn alnum_end(s: Seq<char>, i: int) -> int
    decreases s.len() - i,
{
    if 0 <= i < s.len() && re_alnum(s[i]) {
        alnum_end(s, i + 1)
    } else {
        i
    }
}

/// End of the run of `[^<]` starting at `i`.
pub open spec fn text_end(s: Seq<char>, i: int) -> int
    decreases s.len() - i,
{
    if 0 <= i < s.len() && s[i] != '<' {
        text_end(s, i + 1)
    } else {
        i
    }
}

fn space_end_exec(s: &[char], i: usize) -> (r: usize)
    requires
        i <= s@.len(),
    ensures
        r == space_end(s@, i as int),
        i <= r <= s@.len(),
{
    let mut j: usize = i;
    while j < s.len() && re_space_exec(s[j])
        invariant
            i <= j <= s@.len(),
            space_end(s@, i as int) == space_end(s@, j as int),
        decreases s.len() - j,
    {
        j = j + 1;
    }
    j
}

fn alnum_end_exec(s: &[char], i: usize) -> (r: usize)
    requires
        i <= s@.len(),
    ensures
        r == alnum_end(s@, i as int),
        i <= r <= s@.len(),
{
    let mut j: usize = i;
    while j < s.len() && re_alnum_exec(s[j])
        invariant
            i <= j <= s@.len(),
            alnum_end(s@, i as int) == alnum_end(s@, j as int),
        decreases s.len() - j,
    {
        j = j + 1;
    }
    j
}

fn text_end_exec(s: &[char], i: usize) -> (r: usize)
    requires
        i <= s@.len(),
    ensures
        r == text_end(s@, i as int),
        i <= r <= s@.len(),
{
    let mut j: usize = i;
    while j < s.len() && s[j] != '<'
        invariant
            i <= j <= s@.len(),
            text_end(s@, i as int) == text_end(s@, j as int),
        decreases s.len() - j,
    {
        j = j + 1;
    }
    j
}

/// `<br>`, matched without regard to case.
pub open spec fn lit_br() -> Seq<char> {
    seq!['<', 'b', 'r', '>']
}

/// `<b>`, matched without regard to case.
pub open spec fn lit_b_open() -> Seq<char> {
    seq!['<', 'b', '>']
}

/// `</b>`, matched without regard to case.
pub open spec fn lit_b_close() -> Seq<char> {
    seq!['<', '/', 'b', '>']
}

/// `<a`, matched without regard to case.
pub open spec fn lit_a_open() -> Seq<char> {
    seq!['<', 'a']
}

/// `href=`, matched without regard to case.
pub open spec fn lit_href() -> Seq<char> {
    seq!['h', 'r', 'e', 'f', '=']
}

/// `http`, matched without regard to case.
pub open spec fn lit_http() -> Seq<char> {
    seq!['h', 't', 't', 'p']
}

/// `://` after the scheme.
pub open spec fn lit_scheme_sep() -> Seq<char> {
    seq![':', '/', '/']
}

/// `.5ch.io/` after the host, matched without regard to case.
pub open spec fn lit_domain() -> Seq<char> {
    seq!['.', '5', 'c', 'h', '.', 'i', 'o', '/']
}

/// `</a>`, matched without regard to case.
pub open spec fn lit_a_close() -> Seq<char> {
    seq!['<', '/', 'a', '>']
}

// ---------------------------------------------------------------------------
// Category headers: (?i)<br>\s*<b>(.*?)</b>\s*<br>
// ---------------------------------------------------------------------------

/// `</b>\s*<br>` at `i`: the end of that text.
pub open spec fn cat_close_at(s: Seq<char>, i: int) -> Option<int> {
    if ci_occurs(s, lit_b_close(), i) {
        let j = space_end(s, i + 4);
        if ci_occurs(s, lit_br(), j) {
            Some(j + 4)
        } else {
            None
        }
    } else {
        None
    }
}

/// The shortest name from `i` on (no newline in it) after which the header
/// closes: the end of the name and of the header.
pub open spec fn cat_name_end(s: Seq<char>, i: int) -> Option<(int, int)>
    decreases s.len() - i,
{
    if i < 0 || i >= s.len() {
        None
    } else {
        match cat_close_at(s, i) {
            Some(e) => Some((i, e)),
            None => if s[i] == '\n' {
                None
            } else {
                cat_name_end(s, i + 1)
            },
        }
    }
}

/// A category header starting at `p`: (start of name, end of name, end).
pub open spec fn cat_match_at(s: Seq<char>, p: int) -> Option<(int, int, int)> {
    if ci_occurs(s, lit_br(), p) {
        let q = space_end(s, p + 4);
        if ci_occurs(s, lit_b_open(), q) {
            match cat_name_end(s, q + 3) {
                Some((k, e)) => Some((q + 3, k, e)),
                None => None,
            }
        } else {
            None
        }
    } else {
        None
    }
}

/// The category headers of `s` from `p` on, leftmost first, not
/// overlapping.
pub open spec fn cat_matches_from(s: Seq<char>, p: int) -> Seq<(int, int, int)>
    decreases s.len() - p,
{
    if p < 0 || p >= s.len() {
        Seq::empty()
    } else {
        match cat_match_at(s, p) {
            Some(m) => if p < m.2 <= s.len() {
                seq![m] + cat_matches_from(s, m.2)
            } else {
                Seq::empty()
            },
            None => cat_matches_from(s, p + 1),
        }
    }
}

fn cat_close_at_exec(s: &[char], i: usize) -> (r: Option<usize>)
    requires
        i <= s@.len(),
    ensures
        match r {
            Some(e) => cat_close_at(s@, i as int) == Some(e as int) && e <= s@.len(),
            None => cat_close_at(s@, i as int) is None,
        },
{
    let n = s.len();
    assert(n == s@.len());
    let close = vec!['<', '/', 'b', '>'];
    assert(close@ =~= lit_b_close());
    if !ci_occurs_exec(s, close.as_slice(), i) {
        return None;
    }
    let j = space_end_exec(s, i + 4);
    let br = vec!['<', 'b', 'r', '>'];
    assert(br@ =~= lit_br());
    if ci_occurs_exec(s, br.as_slice(), j) {
        Some(j + 4)
    } else {
        None
    }
}

fn cat_match_at_exec(s: &[char], p: usize) -> (r: Option<(usize, usize, usize)>)
    requires
        p <= s@.len(),
    ensures
        match r {
            Some(m) => cat_match_at(s@, p as int) == Some((m.0 as int, m.1 as int, m.2 as int))
                && m.0 <= m.1 <= s@.len() && m.2 <= s@.len(),
            None => cat_match_at(s@, p as int) is None,
        },
{
    let n = s.len();
    assert(n == s@.len());
    let br = vec!['<', 'b', 'r', '>'];
    assert(br@ =~= lit_br());
    if !ci_occurs_exec(s, br.as_slice(), p) {
        return None;
    }
    let q = space_end_exec(s, p + 4);
    let bo = vec!['<', 'b', '>'];
    assert(bo@ =~= lit_b_open());
    if !ci_occurs_exec(s, bo.as_slice(), q) {
        return None;
    }
    let start = q + 3;
    let mut i: usize = start;
    while i < s.len()
        invariant
            start <= i <= s@.len(),
            ci_occurs(s@, lit_br(), p as int),
            q == space_end(s@, p + 4),
            ci_occurs(s@, lit_b_open(), q as int),
            start == q + 3,
            cat_name_end(s@, start as int) == cat_name_end(s@, i as int),
        decreases s.len() - i,
    {
        match cat_close_at_exec(s, i) {
            Some(e) => {
                return Some((start, i, e));
            },
            None => {
                if s[i] == '\n' {
                    return None;
                }
            },
        }
        i = i + 1;
    }
    None
}

/// The category headers of `s`.
fn cat_matches_exec(s: &[char]) -> (r: Vec<(usize, usize, usize)>)
    ensures
        r@.len() == cat_matches_from(s@, 0).len(),
        forall|k: int|
            0 <= k < r@.len() ==> {
                let m = #[trigger] r@[k];
                cat_matches_from(s@, 0)[k] == (m.0 as int, m.1 as int, m.2 as int)
                    && m.0 <= m.1 <= s@.len() && m.2 <= s@.len()
            },
{
    let mut out: Vec<(usize, usize, usize)> = Vec::new();
    let ghost mut acc: Seq<(int, int, int)> = Seq::empty();
    let mut p: usize = 0;
    while p < s.len()
        invariant
            p <= s@.len(),
            acc + cat_matches_from(s@, p as int) == cat_matches_from(s@, 0),
            out@.len() == acc.len(),
            forall|k: int|
                0 <= k < out@.len() ==> {
                    let m = #[trigger] out@[k];
                    acc[k] == (m.0 as int, m.1 as int, m.2 as int) && m.0 <= m.1 <= s@.len()
                        && m.2 <= s@.len()
                },
        decreases s.len() - p,
    {
        match cat_match_at_exec(s, p) {
            Some(m) => {
                if m.2 <= p {
                    assert(cat_matches_from(s@, p as int) =~= Seq::<(int, int, int)>::empty());
                    assert(acc =~= cat_matches_from(s@, 0));
                    return out;
                }
                out.push(m);
                proof {
                    let mi = (m.0 as int, m.1 as int, m.2 as int);
                    assert(cat_matches_from(s@, p as int) =~= seq![mi] + cat_matches_from(
                        s@,
                        m.2 as int,
                    ));
                    acc = acc.push(mi);
                    assert(acc + cat_matches_from(s@, m.2 as int) =~= cat_matches_from(s@, 0));
                }
                p = m.2;
            },
            None => {
                p = p + 1;
            },
        }
    }
    assert(cat_matches_from(s@, p as int) =~= Seq::<(int, int, int)>::empty());
    assert(acc =~= cat_matches_from(s@, 0));
    out
}

// ---------------------------------------------------------------------------
// Board links:
// (?i)<a\s+href=(https?://[0-9a-z]+\.5ch\.io/[0-9a-z]+/)>([^<]*?)</a>
// ---------------------------------------------------------------------------

/// A board link starting at `p`: (start of address, end of address, start
/// of name, end of name, end).
pub open spec fn board_match_at(s: Seq<char>, p: int) -> Option<(int, int, int, int, int)> {
    let w = p + 2;
    let q = space_end(s, w);
    let u0 = q + 5;
    let u1 = u0 + 4;
    let u2 = if 0 <= u1 < s.len() && ci_eq(s[u1], 's') {
        u1 + 1
    } else {
        u1
    };
    let h0 = u2 + 3;
    let h1 = alnum_end(s, h0);
    let b0 = h1 + 8;
    let b1 = alnum_end(s, b0);
    let n0 = b1 + 2;
    let n1 = text_end(s, n0);
    if ci_occurs(s, lit_a_open(), p) && 0 <= w < s.len() && re_space(s[w]) && ci_occurs(
        s,
        lit_href(),
        q,
    ) && ci_occurs(s, lit_http(), u0) && ci_occurs(s, lit_scheme_sep(), u2) && h1 > h0
        && ci_occurs(s, lit_domain(), h1) && b1 > b0 && b1 + 1 < s.len() && s[b1] == '/' && s[b1
        + 1] == '>' && ci_occurs(s, lit_a_close(), n1) {
        Some((u0, b1 + 1, n0, n1, n1 + 4))
    } else {
        None
    }
}

/// The board links of `s` from `p` on, leftmost first, not overlapping.
pub open spec fn board_matches_from(s: Seq<char>, p: int) -> Seq<(int, int, int, int, int)>
    decreases s.len() - p,
{
    if p < 0 || p >= s.len() {
        Seq::empty()
    } else {
        match board_match_at(s, p) {
            Some(m) => if p < m.4 <= s.len() {
                seq![m] + board_matches_from(s, m.4)
            } else {
                Seq::empty()
            },
            None => board_matches_from(s, p + 1),
        }
    }
}

fn board_match_at_exec(s: &[char], p: usize) -> (r: Option<(usize, usize, usize, usize, usize)>)
    requires
        p <= s@.len(),
    ensures
        match r {
            Some(m) => board_match_at(s@, p as int) == Some(
                (m.0 as int, m.1 as int, m.2 as int, m.3 as int, m.4 as int),
            ) && m.0 <= m.1 <= s@.len() && m.2 <= m.3 <= s@.len() && m.4 <= s@.len(),
            None => board_match_at(s@, p as int) is None,
        },
{
    let n = s.len();
    assert(n == s@.len());
    let a_open = vec!['<', 'a'];
    assert(a_open@ =~= lit_a_open());
    if !ci_occurs_exec(s, a_open.as_slice(), p) {
        return None;
    }
    let w = p + 2;
    if !(w < n && re_space_exec(s[w])) {
        return None;
    }
    let q = space_end_exec(s, w);
    let href = vec!['h', 'r', 'e', 'f', '='];
    assert(href@ =~= lit_href());
    if !ci_occurs_exec(s, href.as_slice(), q) {
        return None;
    }
    let u0 = q + 5;
    let http = vec!['h', 't', 't', 'p'];
    assert(http@ =~= lit_http());
    if !ci_occurs_exec(s, http.as_slice(), u0) {
        return None;
    }
    let u1 = u0 + 4;
    let u2 = if u1 < n && ci_eq_exec(s[u1], 's') {
        u1 + 1
    } else {
        u1
    };
    let sep = vec![':', '/', '/'];
    assert(sep@ =~= lit_scheme_sep());
    if !ci_occurs_exec(s, sep.as_slice(), u2) {
        return None;
    }
    let h0 = u2 + 3;
    let h1 = alnum_end_exec(s, h0);
    let dom = vec!['.', '5', 'c', 'h', '.', 'i', 'o', '/'];
    assert(dom@ =~= lit_domain());
    if !(h1 > h0 && ci_occurs_exec(s, dom.as_slice(), h1)) {
        return None;
    }
    let b0 = h1 + 8;
    let b1 = alnum_end_exec(s, b0);
    if !(b1 > b0 && b1 < n && n - b1 > 1 && s[b1] == '/' && s[b1 + 1] == '>') {
        return None;
    }
    let n0 = b1 + 2;
    let n1 = text_end_exec(s, n0);
    let close = vec!['<', '/', 'a', '>'];
    assert(close@ =~= lit_a_close());
    if !ci_occurs_exec(s, close.as_slice(), n1) {
        return None;
    }
    Some((u0, b1 + 1, n0, n1, n1 + 4))
}

/// The board links of `s`.
fn board_matches_exec(s: &[char]) -> (r: Vec<(usize, usize, usize, usize, usize)>)
    ensures
        r@.len() == board_matches_from(s@, 0).len(),
        forall|k: int|
            0 <= k < r@.len() ==> {
                let m = #[trigger] r@[k];
                board_matches_from(s@, 0)[k] == (
                    m.0 as int,
                    m.1 as int,
                    m.2 as int,
                    m.3 as int,
                    m.4 as int,
                ) && m.0 <= m.1 <= s@.len() && m.2 <= m.3 <= s@.len()
            },
{
    let mut out: Vec<(usize, usize, usize, usize, usize)> = Vec::new();
    let ghost mut acc: Seq<(int, int, int, int, int)> = Seq::empty();
    let mut p: usize = 0;
    while p < s.len()
        invariant
            p <= s@.len(),
            acc + board_matches_from(s@, p as int) == board_matches_from(s@, 0),
            out@.len() == acc.len(),
            forall|k: int|
                0 <= k < out@.len() ==> {
                    let m = #[trigger] out@[k];
                    acc[k] == (m.0 as int, m.1 as int, m.2 as int, m.3 as int, m.4 as int)
                        && m.0 <= m.1 <= s@.len() && m.2 <= m.3 <= s@.len()
                },
        decreases s.len() - p,
    {
        match board_match_at_exec(s, p) {
            Some(m) => {
                if m.4 <= p {
                    assert(board_matches_from(s@, p as int) =~= Seq::<
                        (int, int, int, int, int),
                    >::empty());
                    assert(acc =~= board_matches_from(s@, 0));
                    return out;
                }
                out.push(m);
                proof {
                    let mi = (m.0 as int, m.1 as int, m.2 as int, m.3 as int, m.4 as int);
                    assert(board_matches_from(s@, p as int) =~= seq![mi] + board_matches_from(
                        s@,
                        m.4 as int,
                    ));
                    acc = acc.push(mi);
                    assert(acc + board_matches_from(s@, m.4 as int) =~= board_matches_from(s@, 0));
                }
                p = m.4;
            },
            None => {
                p = p + 1;
            },
        }
    }
    assert(board_matches_from(s@, p as int) =~= Seq::<(int, int, int, int, int)>::empty());
    assert(acc =~= board_matches_from(s@, 0));
    out
}

// ---------------------------------------------------------------------------
// The boards of a menu
// ---------------------------------------------------------------------------

/// A name the menu lists as a board: not empty, not starting with `[`.
pub open spec fn listed_name(name: Seq<char>) -> bool {
    name.len() > 0 && !starts_with(name, seq!['['])
}

/// The board of a link, within category `cat` or outside any.
pub open spec fn link_board(s: Seq<char>, cat: Option<Seq<char>>, m: (int, int, int, int, int)) -> Option<
    BoardView,
> {
    match cat {
        Some(c) => section_board(s, c, m),
        None => plain_board(s, m),
    }
}

/// The boards of the links of `s`, within category `cat` or outside any.
pub open spec fn links_boards(s: Seq<char>, cat: Option<Seq<char>>) -> Seq<BoardView> {
    board_matches_from(s, 0).filter_map(|m: (int, int, int, int, int)| link_board(s, cat, m))
}

/// The board of a link when outside any category.
pub open spec fn plain_board(s: Seq<char>, m: (int, int, int, int, int)) -> Option<BoardView> {
    let name = trim(s.subrange(m.2, m.3));
    if listed_name(name) {
        Some(BoardView { name, url: s.subrange(m.0, m.1), category: Seq::empty() })
    } else {
        None
    }
}

/// The boards of all the links of `s`, no category.
pub open spec fn plain_boards(s: Seq<char>) -> Seq<BoardView> {
    links_boards(s, None)
}

/// The board of a link inside category `cat`: named `[cat] name`.
pub open spec fn section_board(sec: Seq<char>, cat: Seq<char>, m: (int, int, int, int, int)) -> Option<
    BoardView,
> {
    let name = trim(sec.subrange(m.2, m.3));
    if listed_name(name) {
        Some(
            BoardView {
                name: seq!['['] + cat + seq![']', ' '] + name,
                url: sec.subrange(m.0, m.1),
                category: Seq::empty(),
            },
        )
    } else {
        None
    }
}

/// The boards of the links of a section of category `cat`.
pub open spec fn section_boards(sec: Seq<char>, cat: Seq<char>) -> Seq<BoardView> {
    links_boards(sec, Some(cat))
}

/// The boards of the sections from header `i` on: a section runs from the
/// end of its header to the end of the next header (or of the text).
pub open spec fn sections(t: Seq<char>, cats: Seq<(int, int, int)>, i: int) -> Seq<BoardView>
    decreases cats.len() - i,
{
    if i < 0 || i >= cats.len() {
        Seq::empty()
    } else {
        let start = cats[i].2;
        let end = if i + 1 < cats.len() {
            cats[i + 1].2
        } else {
            t.len() as int
        };
        let name = trim(t.subrange(cats[i].0, cats[i].1));
        section_boards(t.subrange(start, end), name) + sections(t, cats, i + 1)
    }
}

/// Boards without repeats of the address just before them.
pub open spec fn dedup_url(s: Seq<BoardView>) -> Seq<BoardView>
    decreases s.len(),
{
    if s.len() <= 1 {
        s
    } else {
        let r = dedup_url(s.drop_last());
        if s.last().url == s[s.len() - 2].url {
            r
        } else {
            r.push(s.last())
        }
    }
}

/// The boards of a menu text: by category section when there are headers
/// and they yield boards, otherwise all links; then sorted by name and
/// without consecutive repeats of an address.
pub open spec fn menu_boards(t: Seq<char>) -> Seq<BoardView> {
    let cats = cat_matches_from(t, 0);
    let raw = if cats.len() == 0 {
        plain_boards(t)
    } else {
        let sb = sections(t, cats, 0);
        if sb.len() == 0 {
            plain_boards(t)
        } else {
            sb
        }
    };
    dedup_url(sort_boards(Set::empty(), false, raw))
}

/// The view of an optional category name.
pub open spec fn cat_view(cat: Option<&Vec<char>>) -> Option<Seq<char>> {
    match cat {
        Some(c) => Some(c@),
        None => None,
    }
}

fn board_from_link(
    s: &[char],
    m: (usize, usize, usize, usize, usize),
    cat: Option<&Vec<char>>,
) -> (r: Option<Board>)
    requires
        m.0 <= m.1 <= s@.len(),
        m.2 <= m.3 <= s@.len(),
    ensures
        ({
            let mi = (m.0 as int, m.1 as int, m.2 as int, m.3 as int, m.4 as int);
            let expect = link_board(s@, cat_view(cat), mi);
            match r {
                Some(b) => expect == Some(b@),
                None => expect is None,
            }
        }),
{
    let raw = slice_chars(s, m.2, m.3);
    let name = trim_chars(raw.as_slice());
    if name.len() == 0 || name[0] == '[' {
        proof {
            if name@.len() > 0 {
                assert(name@.take(1) =~= seq!['[']);
            }
        }
        return None;
    }
    proof {
        assert(!starts_with(name@, seq!['['])) by {
            if starts_with(name@, seq!['[']) {
                assert(name@.take(1)[0] == '[');
            }
        }
    }
    let url = slice_chars(s, m.0, m.1);
    let full = match cat {
        Some(c) => {
            let mut f = vec!['['];
            append_chars(&mut f, c.as_slice());
            let mid = vec![']', ' '];
            append_chars(&mut f, mid.as_slice());
            append_chars(&mut f, name.as_slice());
            f
        },
        None => name,
    };
    let b = Board {
        name: string_of(full.as_slice()),
        url: string_of(url.as_slice()),
        category: string_of(Vec::<char>::new().as_slice()),
    };
    proof {
        match cat {
            Some(c) => {
                assert(b@.name =~= seq!['['] + c@ + seq![']', ' '] + name@);
            },
            None => {},
        }
        assert(b@.category =~= Seq::<char>::empty());
    }
    Some(b)
}

/// The boards of the links of `s`, plain or within category `cat`.
fn link_boards(s: &[char], cat: Option<&Vec<char>>) -> (r: Vec<Board>)
    ensures
        boards_view(r@) == links_boards(s@, cat_view(cat)),
{
    let ms = board_matches_exec(s);
    let ghost all = board_matches_from(s@, 0);
    let ghost cv = cat_view(cat);
    let mut out: Vec<Board> = Vec::new();
    let mut i: usize = 0;
    assert(all.take(0) =~= Seq::<(int, int, int, int, int)>::empty());
    assert(boards_view(out@) =~= Seq::<BoardView>::empty());
    while i < ms.len()
        invariant
            i <= ms@.len() == all.len(),
            all == board_matches_from(s@, 0),
            cv == cat_view(cat),
            forall|k: int|
                0 <= k < ms@.len() ==> {
                    let m = #[trigger] ms@[k];
                    all[k] == (m.0 as int, m.1 as int, m.2 as int, m.3 as int, m.4 as int) && m.0
                        <= m.1 <= s@.len() && m.2 <= m.3 <= s@.len()
                },
            boards_view(out@) == all.take(i as int).filter_map(
                |m: (int, int, int, int, int)| link_board(s@, cv, m),
            ),
        decreases ms.len() - i,
    {
        let m = ms[i];
        assert(all.take(i + 1).drop_last() =~= all.take(i as int));
        assert(all.take(i + 1).last() == all[i as int]);
        let ghost before = boards_view(out@);
        match board_from_link(s, m, cat) {
            Some(b) => {
                out.push(b);
                assert(boards_view(out@) =~= before + seq![b@]);
            },
            None => {},
        }
        i = i + 1;
    }
    assert(all.take(all.len() as int) =~= all);
    out
}

fn append_boards(a: &mut Vec<Board>, b: Vec<Board>)
    ensures
        boards_view(final(a)@) == boards_view(old(a)@) + boards_view(b@),
{
    let mut b = b;
    let ghost a0 = boards_view(a@);
    let ghost bv = boards_view(b@);
    a.append(&mut b);
    assert(boards_view(a@) =~= a0 + bv);
}

/// Boards without consecutive repeats of an address.
pub fn dedup_boards(v: Vec<Board>) -> (r: Vec<Board>)
    ensures
        boards_view(r@) == dedup_url(boards_view(v@)),
{
    let ghost orig = boards_view(v@);
    let n = v.len();
    let mut rest = v;
    let mut out: Vec<Board> = Vec::new();
    let mut prev: Option<String> = None;
    assert(orig.take(0) =~= Seq::<BoardView>::empty());
    while rest.len() > 0
        invariant
            n == orig.len(),
            rest@.len() <= n,
            boards_view(rest@) == orig.skip(n - rest@.len()),
            boards_view(out@) == dedup_url(orig.take(n - rest@.len())),
            match prev {
                Some(u) => n - rest@.len() > 0 && u@ == orig[n - rest@.len() - 1].url,
                None => n - rest@.len() == 0,
            },
        decreases rest.len(),
    {
        let ghost k = n - rest@.len();
        assert(boards_view(rest@)[0] == rest@[0]@);
        let ghost old_rest = rest@;
        let x = rest.remove(0);
        assert(x@ == orig[k]);
        assert(rest@ =~= old_rest.subrange(1, old_rest.len() as int));
        assert forall|m: int| 0 <= m < rest@.len() implies #[trigger] boards_view(rest@)[m]
            == orig.skip(k + 1)[m] by {
            assert(boards_view(old_rest)[m + 1] == old_rest[m + 1]@);
            assert(orig.skip(k)[m + 1] == orig.skip(k + 1)[m]);
        }
        assert(boards_view(rest@) =~= orig.skip(k + 1));
        assert(orig.take(k + 1).drop_last() =~= orig.take(k));
        let keep = match &prev {
            None => true,
            Some(u) => !(*u == x.url),
        };
        prev = Some(x.url.clone());
        let ghost before = boards_view(out@);
        if keep {
            out.push(x);
            assert(boards_view(out@) =~= before.push(orig[k]));
        }
        proof {
            if k == 0 {
                assert(orig.take(1) =~= seq![orig[0]]);
            } else {
                assert(orig.take(k + 1)[k - 1] == orig[k - 1]);
            }
        }
    }
    assert(orig.take(n as int) =~= orig);
    out
}

/// Header ends grow along the matches and stay within the text.
pub proof fn lemma_cat_matches_ordered(s: Seq<char>, p: int)
    ensures
        forall|k: int|
            0 <= k < cat_matches_from(s, p).len() ==> p < (#[trigger] cat_matches_from(s, p)[k]).2
                <= s.len(),
        forall|k: int|
            1 <= k < cat_matches_from(s, p).len() ==> cat_matches_from(s, p)[k - 1].2 < (
            #[trigger] cat_matches_from(s, p)[k]).2,
    decreases s.len() - p,
{
    let all = cat_matches_from(s, p);
    if p < 0 || p >= s.len() {
        assert(all.len() == 0);
    } else if cat_match_at(s, p) is None {
        lemma_cat_matches_ordered(s, p + 1);
        let r = cat_matches_from(s, p + 1);
        assert(all == r);
        assert forall|k: int| 0 <= k < all.len() implies p < (#[trigger] all[k]).2 <= s.len() by {
            assert(p + 1 < r[k].2);
        }
        assert forall|k: int| 1 <= k < all.len() implies all[k - 1].2 < (#[trigger] all[k]).2 by {
            assert(r[k - 1].2 < r[k].2);
        }
    } else {
        let m = cat_match_at(s, p).unwrap();
        if p < m.2 <= s.len() {
            lemma_cat_matches_ordered(s, m.2);
            let r = cat_matches_from(s, m.2);
            assert(all =~= seq![m] + r);
            assert forall|k: int| 1 <= k < all.len() implies all[k - 1].2 < (#[trigger] all[k]).2 by {
                if k >= 2 {
                    assert(all[k - 1] == r[k - 2]);
                    assert(all[k] == r[k - 1]);
                } else {
                    assert(all[k] == r[0]);
                }
            }
            assert forall|k: int| 0 <= k < all.len() implies p < (#[trigger] all[k]).2 <= s.len() by {
                if k >= 1 {
                    assert(all[k] == r[k - 1]);
                }
            }
        } else {
            assert(all.len() == 0);
        }
    }
}

/// The boards of a menu text.
pub fn parse_menu_text(t: &[char]) -> (r: Vec<Board>)
    ensures
        boards_view(r@) == menu_boards(t@),
{
    let cats = cat_matches_exec(t);
    let ghost cs = cat_matches_from(t@, 0);
    let mut raw: Vec<Board> = Vec::new();
    if cats.len() > 0 {
        let mut i: usize = 0;
        assert(boards_view(raw@) + sections(t@, cs, 0) =~= sections(t@, cs, 0));
        while i < cats.len()
            invariant
                i <= cats@.len() == cs.len(),
                cs == cat_matches_from(t@, 0),
                forall|k: int|
                    0 <= k < cats@.len() ==> {
                        let m = #[trigger] cats@[k];
                        cs[k] == (m.0 as int, m.1 as int, m.2 as int) && m.0 <= m.1 <= t@.len()
                            && m.2 <= t@.len()
                    },
                boards_view(raw@) + sections(t@, cs, i as int) == sections(t@, cs, 0),
            decreases cats.len() - i,
        {
            let (c0, c1, start) = cats[i];
            let end = if i + 1 < cats.len() {
                cats[i + 1].2
            } else {
                t.len()
            };
            assert(cs[i as int].2 == start as int);
            let name_raw = slice_chars(t, c0, c1);
            let name = trim_chars(name_raw.as_slice());
            proof {
                lemma_cat_matches_ordered(t@, 0);
                if i + 1 < cats@.len() {
                    assert(cs[i + 1].2 > cs[i as int].2);
                }
            }
            let sec = slice_chars(t, start, end);
            let bs = link_boards(sec.as_slice(), Some(&name));
            let ghost before = boards_view(raw@);
            append_boards(&mut raw, bs);
            proof {
                assert(sections(t@, cs, i as int) == section_boards(sec@, name@) + sections(
                    t@,
                    cs,
                    i + 1,
                ));
                assert(boards_view(raw@) + sections(t@, cs, i + 1) =~= before + sections(
                    t@,
                    cs,
                    i as int,
                ));
            }
            i = i + 1;
        }
    }
    let raw = if raw.len() == 0 {
        link_boards(t, None)
    } else {
        raw
    };
    let sorted = sort_boards_exec(raw, &Vec::new(), false);
    proof {
        assert(crate::types::string_set(Seq::<String>::empty()) =~= Set::<Seq<char>>::empty());
    }
    dedup_boards(sorted)
}

/// The boards of the fetched menu (Shift_JIS bytes).
pub fn fetch_boards(bytes: &[u8]) -> (r: Vec<Board>)
    requires
        bytes@.len() <= max_text_len(),
    ensures
        boards_view(r@) == menu_boards(shift_jis_decode(bytes@)),
{
    let text = decode_sjis(bytes);
    parse_menu_text(text.as_slice())
}

// ---------------------------------------------------------------------------
// The local cache of boards
// ---------------------------------------------------------------------------

/// Category and name of a board name written `[category] name`: both parts
/// trimmed; no category when the name does not read that way.
pub open spec fn category_from_name(name: Seq<char>) -> (Seq<char>, Seq<char>) {
    match find(name, seq![']']) {
        Some(end) => if starts_with(name, seq!['[']) {
            (trim(name.subrange(1, end)), trim(name.skip(end + 1)))
        } else {
            (Seq::empty(), name)
        },
        None => (Seq::empty(), name),
    }
}

/// Category and name of a board name written `[category] name`.
pub fn parse_category_from_name(name: &str) -> (r: (String, String))
    ensures
        (r.0@, r.1@) == category_from_name(name@),
{
    let v = chars_of(name);
    let close = vec![']'];
    assert(close@ =~= seq![']']);
    match find_exec(v.as_slice(), close.as_slice()) {
        Some(end) => {
            if v.len() > 0 && v[0] == '[' {
                proof {
                    assert(v@.take(1) =~= seq!['[']);
                    crate::text::lemma_find_from_occurs(v@, close@, 0);
                    assert(crate::text::occurs_at(v@, close@, end as int));
                    assert(v@.subrange(end as int, end + 1)[0] == ']');
                }
                let n = v.len();
                let cat = slice_chars(v.as_slice(), 1, end);
                let rest = slice_chars(v.as_slice(), end + 1, n);
                assert(rest@ =~= v@.skip(end + 1));
                let c = trim_chars(cat.as_slice());
                let r = trim_chars(rest.as_slice());
                return (string_of(c.as_slice()), string_of(r.as_slice()));
            }
            proof {
                if v@.len() > 0 {
                    assert(v@.take(1)[0] == v@[0]);
                }
            }
        },
        None => {},
    }
    (String::new(), String::from_str(name))
}

/// The board a (trimmed) cache line stands for: `url|name|category`, or the
/// older `url|[category] name`.
pub open spec fn cache_board(line: Seq<char>) -> Option<BoardView> {
    match split_once(line, seq!['|']) {
        Some((u, r)) => match split_once(r, seq!['|']) {
            Some((n, c)) => Some(BoardView { name: n, url: u, category: c }),
            None => {
                let (c, n) = category_from_name(r);
                Some(BoardView { name: n, url: u, category: c })
            },
        },
        None => None,
    }
}

/// The boards of a board cache text, in order.
pub open spec fn parse_boards_cache(text: Seq<char>) -> Seq<BoardView> {
    lines(text).filter_map(|l: Seq<char>| cache_board(trim(l)))
}

fn cache_board_exec(line: &[char]) -> (r: Option<Board>)
    ensures
        match r {
            Some(b) => cache_board(line@) == Some(b@),
            None => cache_board(line@) is None,
        },
{
    let b = vec!['|'];
    assert(b@ =~= seq!['|']);
    let (u, r) = match split_once_exec(line, b.as_slice()) {
        Some(x) => x,
        None => return None,
    };
    match split_once_exec(r.as_slice(), b.as_slice()) {
        Some((n, c)) => Some(
            Board {
                name: string_of(n.as_slice()),
                url: string_of(u.as_slice()),
                category: string_of(c.as_slice()),
            },
        ),
        None => {
            let rs = string_of(r.as_slice());
            let (c, n) = parse_category_from_name(rs.as_str());
            Some(Board { name: n, url: string_of(u.as_slice()), category: c })
        },
    }
}

/// The boards of a board cache text.
pub fn parse_boards_cache_exec(content: &str) -> (r: Vec<Board>)
    ensures
        boards_view(r@) == parse_boards_cache(content@),
{
    let text = chars_of(content);
    let ls = lines_exec(text.as_slice());
    let ghost lv = views(ls@);
    let mut out: Vec<Board> = Vec::new();
    let mut i: usize = 0;
    assert(lv.take(0) =~= Seq::<Seq<char>>::empty());
    assert(boards_view(out@) =~= Seq::<BoardView>::empty());
    while i < ls.len()
        invariant
            lv == views(ls@),
            i <= ls@.len(),
            boards_view(out@) == lv.take(i as int).filter_map(|l: Seq<char>| cache_board(trim(l))),
        decreases ls.len() - i,
    {
        assert(lv.take(i + 1).drop_last() =~= lv.take(i as int));
        assert(lv.take(i + 1).last() == ls@[i as int]@);
        let line = trim_chars(ls[i].as_slice());
        let ghost before = boards_view(out@);
        match cache_board_exec(line.as_slice()) {
            Some(b) => {
                out.push(b);
                assert(boards_view(out@) =~= before + seq![b@]);
            },
            None => {},
        }
        i = i + 1;
    }
    assert(lv.take(ls@.len() as int) =~= lv);
    out
}

/// The cache line of a board: `url|name|category`.
pub open spec fn board_cache_line(b: BoardView) -> Seq<char> {
    b.url + seq!['|'] + b.name + seq!['|'] + b.category
}

/// The cache text of boards: their lines joined by newlines.
pub open spec fn boards_cache_text(bs: Seq<BoardView>) -> Seq<char> {
    join(bs.map_values(|b: BoardView| board_cache_line(b)), seq!['\n'])
}

/// The cache text of boards.
pub fn boards_cache_text_exec(bs: &[Board]) -> (r: String)
    ensures
        r@ == boards_cache_text(boards_view(bs@)),
{
    let mut ls: Vec<Vec<char>> = Vec::new();
    let mut i: usize = 0;
    while i < bs.len()
        invariant
            i <= bs@.len(),
            views(ls@) == boards_view(bs@).take(i as int).map_values(
                |b: BoardView| board_cache_line(b),
            ),
        decreases bs.len() - i,
    {
        let b = &bs[i];
        let mut l = chars_of(b.url.as_str());
        let bar = vec!['|'];
        append_chars(&mut l, bar.as_slice());
        let n = chars_of(b.name.as_str());
        append_chars(&mut l, n.as_slice());
        append_chars(&mut l, bar.as_slice());
        let c = chars_of(b.category.as_str());
        append_chars(&mut l, c.as_slice());
        assert(l@ =~= board_cache_line(b@));
        let ghost before = views(ls@);
        ls.push(l);
        assert(views(ls@) =~= before.push(board_cache_line(bs@[i as int]@)));
        assert(boards_view(bs@).take(i + 1) =~= boards_view(bs@).take(i as int).push(
            bs@[i as int]@,
        ));
        i = i + 1;
    }
    assert(boards_view(bs@).take(bs@.len() as int) =~= boards_view(bs@));
    let nl = vec!['\n'];
    assert(nl@ =~= seq!['\n']);
    let t = join_exec(&ls, nl.as_slice());
    string_of(t.as_slice())
}


/// A board the cache keeps as it is: an address and a name without `|` or
/// line breaks, a category without line breaks, an address that does not
/// start and a category that does not end with white space.
pub open spec fn cacheable_board(b: BoardView) -> bool {
    &&& free_of(b.url, '|')
    &&& free_of(b.url, '\n')
    &&& free_of(b.name, '|')
    &&& free_of(b.name, '\n')
    &&& free_of(b.category, '\n')
    &&& b.url.len() > 0 ==> !is_ws(b.url[0])
    &&& b.category.len() > 0 ==> !is_ws(b.category.last())
}

proof fn lemma_board_line(b: BoardView)
    requires
        cacheable_board(b),
    ensures
        free_of(board_cache_line(b), '\n'),
        board_cache_line(b).len() > 0,
        board_cache_line(b).last() != '\r',
        cache_board(trim(board_cache_line(b))) == Some(b),
{
    let line = board_cache_line(b);
    let rest = b.name + seq!['|'] + b.category;
    assert(line =~= b.url + seq!['|'] + rest);
    assert forall|i: int| 0 <= i < line.len() implies line[i] != '\n' by {
        if i < b.url.len() {
            assert(line[i] == b.url[i]);
        } else if i == b.url.len() {
        } else if i < b.url.len() + 1 + b.name.len() {
            assert(line[i] == b.name[i - b.url.len() - 1]);
        } else if i == b.url.len() + 1 + b.name.len() {
        } else {
            assert(line[i] == b.category[i - b.url.len() - 2 - b.name.len()]);
        }
    }
    if b.url.len() > 0 {
        assert(line[0] == b.url[0]);
    } else {
        assert(line[0] == '|');
    }
    if b.category.len() > 0 {
        assert(line.last() == b.category.last());
    } else {
        assert(line.last() == '|');
    }
    lemma_trim_unchanged(line);
    lemma_split_once_char(b.url, '|', rest);
    lemma_split_once_char(b.name, '|', b.category);
}

proof fn lemma_board_lines(bs: Seq<BoardView>)
    requires
        forall|k: int| 0 <= k < bs.len() ==> cacheable_board(#[trigger] bs[k]),
    ensures
        bs.map_values(|b: BoardView| board_cache_line(b)).filter_map(
            |l: Seq<char>| cache_board(trim(l)),
        ) == bs,
    decreases bs.len(),
{
    let ls = bs.map_values(|b: BoardView| board_cache_line(b));
    if bs.len() > 0 {
        let init = bs.drop_last();
        assert forall|k: int| 0 <= k < init.len() implies cacheable_board(#[trigger] init[k]) by {
            assert(init[k] == bs[k]);
        }
        lemma_board_lines(init);
        assert(ls.drop_last() =~= init.map_values(|b: BoardView| board_cache_line(b)));
        assert(bs[bs.len() - 1] == bs.last());
        lemma_board_line(bs.last());
        assert(ls.last() == board_cache_line(bs.last()));
        assert(init + seq![bs.last()] =~= bs);
    }
}

/// What the board cache writes it reads back: the boards of the text of
/// cacheable boards are those boards, in the same order.
pub proof fn law_boards_cache_roundtrip(bs: Seq<BoardView>)
    requires
        forall|k: int| 0 <= k < bs.len() ==> cacheable_board(#[trigger] bs[k]),
    ensures
        parse_boards_cache(boards_cache_text(bs)) == bs,
{
    let ls = bs.map_values(|b: BoardView| board_cache_line(b));
    assert forall|k: int| 0 <= k < ls.len() implies free_of(#[trigger] ls[k], '\n') && ls[k].len()
        > 0 && ls[k].last() != '\r' by {
        lemma_board_line(bs[k]);
    }
    lemma_lines_join(ls);
    lemma_board_lines(bs);
}

} // verus!
