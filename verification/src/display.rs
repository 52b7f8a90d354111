//! The text the screens show: title bar, search bar, list rows, the posts
//! of a thread, the compose form and the status line.  Lengths in bytes
//! are those of the UTF-8 encoding.
use vstd::prelude::*;
use vstd::string::StringExecFns;
use vstd::utf8::{encode_utf8, decode_utf8, is_char_boundary};
use crate::text::{lines, lines_exec, views, chars_of, string_of, append_chars, decimal,
    decimal_exec, slice_chars};
use crate::types::{AppState, Screen, Post, PostView, ThreadView, BoardView, strings_view,
    string_set, opt_view};
use crate::state::all_upto;
use crate::lists::set_contains;
use crate::posts::id_suffix;
use crate::reading::lines_before;

verus! {

/// The number of bytes of a text in UTF-8.
pub open spec fn byte_len(s: Seq<char>) -> nat {
    encode_utf8(s).len()
}

/// The number of bytes of a text in UTF-8 (executable).
fn byte_len_exec(s: &str) -> (r: usize)
    ensures
        r == byte_len(s@),
{
    s.as_bytes().len()
}

/// The text after byte `b`, for a text with a character starting there.
pub open spec fn bytes_from(s: Seq<char>, b: int) -> Seq<char> {
    decode_utf8(encode_utf8(s).subrange(b, byte_len(s) as int))
}

/// The first `n` characters of a text (all of them when it is shorter).
pub open spec fn first_chars(s: Seq<char>, n: int) -> Seq<char> {
    if s.len() <= n {
        s
    } else {
        s.take(n)
    }
}

fn first_chars_exec(s: &[char], n: usize) -> (r: Vec<char>)
    ensures
        r@ == first_chars(s@, n as int),
{
    if s.len() <= n {
        let r = slice_chars(s, 0, s.len());
        assert(r@ =~= s@);
        r
    } else {
        let r = slice_chars(s, 0, n);
        assert(r@ =~= s@.take(n as int));
        r
    }
}

/// The prefix of every title.
pub open spec fn title_prefix() -> Seq<char> {
    " 5ちゃんねるびゅあ - "@
}

/// A board name in the title: over 40 bytes, `...` and its last 37 bytes.
pub open spec fn board_title(board: Seq<char>) -> Seq<char> {
    if byte_len(board) > 40 {
        "..."@ + bytes_from(board, byte_len(board) - 37)
    } else {
        board
    }
}

/// A thread title line in the title: over 50 bytes, its first 47
/// characters and `...`.
pub open spec fn info_title(info: Seq<char>) -> Seq<char> {
    if byte_len(info) > 50 {
        first_chars(info, 47) + "..."@
    } else {
        info
    }
}

/// The cut of the board name in the title falls between two characters
/// (the title of a longer name cuts it 37 bytes before its end).
pub open spec fn board_title_cut_ok(board: Seq<char>) -> bool {
    byte_len(board) > 40 ==> is_char_boundary(encode_utf8(board), byte_len(board) - 37)
}

impl AppState {
    /// The title bar.
    pub open spec fn title_of(&self) -> Seq<char> {
        title_prefix() + match self.screen {
            Screen::BoardList => "板一覧"@,
            Screen::ThreadList => match self.current_board {
                Some(b) => board_title(b@),
                None => "スレ一覧"@,
            },
            Screen::Compose => "レス投稿"@,
            Screen::ThreadView => match self.thread_info {
                Some(i) => info_title(i@),
                None => "スレ"@,
            },
        }
    }

    /// The title bar: the name of the reader, then the screen, the open
    /// board, or the title line of the open thread.
    pub fn title_text(&self) -> (r: String)
        requires
            self.screen == Screen::ThreadList ==> match self.current_board {
                Some(b) => board_title_cut_ok(b@),
                None => true,
            },
        ensures
            r@ == self.title_of(),
    {
        let mut out = String::from_str(" 5ちゃんねるびゅあ - ");
        match self.screen {
            Screen::BoardList => out.append("板一覧"),
            Screen::ThreadList => match &self.current_board {
                Some(b) => {
                    let n = byte_len_exec(b.as_str());
                    if n > 40 {
                        let (_, tail) = b.as_str().split_at(n - 37);
                        proof {
                            vstd::utf8::encode_utf8_decode_utf8(tail@);
                        }
                        assert(tail@ == bytes_from(b@, n - 37));
                        out.append("...");
                        out.append(tail);
                    } else {
                        out.append(b.as_str());
                    }
                },
                None => out.append("スレ一覧"),
            },
            Screen::Compose => out.append("レス投稿"),
            Screen::ThreadView => match &self.thread_info {
                Some(i) => {
                    let n = byte_len_exec(i.as_str());
                    if n > 50 {
                        let cs = chars_of(i.as_str());
                        let head = first_chars_exec(cs.as_slice(), 47);
                        let hs = string_of(head.as_slice());
                        out.append(hs.as_str());
                        out.append("...");
                    } else {
                        out.append(i.as_str());
                    }
                },
                None => out.append("スレ"),
            },
        }
        out
    }
}


// ---------------------------------------------------------------------------
// The search bar and the message of an empty pane
// ---------------------------------------------------------------------------

impl AppState {
    /// The search bar: `/` and the query, then the number of matches
    /// unless every entry matches.
    pub open spec fn search_bar_of(&self) -> Seq<char> {
        if self.search_matches@.len() == self.list_len() {
            "/"@ + self.search_query@ + " "@
        } else {
            "/"@ + self.search_query@ + " ("@ + decimal(self.search_matches@.len()) + "件)"@
        }
    }

    /// The search bar.
    pub fn search_bar_text(&self) -> (r: String)
        ensures
            r@ == self.search_bar_of(),
    {
        let total = match self.screen {
            Screen::BoardList => self.boards.len(),
            Screen::ThreadList => self.threads.len(),
            Screen::ThreadView => self.posts.len(),
            Screen::Compose => 0,
        };
        let mut out = String::from_str("/");
        out.append(self.search_query.as_str());
        if self.search_matches.len() == total {
            out.append(" ");
        } else {
            out.append(" (");
            let d = string_of(decimal_exec(self.search_matches.len() as u64).as_slice());
            out.append(d.as_str());
            out.append("件)");
        }
        out
    }

    /// What the main pane says instead of a list: that loading is under
    /// way, or that the list of the screen is empty.
    pub open spec fn pane_message_of(&self) -> Option<Seq<char>> {
        if self.loading {
            Some("読み込み中..."@)
        } else {
            match self.screen {
                Screen::BoardList => if self.boards@.len() == 0 {
                    Some("板一覧が空です。'r' で再読み込み"@)
                } else {
                    None
                },
                Screen::ThreadList => if self.threads@.len() == 0 {
                    Some("スレ一覧が空です。'r' で再読み込み"@)
                } else {
                    None
                },
                Screen::ThreadView => if self.posts@.len() == 0 {
                    Some("レスがありません。'r' で再読み込み"@)
                } else {
                    None
                },
                Screen::Compose => None,
            }
        }
    }

    /// What the main pane says instead of a list, if anything.
    pub fn pane_message(&self) -> (r: Option<String>)
        ensures
            opt_view(r) == self.pane_message_of(),
    {
        if self.loading {
            return Some(String::from_str("読み込み中..."));
        }
        match self.screen {
            Screen::BoardList => if self.boards.len() == 0 {
                Some(String::from_str("板一覧が空です。'r' で再読み込み"))
            } else {
                None
            },
            Screen::ThreadList => if self.threads.len() == 0 {
                Some(String::from_str("スレ一覧が空です。'r' で再読み込み"))
            } else {
                None
            },
            Screen::ThreadView => if self.posts.len() == 0 {
                Some(String::from_str("レスがありません。'r' で再読み込み"))
            } else {
                None
            },
            Screen::Compose => None,
        }
    }

    /// The entries a list shows (of `n`): the matches of a search with
    /// matches, none during a search without, every entry otherwise.
    pub open spec fn shown_entries(&self, n: nat) -> Seq<usize> {
        if self.searching() {
            self.search_matches@
        } else if !self.search_active {
            all_upto(n)
        } else {
            Seq::empty()
        }
    }

    fn shown_entries_exec(&self, n: usize) -> (r: Vec<usize>)
        ensures
            r@ == self.shown_entries(n as nat),
    {
        let mut out: Vec<usize> = Vec::new();
        if self.search_active && self.search_matches.len() > 0 {
            let mut i: usize = 0;
            while i < self.search_matches.len()
                invariant
                    i <= self.search_matches@.len(),
                    out@ == self.search_matches@.take(i as int),
                decreases self.search_matches.len() - i,
            {
                out.push(self.search_matches[i]);
                i = i + 1;
                assert(out@ =~= self.search_matches@.take(i as int));
            }
            assert(out@ =~= self.search_matches@);
        } else if !self.search_active {
            let mut i: usize = 0;
            while i < n
                invariant
                    i <= n,
                    out@ == all_upto(i as nat),
                decreases n - i,
            {
                out.push(i);
                i = i + 1;
                assert(out@ =~= all_upto(i as nat));
            }
        }
        out
    }
}

// ---------------------------------------------------------------------------
// The board list and the thread list
// ---------------------------------------------------------------------------

/// A row of the board list: a star for a favorite, then the board name.
pub open spec fn board_row(favs: Set<Seq<char>>, b: BoardView) -> Seq<char> {
    (if favs.contains(b.url) {
        "★ "@
    } else {
        "  "@
    }) + b.name
}

/// A thread title cut to `max` characters, `...` marking the cut.
pub open spec fn clip_title(t: Seq<char>, max: int) -> Seq<char> {
    if t.len() > max {
        t.take(max) + "..."@
    } else {
        t
    }
}

/// A row of the thread list: the title cut to `max` characters, then the
/// number of posts.
pub open spec fn thread_row(t: ThreadView, max: int) -> Seq<char> {
    clip_title(t.title, max) + " ("@ + decimal(t.post_count as nat) + "レス)"@
}

impl AppState {
    /// Remember how many rows a box of `height` rows shows inside its
    /// border (two rows fewer, none for a smaller box): the size of a page.
    pub fn set_visible_rows(&mut self, height: u16)
        ensures
            *final(self) == (AppState {
                visible_items: if height >= 2 {
                    (height - 2) as usize
                } else {
                    0
                },
                ..*old(self)
            }),
    {
        self.visible_items = if height >= 2 {
            (height - 2) as usize
        } else {
            0
        };
    }

    /// The title of the board list box.
    pub open spec fn board_list_title_of(&self) -> Seq<char> {
        if self.search_active {
            "板一覧 ("@ + decimal(self.search_matches@.len()) + "件)"@
        } else {
            "板一覧"@
        }
    }

    /// The title of the board list box: the number of matches during a
    /// search.
    pub fn board_list_title(&self) -> (r: String)
        ensures
            r@ == self.board_list_title_of(),
    {
        if self.search_active {
            let mut out = String::from_str("板一覧 (");
            let d = string_of(decimal_exec(self.search_matches.len() as u64).as_slice());
            out.append(d.as_str());
            out.append("件)");
            out
        } else {
            String::from_str("板一覧")
        }
    }

    /// The title of the thread list box.
    pub open spec fn thread_list_title_of(&self) -> Seq<char> {
        if self.search_active {
            "スレ一覧 ("@ + decimal(self.search_matches@.len()) + "件)"@
        } else {
            "スレ一覧"@
        }
    }

    /// The title of the thread list box: the number of matches during a
    /// search.
    pub fn thread_list_title(&self) -> (r: String)
        ensures
            r@ == self.thread_list_title_of(),
    {
        if self.search_active {
            let mut out = String::from_str("スレ一覧 (");
            let d = string_of(decimal_exec(self.search_matches.len() as u64).as_slice());
            out.append(d.as_str());
            out.append("件)");
            out
        } else {
            String::from_str("スレ一覧")
        }
    }

    /// The rows of the board list.
    pub fn board_rows(&self) -> (r: Vec<String>)
        requires
            forall|k: int|
                0 <= k < self.shown_entries(self.boards@.len()).len() ==> (#[trigger] self.shown_entries(
                    self.boards@.len(),
                )[k]) < self.boards@.len(),
        ensures
            strings_view(r@) == self.shown_entries(self.boards@.len()).map_values(
                |i: usize| board_row(string_set(self.favorites@), self.boards@[i as int]@),
            ),
    {
        let idx = self.shown_entries_exec(self.boards.len());
        let ghost iv = idx@;
        let mut out: Vec<String> = Vec::new();
        let mut k: usize = 0;
        while k < idx.len()
            invariant
                iv == idx@,
                iv == self.shown_entries(self.boards@.len()),
                forall|m: int| 0 <= m < iv.len() ==> (#[trigger] iv[m]) < self.boards@.len(),
                k <= iv.len(),
                strings_view(out@) == iv.take(k as int).map_values(
                    |i: usize| board_row(string_set(self.favorites@), self.boards@[i as int]@),
                ),
            decreases idx.len() - k,
        {
            let b = &self.boards[idx[k]];
            let mut row = if set_contains(&self.favorites, &b.url) {
                String::from_str("★ ")
            } else {
                String::from_str("  ")
            };
            row.append(b.name.as_str());
            let ghost before = strings_view(out@);
            out.push(row);
            assert(strings_view(out@) =~= before.push(
                board_row(string_set(self.favorites@), self.boards@[iv[k as int] as int]@),
            ));
            assert(iv.take(k + 1) =~= iv.take(k as int).push(iv[k as int]));
            k = k + 1;
        }
        assert(iv.take(iv.len() as int) =~= iv);
        out
    }

    /// The rows of the thread list, for a list box `width` columns wide
    /// (titles are cut to `width - 18` characters).
    pub fn thread_rows(&self, width: u16) -> (r: Vec<String>)
        requires
            forall|k: int|
                0 <= k < self.shown_entries(self.threads@.len()).len() ==> (
                #[trigger] self.shown_entries(self.threads@.len())[k]) < self.threads@.len(),
            self.shown_entries(self.threads@.len()).len() > 0 ==> width >= 18,
        ensures
            strings_view(r@) == self.shown_entries(self.threads@.len()).map_values(
                |i: usize| thread_row(self.threads@[i as int]@, width - 18),
            ),
    {
        let idx = self.shown_entries_exec(self.threads.len());
        let ghost iv = idx@;
        let mut out: Vec<String> = Vec::new();
        let mut k: usize = 0;
        while k < idx.len()
            invariant
                iv == idx@,
                iv == self.shown_entries(self.threads@.len()),
                forall|m: int| 0 <= m < iv.len() ==> (#[trigger] iv[m]) < self.threads@.len(),
                iv.len() > 0 ==> width >= 18,
                k <= iv.len(),
                strings_view(out@) == iv.take(k as int).map_values(
                    |i: usize| thread_row(self.threads@[i as int]@, width - 18),
                ),
            decreases idx.len() - k,
        {
            let t = &self.threads[idx[k]];
            let max_chars = (width as usize) - 18;
            let tv = chars_of(t.title.as_str());
            let mut row = if tv.len() > max_chars {
                let h = slice_chars(tv.as_slice(), 0, max_chars);
                assert(h@ =~= tv@.take(max_chars as int));
                let mut hs = string_of(h.as_slice());
                hs.append("...");
                hs
            } else {
                string_of(tv.as_slice())
            };
            row.append(" (");
            let d = string_of(decimal_exec(t.post_count as u64).as_slice());
            row.append(d.as_str());
            row.append("レス)");
            let ghost before = strings_view(out@);
            out.push(row);
            assert(strings_view(out@) =~= before.push(
                thread_row(self.threads@[iv[k as int] as int]@, width - 18),
            ));
            assert(iv.take(k + 1) =~= iv.take(k as int).push(iv[k as int]));
            k = k + 1;
        }
        assert(iv.take(iv.len() as int) =~= iv);
        out
    }
}


// ---------------------------------------------------------------------------
// The thread view
// ---------------------------------------------------------------------------

/// The mail of a post in its header: nothing for none or `sage`,
/// otherwise ` <mail>`.
pub open spec fn mail_part(email: Seq<char>) -> Seq<char> {
    if email.len() == 0 || email == "sage"@ {
        Seq::empty()
    } else {
        " <"@ + email + ">"@
    }
}

/// The header row of post number `num`: number, mail, name, date and ID.
pub open spec fn post_header(num: nat, p: PostView) -> Seq<char> {
    decimal(num) + mail_part(p.email) + " 名前:"@ + p.name + " "@ + p.date + " "@ + id_suffix(p.id)
}

/// A rule of `n` dashes.
pub open spec fn rule(n: nat) -> Seq<char> {
    Seq::new(n, |i: int| '-')
}

/// The rows of post number `num`: a rule as long as the header (at most
/// 60), the header, the lines of the body, and an empty row.
pub open spec fn post_rows(num: nat, p: PostView) -> Seq<Seq<char>> {
    let h = post_header(num, p);
    seq![rule(if byte_len(h) < 60 { byte_len(h) } else { 60 }), h] + lines(p.body) + seq![
        Seq::<char>::empty(),
    ]
}

/// The rows of a post: a rule of dashes as long as the header's UTF-8
/// bytes (at most 60), the header, each line of the body, an empty row.
/// The header is the number, the mail in angle brackets unless it is empty
/// or `sage` (both show no mail part), ` 名前:` and the name, the date,
/// and ` ID:` with the ID when the post has one.
pub proof fn law_post_rows_layout(num: nat, p: PostView)
    ensures
        ({
            let rows = post_rows(num, p);
            let tail = " 名前:"@ + p.name + " "@ + p.date + " "@ + match p.id {
                Some(i) => seq![' ', 'I', 'D', ':'] + i,
                None => Seq::<char>::empty(),
            };
            &&& rows.len() == lines(p.body).len() + 3
            &&& (p.email.len() == 0 || p.email == "sage"@) ==> rows[1] == decimal(num) + tail
            &&& !(p.email.len() == 0 || p.email == "sage"@) ==> rows[1] == decimal(num) + " <"@
                + p.email + ">"@ + tail
            &&& rows[0].len() == if byte_len(rows[1]) < 60 {
                byte_len(rows[1])
            } else {
                60
            }
            &&& forall|k: int| 0 <= k < rows[0].len() ==> #[trigger] rows[0][k] == '-'
            &&& forall|k: int| 0 <= k < lines(p.body).len() ==> rows[k + 2] == #[trigger] lines(
                p.body,
            )[k]
            &&& rows[rows.len() - 1].len() == 0
        }),
        post_rows(num, PostView { email: Seq::empty(), ..p })[1] == post_rows(
            num,
            PostView { email: "sage"@, ..p },
        )[1],
{
    let h = post_header(num, p);
    let tail = " 名前:"@ + p.name + " "@ + p.date + " "@ + match p.id {
        Some(i) => seq![' ', 'I', 'D', ':'] + i,
        None => Seq::<char>::empty(),
    };
    assert(id_suffix(p.id) == match p.id {
        Some(i) => seq![' ', 'I', 'D', ':'] + i,
        None => Seq::<char>::empty(),
    });
    if p.email.len() == 0 || p.email == "sage"@ {
        assert(h =~= decimal(num) + tail);
    } else {
        assert(h =~= decimal(num) + " <"@ + p.email + ">"@ + tail);
    }
    let rows = post_rows(num, p);
    assert(rows[1] == h);
    assert forall|k: int| 0 <= k < lines(p.body).len() implies rows[k + 2] == #[trigger] lines(
        p.body,
    )[k] by {}
}

fn rule_exec(n: usize) -> (r: String)
    ensures
        r@ == rule(n as nat),
{
    let mut v: Vec<char> = Vec::new();
    let mut i: usize = 0;
    while i < n
        invariant
            i <= n,
            v@ == rule(i as nat),
        decreases n - i,
    {
        v.push('-');
        i = i + 1;
        assert(v@ =~= rule(i as nat));
    }
    string_of(v.as_slice())
}

/// The rows of post number `num` in the thread view.
pub fn format_post(num: usize, post: &Post) -> (r: Vec<String>)
    ensures
        strings_view(r@) == post_rows(num as nat, post@),
{
    let mut header = string_of(decimal_exec(num as u64).as_slice());
    let is_sage = post.email.as_str().is_empty() || post.email == String::from_str("sage");
    if !is_sage {
        header.append(" <");
        header.append(post.email.as_str());
        header.append(">");
    }
    header.append(" 名前:");
    header.append(post.name.as_str());
    header.append(" ");
    header.append(post.date.as_str());
    header.append(" ");
    match &post.id {
        Some(id) => {
            header.append(" ID:");
            header.append(id.as_str());
        },
        None => {},
    }
    proof {
        reveal_strlit(" ID:");
    }
    assert(header@ =~= post_header(num as nat, post@));
    let hb = byte_len_exec(header.as_str());
    let n = if hb < 60 {
        hb
    } else {
        60
    };
    let mut out: Vec<String> = Vec::new();
    out.push(rule_exec(n));
    out.push(header);
    let body = chars_of(post.body.as_str());
    let ls = lines_exec(body.as_slice());
    let ghost lv = views(ls@);
    let ghost head = strings_view(out@);
    let mut i: usize = 0;
    while i < ls.len()
        invariant
            lv == views(ls@),
            lv == lines(post.body@),
            i <= ls@.len(),
            strings_view(out@) == head + lv.take(i as int),
        decreases ls.len() - i,
    {
        let ghost before = strings_view(out@);
        out.push(string_of(ls[i].as_slice()));
        assert(strings_view(out@) =~= before.push(lv[i as int]));
        assert(lv.take(i + 1) =~= lv.take(i as int).push(lv[i as int]));
        i = i + 1;
    }
    assert(lv.take(ls@.len() as int) =~= lv);
    let ghost before = strings_view(out@);
    out.push(String::new());
    assert(strings_view(out@) =~= before.push(Seq::<char>::empty()));
    assert(strings_view(out@) =~= post_rows(num as nat, post@));
    out
}

/// The rows of the first `n` posts of a thread, numbered from 1.
pub open spec fn thread_rows_upto(posts: Seq<Post>, n: int) -> Seq<Seq<char>>
    decreases n,
{
    if n <= 0 {
        Seq::empty()
    } else {
        thread_rows_upto(posts, n - 1) + post_rows(n as nat, posts[n - 1]@)
    }
}

/// The thread view and the scroll offsets agree: the first `n` posts take
/// `lines_before(posts, n)` rows, so the rows of post `n + 1` begin at the
/// offset `calc_scroll_offset(n)` scrolls to, and the rows of the whole
/// thread number `total_lines(posts)`.
pub proof fn law_post_rows_offsets(posts: Seq<Post>, n: int)
    requires
        0 <= n <= posts.len(),
    ensures
        thread_rows_upto(posts, n).len() == lines_before(posts, n),
        n > 0 ==> thread_rows_upto(posts, n).subrange(
            lines_before(posts, n - 1),
            lines_before(posts, n),
        ) == post_rows(n as nat, posts[n - 1]@),
    decreases n,
{
    if n > 0 {
        law_post_rows_offsets(posts, n - 1);
        let a = thread_rows_upto(posts, n - 1);
        let b = post_rows(n as nat, posts[n - 1]@);
        assert((a + b).subrange(a.len() as int, (a + b).len() as int) =~= b);
    }
}

/// The first line of a post body, or nothing for an empty body.
pub open spec fn first_line(body: Seq<char>) -> Seq<char> {
    if lines(body).len() > 0 {
        lines(body)[0]
    } else {
        Seq::empty()
    }
}

/// The first line of a post cut for a list `width` columns wide: longer
/// than `width - 10` characters, its first `width - 13` and `...`.
pub open spec fn preview(l: Seq<char>, width: int) -> Seq<char> {
    if l.len() > width - 10 {
        l.take(width - 13) + "..."@
    } else {
        l
    }
}

/// A row of the search results in a thread: the post number and a preview
/// of its first line.
pub open spec fn post_search_row(i: nat, p: PostView, width: int) -> Seq<char> {
    "#"@ + decimal(i + 1) + " "@ + preview(first_line(p.body), width)
}

/// The preview of a first line can be cut for a list this wide.
pub open spec fn preview_fits(l: Seq<char>, width: int) -> bool {
    width >= 10 && (l.len() > width - 10 ==> width >= 13)
}

impl AppState {
    /// The rows of the whole thread (`format_post` for each post).
    pub fn thread_text(&self) -> (r: Vec<String>)
        ensures
            strings_view(r@) == thread_rows_upto(self.posts@, self.posts@.len() as int),
    {
        let mut out: Vec<String> = Vec::new();
        let mut i: usize = 0;
        while i < self.posts.len()
            invariant
                i <= self.posts@.len(),
                strings_view(out@) == thread_rows_upto(self.posts@, i as int),
            decreases self.posts.len() - i,
        {
            let np = self.posts.len();
            assert(i < np);
            let rows = format_post(i + 1, &self.posts[i]);
            let ghost before = strings_view(out@);
            let mut k: usize = 0;
            while k < rows.len()
                invariant
                    k <= rows@.len(),
                    strings_view(out@) == before + strings_view(rows@).take(k as int),
                decreases rows.len() - k,
            {
                let ghost b2 = strings_view(out@);
                out.push(string_of(chars_of(rows[k].as_str()).as_slice()));
                assert(strings_view(out@) =~= b2.push(rows@[k as int]@));
                assert(strings_view(rows@).take(k + 1) =~= strings_view(rows@).take(k as int).push(
                    rows@[k as int]@,
                ));
                k = k + 1;
            }
            assert(strings_view(rows@).take(rows@.len() as int) =~= strings_view(rows@));
            i = i + 1;
        }
        out
    }

    /// The rows of the search results in a thread, for a list `width`
    /// columns wide.
    pub fn post_search_rows(&self, width: u16) -> (r: Vec<String>)
        requires
            forall|k: int|
                0 <= k < self.search_matches@.len() ==> (#[trigger] self.search_matches@[k])
                    < self.posts@.len(),
            forall|k: int|
                0 <= k < self.search_matches@.len() ==> preview_fits(
                    first_line(self.posts@[#[trigger] self.search_matches@[k] as int].body@),
                    width as int,
                ),
        ensures
            strings_view(r@) == self.search_matches@.map_values(
                |i: usize| post_search_row(i as nat, self.posts@[i as int]@, width as int),
            ),
    {
        let mut out: Vec<String> = Vec::new();
        let mut k: usize = 0;
        while k < self.search_matches.len()
            invariant
                k <= self.search_matches@.len(),
                forall|m: int|
                    0 <= m < self.search_matches@.len() ==> (#[trigger] self.search_matches@[m])
                        < self.posts@.len(),
                forall|m: int|
                    0 <= m < self.search_matches@.len() ==> preview_fits(
                        first_line(self.posts@[#[trigger] self.search_matches@[m] as int].body@),
                        width as int,
                    ),
                strings_view(out@) == self.search_matches@.take(k as int).map_values(
                    |i: usize| post_search_row(i as nat, self.posts@[i as int]@, width as int),
                ),
            decreases self.search_matches.len() - k,
        {
            let i = self.search_matches[k];
            let np = self.posts.len();
            assert(i < np);
            let p = &self.posts[i];
            let body = chars_of(p.body.as_str());
            let ls = lines_exec(body.as_slice());
            assert(views(ls@).len() == ls@.len());
            let first: Vec<char> = if ls.len() > 0 {
                assert(views(ls@)[0] == ls@[0]@);
                slice_chars(ls[0].as_slice(), 0, ls[0].len())
            } else {
                Vec::new()
            };
            assert(first@ =~= first_line(p.body@));
            let w = width as usize;
            let pv = if first.len() > w - 10 {
                let mut h = slice_chars(first.as_slice(), 0, w - 13);
                assert(h@ =~= first@.take(w - 13));
                let dots = chars_of("...");
                append_chars(&mut h, dots.as_slice());
                h
            } else {
                first
            };
            let mut row = String::from_str("#");
            let d = string_of(decimal_exec((i + 1) as u64).as_slice());
            row.append(d.as_str());
            row.append(" ");
            let ps = string_of(pv.as_slice());
            row.append(ps.as_str());
            let ghost before = strings_view(out@);
            out.push(row);
            assert(strings_view(out@) =~= before.push(
                post_search_row(i as nat, self.posts@[i as int]@, width as int),
            ));
            assert(self.search_matches@.take(k + 1) =~= self.search_matches@.take(k as int).push(
                i,
            ));
            k = k + 1;
        }
        assert(self.search_matches@.take(self.search_matches@.len() as int)
            =~= self.search_matches@);
        out
    }

    /// The bar above the thread: the number of results during a search,
    /// otherwise the range of posts and the keys.
    pub open spec fn thread_bar_of(&self) -> Seq<char> {
        if self.search_active {
            " 検索結果: "@ + decimal(self.search_matches@.len()) + "件 / "@ + decimal(
                self.posts@.len(),
            ) + "レス | ↑↓:移動 | Enter:決定"@
        } else {
            " 1-"@ + decimal(self.posts@.len()) + "/"@ + decimal(self.posts@.len())
                + " | ↑↓:スクロール | ←:戻る | /:検索 | w:書き込み | q:終了"@
        }
    }

    /// The bar above the thread.
    pub fn thread_bar_text(&self) -> (r: String)
        ensures
            r@ == self.thread_bar_of(),
    {
        let total = string_of(decimal_exec(self.posts.len() as u64).as_slice());
        if self.search_active {
            let mut out = String::from_str(" 検索結果: ");
            let m = string_of(decimal_exec(self.search_matches.len() as u64).as_slice());
            out.append(m.as_str());
            out.append("件 / ");
            out.append(total.as_str());
            out.append("レス | ↑↓:移動 | Enter:決定");
            out
        } else {
            let mut out = String::from_str(" 1-");
            out.append(total.as_str());
            out.append("/");
            out.append(total.as_str());
            out.append(" | ↑↓:スクロール | ←:戻る | /:検索 | w:書き込み | q:終了");
            out
        }
    }
}

// ---------------------------------------------------------------------------
// The compose form and the status line
// ---------------------------------------------------------------------------

impl AppState {
    /// The name field of the compose form.
    pub fn compose_name_text(&self) -> (r: String)
        ensures
            r@ == " 名前: "@ + self.compose_name@ + " "@,
    {
        let mut out = String::from_str(" 名前: ");
        out.append(self.compose_name.as_str());
        out.append(" ");
        out
    }

    /// The mail field of the compose form.
    pub fn compose_email_text(&self) -> (r: String)
        ensures
            r@ == " メール: "@ + self.compose_email@ + " "@,
    {
        let mut out = String::from_str(" メール: ");
        out.append(self.compose_email.as_str());
        out.append(" ");
        out
    }

    /// The message field of the compose form: a blank for an empty
    /// message.
    pub fn compose_message_text(&self) -> (r: String)
        ensures
            r@ == if self.compose_message@.len() == 0 {
                " "@
            } else {
                self.compose_message@
            },
    {
        if self.compose_message.as_str().is_empty() {
            String::from_str(" ")
        } else {
            self.compose_message.clone()
        }
    }

    /// The keys of the current screen, for the status line.
    pub open spec fn help_of(&self) -> Seq<char> {
        if self.search_active {
            " 文字入力:検索 | Esc:終了 | Enter:決定 | ↑↓:移動 "@
        } else {
            match self.screen {
                Screen::BoardList =>
                    " ↑↓:移動 | Enter:板を開く | /:検索 | f:お気に入り | r:再読み込み | q:終了 "@,
                Screen::ThreadList =>
                    " ↑↓:移動 | Enter:スレを開く | /:検索 | r:再読み込み | ←:戻る | q:終了 "@,
                Screen::ThreadView =>
                    " ↑↓:スクロール | /:検索 | ←:戻る | r:再読み込み | w:書き込み | q:終了 "@,
                Screen::Compose => " Tab:項目移動 | Ctrl+S:送信 | Esc:キャンセル "@,
            }
        }
    }

    /// The keys of the current screen, for the status line.
    pub fn help_text(&self) -> (r: String)
        ensures
            r@ == self.help_of(),
    {
        if self.search_active {
            return String::from_str(" 文字入力:検索 | Esc:終了 | Enter:決定 | ↑↓:移動 ");
        }
        match self.screen {
            Screen::BoardList => String::from_str(
                " ↑↓:移動 | Enter:板を開く | /:検索 | f:お気に入り | r:再読み込み | q:終了 ",
            ),
            Screen::ThreadList => String::from_str(
                " ↑↓:移動 | Enter:スレを開く | /:検索 | r:再読み込み | ←:戻る | q:終了 ",
            ),
            Screen::ThreadView => String::from_str(
                " ↑↓:スクロール | /:検索 | ←:戻る | r:再読み込み | w:書き込み | q:終了 ",
            ),
            Screen::Compose => String::from_str(" Tab:項目移動 | Ctrl+S:送信 | Esc:キャンセル "),
        }
    }

    /// The status of the status line: that loading is under way, or the
    /// status message.
    pub fn status_text(&self) -> (r: String)
        ensures
            r@ == if self.loading {
                "読み込み中..."@
            } else {
                self.status_message@
            },
    {
        if self.loading {
            String::from_str("読み込み中...")
        } else {
            self.status_message.clone()
        }
    }
}

} // verus!
