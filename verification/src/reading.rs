//! Reading a thread: the rows each post takes, scrolling by pages, and
//! jumping to the post a reply refers to.
use vstd::prelude::*;
use crate::text::{lines, lines_exec, views, chars_of, string_of, append_chars, decimal,
    decimal_exec, is_digit, parse_unsigned, parse_unsigned_exec, occurs_at, occurs_at_exec,
    slice_chars};
use crate::types::{AppState, Screen, Post};
use crate::state::{sat_sub, selection_in_list, selection_on_screen};
use crate::posting::{thread_web_url, thread_web_url_exec};

verus! {

// ---------------------------------------------------------------------------
// Rows of the thread view
// ---------------------------------------------------------------------------

/// The rows a post takes in the thread view: three rows around it, and one
/// per line of its body.
pub open spec fn post_lines(p: Post) -> int {
    3 + lines(p.body@).len() as int
}

/// The rows the first `n` posts take.
pub open spec fn lines_before(posts: Seq<Post>, n: int) -> int
    decreases n,
{
    if n <= 0 {
        0
    } else {
        lines_before(posts, n - 1) + post_lines(posts[n - 1])
    }
}

/// The rows of the whole thread.
pub open spec fn total_lines(posts: Seq<Post>) -> int {
    lines_before(posts, posts.len() as int)
}

/// More posts take more rows.
pub proof fn lemma_lines_before_monotone(posts: Seq<Post>, i: int, j: int)
    requires
        0 <= i <= j,
    ensures
        0 <= lines_before(posts, i) <= lines_before(posts, j),
    decreases j,
{
    if j > 0 {
        if i < j {
            lemma_lines_before_monotone(posts, i, j - 1);
        } else {
            lemma_lines_before_monotone(posts, j - 1, j - 1);
        }
    }
}

fn post_lines_exec(p: &Post) -> (r: usize)
    requires
        post_lines(*p) <= usize::MAX,
    ensures
        r == post_lines(*p),
{
    let b = chars_of(p.body.as_str());
    let ls = lines_exec(b.as_slice());
    assert(views(ls@).len() == ls@.len());
    3 + ls.len()
}

// ---------------------------------------------------------------------------
// References between posts
// ---------------------------------------------------------------------------

/// `&gt;&gt;`: the escaped `>>` a reply writes before a post number.
pub open spec fn ref_marker() -> Seq<char> {
    seq!['&', 'g', 't', ';', '&', 'g', 't', ';']
}

fn ref_marker_exec() -> (r: Vec<char>)
    ensures
        r@ == ref_marker(),
{
    let r = vec!['&', 'g', 't', ';', '&', 'g', 't', ';'];
    assert(r@ =~= ref_marker());
    r
}

fn is_digit_exec(c: char) -> (r: bool)
    ensures
        r == is_digit(c),
{
    let u = c as u32;
    48 <= u && u <= 57
}

/// A reference starts at `i`: the marker, then an ASCII digit.
pub open spec fn ref_at(l: Seq<char>, i: int) -> bool {
    occurs_at(l, ref_marker(), i) && i + 8 < l.len() && is_digit(l[i + 8])
}

/// The first reference of `l` at or after `i`.
pub open spec fn first_ref_from(l: Seq<char>, i: int) -> Option<int>
    decreases l.len() - i,
{
    if i < 0 || i >= l.len() {
        None
    } else if ref_at(l, i) {
        Some(i)
    } else {
        first_ref_from(l, i + 1)
    }
}

/// The end of the run of ASCII digits that starts at `j`.
pub open spec fn digits_end(l: Seq<char>, j: int) -> int
    decreases l.len() - j,
{
    if 0 <= j < l.len() && is_digit(l[j]) {
        digits_end(l, j + 1)
    } else {
        j
    }
}

/// The digits of the first reference of a line: the leftmost match of
/// `&gt;&gt;(\d+)`, with the longest run of digits.
pub open spec fn line_ref(l: Seq<char>) -> Option<Seq<char>> {
    match first_ref_from(l, 0) {
        Some(i) => Some(l.subrange(i + 8, digits_end(l, i + 8))),
        None => None,
    }
}

/// The first reference among the lines from `k` on.
pub open spec fn first_line_ref(ls: Seq<Seq<char>>, k: int) -> Option<Seq<char>>
    decreases ls.len() - k,
{
    if k < 0 || k >= ls.len() {
        None
    } else {
        match line_ref(ls[k]) {
            Some(d) => Some(d),
            None => first_line_ref(ls, k + 1),
        }
    }
}

/// The post number a reference names: its digits read as a `usize`, or
/// zero when they overflow.
pub open spec fn ref_target(d: Seq<char>) -> nat {
    match parse_unsigned(d, usize::MAX as nat) {
        Some(v) => v,
        None => 0,
    }
}

/// The post number the first reference of a post names, if it has one.
pub open spec fn post_reference(p: Post) -> Option<nat> {
    match first_line_ref(lines(p.body@), 0) {
        Some(d) => Some(ref_target(d)),
        None => None,
    }
}

/// The post shown at row `off`: the first post from `k` on that ends below
/// that row.
pub open spec fn post_at_row(posts: Seq<Post>, off: int, k: int) -> Option<int>
    decreases posts.len() - k,
{
    if k < 0 || k >= posts.len() {
        None
    } else if lines_before(posts, k + 1) > off {
        Some(k)
    } else {
        post_at_row(posts, off, k + 1)
    }
}

/// The digits of the first reference of a line (executable).
fn line_ref_exec(l: &[char]) -> (r: Option<Vec<char>>)
    ensures
        match r {
            Some(d) => line_ref(l@) == Some(d@),
            None => line_ref(l@) is None,
        },
{
    let marker = ref_marker_exec();
    let mut i: usize = 0;
    while i < l.len()
        invariant
            i <= l@.len(),
            marker@ == ref_marker(),
            first_ref_from(l@, 0) == first_ref_from(l@, i as int),
        decreases l.len() - i,
    {
        if occurs_at_exec(l, marker.as_slice(), i) && i + 8 < l.len() && is_digit_exec(l[i + 8]) {
            let mut j: usize = i + 8;
            while j < l.len() && is_digit_exec(l[j])
                invariant
                    i + 8 <= j <= l@.len(),
                    digits_end(l@, i + 8) == digits_end(l@, j as int),
                decreases l.len() - j,
            {
                j = j + 1;
            }
            return Some(slice_chars(l, i + 8, j));
        }
        i = i + 1;
    }
    None
}

/// The post number the first reference of a post names (executable).
fn post_reference_exec(p: &Post) -> (r: Option<usize>)
    ensures
        match post_reference(*p) {
            Some(t) => r is Some && r->0 == t,
            None => r is None,
        },
{
    let b = chars_of(p.body.as_str());
    let ls = lines_exec(b.as_slice());
    let ghost lv = lines(p.body@);
    let mut k: usize = 0;
    while k < ls.len()
        invariant
            k <= ls@.len(),
            views(ls@) == lv,
            lv == lines(p.body@),
            first_line_ref(lv, 0) == first_line_ref(lv, k as int),
        decreases ls.len() - k,
    {
        assert(views(ls@)[k as int] == ls@[k as int]@);
        match line_ref_exec(ls[k].as_slice()) {
            Some(d) => {
                let v = parse_unsigned_exec(d.as_slice(), usize::MAX as u64);
                let t: usize = match v {
                    Some(x) => x as usize,
                    None => 0,
                };
                return Some(t);
            },
            None => {},
        }
        k = k + 1;
    }
    None
}

/// The status after a jump to post `t`.
pub open spec fn jumped_message(t: nat) -> Seq<char> {
    "#"@ + decimal(t) + " にジャンプしました"@
}

/// The status for a reference to post `t` of a thread of `n` posts that has
/// no such post.
pub open spec fn missing_message(t: nat, n: nat) -> Seq<char> {
    "#"@ + decimal(t) + " は存在しません (全"@ + decimal(n) + "レス)"@
}

/// The status when the post has no reference.
pub open spec fn no_reference_message() -> Seq<char> {
    "このレスに参照はありません"@
}

fn jumped_message_exec(t: usize) -> (r: String)
    ensures
        r@ == jumped_message(t as nat),
{
    let mut v = chars_of("#");
    let d = decimal_exec(t as u64);
    append_chars(&mut v, d.as_slice());
    let tail = chars_of(" にジャンプしました");
    append_chars(&mut v, tail.as_slice());
    string_of(v.as_slice())
}

fn missing_message_exec(t: usize, n: usize) -> (r: String)
    ensures
        r@ == missing_message(t as nat, n as nat),
{
    let mut v = chars_of("#");
    let d = decimal_exec(t as u64);
    append_chars(&mut v, d.as_slice());
    let mid = chars_of(" は存在しません (全");
    append_chars(&mut v, mid.as_slice());
    let e = decimal_exec(n as u64);
    append_chars(&mut v, e.as_slice());
    let tail = chars_of("レス)");
    append_chars(&mut v, tail.as_slice());
    string_of(v.as_slice())
}

/// The state after going to the bottom of a list: the last row, the first
/// row shown moved to show it; nothing changes on an empty list.
pub open spec fn after_bottom_of_list(s: AppState) -> AppState {
    let len = s.row_count();
    if len > 0 {
        AppState {
            selected_index: (len - 1) as usize,
            list_offset: if s.visible_items > 0 {
                sat_sub(len - 1, s.visible_items - 1) as usize
            } else {
                s.list_offset
            },
            ..s
        }
    } else {
        s
    }
}

/// The state after a page down in a list: the selection a page further
/// (at most the last row), the first row shown moved down as far as it
/// takes to show it; nothing changes on an empty list.
pub open spec fn after_page_down_in_list(s: AppState) -> AppState {
    let len = s.row_count();
    let sel = if s.selected_index + s.page() < len - 1 {
        s.selected_index + s.page()
    } else {
        len - 1
    };
    let max_offset = sat_sub(sel, s.page() - 1);
    if len > 0 {
        AppState {
            selected_index: sel as usize,
            list_offset: if s.list_offset < max_offset {
                max_offset as usize
            } else {
                s.list_offset
            },
            ..s
        }
    } else {
        s
    }
}

/// The state after a page up in a list: the selection a page back (at
/// least the first row), the first row shown moved up to it when it was
/// above.
pub open spec fn after_page_up_in_list(s: AppState) -> AppState {
    let sel = sat_sub(s.selected_index as int, s.page());
    AppState {
        selected_index: sel as usize,
        list_offset: if sel < s.list_offset {
            sel as usize
        } else {
            s.list_offset
        },
        ..s
    }
}

/// Moving the selection a page down or up, or to the bottom of a list,
/// keeps it a row of the list and on screen.
pub proof fn law_page_moves_keep_selection(s: AppState)
    requires
        s.row_count() <= usize::MAX,
        s.selected_index + s.page() <= usize::MAX,
        selection_in_list(s),
        selection_on_screen(s),
    ensures
        selection_in_list(after_page_down_in_list(s)),
        selection_on_screen(after_page_down_in_list(s)),
        selection_in_list(after_page_up_in_list(s)),
        selection_on_screen(after_page_up_in_list(s)),
        selection_in_list(after_bottom_of_list(s)),
        selection_on_screen(after_bottom_of_list(s)),
{
    AppState::lemma_rows_frame(&after_page_down_in_list(s), &s);
    AppState::lemma_rows_frame(&after_page_up_in_list(s), &s);
    AppState::lemma_rows_frame(&after_bottom_of_list(s), &s);
}

impl AppState {
    /// The first row of post `post_index` (from zero) in the thread view;
    /// past the last post, the row after the thread.
    pub fn calc_scroll_offset(&self, post_index: usize) -> (r: usize)
        requires
            lines_before(
                self.posts@,
                if post_index < self.posts@.len() {
                    post_index as int
                } else {
                    self.posts@.len() as int
                },
            ) <= usize::MAX,
        ensures
            r == lines_before(
                self.posts@,
                if post_index < self.posts@.len() {
                    post_index as int
                } else {
                    self.posts@.len() as int
                },
            ),
    {
        let n = if post_index < self.posts.len() {
            post_index
        } else {
            self.posts.len()
        };
        let mut offset: usize = 0;
        let mut i: usize = 0;
        while i < n
            invariant
                i <= n <= self.posts@.len(),
                offset == lines_before(self.posts@, i as int),
                lines_before(self.posts@, n as int) <= usize::MAX,
            decreases n - i,
        {
            proof {
                lemma_lines_before_monotone(self.posts@, i + 1, n as int);
                lemma_lines_before_monotone(self.posts@, 0, i as int);
            }
            offset = offset + post_lines_exec(&self.posts[i]);
            i = i + 1;
        }
        offset
    }

    /// The post number named by the first reference of the post shown at
    /// the scroll position; none when that post has no reference or no
    /// post is shown there.
    pub open spec fn reference_at_scroll(&self) -> Option<nat> {
        match post_at_row(self.posts@, self.scroll_offset as int, 0) {
            Some(k) => post_reference(self.posts@[k]),
            None => None,
        }
    }

    /// Jump to the post the shown post refers to (`&gt;&gt;N`): scroll to
    /// post `N` when the thread has it, otherwise say that it does not;
    /// say so when there is no reference.  Only in the thread view.
    pub fn follow_reference(&mut self)
        requires
            total_lines(old(self).posts@) <= usize::MAX,
        ensures
            old(self).screen != Screen::ThreadView || old(self).posts@.len() == 0 ==> *final(self)
                == *old(self),
            old(self).screen == Screen::ThreadView && old(self).posts@.len() > 0 ==> match old(self).reference_at_scroll() {
                None => {
                    &&& *final(self) == (AppState {
                        status_message: final(self).status_message,
                        ..*old(self)
                    })
                    &&& final(self).status_message@ == no_reference_message()
                },
                Some(t) => if 0 < t <= old(self).posts@.len() {
                    &&& *final(self) == (AppState {
                        scroll_offset: lines_before(old(self).posts@, t - 1) as usize,
                        status_message: final(self).status_message,
                        ..*old(self)
                    })
                    &&& final(self).status_message@ == jumped_message(t)
                } else {
                    &&& *final(self) == (AppState {
                        status_message: final(self).status_message,
                        ..*old(self)
                    })
                    &&& final(self).status_message@ == missing_message(t, old(self).posts@.len())
                },
            },
    {
        if self.screen != Screen::ThreadView || self.posts.len() == 0 {
            return;
        }
        let mut line_count: usize = 0;
        let mut k: usize = 0;
        while k < self.posts.len()
            invariant
                *self == *old(self),
                self.screen == Screen::ThreadView,
                k <= self.posts@.len(),
                line_count == lines_before(self.posts@, k as int),
                total_lines(self.posts@) <= usize::MAX,
                post_at_row(self.posts@, self.scroll_offset as int, 0) == post_at_row(
                    self.posts@,
                    self.scroll_offset as int,
                    k as int,
                ),
            decreases self.posts.len() - k,
        {
            proof {
                lemma_lines_before_monotone(self.posts@, k + 1, self.posts@.len() as int);
                lemma_lines_before_monotone(self.posts@, 0, k as int);
            }
            let pl = post_lines_exec(&self.posts[k]);
            if line_count + pl > self.scroll_offset {
                match post_reference_exec(&self.posts[k]) {
                    Some(t) => {
                        if 0 < t && t <= self.posts.len() {
                            proof {
                                lemma_lines_before_monotone(
                                    self.posts@,
                                    t - 1,
                                    self.posts@.len() as int,
                                );
                            }
                            let off = self.calc_scroll_offset(t - 1);
                            let msg = jumped_message_exec(t);
                            self.scroll_offset = off;
                            self.status_message = msg;
                        } else {
                            let msg = missing_message_exec(t, self.posts.len());
                            self.status_message = msg;
                        }
                    },
                    None => {
                        self.status_message = string_of(chars_of("このレスに参照はありません").as_slice());
                    },
                }
                return;
            }
            line_count = line_count + pl;
            k = k + 1;
        }
        self.status_message = string_of(chars_of("このレスに参照はありません").as_slice());
    }

    /// Go to the bottom: the last row of a list (kept on screen), the last
    /// row of a thread.
    pub fn scroll_to_bottom(&mut self)
        requires
            old(self).screen == Screen::BoardList ==> old(self).board_matches_in_range(),
            old(self).screen == Screen::ThreadView ==> total_lines(old(self).posts@)
                <= usize::MAX,
        ensures
            old(self).screen == Screen::BoardList || old(self).screen == Screen::ThreadList ==> *final(self) == after_bottom_of_list(*old(self)),
            old(self).screen == Screen::ThreadView ==> *final(self) == (AppState {
                scroll_offset: sat_sub(total_lines(old(self).posts@), 1) as usize,
                ..*old(self)
            }),
            old(self).screen == Screen::Compose ==> *final(self) == *old(self),
    {
        match self.screen {
            Screen::BoardList | Screen::ThreadList => {
                let len = self.item_count();
                if len > 0 {
                    self.selected_index = len - 1;
                    if self.visible_items > 0 {
                        self.list_offset = self.selected_index.saturating_sub(self.visible_items - 1);
                    }
                }
            },
            Screen::ThreadView => {
                let total = self.calc_scroll_offset(self.posts.len());
                self.scroll_offset = total.saturating_sub(1);
            },
            Screen::Compose => {},
        }
    }

    /// The rows a page moves: the visible rows, at least one.
    pub open spec fn page(&self) -> int {
        if self.visible_items > 1 {
            self.visible_items as int
        } else {
            1
        }
    }

    /// Move a page down: the selection by a page (not past the last row,
    /// kept on screen), the thread by a page of rows (up to the largest
    /// offset).
    pub fn scroll_page_down(&mut self)
        requires
            old(self).screen == Screen::BoardList ==> old(self).board_matches_in_range(),
            old(self).screen == Screen::BoardList || old(self).screen == Screen::ThreadList ==> old(self).selected_index + old(self).page() <= usize::MAX,
        ensures
            old(self).screen == Screen::BoardList || old(self).screen == Screen::ThreadList ==> *final(self) == after_page_down_in_list(*old(self)),
            old(self).screen == Screen::ThreadView ==> *final(self) == (AppState {
                scroll_offset: if old(self).scroll_offset + old(self).page() <= usize::MAX {
                    (old(self).scroll_offset + old(self).page()) as usize
                } else {
                    usize::MAX
                },
                ..*old(self)
            }),
            old(self).screen == Screen::Compose ==> *final(self) == *old(self),
    {
        let page = if self.visible_items > 1 {
            self.visible_items
        } else {
            1
        };
        match self.screen {
            Screen::BoardList | Screen::ThreadList => {
                let len = self.item_count();
                if len == 0 {
                    return;
                }
                let target = self.selected_index + page;
                let last = len - 1;
                let new_index = if target < last {
                    target
                } else {
                    last
                };
                self.selected_index = new_index;
                let max_offset = self.selected_index.saturating_sub(page - 1);
                if self.list_offset < max_offset {
                    self.list_offset = max_offset;
                }
            },
            Screen::ThreadView => {
                self.scroll_offset = self.scroll_offset.saturating_add(page);
            },
            Screen::Compose => {},
        }
    }

    /// Move a page up: the selection by a page (not above the first row,
    /// kept on screen), the thread by a page of rows (not above the top).
    pub fn scroll_page_up(&mut self)
        ensures
            old(self).screen == Screen::BoardList || old(self).screen == Screen::ThreadList ==> *final(self) == after_page_up_in_list(*old(self)),
            old(self).screen == Screen::ThreadView ==> *final(self) == (AppState {
                scroll_offset: sat_sub(old(self).scroll_offset as int, old(self).page()) as usize,
                ..*old(self)
            }),
            old(self).screen == Screen::Compose ==> *final(self) == *old(self),
    {
        let page = if self.visible_items > 1 {
            self.visible_items
        } else {
            1
        };
        match self.screen {
            Screen::BoardList | Screen::ThreadList => {
                if self.selected_index > 0 {
                    self.selected_index = self.selected_index.saturating_sub(page);
                }
                if self.selected_index < self.list_offset {
                    self.list_offset = self.selected_index;
                }
            },
            Screen::ThreadView => {
                self.scroll_offset = self.scroll_offset.saturating_sub(page);
            },
            Screen::Compose => {},
        }
    }

    /// Show the web address of the open thread in the status line, when a
    /// board and a thread are open.
    pub fn show_thread_url(&mut self)
        ensures
            match (old(self).current_board_url, old(self).current_thread_id) {
                (Some(b), Some(t)) => {
                    &&& *final(self) == (AppState {
                        status_message: final(self).status_message,
                        ..*old(self)
                    })
                    &&& final(self).status_message@ == thread_web_url(b@, t@)
                },
                _ => *final(self) == *old(self),
            },
    {
        match (&self.current_board_url, &self.current_thread_id) {
            (Some(b), Some(t)) => {
                let msg = thread_web_url_exec(b.as_str(), t.as_str());
                self.status_message = msg;
            },
            _ => {},
        }
    }
}

} // verus!
