//! The decisions around the outside work of the reader.
//!
//! Loading a list reads a local cache first and falls back to the network;
//! posting a message goes to the network; favorites and read marks go to
//! disk.  Each operation here changes the state and answers with the work
//! to do next (a `Request`) and what to write to disk (a `Persist`); the
//! application does that work and hands the outcome to the matching
//! `apply_*` operation.
use vstd::prelude::*;
use vstd::string::StringExecFns;
use crate::text::{trim, decimal, chars_of, string_of, append_chars, decimal_exec, trim_chars};
use crate::types::{AppState, distinct_strings, Screen, Board, BoardView, ThreadItem, ThreadView, Post, PostView,
    boards_view, threads_view, posts_view, strings_view, string_set, opt_view};
use crate::order::sort_boards;
use crate::boards::{parse_boards_cache, parse_boards_cache_exec, boards_cache_text,
    boards_cache_text_exec};
use crate::threads::{parse_threads_cache, parse_threads_cache_exec, threads_cache_text,
    threads_cache_text_exec};
use crate::posts::{parse_dat, parse_posts_cache, posts_cache_text, posts_cache_text_exec};
use crate::posting::{cache_location, cache_location_exec};
use crate::lists::{read_first, read_key, set_insert, set_toggle};

verus! {

/// What to write to disk after a step.
#[derive(Debug, Clone, Copy, PartialEq, Eq, Structural)]
pub enum Persist {
    Nothing,
    /// The favorites file (`save_favorites`).
    Favorites,
    /// The read-threads file (`save_read_threads`).
    ReadThreads,
    /// The board cache (`save_boards_cache`).
    BoardsCache,
    /// The thread cache of the open board (`save_threads_cache`).
    ThreadsCache,
    /// The post cache of the open thread (`save_posts_cache`).
    PostsCache,
}

/// The outside work a step asks for.
#[derive(Debug, Clone)]
pub enum Request {
    Nothing,
    /// Read the thread cache of the open board, then `load_threads`.
    LoadThreads,
    /// Read the post cache of this thread of the open board, then
    /// `load_posts`.
    LoadPosts { thread_id: String },
    /// Fetch the board menu, then `apply_fetched_boards`.
    FetchBoards,
    /// Fetch the thread list of this board, then `apply_fetched_threads`.
    FetchThreads { board_url: String },
    /// Fetch the posts of this thread, then `apply_fetched_posts`.
    FetchPosts { board_url: String, thread_id: String },
    /// Post this message, then `apply_send_result`.
    SendPost { board_url: String, thread_id: String, name: String, email: String, message: String },
}

/// A write to disk and the work after it.
pub struct Step {
    pub persist: Persist,
    pub request: Request,
}

// ---------------------------------------------------------------------------
// Status messages
// ---------------------------------------------------------------------------

/// The status after the boards were loaded.
pub open spec fn boards_loaded_message(n: nat) -> Seq<char> {
    decimal(n) + " 個の板を読み込みました"@
}

/// The status after the threads were loaded.
pub open spec fn threads_loaded_message(n: nat) -> Seq<char> {
    decimal(n) + " 個のスレを読み込みました"@
}

/// The status after the posts were loaded.
pub open spec fn posts_loaded_message(n: nat) -> Seq<char> {
    decimal(n) + " レスを読み込みました"@
}

/// The status after a failed fetch.
pub open spec fn error_status(e: Seq<char>) -> Seq<char> {
    "エラー: "@ + e
}

/// The title line of an open thread: its title and its number of posts.
pub open spec fn thread_info_text(title: Seq<char>, n: nat) -> Seq<char> {
    title + " ("@ + decimal(n) + "レス)"@
}

/// The title line of the open thread, if it has a title.
pub open spec fn thread_info_of(title: Option<String>, n: nat) -> Option<Seq<char>> {
    match title {
        Some(t) => Some(thread_info_text(t@, n)),
        None => None,
    }
}

/// The status after a board was added to or removed from the favorites.
pub open spec fn favorite_message(added: bool, name: Seq<char>) -> Seq<char> {
    "お気に入り"@ + (if added {
        "追加"@
    } else {
        "解除"@
    }) + ": "@ + name
}

/// `decimal(n)` followed by `suffix`.
fn number_text(n: usize, suffix: &str) -> (r: String)
    ensures
        r@ == decimal(n as nat) + suffix@,
{
    let mut v = decimal_exec(n as u64);
    let s = chars_of(suffix);
    append_chars(&mut v, s.as_slice());
    string_of(v.as_slice())
}

/// `prefix` followed by `s`.
fn prefixed(prefix: &str, s: &str) -> (r: String)
    ensures
        r@ == prefix@ + s@,
{
    let mut v = chars_of(prefix);
    let t = chars_of(s);
    append_chars(&mut v, t.as_slice());
    string_of(v.as_slice())
}

fn thread_info_exec(title: &Option<String>, n: usize) -> (r: Option<String>)
    ensures
        opt_view(r) == thread_info_of(*title, n as nat),
{
    match title {
        Some(t) => {
            let mut v = chars_of(t.as_str());
            let open = chars_of(" (");
            append_chars(&mut v, open.as_slice());
            let d = decimal_exec(n as u64);
            append_chars(&mut v, d.as_slice());
            let close = chars_of("レス)");
            append_chars(&mut v, close.as_slice());
            Some(string_of(v.as_slice()))
        },
        None => None,
    }
}

// ---------------------------------------------------------------------------
// Caches handed in
// ---------------------------------------------------------------------------

/// The boards of a board cache, if one was read.
pub open spec fn cached_boards(cache: Option<&str>) -> Seq<BoardView> {
    match cache {
        Some(c) => parse_boards_cache(c@),
        None => Seq::empty(),
    }
}

/// The threads of a thread cache, if one was read.
pub open spec fn cached_threads(cache: Option<&str>) -> Seq<ThreadView> {
    match cache {
        Some(c) => parse_threads_cache(c@),
        None => Seq::empty(),
    }
}

/// The posts of a post cache, if one was read.
pub open spec fn cached_posts(cache: Option<&str>) -> Seq<PostView> {
    match cache {
        Some(c) => parse_dat(c@),
        None => Seq::empty(),
    }
}

impl AppState {
    /// Install a new board list: every category collapsed, favorites first,
    /// the search matches recomputed, the number of boards in the status.
    fn install_boards(&mut self, boards: Vec<Board>)
        ensures
            *final(self) == (AppState {
                boards: final(self).boards,
                collapsed_categories: final(self).collapsed_categories,
                search_matches: final(self).search_matches,
                status_message: final(self).status_message,
                ..*old(self)
            }),
            boards_view(final(self).boards@) == sort_boards(
                string_set(old(self).favorites@),
                true,
                boards_view(boards@),
            ),
            string_set(final(self).collapsed_categories@) == boards_view(boards@).map_values(
                |b: BoardView| b.category,
            ).to_set(),
            distinct_strings(final(self).collapsed_categories@),
            final(self).search_matches@ == final(self).computed_matches(),
            final(self).status_message@ == boards_loaded_message(boards@.len()),
    {
        let n = boards.len();
        self.boards = boards;
        self.collapse_all_categories();
        self.sort_boards_with_favorites();
        let ghost mid = *self;
        self.status_message = number_text(n, " 個の板を読み込みました");
        proof {
            Self::lemma_computed_matches_frame(&mid, self);
        }
    }

    /// Start fetching the board menu.
    pub fn fetch_boards_from_server(&mut self) -> (r: Request)
        ensures
            r is FetchBoards,
            *final(self) == (AppState {
                loading: true,
                status_message: final(self).status_message,
                ..*old(self)
            }),
            final(self).status_message@ == "板一覧を読み込み中..."@,
    {
        self.loading = true;
        self.status_message = String::from_str("板一覧を読み込み中...");
        Request::FetchBoards
    }

    /// Load the board list: from the board cache (`cache`, its text when
    /// one was read) when it names a board, otherwise from the network.
    pub fn load_boards(&mut self, cache: Option<&str>) -> (r: Request)
        ensures
            cached_boards(cache).len() > 0 ==> {
                &&& r is Nothing
                &&& *final(self) == (AppState {
                    boards: final(self).boards,
                    collapsed_categories: final(self).collapsed_categories,
                    search_matches: final(self).search_matches,
                    status_message: final(self).status_message,
                    ..*old(self)
                })
                &&& boards_view(final(self).boards@) == sort_boards(
                    string_set(old(self).favorites@),
                    true,
                    cached_boards(cache),
                )
                &&& string_set(final(self).collapsed_categories@) == cached_boards(
                    cache,
                ).map_values(|b: BoardView| b.category).to_set()
                &&& distinct_strings(final(self).collapsed_categories@)
                &&& final(self).search_matches@ == final(self).computed_matches()
                &&& final(self).status_message@ == boards_loaded_message(
                    cached_boards(cache).len(),
                )
            },
            cached_boards(cache).len() == 0 ==> {
                &&& r is FetchBoards
                &&& *final(self) == (AppState {
                    loading: true,
                    status_message: final(self).status_message,
                    ..*old(self)
                })
                &&& final(self).status_message@ == "板一覧を読み込み中..."@
            },
    {
        let boards = match cache {
            Some(c) => parse_boards_cache_exec(c),
            None => Vec::new(),
        };
        assert(boards_view(boards@) == cached_boards(cache));
        if boards.len() > 0 {
            self.install_boards(boards);
            return Request::Nothing;
        }
        self.fetch_boards_from_server()
    }

    /// Load the board list from the network.
    pub fn reload_boards(&mut self) -> (r: Request)
        ensures
            r is FetchBoards,
            *final(self) == (AppState {
                loading: true,
                status_message: final(self).status_message,
                ..*old(self)
            }),
            final(self).status_message@ == "板一覧を読み込み中..."@,
    {
        self.fetch_boards_from_server()
    }

    /// The outcome of fetching the board menu: the boards installed and
    /// the board cache written, or the error in the status.
    pub fn apply_fetched_boards(&mut self, result: Result<Vec<Board>, String>) -> (r: Persist)
        ensures
            match result {
                Ok(bs) => {
                    &&& r == Persist::BoardsCache
                    &&& *final(self) == (AppState {
                        boards: final(self).boards,
                        collapsed_categories: final(self).collapsed_categories,
                        search_matches: final(self).search_matches,
                        status_message: final(self).status_message,
                        loading: false,
                        ..*old(self)
                    })
                    &&& boards_view(final(self).boards@) == sort_boards(
                        string_set(old(self).favorites@),
                        true,
                        boards_view(bs@),
                    )
                    &&& string_set(final(self).collapsed_categories@) == boards_view(
                        bs@,
                    ).map_values(|b: BoardView| b.category).to_set()
                    &&& distinct_strings(final(self).collapsed_categories@)
                    &&& final(self).search_matches@ == final(self).computed_matches()
                    &&& final(self).status_message@ == boards_loaded_message(bs@.len())
                },
                Err(e) => {
                    &&& r == Persist::Nothing
                    &&& *final(self) == (AppState {
                        status_message: final(self).status_message,
                        loading: false,
                        ..*old(self)
                    })
                    &&& final(self).status_message@ == error_status(e@)
                },
            },
    {
        let r = match result {
            Ok(bs) => {
                self.install_boards(bs);
                Persist::BoardsCache
            },
            Err(e) => {
                self.status_message = prefixed("エラー: ", e.as_str());
                Persist::Nothing
            },
        };
        let ghost mid = *self;
        self.loading = false;
        proof {
            Self::lemma_computed_matches_frame(&mid, self);
        }
        r
    }

    /// The text of the board cache.
    pub fn save_boards_cache(&self) -> (r: String)
        ensures
            r@ == boards_cache_text(boards_view(self.boards@)),
    {
        boards_cache_text_exec(self.boards.as_slice())
    }
}


/// `after` is `before` once a fetch of the thread list has begun: the
/// status says so; with an open board, loading and a fetch of its list;
/// without one, the (unchanged) thread list shown at once.
pub open spec fn fetch_threads_begun(before: AppState, after: AppState, r: Request) -> bool {
    &&& after.status_message@ == "スレ一覧を読み込み中..."@
    &&& match before.current_board_url {
        Some(u) => {
            &&& r matches Request::FetchThreads { board_url } && board_url@ == u@
            &&& after == (AppState {
                loading: true,
                status_message: after.status_message,
                ..before
            })
        },
        None => {
            &&& r is Nothing
            &&& after == (AppState {
                loading: false,
                screen: Screen::ThreadList,
                status_message: after.status_message,
                ..before
            })
        },
    }
}

/// `after` is `before` once a fetch of the posts has begun: nothing without
/// an open thread; otherwise the status says so and, with an open board,
/// loading and a fetch of the thread; without one, the (unchanged) thread
/// view shown at once.
pub open spec fn fetch_posts_begun(before: AppState, after: AppState, r: Request) -> bool {
    match before.current_thread_id {
        None => r is Nothing && after == before,
        Some(t) => {
            &&& after.status_message@ == "レスを読み込み中..."@
            &&& match before.current_board_url {
                Some(u) => {
                    &&& r matches Request::FetchPosts { board_url, thread_id } && board_url@ == u@
                        && thread_id@ == t@
                    &&& after == (AppState {
                        loading: true,
                        status_message: after.status_message,
                        ..before
                    })
                },
                None => {
                    &&& r is Nothing
                    &&& after == (AppState {
                        loading: false,
                        screen: Screen::ThreadView,
                        status_message: after.status_message,
                        ..before
                    })
                },
            }
        },
    }
}

/// The threads of a thread cache handed in for the open board (none
/// without an open board).
pub open spec fn board_cached_threads(s: AppState, cache: Option<&str>) -> Seq<ThreadView> {
    if s.current_board_url is Some {
        cached_threads(cache)
    } else {
        Seq::empty()
    }
}

/// The posts of a post cache handed in for the open board (none without
/// an open board).
pub open spec fn board_cached_posts(s: AppState, cache: Option<&str>) -> Seq<PostView> {
    if s.current_board_url is Some {
        cached_posts(cache)
    } else {
        Seq::empty()
    }
}

impl AppState {
    /// Open the selected board: it becomes the current board and its
    /// threads are loaded next.  Nothing on an empty list or a category
    /// header.
    pub fn select_board(&mut self) -> (r: Request)
        requires
            old(self).boards@.len() > 0 && !old(self).selected_header() ==> (old(self).screen
                == Screen::BoardList ==> old(self).board_matches_in_range()) && old(self).selected_entry() < old(self).boards@.len(),
        ensures
            old(self).boards@.len() == 0 || old(self).selected_header() ==> r is Nothing && *final(self) == *old(self),
            old(self).boards@.len() > 0 && !old(self).selected_header() ==> {
                let b = old(self).boards@[old(self).selected_entry() as int];
                &&& r is LoadThreads
                &&& *final(self) == (AppState {
                    current_board: final(self).current_board,
                    current_board_url: final(self).current_board_url,
                    ..*old(self)
                })
                &&& opt_view(final(self).current_board) == Some(b.name@)
                &&& opt_view(final(self).current_board_url) == Some(b.url@)
            },
    {
        if self.boards.len() == 0 || self.selected_is_category_header() {
            return Request::Nothing;
        }
        let idx = self.map_selected_index();
        let name = self.boards[idx].name.clone();
        let url = self.boards[idx].url.clone();
        self.current_board = Some(name);
        self.current_board_url = Some(url);
        Request::LoadThreads
    }

    /// Start fetching the thread list of the open board.
    pub fn fetch_threads_from_server(&mut self) -> (r: Request)
        ensures
            fetch_threads_begun(*old(self), *final(self), r),
    {
        self.loading = true;
        self.status_message = String::from_str("スレ一覧を読み込み中...");
        match &self.current_board_url {
            Some(u) => Request::FetchThreads { board_url: u.clone() },
            None => {
                self.loading = false;
                self.screen = Screen::ThreadList;
                Request::Nothing
            },
        }
    }

    /// Load the thread list of the open board, from the top: from its
    /// thread cache (`cache`, its text when one was read) when it names a
    /// thread, otherwise from the network.
    pub fn load_threads(&mut self, cache: Option<&str>) -> (r: Request)
        ensures
            ({
                let reset = AppState {
                    selected_index: 0,
                    scroll_offset: 0,
                    list_offset: 0,
                    ..*old(self)
                };
                let cached = board_cached_threads(*old(self), cache);
                if cached.len() > 0 {
                    &&& r is Nothing
                    &&& *final(self) == (AppState {
                        threads: final(self).threads,
                        status_message: final(self).status_message,
                        screen: Screen::ThreadList,
                        ..reset
                    })
                    &&& threads_view(final(self).threads@) == read_first(
                        string_set(old(self).read_threads@),
                        old(self).board_key(),
                        cached,
                    )
                    &&& final(self).status_message@ == threads_loaded_message(cached.len())
                } else {
                    fetch_threads_begun(reset, *final(self), r)
                }
            }),
    {
        self.selected_index = 0;
        self.scroll_offset = 0;
        self.list_offset = 0;
        let threads = match (&self.current_board_url, cache) {
            (Some(_), Some(c)) => parse_threads_cache_exec(c),
            _ => Vec::new(),
        };
        assert(threads_view(threads@) == board_cached_threads(*old(self), cache));
        if threads.len() > 0 {
            let n = threads.len();
            self.threads = threads;
            self.sort_threads_with_read();
            self.status_message = number_text(n, " 個のスレを読み込みました");
            self.screen = Screen::ThreadList;
            return Request::Nothing;
        }
        self.fetch_threads_from_server()
    }

    /// Load the thread list of the open board from the network, from the
    /// top.
    pub fn reload_threads(&mut self) -> (r: Request)
        ensures
            fetch_threads_begun(
                AppState { selected_index: 0, scroll_offset: 0, list_offset: 0, ..*old(self) },
                *final(self),
                r,
            ),
    {
        self.selected_index = 0;
        self.scroll_offset = 0;
        self.list_offset = 0;
        self.fetch_threads_from_server()
    }

    /// The outcome of fetching the thread list: the threads (read ones
    /// first) and the thread cache written, or the error in the status;
    /// the thread list is shown.
    pub fn apply_fetched_threads(&mut self, result: Result<Vec<ThreadItem>, String>) -> (r: Persist)
        ensures
            match result {
                Ok(ts) => {
                    &&& r == Persist::ThreadsCache
                    &&& *final(self) == (AppState {
                        threads: final(self).threads,
                        status_message: final(self).status_message,
                        loading: false,
                        screen: Screen::ThreadList,
                        ..*old(self)
                    })
                    &&& threads_view(final(self).threads@) == read_first(
                        string_set(old(self).read_threads@),
                        old(self).board_key(),
                        threads_view(ts@),
                    )
                    &&& final(self).status_message@ == threads_loaded_message(ts@.len())
                },
                Err(e) => {
                    &&& r == Persist::Nothing
                    &&& *final(self) == (AppState {
                        status_message: final(self).status_message,
                        loading: false,
                        screen: Screen::ThreadList,
                        ..*old(self)
                    })
                    &&& final(self).status_message@ == error_status(e@)
                },
            },
    {
        let r = match result {
            Ok(ts) => {
                let n = ts.len();
                self.threads = ts;
                self.sort_threads_with_read();
                self.status_message = number_text(n, " 個のスレを読み込みました");
                Persist::ThreadsCache
            },
            Err(e) => {
                self.status_message = prefixed("エラー: ", e.as_str());
                Persist::Nothing
            },
        };
        self.loading = false;
        self.screen = Screen::ThreadList;
        r
    }

    /// Where and what to write as the thread cache of the open board: its
    /// host and board name, and the cache text of the threads.
    pub fn save_threads_cache(&self) -> (r: Option<(String, String, String)>)
        ensures
            match self.current_board_url {
                Some(u) => r matches Some((h, b, c)) && (h@, b@) == cache_location(u@) && c@
                    == threads_cache_text(threads_view(self.threads@)),
                None => r is None,
            },
    {
        match &self.current_board_url {
            Some(u) => {
                let (h, b) = cache_location_exec(u.as_str());
                let c = threads_cache_text_exec(self.threads.as_slice());
                Some((h, b, c))
            },
            None => None,
        }
    }

    /// Open the selected thread: it is marked read (with an open board),
    /// becomes the current thread, and its posts are loaded next.  Nothing
    /// on an empty list.
    pub fn select_thread(&mut self) -> (r: Step)
        requires
            old(self).threads@.len() > 0 ==> (old(self).screen == Screen::BoardList ==> old(self).board_matches_in_range()) && old(self).selected_entry() < old(self).threads@.len(),
        ensures
            old(self).threads@.len() == 0 ==> r.persist == Persist::Nothing && r.request is Nothing
                && *final(self) == *old(self),
            old(self).threads@.len() > 0 ==> {
                let t = old(self).threads@[old(self).selected_entry() as int];
                &&& *final(self) == (AppState {
                    read_threads: final(self).read_threads,
                    current_thread_title: final(self).current_thread_title,
                    current_thread_id: final(self).current_thread_id,
                    ..*old(self)
                })
                &&& opt_view(final(self).current_thread_title) == Some(t.title@)
                &&& opt_view(final(self).current_thread_id) == Some(t.id@)
                &&& r.request matches Request::LoadPosts { thread_id } && thread_id@ == t.id@
                &&& match old(self).current_board_url {
                    Some(u) => {
                        &&& string_set(final(self).read_threads@) == string_set(
                            old(self).read_threads@,
                        ).insert(read_key(u@, t.id@))
                        &&& r.persist == Persist::ReadThreads
                    },
                    None => {
                        &&& final(self).read_threads@ == old(self).read_threads@
                        &&& r.persist == Persist::Nothing
                    },
                }
            },
            distinct_strings(old(self).read_threads@) ==> distinct_strings(final(self).read_threads@),
    {
        if self.threads.len() == 0 {
            return Step { persist: Persist::Nothing, request: Request::Nothing };
        }
        let idx = self.map_selected_index();
        let thread_id = self.threads[idx].id.clone();
        let title = self.threads[idx].title.clone();
        let persist = match &self.current_board_url {
            Some(u) => {
                let mut key = chars_of(u.as_str());
                key.push('|');
                let idv = chars_of(thread_id.as_str());
                append_chars(&mut key, idv.as_slice());
                let ks = string_of(key.as_slice());
                assert(ks@ =~= read_key(u@, thread_id@));
                set_insert(&mut self.read_threads, ks);
                Persist::ReadThreads
            },
            None => Persist::Nothing,
        };
        self.current_thread_title = Some(title);
        let tid2 = thread_id.clone();
        self.current_thread_id = Some(thread_id);
        Step { persist, request: Request::LoadPosts { thread_id: tid2 } }
    }

    /// Start fetching the posts of the open thread.
    pub fn fetch_posts_from_server(&mut self) -> (r: Request)
        ensures
            fetch_posts_begun(*old(self), *final(self), r),
    {
        let tid = match &self.current_thread_id {
            Some(t) => t.clone(),
            None => return Request::Nothing,
        };
        self.loading = true;
        self.status_message = String::from_str("レスを読み込み中...");
        match &self.current_board_url {
            Some(u) => Request::FetchPosts { board_url: u.clone(), thread_id: tid },
            None => {
                self.loading = false;
                self.screen = Screen::ThreadView;
                Request::Nothing
            },
        }
    }

    /// Load the posts of a thread of the open board, from the top: it
    /// becomes the current thread; from its post cache (`cache`, its text
    /// when one was read) when it holds a post, otherwise from the network.
    pub fn load_posts(&mut self, thread_id: &str, cache: Option<&str>) -> (r: Request)
        ensures
            opt_view(final(self).current_thread_id) == Some(thread_id@),
            ({
                let set = AppState {
                    current_thread_id: final(self).current_thread_id,
                    selected_index: 0,
                    scroll_offset: 0,
                    list_offset: 0,
                    ..*old(self)
                };
                let cached = board_cached_posts(*old(self), cache);
                if cached.len() > 0 {
                    &&& r is Nothing
                    &&& *final(self) == (AppState {
                        posts: final(self).posts,
                        thread_info: final(self).thread_info,
                        status_message: final(self).status_message,
                        screen: Screen::ThreadView,
                        ..set
                    })
                    &&& posts_view(final(self).posts@) == cached
                    &&& opt_view(final(self).thread_info) == thread_info_of(
                        old(self).current_thread_title,
                        cached.len(),
                    )
                    &&& final(self).status_message@ == posts_loaded_message(cached.len())
                } else {
                    fetch_posts_begun(set, *final(self), r)
                }
            }),
    {
        self.current_thread_id = Some(String::from_str(thread_id));
        self.selected_index = 0;
        self.scroll_offset = 0;
        self.list_offset = 0;
        let posts = match (&self.current_board_url, cache) {
            (Some(_), Some(c)) => parse_posts_cache(c),
            _ => Vec::new(),
        };
        if posts.len() > 0 {
            let n = posts.len();
            self.posts = posts;
            self.thread_info = thread_info_exec(&self.current_thread_title, n);
            self.status_message = number_text(n, " レスを読み込みました");
            self.screen = Screen::ThreadView;
            return Request::Nothing;
        }
        self.fetch_posts_from_server()
    }

    /// Load the posts of the open thread from the network, from the top.
    pub fn reload_posts(&mut self) -> (r: Request)
        ensures
            fetch_posts_begun(
                AppState { selected_index: 0, scroll_offset: 0, list_offset: 0, ..*old(self) },
                *final(self),
                r,
            ),
    {
        self.selected_index = 0;
        self.scroll_offset = 0;
        self.list_offset = 0;
        self.fetch_posts_from_server()
    }

    /// The outcome of fetching the posts: the posts, the title line and
    /// the post cache written, or the error in the status; the thread view
    /// is shown.
    pub fn apply_fetched_posts(&mut self, result: Result<Vec<Post>, String>) -> (r: Persist)
        ensures
            match result {
                Ok(ps) => {
                    &&& r == Persist::PostsCache
                    &&& *final(self) == (AppState {
                        posts: ps,
                        thread_info: final(self).thread_info,
                        status_message: final(self).status_message,
                        loading: false,
                        screen: Screen::ThreadView,
                        ..*old(self)
                    })
                    &&& opt_view(final(self).thread_info) == thread_info_of(
                        old(self).current_thread_title,
                        ps@.len(),
                    )
                    &&& final(self).status_message@ == posts_loaded_message(ps@.len())
                },
                Err(e) => {
                    &&& r == Persist::Nothing
                    &&& *final(self) == (AppState {
                        status_message: final(self).status_message,
                        loading: false,
                        screen: Screen::ThreadView,
                        ..*old(self)
                    })
                    &&& final(self).status_message@ == error_status(e@)
                },
            },
    {
        let r = match result {
            Ok(ps) => {
                let n = ps.len();
                self.posts = ps;
                self.thread_info = thread_info_exec(&self.current_thread_title, n);
                self.status_message = number_text(n, " レスを読み込みました");
                Persist::PostsCache
            },
            Err(e) => {
                self.status_message = prefixed("エラー: ", e.as_str());
                Persist::Nothing
            },
        };
        self.loading = false;
        self.screen = Screen::ThreadView;
        r
    }

    /// Where and what to write as the post cache of the open thread: host,
    /// board name and thread, and the cache text of the posts.
    pub fn save_posts_cache(&self) -> (r: Option<(String, String, String, String)>)
        ensures
            match (self.current_board_url, self.current_thread_id) {
                (Some(u), Some(t)) => r matches Some((h, b, id, c)) && (h@, b@) == cache_location(
                    u@,
                ) && id@ == t@ && c@ == posts_cache_text(posts_view(self.posts@)),
                _ => r is None,
            },
    {
        match (&self.current_board_url, &self.current_thread_id) {
            (Some(u), Some(t)) => {
                let (h, b) = cache_location_exec(u.as_str());
                let c = posts_cache_text_exec(self.posts.as_slice());
                Some((h, b, t.clone(), c))
            },
            _ => None,
        }
    }

    /// Send the message of the compose form: refused with a message when
    /// it is blank or no board or thread is open; otherwise loading, and the
    /// post is the next work.
    pub fn send_post(&mut self) -> (r: Request)
        ensures
            trim(old(self).compose_message@).len() == 0 ==> {
                &&& r is Nothing
                &&& *final(self) == (AppState {
                    status_message: final(self).status_message,
                    ..*old(self)
                })
                &&& final(self).status_message@ == "メッセージが空です"@
            },
            trim(old(self).compose_message@).len() > 0 && old(self).current_board_url is None ==> {
                &&& r is Nothing
                &&& *final(self) == (AppState {
                    status_message: final(self).status_message,
                    ..*old(self)
                })
                &&& final(self).status_message@ == "板URLが不明です"@
            },
            trim(old(self).compose_message@).len() > 0 && old(self).current_board_url is Some
                && old(self).current_thread_id is None ==> {
                &&& r is Nothing
                &&& *final(self) == (AppState {
                    status_message: final(self).status_message,
                    ..*old(self)
                })
                &&& final(self).status_message@ == "スレIDが不明です"@
            },
            trim(old(self).compose_message@).len() > 0 && old(self).current_board_url is Some
                && old(self).current_thread_id is Some ==> {
                &&& r matches Request::SendPost { board_url, thread_id, name, email, message }
                    && board_url@ == old(self).current_board_url->0@ && thread_id@ == old(self).current_thread_id->0@ && name@ == old(self).compose_name@ && email@ == old(self).compose_email@ && message@ == old(self).compose_message@
                &&& *final(self) == (AppState {
                    loading: true,
                    status_message: final(self).status_message,
                    ..*old(self)
                })
                &&& final(self).status_message@ == "送信中..."@
            },
    {
        let m = chars_of(self.compose_message.as_str());
        let t = trim_chars(m.as_slice());
        if t.len() == 0 {
            self.status_message = String::from_str("メッセージが空です");
            return Request::Nothing;
        }
        let board_url = match &self.current_board_url {
            Some(u) => u.clone(),
            None => {
                self.status_message = String::from_str("板URLが不明です");
                return Request::Nothing;
            },
        };
        let thread_id = match &self.current_thread_id {
            Some(t) => t.clone(),
            None => {
                self.status_message = String::from_str("スレIDが不明です");
                return Request::Nothing;
            },
        };
        let name = self.compose_name.clone();
        let email = self.compose_email.clone();
        let message = self.compose_message.clone();
        self.loading = true;
        self.status_message = String::from_str("送信中...");
        Request::SendPost { board_url, thread_id, name, email, message }
    }

    /// The outcome of a post to thread `thread_id`: on success the compose
    /// form is left and the thread is loaded again; on failure the error
    /// is in the status.
    pub fn apply_send_result(&mut self, thread_id: &str, result: Result<(), String>) -> (r: Request)
        ensures
            match result {
                Ok(()) => {
                    &&& r matches Request::LoadPosts { thread_id: t } && t@ == thread_id@
                    &&& *final(self) == (AppState {
                        loading: false,
                        screen: Screen::ThreadView,
                        status_message: final(self).status_message,
                        ..*old(self)
                    })
                    &&& final(self).status_message@.len() == 0
                },
                Err(e) => {
                    &&& r is Nothing
                    &&& *final(self) == (AppState {
                        loading: false,
                        status_message: final(self).status_message,
                        ..*old(self)
                    })
                    &&& final(self).status_message@ == "送信エラー: "@ + e@
                },
            },
    {
        match result {
            Ok(()) => {
                self.status_message = String::from_str("レスを送信しました");
                self.loading = false;
                self.exit_compose();
                Request::LoadPosts { thread_id: String::from_str(thread_id) }
            },
            Err(e) => {
                self.status_message = prefixed("送信エラー: ", e.as_str());
                self.loading = false;
                Request::Nothing
            },
        }
    }

    /// Add the selected board to the favorites, or remove it: the boards
    /// are sorted again, the first row selected, the change told in the
    /// status, and the favorites file written.  Nothing on an empty list or
    /// a category header.
    pub fn toggle_favorite(&mut self) -> (r: Persist)
        requires
            old(self).boards@.len() > 0 && !old(self).selected_header() ==> (old(self).screen
                == Screen::BoardList ==> old(self).board_matches_in_range()) && old(self).selected_entry() < old(self).boards@.len(),
        ensures
            old(self).boards@.len() == 0 || old(self).selected_header() ==> r == Persist::Nothing
                && *final(self) == *old(self),
            old(self).boards@.len() > 0 && !old(self).selected_header() ==> {
                let b = old(self).boards@[old(self).selected_entry() as int];
                let added = !string_set(old(self).favorites@).contains(b.url@);
                &&& r == Persist::Favorites
                &&& *final(self) == (AppState {
                    favorites: final(self).favorites,
                    boards: final(self).boards,
                    search_matches: final(self).search_matches,
                    selected_index: 0,
                    list_offset: 0,
                    status_message: final(self).status_message,
                    ..*old(self)
                })
                &&& string_set(final(self).favorites@) == if added {
                    string_set(old(self).favorites@).insert(b.url@)
                } else {
                    string_set(old(self).favorites@).remove(b.url@)
                }
                &&& boards_view(final(self).boards@) == sort_boards(
                    string_set(final(self).favorites@),
                    true,
                    boards_view(old(self).boards@),
                )
                &&& final(self).search_matches@ == final(self).computed_matches()
                &&& final(self).status_message@ == favorite_message(added, b.name@)
            },
            distinct_strings(old(self).favorites@) ==> distinct_strings(final(self).favorites@),
    {
        if self.boards.len() == 0 || self.selected_is_category_header() {
            return Persist::Nothing;
        }
        let idx = self.map_selected_index();
        let url = self.boards[idx].url.clone();
        let name = self.boards[idx].name.clone();
        let added = set_toggle(&mut self.favorites, &url);
        self.sort_boards_with_favorites();
        let ghost mid = *self;
        self.selected_index = 0;
        self.list_offset = 0;
        let label = if added {
            "追加"
        } else {
            "解除"
        };
        let mut v = chars_of("お気に入り");
        let lv = chars_of(label);
        append_chars(&mut v, lv.as_slice());
        let sep = chars_of(": ");
        append_chars(&mut v, sep.as_slice());
        let nv = chars_of(name.as_str());
        append_chars(&mut v, nv.as_slice());
        self.status_message = string_of(v.as_slice());
        proof {
            Self::lemma_computed_matches_frame(&mid, self);
        }
        Persist::Favorites
    }
}

} // verus!
