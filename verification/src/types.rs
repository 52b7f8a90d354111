//! The data the reader shows and the state of its user interface.
use vstd::prelude::*;
use vstd::string::StringExecFns;

verus! {

/// A board of the menu.
#[derive(Debug, Clone)]
pub struct Board {
    pub name: String,
    pub url: String,
    pub category: String,
}

/// Mathematical view of a board.
pub ghost struct BoardView {
    pub name: Seq<char>,
    pub url: Seq<char>,
    pub category: Seq<char>,
}

impl View for Board {
    type V = BoardView;

    open spec fn view(&self) -> BoardView {
        BoardView { name: self.name@, url: self.url@, category: self.category@ }
    }
}

/// A thread of a board, as listed by `subject.txt`.
#[derive(Debug, Clone)]
pub struct ThreadItem {
    pub id: String,
    pub title: String,
    pub post_count: u32,
}

/// Mathematical view of a thread entry.
pub ghost struct ThreadView {
    pub id: Seq<char>,
    pub title: Seq<char>,
    pub post_count: u32,
}

impl View for ThreadItem {
    type V = ThreadView;

    open spec fn view(&self) -> ThreadView {
        ThreadView { id: self.id@, title: self.title@, post_count: self.post_count }
    }
}

/// A post of a thread.
#[derive(Debug, Clone)]
pub struct Post {
    pub name: String,
    pub email: String,
    pub date: String,
    pub body: String,
    pub id: Option<String>,
}

/// View of an optional string.
pub open spec fn opt_view(o: Option<String>) -> Option<Seq<char>> {
    match o {
        Some(s) => Some(s@),
        None => None,
    }
}

/// Mathematical view of a post.
pub ghost struct PostView {
    pub name: Seq<char>,
    pub email: Seq<char>,
    pub date: Seq<char>,
    pub body: Seq<char>,
    pub id: Option<Seq<char>>,
}

impl View for Post {
    type V = PostView;

    open spec fn view(&self) -> PostView {
        PostView {
            name: self.name@,
            email: self.email@,
            date: self.date@,
            body: self.body@,
            id: opt_view(self.id),
        }
    }
}

/// The views of a vector of boards.
pub open spec fn boards_view(v: Seq<Board>) -> Seq<BoardView> {
    v.map_values(|b: Board| b@)
}

/// The views of a vector of threads.
pub open spec fn threads_view(v: Seq<ThreadItem>) -> Seq<ThreadView> {
    v.map_values(|t: ThreadItem| t@)
}

/// The views of a vector of posts.
pub open spec fn posts_view(v: Seq<Post>) -> Seq<PostView> {
    v.map_values(|p: Post| p@)
}

/// The views of a vector of strings.
pub open spec fn strings_view(v: Seq<String>) -> Seq<Seq<char>> {
    v.map_values(|s: String| s@)
}

/// The screen the reader shows.
#[derive(Debug, Clone, Copy, PartialEq, Eq, Structural)]
pub enum Screen {
    BoardList,
    ThreadList,
    ThreadView,
    Compose,
}

/// A row of the board list: a category header or the index of a board.
#[derive(Debug, Clone)]
pub enum BoardListItem {
    CategoryHeader { name: String, board_count: usize },
    Board(usize),
}

/// Mathematical view of a row of the board list.
pub ghost enum ItemView {
    Header { name: Seq<char>, board_count: nat },
    Board(nat),
}

impl View for BoardListItem {
    type V = ItemView;

    open spec fn view(&self) -> ItemView {
        match self {
            BoardListItem::CategoryHeader { name, board_count } => ItemView::Header {
                name: name@,
                board_count: *board_count as nat,
            },
            BoardListItem::Board(i) => ItemView::Board(*i as nat),
        }
    }
}

/// The views of a vector of board list rows.
pub open spec fn items_view(v: Seq<BoardListItem>) -> Seq<ItemView> {
    v.map_values(|x: BoardListItem| x@)
}

/// The whole state of the reader.
///
/// `favorites`, `read_threads` and `collapsed_categories` are sets of
/// strings, held as vectors: their meaning is the set of their elements,
/// and no string occurs in one of them twice (`marks_distinct`).
#[derive(Debug, Clone)]
pub struct AppState {
    pub screen: Screen,
    pub boards: Vec<Board>,
    pub threads: Vec<ThreadItem>,
    pub posts: Vec<Post>,
    pub selected_index: usize,
    pub scroll_offset: usize,
    pub current_board: Option<String>,
    pub current_board_url: Option<String>,
    pub current_thread_title: Option<String>,
    pub current_thread_id: Option<String>,
    pub loading: bool,
    pub status_message: String,
    pub thread_info: Option<String>,
    pub search_query: String,
    pub search_active: bool,
    pub search_matches: Vec<usize>,
    pub list_offset: usize,
    pub visible_items: usize,
    pub compose_name: String,
    pub compose_email: String,
    pub compose_message: String,
    pub compose_focus: usize,
    pub favorites: Vec<String>,
    pub read_threads: Vec<String>,
    pub collapsed_categories: Vec<String>,
    pub show_images: bool,
}

/// The set a vector of strings stands for.
pub open spec fn string_set(v: Seq<String>) -> Set<Seq<char>> {
    strings_view(v).to_set()
}

/// No string occurs twice in the vector.
pub open spec fn distinct_strings(v: Seq<String>) -> bool {
    strings_view(v).no_duplicates()
}

impl AppState {
    /// Each of the three sets of strings holds every string at most once.
    pub open spec fn marks_distinct(&self) -> bool {
        &&& distinct_strings(self.favorites@)
        &&& distinct_strings(self.read_threads@)
        &&& distinct_strings(self.collapsed_categories@)
    }
}

impl AppState {
    /// The initial state: the board list, nothing loaded, `sage` as mail.
    pub fn new() -> (s: Self)
        ensures
            s.screen == Screen::BoardList,
            s.boards@.len() == 0,
            s.threads@.len() == 0,
            s.posts@.len() == 0,
            s.selected_index == 0,
            s.scroll_offset == 0,
            s.list_offset == 0,
            s.visible_items == 0,
            s.current_board is None,
            s.current_board_url is None,
            s.current_thread_title is None,
            s.current_thread_id is None,
            !s.loading,
            s.status_message@.len() == 0,
            s.thread_info is None,
            s.search_query@.len() == 0,
            !s.search_active,
            s.search_matches@.len() == 0,
            s.compose_name@.len() == 0,
            s.compose_email@ == "sage"@,
            s.compose_message@.len() == 0,
            s.compose_focus == 0,
            s.favorites@.len() == 0,
            s.read_threads@.len() == 0,
            s.collapsed_categories@.len() == 0,
            !s.show_images,
            s.marks_distinct(),
    {
        let s = AppState {
            screen: Screen::BoardList,
            boards: Vec::new(),
            threads: Vec::new(),
            posts: Vec::new(),
            selected_index: 0,
            scroll_offset: 0,
            list_offset: 0,
            visible_items: 0,
            current_board: None,
            current_board_url: None,
            current_thread_title: None,
            current_thread_id: None,
            loading: false,
            status_message: String::new(),
            thread_info: None,
            search_query: String::new(),
            search_active: false,
            search_matches: Vec::new(),
            compose_name: String::new(),
            compose_email: String::from_str("sage"),
            compose_message: String::new(),
            compose_focus: 0,
            favorites: Vec::new(),
            read_threads: Vec::new(),
            collapsed_categories: Vec::new(),
            show_images: false,
        };
        assert(strings_view(s.favorites@) =~= Seq::empty());
        assert(strings_view(s.read_threads@) =~= Seq::empty());
        assert(strings_view(s.collapsed_categories@) =~= Seq::empty());
        s
    }
}

} // verus!
