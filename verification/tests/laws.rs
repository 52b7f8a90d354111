use tano::boards::{boards_cache_text_exec, parse_boards_cache_exec};
use tano::order::sort_boards_exec;
use tano::posts::{parse_posts_cache, posts_cache_text_exec};
use tano::threads::{parse_threads_cache_exec, threads_cache_text_exec};
use tano::types::{AppState, Board, BoardListItem, Post, Screen, ThreadItem};

fn board(name: &str, url: &str, category: &str) -> Board {
    Board { name: name.to_string(), url: url.to_string(), category: category.to_string() }
}

/// A small deterministic sequence of numbers.
struct Steps(u64);

impl Steps {
    fn next(&mut self, n: u64) -> u64 {
        self.0 = self.0.wrapping_mul(6364136223846793005).wrapping_add(1442695040888963407);
        (self.0 >> 33) % n
    }
}

fn sample_boards() -> Vec<Board> {
    vec![
        board("b", "u1", "y"),
        board("a", "u2", "x"),
        board("c", "u3", "y"),
        board("a", "u4", "y"),
        board("d", "u5", ""),
        board("e", "u6", "x"),
    ]
}

#[test]
fn sorting_boards_orders_them_and_keeps_each_once() {
    let favs = vec!["u3".to_string(), "u6".to_string()];
    let sorted = sort_boards_exec(sample_boards(), &favs, true);
    let keys: Vec<(bool, String, String)> = sorted
        .iter()
        .map(|b| (!favs.contains(&b.url), b.category.clone(), b.name.clone()))
        .collect();
    let mut want = keys.clone();
    want.sort();
    assert_eq!(keys, want);
    let mut urls: Vec<String> = sorted.iter().map(|b| b.url.clone()).collect();
    urls.sort();
    assert_eq!(urls, vec!["u1", "u2", "u3", "u4", "u5", "u6"]);
    // Equal keys keep their order.
    let by_name = sort_boards_exec(sample_boards(), &Vec::new(), false);
    let urls: Vec<&str> = by_name.iter().map(|b| b.url.as_str()).collect();
    assert_eq!(urls, vec!["u2", "u4", "u1", "u3", "u5", "u6"]);
}

#[test]
fn search_matches_are_increasing_entries() {
    let mut s = AppState::new();
    s.boards = sample_boards();
    s.enter_search();
    for c in ['y', 'x', 'e'] {
        s.search_push_char(c);
        assert!(s.search_matches.windows(2).all(|w| w[0] < w[1]));
        assert!(s.search_matches.iter().all(|&i| i < s.boards.len()));
    }
}

#[test]
fn caches_read_back_what_they_write() {
    let ts = vec![
        ThreadItem { id: "1".to_string(), title: " spaced | title ".to_string(), post_count: 4294967295 },
        ThreadItem { id: "".to_string(), title: "x".to_string(), post_count: 7 },
    ];
    let back = parse_threads_cache_exec(&threads_cache_text_exec(&ts));
    assert_eq!(back.len(), ts.len());
    for (a, b) in back.iter().zip(ts.iter()) {
        assert_eq!((&a.id, &a.title, a.post_count), (&b.id, &b.title, b.post_count));
    }
    let bs = vec![board("名前", "https://h.5ch.io/b/", "カテ|ゴリ"), board("", "", "")];
    let back = parse_boards_cache_exec(&boards_cache_text_exec(&bs));
    assert_eq!(back.len(), bs.len());
    for (a, b) in back.iter().zip(bs.iter()) {
        assert_eq!((&a.name, &a.url, &a.category), (&b.name, &b.url, &b.category));
    }
    let ps = vec![
        Post {
            name: "a<".to_string(),
            email: ">b".to_string(),
            date: "d".to_string(),
            body: "x<>y\n\n<b\nr>\n".to_string(),
            id: None,
        },
        Post { name: "".to_string(), email: "".to_string(), date: "".to_string(), body: "".to_string(), id: None },
    ];
    let back = parse_posts_cache(&posts_cache_text_exec(&ps));
    assert_eq!(back.len(), ps.len());
    for (a, b) in back.iter().zip(ps.iter()) {
        assert_eq!((&a.name, &a.email, &a.date, &a.body, &a.id), (&b.name, &b.email, &b.date, &b.body, &b.id));
    }
}

#[test]
fn list_files_and_settings_read_back() {
    let mut s = AppState::new();
    s.favorites = vec!["https://a/".to_string(), "x y".to_string()];
    s.read_threads = vec!["u|1".to_string()];
    let mut t = AppState::new();
    t.load_favorites(&s.save_favorites());
    t.load_read_threads(&s.save_read_threads());
    assert_eq!(t.favorites, s.favorites);
    assert_eq!(t.read_threads, s.read_threads);
    for show in [true, false] {
        s.show_images = show;
        t.show_images = !show;
        t.load_config(&s.save_config());
        assert_eq!(t.show_images, show);
    }
}

fn check_selection(s: &AppState) {
    let rows = s.item_count();
    if rows > 0 {
        assert!(s.selected_index < rows, "selection {} of {}", s.selected_index, rows);
    }
    if s.visible_items > 0 {
        assert!(s.list_offset <= s.selected_index);
        assert!(s.selected_index < s.list_offset + s.visible_items);
    }
}

#[test]
fn moves_keep_the_selection_in_the_list_and_on_screen() {
    let mut steps = Steps(7);
    for screen in [Screen::BoardList, Screen::ThreadList] {
        for visible in [0usize, 1, 3, 5] {
            let mut s = AppState::new();
            s.screen = screen;
            s.boards = sample_boards();
            s.threads = (0..13).map(|i| ThreadItem { id: i.to_string(), title: "t".to_string(), post_count: 0 }).collect();
            s.visible_items = visible;
            for _ in 0..200 {
                match steps.next(6) {
                    0 => s.next_item(),
                    1 => s.prev_item(),
                    2 => s.scroll_page_down(),
                    3 => s.scroll_page_up(),
                    4 => s.scroll_to_bottom(),
                    _ => s.scroll_to_top(),
                }
                check_selection(&s);
            }
        }
    }
}

#[test]
fn erasing_undoes_typing() {
    let mut s = AppState::new();
    s.screen = Screen::ThreadList;
    s.threads = vec![
        ThreadItem { id: "1".to_string(), title: "abc".to_string(), post_count: 0 },
        ThreadItem { id: "2".to_string(), title: "abd".to_string(), post_count: 0 },
    ];
    s.enter_search();
    s.search_push_char('a');
    s.search_push_char('b');
    let before = (s.search_query.clone(), s.search_matches.clone());
    s.search_push_char('c');
    assert_eq!(s.search_matches, vec![0]);
    s.search_pop_char();
    assert_eq!((s.search_query.clone(), s.search_matches.clone()), before);
    assert_eq!(s.selected_index, 0);
}

#[test]
fn board_rows_name_boards_and_toggling_twice_restores() {
    let mut s = AppState::new();
    s.boards = sample_boards();
    s.enter_search();
    s.search_push_char('y');
    for item in s.board_list_items() {
        if let BoardListItem::Board(i) = item {
            assert!(i < s.boards.len());
        }
    }
    s.exit_search();
    for row in 0..s.item_count() {
        s.selected_index = row;
        let before = s.collapsed_categories.clone();
        s.toggle_category();
        s.toggle_category();
        let mut a = s.collapsed_categories.clone();
        let mut b = before;
        a.sort();
        b.sort();
        assert_eq!(a, b);
    }
}
