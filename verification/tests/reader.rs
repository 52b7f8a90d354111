use tano::display::format_post;
use tano::keys::{Action, Key};
use tano::lists::{set_insert, set_toggle};
use tano::flow::{Persist, Request};
use tano::types::{AppState, Board, BoardListItem, Post, Screen, ThreadItem};

fn board(name: &str, url: &str, category: &str) -> Board {
    Board { name: name.to_string(), url: url.to_string(), category: category.to_string() }
}

fn thread(id: &str, title: &str, count: u32) -> ThreadItem {
    ThreadItem { id: id.to_string(), title: title.to_string(), post_count: count }
}

fn post(name: &str, body: &str) -> Post {
    Post {
        name: name.to_string(),
        email: "sage".to_string(),
        date: "2024/01/01".to_string(),
        body: body.to_string(),
        id: None,
    }
}

fn board_state() -> AppState {
    let mut s = AppState::new();
    s.boards = vec![
        board("ニュース速報", "https://a.5ch.io/news/", "ニュース"),
        board("雑談", "https://b.5ch.io/talk/", "雑談"),
        board("芸スポ", "https://c.5ch.io/geino/", "ニュース"),
    ];
    s
}

fn headers_and_boards(items: &[BoardListItem]) -> Vec<String> {
    items
        .iter()
        .map(|i| match i {
            BoardListItem::CategoryHeader { name, board_count } => format!("H:{}:{}", name, board_count),
            BoardListItem::Board(k) => format!("B:{}", k),
        })
        .collect()
}

#[test]
fn new_state_defaults() {
    let s = AppState::new();
    assert_eq!(s.screen, Screen::BoardList);
    assert_eq!(s.compose_email, "sage");
    assert!(s.boards.is_empty() && s.favorites.is_empty() && !s.loading && !s.show_images);
    assert_eq!(s.selected_index, 0);
}

#[test]
fn board_list_groups_by_category_in_order_of_appearance() {
    let mut s = board_state();
    assert_eq!(
        headers_and_boards(&s.board_list_items()),
        vec!["H:ニュース:2", "B:0", "B:2", "H:雑談:1", "B:1"]
    );
    s.collapsed_categories = vec!["ニュース".to_string()];
    assert_eq!(headers_and_boards(&s.board_list_items()), vec!["H:ニュース:2", "H:雑談:1", "B:1"]);
    s.selected_index = 1;
    assert!(s.selected_is_category_header());
    assert_eq!(s.board_list_mapped_index(), None);
    s.selected_index = 2;
    assert_eq!(s.board_list_mapped_index(), Some(1));
    assert_eq!(s.item_count(), 3);
}

#[test]
fn toggle_category_twice_restores_it() {
    let mut s = board_state();
    s.selected_index = 0;
    s.toggle_category();
    assert_eq!(s.collapsed_categories, vec!["ニュース".to_string()]);
    s.toggle_category();
    assert!(s.collapsed_categories.is_empty());
    s.selected_index = 1;
    s.toggle_category();
    assert!(s.collapsed_categories.is_empty());
}

#[test]
fn search_matches_follow_the_query() {
    let mut s = board_state();
    s.enter_search();
    assert!(s.search_active);
    assert_eq!(s.search_matches, vec![0, 1, 2]);
    s.search_push_char('ス');
    assert_eq!(s.search_matches, vec![0, 2]);
    s.search_push_char('速');
    assert_eq!(s.search_matches, vec![0]);
    s.search_pop_char();
    assert_eq!(s.search_query, "ス");
    assert_eq!(s.search_matches, vec![0, 2]);
    assert_eq!(headers_and_boards(&s.board_list_items()), vec!["H:ニュース:2", "B:0", "B:2"]);
    assert!(!s.selected_is_category_header());
    s.selected_index = 1;
    s.exit_search();
    assert!(!s.search_active);
    assert!(s.search_query.is_empty() && s.search_matches.is_empty());
    // Board 2 sits on row 2 of the full list.
    assert_eq!(s.selected_index, 2);
}

#[test]
fn search_is_case_insensitive() {
    let mut s = AppState::new();
    s.screen = Screen::ThreadList;
    s.threads = vec![thread("1", "Rust の話", 3), thread("2", "その他", 1), thread("3", "RUSTY", 2)];
    s.enter_search();
    for c in "rust".chars() {
        s.search_push_char(c);
    }
    assert_eq!(s.search_matches, vec![0, 2]);
    s.selected_index = 5;
    assert_eq!(s.map_selected_index(), 2);
    s.exit_search();
    assert_eq!(s.selected_index, 2);
}

#[test]
fn post_search_looks_at_body_and_name() {
    let mut s = AppState::new();
    s.screen = Screen::ThreadView;
    s.posts = vec![post("Alice", "hello"), post("bob", "HELLO there"), post("carol", "bye")];
    s.enter_search();
    s.search_push_char('h');
    s.search_push_char('e');
    assert_eq!(s.search_matches, vec![0, 1]);
    s.search_pop_char();
    s.search_pop_char();
    s.search_push_char('A');
    assert_eq!(s.search_matches, vec![0, 2]);
}

#[test]
fn selection_moves_and_stays_on_screen() {
    let mut s = AppState::new();
    s.screen = Screen::ThreadList;
    s.threads = (0..10).map(|i| thread(&i.to_string(), "t", 0)).collect();
    s.visible_items = 3;
    for _ in 0..4 {
        s.next_item();
    }
    assert_eq!(s.selected_index, 4);
    assert_eq!(s.list_offset, 2);
    for _ in 0..10 {
        s.next_item();
    }
    assert_eq!(s.selected_index, 9);
    assert_eq!(s.list_offset, 7);
    s.prev_item();
    assert_eq!(s.selected_index, 8);
    s.scroll_page_up();
    assert_eq!(s.selected_index, 5);
    assert_eq!(s.list_offset, 5);
    s.scroll_page_down();
    assert_eq!(s.selected_index, 8);
    assert_eq!(s.list_offset, 6);
    s.scroll_to_top();
    assert_eq!((s.selected_index, s.list_offset), (0, 0));
    s.scroll_to_bottom();
    assert_eq!((s.selected_index, s.list_offset), (9, 7));
    for _ in 0..20 {
        s.prev_item();
    }
    assert_eq!((s.selected_index, s.list_offset), (0, 0));
}

#[test]
fn empty_list_does_not_move() {
    let mut s = AppState::new();
    s.screen = Screen::ThreadList;
    s.next_item();
    s.scroll_page_down();
    s.scroll_to_bottom();
    assert_eq!((s.selected_index, s.list_offset), (0, 0));
}

#[test]
fn thread_scrolling() {
    let mut s = AppState::new();
    s.screen = Screen::ThreadView;
    s.posts = vec![post("a", "one\ntwo"), post("b", "x")];
    s.visible_items = 4;
    s.scroll_down();
    assert_eq!(s.scroll_offset, 1);
    s.scroll_up();
    s.scroll_up();
    assert_eq!(s.scroll_offset, 0);
    s.scroll_page_down();
    assert_eq!(s.scroll_offset, 4);
    s.scroll_page_up();
    s.scroll_page_up();
    assert_eq!(s.scroll_offset, 0);
    s.scroll_to_bottom();
    // 3 + 2 rows, then 3 + 1 rows.
    assert_eq!(s.scroll_offset, 8);
    s.scroll_to_top();
    assert_eq!(s.scroll_offset, 0);
    s.scroll_offset = usize::MAX - 1;
    s.scroll_page_down();
    assert_eq!(s.scroll_offset, usize::MAX);
}

#[test]
fn scroll_offsets_of_posts() {
    let mut s = AppState::new();
    s.posts = vec![post("a", "1\n2\n3"), post("b", ""), post("c", "x")];
    assert_eq!(s.calc_scroll_offset(0), 0);
    assert_eq!(s.calc_scroll_offset(1), 6);
    assert_eq!(s.calc_scroll_offset(2), 9);
    assert_eq!(s.calc_scroll_offset(3), 13);
    assert_eq!(s.calc_scroll_offset(100), 13);
    // The rows the thread view shows line up with these offsets.
    let rows = s.thread_text();
    assert_eq!(rows.len(), 13);
    assert!(rows[6].starts_with("---"));
    assert!(rows[7].starts_with("2 名前:b"));
    assert!(rows[10].starts_with("3 名前:c"));
}

#[test]
fn follow_reference_jumps_to_the_post() {
    let mut s = AppState::new();
    s.screen = Screen::ThreadView;
    s.posts = vec![
        post("a", "first"),
        post("b", "see\n&gt;&gt;1 と &gt;&gt;3"),
        post("c", "&gt;&gt;99 &gt;&gt;1"),
        post("d", "&gt;&gt;x"),
    ];
    s.scroll_offset = 5;
    s.follow_reference();
    assert_eq!(s.scroll_offset, 0);
    assert_eq!(s.status_message, "#1 にジャンプしました");
    s.scroll_offset = 10;
    s.follow_reference();
    assert_eq!(s.scroll_offset, 10);
    assert_eq!(s.status_message, "#99 は存在しません (全4レス)");
    s.scroll_offset = 0;
    s.follow_reference();
    assert_eq!(s.status_message, "このレスに参照はありません");
    s.scroll_offset = 15;
    s.follow_reference();
    assert_eq!(s.status_message, "このレスに参照はありません");
    s.scroll_offset = 1000;
    s.follow_reference();
    assert_eq!(s.status_message, "このレスに参照はありません");
    s.posts[3].body = "&gt;&gt;99999999999999999999999".to_string();
    s.scroll_offset = 15;
    s.follow_reference();
    assert_eq!(s.status_message, "#0 は存在しません (全4レス)");
}

#[test]
fn follow_reference_does_nothing_outside_a_thread() {
    let mut s = AppState::new();
    s.screen = Screen::ThreadList;
    s.posts = vec![post("a", "&gt;&gt;1")];
    s.follow_reference();
    assert_eq!(s.status_message, "");
}

#[test]
fn going_back() {
    let mut s = AppState::new();
    s.screen = Screen::ThreadView;
    s.posts = vec![post("a", "b")];
    s.current_thread_id = Some("1".to_string());
    s.current_thread_title = Some("t".to_string());
    s.thread_info = Some("t (1レス)".to_string());
    s.current_board_url = Some("u".to_string());
    s.current_board = Some("b".to_string());
    s.selected_index = 3;
    s.go_back();
    assert_eq!(s.screen, Screen::ThreadList);
    assert!(s.posts.is_empty() && s.current_thread_id.is_none() && s.thread_info.is_none());
    assert_eq!(s.selected_index, 0);
    assert_eq!(s.current_board_url.as_deref(), Some("u"));
    s.go_back();
    assert_eq!(s.screen, Screen::BoardList);
    assert!(s.current_board_url.is_none() && s.current_board.is_none());
    s.go_back();
    assert_eq!(s.screen, Screen::BoardList);
}

#[test]
fn compose_form() {
    let mut s = AppState::new();
    s.enter_compose();
    assert_eq!(s.status_message, "スレが選択されていません");
    assert_eq!(s.screen, Screen::BoardList);
    s.current_board_url = Some("https://a.5ch.io/b/".to_string());
    s.current_thread_id = Some("12".to_string());
    s.compose_name = "old".to_string();
    s.enter_compose();
    assert_eq!(s.screen, Screen::Compose);
    assert_eq!(s.compose_name, "");
    assert_eq!(s.compose_email, "sage");
    assert_eq!(s.status_message, "Ctrl+S:送信 Esc:キャンセル");
    s.compose_insert_char('名');
    s.compose_newline();
    s.compose_delete_char();
    s.compose_delete_char();
    s.compose_cycle_focus();
    s.compose_insert_char('本');
    s.compose_newline();
    s.compose_insert_char('文');
    assert_eq!(s.compose_name, "名");
    assert_eq!(s.compose_email, "sa");
    assert_eq!(s.compose_message, "本\n文");
    s.compose_cycle_focus();
    assert_eq!(s.compose_focus, 0);
    s.exit_compose();
    assert_eq!(s.screen, Screen::ThreadView);
    assert_eq!(s.status_message, "");
}

#[test]
fn send_post_checks_the_form() {
    let mut s = AppState::new();
    s.compose_message = "  \n ".to_string();
    assert!(matches!(s.send_post(), Request::Nothing));
    assert_eq!(s.status_message, "メッセージが空です");
    s.compose_message = "本文".to_string();
    assert!(matches!(s.send_post(), Request::Nothing));
    assert_eq!(s.status_message, "板URLが不明です");
    s.current_board_url = Some("https://a.5ch.io/b/".to_string());
    assert!(matches!(s.send_post(), Request::Nothing));
    assert_eq!(s.status_message, "スレIDが不明です");
    s.current_thread_id = Some("12".to_string());
    match s.send_post() {
        Request::SendPost { board_url, thread_id, name, email, message } => {
            assert_eq!(board_url, "https://a.5ch.io/b/");
            assert_eq!(thread_id, "12");
            assert_eq!(name, "");
            assert_eq!(email, "sage");
            assert_eq!(message, "本文");
        }
        _ => panic!("no post"),
    }
    assert!(s.loading);
    assert_eq!(s.status_message, "送信中...");
}

#[test]
fn send_results() {
    let mut s = AppState::new();
    s.screen = Screen::Compose;
    s.loading = true;
    match s.apply_send_result("12", Ok(())) {
        Request::LoadPosts { thread_id } => assert_eq!(thread_id, "12"),
        _ => panic!("no reload"),
    }
    assert_eq!(s.screen, Screen::ThreadView);
    assert!(!s.loading);
    assert_eq!(s.status_message, "");
    s.screen = Screen::Compose;
    assert!(matches!(s.apply_send_result("12", Err("規制".to_string())), Request::Nothing));
    assert_eq!(s.status_message, "送信エラー: 規制");
    assert_eq!(s.screen, Screen::Compose);
}

#[test]
fn boards_load_from_cache_or_network() {
    let mut s = AppState::new();
    s.favorites = vec!["u3".to_string()];
    let r = s.load_boards(Some("u1|b|cat2\nu2|a|cat1\nu3|z|cat2\n"));
    assert!(matches!(r, Request::Nothing));
    let names: Vec<&str> = s.boards.iter().map(|b| b.name.as_str()).collect();
    assert_eq!(names, vec!["z", "a", "b"]);
    assert_eq!(s.status_message, "3 個の板を読み込みました");
    assert_eq!(s.collapsed_categories.len(), 2);
    let mut t = AppState::new();
    assert!(matches!(t.load_boards(Some("\n")), Request::FetchBoards));
    assert!(t.loading);
    assert_eq!(t.status_message, "板一覧を読み込み中...");
    assert_eq!(t.apply_fetched_boards(Err("HTTP request error: x".to_string())), Persist::Nothing);
    assert!(!t.loading);
    assert_eq!(t.status_message, "エラー: HTTP request error: x");
    assert!(matches!(t.reload_boards(), Request::FetchBoards));
    assert_eq!(t.apply_fetched_boards(Ok(vec![board("n", "u", "c")])), Persist::BoardsCache);
    assert_eq!(t.status_message, "1 個の板を読み込みました");
    assert_eq!(t.save_boards_cache(), "u|n|c");
}

#[test]
fn selecting_a_board_then_its_threads() {
    let mut s = board_state();
    s.selected_index = 0;
    assert!(matches!(s.select_board(), Request::Nothing));
    s.selected_index = 2;
    assert!(matches!(s.select_board(), Request::LoadThreads));
    assert_eq!(s.current_board.as_deref(), Some("芸スポ"));
    assert_eq!(s.current_board_url.as_deref(), Some("https://c.5ch.io/geino/"));
    s.read_threads = vec!["https://c.5ch.io/geino/|2".to_string()];
    let r = s.load_threads(Some("1|one|5\n2|two|7\n"));
    assert!(matches!(r, Request::Nothing));
    assert_eq!(s.screen, Screen::ThreadList);
    let ids: Vec<&str> = s.threads.iter().map(|t| t.id.as_str()).collect();
    assert_eq!(ids, vec!["2", "1"]);
    assert_eq!(s.status_message, "2 個のスレを読み込みました");
    let (h, b, c) = s.save_threads_cache().unwrap();
    assert_eq!((h.as_str(), b.as_str()), ("c.5ch.io", "geino"));
    assert_eq!(c, "2|two|7\n1|one|5");
    match s.reload_threads() {
        Request::FetchThreads { board_url } => assert_eq!(board_url, "https://c.5ch.io/geino/"),
        _ => panic!("no fetch"),
    }
    assert!(s.loading);
    assert_eq!(s.status_message, "スレ一覧を読み込み中...");
    let p = s.apply_fetched_threads(Ok(vec![thread("1", "one", 6), thread("2", "two", 8), thread("3", "new", 1)]));
    assert_eq!(p, Persist::ThreadsCache);
    let ids: Vec<&str> = s.threads.iter().map(|t| t.id.as_str()).collect();
    assert_eq!(ids, vec!["2", "1", "3"]);
    assert!(!s.loading);
}

#[test]
fn threads_without_a_board_show_at_once() {
    let mut s = AppState::new();
    assert!(matches!(s.load_threads(Some("1|a|1")), Request::Nothing));
    assert_eq!(s.screen, Screen::ThreadList);
    assert!(!s.loading);
    assert!(s.threads.is_empty());
    assert_eq!(s.status_message, "スレ一覧を読み込み中...");
}

#[test]
fn selecting_a_thread_then_its_posts() {
    let mut s = AppState::new();
    s.screen = Screen::ThreadList;
    s.current_board_url = Some("https://a.5ch.io/b/".to_string());
    s.threads = vec![thread("10", "スレ", 2), thread("20", "別", 1)];
    s.selected_index = 1;
    let step = s.select_thread();
    assert_eq!(step.persist, Persist::ReadThreads);
    match step.request {
        Request::LoadPosts { thread_id } => assert_eq!(thread_id, "20"),
        _ => panic!("no load"),
    }
    assert_eq!(s.read_threads, vec!["https://a.5ch.io/b/|20".to_string()]);
    assert_eq!(s.current_thread_title.as_deref(), Some("別"));
    let r = s.load_posts("20", Some("n<>sage<>d<>本文\nm<><>e<>二"));
    assert!(matches!(r, Request::Nothing));
    assert_eq!(s.screen, Screen::ThreadView);
    assert_eq!(s.posts.len(), 2);
    assert_eq!(s.thread_info.as_deref(), Some("別 (2レス)"));
    assert_eq!(s.status_message, "2 レスを読み込みました");
    let (_, _, tid, text) = s.save_posts_cache().unwrap();
    assert_eq!(tid, "20");
    assert_eq!(text, "n<>sage<>d<>本文\nm<><>e<>二");
    match s.reload_posts() {
        Request::FetchPosts { board_url, thread_id } => {
            assert_eq!(board_url, "https://a.5ch.io/b/");
            assert_eq!(thread_id, "20");
        }
        _ => panic!("no fetch"),
    }
    assert_eq!(s.status_message, "レスを読み込み中...");
    assert_eq!(s.apply_fetched_posts(Err("Body read error: x".to_string())), Persist::Nothing);
    assert_eq!(s.status_message, "エラー: Body read error: x");
    assert_eq!(s.screen, Screen::ThreadView);
    assert_eq!(s.apply_fetched_posts(Ok(vec![post("a", "b")])), Persist::PostsCache);
    assert_eq!(s.thread_info.as_deref(), Some("別 (1レス)"));
    assert_eq!(s.status_message, "1 レスを読み込みました");
}

#[test]
fn posts_without_a_thread_are_not_fetched() {
    let mut s = AppState::new();
    s.screen = Screen::ThreadList;
    assert!(matches!(s.reload_posts(), Request::Nothing));
    assert_eq!(s.screen, Screen::ThreadList);
    assert!(!s.loading);
}

#[test]
fn favorites_toggle_and_sort() {
    let mut s = board_state();
    s.selected_index = 4;
    // Row 4 is board 1, "雑談".
    assert_eq!(s.toggle_favorite(), Persist::Favorites);
    assert_eq!(s.favorites, vec!["https://b.5ch.io/talk/".to_string()]);
    assert_eq!(s.status_message, "お気に入り追加: 雑談");
    assert_eq!(s.boards[0].name, "雑談");
    assert_eq!(s.selected_index, 0);
    s.selected_index = 1;
    assert_eq!(s.toggle_favorite(), Persist::Favorites);
    assert!(s.favorites.is_empty());
    assert_eq!(s.status_message, "お気に入り解除: 雑談");
    s.selected_index = 0;
    assert_eq!(s.toggle_favorite(), Persist::Nothing);
    assert_eq!(s.save_favorites(), "");
}

#[test]
fn list_files_and_settings() {
    let mut s = AppState::new();
    s.load_favorites("  https://a/x/ \n\n https://b/y/\nhttps://a/x/\n");
    assert_eq!(s.favorites, vec!["https://a/x/".to_string(), "https://b/y/".to_string()]);
    assert_eq!(s.save_favorites(), "https://a/x/\nhttps://b/y/");
    let mut t = AppState::new();
    t.load_favorites(&s.save_favorites());
    assert_eq!(t.favorites, s.favorites);
    s.load_read_threads("u|1\r\nu|2");
    assert_eq!(s.save_read_threads(), "u|1\nu|2");
    s.load_config("# comment\n show_images = false \nother=1\n");
    assert!(!s.show_images);
    s.load_config("show_images=yes");
    assert!(s.show_images);
    assert_eq!(s.save_config(), "show_images=true\n");
    s.load_config(&"show_images=false\n".to_string());
    assert!(!s.show_images);
    assert_eq!(s.save_config(), "show_images=false\n");
}

#[test]
fn read_threads_come_first() {
    let mut s = AppState::new();
    s.current_board_url = Some("B".to_string());
    s.threads = vec![thread("1", "a", 0), thread("2", "b", 0), thread("3", "c", 0), thread("4", "d", 0)];
    s.read_threads = vec!["B|3".to_string(), "B|1".to_string(), "C|2".to_string()];
    s.sort_threads_with_read();
    let ids: Vec<&str> = s.threads.iter().map(|t| t.id.as_str()).collect();
    assert_eq!(ids, vec!["1", "3", "2", "4"]);
}

#[test]
fn show_thread_url_needs_board_and_thread() {
    let mut s = AppState::new();
    s.show_thread_url();
    assert_eq!(s.status_message, "");
    s.current_board_url = Some("https://a.5ch.io/b/".to_string());
    s.current_thread_id = Some("77".to_string());
    s.show_thread_url();
    assert_eq!(s.status_message, "https://a.5ch.io/test/read.cgi/b/77");
}

#[test]
fn screen_texts() {
    let mut s = board_state();
    assert_eq!(s.title_text(), " 5ちゃんねるびゅあ - 板一覧");
    s.screen = Screen::ThreadList;
    assert_eq!(s.title_text(), " 5ちゃんねるびゅあ - スレ一覧");
    s.current_board = Some("[ニュース] 速報".to_string());
    assert_eq!(s.title_text(), " 5ちゃんねるびゅあ - [ニュース] 速報");
    let long = "abcdefghijklmnopqrstuvwxyz0123456789ABCDEFGH";
    s.current_board = Some(long.to_string());
    assert_eq!(s.title_text(), format!(" 5ちゃんねるびゅあ - ...{}", &long[long.len() - 37..]));
    s.screen = Screen::ThreadView;
    assert_eq!(s.title_text(), " 5ちゃんねるびゅあ - スレ");
    let info: String = "あ".repeat(20);
    s.thread_info = Some(info.clone());
    let want: String = info.chars().take(47).collect();
    assert_eq!(s.title_text(), format!(" 5ちゃんねるびゅあ - {}...", want));
    s.screen = Screen::Compose;
    assert_eq!(s.title_text(), " 5ちゃんねるびゅあ - レス投稿");
    s.screen = Screen::BoardList;
    s.favorites = vec!["https://b.5ch.io/talk/".to_string()];
    assert_eq!(s.board_rows(), vec!["  ニュース速報", "★ 雑談", "  芸スポ"]);
    assert_eq!(s.board_list_title(), "板一覧");
    s.enter_search();
    s.search_push_char('雑');
    assert_eq!(s.board_rows(), vec!["★ 雑談"]);
    assert_eq!(s.board_list_title(), "板一覧 (1件)");
    assert_eq!(s.search_bar_text(), "/雑 (1件)");
    s.search_pop_char();
    assert_eq!(s.search_bar_text(), "/ ");
    assert_eq!(s.help_text(), " 文字入力:検索 | Esc:終了 | Enter:決定 | ↑↓:移動 ");
    s.exit_search();
    assert_eq!(s.help_text(), " ↑↓:移動 | Enter:板を開く | /:検索 | f:お気に入り | r:再読み込み | q:終了 ");
    s.status_message = "ok".to_string();
    assert_eq!(s.status_text(), "ok");
    s.loading = true;
    assert_eq!(s.status_text(), "読み込み中...");
    assert_eq!(s.pane_message().as_deref(), Some("読み込み中..."));
    s.loading = false;
    assert_eq!(s.pane_message(), None);
    s.boards.clear();
    assert_eq!(s.pane_message().as_deref(), Some("板一覧が空です。'r' で再読み込み"));
}

#[test]
fn thread_list_rows_are_cut_to_the_width() {
    let mut s = AppState::new();
    s.screen = Screen::ThreadList;
    s.threads = vec![thread("1", "短い", 3), thread("2", "とても長いスレッドのタイトルです", 1000)];
    assert_eq!(s.thread_rows(24), vec!["短い (3レス)", "とても長いス... (1000レス)"]);
    assert_eq!(s.thread_list_title(), "スレ一覧");
}

#[test]
fn post_rows_and_search_rows() {
    let p = Post {
        name: "名無し".to_string(),
        email: "age".to_string(),
        date: "2024".to_string(),
        body: "一\n二".to_string(),
        id: Some("ID1".to_string()),
    };
    let rows = format_post(3, &p);
    let header = "3 <age> 名前:名無し 2024  ID:ID1";
    assert_eq!(rows, vec!["-".repeat(header.len().min(60)), header.to_string(), "一".to_string(), "二".to_string(), "".to_string()]);
    let q = post("x", "");
    assert_eq!(format_post(1, &q), vec!["-".repeat(22), "1 名前:x 2024/01/01 ".to_string(), "".to_string()]);
    let mut s = AppState::new();
    s.screen = Screen::ThreadView;
    s.posts = vec![post("a", "0123456789abcdef\nsecond"), post("b", "short")];
    s.search_active = true;
    s.search_matches = vec![0, 1];
    assert_eq!(s.post_search_rows(20), vec!["#1 0123456...", "#2 short"]);
    assert_eq!(s.thread_bar_text(), " 検索結果: 2件 / 2レス | ↑↓:移動 | Enter:決定");
    s.search_active = false;
    assert_eq!(s.thread_bar_text(), " 1-2/2 | ↑↓:スクロール | ←:戻る | /:検索 | w:書き込み | q:終了");
    s.compose_name = "n".to_string();
    assert_eq!(s.compose_name_text(), " 名前: n ");
    assert_eq!(s.compose_email_text(), " メール: sage ");
    assert_eq!(s.compose_message_text(), " ");
}

#[test]
fn keys_depend_on_screen_and_search() {
    let mut s = AppState::new();
    assert_eq!(s.key_action(Key::Char('q'), false), Action::Quit);
    assert_eq!(s.key_action(Key::Enter, false), Action::SelectBoard);
    assert_eq!(s.key_action(Key::Char('j'), false), Action::NextItem);
    assert_eq!(s.key_action(Key::Char('f'), false), Action::ToggleFavorite);
    assert_eq!(s.key_action(Key::Char('g'), false), Action::Nothing);
    assert_eq!(s.key_action(Key::Char('r'), false), Action::ReloadBoards);
    assert_eq!(s.key_action(Key::Char(' '), false), Action::PageDown);
    assert_eq!(s.key_action(Key::Backspace, false), Action::GoBack);
    assert_eq!(s.key_action(Key::Tab, false), Action::Nothing);
    s.screen = Screen::ThreadView;
    assert_eq!(s.key_action(Key::Char('j'), false), Action::ScrollDown);
    assert_eq!(s.key_action(Key::Up, false), Action::ScrollUp);
    assert_eq!(s.key_action(Key::Char('G'), false), Action::ScrollToBottom);
    assert_eq!(s.key_action(Key::Char('w'), false), Action::EnterCompose);
    assert_eq!(s.key_action(Key::Char('u'), false), Action::ShowThreadUrl);
    assert_eq!(s.key_action(Key::Char('f'), false), Action::Nothing);
    assert_eq!(s.key_action(Key::Enter, false), Action::Nothing);
    s.screen = Screen::ThreadList;
    s.search_active = true;
    assert_eq!(s.key_action(Key::Char('j'), false), Action::NextItem);
    assert_eq!(s.key_action(Key::Char('x'), false), Action::SearchPush('x'));
    assert_eq!(s.key_action(Key::Char('\u{1b}'), false), Action::Nothing);
    assert_eq!(s.key_action(Key::Enter, false), Action::ExitSearchSelectThread);
    assert_eq!(s.key_action(Key::Char('/'), false), Action::ExitSearch);
    assert_eq!(s.key_action(Key::Backspace, false), Action::SearchPop);
    s.search_active = false;
    s.screen = Screen::Compose;
    assert_eq!(s.key_action(Key::Char('s'), true), Action::SendPost);
    assert_eq!(s.key_action(Key::Char('s'), false), Action::InsertChar('s'));
    assert_eq!(s.key_action(Key::Char('あ'), true), Action::InsertChar('あ'));
    assert_eq!(s.key_action(Key::Enter, false), Action::Newline);
    assert_eq!(s.key_action(Key::Esc, false), Action::ExitCompose);
    assert_eq!(s.key_action(Key::Char('q'), false), Action::InsertChar('q'));
    assert_eq!(s.key_action(Key::PageDown, false), Action::Nothing);
}

#[test]
fn visible_rows_leave_out_the_border() {
    let mut s = AppState::new();
    s.set_visible_rows(24);
    assert_eq!(s.visible_items, 22);
    s.set_visible_rows(1);
    assert_eq!(s.visible_items, 0);
}

#[test]
fn marks_never_hold_an_entry_twice() {
    let mut v: Vec<String> = Vec::new();
    set_insert(&mut v, "a".to_string());
    set_insert(&mut v, "a".to_string());
    set_insert(&mut v, "b".to_string());
    assert_eq!(v, vec!["a".to_string(), "b".to_string()]);
    assert!(set_toggle(&mut v, &"c".to_string()));
    assert!(!set_toggle(&mut v, &"a".to_string()));
    assert_eq!(v, vec!["b".to_string(), "c".to_string()]);
    let mut s = AppState::new();
    s.load_favorites("u1\nu2\n u1 \nu2");
    s.load_favorites("u2");
    assert_eq!(s.favorites, vec!["u1".to_string(), "u2".to_string()]);
    assert_eq!(s.save_favorites(), "u1\nu2");
    s.boards = vec![
        board("a", "u1", "x"),
        board("b", "u2", "y"),
        board("c", "u3", "x"),
    ];
    s.collapse_all_categories();
    assert_eq!(s.collapsed_categories, vec!["x".to_string(), "y".to_string()]);
}
