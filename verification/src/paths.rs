//! Where the reader keeps its files, relative to its data directory
//! (`~/.config/tano`), as path components.
use vstd::prelude::*;
use vstd::string::StringExecFns;
use crate::types::strings_view;
use crate::posting::{cache_location, cache_location_exec};

verus! {

/// The settings file.
pub fn config_path() -> (r: Vec<String>)
    ensures
        strings_view(r@) == seq!["config"@],
{
    let mut r: Vec<String> = Vec::new();
    r.push(String::from_str("config"));
    assert(strings_view(r@) =~= seq!["config"@]);
    r
}

/// The board cache.
pub fn boards_cache_path() -> (r: Vec<String>)
    ensures
        strings_view(r@) == seq!["boards"@],
{
    let mut r: Vec<String> = Vec::new();
    r.push(String::from_str("boards"));
    assert(strings_view(r@) =~= seq!["boards"@]);
    r
}

/// The thread cache of a board: `threads/<host>/<board>`.
pub fn threads_cache_path(board_url: &str) -> (r: Vec<String>)
    ensures
        strings_view(r@) == seq![
            "threads"@,
            cache_location(board_url@).0,
            cache_location(board_url@).1,
        ],
{
    let (host, board) = cache_location_exec(board_url);
    let mut r: Vec<String> = Vec::new();
    r.push(String::from_str("threads"));
    r.push(host);
    r.push(board);
    assert(strings_view(r@) =~= seq![
        "threads"@,
        cache_location(board_url@).0,
        cache_location(board_url@).1,
    ]);
    r
}

/// The post cache of a thread: `posts/<host>/<board>/<thread>`.
pub fn posts_cache_path(board_url: &str, thread_id: &str) -> (r: Vec<String>)
    ensures
        strings_view(r@) == seq![
            "posts"@,
            cache_location(board_url@).0,
            cache_location(board_url@).1,
            thread_id@,
        ],
{
    let (host, board) = cache_location_exec(board_url);
    let mut r: Vec<String> = Vec::new();
    r.push(String::from_str("posts"));
    r.push(host);
    r.push(board);
    r.push(String::from_str(thread_id));
    assert(strings_view(r@) =~= seq![
        "posts"@,
        cache_location(board_url@).0,
        cache_location(board_url@).1,
        thread_id@,
    ]);
    r
}

} // verus!
