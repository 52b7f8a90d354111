use tano::ansi::{apply_sgr, parse_ansi, AnsiColor, SpanStyle};
use tano::boards::{
    boards_cache_text_exec, dedup_boards, fetch_boards, parse_boards_cache_exec,
    parse_category_from_name,
};
use tano::debug::{body, cookies, log, response_headers, separator};
use tano::image::{find_image_url, hashed_file_name};
use tano::paths::{boards_cache_path, config_path, posts_cache_path, threads_cache_path};
use tano::posting::{
    cache_location_exec, cookie_header, extract_error, first_answer_step, post_headers, post_message,
    repost_accepted, repost_error, thread_web_url_exec, url_parts, PostStep,
};
use tano::posts::{dat_url_exec, fetch_posts, parse_posts_cache, posts_cache_text_exec};
use tano::sjis::{decode_sjis, encode_body, hex_char, percent_encode_bytes, urlencode_sjis};
use tano::text::{chars_of, decimal_exec, lines_exec, parse_unsigned_exec};
use tano::threads::{
    fetch_threads, parse_threads_cache_exec, subject_url_exec, threads_cache_text_exec,
};
use tano::types::{Board, Post, ThreadItem};

fn sjis(s: &str) -> Vec<u8> {
    let (b, _, _) = encoding_rs::SHIFT_JIS.encode(s);
    b.into_owned()
}

fn board(name: &str, url: &str, category: &str) -> Board {
    Board { name: name.to_string(), url: url.to_string(), category: category.to_string() }
}

fn s(v: &[char]) -> String {
    v.iter().collect()
}

#[test]
fn hex_digits_are_upper_case() {
    assert_eq!(hex_char(0), b'0');
    assert_eq!(hex_char(9), b'9');
    assert_eq!(hex_char(10), b'A');
    assert_eq!(hex_char(15), b'F');
}

#[test]
fn urlencode_keeps_unreserved_and_encodes_the_rest() {
    assert_eq!(urlencode_sjis("aZ09-_.~"), b"aZ09-_.~".to_vec());
    assert_eq!(urlencode_sjis("a b"), b"a+b".to_vec());
    assert_eq!(urlencode_sjis("&="), b"%26%3D".to_vec());
    // "あ" is 0x82 0xA0 in Shift_JIS.
    assert_eq!(urlencode_sjis("あ"), b"%82%A0".to_vec());
    assert_eq!(urlencode_sjis("書き込む"), b"%8F%91%82%AB%8D%9E%82%DE".to_vec());
}

#[test]
fn form_body_joins_pairs() {
    let pairs = vec![
        ("FROM".to_string(), "".to_string()),
        ("mail".to_string(), "sage".to_string()),
        ("MESSAGE".to_string(), "テスト test".to_string()),
    ];
    assert_eq!(encode_body(&pairs), b"FROM=&mail=sage&MESSAGE=%83e%83X%83g+test".to_vec());
    assert_eq!(encode_body(&[]), Vec::<u8>::new());
}

#[test]
fn shift_jis_decodes() {
    assert_eq!(s(&decode_sjis(&sjis("板一覧 abc"))), "板一覧 abc");
    assert_eq!(s(&decode_sjis(b"plain")), "plain");
}

#[test]
fn decimal_and_parse() {
    assert_eq!(s(&decimal_exec(0)), "0");
    assert_eq!(s(&decimal_exec(1234567890)), "1234567890");
    assert_eq!(s(&decimal_exec(u64::MAX)), "18446744073709551615");
    assert_eq!(parse_unsigned_exec(&chars_of("123"), 255), Some(123));
    assert_eq!(parse_unsigned_exec(&chars_of("+7"), 255), Some(7));
    assert_eq!(parse_unsigned_exec(&chars_of("256"), 255), None);
    assert_eq!(parse_unsigned_exec(&chars_of(""), 255), None);
    assert_eq!(parse_unsigned_exec(&chars_of("+"), 255), None);
    assert_eq!(parse_unsigned_exec(&chars_of("1a"), 255), None);
    assert_eq!(parse_unsigned_exec(&chars_of("-1"), 255), None);
}

#[test]
fn lines_follow_str_lines() {
    let text = "a\r\nb\n\nc\r\n";
    let got: Vec<String> = lines_exec(&chars_of(text)).iter().map(|l| s(l)).collect();
    let want: Vec<String> = text.lines().map(|l| l.to_string()).collect();
    assert_eq!(got, want);
    assert_eq!(lines_exec(&chars_of("")).len(), 0);
    assert_eq!(lines_exec(&chars_of("x")).len(), 1);
}

#[test]
fn subject_lines_become_threads_newest_first() {
    let text = "1111111111.dat<>最初のスレ (12)\n2222222222.dat<> 次のスレ  (3)\nbroken line\n3333333333.dat<>数なし (abc)\n";
    let threads = fetch_threads(&sjis(text));
    assert_eq!(threads.len(), 3);
    assert_eq!(threads[0].id, "3333333333");
    assert_eq!(threads[0].title, "数なし");
    assert_eq!(threads[0].post_count, 0);
    assert_eq!(threads[1].id, "2222222222");
    assert_eq!(threads[1].title, "次のスレ");
    assert_eq!(threads[1].post_count, 3);
    assert_eq!(threads[2].id, "1111111111");
    assert_eq!(threads[2].title, "最初のスレ");
    assert_eq!(threads[2].post_count, 12);
}

#[test]
fn subject_title_may_hold_parentheses() {
    let threads = fetch_threads(&sjis("1.dat<>タイトル (その2) (45)\n"));
    assert_eq!(threads.len(), 1);
    assert_eq!(threads[0].title, "タイトル (その2)");
    assert_eq!(threads[0].post_count, 45);
}

#[test]
fn subject_url_strips_trailing_slashes() {
    assert_eq!(subject_url_exec("https://a.5ch.io/news/"), "https://a.5ch.io/news/subject.txt");
    assert_eq!(subject_url_exec("https://a.5ch.io/news//"), "https://a.5ch.io/news/subject.txt");
}

#[test]
fn threads_cache_round_trip() {
    let ts = vec![
        ThreadItem { id: "1700000000".to_string(), title: "タイトル|縦棒".to_string(), post_count: 1000 },
        ThreadItem { id: "1700000001".to_string(), title: "".to_string(), post_count: 0 },
    ];
    let text = threads_cache_text_exec(&ts);
    assert_eq!(text, "1700000000|タイトル|縦棒|1000\n1700000001||0");
    let back = parse_threads_cache_exec(&text);
    assert_eq!(back.len(), 2);
    for (a, b) in back.iter().zip(ts.iter()) {
        assert_eq!(a.id, b.id);
        assert_eq!(a.title, b.title);
        assert_eq!(a.post_count, b.post_count);
    }
}

#[test]
fn threads_cache_skips_lines_without_fields() {
    let back = parse_threads_cache_exec("  \nonlyid\nid|title\n9|t|x\n");
    assert_eq!(back.len(), 1);
    assert_eq!(back[0].id, "9");
    assert_eq!(back[0].title, "t");
    assert_eq!(back[0].post_count, 0);
}

#[test]
fn dat_lines_become_posts() {
    let text = "名無しさん<>sage<>2024/01/01(月) 12:34:56.78 ID:AbCd1234<> 本文です <br> 二行目 <>スレタイ\nshort<>line\n <>  <>日付だけ<>\n";
    let posts = fetch_posts(&sjis(text));
    assert_eq!(posts.len(), 2);
    assert_eq!(posts[0].name, "名無しさん");
    assert_eq!(posts[0].email, "sage");
    assert_eq!(posts[0].date, "2024/01/01(月) 12:34:56.78");
    assert_eq!(posts[0].id.as_deref(), Some("AbCd1234"));
    assert_eq!(posts[0].body, " 本文です \n 二行目 <>スレタイ");
    assert_eq!(posts[1].name, "");
    assert_eq!(posts[1].email, "");
    assert_eq!(posts[1].date, "日付だけ");
    assert_eq!(posts[1].id, None);
    assert_eq!(posts[1].body, "");
}

#[test]
fn dat_url_of_a_thread() {
    assert_eq!(dat_url_exec("https://a.5ch.io/news/", "123"), "https://a.5ch.io/news/dat/123.dat");
}

#[test]
fn posts_cache_moves_the_id_into_the_body() {
    let posts = vec![
        Post {
            name: "名無し".to_string(),
            email: "".to_string(),
            date: "2024/01/01".to_string(),
            body: "一行目\n二行目".to_string(),
            id: None,
        },
        Post {
            name: "n".to_string(),
            email: "e".to_string(),
            date: "d".to_string(),
            body: "b".to_string(),
            id: Some("XYZ".to_string()),
        },
    ];
    let text = posts_cache_text_exec(&posts);
    assert_eq!(text, "名無し<><>2024/01/01<>一行目<br>二行目\nn<>e<>d<> ID:XYZb");
    let back = parse_posts_cache(&text);
    assert_eq!(back.len(), 2);
    assert_eq!(back[0].name, "名無し");
    assert_eq!(back[0].body, "一行目\n二行目");
    assert_eq!(back[0].id, None);
    // The ID is written after the date separator, so it comes back as part
    // of the body and the post has no ID any more.
    assert_eq!(back[1].date, "d");
    assert_eq!(back[1].id, None);
    assert_eq!(back[1].body, " ID:XYZb");
}

const MENU: &str = "<html><body>\n<br><b>ニュース</b><br>\n<a href=https://asahi.5ch.io/newsplus/>ニュース速報+</a><br>\n<a href=https://hayabusa9.5ch.io/mnewsplus/>芸スポ速報+</a><br>\n<a href=https://example.com/x/>外部</a><br>\n<BR> <B>雑談</B> <BR>\n<A HREF=https://krsw.5ch.io/morningcoffee/> モ娘（狼） </A><br>\n<a href=https://krsw.5ch.io/morningcoffee/>重複</a>\n<a href=https://lavender.5ch.io/x/>[案内] 案内板</a>\n<a href=https://lavender.5ch.io/y/></a>\n</body></html>\n";

#[test]
fn menu_boards_are_named_by_category() {
    let boards = fetch_boards(&sjis(MENU));
    let got: Vec<(String, String, String)> =
        boards.iter().map(|b| (b.name.clone(), b.url.clone(), b.category.clone())).collect();
    assert_eq!(
        got,
        vec![
            (
                "[ニュース] ニュース速報+".to_string(),
                "https://asahi.5ch.io/newsplus/".to_string(),
                "".to_string()
            ),
            (
                "[ニュース] 芸スポ速報+".to_string(),
                "https://hayabusa9.5ch.io/mnewsplus/".to_string(),
                "".to_string()
            ),
            (
                "[雑談] モ娘（狼）".to_string(),
                "https://krsw.5ch.io/morningcoffee/".to_string(),
                "".to_string()
            ),
        ]
    );
}

#[test]
fn menu_without_categories_lists_every_board() {
    let menu = "<a href=https://b.5ch.io/zz/>Zeta</a><a href=https://a.5ch.io/aa/>Alpha</a><a href=https://c.5ch.io/aa2/>[x] skip</a><a href=https://a.5ch.io/aa/>Alpha2</a>";
    let boards = fetch_boards(&sjis(menu));
    let got: Vec<(String, String)> = boards.iter().map(|b| (b.name.clone(), b.url.clone())).collect();
    assert_eq!(
        got,
        vec![
            ("Alpha".to_string(), "https://a.5ch.io/aa/".to_string()),
            ("Zeta".to_string(), "https://b.5ch.io/zz/".to_string()),
        ]
    );
}

#[test]
fn menu_with_empty_sections_falls_back_to_every_link() {
    let menu = "<a href=https://b.5ch.io/zz/>Zeta</a><br><b>空</b><br>";
    let boards = fetch_boards(&sjis(menu));
    assert_eq!(boards.len(), 1);
    assert_eq!(boards[0].name, "Zeta");
}

/// The board menu read with the two regular expressions that describe its
/// categories and boards.
fn menu_by_regex(html: &str) -> Vec<(String, String)> {
    let cat_re = regex_lite::Regex::new(r"(?i)<br>\s*<b>(.*?)</b>\s*<br>").unwrap();
    let board_re =
        regex_lite::Regex::new(r#"(?i)<a\s+href=(https?://[0-9a-z]+\.5ch\.io/[0-9a-z]+/)>([^<]*?)</a>"#)
            .unwrap();
    let mut cats: Vec<(usize, String)> = cat_re
        .captures_iter(html)
        .map(|c| (c.get(0).unwrap().end(), c[1].trim().to_string()))
        .collect();
    let mut boards: Vec<(String, String)> = Vec::new();
    if cats.is_empty() {
        for cap in board_re.captures_iter(html) {
            let name = cap[2].trim();
            if !name.is_empty() && !name.starts_with('[') {
                boards.push((name.to_string(), cap[1].to_string()));
            }
        }
    } else {
        cats.push((html.len(), String::new()));
        for i in 0..cats.len() - 1 {
            let section = &html[cats[i].0..cats[i + 1].0];
            for cap in board_re.captures_iter(section) {
                let name = cap[2].trim();
                if !name.is_empty() && !name.starts_with('[') {
                    boards.push((format!("[{}] {}", cats[i].1, name), cap[1].to_string()));
                }
            }
        }
        if boards.is_empty() {
            for cap in board_re.captures_iter(html) {
                let name = cap[2].trim();
                if !name.is_empty() && !name.starts_with('[') {
                    boards.push((name.to_string(), cap[1].to_string()));
                }
            }
        }
    }
    boards.sort_by(|a, b| a.0.cmp(&b.0));
    boards.dedup_by(|a, b| a.1 == b.1);
    boards
}

#[test]
fn menu_grammar_agrees_with_the_regular_expressions() {
    let menus = [
        MENU,
        "<a href=https://b.5ch.io/zz/>Zeta</a><a href=https://a.5ch.io/aa/>Alpha</a>",
        "<br>\n<b>A</b>\n<br><a  href=http://x1.5ch.io/b1/>One</a><br><b>B</b><br><a\thref=https://x2.5ch.io/b2/>Two</a>",
        "<br><b>c</b><br><a href=https://UPPER.5ch.io/b/>Upper host</a><a href=https://h.5ch.io/B/>Upper board</a>",
        "<br><b>x</b></b><br><a href=https://h.5ch.io/b/>n</a><a href=https://h.5ch.io/b/ >space</a>",
        "<br><b>one</b><br><a href=https://h.5ch.io/b/><i>tag</i></a><a href=https://h.5ch.io/c/>ok</a>",
        "",
    ];
    for m in menus.iter() {
        let ours: Vec<(String, String)> =
            fetch_boards(&sjis(m)).iter().map(|b| (b.name.clone(), b.url.clone())).collect();
        assert_eq!(ours, menu_by_regex(m), "menu: {}", m);
    }
}

#[test]
fn dedup_keeps_the_first_of_a_run() {
    let v = vec![
        board("a", "u1", ""),
        board("b", "u1", ""),
        board("c", "u2", ""),
        board("d", "u1", ""),
    ];
    let names: Vec<String> = dedup_boards(v).iter().map(|b| b.name.clone()).collect();
    assert_eq!(names, vec!["a", "c", "d"]);
}

#[test]
fn category_prefix_of_a_name() {
    assert_eq!(
        parse_category_from_name("[ニュース]  速報 "),
        ("ニュース".to_string(), "速報".to_string())
    );
    assert_eq!(parse_category_from_name("plain"), ("".to_string(), "plain".to_string()));
    assert_eq!(parse_category_from_name("x]y"), ("".to_string(), "x]y".to_string()));
}

#[test]
fn boards_cache_round_trip_and_old_format() {
    let bs = vec![board("速報", "https://a.5ch.io/n/", "ニュース"), board("b", "u", "")];
    let text = boards_cache_text_exec(&bs);
    assert_eq!(text, "https://a.5ch.io/n/|速報|ニュース\nu|b|");
    let back = parse_boards_cache_exec(&text);
    assert_eq!(back.len(), 2);
    assert_eq!(back[0].name, "速報");
    assert_eq!(back[0].category, "ニュース");
    assert_eq!(back[1].category, "");
    let old = parse_boards_cache_exec("https://x.5ch.io/y/|[雑談] モ娘\nno separator\n");
    assert_eq!(old.len(), 1);
    assert_eq!(old[0].url, "https://x.5ch.io/y/");
    assert_eq!(old[0].name, "モ娘");
    assert_eq!(old[0].category, "雑談");
}

#[test]
fn board_address_parts() {
    let (h, b) = url_parts("https://asahi.5ch.io/newsplus/");
    assert_eq!(h.as_deref(), Some("asahi.5ch.io"));
    assert_eq!(b, "newsplus");
    let (h, b) = url_parts("nohost");
    assert_eq!(h, None);
    assert_eq!(b, "nohost");
    assert_eq!(cache_location_exec("x"), ("unknown_host".to_string(), "x".to_string()));
    assert_eq!(
        thread_web_url_exec("https://asahi.5ch.io/newsplus/", "1234"),
        "https://asahi.5ch.io/test/read.cgi/newsplus/1234"
    );
}

#[test]
fn post_message_builds_the_form() {
    let p = post_message("https://asahi.5ch.io/newsplus/", "1234", "名無し", "sage", "本文 です", 1700000000)
        .ok()
        .unwrap();
    assert_eq!(p.url, "https://asahi.5ch.io/test/bbs.cgi?guid=ON");
    assert_eq!(p.host, "asahi.5ch.io");
    assert_eq!(p.referer, "https://asahi.5ch.io/test/bbs.cgi");
    let keys: Vec<&str> = p.pairs.iter().map(|(k, _)| k.as_str()).collect();
    assert_eq!(keys, vec!["FROM", "mail", "MESSAGE", "bbs", "key", "time", "submit", "oekaki_thread1"]);
    assert_eq!(p.pairs[3].1, "newsplus");
    assert_eq!(p.pairs[5].1, "1700000000");
    let mut want = b"FROM=".to_vec();
    want.extend_from_slice(&urlencode_sjis("名無し"));
    want.extend_from_slice(b"&mail=sage&MESSAGE=");
    want.extend_from_slice(&urlencode_sjis("本文 です"));
    want.extend_from_slice(b"&bbs=newsplus&key=1234&time=1700000000&submit=");
    want.extend_from_slice(&urlencode_sjis("書き込む"));
    want.extend_from_slice(b"&oekaki_thread1=");
    assert_eq!(p.body, want);
}

#[test]
fn post_message_refuses_an_address_without_host() {
    match post_message("board", "1", "", "", "m", 0) {
        Err(e) => assert_eq!(e, "Invalid board URL"),
        Ok(_) => panic!("accepted"),
    }
    match post_message("https:///", "1", "", "", "m", 0) {
        Err(e) => assert_eq!(e, "Invalid board URL"),
        Ok(_) => panic!("accepted"),
    }
}

#[test]
fn post_request_headers() {
    let h = post_headers("a.5ch.io", "https://a.5ch.io/test/bbs.cgi");
    assert_eq!(h.len(), 12);
    assert_eq!(h[3], ("Origin".to_string(), "https://a.5ch.io".to_string()));
    assert_eq!(h[5], ("Referer".to_string(), "https://a.5ch.io/test/bbs.cgi".to_string()));
}

#[test]
fn error_line_of_an_answer() {
    let long = format!("ERROR: {}", "x".repeat(200));
    assert_eq!(extract_error(&chars_of(&format!("ok\n{}\nmore", long)), "500"), long[..100].to_string());
    assert_eq!(extract_error(&chars_of("a\nエラー：書き込めません\n"), "500"), "エラー：書き込めません");
    assert_eq!(extract_error(&chars_of("fine"), "403 Forbidden"), "HTTP error: 403 Forbidden");
}

#[test]
fn first_answer_with_feature_is_posted_again() {
    let p = post_message("https://a.5ch.io/b/", "1", "", "", "m", 5).ok().unwrap();
    let html = "<html><body><form><input type=\"hidden\" name=\"feature\" value=\"confirmed:abc\"></form></body></html>";
    match first_answer_step(&p, 200, "200 OK", &sjis(html)) {
        Some(PostStep::Repost(body)) => {
            let mut want = p.body.clone();
            want.extend_from_slice(b"&feature=confirmed%3Aabc");
            assert_eq!(body, want);
        }
        _ => panic!("no repost"),
    }
}

#[test]
fn first_answer_without_feature_is_an_error() {
    let p = post_message("https://a.5ch.io/b/", "1", "", "", "m", 5).ok().unwrap();
    match first_answer_step(&p, 200, "200 OK", &sjis("<html>ERROR: 連投規制</html>")) {
        Some(PostStep::Done(Err(e))) => assert_eq!(e, "<html>ERROR: 連投規制</html>"),
        _ => panic!("expected an error"),
    }
    let html = "<input type=\"hidden\" name=\"feature\" value=\"v\">";
    match first_answer_step(&p, 403, "403 Forbidden", &sjis(html)) {
        Some(PostStep::Done(Err(e))) => assert_eq!(e, "HTTP error: 403 Forbidden"),
        _ => panic!("expected an error"),
    }
}

#[test]
fn repost_answers() {
    assert!(repost_accepted(200));
    assert!(repost_accepted(302));
    assert!(!repost_accepted(404));
    assert!(!repost_accepted(199));
    assert_eq!(repost_error("500 Internal Server Error", &sjis("なし")), "HTTP error: 500 Internal Server Error");
    assert_eq!(repost_error("500", &sjis("x\nERROR!\n")), "ERROR!");
}

#[test]
fn image_addresses() {
    assert_eq!(find_image_url("  https://example.com/a.PNG)  ").as_deref(), Some("https://example.com/a.PNG"));
    assert_eq!(find_image_url("http://i.imgur.com/x.jpeg").as_deref(), Some("http://i.imgur.com/x.jpeg"));
    assert_eq!(find_image_url("https://example.com/a.png」。").as_deref(), Some("https://example.com/a.png"));
    assert_eq!(find_image_url("http://x/y.txt"), None);
    assert_eq!(find_image_url("see https://x/y.png"), None);
    assert_eq!(find_image_url("ftp://a.png"), None);
}

#[test]
fn image_file_names() {
    assert_eq!(hashed_file_name(0), "0000000000000000.img");
    assert_eq!(hashed_file_name(255), "00000000000000ff.img");
    assert_eq!(hashed_file_name(u64::MAX), "ffffffffffffffff.img");
    assert_eq!(hashed_file_name(0x0123456789abcdef), "0123456789abcdef.img");
}

#[test]
fn sgr_parameters() {
    let mut st = SpanStyle { fg: None, bg: None, reversed: false };
    apply_sgr(&mut st, &chars_of("38;5;196;48;2;1;2;3;7"));
    assert_eq!(st.fg, Some(AnsiColor::Indexed(196)));
    assert_eq!(st.bg, Some(AnsiColor::Rgb(1, 2, 3)));
    assert!(st.reversed);
    apply_sgr(&mut st, &chars_of("27"));
    assert!(!st.reversed);
    assert_eq!(st.fg, Some(AnsiColor::Indexed(196)));
    apply_sgr(&mut st, &chars_of("38;2;9"));
    assert_eq!(st.fg, Some(AnsiColor::Rgb(9, 0, 0)));
    apply_sgr(&mut st, &chars_of("38;5;300"));
    assert_eq!(st.fg, Some(AnsiColor::Indexed(0)));
    apply_sgr(&mut st, &chars_of(""));
    assert_eq!(st, SpanStyle { fg: None, bg: None, reversed: false });
    apply_sgr(&mut st, &chars_of("7;0"));
    assert!(!st.reversed);
}

#[test]
fn ansi_output_becomes_styled_lines() {
    let out = "a\x1b[38;5;1mb\x1b[0m\n\nc\x1b[?25lz";
    let lines = parse_ansi(out);
    assert_eq!(lines.len(), 3);
    assert_eq!(lines[0].len(), 2);
    assert_eq!(lines[0][0].text, "a");
    assert_eq!(lines[0][0].style.fg, None);
    assert_eq!(lines[0][1].text, "b");
    assert_eq!(lines[0][1].style.fg, Some(AnsiColor::Indexed(1)));
    assert_eq!(lines[1].len(), 0);
    assert_eq!(lines[2].len(), 2);
    assert_eq!(lines[2][0].text, "c");
    assert_eq!(lines[2][1].text, "z");
    assert_eq!(parse_ansi("").len(), 0);
}

#[test]
fn debug_log_entries() {
    assert_eq!(log("hello"), "hello\n");
    assert_eq!(cookies(Some("a=b")), "=== Cookies ===\na=b\n\n");
    assert_eq!(cookies(None), "=== Cookies ===\n<none>\n\n");
    assert_eq!(body("x"), "=== Body ===\nx\n\n");
    assert_eq!(separator(), format!("{}\n", "-".repeat(60)));
    let hs = vec![("Set-Cookie".to_string(), Some("a=1".to_string())), ("X".to_string(), None)];
    assert_eq!(
        response_headers(true, "200 OK", &hs),
        "=== Response Headers (repost=true) ===\nstatus = 200 OK\nSet-Cookie: a=1\nX: <non-utf8>\n\n"
    );
}

#[test]
fn cache_paths() {
    assert_eq!(config_path(), vec!["config".to_string()]);
    assert_eq!(boards_cache_path(), vec!["boards".to_string()]);
    assert_eq!(threads_cache_path("https://a.5ch.io/news/"), vec!["threads", "a.5ch.io", "news"]);
    assert_eq!(posts_cache_path("board", "12"), vec!["posts", "unknown_host", "board", "12"]);
}

#[test]
fn cookie_header_of_the_jar() {
    assert_eq!(cookie_header(&[]), None);
    let pairs = vec![("a".to_string(), "1".to_string()), ("b".to_string(), "x y".to_string())];
    assert_eq!(cookie_header(&pairs).as_deref(), Some("a=1; b=x y"));
    assert_eq!(cookie_header(&[("".to_string(), "".to_string())]).as_deref(), Some("="));
}

#[test]
fn percent_encoding_of_bytes() {
    assert_eq!(percent_encode_bytes(b"aZ9-_.~"), b"aZ9-_.~".to_vec());
    assert_eq!(percent_encode_bytes(b"a b&"), b"a+b%26".to_vec());
    assert_eq!(percent_encode_bytes(&[0x82, 0xa0, 0x0a]), b"%82%A0%0A".to_vec());
    assert_eq!(percent_encode_bytes(&[]), Vec::<u8>::new());
}
