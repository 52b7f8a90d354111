//! The character-sequence helpers agree with std's string functions on every
//! string of up to five characters over a small alphabet, and the reference
//! grammar of the thread view agrees with the regular expression
//! `&gt;&gt;(\d+)` on every line made of up to four of a few pieces; the
//! compose screen types exactly the characters that are not control
//! characters.
use tano::keys::{Action, Key};
use tano::types::{AppState, Post, Screen};
use tano::text::{
    chars_of, decimal_exec, find_exec, is_whitespace, lines_exec, parse_unsigned_exec,
    replace_exec, rfind_exec, rsplit_once_exec, split_once_exec, trim_chars,
};

const ALPHABET: [char; 7] = ['a', ' ', '\r', '\n', '<', '>', '1'];

fn all_strings(max_len: usize) -> Vec<String> {
    let mut out: Vec<String> = vec![String::new()];
    let mut layer: Vec<String> = vec![String::new()];
    for _ in 0..max_len {
        let mut next = Vec::new();
        for s in &layer {
            for c in ALPHABET {
                let mut t = s.clone();
                t.push(c);
                next.push(t);
            }
        }
        out.extend(next.iter().cloned());
        layer = next;
    }
    out
}

fn text(v: &[char]) -> String {
    v.iter().collect()
}

fn char_index(s: &str, byte: usize) -> usize {
    s[..byte].chars().count()
}

#[test]
fn trim_matches_str_trim() {
    for s in all_strings(5) {
        let got = trim_chars(&chars_of(&s));
        assert_eq!(text(&got), s.trim(), "input {:?}", s);
    }
    for c in ['\u{85}', '\u{a0}', '\u{3000}', '\u{2028}', 'x', '\u{200b}'] {
        assert_eq!(is_whitespace(c), c.is_whitespace(), "char {:?}", c);
    }
}

#[test]
fn find_and_rfind_match_str() {
    let pats = ["a", "<>", " a", "\r\n", "11"];
    for s in all_strings(5) {
        let cs = chars_of(&s);
        for p in pats {
            let pc = chars_of(p);
            assert_eq!(find_exec(&cs, &pc), s.find(p).map(|b| char_index(&s, b)), "{:?} in {:?}", p, s);
            assert_eq!(rfind_exec(&cs, &pc), s.rfind(p).map(|b| char_index(&s, b)), "{:?} in {:?}", p, s);
        }
    }
}

#[test]
fn split_once_matches_str() {
    let pats = ["<", "a1", "\n"];
    for s in all_strings(5) {
        let cs = chars_of(&s);
        for p in pats {
            let pc = chars_of(p);
            let got = split_once_exec(&cs, &pc).map(|(a, b)| (text(&a), text(&b)));
            let want = s.split_once(p).map(|(a, b)| (a.to_string(), b.to_string()));
            assert_eq!(got, want, "{:?} split by {:?}", s, p);
            let got = rsplit_once_exec(&cs, &pc).map(|(a, b)| (text(&a), text(&b)));
            let want = s.rsplit_once(p).map(|(a, b)| (a.to_string(), b.to_string()));
            assert_eq!(got, want, "{:?} rsplit by {:?}", s, p);
        }
    }
}

#[test]
fn replace_matches_str_replace() {
    let cases = [("<", "&lt;"), ("a", ""), ("11", "1"), (" ", "  ")];
    for s in all_strings(5) {
        let cs = chars_of(&s);
        for (from, to) in cases {
            let got = replace_exec(&cs, &chars_of(from), &chars_of(to));
            assert_eq!(text(&got), s.replace(from, to), "{:?}: {:?} -> {:?}", s, from, to);
        }
    }
}

#[test]
fn lines_match_str_lines() {
    for s in all_strings(5) {
        let got: Vec<String> = lines_exec(&chars_of(&s)).iter().map(|l| text(l)).collect();
        let want: Vec<String> = s.lines().map(|l| l.to_string()).collect();
        assert_eq!(got, want, "input {:?}", s);
    }
}

#[test]
fn parse_unsigned_matches_str_parse() {
    let inputs = [
        "", "0", "7", "+7", "+", "-1", "12a", " 1", "255", "256", "65535", "65536", "007",
        "4294967295", "4294967296", "18446744073709551615", "18446744073709551616", "+0",
    ];
    for s in inputs {
        let cs = chars_of(s);
        assert_eq!(parse_unsigned_exec(&cs, u8::MAX as u64), s.parse::<u8>().ok().map(u64::from), "u8 {:?}", s);
        assert_eq!(parse_unsigned_exec(&cs, u16::MAX as u64), s.parse::<u16>().ok().map(u64::from), "u16 {:?}", s);
        assert_eq!(parse_unsigned_exec(&cs, u32::MAX as u64), s.parse::<u32>().ok().map(u64::from), "u32 {:?}", s);
        assert_eq!(parse_unsigned_exec(&cs, u64::MAX), s.parse::<u64>().ok(), "u64 {:?}", s);
    }
}

#[test]
fn decimal_matches_to_string() {
    for n in [0u64, 1, 9, 10, 99, 100, 12345, u32::MAX as u64, u64::MAX] {
        assert_eq!(text(&decimal_exec(n)), n.to_string());
    }
}

fn expected_reference_message(line: &str, posts: usize) -> String {
    let re = regex_lite::Regex::new(r"&gt;&gt;(\d+)").unwrap();
    match re.captures(line) {
        Some(cap) => {
            let target: usize = cap[1].parse().unwrap_or(0);
            if target > 0 && target <= posts {
                format!("#{} にジャンプしました", target)
            } else {
                format!("#{} は存在しません (全{}レス)", target, posts)
            }
        }
        None => "このレスに参照はありません".to_string(),
    }
}

#[test]
fn reference_grammar_matches_regex() {
    let pieces = ["&gt;", "&gt;&gt;", "1", "23", "x", " ", "&", "0", "99999999999999999999"];
    let mut lines: Vec<String> = vec![String::new()];
    let mut layer: Vec<String> = vec![String::new()];
    for _ in 0..4 {
        let mut next = Vec::new();
        for l in &layer {
            for p in pieces {
                next.push(format!("{}{}", l, p));
            }
        }
        lines.extend(next.iter().cloned());
        layer = next;
    }
    let mut s = AppState::new();
    s.screen = Screen::ThreadView;
    s.posts = (0..30)
        .map(|_| Post {
            name: String::new(),
            email: String::new(),
            date: String::new(),
            body: String::new(),
            id: None,
        })
        .collect();
    for line in lines {
        s.posts[0].body = line.clone();
        s.scroll_offset = 0;
        s.follow_reference();
        assert_eq!(s.status_message, expected_reference_message(&line, 30), "line {:?}", line);
    }
}

#[test]
fn typed_characters_are_the_non_control_ones() {
    let mut s = AppState::new();
    s.screen = Screen::Compose;
    for u in (0u32..0x800).chain([0x2028, 0x3000, 0xfeff, 0x1f600]) {
        let c = char::from_u32(u).unwrap();
        let want = if c.is_control() { Action::Nothing } else { Action::InsertChar(c) };
        assert_eq!(s.key_action(Key::Char(c), false), want, "char {:?}", c);
    }
}
