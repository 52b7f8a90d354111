//! The thread list of a board (`subject.txt`) and its local cache.
//!
//! A `subject.txt` line reads `1234567890.dat<>Title (123)`; a cache line
//! reads `1234567890|Title|123`.
use vstd::prelude::*;
use crate::text::{
    free_of, is_ws, is_digit, lemma_decimal_digits, lemma_trim_unchanged, lemma_split_once_char,
    lemma_rsplit_once_char, lemma_lines_join,
    trim, split_once, rsplit_once, lines, join, trim_end_char, views, decimal, parse_unsigned,
    chars_of, string_of, trim_chars, split_once_exec, rsplit_once_exec, lines_exec, join_exec,
    trim_end_char_chars, append_chars, parse_unsigned_exec, decimal_exec,
};
use crate::types::{ThreadItem, ThreadView, threads_view};
use crate::sjis::{shift_jis_decode, decode_sjis, max_text_len};

verus! {

/// The separator between a thread key and its title in `subject.txt`.
pub open spec fn dat_sep() -> Seq<char> {
    seq!['.', 'd', 'a', 't', '<', '>']
}

/// The separator before the post count of a `subject.txt` line.
pub open spec fn count_open() -> Seq<char> {
    seq![' ', '(']
}

/// The vertical bar of the cache format.
pub open spec fn bar() -> Seq<char> {
    seq!['|']
}

/// A post count, as `u32::from_str` reads it; zero when it does not read.
pub open spec fn count_or_zero(s: Seq<char>) -> u32 {
    match parse_unsigned(s, u32::MAX as nat) {
        Some(v) => v as u32,
        None => 0,
    }
}

fn read_count(s: &[char]) -> (r: u32)
    ensures
        r == count_or_zero(s@),
{
    match parse_unsigned_exec(s, 0xffff_ffffu64) {
        Some(v) => v as u32,
        None => 0,
    }
}

/// The thread a (trimmed) `subject.txt` line stands for: the key before the
/// first `.dat<>`, the title before the last ` (` of the trimmed rest, the
/// count after it without closing parentheses.
pub open spec fn subject_entry(line: Seq<char>) -> Option<ThreadView> {
    match split_once(line, dat_sep()) {
        Some((key, rest)) => match rsplit_once(trim(rest), count_open()) {
            Some((title, count)) => Some(
                ThreadView {
                    id: key,
                    title: trim(title),
                    post_count: count_or_zero(trim_end_char(count, ')')),
                },
            ),
            None => None,
        },
        None => None,
    }
}

/// The threads of a `subject.txt` text, newest first (the file lists the
/// oldest first).
pub open spec fn parse_subject(text: Seq<char>) -> Seq<ThreadView> {
    lines(text).filter_map(|l: Seq<char>| subject_entry(trim(l))).reverse()
}


fn subject_entry_exec(line: &[char]) -> (r: Option<ThreadItem>)
    ensures
        match r {
            Some(t) => subject_entry(line@) == Some(t@),
            None => subject_entry(line@) is None,
        },
{
    let sep = vec!['.', 'd', 'a', 't', '<', '>'];
    assert(sep@ =~= dat_sep());
    let (key, rest) = match split_once_exec(line, sep.as_slice()) {
        Some(x) => x,
        None => return None,
    };
    let rest = trim_chars(rest.as_slice());
    let open = vec![' ', '('];
    assert(open@ =~= count_open());
    let (title, count) = match rsplit_once_exec(rest.as_slice(), open.as_slice()) {
        Some(x) => x,
        None => return None,
    };
    let count = trim_end_char_chars(count.as_slice(), ')');
    let n = read_count(count.as_slice());
    let title = trim_chars(title.as_slice());
    Some(ThreadItem { id: string_of(key.as_slice()), title: string_of(title.as_slice()), post_count: n })
}

/// Reverse a vector of threads.
fn reverse_threads(v: Vec<ThreadItem>) -> (r: Vec<ThreadItem>)
    ensures
        threads_view(r@) == threads_view(v@).reverse(),
{
    let mut v = v;
    let mut r: Vec<ThreadItem> = Vec::new();
    let ghost orig = threads_view(v@);
    let n = v.len();
    while v.len() > 0
        invariant
            v@.len() + r@.len() == n,
            n == orig.len(),
            threads_view(v@) == orig.take(v@.len() as int),
            threads_view(r@) == orig.reverse().take(r@.len() as int),
        decreases v.len(),
    {
        let ghost k = v@.len();
        assert(threads_view(v@)[k - 1] == v@[k - 1]@);
        assert(orig.take(k as int)[k - 1] == orig[k - 1]);
        assert(v@[k - 1]@ == orig[k - 1]);
        let x = v.pop().unwrap();
        assert(x@ == orig[k - 1]);
        let ghost rb = threads_view(r@);
        r.push(x);
        assert(threads_view(v@) =~= orig.take(k - 1));
        assert(threads_view(r@) =~= rb.push(orig[k - 1]));
        assert(threads_view(r@) =~= orig.reverse().take(r@.len() as int));
    }
    assert(orig.reverse().take(n as int) =~= orig.reverse());
    r
}

/// The threads of a `subject.txt` text.
pub fn parse_subject_text(text: &[char]) -> (r: Vec<ThreadItem>)
    ensures
        threads_view(r@) == parse_subject(text@),
{
    let ls = lines_exec(text);
    let ghost lv = views(ls@);
    let mut out: Vec<ThreadItem> = Vec::new();
    let mut i: usize = 0;
    assert(lv.take(0) =~= Seq::<Seq<char>>::empty());
    assert(threads_view(out@) =~= Seq::<ThreadView>::empty());
    while i < ls.len()
        invariant
            lv == views(ls@),
            i <= ls@.len(),
            threads_view(out@) == lv.take(i as int).filter_map(
                |l: Seq<char>| subject_entry(trim(l)),
            ),
        decreases ls.len() - i,
    {
        assert(lv.take(i + 1).drop_last() =~= lv.take(i as int));
        assert(lv.take(i + 1).last() == ls@[i as int]@);
        let line = trim_chars(ls[i].as_slice());
        let ghost before = threads_view(out@);
        match subject_entry_exec(line.as_slice()) {
            Some(t) => {
                out.push(t);
                assert(threads_view(out@) =~= before + seq![t@]);
            },
            None => {},
        }
        i = i + 1;
    }
    assert(lv.take(ls@.len() as int) =~= lv);
    reverse_threads(out)
}

/// The threads of a board from its fetched `subject.txt` (Shift_JIS bytes).
pub fn fetch_threads(bytes: &[u8]) -> (r: Vec<ThreadItem>)
    requires
        bytes@.len() <= max_text_len(),
    ensures
        threads_view(r@) == parse_subject(shift_jis_decode(bytes@)),
{
    let text = decode_sjis(bytes);
    parse_subject_text(text.as_slice())
}

/// The address of a board's `subject.txt`.
pub open spec fn subject_url(board_url: Seq<char>) -> Seq<char> {
    trim_end_char(board_url, '/') + seq![
        '/',
        's',
        'u',
        'b',
        'j',
        'e',
        'c',
        't',
        '.',
        't',
        'x',
        't',
    ]
}

/// The address of a board's `subject.txt`.
pub fn subject_url_exec(board_url: &str) -> (r: String)
    ensures
        r@ == subject_url(board_url@),
{
    let b = chars_of(board_url);
    let mut u = trim_end_char_chars(b.as_slice(), '/');
    let tail = vec!['/', 's', 'u', 'b', 'j', 'e', 'c', 't', '.', 't', 'x', 't'];
    append_chars(&mut u, tail.as_slice());
    assert(u@ =~= subject_url(board_url@));
    string_of(u.as_slice())
}

/// The thread a (trimmed) cache line stands for: the ID before the first
/// `|`, the title up to the last `|` after it, the count after that.
pub open spec fn cache_entry(line: Seq<char>) -> Option<ThreadView> {
    match split_once(line, bar()) {
        Some((id, rest)) => match rsplit_once(rest, bar()) {
            Some((title, count)) => Some(
                ThreadView { id, title, post_count: count_or_zero(count) },
            ),
            None => None,
        },
        None => None,
    }
}

/// The threads of a thread cache text, in order.
pub open spec fn parse_threads_cache(text: Seq<char>) -> Seq<ThreadView> {
    lines(text).filter_map(|l: Seq<char>| cache_entry(trim(l)))
}

fn cache_entry_exec(line: &[char]) -> (r: Option<ThreadItem>)
    ensures
        match r {
            Some(t) => cache_entry(line@) == Some(t@),
            None => cache_entry(line@) is None,
        },
{
    let b = vec!['|'];
    assert(b@ =~= bar());
    let (id, rest) = match split_once_exec(line, b.as_slice()) {
        Some(x) => x,
        None => return None,
    };
    let (title, count) = match rsplit_once_exec(rest.as_slice(), b.as_slice()) {
        Some(x) => x,
        None => return None,
    };
    let n = read_count(count.as_slice());
    Some(ThreadItem { id: string_of(id.as_slice()), title: string_of(title.as_slice()), post_count: n })
}

/// The threads of a thread cache text.
pub fn parse_threads_cache_exec(content: &str) -> (r: Vec<ThreadItem>)
    ensures
        threads_view(r@) == parse_threads_cache(content@),
{
    let text = chars_of(content);
    let ls = lines_exec(text.as_slice());
    let ghost lv = views(ls@);
    let mut out: Vec<ThreadItem> = Vec::new();
    let mut i: usize = 0;
    assert(lv.take(0) =~= Seq::<Seq<char>>::empty());
    assert(threads_view(out@) =~= Seq::<ThreadView>::empty());
    while i < ls.len()
        invariant
            lv == views(ls@),
            i <= ls@.len(),
            threads_view(out@) == lv.take(i as int).filter_map(
                |l: Seq<char>| cache_entry(trim(l)),
            ),
        decreases ls.len() - i,
    {
        assert(lv.take(i + 1).drop_last() =~= lv.take(i as int));
        assert(lv.take(i + 1).last() == ls@[i as int]@);
        let line = trim_chars(ls[i].as_slice());
        let ghost before = threads_view(out@);
        match cache_entry_exec(line.as_slice()) {
            Some(t) => {
                out.push(t);
                assert(threads_view(out@) =~= before + seq![t@]);
            },
            None => {},
        }
        i = i + 1;
    }
    assert(lv.take(ls@.len() as int) =~= lv);
    out
}

/// The cache line of a thread: `id|title|count`.
pub open spec fn thread_cache_line(t: ThreadView) -> Seq<char> {
    t.id + bar() + t.title + bar() + decimal(t.post_count as nat)
}

/// The cache text of threads: their lines joined by newlines.
pub open spec fn threads_cache_text(ts: Seq<ThreadView>) -> Seq<char> {
    join(ts.map_values(|t: ThreadView| thread_cache_line(t)), seq!['\n'])
}

/// The cache text of threads.
pub fn threads_cache_text_exec(ts: &[ThreadItem]) -> (r: String)
    ensures
        r@ == threads_cache_text(threads_view(ts@)),
{
    let mut ls: Vec<Vec<char>> = Vec::new();
    let mut i: usize = 0;
    while i < ts.len()
        invariant
            i <= ts@.len(),
            views(ls@) == threads_view(ts@).take(i as int).map_values(
                |t: ThreadView| thread_cache_line(t),
            ),
        decreases ts.len() - i,
    {
        let t = &ts[i];
        let mut l = chars_of(t.id.as_str());
        let b = vec!['|'];
        append_chars(&mut l, b.as_slice());
        let title = chars_of(t.title.as_str());
        append_chars(&mut l, title.as_slice());
        append_chars(&mut l, b.as_slice());
        let d = decimal_exec(t.post_count as u64);
        append_chars(&mut l, d.as_slice());
        assert(l@ =~= thread_cache_line(t@));
        let ghost before = views(ls@);
        ls.push(l);
        assert(views(ls@) =~= before.push(thread_cache_line(ts@[i as int]@)));
        assert(threads_view(ts@).take(i + 1) =~= threads_view(ts@).take(i as int).push(
            ts@[i as int]@,
        ));
        i = i + 1;
    }
    assert(threads_view(ts@).take(ts@.len() as int) =~= threads_view(ts@));
    let nl = vec!['\n'];
    assert(nl@ =~= seq!['\n']);
    let t = join_exec(&ls, nl.as_slice());
    string_of(t.as_slice())
}


/// A thread the cache keeps as it is: an ID without `|` or line breaks
/// that does not start with white space, and a title without line breaks.
pub open spec fn cacheable_thread(t: ThreadView) -> bool {
    &&& free_of(t.id, '|')
    &&& free_of(t.id, '\n')
    &&& free_of(t.title, '\n')
    &&& t.id.len() > 0 ==> !is_ws(t.id[0])
}

proof fn lemma_thread_line(t: ThreadView)
    requires
        cacheable_thread(t),
    ensures
        free_of(thread_cache_line(t), '\n'),
        thread_cache_line(t).len() > 0,
        thread_cache_line(t).last() != '\r',
        cache_entry(trim(thread_cache_line(t))) == Some(t),
{
    let d = decimal(t.post_count as nat);
    lemma_decimal_digits(t.post_count as nat, u32::MAX as nat);
    let line = thread_cache_line(t);
    let rest = t.title + seq!['|'] + d;
    assert(line =~= t.id + seq!['|'] + rest);
    assert(line =~= (t.id + seq!['|'] + t.title) + seq!['|'] + d);
    assert(is_digit(d[d.len() - 1]));
    assert(line.last() == d.last());
    assert forall|i: int| 0 <= i < d.len() implies d[i] != '|' && d[i] != '\n' by {
        assert(is_digit(d[i]));
    }
    assert forall|i: int| 0 <= i < line.len() implies line[i] != '\n' by {
        if i < t.id.len() {
            assert(line[i] == t.id[i]);
        } else if i == t.id.len() {
        } else if i < t.id.len() + 1 + t.title.len() {
            assert(line[i] == t.title[i - t.id.len() - 1]);
        } else if i == t.id.len() + 1 + t.title.len() {
        } else {
            assert(line[i] == d[i - t.id.len() - 2 - t.title.len()]);
        }
    }
    if t.id.len() > 0 {
        assert(line[0] == t.id[0]);
    } else {
        assert(line[0] == '|');
    }
    lemma_trim_unchanged(line);
    lemma_split_once_char(t.id, '|', rest);
    lemma_rsplit_once_char(t.title, '|', d);
    assert(bar() =~= seq!['|']);
}

proof fn lemma_thread_lines(ts: Seq<ThreadView>)
    requires
        forall|k: int| 0 <= k < ts.len() ==> cacheable_thread(#[trigger] ts[k]),
    ensures
        ts.map_values(|t: ThreadView| thread_cache_line(t)).filter_map(
            |l: Seq<char>| cache_entry(trim(l)),
        ) == ts,
    decreases ts.len(),
{
    let ls = ts.map_values(|t: ThreadView| thread_cache_line(t));
    if ts.len() > 0 {
        let init = ts.drop_last();
        assert forall|k: int| 0 <= k < init.len() implies cacheable_thread(#[trigger] init[k]) by {
            assert(init[k] == ts[k]);
        }
        lemma_thread_lines(init);
        assert(ls.drop_last() =~= init.map_values(|t: ThreadView| thread_cache_line(t)));
        assert(ts[ts.len() - 1] == ts.last());
        lemma_thread_line(ts.last());
        assert(ls.last() == thread_cache_line(ts.last()));
        assert(init + seq![ts.last()] =~= ts);
    }
}

/// What the thread cache writes it reads back: the threads of the text of
/// cacheable threads are those threads, in the same order.
pub proof fn law_threads_cache_roundtrip(ts: Seq<ThreadView>)
    requires
        forall|k: int| 0 <= k < ts.len() ==> cacheable_thread(#[trigger] ts[k]),
    ensures
        parse_threads_cache(threads_cache_text(ts)) == ts,
{
    let ls = ts.map_values(|t: ThreadView| thread_cache_line(t));
    assert forall|k: int| 0 <= k < ls.len() implies free_of(#[trigger] ls[k], '\n') && ls[k].len()
        > 0 && ls[k].last() != '\r' by {
        lemma_thread_line(ts[k]);
    }
    lemma_lines_join(ls);
    lemma_thread_lines(ts);
}

} // verus!
