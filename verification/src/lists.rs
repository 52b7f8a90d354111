//! The order of the lists and the marks the reader keeps: favorite boards,
//! read threads, collapsed categories, and the settings file.
//!
//! A set of strings is held as a vector; it stands for the set of its
//! elements.  The list files hold one entry per line.
use vstd::prelude::*;
use vstd::string::StringExecFns;
use crate::text::{free_of, is_ws, lemma_trim_unchanged, lemma_lines_join, trim, find, lines, join, views, chars_of, string_of, trim_chars, find_exec,
    lines_exec, join_exec, eq_chars, slice_chars, append_chars};
use crate::types::{AppState, Board, ThreadItem, ThreadView, threads_view, boards_view,
    strings_view, string_set, distinct_strings};
use crate::order::{sort_boards, sort_boards_exec};

verus! {

// ---------------------------------------------------------------------------
// Sets of strings
// ---------------------------------------------------------------------------

/// Whether string `x` is in the set a vector of strings stands for.
pub fn set_contains(v: &Vec<String>, x: &String) -> (r: bool)
    ensures
        r == string_set(v@).contains(x@),
{
    let mut i: usize = 0;
    while i < v.len()
        invariant
            i <= v@.len(),
            forall|k: int| 0 <= k < i ==> v@[k]@ != x@,
        decreases v.len() - i,
    {
        if v[i] == *x {
            assert(strings_view(v@)[i as int] == x@);
            return true;
        }
        i = i + 1;
    }
    proof {
        if string_set(v@).contains(x@) {
            let k = choose|k: int| 0 <= k < strings_view(v@).len() && strings_view(v@)[k] == x@;
            assert(v@[k]@ == x@);
        }
    }
    false
}

/// A string that is not yet in a sequence without repeats can be added
/// without making a repeat.
proof fn lemma_push_distinct(s: Seq<Seq<char>>, x: Seq<char>)
    requires
        s.no_duplicates(),
        !s.contains(x),
    ensures
        s.push(x).no_duplicates(),
{
    let t = s.push(x);
    assert forall|i: int, j: int| 0 <= i < t.len() && 0 <= j < t.len() && i != j implies t[i]
        != t[j] by {
        if i == s.len() {
            assert(s[j] == t[j]);
        } else if j == s.len() {
            assert(s[i] == t[i]);
        }
    }
}

/// Add `x` to a set of strings, or remove it when present.  Returns whether
/// it was added.  A set without repeats stays without repeats.
pub fn set_toggle(v: &mut Vec<String>, x: &String) -> (added: bool)
    ensures
        added == !string_set(old(v)@).contains(x@),
        added ==> string_set(final(v)@) == string_set(old(v)@).insert(x@),
        !added ==> string_set(final(v)@) == string_set(old(v)@).remove(x@),
        distinct_strings(old(v)@) ==> distinct_strings(final(v)@),
{
    if !set_contains(v, x) {
        let ghost before = strings_view(v@);
        v.push(x.clone());
        assert(strings_view(v@) =~= before.push(x@));
        proof {
            if before.no_duplicates() {
                assert(!before.contains(x@)) by {
                    if before.contains(x@) {
                        let k = choose|k: int| 0 <= k < before.len() && before[k] == x@;
                        assert(string_set(old(v)@).contains(x@));
                    }
                }
                lemma_push_distinct(before, x@);
            }
        }
        assert(string_set(v@) =~= string_set(old(v)@).insert(x@)) by {
            assert forall|y: Seq<char>| string_set(v@).contains(y) <==> string_set(old(v)@).insert(
                x@,
            ).contains(y) by {
                if string_set(v@).contains(y) && y != x@ {
                    let k = choose|k: int| 0 <= k < strings_view(v@).len() && strings_view(v@)[k] == y;
                    assert(k < before.len());
                    assert(before[k] == y);
                }
                if string_set(old(v)@).contains(y) {
                    let k = choose|k: int| 0 <= k < before.len() && before[k] == y;
                    assert(strings_view(v@)[k] == y);
                }
                if y == x@ {
                    assert(strings_view(v@)[before.len() as int] == y);
                }
            }
        }
        return true;
    }
    let ghost orig = strings_view(v@);
    let mut nv: Vec<String> = Vec::new();
    let ghost mut src: Seq<int> = Seq::empty();
    let mut i: usize = 0;
    while i < v.len()
        invariant
            i <= v@.len(),
            v@ == old(v)@,
            orig == strings_view(v@),
            forall|k: int| 0 <= k < nv@.len() ==> (#[trigger] nv@[k])@ != x@,
            forall|k: int| 0 <= k < nv@.len() ==> orig.contains((#[trigger] nv@[k])@),
            forall|k: int| 0 <= k < i && orig[k] != x@ ==> strings_view(nv@).contains(orig[k]),
            src.len() == nv@.len(),
            forall|k: int|
                0 <= k < nv@.len() ==> 0 <= #[trigger] src[k] < i && orig[src[k]] == nv@[k]@,
            orig.no_duplicates() ==> strings_view(nv@).no_duplicates(),
        decreases v.len() - i,
    {
        if !(v[i] == *x) {
            let ghost before = strings_view(nv@);
            proof {
                if orig.no_duplicates() {
                    assert(!before.contains(orig[i as int])) by {
                        if before.contains(orig[i as int]) {
                            let k = choose|k: int| 0 <= k < before.len() && before[k] == orig[i as int];
                            assert(before[k] == nv@[k]@);
                            assert(orig[src[k]] == orig[i as int]);
                        }
                    }
                    lemma_push_distinct(before, orig[i as int]);
                }
            }
            nv.push(v[i].clone());
            proof {
                src = src.push(i as int);
            }
            assert(strings_view(nv@) =~= before.push(orig[i as int]));
            assert forall|k: int| 0 <= k < nv@.len() implies 0 <= #[trigger] src[k] < i + 1 && orig[src[k]]
                == nv@[k]@ by {
                if k < nv@.len() - 1 {
                    assert(before[k] == nv@[k]@);
                } else {
                    assert(strings_view(nv@)[k] == orig[i as int]);
                }
            }
            assert(strings_view(nv@)[nv@.len() - 1] == orig[i as int]);
            assert forall|k: int| 0 <= k < i + 1 && orig[k] != x@ implies strings_view(nv@).contains(
                orig[k],
            ) by {
                if k < i {
                    let j = choose|j: int| 0 <= j < before.len() && before[j] == orig[k];
                    assert(strings_view(nv@)[j] == orig[k]);
                }
            }
        }
        i = i + 1;
    }
    *v = nv;
    assert(string_set(v@) =~= string_set(old(v)@).remove(x@)) by {
        assert forall|y: Seq<char>| string_set(v@).contains(y) <==> string_set(old(v)@).remove(
            x@,
        ).contains(y) by {
            if string_set(v@).contains(y) {
                let k = choose|k: int| 0 <= k < strings_view(v@).len() && strings_view(v@)[k] == y;
                assert(v@[k]@ == y);
            }
            if string_set(old(v)@).remove(x@).contains(y) {
                let k = choose|k: int| 0 <= k < orig.len() && orig[k] == y;
            }
        }
    }
    false
}

/// Add `x` to a set of strings (nothing changes when it is there).  A set
/// without repeats stays without repeats.
pub fn set_insert(v: &mut Vec<String>, x: String)
    ensures
        string_set(final(v)@) == string_set(old(v)@).insert(x@),
        distinct_strings(old(v)@) ==> distinct_strings(final(v)@),
{
    if !set_contains(v, &x) {
        let ghost before = strings_view(v@);
        let ghost xv = x@;
        v.push(x);
        assert(strings_view(v@) =~= before + seq![xv]);
        proof {
            Seq::lemma_to_set_insert_commutes(before, xv);
            if before.no_duplicates() {
                assert(!before.contains(xv)) by {
                    if before.contains(xv) {
                        let k = choose|k: int| 0 <= k < before.len() && before[k] == xv;
                        assert(string_set(old(v)@).contains(xv));
                    }
                }
                lemma_push_distinct(before, xv);
                assert(before.push(xv) =~= before + seq![xv]);
            }
        }
    } else {
        assert(string_set(v@) =~= string_set(v@).insert(x@));
    }
}


// ---------------------------------------------------------------------------
// The order of the lists
// ---------------------------------------------------------------------------

/// The key a read thread is remembered by: `<board address>|<thread key>`.
pub open spec fn read_key(board_url: Seq<char>, id: Seq<char>) -> Seq<char> {
    board_url + seq!['|'] + id
}

/// The threads of `s` whose read mark is `want`, in order.
pub open spec fn read_part(
    read: Set<Seq<char>>,
    board_url: Seq<char>,
    s: Seq<ThreadView>,
    want: bool,
) -> Seq<ThreadView>
    decreases s.len(),
{
    if s.len() == 0 {
        s
    } else {
        let r = read_part(read, board_url, s.drop_last(), want);
        if read.contains(read_key(board_url, s.last().id)) == want {
            r.push(s.last())
        } else {
            r
        }
    }
}

/// The threads with the read ones first, each part in its former order.
pub open spec fn read_first(read: Set<Seq<char>>, board_url: Seq<char>, s: Seq<ThreadView>) -> Seq<
    ThreadView,
> {
    read_part(read, board_url, s, true) + read_part(read, board_url, s, false)
}

/// The threads of `s` whose read mark is `want`, in order, are the ones
/// `Seq::filter` keeps.
proof fn lemma_read_part_filter(read: Set<Seq<char>>, board_url: Seq<char>, s: Seq<ThreadView>, want: bool)
    ensures
        read_part(read, board_url, s, want) == s.filter(
            |t: ThreadView| read.contains(read_key(board_url, t.id)) == want,
        ),
    decreases s.len(),
{
    reveal(Seq::filter);
    if s.len() > 0 {
        lemma_read_part_filter(read, board_url, s.drop_last(), want);
    }
}

proof fn lemma_read_parts_multiset(read: Set<Seq<char>>, board_url: Seq<char>, s: Seq<ThreadView>)
    ensures
        (read_part(read, board_url, s, true) + read_part(read, board_url, s, false)).to_multiset()
            =~= s.to_multiset(),
    decreases s.len(),
{
    broadcast use vstd::seq_lib::group_to_multiset_ensures;
    broadcast use vstd::multiset::group_multiset_axioms;

    if s.len() > 0 {
        lemma_read_parts_multiset(read, board_url, s.drop_last());
        let a = read_part(read, board_url, s.drop_last(), true);
        let b = read_part(read, board_url, s.drop_last(), false);
        let x = s.last();
        assert(s.drop_last().push(x) =~= s);
        vstd::seq_lib::lemma_multiset_commutative(a, b);
        if read.contains(read_key(board_url, x.id)) {
            vstd::seq_lib::lemma_multiset_commutative(a.push(x), b);
            assert(a.push(x).to_multiset().add(b.to_multiset()) =~= a.to_multiset().add(
                b.to_multiset(),
            ).insert(x));
        } else {
            assert(a + b.push(x) =~= (a + b).push(x));
        }
    }
}

/// Putting the read threads first keeps every thread exactly once; the
/// read ones come first and the unread ones after them, each part in its
/// former order.
pub proof fn law_read_first(read: Set<Seq<char>>, board_url: Seq<char>, s: Seq<ThreadView>)
    ensures
        read_first(read, board_url, s).to_multiset() == s.to_multiset(),
        read_first(read, board_url, s) == s.filter(
            |t: ThreadView| read.contains(read_key(board_url, t.id)),
        ) + s.filter(|t: ThreadView| !read.contains(read_key(board_url, t.id))),
{
    lemma_read_parts_multiset(read, board_url, s);
    lemma_read_part_filter(read, board_url, s, true);
    lemma_read_part_filter(read, board_url, s, false);
    let p1 = |t: ThreadView| read.contains(read_key(board_url, t.id)) == true;
    let q1 = |t: ThreadView| read.contains(read_key(board_url, t.id));
    let p0 = |t: ThreadView| read.contains(read_key(board_url, t.id)) == false;
    let q0 = |t: ThreadView| !read.contains(read_key(board_url, t.id));
    assert(p1 =~= q1);
    assert(p0 =~= q0);
    assert(s.filter(|t: ThreadView| read.contains(read_key(board_url, t.id)) == true) =~= s.filter(
        |t: ThreadView| read.contains(read_key(board_url, t.id)),
    ));
    assert(s.filter(|t: ThreadView| read.contains(read_key(board_url, t.id)) == false) =~= s.filter(
        |t: ThreadView| !read.contains(read_key(board_url, t.id)),
    ));
}

/// A copy of a character vector.
fn copy_chars(v: &Vec<char>) -> (r: Vec<char>)
    ensures
        r@ == v@,
{
    let r = slice_chars(v.as_slice(), 0, v.len());
    assert(r@ =~= v@);
    r
}

impl AppState {
    /// The board address read threads are keyed by: the open board's, or
    /// empty.
    pub open spec fn board_key(&self) -> Seq<char> {
        match self.current_board_url {
            Some(u) => u@,
            None => Seq::empty(),
        }
    }

    /// Put the read threads of the open board first, keeping the order of
    /// the threads otherwise.
    pub fn sort_threads_with_read(&mut self)
        ensures
            *final(self) == (AppState { threads: final(self).threads, ..*old(self) }),
            threads_view(final(self).threads@) == read_first(
                string_set(old(self).read_threads@),
                old(self).board_key(),
                threads_view(old(self).threads@),
            ),
    {
        let url: Vec<char> = match &self.current_board_url {
            Some(u) => chars_of(u.as_str()),
            None => Vec::new(),
        };
        let mut rest: Vec<ThreadItem> = Vec::new();
        std::mem::swap(&mut rest, &mut self.threads);
        let ghost orig = threads_view(rest@);
        let ghost rs = string_set(self.read_threads@);
        let n = rest.len();
        let mut read_v: Vec<ThreadItem> = Vec::new();
        let mut unread_v: Vec<ThreadItem> = Vec::new();
        assert(orig.take(0) =~= Seq::<ThreadView>::empty());
        assert(orig.skip(0) =~= orig);
        while rest.len() > 0
            invariant
                url@ == old(self).board_key(),
                *self == (AppState { threads: self.threads, ..*old(self) }),
                rs == string_set(self.read_threads@),
                rs == string_set(old(self).read_threads@),
                orig == threads_view(old(self).threads@),
                n == orig.len(),
                rest@.len() <= n,
                threads_view(rest@) == orig.skip(n - rest@.len()),
                threads_view(read_v@) == read_part(rs, url@, orig.take(n - rest@.len()), true),
                threads_view(unread_v@) == read_part(rs, url@, orig.take(n - rest@.len()), false),
            decreases rest.len(),
        {
            let ghost k = n - rest@.len();
            assert(threads_view(rest@)[0] == rest@[0]@);
            let ghost old_rest = rest@;
            let t = rest.remove(0);
            assert(t@ == orig[k]);
            assert(rest@ =~= old_rest.subrange(1, old_rest.len() as int));
            assert forall|m: int| 0 <= m < rest@.len() implies #[trigger] threads_view(rest@)[m]
                == orig.skip(k + 1)[m] by {
                assert(threads_view(old_rest)[m + 1] == old_rest[m + 1]@);
                assert(orig.skip(k)[m + 1] == orig.skip(k + 1)[m]);
            }
            assert(threads_view(rest@) =~= orig.skip(k + 1));
            assert(orig.take(k + 1).drop_last() =~= orig.take(k));
            assert(orig.take(k + 1).last() == orig[k]);
            let mut key = copy_chars(&url);
            key.push('|');
            let idv = chars_of(t.id.as_str());
            append_chars(&mut key, idv.as_slice());
            let ks = string_of(key.as_slice());
            assert(ks@ =~= read_key(url@, t@.id));
            let ghost rb = threads_view(read_v@);
            let ghost ub = threads_view(unread_v@);
            if set_contains(&self.read_threads, &ks) {
                read_v.push(t);
                assert(threads_view(read_v@) =~= rb.push(orig[k]));
            } else {
                unread_v.push(t);
                assert(threads_view(unread_v@) =~= ub.push(orig[k]));
            }
        }
        assert(orig.take(n as int) =~= orig);
        let ghost rv = read_v@;
        let ghost uv = unread_v@;
        read_v.append(&mut unread_v);
        assert(threads_view(read_v@) =~= threads_view(rv) + threads_view(uv));
        self.threads = read_v;
    }

    /// Sort the boards favorites first, then by category and name, and
    /// recompute the search matches over the new order.
    pub fn sort_boards_with_favorites(&mut self)
        ensures
            *final(self) == (AppState {
                boards: final(self).boards,
                search_matches: final(self).search_matches,
                ..*old(self)
            }),
            boards_view(final(self).boards@) == sort_boards(
                string_set(old(self).favorites@),
                true,
                boards_view(old(self).boards@),
            ),
            final(self).search_matches@ == final(self).computed_matches(),
    {
        let mut b: Vec<Board> = Vec::new();
        std::mem::swap(&mut b, &mut self.boards);
        let sorted = sort_boards_exec(b, &self.favorites, true);
        self.boards = sorted;
        let m = self.compute_matches();
        let ghost mid = *self;
        self.search_matches = m;
        proof {
            Self::lemma_matches_frame(
                &mid,
                self,
                crate::image::unicode_lowercase(self.search_query@),
                self.list_len() as int,
            );
        }
    }

    /// Collapse every category: the collapsed categories become the
    /// categories of the boards.
    pub fn collapse_all_categories(&mut self)
        ensures
            *final(self) == (AppState {
                collapsed_categories: final(self).collapsed_categories,
                ..*old(self)
            }),
            string_set(final(self).collapsed_categories@) == boards_view(
                old(self).boards@,
            ).map_values(|b: crate::types::BoardView| b.category).to_set(),
            distinct_strings(final(self).collapsed_categories@),
    {
        let mut cats: Vec<String> = Vec::new();
        let ghost cat_of = |b: crate::types::BoardView| b.category;
        assert(strings_view(cats@) =~= Seq::<Seq<char>>::empty());
        assert(boards_view(self.boards@).take(0).map_values(cat_of) =~= Seq::<Seq<char>>::empty());
        let mut i: usize = 0;
        while i < self.boards.len()
            invariant
                i <= self.boards@.len(),
                *self == *old(self),
                cat_of == (|b: crate::types::BoardView| b.category),
                string_set(cats@) == boards_view(self.boards@).take(i as int).map_values(
                    cat_of,
                ).to_set(),
                distinct_strings(cats@),
            decreases self.boards.len() - i,
        {
            let ghost before = boards_view(self.boards@).take(i as int).map_values(cat_of);
            set_insert(&mut cats, self.boards[i].category.clone());
            assert(boards_view(self.boards@).take(i + 1).map_values(cat_of) =~= before.push(
                self.boards@[i as int].category@,
            ));
            proof {
                Seq::lemma_to_set_insert_commutes(before, self.boards@[i as int].category@);
                assert(before.push(self.boards@[i as int].category@) =~= before + seq![
                    self.boards@[i as int].category@,
                ]);
            }
            i = i + 1;
        }
        assert(boards_view(self.boards@).take(self.boards@.len() as int) =~= boards_view(
            self.boards@,
        ));
        self.collapsed_categories = cats;
    }
}

// ---------------------------------------------------------------------------
// List files and the settings file
// ---------------------------------------------------------------------------

/// The entry a line of a list file gives: the trimmed line, when not empty.
pub open spec fn list_entry(l: Seq<char>) -> Option<Seq<char>> {
    if trim(l).len() > 0 {
        Some(trim(l))
    } else {
        None
    }
}

/// The entries of a list file, in order.
pub open spec fn list_entries(text: Seq<char>) -> Seq<Seq<char>> {
    lines(text).filter_map(|l: Seq<char>| list_entry(l))
}

/// The text of a list file: the entries, one per line.
pub open spec fn list_text(v: Seq<String>) -> Seq<char> {
    join(strings_view(v), seq!['\n'])
}

/// Add the entries of a list file to a set of strings.
fn add_list_entries(v: &mut Vec<String>, content: &str)
    ensures
        string_set(final(v)@) == string_set(old(v)@) + list_entries(content@).to_set(),
        distinct_strings(old(v)@) ==> distinct_strings(final(v)@),
{
    let text = chars_of(content);
    let ls = lines_exec(text.as_slice());
    let ghost lv = views(ls@);
    let mut i: usize = 0;
    assert(lv.take(0) =~= Seq::<Seq<char>>::empty());
    assert(string_set(v@) =~= string_set(v@) + Seq::<Seq<char>>::empty().to_set());
    while i < ls.len()
        invariant
            lv == views(ls@),
            lv == lines(content@),
            i <= ls@.len(),
            string_set(v@) == string_set(old(v)@) + lv.take(i as int).filter_map(
                |l: Seq<char>| list_entry(l),
            ).to_set(),
            distinct_strings(old(v)@) ==> distinct_strings(v@),
        decreases ls.len() - i,
    {
        assert(lv.take(i + 1).drop_last() =~= lv.take(i as int));
        assert(lv.take(i + 1).last() == ls@[i as int]@);
        let ghost before = lv.take(i as int).filter_map(|l: Seq<char>| list_entry(l));
        let t = trim_chars(ls[i].as_slice());
        if t.len() > 0 {
            let ghost tv = t@;
            set_insert(v, string_of(t.as_slice()));
            proof {
                Seq::lemma_to_set_insert_commutes(before, tv);
            }
            assert(string_set(v@) =~= string_set(old(v)@) + (before + seq![tv]).to_set());
        }
        i = i + 1;
    }
    assert(lv.take(ls@.len() as int) =~= lv);
}

/// The text of a list file for a set of strings.
fn list_text_exec(v: &Vec<String>) -> (r: String)
    ensures
        r@ == list_text(v@),
{
    let mut ls: Vec<Vec<char>> = Vec::new();
    let mut i: usize = 0;
    while i < v.len()
        invariant
            i <= v@.len(),
            views(ls@) == strings_view(v@).take(i as int),
        decreases v.len() - i,
    {
        let ghost before = views(ls@);
        ls.push(chars_of(v[i].as_str()));
        assert(views(ls@) =~= before.push(v@[i as int]@));
        assert(strings_view(v@).take(i + 1) =~= strings_view(v@).take(i as int).push(v@[i as int]@));
        i = i + 1;
    }
    assert(strings_view(v@).take(v@.len() as int) =~= strings_view(v@));
    let nl = vec!['\n'];
    assert(nl@ =~= seq!['\n']);
    let t = join_exec(&ls, nl.as_slice());
    string_of(t.as_slice())
}

/// The setting `show_images` a line of the settings file gives, if any:
/// a trimmed line, not empty and not a comment, `key=value` with the key
/// `show_images` (both sides trimmed); any value but `false` turns it on.
pub open spec fn config_line(l: Seq<char>) -> Option<bool> {
    let t = trim(l);
    if t.len() == 0 || t[0] == '#' {
        None
    } else {
        match find(t, seq!['=']) {
            Some(eq) => if trim(t.take(eq)) == "show_images"@ {
                Some(trim(t.skip(eq + 1)) != "false"@)
            } else {
                None
            },
            None => None,
        }
    }
}

/// The setting `show_images` after the lines `ls`, from `current`: the
/// last line that sets it wins.
pub open spec fn config_show_images(ls: Seq<Seq<char>>, current: bool) -> bool
    decreases ls.len(),
{
    if ls.len() == 0 {
        current
    } else {
        match config_line(ls.last()) {
            Some(v) => v,
            None => config_show_images(ls.drop_last(), current),
        }
    }
}

fn config_line_exec(l: &[char]) -> (r: Option<bool>)
    ensures
        r == config_line(l@),
{
    let t = trim_chars(l);
    if t.len() == 0 || t[0] == '#' {
        return None;
    }
    let eqs = vec!['='];
    assert(eqs@ =~= seq!['=']);
    match find_exec(t.as_slice(), eqs.as_slice()) {
        Some(eq) => {
            proof {
                crate::text::lemma_find_from_occurs(t@, seq!['='], 0);
            }
            let k = slice_chars(t.as_slice(), 0, eq);
            assert(k@ =~= t@.take(eq as int));
            let key = trim_chars(k.as_slice());
            let name = chars_of("show_images");
            if !eq_chars(key.as_slice(), name.as_slice()) {
                return None;
            }
            let vs = slice_chars(t.as_slice(), eq + 1, t.len());
            assert(vs@ =~= t@.skip(eq + 1));
            let val = trim_chars(vs.as_slice());
            let f = chars_of("false");
            Some(!eq_chars(val.as_slice(), f.as_slice()))
        },
        None => None,
    }
}

/// The text of the settings file: `show_images=true` or
/// `show_images=false`, and a newline.
pub open spec fn config_text(show: bool) -> Seq<char> {
    "show_images="@ + (if show {
        "true"@
    } else {
        "false"@
    }) + "\n"@
}

/// An entry a list file keeps as it is: not empty, not starting or ending
/// with white space, without line breaks.
pub open spec fn listable(e: Seq<char>) -> bool {
    &&& e.len() > 0
    &&& !is_ws(e[0])
    &&& !is_ws(e.last())
    &&& free_of(e, '\n')
}

proof fn lemma_list_entries_of(ls: Seq<Seq<char>>)
    requires
        forall|k: int| 0 <= k < ls.len() ==> listable(#[trigger] ls[k]),
    ensures
        ls.filter_map(|l: Seq<char>| list_entry(l)) == ls,
    decreases ls.len(),
{
    if ls.len() > 0 {
        let init = ls.drop_last();
        assert forall|k: int| 0 <= k < init.len() implies listable(#[trigger] init[k]) by {
            assert(init[k] == ls[k]);
        }
        lemma_list_entries_of(init);
        assert(ls[ls.len() - 1] == ls.last());
        lemma_trim_unchanged(ls.last());
        assert(init + seq![ls.last()] =~= ls);
    }
}

/// What a list file writes it reads back: the entries of the text of
/// listable entries are those entries, in order, so reading the saved
/// favorites or read threads into an empty set gives the same set.
pub proof fn law_list_file_roundtrip(v: Seq<String>)
    requires
        forall|k: int| 0 <= k < v.len() ==> listable(#[trigger] v[k]@),
    ensures
        list_entries(list_text(v)) == strings_view(v),
        list_entries(list_text(v)).to_set() == string_set(v),
{
    let ls = strings_view(v);
    assert forall|k: int| 0 <= k < ls.len() implies listable(#[trigger] ls[k]) by {
        assert(ls[k] == v[k]@);
    }
    assert forall|k: int| 0 <= k < ls.len() implies free_of(#[trigger] ls[k], '\n') && ls[k].len()
        > 0 && ls[k].last() != '\r' by {
        assert(listable(ls[k]));
        assert(is_ws('\r'));
    }
    lemma_lines_join(ls);
    lemma_list_entries_of(ls);
}

/// What the settings file writes it reads back: reading the text of a
/// setting gives that setting, whatever it was before.
pub proof fn law_config_roundtrip(show: bool, current: bool)
    ensures
        config_show_images(lines(config_text(show)), current) == show,
{
    reveal_strlit("show_images=");
    reveal_strlit("true");
    reveal_strlit("false");
    reveal_strlit("\n");
    reveal_strlit("show_images");
    let key = "show_images"@;
    let val = if show {
        "true"@
    } else {
        "false"@
    };
    let l = key + seq!['='] + val;
    assert("show_images="@ =~= key + seq!['=']);
    assert(config_text(show) =~= l + seq!['\n']);
    assert(free_of(l, '\n')) by {
        assert forall|i: int| 0 <= i < l.len() implies l[i] != '\n' by {
            if i < 11 {
                assert(l[i] == key[i]);
            } else if i > 11 {
                assert(l[i] == val[i - 12]);
            }
        }
    }
    crate::text::lemma_split_char_append_free_pub(Seq::empty(), l, '\n');
    assert(Seq::<char>::empty() + l =~= l);
    assert((l + seq!['\n']).drop_last() =~= l);
    assert(lines(config_text(show)) =~= seq![l]);
    assert(free_of(key, '=')) by {
        assert forall|i: int| 0 <= i < key.len() implies key[i] != '=' by {
        }
    }
    crate::text::lemma_find_char(key, '=', val);
    lemma_trim_unchanged(l);
    lemma_trim_unchanged(key);
    lemma_trim_unchanged(val);
    assert(l.take(11) =~= key);
    assert(l.skip(12) =~= val);
    assert(seq![l].drop_last() =~= Seq::<Seq<char>>::empty());
}

impl AppState {
    /// Read the settings file.
    pub fn load_config(&mut self, content: &str)
        ensures
            *final(self) == (AppState {
                show_images: config_show_images(lines(content@), old(self).show_images),
                ..*old(self)
            }),
    {
        let text = chars_of(content);
        let ls = lines_exec(text.as_slice());
        let ghost lv = views(ls@);
        let mut i: usize = 0;
        assert(lv.take(0) =~= Seq::<Seq<char>>::empty());
        while i < ls.len()
            invariant
                lv == views(ls@),
                lv == lines(content@),
                i <= ls@.len(),
                *self == (AppState {
                    show_images: config_show_images(lv.take(i as int), old(self).show_images),
                    ..*old(self)
                }),
            decreases ls.len() - i,
        {
            assert(lv.take(i + 1).drop_last() =~= lv.take(i as int));
            assert(lv.take(i + 1).last() == ls@[i as int]@);
            match config_line_exec(ls[i].as_slice()) {
                Some(v) => {
                    self.show_images = v;
                },
                None => {},
            }
            i = i + 1;
        }
        assert(lv.take(ls@.len() as int) =~= lv);
    }

    /// The text of the settings file.
    pub fn save_config(&self) -> (r: String)
        ensures
            r@ == config_text(self.show_images),
    {
        let mut out = String::from_str("show_images=");
        if self.show_images {
            out.append("true");
        } else {
            out.append("false");
        }
        out.append("\n");
        out
    }

    /// Add the threads of a read-threads file to the read ones.
    pub fn load_read_threads(&mut self, content: &str)
        ensures
            *final(self) == (AppState { read_threads: final(self).read_threads, ..*old(self) }),
            string_set(final(self).read_threads@) == string_set(old(self).read_threads@)
                + list_entries(content@).to_set(),
            distinct_strings(old(self).read_threads@) ==> distinct_strings(final(self).read_threads@),
    {
        add_list_entries(&mut self.read_threads, content);
    }

    /// The text of the read-threads file.
    pub fn save_read_threads(&self) -> (r: String)
        ensures
            r@ == list_text(self.read_threads@),
    {
        list_text_exec(&self.read_threads)
    }

    /// Add the boards of a favorites file to the favorites.
    pub fn load_favorites(&mut self, content: &str)
        ensures
            *final(self) == (AppState { favorites: final(self).favorites, ..*old(self) }),
            string_set(final(self).favorites@) == string_set(old(self).favorites@)
                + list_entries(content@).to_set(),
            distinct_strings(old(self).favorites@) ==> distinct_strings(final(self).favorites@),
    {
        add_list_entries(&mut self.favorites, content);
    }

    /// The text of the favorites file.
    pub fn save_favorites(&self) -> (r: String)
        ensures
            r@ == list_text(self.favorites@),
    {
        list_text_exec(&self.favorites)
    }
}

} // verus!
