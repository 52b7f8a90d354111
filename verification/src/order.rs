//! Orders on text and the stable sorting of boards.
//!
//! `String`'s order is the lexicographic order of its UTF-8 bytes, which is
//! the lexicographic order of its characters by code point; that is the
//! order used here.
use vstd::prelude::*;
use crate::types::{Board, BoardView, boards_view, strings_view, string_set};

verus! {

/// `a` comes strictly before `b` in lexicographic order by code point.
pub open spec fn text_lt(a: Seq<char>, b: Seq<char>) -> bool
    decreases a.len(),
{
    if a.len() == 0 {
        b.len() > 0
    } else if b.len() == 0 {
        false
    } else if a[0] != b[0] {
        a[0] < b[0]
    } else {
        text_lt(a.drop_first(), b.drop_first())
    }
}

/// Three-way comparison result.
#[derive(Debug, Clone, Copy, PartialEq, Eq, Structural)]
pub enum Rank {
    Before,
    Same,
    After,
}

/// Compare two texts lexicographically.
pub fn compare_text(a: &[char], b: &[char]) -> (r: Rank)
    ensures
        r == Rank::Before <==> text_lt(a@, b@),
        r == Rank::After <==> text_lt(b@, a@),
        r == Rank::Same <==> a@ == b@,
{
    let mut i: usize = 0;
    proof {
        assert(a@.skip(0) =~= a@);
        assert(b@.skip(0) =~= b@);
    }
    while i < a.len() && i < b.len() && a[i] == b[i]
        invariant
            i <= a@.len(),
            i <= b@.len(),
            a@.take(i as int) == b@.take(i as int),
            text_lt(a@, b@) == text_lt(a@.skip(i as int), b@.skip(i as int)),
            text_lt(b@, a@) == text_lt(b@.skip(i as int), a@.skip(i as int)),
        decreases a.len() - i,
    {
        assert(a@.skip(i as int).drop_first() =~= a@.skip(i + 1));
        assert(b@.skip(i as int).drop_first() =~= b@.skip(i + 1));
        assert(a@.take(i + 1) =~= a@.take(i as int).push(a@[i as int]));
        assert(b@.take(i + 1) =~= b@.take(i as int).push(b@[i as int]));
        i = i + 1;
    }
    let ghost sa = a@.skip(i as int);
    let ghost sb = b@.skip(i as int);
    if i == a.len() && i == b.len() {
        assert(a@ =~= a@.take(i as int));
        assert(b@ =~= b@.take(i as int));
        Rank::Same
    } else if i == a.len() {
        proof {
            if a@ == b@ {
                assert(a@.len() == b@.len());
            }
        }
        Rank::Before
    } else if i == b.len() {
        proof {
            if a@ == b@ {
                assert(a@.len() == b@.len());
            }
        }
        Rank::After
    } else {
        assert(sa[0] == a@[i as int] && sb[0] == b@[i as int]);
        assert(a@[i as int] != b@[i as int]);
        proof {
            if a@ == b@ {
                assert(a@[i as int] == b@[i as int]);
            }
        }
        if a[i] < b[i] {
            Rank::Before
        } else {
            Rank::After
        }
    }
}

/// `a` sorts strictly after `b`: by name only, or (favorites first) by
/// favorite mark, then category, then name.
pub open spec fn board_after(favs: Set<Seq<char>>, by_fav: bool, a: BoardView, b: BoardView) -> bool {
    if by_fav {
        let fa = favs.contains(a.url);
        let fb = favs.contains(b.url);
        ||| (!fa && fb)
        ||| (fa == fb && text_lt(b.category, a.category))
        ||| (fa == fb && a.category == b.category && text_lt(b.name, a.name))
    } else {
        text_lt(b.name, a.name)
    }
}

/// The first position of `sorted` (from `j` on) holding a board that sorts
/// after `x`, or the length.
pub open spec fn insert_pos_from(
    favs: Set<Seq<char>>,
    by_fav: bool,
    sorted: Seq<BoardView>,
    x: BoardView,
    j: int,
) -> int
    decreases sorted.len() - j,
{
    if j >= sorted.len() {
        sorted.len() as int
    } else if board_after(favs, by_fav, sorted[j], x) {
        j
    } else {
        insert_pos_from(favs, by_fav, sorted, x, j + 1)
    }
}

/// Stable insertion sort: each board goes after every board it does not
/// sort before.
pub open spec fn sort_boards(favs: Set<Seq<char>>, by_fav: bool, s: Seq<BoardView>) -> Seq<BoardView>
    decreases s.len(),
{
    if s.len() == 0 {
        s
    } else {
        let r = sort_boards(favs, by_fav, s.drop_last());
        let x = s.last();
        let pos = insert_pos_from(favs, by_fav, r, x, 0);
        r.insert(pos, x)
    }
}

/// Sorting keeps the number of boards.
pub proof fn lemma_sort_len(favs: Set<Seq<char>>, by_fav: bool, s: Seq<BoardView>)
    ensures
        sort_boards(favs, by_fav, s).len() == s.len(),
    decreases s.len(),
{
    if s.len() > 0 {
        lemma_sort_len(favs, by_fav, s.drop_last());
        lemma_insert_pos_bounds(favs, by_fav, sort_boards(favs, by_fav, s.drop_last()), s.last(), 0);
    }
}

/// The insertion position lies within the sorted boards.
pub proof fn lemma_insert_pos_bounds(
    favs: Set<Seq<char>>,
    by_fav: bool,
    sorted: Seq<BoardView>,
    x: BoardView,
    j: int,
)
    requires
        0 <= j,
    ensures
        j <= insert_pos_from(favs, by_fav, sorted, x, j) <= sorted.len() || (j > sorted.len()
            && insert_pos_from(favs, by_fav, sorted, x, j) == sorted.len()),
    decreases sorted.len() - j,
{
    if j < sorted.len() && !board_after(favs, by_fav, sorted[j], x) {
        lemma_insert_pos_bounds(favs, by_fav, sorted, x, j + 1);
    }
}

/// `a` sorts strictly after `b` (executable).
fn board_after_exec(favs: &Vec<String>, by_fav: bool, a: &Board, b: &Board) -> (r: bool)
    ensures
        r == board_after(string_set(favs@), by_fav, a@, b@),
{
    let an = crate::text::chars_of(a.name.as_str());
    let bn = crate::text::chars_of(b.name.as_str());
    let names = compare_text(an.as_slice(), bn.as_slice());
    if by_fav {
        let fa = crate::lists::set_contains(favs, &a.url);
        let fb = crate::lists::set_contains(favs, &b.url);
        if !fa && fb {
            return true;
        }
        if fa != fb {
            return false;
        }
        let ac = crate::text::chars_of(a.category.as_str());
        let bc = crate::text::chars_of(b.category.as_str());
        let cats = compare_text(ac.as_slice(), bc.as_slice());
        match cats {
            Rank::After => true,
            Rank::Before => false,
            Rank::Same => names == Rank::After,
        }
    } else {
        names == Rank::After
    }
}

/// Stable sort of boards, by name or by favorite mark, category and name.
pub fn sort_boards_exec(boards: Vec<Board>, favs: &Vec<String>, by_fav: bool) -> (r: Vec<Board>)
    ensures
        boards_view(r@) == sort_boards(string_set(favs@), by_fav, boards_view(boards@)),
{
    let ghost orig = boards_view(boards@);
    let ghost fs = string_set(favs@);
    let mut rest = boards;
    let mut sorted: Vec<Board> = Vec::new();
    let n = rest.len();
    assert(orig.take(0) =~= Seq::<BoardView>::empty());
    while rest.len() > 0
        invariant
            orig == boards_view(boards@),
            fs == string_set(favs@),
            n == orig.len(),
            rest@.len() <= n,
            boards_view(rest@) == orig.skip(n - rest@.len()),
            boards_view(sorted@) == sort_boards(fs, by_fav, orig.take(n - rest@.len())),
        decreases rest.len(),
    {
        let ghost k = n - rest@.len();
        assert(boards_view(rest@)[0] == rest@[0]@);
        let ghost old_rest = rest@;
        let x = rest.remove(0);
        assert(x@ == orig[k]);
        assert(rest@ =~= old_rest.subrange(1, old_rest.len() as int));
        assert forall|m: int| 0 <= m < rest@.len() implies #[trigger] boards_view(rest@)[m] == orig.skip(k + 1)[m] by {
            assert(boards_view(old_rest)[m + 1] == old_rest[m + 1]@);
            assert(orig.skip(k)[m + 1] == orig.skip(k + 1)[m]);
        }
        assert(boards_view(rest@) =~= orig.skip(k + 1));
        let mut j: usize = 0;
        let ghost sv = boards_view(sorted@);
        proof {
            lemma_sort_len(fs, by_fav, orig.take(k));
        }
        while j < sorted.len() && !board_after_exec(favs, by_fav, &sorted[j], &x)
            invariant
                j <= sorted@.len(),
                sv == boards_view(sorted@),
                fs == string_set(favs@),
                insert_pos_from(fs, by_fav, sv, x@, 0) == insert_pos_from(fs, by_fav, sv, x@, j as int),
            decreases sorted.len() - j,
        {
            assert(sv[j as int] == sorted@[j as int]@);
            j = j + 1;
        }
        proof {
            if j < sorted@.len() {
                assert(sv[j as int] == sorted@[j as int]@);
            }
            assert(insert_pos_from(fs, by_fav, sv, x@, j as int) == j);
            assert(orig.take(k + 1).drop_last() =~= orig.take(k));
            assert(orig.take(k + 1).last() == orig[k]);
        }
        sorted.insert(j, x);
        assert(boards_view(sorted@) =~= sv.insert(j as int, orig[k]));
    }
    assert(orig.take(n as int) =~= orig);
    sorted
}

/// Text order is transitive.
pub proof fn lemma_text_lt_transitive(a: Seq<char>, b: Seq<char>, c: Seq<char>)
    requires
        text_lt(a, b),
        text_lt(b, c),
    ensures
        text_lt(a, c),
    decreases a.len(),
{
    if a.len() > 0 && b.len() > 0 && c.len() > 0 && a[0] == b[0] && b[0] == c[0] {
        lemma_text_lt_transitive(a.drop_first(), b.drop_first(), c.drop_first());
    }
}

/// Text order is irreflexive.
pub proof fn lemma_text_lt_irreflexive(a: Seq<char>)
    ensures
        !text_lt(a, a),
    decreases a.len(),
{
    if a.len() > 0 {
        lemma_text_lt_irreflexive(a.drop_first());
    }
}

/// The board order is transitive.
pub proof fn lemma_board_after_transitive(
    favs: Set<Seq<char>>,
    by_fav: bool,
    a: BoardView,
    b: BoardView,
    c: BoardView,
)
    requires
        board_after(favs, by_fav, a, b),
        board_after(favs, by_fav, b, c),
    ensures
        board_after(favs, by_fav, a, c),
{
    if by_fav {
        if text_lt(c.category, b.category) && text_lt(b.category, a.category) {
            lemma_text_lt_transitive(c.category, b.category, a.category);
        }
        if text_lt(c.name, b.name) && text_lt(b.name, a.name) {
            lemma_text_lt_transitive(c.name, b.name, a.name);
        }
    } else {
        lemma_text_lt_transitive(c.name, b.name, a.name);
    }
}

/// No board sorts after a later one.
pub open spec fn sorted_boards(favs: Set<Seq<char>>, by_fav: bool, s: Seq<BoardView>) -> bool {
    forall|i: int, j: int| 0 <= i < j < s.len() ==> !board_after(favs, by_fav, #[trigger] s[i], #[trigger] s[j])
}

proof fn lemma_insert_pos_properties(
    favs: Set<Seq<char>>,
    by_fav: bool,
    sorted: Seq<BoardView>,
    x: BoardView,
    j: int,
)
    requires
        0 <= j <= sorted.len(),
        forall|k: int| 0 <= k < j ==> !board_after(favs, by_fav, #[trigger] sorted[k], x),
    ensures
        ({
            let p = insert_pos_from(favs, by_fav, sorted, x, j);
            &&& j <= p <= sorted.len()
            &&& forall|k: int| 0 <= k < p ==> !board_after(favs, by_fav, #[trigger] sorted[k], x)
            &&& p < sorted.len() ==> board_after(favs, by_fav, sorted[p], x)
        }),
    decreases sorted.len() - j,
{
    if j < sorted.len() && !board_after(favs, by_fav, sorted[j], x) {
        lemma_insert_pos_properties(favs, by_fav, sorted, x, j + 1);
    }
}

/// The sort of boards orders them and keeps every board exactly once: no
/// board of the result sorts after a later one, and the result holds the
/// same boards as the input, as many times each.
pub proof fn law_sort_boards(favs: Set<Seq<char>>, by_fav: bool, s: Seq<BoardView>)
    ensures
        sorted_boards(favs, by_fav, sort_boards(favs, by_fav, s)),
        sort_boards(favs, by_fav, s).to_multiset() == s.to_multiset(),
    decreases s.len(),
{
    broadcast use vstd::seq_lib::group_to_multiset_ensures;

    if s.len() > 0 {
        let r = sort_boards(favs, by_fav, s.drop_last());
        let x = s.last();
        law_sort_boards(favs, by_fav, s.drop_last());
        lemma_insert_pos_properties(favs, by_fav, r, x, 0);
        let p = insert_pos_from(favs, by_fav, r, x, 0);
        let t = r.insert(p, x);
        assert forall|i: int, j: int| 0 <= i < j < t.len() implies !board_after(
            favs,
            by_fav,
            #[trigger] t[i],
            #[trigger] t[j],
        ) by {
            if j < p {
                assert(t[i] == r[i] && t[j] == r[j]);
                assert(!board_after(favs, by_fav, r[i], r[j]));
            } else if i < p && j == p {
                assert(t[i] == r[i] && t[j] == x);
                assert(!board_after(favs, by_fav, r[i], x));
            } else if i < p && j > p {
                assert(t[i] == r[i] && t[j] == r[j - 1]);
                assert(!board_after(favs, by_fav, r[i], r[j - 1]));
            } else if i == p {
                assert(t[i] == x && t[j] == r[j - 1]);
                if board_after(favs, by_fav, x, r[j - 1]) {
                    lemma_board_after_transitive(favs, by_fav, r[p], x, r[j - 1]);
                    if p < j - 1 {
                        assert(!board_after(favs, by_fav, r[p], r[j - 1]));
                    } else {
                        lemma_text_lt_irreflexive(r[p].name);
                        lemma_text_lt_irreflexive(r[p].category);
                    }
                }
            } else {
                assert(t[i] == r[i - 1]);
                assert(t[j] == r[j - 1]);
                assert(!board_after(favs, by_fav, r[i - 1], r[j - 1]));
            }
        }
        assert(t.remove(p) =~= r);
        assert(t[p] == x);
        assert(s.drop_last().push(x) =~= s);
        assert(t.to_multiset() =~= r.to_multiset().insert(x));
    }
}

} // verus!
