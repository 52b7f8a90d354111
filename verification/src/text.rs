//! Character-level text operations with their mathematical meaning.
//!
//! Text is modelled as `Seq<char>`; the executable functions work on
//! `&[char]` / `Vec<char>` and are proved to compute the spec functions
//! defined here.
use vstd::prelude::*;

verus! {

// ---------------------------------------------------------------------------
// Whitespace and trimming
// ---------------------------------------------------------------------------

/// The Unicode `White_Space` property (what `char::is_whitespace` tests).
pub open spec fn is_ws(c: char) -> bool {
    let u = c as u32;
    ||| (0x09u32 <= u && u <= 0x0du32)
    ||| u == 0x20u32
    ||| u == 0x85u32
    ||| u == 0xa0u32
    ||| u == 0x1680u32
    ||| (0x2000u32 <= u && u <= 0x200au32)
    ||| u == 0x2028u32
    ||| u == 0x2029u32
    ||| u == 0x202fu32
    ||| u == 0x205fu32
    ||| u == 0x3000u32
}

/// Whitespace test on one character.
pub fn is_whitespace(c: char) -> (b: bool)
    ensures
        b == is_ws(c),
{
    let u = c as u32;
    (0x09u32 <= u && u <= 0x0du32) || u == 0x20u32 || u == 0x85u32 || u == 0xa0u32
        || u == 0x1680u32 || (0x2000u32 <= u && u <= 0x200au32) || u == 0x2028u32
        || u == 0x2029u32 || u == 0x202fu32 || u == 0x205fu32 || u == 0x3000u32
}

/// Leading whitespace removed.
pub open spec fn trim_start(s: Seq<char>) -> Seq<char>
    decreases s.len(),
{
    if s.len() > 0 && is_ws(s[0]) {
        trim_start(s.drop_first())
    } else {
        s
    }
}

/// Trailing whitespace removed.
pub open spec fn trim_end(s: Seq<char>) -> Seq<char>
    decreases s.len(),
{
    if s.len() > 0 && is_ws(s.last()) {
        trim_end(s.drop_last())
    } else {
        s
    }
}

/// Leading and trailing whitespace removed (`str::trim`).
pub open spec fn trim(s: Seq<char>) -> Seq<char> {
    trim_end(trim_start(s))
}

/// Trailing copies of `c` removed (`str::trim_end_matches` with a char).
pub open spec fn trim_end_char(s: Seq<char>, c: char) -> Seq<char>
    decreases s.len(),
{
    if s.len() > 0 && s.last() == c {
        trim_end_char(s.drop_last(), c)
    } else {
        s
    }
}

/// The characters `s[from..to]` as a new vector.
pub fn slice_chars(s: &[char], from: usize, to: usize) -> (r: Vec<char>)
    requires
        from <= to <= s@.len(),
    ensures
        r@ == s@.subrange(from as int, to as int),
{
    let mut r: Vec<char> = Vec::new();
    let mut i: usize = from;
    while i < to
        invariant
            from <= i <= to <= s@.len(),
            r@ == s@.subrange(from as int, i as int),
        decreases to - i,
    {
        r.push(s[i]);
        i = i + 1;
        assert(r@ =~= s@.subrange(from as int, i as int));
    }
    r
}

proof fn lemma_trim_start_skip(s: Seq<char>, i: int)
    requires
        0 <= i <= s.len(),
        forall|k: int| 0 <= k < i ==> is_ws(#[trigger] s[k]),
    ensures
        trim_start(s) == trim_start(s.skip(i)),
    decreases i,
{
    if i > 0 {
        lemma_trim_start_skip(s, i - 1);
        assert(s.skip(i - 1).drop_first() =~= s.skip(i));
    } else {
        assert(s.skip(0) =~= s);
    }
}

proof fn lemma_trim_end_take(s: Seq<char>, j: int)
    requires
        0 <= j <= s.len(),
        forall|k: int| j <= k < s.len() ==> is_ws(#[trigger] s[k]),
    ensures
        trim_end(s) == trim_end(s.take(j)),
    decreases s.len() - j,
{
    if j < s.len() {
        lemma_trim_end_take(s, j + 1);
        assert(s.take(j + 1).drop_last() =~= s.take(j));
    } else {
        assert(s.take(j) =~= s);
    }
}

/// `str::trim` on characters.
pub fn trim_chars(s: &[char]) -> (r: Vec<char>)
    ensures
        r@ == trim(s@),
{
    let n = s.len();
    let mut a: usize = 0;
    while a < n && is_whitespace(s[a])
        invariant
            a <= n == s@.len(),
            forall|k: int| 0 <= k < a ==> is_ws(#[trigger] s@[k]),
        decreases n - a,
    {
        a = a + 1;
    }
    proof {
        lemma_trim_start_skip(s@, a as int);
    }
    let mut b: usize = n;
    while b > a && is_whitespace(s[b - 1])
        invariant
            a <= b <= n == s@.len(),
            forall|k: int| b <= k < n ==> is_ws(#[trigger] s@[k]),
        decreases b,
    {
        b = b - 1;
    }
    let ghost t = s@.skip(a as int);
    proof {
        assert forall|k: int| (b - a) <= k < t.len() implies is_ws(#[trigger] t[k]) by {
            assert(t[k] == s@[k + a]);
        }
        lemma_trim_end_take(t, b - a);
        if a < n {
            assert(!is_ws(t[0]));
        }
        assert(trim_start(t) == t);
        if b > a {
            assert(t.take(b - a).last() == s@[b - 1]);
        }
        assert(trim_end(t.take(b - a)) == t.take(b - a));
        assert(t.take(b - a) =~= s@.subrange(a as int, b as int));
    }
    slice_chars(s, a, b)
}

/// `str::trim_end_matches(c)` on characters.
pub fn trim_end_char_chars(s: &[char], c: char) -> (r: Vec<char>)
    ensures
        r@ == trim_end_char(s@, c),
{
    let mut b: usize = s.len();
    assert(s@.take(s@.len() as int) =~= s@);
    while b > 0 && s[b - 1] == c
        invariant
            b <= s@.len(),
            trim_end_char(s@, c) == trim_end_char(s@.take(b as int), c),
        decreases b,
    {
        assert(s@.take(b as int).drop_last() =~= s@.take(b - 1));
        b = b - 1;
    }
    proof {
        assert(s@.take(s@.len() as int) =~= s@);
    }
    slice_chars(s, 0, b)
}

// ---------------------------------------------------------------------------
// Searching
// ---------------------------------------------------------------------------

/// `pat` occurs in `s` starting at index `i`.
pub open spec fn occurs_at(s: Seq<char>, pat: Seq<char>, i: int) -> bool {
    0 <= i && i + pat.len() <= s.len() && s.subrange(i, i + pat.len()) == pat
}

/// First occurrence of `pat` in `s` at or after `i`.
pub open spec fn find_from(s: Seq<char>, pat: Seq<char>, i: int) -> Option<int>
    decreases s.len() + 1 - i,
{
    if i < 0 || i + pat.len() > s.len() {
        None
    } else if occurs_at(s, pat, i) {
        Some(i)
    } else {
        find_from(s, pat, i + 1)
    }
}

/// First occurrence of `pat` in `s` (`str::find`).
pub open spec fn find(s: Seq<char>, pat: Seq<char>) -> Option<int> {
    find_from(s, pat, 0)
}

/// Last occurrence of `pat` in `s` that starts at or before `i`.
pub open spec fn rfind_upto(s: Seq<char>, pat: Seq<char>, i: int) -> Option<int>
    decreases i + 1,
{
    if i < 0 {
        None
    } else if occurs_at(s, pat, i) {
        Some(i)
    } else {
        rfind_upto(s, pat, i - 1)
    }
}

/// Last occurrence of `pat` in `s` (`str::rfind`).
pub open spec fn rfind(s: Seq<char>, pat: Seq<char>) -> Option<int> {
    rfind_upto(s, pat, s.len() - pat.len())
}

/// `s` contains `pat` (`str::contains`).
pub open spec fn contains(s: Seq<char>, pat: Seq<char>) -> bool {
    find(s, pat) is Some
}

/// `s` starts with `pat`.
pub open spec fn starts_with(s: Seq<char>, pat: Seq<char>) -> bool {
    pat.len() <= s.len() && s.take(pat.len() as int) == pat
}

/// `pat` occurs in `s` at `i` (executable check).
pub fn occurs_at_exec(s: &[char], pat: &[char], i: usize) -> (b: bool)
    ensures
        b == occurs_at(s@, pat@, i as int),
{
    if i > s.len() || pat.len() > s.len() - i {
        return false;
    }
    let mut k: usize = 0;
    while k < pat.len()
        invariant
            i + pat.len() <= s.len(),
            k <= pat.len(),
            forall|m: int| 0 <= m < k ==> s@[i + m] == pat@[m],
        decreases pat.len() - k,
    {
        if s[i + k] != pat[k] {
            assert(s@.subrange(i as int, i + pat@.len())[k as int] != pat@[k as int]);
            return false;
        }
        k = k + 1;
    }
    assert(s@.subrange(i as int, i + pat@.len()) =~= pat@);
    true
}

/// First occurrence of `pat` at or after `from` (executable).
pub fn find_from_exec(s: &[char], pat: &[char], from: usize) -> (r: Option<usize>)
    requires
        pat@.len() > 0,
    ensures
        match r {
            Some(j) => find_from(s@, pat@, from as int) == Some(j as int),
            None => find_from(s@, pat@, from as int) is None,
        },
{
    let mut i: usize = from;
    while i <= s.len() && pat.len() <= s.len() - i
        invariant
            from <= i,
            pat@.len() > 0,
            find_from(s@, pat@, from as int) == find_from(s@, pat@, i as int),
        decreases s.len() + 1 - i,
    {
        if occurs_at_exec(s, pat, i) {
            return Some(i);
        }
        i = i + 1;
    }
    None
}

/// First occurrence of `pat` in `s` (executable `str::find`).
pub fn find_exec(s: &[char], pat: &[char]) -> (r: Option<usize>)
    requires
        pat@.len() > 0,
    ensures
        match r {
            Some(j) => find(s@, pat@) == Some(j as int),
            None => find(s@, pat@) is None,
        },
{
    find_from_exec(s, pat, 0)
}

/// Last occurrence of `pat` in `s` (executable `str::rfind`).
pub fn rfind_exec(s: &[char], pat: &[char]) -> (r: Option<usize>)
    requires
        pat@.len() > 0,
    ensures
        match r {
            Some(j) => rfind(s@, pat@) == Some(j as int),
            None => rfind(s@, pat@) is None,
        },
{
    if pat.len() > s.len() {
        return None;
    }
    let mut i: usize = s.len() - pat.len() + 1;
    while i > 0
        invariant
            pat@.len() > 0,
            i <= s@.len() - pat@.len() + 1,
            rfind(s@, pat@) == rfind_upto(s@, pat@, i - 1),
        decreases i,
    {
        if occurs_at_exec(s, pat, i - 1) {
            return Some(i - 1);
        }
        i = i - 1;
    }
    None
}

/// `s` starts with `pat` (executable).
pub fn starts_with_exec(s: &[char], pat: &[char]) -> (b: bool)
    ensures
        b == starts_with(s@, pat@),
{
    let b = occurs_at_exec(s, pat, 0);
    proof {
        if pat@.len() <= s@.len() {
            assert(s@.subrange(0, pat@.len() as int) =~= s@.take(pat@.len() as int));
        }
    }
    b
}

/// `s` contains `pat` (executable).
pub fn contains_exec(s: &[char], pat: &[char]) -> (b: bool)
    ensures
        b == contains(s@, pat@),
{
    if pat.len() == 0 {
        assert(s@.subrange(0, 0) =~= pat@);
        assert(occurs_at(s@, pat@, 0));
        return true;
    }
    find_exec(s, pat).is_some()
}

// ---------------------------------------------------------------------------
// Splitting
// ---------------------------------------------------------------------------

/// Split at the first occurrence of `pat` (`str::split_once`).
pub open spec fn split_once(s: Seq<char>, pat: Seq<char>) -> Option<(Seq<char>, Seq<char>)> {
    match find(s, pat) {
        Some(i) => Some((s.take(i), s.skip(i + pat.len()))),
        None => None,
    }
}

/// Split at the last occurrence of `pat` (`str::rsplit_once`).
pub open spec fn rsplit_once(s: Seq<char>, pat: Seq<char>) -> Option<(Seq<char>, Seq<char>)> {
    match rfind(s, pat) {
        Some(i) => Some((s.take(i), s.skip(i + pat.len()))),
        None => None,
    }
}

/// Pieces of `s` between the occurrences of `c` (`str::split` with a char).
pub open spec fn split_char(s: Seq<char>, c: char) -> Seq<Seq<char>>
    decreases s.len(),
{
    if s.len() == 0 {
        seq![Seq::<char>::empty()]
    } else {
        let r = split_char(s.drop_last(), c);
        if s.last() == c {
            r.push(Seq::<char>::empty())
        } else {
            r.update(r.len() - 1, r.last().push(s.last()))
        }
    }
}

/// Splitting gives at least one piece.
pub proof fn lemma_split_char_nonempty(s: Seq<char>, c: char)
    ensures
        split_char(s, c).len() >= 1,
    decreases s.len(),
{
    if s.len() > 0 {
        lemma_split_char_nonempty(s.drop_last(), c);
    }
}

/// No piece of a split is longer than the text.
pub proof fn lemma_split_char_piece_len(s: Seq<char>, c: char)
    ensures
        forall|k: int| 0 <= k < split_char(s, c).len() ==> (#[trigger] split_char(s, c)[k]).len() <= s.len(),
    decreases s.len(),
{
    if s.len() > 0 {
        lemma_split_char_piece_len(s.drop_last(), c);
        lemma_split_char_nonempty(s.drop_last(), c);
    }
}

/// Trimming a character off the end does not lengthen a text.
pub proof fn lemma_trim_end_char_len(s: Seq<char>, c: char)
    ensures
        trim_end_char(s, c).len() <= s.len(),
    decreases s.len(),
{
    if s.len() > 0 && s.last() == c {
        lemma_trim_end_char_len(s.drop_last(), c);
    }
}

/// A line without its final carriage return.
pub open spec fn strip_cr(l: Seq<char>) -> Seq<char> {
    if l.len() > 0 && l.last() == '\r' {
        l.drop_last()
    } else {
        l
    }
}

/// The lines of `s` (`str::lines`): split at `'\n'`, a `'\r'` before a
/// `'\n'` removed, no final empty line.
pub open spec fn lines(s: Seq<char>) -> Seq<Seq<char>> {
    let p = split_char(s, '\n');
    let init = p.drop_last().map_values(|l: Seq<char>| strip_cr(l));
    if p.last().len() == 0 {
        init
    } else {
        init.push(p.last())
    }
}

/// No character of `s` is `c`.
pub open spec fn free_of(s: Seq<char>, c: char) -> bool {
    forall|i: int| 0 <= i < s.len() ==> s[i] != c
}

proof fn lemma_split_char_append_free(x: Seq<char>, b: Seq<char>, c: char)
    requires
        free_of(b, c),
    ensures
        ({
            let p = split_char(x, c);
            split_char(x + b, c) == p.update(p.len() - 1, p.last() + b)
        }),
    decreases b.len(),
{
    lemma_split_char_nonempty(x, c);
    let p = split_char(x, c);
    if b.len() == 0 {
        assert(x + b =~= x);
        assert(p.last() + b =~= p.last());
        assert(p.update(p.len() - 1, p.last()) =~= p);
    } else {
        let b0 = b.drop_last();
        assert(free_of(b0, c)) by {
            assert forall|i: int| 0 <= i < b0.len() implies b0[i] != c by {
                assert(b0[i] == b[i]);
            }
        }
        lemma_split_char_append_free(x, b0, c);
        assert((x + b).drop_last() =~= x + b0);
        assert((x + b).last() == b.last());
        assert(b[b.len() - 1] != c);
        lemma_split_char_nonempty(x + b0, c);
        let r = split_char(x + b0, c);
        assert(r.last() == p.last() + b0);
        assert(r.last().push(b.last()) =~= p.last() + b);
        assert(r.update(r.len() - 1, r.last().push(b.last())) =~= p.update(
            p.len() - 1,
            p.last() + b,
        ));
    }
}

/// The pieces of `x + b` at `c`, for `b` without `c`: those of `x`, the
/// last one extended by `b`.
pub proof fn lemma_split_char_append_free_pub(x: Seq<char>, b: Seq<char>, c: char)
    requires
        free_of(b, c),
    ensures
        ({
            let p = split_char(x, c);
            split_char(x + b, c) == p.update(p.len() - 1, p.last() + b)
        }),
{
    lemma_split_char_append_free(x, b, c);
}

proof fn lemma_split_join(ls: Seq<Seq<char>>, c: char)
    requires
        ls.len() > 0,
        forall|k: int| 0 <= k < ls.len() ==> free_of(#[trigger] ls[k], c),
    ensures
        split_char(join(ls, seq![c]), c) == ls,
    decreases ls.len(),
{
    if ls.len() == 1 {
        lemma_split_char_append_free(Seq::empty(), ls[0], c);
        assert(Seq::<char>::empty() + ls[0] =~= ls[0]);
        assert(seq![Seq::<char>::empty()].update(0, Seq::<char>::empty() + ls[0]) =~= ls);
    } else {
        let init = ls.drop_last();
        assert forall|k: int| 0 <= k < init.len() implies free_of(#[trigger] init[k], c) by {
            assert(init[k] == ls[k]);
        }
        lemma_split_join(init, c);
        let x = join(init, seq![c]) + seq![c];
        assert(x.drop_last() =~= join(init, seq![c]));
        assert(x.last() == c);
        assert(split_char(x, c) == init.push(Seq::<char>::empty()));
        assert(free_of(ls.last(), c)) by {
            assert(ls[ls.len() - 1] == ls.last());
        }
        lemma_split_char_append_free(x, ls.last(), c);
        assert(join(ls, seq![c]) =~= x + ls.last());
        assert(init.push(Seq::<char>::empty()).update(
            init.len() as int,
            Seq::<char>::empty() + ls.last(),
        ) =~= ls);
    }
}

/// Lines joined with newlines read back as the same lines, when none holds
/// a newline, none is empty, and none ends with a carriage return.
pub proof fn lemma_lines_join(ls: Seq<Seq<char>>)
    requires
        forall|k: int| 0 <= k < ls.len() ==> free_of(#[trigger] ls[k], '\n'),
        forall|k: int| 0 <= k < ls.len() ==> (#[trigger] ls[k]).len() > 0 && ls[k].last() != '\r',
    ensures
        lines(join(ls, seq!['\n'])) == ls,
{
    if ls.len() == 0 {
        assert(lines(join(ls, seq!['\n'])) =~= ls);
    } else {
        lemma_split_join(ls, '\n');
        let init = ls.drop_last();
        assert(init.map_values(|l: Seq<char>| strip_cr(l)) =~= init) by {
            assert forall|k: int| 0 <= k < init.len() implies strip_cr(#[trigger] init[k])
                == init[k] by {
                assert(init[k] == ls[k]);
            }
        }
        assert(ls[ls.len() - 1] == ls.last());
        assert(init.push(ls.last()) =~= ls);
    }
}

/// A text whose first and last characters are not white space is its own
/// trim.
pub proof fn lemma_trim_unchanged(s: Seq<char>)
    requires
        s.len() > 0,
        !is_ws(s[0]),
        !is_ws(s.last()),
    ensures
        trim(s) == s,
{
}

/// `pat` of one character occurs at `i` exactly when the character there
/// is it.
proof fn lemma_occurs_char(s: Seq<char>, c: char, i: int)
    ensures
        occurs_at(s, seq![c], i) <==> (0 <= i < s.len() && s[i] == c),
{
    if 0 <= i < s.len() && s[i] == c {
        assert(s.subrange(i, i + 1) =~= seq![c]);
    }
    if occurs_at(s, seq![c], i) {
        assert(s.subrange(i, i + 1)[0] == s[i]);
    }
}

proof fn lemma_find_from_char(s: Seq<char>, c: char, i: int, j: int)
    requires
        0 <= i <= j < s.len(),
        s[j] == c,
        forall|k: int| i <= k < j ==> s[k] != c,
    ensures
        find_from(s, seq![c], i) == Some(j),
    decreases j - i,
{
    lemma_occurs_char(s, c, i);
    if i < j {
        lemma_find_from_char(s, c, i + 1, j);
    }
}

/// The first occurrence of `c` in `a + [c] + b`, for `a` without `c`.
pub proof fn lemma_find_char(a: Seq<char>, c: char, b: Seq<char>)
    requires
        free_of(a, c),
    ensures
        find(a + seq![c] + b, seq![c]) == Some(a.len() as int),
{
    let s = a + seq![c] + b;
    assert forall|k: int| 0 <= k < a.len() implies s[k] != c by {
        assert(s[k] == a[k]);
    }
    lemma_find_from_char(s, c, 0, a.len() as int);
}

proof fn lemma_rfind_upto_char(s: Seq<char>, c: char, i: int, j: int)
    requires
        0 <= j <= i < s.len(),
        s[j] == c,
        forall|k: int| j < k <= i ==> s[k] != c,
    ensures
        rfind_upto(s, seq![c], i) == Some(j),
    decreases i - j,
{
    lemma_occurs_char(s, c, i);
    if j < i {
        lemma_rfind_upto_char(s, c, i - 1, j);
    }
}

/// The last occurrence of `c` in `a + [c] + b`, for `b` without `c`.
pub proof fn lemma_rfind_char(a: Seq<char>, c: char, b: Seq<char>)
    requires
        free_of(b, c),
    ensures
        rfind(a + seq![c] + b, seq![c]) == Some(a.len() as int),
{
    let s = a + seq![c] + b;
    assert forall|k: int| a.len() < k <= s.len() - 1 implies s[k] != c by {
        assert(s[k] == b[k - a.len() - 1]);
    }
    lemma_rfind_upto_char(s, c, s.len() - 1, a.len() as int);
}

/// Splitting `a + [c] + b` at its first `c`, for `a` without `c`.
pub proof fn lemma_split_once_char(a: Seq<char>, c: char, b: Seq<char>)
    requires
        free_of(a, c),
    ensures
        split_once(a + seq![c] + b, seq![c]) == Some((a, b)),
{
    lemma_find_char(a, c, b);
    let s = a + seq![c] + b;
    assert(s.take(a.len() as int) =~= a);
    assert(s.skip(a.len() as int + 1) =~= b);
}

/// Splitting `a + [c] + b` at its last `c`, for `b` without `c`.
pub proof fn lemma_rsplit_once_char(a: Seq<char>, c: char, b: Seq<char>)
    requires
        free_of(b, c),
    ensures
        rsplit_once(a + seq![c] + b, seq![c]) == Some((a, b)),
{
    lemma_rfind_char(a, c, b);
    let s = a + seq![c] + b;
    assert(s.take(a.len() as int) =~= a);
    assert(s.skip(a.len() as int + 1) =~= b);
}

/// `pat` occurs nowhere in `s`.
pub open spec fn has_no(s: Seq<char>, pat: Seq<char>) -> bool {
    forall|i: int| !occurs_at(s, pat, i)
}

/// No white space at either end (what `trim` leaves unchanged).
pub open spec fn trimmed(s: Seq<char>) -> bool {
    s.len() > 0 ==> !is_ws(s[0]) && !is_ws(s.last())
}

/// A pattern that occurs nowhere is not found.
pub proof fn lemma_find_none(s: Seq<char>, pat: Seq<char>, i: int)
    requires
        has_no(s, pat),
    ensures
        find_from(s, pat, i) is None,
    decreases s.len() + 1 - i,
{
    if !(i < 0 || i + pat.len() > s.len()) {
        assert(!occurs_at(s, pat, i));
        lemma_find_none(s, pat, i + 1);
    }
}

/// A trimmed text is its own trim.
pub proof fn lemma_trimmed(s: Seq<char>)
    requires
        trimmed(s),
    ensures
        trim(s) == s,
{
}

proof fn lemma_find_from_first(s: Seq<char>, pat: Seq<char>, i: int, j: int)
    requires
        0 <= i <= j,
        occurs_at(s, pat, j),
        forall|k: int| i <= k < j ==> !occurs_at(s, pat, k),
    ensures
        find_from(s, pat, i) == Some(j),
    decreases j - i,
{
    if i < j {
        lemma_find_from_first(s, pat, i + 1, j);
    }
}

/// Splitting `a + [x, y] + b` at its first `[x, y]`, for `a` without it
/// and `x` other than `y`.
pub proof fn lemma_split_once_pair(a: Seq<char>, x: char, y: char, b: Seq<char>)
    requires
        x != y,
        has_no(a, seq![x, y]),
    ensures
        split_once(a + seq![x, y] + b, seq![x, y]) == Some((a, b)),
{
    let p = seq![x, y];
    let s = a + p + b;
    assert(s.subrange(a.len() as int, a.len() as int + 2) =~= p);
    assert forall|k: int| 0 <= k < a.len() implies !occurs_at(s, p, k) by {
        if occurs_at(s, p, k) {
            if k + 2 <= a.len() {
                assert(a.subrange(k, k + 2) =~= s.subrange(k, k + 2));
                assert(occurs_at(a, p, k));
            } else {
                assert(s.subrange(k, k + 2)[1] == s[k + 1]);
                assert(s[k + 1] == x);
            }
        }
    }
    lemma_find_from_first(s, p, 0, a.len() as int);
    assert(s.take(a.len() as int) =~= a);
    assert(s.skip(a.len() as int + 2) =~= b);
}

/// `s` with every newline written as `<br>`.
pub open spec fn br_encode(s: Seq<char>) -> Seq<char> {
    replace(s, seq!['\n'], seq!['<', 'b', 'r', '>'])
}

proof fn lemma_br_encode_step(t: Seq<char>)
    ensures
        t.len() == 0 ==> br_encode(t) == t,
        t.len() > 0 && t[0] == '\n' ==> br_encode(t) == seq!['<', 'b', 'r', '>'] + br_encode(
            t.drop_first(),
        ),
        t.len() > 0 && t[0] != '\n' ==> br_encode(t) == seq![t[0]] + br_encode(t.drop_first()),
{
    if t.len() > 0 {
        if t[0] == '\n' {
            assert(t.take(1) =~= seq!['\n']);
            assert(t.skip(1) =~= t.drop_first());
        } else {
            assert(t.take(1)[0] == t[0]);
        }
    }
}

/// The text a newline-free stretch of `br_encode(t)` starts with is in `t`.
proof fn lemma_br_encode_prefix(t: Seq<char>, w: Seq<char>)
    requires
        free_of(w, '<'),
        br_encode(t).len() >= w.len(),
        br_encode(t).take(w.len() as int) == w,
    ensures
        t.len() >= w.len(),
        t.take(w.len() as int) == w,
    decreases w.len(),
{
    lemma_br_encode_step(t);
    if w.len() > 0 {
        let e = br_encode(t);
        assert(e[0] == w[0]);
        assert(w[0] != '<');
        assert(t.len() > 0);
        assert(t[0] != '\n');
        let e1 = br_encode(t.drop_first());
        assert(e1 =~= e.drop_first());
        assert(e1.take(w.len() - 1) =~= w.drop_first());
        assert(free_of(w.drop_first(), '<')) by {
            assert forall|i: int| 0 <= i < w.drop_first().len() implies w.drop_first()[i] != '<' by {
                assert(w.drop_first()[i] == w[i + 1]);
            }
        }
        lemma_br_encode_prefix(t.drop_first(), w.drop_first());
        assert(t.take(w.len() as int) =~= seq![t[0]] + t.drop_first().take(w.len() - 1));
        assert(w =~= seq![w[0]] + w.drop_first());
    }
}

proof fn lemma_br_encode_no_newline(t: Seq<char>)
    requires
        free_of(t, '\n'),
    ensures
        br_encode(t) == t,
    decreases t.len(),
{
    lemma_br_encode_step(t);
    if t.len() > 0 {
        assert(free_of(t.drop_first(), '\n')) by {
            assert forall|i: int| 0 <= i < t.drop_first().len() implies t.drop_first()[i] != '\n' by {
                assert(t.drop_first()[i] == t[i + 1]);
            }
        }
        lemma_br_encode_no_newline(t.drop_first());
        assert(seq![t[0]] + t.drop_first() =~= t);
    }
}

proof fn lemma_br_encode_long(t: Seq<char>)
    requires
        !free_of(t, '\n'),
    ensures
        br_encode(t).len() >= 4,
    decreases t.len(),
{
    lemma_br_encode_step(t);
    if t[0] != '\n' {
        assert(!free_of(t.drop_first(), '\n')) by {
            let j = choose|j: int| 0 <= j < t.len() && t[j] == '\n';
            assert(t.drop_first()[j - 1] == t[j]);
        }
        lemma_br_encode_long(t.drop_first());
    }
}

/// `br_encode` of a concatenation is the concatenation of the parts'.
pub proof fn lemma_br_encode_concat(a: Seq<char>, b: Seq<char>)
    ensures
        br_encode(a + b) == br_encode(a) + br_encode(b),
    decreases a.len(),
{
    lemma_br_encode_step(a + b);
    lemma_br_encode_step(a);
    if a.len() == 0 {
        assert(a + b =~= b);
        assert(br_encode(a) + br_encode(b) =~= br_encode(b));
    } else {
        lemma_br_encode_concat(a.drop_first(), b);
        assert((a + b).drop_first() =~= a.drop_first() + b);
        assert((a + b)[0] == a[0]);
    }
}

/// `br_encode` leaves no newline.
pub proof fn lemma_br_encode_free(t: Seq<char>)
    ensures
        free_of(br_encode(t), '\n'),
    decreases t.len(),
{
    lemma_br_encode_step(t);
    if t.len() > 0 {
        lemma_br_encode_free(t.drop_first());
        let e = br_encode(t);
        let r = br_encode(t.drop_first());
        assert forall|i: int| 0 <= i < e.len() implies e[i] != '\n' by {
            if t[0] == '\n' {
                if i >= 4 {
                    assert(e[i] == r[i - 4]);
                }
            } else {
                if i >= 1 {
                    assert(e[i] == r[i - 1]);
                }
            }
        }
    }
}

/// The last character of `br_encode(t)`: `>` after a final newline, the
/// final character otherwise.
pub proof fn lemma_br_encode_last(t: Seq<char>)
    requires
        t.len() > 0,
    ensures
        br_encode(t).len() > 0,
        br_encode(t).last() == if t.last() == '\n' {
            '>'
        } else {
            t.last()
        },
{
    lemma_br_encode_concat(t.drop_last(), seq![t.last()]);
    assert(t.drop_last() + seq![t.last()] =~= t);
    lemma_br_encode_step(seq![t.last()]);
    lemma_br_encode_step(Seq::<char>::empty());
    assert(seq![t.last()].drop_first() =~= Seq::<char>::empty());
}

/// Writing newlines as `<br>` and reading `<br>` as newlines gives the
/// text back, when it holds no `<br>` of its own.
pub proof fn lemma_br_round_trip(s: Seq<char>)
    requires
        has_no(s, seq!['<', 'b', 'r', '>']),
    ensures
        replace(br_encode(s), seq!['<', 'b', 'r', '>'], seq!['\n']) == s,
    decreases s.len(),
{
    let br = seq!['<', 'b', 'r', '>'];
    let nl = seq!['\n'];
    lemma_br_encode_step(s);
    let e = br_encode(s);
    if s.len() == 0 {
    } else {
        let s1 = s.drop_first();
        assert(has_no(s1, br)) by {
            assert forall|i: int| !occurs_at(s1, br, i) by {
                if occurs_at(s1, br, i) {
                    assert(s.subrange(i + 1, i + 5) =~= s1.subrange(i, i + 4));
                    assert(occurs_at(s, br, i + 1));
                }
            }
        }
        lemma_br_round_trip(s1);
        if s[0] == '\n' {
            assert(e.take(4) =~= br);
            assert(e.skip(4) =~= br_encode(s1));
            assert(nl + s1 =~= s);
        } else {
            if e.len() < 4 {
                if !free_of(s, '\n') {
                    lemma_br_encode_long(s);
                }
                lemma_br_encode_no_newline(s);
            } else {
                if e.take(4) == br {
                    assert(s[0] == '<');
                    let w = seq!['b', 'r', '>'];
                    assert(br_encode(s1) =~= e.drop_first());
                    assert(br_encode(s1).take(3) =~= w);
                    lemma_br_encode_prefix(s1, w);
                    assert(s.subrange(0, 4) =~= br);
                    assert(occurs_at(s, br, 0));
                }
                assert(e.drop_first() =~= br_encode(s1));
                assert(seq![s[0]] + s1 =~= s);
            }
        }
    }
}

/// The views of a vector of character vectors.
pub open spec fn views(v: Seq<Vec<char>>) -> Seq<Seq<char>> {
    v.map_values(|x: Vec<char>| x@)
}

/// `str::split` with a char, executable.
pub fn split_char_exec(s: &[char], c: char) -> (r: Vec<Vec<char>>)
    ensures
        views(r@) == split_char(s@, c),
{
    let mut pieces: Vec<Vec<char>> = Vec::new();
    let mut cur: Vec<char> = Vec::new();
    let mut i: usize = 0;
    assert(s@.take(0) =~= Seq::<char>::empty());
    assert(views(pieces@).push(cur@) =~= split_char(s@.take(0), c));
    while i < s.len()
        invariant
            i <= s@.len(),
            views(pieces@).push(cur@) == split_char(s@.take(i as int), c),
        decreases s.len() - i,
    {
        let ghost before = views(pieces@).push(cur@);
        assert(s@.take(i + 1).drop_last() =~= s@.take(i as int));
        assert(s@.take(i + 1).last() == s@[i as int]);
        if s[i] == c {
            pieces.push(cur);
            cur = Vec::new();
            assert(views(pieces@).push(cur@) =~= before.push(Seq::<char>::empty()));
        } else {
            cur.push(s[i]);
            assert(views(pieces@).push(cur@) =~= before.update(
                before.len() - 1,
                before.last().push(s@[i as int]),
            ));
        }
        i = i + 1;
    }
    assert(s@.take(s@.len() as int) =~= s@);
    pieces.push(cur);
    pieces
}

/// `l` without one trailing `'\r'`, as a new vector.
fn strip_cr_exec(l: &[char]) -> (r: Vec<char>)
    ensures
        r@ == strip_cr(l@),
{
    if l.len() > 0 && l[l.len() - 1] == '\r' {
        let r = slice_chars(l, 0, l.len() - 1);
        assert(r@ =~= l@.drop_last());
        r
    } else {
        let r = slice_chars(l, 0, l.len());
        assert(r@ =~= l@);
        r
    }
}

/// `str::lines`, executable.
pub fn lines_exec(s: &[char]) -> (r: Vec<Vec<char>>)
    ensures
        views(r@) == lines(s@),
{
    let pieces = split_char_exec(s, '\n');
    let ghost p = split_char(s@, '\n');
    proof {
        lemma_split_char_nonempty(s@, '\n');
    }
    assert(views(pieces@).len() == pieces@.len());
    let n = pieces.len();
    let mut out: Vec<Vec<char>> = Vec::new();
    let mut i: usize = 0;
    assert(p.take(0).map_values(|l: Seq<char>| strip_cr(l)) =~= Seq::<Seq<char>>::empty());
    while i + 1 < n
        invariant
            n == pieces@.len() == p.len() >= 1,
            views(pieces@) == p,
            i + 1 <= n,
            views(out@) == p.take(i as int).map_values(|l: Seq<char>| strip_cr(l)),
        decreases n - i,
    {
        assert(pieces@[i as int]@ == p[i as int]);
        let y = strip_cr_exec(pieces[i].as_slice());
        let ghost o = views(out@);
        out.push(y);
        assert(views(out@) =~= o.push(strip_cr(p[i as int])));
        assert(p.take(i + 1) =~= p.take(i as int).push(p[i as int]));
        assert(views(out@) =~= p.take(i + 1).map_values(|l: Seq<char>| strip_cr(l)));
        i = i + 1;
    }
    assert(p.take(i as int) =~= p.drop_last());
    assert(pieces@[i as int]@ == p.last());
    if pieces[i].len() == 0 {
        out
    } else {
        let y = slice_chars(pieces[i].as_slice(), 0, pieces[i].len());
        assert(y@ =~= p.last());
        out.push(y);
        assert(views(out@) =~= p.drop_last().map_values(|l: Seq<char>| strip_cr(l)).push(p.last()));
        out
    }
}

// ---------------------------------------------------------------------------
// Replacing and joining
// ---------------------------------------------------------------------------

/// Every non-overlapping occurrence of `from` (left to right) replaced by `to`
/// (`str::replace`).
pub open spec fn replace(s: Seq<char>, from: Seq<char>, to: Seq<char>) -> Seq<char>
    decreases s.len(),
{
    if from.len() == 0 || s.len() < from.len() {
        s
    } else if s.take(from.len() as int) == from {
        to + replace(s.skip(from.len() as int), from, to)
    } else {
        seq![s[0]] + replace(s.drop_first(), from, to)
    }
}

/// `str::replace`, executable.
pub fn replace_exec(s: &[char], from: &[char], to: &[char]) -> (r: Vec<char>)
    requires
        from@.len() > 0,
    ensures
        r@ == replace(s@, from@, to@),
{
    let mut out: Vec<char> = Vec::new();
    let mut i: usize = 0;
    assert(s@.skip(0) =~= s@);
    while i < s.len()
        invariant
            i <= s@.len(),
            from@.len() > 0,
            out@ + replace(s@.skip(i as int), from@, to@) == replace(s@, from@, to@),
        decreases s.len() - i,
    {
        let ghost t = s@.skip(i as int);
        if occurs_at_exec(s, from, i) {
            assert(t.take(from@.len() as int) =~= s@.subrange(i as int, i + from@.len()));
            assert(t.skip(from@.len() as int) =~= s@.skip(i + from@.len()));
            let mut k: usize = 0;
            let ghost out0 = out@;
            while k < to.len()
                invariant
                    k <= to@.len(),
                    out@ == out0 + to@.take(k as int),
                decreases to.len() - k,
            {
                out.push(to[k]);
                k = k + 1;
                assert(out@ =~= out0 + to@.take(k as int));
            }
            assert(to@.take(to@.len() as int) =~= to@);
            assert(out0 + (to@ + replace(s@.skip(i + from@.len()), from@, to@)) =~= out@
                + replace(s@.skip(i + from@.len()), from@, to@));
            i = i + from.len();
        } else {
            proof {
                if t.len() >= from@.len() {
                    assert(t.take(from@.len() as int) =~= s@.subrange(i as int, i + from@.len()));
                }
            }
            assert(t.drop_first() =~= s@.skip(i + 1));
            let ghost out0 = out@;
            out.push(s[i]);
            assert(out0 + (seq![s@[i as int]] + replace(s@.skip(i + 1), from@, to@)) =~= out@
                + replace(s@.skip(i + 1), from@, to@));
            i = i + 1;
        }
    }
    assert(s@.skip(i as int).len() == 0);
    assert(out@ + replace(s@.skip(i as int), from@, to@) =~= out@);
    out
}

/// Append `b` to `a`.
pub fn append_chars(a: &mut Vec<char>, b: &[char])
    ensures
        final(a)@ == old(a)@ + b@,
{
    let mut k: usize = 0;
    let ghost a0 = a@;
    while k < b.len()
        invariant
            k <= b@.len(),
            a@ == a0 + b@.take(k as int),
        decreases b.len() - k,
    {
        a.push(b[k]);
        k = k + 1;
        assert(a@ =~= a0 + b@.take(k as int));
    }
    assert(b@.take(b@.len() as int) =~= b@);
}

/// The concatenation of `a` and `b`.
pub fn concat_chars(a: &[char], b: &[char]) -> (r: Vec<char>)
    ensures
        r@ == a@ + b@,
{
    let mut r = slice_chars(a, 0, a.len());
    assert(a@.subrange(0, a@.len() as int) =~= a@);
    append_chars(&mut r, b);
    r
}

/// Equality of two character sequences (executable).
pub fn eq_chars(a: &[char], b: &[char]) -> (r: bool)
    ensures
        r == (a@ == b@),
{
    if a.len() != b.len() {
        return false;
    }
    let mut k: usize = 0;
    while k < a.len()
        invariant
            a@.len() == b@.len(),
            k <= a@.len(),
            forall|m: int| 0 <= m < k ==> a@[m] == b@[m],
        decreases a.len() - k,
    {
        if a[k] != b[k] {
            return false;
        }
        k = k + 1;
    }
    assert(a@ =~= b@);
    true
}

/// Pieces joined with `sep` between them (`[T]::join`).
pub open spec fn join(pieces: Seq<Seq<char>>, sep: Seq<char>) -> Seq<char>
    decreases pieces.len(),
{
    if pieces.len() == 0 {
        Seq::<char>::empty()
    } else if pieces.len() == 1 {
        pieces[0]
    } else {
        join(pieces.drop_last(), sep) + sep + pieces.last()
    }
}

/// `[T]::join`, executable.
pub fn join_exec(pieces: &Vec<Vec<char>>, sep: &[char]) -> (r: Vec<char>)
    ensures
        r@ == join(views(pieces@), sep@),
{
    let mut out: Vec<char> = Vec::new();
    let mut i: usize = 0;
    assert(views(pieces@).take(0) =~= Seq::<Seq<char>>::empty());
    while i < pieces.len()
        invariant
            i <= pieces@.len(),
            out@ == join(views(pieces@).take(i as int), sep@),
        decreases pieces.len() - i,
    {
        let ghost v = views(pieces@);
        assert(v.take(i + 1).drop_last() =~= v.take(i as int));
        assert(v.take(i + 1).last() == pieces@[i as int]@);
        if i > 0 {
            append_chars(&mut out, sep);
        } else {
            assert(v.take(1) =~= seq![pieces@[0]@]);
        }
        append_chars(&mut out, pieces[i].as_slice());
        i = i + 1;
    }
    assert(views(pieces@).take(pieces@.len() as int) =~= views(pieces@));
    out
}

/// `str::split_once`, executable.
pub fn split_once_exec(s: &[char], pat: &[char]) -> (r: Option<(Vec<char>, Vec<char>)>)
    requires
        pat@.len() > 0,
    ensures
        match r {
            Some((a, b)) => split_once(s@, pat@) == Some((a@, b@)),
            None => split_once(s@, pat@) is None,
        },
{
    match find_exec(s, pat) {
        Some(i) => {
            proof {
                lemma_find_from_occurs(s@, pat@, 0);
                assert(occurs_at(s@, pat@, i as int));
            }
            let a = slice_chars(s, 0, i);
            let pl = pat.len();
            let sl = s.len();
            assert(pl == pat@.len() && sl == s@.len());
            let b = slice_chars(s, i + pl, s.len());
            assert(a@ =~= s@.take(i as int));
            assert(b@ =~= s@.skip(i + pat@.len()));
            Some((a, b))
        },
        None => None,
    }
}

/// `str::rsplit_once`, executable.
pub fn rsplit_once_exec(s: &[char], pat: &[char]) -> (r: Option<(Vec<char>, Vec<char>)>)
    requires
        pat@.len() > 0,
    ensures
        match r {
            Some((a, b)) => rsplit_once(s@, pat@) == Some((a@, b@)),
            None => rsplit_once(s@, pat@) is None,
        },
{
    match rfind_exec(s, pat) {
        Some(i) => {
            proof {
                lemma_rfind_upto_occurs(s@, pat@, s@.len() - pat@.len());
                assert(occurs_at(s@, pat@, i as int));
            }
            let a = slice_chars(s, 0, i);
            let pl = pat.len();
            let sl = s.len();
            assert(pl == pat@.len() && sl == s@.len());
            let b = slice_chars(s, i + pl, s.len());
            assert(a@ =~= s@.take(i as int));
            assert(b@ =~= s@.skip(i + pat@.len()));
            Some((a, b))
        },
        None => None,
    }
}

/// What `find_from` finds occurs there, at or after the start.
pub proof fn lemma_find_from_occurs(s: Seq<char>, pat: Seq<char>, i: int)
    ensures
        find_from(s, pat, i) matches Some(j) ==> i <= j && occurs_at(s, pat, j),
    decreases s.len() + 1 - i,
{
    if !(i < 0 || i + pat.len() > s.len()) && !occurs_at(s, pat, i) {
        lemma_find_from_occurs(s, pat, i + 1);
    }
}

/// What `rfind_upto` finds occurs there, at or before the end.
pub proof fn lemma_rfind_upto_occurs(s: Seq<char>, pat: Seq<char>, i: int)
    ensures
        rfind_upto(s, pat, i) matches Some(j) ==> j <= i && occurs_at(s, pat, j),
    decreases i + 1,
{
    if i >= 0 && !occurs_at(s, pat, i) {
        lemma_rfind_upto_occurs(s, pat, i - 1);
    }
}

// ---------------------------------------------------------------------------
// Decimal numbers
// ---------------------------------------------------------------------------

/// The character of decimal digit `d`.
pub open spec fn digit_char(d: int) -> char {
    if d == 0 {
        '0'
    } else if d == 1 {
        '1'
    } else if d == 2 {
        '2'
    } else if d == 3 {
        '3'
    } else if d == 4 {
        '4'
    } else if d == 5 {
        '5'
    } else if d == 6 {
        '6'
    } else if d == 7 {
        '7'
    } else if d == 8 {
        '8'
    } else {
        '9'
    }
}

/// Decimal representation of `n`, without sign or leading zeros (`Display`).
pub open spec fn decimal(n: nat) -> Seq<char>
    decreases n,
{
    if n < 10 {
        seq![digit_char(n as int)]
    } else {
        decimal(n / 10).push(digit_char((n % 10) as int))
    }
}

/// Ten to the power `k`.
pub open spec fn pow10(k: nat) -> nat
    decreases k,
{
    if k == 0 {
        1
    } else {
        10 * pow10((k - 1) as nat)
    }
}

proof fn lemma_decimal_len_bound(n: nat, k: nat)
    requires
        k >= 1,
        n < pow10(k),
    ensures
        decimal(n).len() <= k,
    decreases k,
{
    if n >= 10 {
        if k == 1 {
            assert(pow10(1) == 10 * pow10(0));
        } else {
            let p = pow10((k - 1) as nat);
            assert(n / 10 < p) by (nonlinear_arith)
                requires
                    n < 10 * p,
            ;
            lemma_decimal_len_bound(n / 10, (k - 1) as nat);
        }
    }
}

/// A 64-bit number has at most twenty decimal digits.
pub proof fn lemma_decimal_len(n: nat)
    requires
        n <= u64::MAX,
    ensures
        decimal(n).len() <= 20,
{
    reveal_with_fuel(pow10, 21);
    assert(pow10(20) == 100000000000000000000nat);
    lemma_decimal_len_bound(n, 20);
}

fn digit_char_exec(d: u64) -> (c: char)
    requires
        d < 10,
    ensures
        c == digit_char(d as int),
{
    if d == 0 {
        '0'
    } else if d == 1 {
        '1'
    } else if d == 2 {
        '2'
    } else if d == 3 {
        '3'
    } else if d == 4 {
        '4'
    } else if d == 5 {
        '5'
    } else if d == 6 {
        '6'
    } else if d == 7 {
        '7'
    } else if d == 8 {
        '8'
    } else {
        '9'
    }
}

/// Decimal representation of `n` (`u64::to_string`).
pub fn decimal_exec(n: u64) -> (r: Vec<char>)
    ensures
        r@ == decimal(n as nat),
    decreases n,
{
    if n < 10 {
        let mut v: Vec<char> = Vec::new();
        v.push(digit_char_exec(n));
        assert(v@ =~= seq![digit_char(n as int)]);
        v
    } else {
        let mut v = decimal_exec(n / 10);
        v.push(digit_char_exec(n % 10));
        v
    }
}

/// An ASCII decimal digit.
pub open spec fn is_digit(c: char) -> bool {
    48 <= (c as u32) && (c as u32) <= 57
}

/// The value of an ASCII decimal digit.
pub open spec fn digit_value(c: char) -> nat {
    (c as u32 - 48) as nat
}

/// The value of a string of decimal digits.
pub open spec fn digits_value(s: Seq<char>) -> nat
    decreases s.len(),
{
    if s.len() == 0 {
        0
    } else {
        digits_value(s.drop_last()) * 10 + digit_value(s.last())
    }
}

/// Every character is an ASCII decimal digit.
pub open spec fn all_digits(d: Seq<char>) -> bool {
    forall|i: int| 0 <= i < d.len() ==> is_digit(#[trigger] d[i])
}

/// The digits of an unsigned number: the text without one leading `+`.
pub open spec fn unsigned_digits(s: Seq<char>) -> Seq<char> {
    if s.len() > 1 && s[0] == '+' {
        s.drop_first()
    } else {
        s
    }
}

/// The text parses as an unsigned integer no greater than `max`
/// (`str::parse` for an unsigned type: an optional `+`, then at least one
/// ASCII digit, and no overflow).
pub open spec fn parse_unsigned(s: Seq<char>, max: nat) -> Option<nat> {
    let d = unsigned_digits(s);
    if d.len() > 0 && all_digits(d) && digits_value(d) <= max {
        Some(digits_value(d))
    } else {
        None
    }
}

proof fn lemma_digit_char(d: int)
    requires
        0 <= d < 10,
    ensures
        is_digit(digit_char(d)),
        digit_value(digit_char(d)) == d,
{
    assert('0' as u32 == 48);
    assert('1' as u32 == 49);
    assert('2' as u32 == 50);
    assert('3' as u32 == 51);
    assert('4' as u32 == 52);
    assert('5' as u32 == 53);
    assert('6' as u32 == 54);
    assert('7' as u32 == 55);
    assert('8' as u32 == 56);
    assert('9' as u32 == 57);
}

/// The decimal representation of a number is a non-empty string of
/// digits whose value is the number, and it reads back as the number.
pub proof fn lemma_decimal_digits(n: nat, max: nat)
    ensures
        decimal(n).len() > 0,
        all_digits(decimal(n)),
        digits_value(decimal(n)) == n,
        n <= max ==> parse_unsigned(decimal(n), max) == Some(n),
    decreases n,
{
    if n < 10 {
        lemma_digit_char(n as int);
        assert(decimal(n).drop_last() =~= Seq::<char>::empty());
        assert(digits_value(Seq::<char>::empty()) == 0);
        assert(decimal(n).last() == digit_char(n as int));
    } else {
        lemma_decimal_digits(n / 10, max);
        lemma_digit_char((n % 10) as int);
        let d = decimal(n / 10);
        let e = decimal(n);
        assert(e.drop_last() =~= d);
        assert(digits_value(e) == digits_value(d) * 10 + digit_value(e.last()));
        assert(e.last() == digit_char((n % 10) as int));
        assert(n == (n / 10) * 10 + n % 10);
        assert(digits_value(e) == n);
        assert forall|i: int| 0 <= i < e.len() implies is_digit(#[trigger] e[i]) by {
            if i < d.len() {
                assert(e[i] == d[i]);
            }
        }
    }
    assert(is_digit(decimal(n)[0]));
    assert(unsigned_digits(decimal(n)) == decimal(n));
    assert(digits_value(decimal(n)) == n);
}

proof fn lemma_digits_value_monotone(s: Seq<char>, k: int)
    requires
        0 <= k <= s.len(),
        all_digits(s),
    ensures
        digits_value(s.take(k)) <= digits_value(s),
    decreases s.len() - k,
{
    if k < s.len() {
        lemma_digits_value_monotone(s, k + 1);
        assert(s.take(k + 1).drop_last() =~= s.take(k));
    } else {
        assert(s.take(k) =~= s);
    }
}

/// `str::parse::<uN>()` where `max` is the largest value of the type.
pub fn parse_unsigned_exec(s: &[char], max: u64) -> (r: Option<u64>)
    requires
        max >= 9,
    ensures
        match r {
            Some(v) => parse_unsigned(s@, max as nat) == Some(v as nat),
            None => parse_unsigned(s@, max as nat) is None,
        },
{
    let start: usize = if s.len() > 1 && s[0] == '+' {
        1
    } else {
        0
    };
    let ghost d = unsigned_digits(s@);
    assert(d =~= s@.skip(start as int));
    if start >= s.len() {
        return None;
    }
    let mut v: u64 = 0;
    let mut i: usize = start;
    while i < s.len()
        invariant
            start <= i <= s@.len(),
            max >= 9,
            d =~= s@.skip(start as int),
            d == unsigned_digits(s@),
            v <= max,
            v as nat == digits_value(d.take(i - start)),
            forall|k: int| 0 <= k < i - start ==> is_digit(#[trigger] d[k]),
        decreases s.len() - i,
    {
        let c = s[i];
        assert(d[i - start] == c);
        let cu = c as u32;
        if !(48 <= cu && cu <= 57) {
            assert(!is_digit(d[i - start]));
            assert(!all_digits(d));
            return None;
        }
        let dv = (cu - 48) as u64;
        assert(d.take(i - start + 1).drop_last() =~= d.take(i - start));
        if v > (max - dv) / 10 {
            proof {
                assert(v * 10 + dv > max) by (nonlinear_arith)
                    requires
                        v > (max - dv) / 10,
                        dv <= 9,
                        max >= 9,
                ;
                if all_digits(d) {
                    lemma_digits_value_monotone(d, i - start + 1);
                }
            }
            return None;
        }
        v = v * 10 + dv;
        i = i + 1;
    }
    assert(d.take(d.len() as int) =~= d);
    Some(v)
}

// ---------------------------------------------------------------------------
// Editing strings
// ---------------------------------------------------------------------------

/// `String::push` appends one character.
pub assume_specification[ String::push ](s: &mut String, ch: char)
    ensures
        final(s)@ == old(s)@.push(ch),
;

/// `String::pop` removes and returns the last character, if any.
pub assume_specification[ String::pop ](s: &mut String) -> (r: Option<char>)
    ensures
        old(s)@.len() == 0 ==> r is None && final(s)@ == old(s)@,
        old(s)@.len() > 0 ==> r == Some(old(s)@.last()) && final(s)@ == old(s)@.drop_last(),
;

/// `String::clear` empties the string.
pub assume_specification[ String::clear ](s: &mut String)
    ensures
        final(s)@ == Seq::<char>::empty(),
;

// ---------------------------------------------------------------------------
// Conversions between `str` and characters
// ---------------------------------------------------------------------------

/// The characters of a string slice.
pub fn chars_of(s: &str) -> (r: Vec<char>)
    ensures
        r@ == s@,
{
    let mut r: Vec<char> = Vec::new();
    for c in it: s.chars()
        invariant
            r@ == it.seq().take(it.index() as int),
    {
        r.push(c);
    }
    r
}

/// A `String` holding the given characters.
pub fn string_of(v: &[char]) -> (r: String)
    ensures
        r@ == v@,
{
    let mut r = String::new();
    let mut i: usize = 0;
    while i < v.len()
        invariant
            i <= v@.len(),
            r@ == v@.take(i as int),
        decreases v.len() - i,
    {
        r.push(v[i]);
        assert(v@.take(i + 1) =~= v@.take(i as int).push(v@[i as int]));
        i = i + 1;
    }
    assert(v@.take(v@.len() as int) =~= v@);
    r
}

} // verus!
