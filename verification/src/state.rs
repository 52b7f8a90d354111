//! The user interface state machine: searching, the board list with its
//! category groups, selection and scrolling, and the compose form.
use vstd::prelude::*;
use crate::text::{contains, chars_of, contains_exec};
use crate::lists::{set_contains, set_toggle};
use crate::types::{distinct_strings, 
    AppState, Screen, Board, BoardListItem, ItemView, items_view, string_set, strings_view,
    boards_view,
};
use crate::image::{unicode_lowercase, lowercase};

verus! {

/// The indices `0..n`.
pub open spec fn all_upto(n: nat) -> Seq<usize> {
    Seq::new(n, |i: int| i as usize)
}

impl AppState {
    /// The number of entries of the list the screen shows (nothing on the
    /// compose form).
    pub open spec fn list_len(&self) -> nat {
        match self.screen {
            Screen::BoardList => self.boards@.len(),
            Screen::ThreadList => self.threads@.len(),
            Screen::ThreadView => self.posts@.len(),
            Screen::Compose => 0,
        }
    }

    /// A search is shown: active, with matches.
    pub open spec fn searching(&self) -> bool {
        self.search_active && self.search_matches@.len() > 0
    }

    /// Entry `i` of the screen's list matches the lower-cased query `q`:
    /// board name or category, thread title, post body or poster name.
    pub open spec fn entry_matches(&self, i: int, q: Seq<char>) -> bool {
        match self.screen {
            Screen::BoardList => contains(unicode_lowercase(self.boards@[i].name@), q) || contains(
                unicode_lowercase(self.boards@[i].category@),
                q,
            ),
            Screen::ThreadList => contains(unicode_lowercase(self.threads@[i].title@), q),
            Screen::ThreadView => contains(unicode_lowercase(self.posts@[i].body@), q) || contains(
                unicode_lowercase(self.posts@[i].name@),
                q,
            ),
            Screen::Compose => false,
        }
    }

    /// The entries below `n` that match `q`, in order.
    pub open spec fn matches_upto(&self, q: Seq<char>, n: int) -> Seq<usize>
        decreases n,
    {
        if n <= 0 {
            Seq::empty()
        } else {
            let r = self.matches_upto(q, n - 1);
            if self.entry_matches(n - 1, q) {
                r.push((n - 1) as usize)
            } else {
                r
            }
        }
    }

    /// The matches depend on the screen, its lists and the query alone.
    pub proof fn lemma_matches_frame(a: &Self, b: &Self, q: Seq<char>, n: int)
        requires
            a.screen == b.screen,
            a.boards@ == b.boards@,
            a.threads@ == b.threads@,
            a.posts@ == b.posts@,
        ensures
            a.matches_upto(q, n) == b.matches_upto(q, n),
        decreases n,
    {
        if n > 0 {
            Self::lemma_matches_frame(a, b, q, n - 1);
        }
    }

    /// The search matches depend on the screen, its lists and the query
    /// alone.
    pub proof fn lemma_computed_matches_frame(a: &Self, b: &Self)
        requires
            a.screen == b.screen,
            a.boards@ == b.boards@,
            a.threads@ == b.threads@,
            a.posts@ == b.posts@,
            a.search_query@ == b.search_query@,
        ensures
            a.computed_matches() == b.computed_matches(),
    {
        Self::lemma_matches_frame(a, b, unicode_lowercase(a.search_query@), a.list_len() as int);
    }

    proof fn lemma_matches_upto_ordered(&self, q: Seq<char>, n: int)
        requires
            n <= usize::MAX,
        ensures
            forall|k: int|
                0 <= k < self.matches_upto(q, n).len() ==> (#[trigger] self.matches_upto(q, n)[k])
                    < n,
            forall|j: int, k: int|
                0 <= j < k < self.matches_upto(q, n).len() ==> self.matches_upto(q, n)[j]
                    < self.matches_upto(q, n)[k],
        decreases n,
    {
        if n > 0 {
            self.lemma_matches_upto_ordered(q, n - 1);
            let r = self.matches_upto(q, n - 1);
            if self.entry_matches(n - 1, q) {
                let t = r.push((n - 1) as usize);
                assert(t == self.matches_upto(q, n));
                assert((n - 1) as usize == n - 1);
                assert forall|k: int| 0 <= k < t.len() implies #[trigger] t[k] < n by {
                    if k < r.len() {
                        assert(t[k] == r[k]);
                    }
                }
                assert forall|j: int, k: int| 0 <= j < k < t.len() implies t[j] < t[k] by {
                    assert(t[j] == r[j]);
                    if k < r.len() {
                        assert(t[k] == r[k]);
                    }
                }
            }
        }
    }

    /// The search matches are entries of the screen's list, each once, in
    /// increasing order.
    pub proof fn law_matches_in_range(&self)
        requires
            self.list_len() <= usize::MAX,
        ensures
            forall|k: int|
                0 <= k < self.computed_matches().len() ==> (#[trigger] self.computed_matches()[k])
                    < self.list_len(),
            forall|j: int, k: int|
                0 <= j < k < self.computed_matches().len() ==> self.computed_matches()[j]
                    < self.computed_matches()[k],
    {
        if self.search_query@.len() != 0 {
            self.lemma_matches_upto_ordered(
                unicode_lowercase(self.search_query@),
                self.list_len() as int,
            );
        }
    }

    proof fn lemma_matches_upto_members(&self, q: Seq<char>, n: int, i: int)
        requires
            0 <= i < n <= usize::MAX,
        ensures
            self.matches_upto(q, n).contains(i as usize) <==> self.entry_matches(i, q),
        decreases n,
    {
        let r = self.matches_upto(q, n - 1);
        self.lemma_matches_upto_ordered(q, n - 1);
        if i < n - 1 {
            self.lemma_matches_upto_members(q, n - 1, i);
            if self.entry_matches(n - 1, q) {
                let t = r.push((n - 1) as usize);
                if t.contains(i as usize) {
                    let k = choose|k: int| 0 <= k < t.len() && t[k] == i as usize;
                    if k < r.len() {
                        assert(r[k] == t[k]);
                    }
                }
                if r.contains(i as usize) {
                    let k = choose|k: int| 0 <= k < r.len() && r[k] == i as usize;
                    assert(t[k] == r[k]);
                }
            }
        } else {
            if self.entry_matches(n - 1, q) {
                let t = r.push((n - 1) as usize);
                assert(t[r.len() as int] == i as usize);
            } else {
                if r.contains(i as usize) {
                    let k = choose|k: int| 0 <= k < r.len() && r[k] == i as usize;
                    assert(r[k] < n - 1);
                }
            }
        }
    }

    /// What a search finds: with an empty query every entry of the screen's
    /// list; otherwise exactly the entries whose text contains the query,
    /// upper and lower case alike: on the board list a board whose name or
    /// category contains it, on the thread list a thread whose title does,
    /// in a thread a post whose body or poster name does.
    pub proof fn law_search_finds(&self, i: int)
        requires
            self.list_len() <= usize::MAX,
            0 <= i < self.list_len(),
        ensures
            self.search_query@.len() == 0 ==> self.computed_matches().contains(i as usize),
            self.search_query@.len() > 0 ==> (self.computed_matches().contains(i as usize) <==> {
                let q = unicode_lowercase(self.search_query@);
                match self.screen {
                    Screen::BoardList => contains(unicode_lowercase(self.boards@[i].name@), q)
                        || contains(unicode_lowercase(self.boards@[i].category@), q),
                    Screen::ThreadList => contains(unicode_lowercase(self.threads@[i].title@), q),
                    Screen::ThreadView => contains(unicode_lowercase(self.posts@[i].body@), q)
                        || contains(unicode_lowercase(self.posts@[i].name@), q),
                    Screen::Compose => false,
                }
            }),
    {
        if self.search_query@.len() == 0 {
            assert(all_upto(self.list_len())[i] == i as usize);
        } else {
            self.lemma_matches_upto_members(
                unicode_lowercase(self.search_query@),
                self.list_len() as int,
                i,
            );
        }
    }

    /// The search matches of the current query: every entry for an empty
    /// query, otherwise the entries matching its lower case.
    pub open spec fn computed_matches(&self) -> Seq<usize> {
        if self.search_query@.len() == 0 {
            all_upto(self.list_len())
        } else {
            self.matches_upto(unicode_lowercase(self.search_query@), self.list_len() as int)
        }
    }

    fn entry_matches_exec(&self, i: usize, q: &[char]) -> (r: bool)
        requires
            i < self.list_len(),
        ensures
            r == self.entry_matches(i as int, q@),
    {
        match self.screen {
            Screen::BoardList => {
                let n = chars_of(lowercase(self.boards[i].name.as_str()).as_str());
                if contains_exec(n.as_slice(), q) {
                    return true;
                }
                let c = chars_of(lowercase(self.boards[i].category.as_str()).as_str());
                contains_exec(c.as_slice(), q)
            },
            Screen::ThreadList => {
                let t = chars_of(lowercase(self.threads[i].title.as_str()).as_str());
                contains_exec(t.as_slice(), q)
            },
            Screen::ThreadView => {
                let b = chars_of(lowercase(self.posts[i].body.as_str()).as_str());
                if contains_exec(b.as_slice(), q) {
                    return true;
                }
                let n = chars_of(lowercase(self.posts[i].name.as_str()).as_str());
                contains_exec(n.as_slice(), q)
            },
            Screen::Compose => false,
        }
    }

    fn list_len_exec(&self) -> (r: usize)
        ensures
            r == self.list_len(),
    {
        match self.screen {
            Screen::BoardList => self.boards.len(),
            Screen::ThreadList => self.threads.len(),
            Screen::ThreadView => self.posts.len(),
            Screen::Compose => 0,
        }
    }

    /// The search matches of the current query.
    pub fn compute_matches(&self) -> (r: Vec<usize>)
        ensures
            r@ == self.computed_matches(),
    {
        let n = self.list_len_exec();
        let mut out: Vec<usize> = Vec::new();
        if self.search_query.as_str().is_empty() {
            let mut i: usize = 0;
            while i < n
                invariant
                    i <= n,
                    out@ == all_upto(i as nat),
                decreases n - i,
            {
                out.push(i);
                i = i + 1;
                assert(out@ =~= all_upto(i as nat));
            }
            return out;
        }
        let q = chars_of(lowercase(self.search_query.as_str()).as_str());
        let mut i: usize = 0;
        while i < n
            invariant
                i <= n == self.list_len(),
                q@ == unicode_lowercase(self.search_query@),
                out@ == self.matches_upto(q@, i as int),
            decreases n - i,
        {
            if self.entry_matches_exec(i, q.as_slice()) {
                out.push(i);
            }
            i = i + 1;
        }
        out
    }

    /// The searched board matches are board indices.
    pub open spec fn board_matches_in_range(&self) -> bool {
        self.searching() ==> forall|k: int|
            0 <= k < self.search_matches@.len() ==> (#[trigger] self.search_matches@[k])
                < self.boards@.len()
    }

    /// The boards the board list shows: the search matches while a search
    /// is shown, otherwise every board.
    pub open spec fn list_indices(&self) -> Seq<usize> {
        if self.searching() {
            self.search_matches@
        } else {
            all_upto(self.boards@.len())
        }
    }

    /// The category of board `i`.
    pub open spec fn cat_of(&self, i: usize) -> Seq<char> {
        self.boards@[i as int].category@
    }

    /// The categories of the boards `idx`, in order of first appearance.
    pub open spec fn cat_order(&self, idx: Seq<usize>) -> Seq<Seq<char>>
        decreases idx.len(),
    {
        if idx.len() == 0 {
            Seq::empty()
        } else {
            let r = self.cat_order(idx.drop_last());
            let c = self.cat_of(idx.last());
            if r.contains(c) {
                r
            } else {
                r.push(c)
            }
        }
    }

    /// The boards of `idx` in category `c`, in order.
    pub open spec fn in_cat(&self, idx: Seq<usize>, c: Seq<char>) -> Seq<usize>
        decreases idx.len(),
    {
        if idx.len() == 0 {
            Seq::empty()
        } else {
            let r = self.in_cat(idx.drop_last(), c);
            if self.cat_of(idx.last()) == c {
                r.push(idx.last())
            } else {
                r
            }
        }
    }

    /// The rows of categories `cats`: a header with the number of boards of
    /// the category, then its boards unless the category is collapsed.
    pub open spec fn group_items(&self, idx: Seq<usize>, cats: Seq<Seq<char>>) -> Seq<ItemView>
        decreases cats.len(),
    {
        if cats.len() == 0 {
            Seq::empty()
        } else {
            let c = cats.last();
            let members = self.in_cat(idx, c);
            self.group_items(idx, cats.drop_last()) + seq![
                ItemView::Header { name: c, board_count: members.len() },
            ] + if string_set(self.collapsed_categories@).contains(c) {
                Seq::<ItemView>::empty()
            } else {
                members.map_values(|i: usize| ItemView::Board(i as nat))
            }
        }
    }

    /// The rows of the board list.
    pub open spec fn list_items(&self) -> Seq<ItemView> {
        self.group_items(self.list_indices(), self.cat_order(self.list_indices()))
    }

    fn list_indices_exec(&self) -> (r: Vec<usize>)
        ensures
            r@ == self.list_indices(),
    {
        let mut out: Vec<usize> = Vec::new();
        if self.search_active && self.search_matches.len() > 0 {
            let mut i: usize = 0;
            while i < self.search_matches.len()
                invariant
                    i <= self.search_matches@.len(),
                    out@ == self.search_matches@.take(i as int),
                decreases self.search_matches.len() - i,
            {
                out.push(self.search_matches[i]);
                i = i + 1;
                assert(out@ =~= self.search_matches@.take(i as int));
            }
            assert(out@ =~= self.search_matches@);
        } else {
            let n = self.boards.len();
            let mut i: usize = 0;
            while i < n
                invariant
                    i <= n == self.boards@.len(),
                    out@ == all_upto(i as nat),
                decreases n - i,
            {
                out.push(i);
                i = i + 1;
                assert(out@ =~= all_upto(i as nat));
            }
        }
        out
    }

    /// The rows of the board list: the categories of the shown boards in
    /// order of first appearance, each a header with its board count,
    /// followed by its boards unless collapsed.
    pub fn board_list_items(&self) -> (r: Vec<BoardListItem>)
        requires
            self.board_matches_in_range(),
        ensures
            items_view(r@) == self.list_items(),
    {
        let idx = self.list_indices_exec();
        let ghost iv = idx@;
        assert forall|k: int| 0 <= k < iv.len() implies (#[trigger] iv[k]) < self.boards@.len() by {
        }
        let mut cats: Vec<String> = Vec::new();
        let mut k: usize = 0;
        assert(iv.take(0) =~= Seq::<usize>::empty());
        while k < idx.len()
            invariant
                k <= iv.len(),
                iv == idx@,
                forall|m: int| 0 <= m < iv.len() ==> (#[trigger] iv[m]) < self.boards@.len(),
                strings_view(cats@) == self.cat_order(iv.take(k as int)),
            decreases idx.len() - k,
        {
            let c = &self.boards[idx[k]].category;
            assert(iv.take(k + 1).drop_last() =~= iv.take(k as int));
            assert(iv.take(k + 1).last() == iv[k as int]);
            if !set_contains(&cats, c) {
                let ghost before = strings_view(cats@);
                cats.push(c.clone());
                assert(strings_view(cats@) =~= before.push(c@));
            }
            k = k + 1;
        }
        assert(iv.take(iv.len() as int) =~= iv);
        let ghost cv = strings_view(cats@);
        let mut items: Vec<BoardListItem> = Vec::new();
        let mut j: usize = 0;
        assert(cv.take(0) =~= Seq::<Seq<char>>::empty());
        assert(items_view(items@) =~= Seq::<ItemView>::empty());
        while j < cats.len()
            invariant
                j <= cats@.len(),
                cv == strings_view(cats@),
                cv == self.cat_order(iv),
                iv == idx@,
                forall|m: int| 0 <= m < iv.len() ==> (#[trigger] iv[m]) < self.boards@.len(),
                items_view(items@) == self.group_items(iv, cv.take(j as int)),
            decreases cats.len() - j,
        {
            let c = &cats[j];
            assert(cv[j as int] == c@);
            let mut members: Vec<usize> = Vec::new();
            let mut k: usize = 0;
            while k < idx.len()
                invariant
                    k <= iv.len(),
                    iv == idx@,
                    forall|m: int| 0 <= m < iv.len() ==> (#[trigger] iv[m]) < self.boards@.len(),
                    members@ == self.in_cat(iv.take(k as int), c@),
                decreases idx.len() - k,
            {
                assert(iv.take(k + 1).drop_last() =~= iv.take(k as int));
                assert(iv.take(k + 1).last() == iv[k as int]);
                if self.boards[idx[k]].category == *c {
                    members.push(idx[k]);
                }
                k = k + 1;
            }
            assert(iv.take(iv.len() as int) =~= iv);
            let ghost before = items_view(items@);
            items.push(BoardListItem::CategoryHeader { name: c.clone(), board_count: members.len() });
            let collapsed = set_contains(&self.collapsed_categories, c);
            if !collapsed {
                let mut m: usize = 0;
                while m < members.len()
                    invariant
                        m <= members@.len(),
                        items_view(items@) == before + seq![
                            ItemView::Header { name: c@, board_count: members@.len() },
                        ] + members@.take(m as int).map_values(|i: usize| ItemView::Board(i as nat)),
                    decreases members.len() - m,
                {
                    let ghost b2 = items_view(items@);
                    items.push(BoardListItem::Board(members[m]));
                    assert(members@.take(m + 1) =~= members@.take(m as int).push(members@[m as int]));
                    assert(items_view(items@) =~= b2.push(ItemView::Board(members@[m as int] as nat)));
                    assert(items_view(items@) =~= before + seq![
                        ItemView::Header { name: c@, board_count: members@.len() },
                    ] + members@.take(m + 1).map_values(|i: usize| ItemView::Board(i as nat)));
                    m = m + 1;
                }
                assert(members@.take(members@.len() as int) =~= members@);
            } else {
                assert(items_view(items@) =~= before + seq![
                    ItemView::Header { name: c@, board_count: members@.len() },
                ]);
            }
            assert(cv.take(j + 1).drop_last() =~= cv.take(j as int));
            assert(cv.take(j + 1).last() == c@);
            assert(items_view(items@) =~= self.group_items(iv, cv.take(j + 1)));
            j = j + 1;
        }
        assert(cv.take(cv.len() as int) =~= cv);
        items
    }

    /// The board index of the selected row of the board list, if it is a
    /// board.
    pub open spec fn mapped_index(&self) -> Option<usize> {
        let items = self.list_items();
        if self.selected_index >= items.len() {
            None
        } else {
            match items[self.selected_index as int] {
                ItemView::Board(i) => Some(i as usize),
                ItemView::Header { .. } => None,
            }
        }
    }

    /// The board index of the selected row of the board list, if a board.
    pub fn board_list_mapped_index(&self) -> (r: Option<usize>)
        requires
            self.board_matches_in_range(),
        ensures
            r == self.mapped_index(),
    {
        let items = self.board_list_items();
        if self.selected_index >= items.len() {
            return None;
        }
        assert(items_view(items@)[self.selected_index as int] == items@[self.selected_index as int]@);
        match &items[self.selected_index] {
            BoardListItem::Board(i) => Some(*i),
            BoardListItem::CategoryHeader { .. } => None,
        }
    }

    /// The selected row is a category header (never while a search is
    /// shown).
    pub open spec fn selected_header(&self) -> bool {
        !self.searching() && self.selected_index < self.list_items().len()
            && self.list_items()[self.selected_index as int] is Header
    }

    /// Whether the selected row of the board list is a category header.
    pub fn selected_is_category_header(&self) -> (r: bool)
        ensures
            r == self.selected_header(),
    {
        if self.search_active && self.search_matches.len() > 0 {
            return false;
        }
        let items = self.board_list_items();
        if self.selected_index >= items.len() {
            return false;
        }
        assert(items_view(items@)[self.selected_index as int] == items@[self.selected_index as int]@);
        match &items[self.selected_index] {
            BoardListItem::CategoryHeader { .. } => true,
            BoardListItem::Board(_) => false,
        }
    }

    /// Collapse or expand the category whose header is selected; nothing
    /// else changes, and nothing happens on another row.
    pub fn toggle_category(&mut self)
        requires
            old(self).board_matches_in_range(),
        ensures
            category_toggled(*old(self), *final(self)),
            distinct_strings(old(self).collapsed_categories@) ==> distinct_strings(
                final(self).collapsed_categories@,
            ),
    {
        let items = self.board_list_items();
        if self.selected_index >= items.len() {
            return;
        }
        assert(items_view(items@)[self.selected_index as int] == items@[self.selected_index as int]@);
        match &items[self.selected_index] {
            BoardListItem::CategoryHeader { name, .. } => {
                set_toggle(&mut self.collapsed_categories, name);
            },
            BoardListItem::Board(_) => {},
        }
    }

    /// The number of selectable rows: board list rows, search matches, or
    /// the entries of the screen's list.
    pub open spec fn row_count(&self) -> nat {
        if self.screen == Screen::BoardList {
            self.list_items().len()
        } else if self.searching() {
            self.search_matches@.len()
        } else {
            self.list_len()
        }
    }

    /// The number of selectable rows.
    pub fn item_count(&self) -> (r: usize)
        requires
            self.screen == Screen::BoardList ==> self.board_matches_in_range(),
        ensures
            r == self.row_count(),
    {
        if self.screen == Screen::BoardList {
            self.board_list_items().len()
        } else if self.search_active && self.search_matches.len() > 0 {
            self.search_matches.len()
        } else {
            self.list_len_exec()
        }
    }

    /// The entry the selection stands for: the board of the selected row
    /// (or the first board), the selected search match (clamped to the
    /// last), or the selected index.
    pub open spec fn selected_entry(&self) -> usize {
        if self.screen == Screen::BoardList {
            match self.mapped_index() {
                Some(i) => i,
                None => 0,
            }
        } else if self.searching() {
            let last = self.search_matches@.len() - 1;
            self.search_matches@[if self.selected_index < last {
                self.selected_index as int
            } else {
                last
            }]
        } else {
            self.selected_index
        }
    }

    /// The entry the selection stands for (see `selected_entry`).
    pub fn map_selected_index(&self) -> (r: usize)
        requires
            self.screen == Screen::BoardList ==> self.board_matches_in_range(),
        ensures
            r == self.selected_entry(),
    {
        if self.screen == Screen::BoardList {
            match self.board_list_mapped_index() {
                Some(i) => i,
                None => 0,
            }
        } else if self.search_active && self.search_matches.len() > 0 {
            let last = self.search_matches.len() - 1;
            let k = if self.selected_index < last {
                self.selected_index
            } else {
                last
            };
            self.search_matches[k]
        } else {
            self.selected_index
        }
    }

    /// The first row (from `k` on) showing board `idx`.
    pub open spec fn board_row_from(items: Seq<ItemView>, idx: usize, k: int) -> Option<int>
        decreases items.len() - k,
    {
        if k < 0 || k >= items.len() {
            None
        } else if items[k] == ItemView::Board(idx as nat) {
            Some(k)
        } else {
            Self::board_row_from(items, idx, k + 1)
        }
    }

    /// The selection after leaving a search: the row of the selected match
    /// in the board list (or the first row when it is not shown), or the
    /// selected match itself; unchanged without a shown search.
    pub open spec fn selection_after_search(&self) -> usize {
        if self.searching() {
            let idx = self.selected_entry_of_matches();
            if self.screen == Screen::BoardList {
                match Self::board_row_from(self.list_items(), idx, 0) {
                    Some(k) => k as usize,
                    None => 0,
                }
            } else {
                idx
            }
        } else {
            self.selected_index
        }
    }

    /// The selected search match (clamped to the last one).
    pub open spec fn selected_entry_of_matches(&self) -> usize {
        let last = self.search_matches@.len() - 1;
        self.search_matches@[if self.selected_index < last {
            self.selected_index as int
        } else {
            last
        }]
    }

    /// Start a search: empty query, every entry matching, first row
    /// selected.
    pub fn enter_search(&mut self)
        ensures
            *final(self) == (AppState {
                search_active: true,
                search_query: final(self).search_query,
                search_matches: final(self).search_matches,
                selected_index: 0,
                list_offset: 0,
                ..*old(self)
            }),
            final(self).search_query@.len() == 0,
            final(self).search_matches@ == all_upto(old(self).list_len()),
    {
        self.search_active = true;
        self.search_query.clear();
        self.search_matches = self.compute_matches();
        self.selected_index = 0;
        self.list_offset = 0;
    }

    /// Leave the search: the selection moves to the selected match, the
    /// query and matches are cleared.
    pub fn exit_search(&mut self)
        requires
            old(self).screen == Screen::BoardList ==> old(self).board_matches_in_range(),
        ensures
            *final(self) == (AppState {
                selected_index: old(self).selection_after_search(),
                search_active: false,
                search_query: final(self).search_query,
                search_matches: final(self).search_matches,
                list_offset: 0,
                ..*old(self)
            }),
            final(self).search_query@.len() == 0,
            final(self).search_matches@.len() == 0,
    {
        if self.search_active && self.search_matches.len() > 0 {
            let last = self.search_matches.len() - 1;
            let k = if self.selected_index < last {
                self.selected_index
            } else {
                last
            };
            let idx = self.search_matches[k];
            if self.screen == Screen::BoardList {
                let items = self.board_list_items();
                let ghost iv = items_view(items@);
                let mut pos: usize = 0;
                let mut found = false;
                while pos < items.len()
                    invariant_except_break
                        !found,
                    invariant
                        pos <= items@.len(),
                        iv == items_view(items@),
                        Self::board_row_from(iv, idx, 0) == Self::board_row_from(iv, idx, pos as int),
                    ensures
                        found ==> pos < iv.len() && iv[pos as int] == ItemView::Board(idx as nat),
                        !found ==> pos >= iv.len(),
                    decreases items.len() - pos,
                {
                    assert(iv[pos as int] == items@[pos as int]@);
                    let hit = match &items[pos] {
                        BoardListItem::Board(i) => *i == idx,
                        BoardListItem::CategoryHeader { .. } => false,
                    };
                    if hit {
                        found = true;
                        break;
                    }
                    pos = pos + 1;
                }
                self.selected_index = if found {
                    pos
                } else {
                    0
                };
            } else {
                self.selected_index = idx;
            }
        }
        self.search_active = false;
        self.search_query.clear();
        self.search_matches.clear();
        self.list_offset = 0;
    }

    /// Type a character into the search: the matches follow the query, the
    /// first match is selected.
    pub fn search_push_char(&mut self, c: char)
        ensures
            search_typed(*old(self), *final(self), c),
    {
        self.search_query.push(c);
        let m = self.compute_matches();
        let ghost mid = *self;
        self.search_matches = m;
        self.selected_index = 0;
        proof {
            Self::lemma_matches_frame(&mid, self, unicode_lowercase(self.search_query@), self.list_len() as int);
        }
    }

    /// Erase the last character of the search: the matches follow the
    /// query, the first match is selected.
    pub fn search_pop_char(&mut self)
        ensures
            search_erased(*old(self), *final(self)),
    {
        self.search_query.pop();
        let m = self.compute_matches();
        let ghost mid = *self;
        self.search_matches = m;
        self.selected_index = 0;
        proof {
            Self::lemma_matches_frame(&mid, self, unicode_lowercase(self.search_query@), self.list_len() as int);
        }
    }

    /// Go back one screen: leave a search first; from the thread list to
    /// the board list, from a thread to the thread list, dropping what
    /// belonged to the screen left.
    pub fn go_back(&mut self)
        requires
            old(self).search_active && old(self).screen == Screen::BoardList ==> old(
                self,
            ).board_matches_in_range(),
        ensures
            old(self).search_active ==> *final(self) == (AppState {
                selected_index: old(self).selection_after_search(),
                search_active: false,
                search_query: final(self).search_query,
                search_matches: final(self).search_matches,
                list_offset: 0,
                ..*old(self)
            }) && final(self).search_query@.len() == 0 && final(self).search_matches@.len() == 0,
            !old(self).search_active && old(self).screen == Screen::ThreadList ==> *final(self)
                == (AppState {
                screen: Screen::BoardList,
                selected_index: 0,
                scroll_offset: 0,
                list_offset: 0,
                current_board: None,
                current_board_url: None,
                ..*old(self)
            }),
            !old(self).search_active && old(self).screen == Screen::ThreadView ==> *final(self)
                == (AppState {
                screen: Screen::ThreadList,
                selected_index: 0,
                scroll_offset: 0,
                list_offset: 0,
                posts: final(self).posts,
                current_thread_title: None,
                current_thread_id: None,
                thread_info: None,
                ..*old(self)
            }) && final(self).posts@.len() == 0,
            !old(self).search_active && (old(self).screen == Screen::BoardList || old(self).screen
                == Screen::Compose) ==> *final(self) == *old(self),
    {
        if self.search_active {
            self.exit_search();
            return;
        }
        match self.screen {
            Screen::ThreadList => {
                self.screen = Screen::BoardList;
                self.selected_index = 0;
                self.scroll_offset = 0;
                self.list_offset = 0;
                self.current_board = None;
                self.current_board_url = None;
            },
            Screen::ThreadView => {
                self.screen = Screen::ThreadList;
                self.selected_index = 0;
                self.scroll_offset = 0;
                self.list_offset = 0;
                self.posts.clear();
                self.current_thread_title = None;
                self.current_thread_id = None;
                self.thread_info = None;
            },
            _ => {},
        }
    }
}

/// `after` is `before` with `c` typed into the search: the query grows by
/// `c`, the matches follow it, the first match is selected.
pub open spec fn search_typed(before: AppState, after: AppState, c: char) -> bool {
    &&& after == (AppState {
        search_query: after.search_query,
        search_matches: after.search_matches,
        selected_index: 0,
        ..before
    })
    &&& after.search_query@ == before.search_query@.push(c)
    &&& after.search_matches@ == after.computed_matches()
}

/// `after` is `before` with the last character of the query erased (none
/// when it is empty): the matches follow it, the first match is selected.
pub open spec fn search_erased(before: AppState, after: AppState) -> bool {
    &&& after == (AppState {
        search_query: after.search_query,
        search_matches: after.search_matches,
        selected_index: 0,
        ..before
    })
    &&& after.search_query@ == if before.search_query@.len() > 0 {
        before.search_query@.drop_last()
    } else {
        before.search_query@
    }
    &&& after.search_matches@ == after.computed_matches()
}

/// Erasing a character undoes typing it: the query and the matches are
/// those of before, the first match selected.
pub proof fn law_erase_undoes_type(s0: AppState, s1: AppState, s2: AppState, c: char)
    requires
        search_typed(s0, s1, c),
        search_erased(s1, s2),
    ensures
        s2 == (AppState {
            search_query: s2.search_query,
            search_matches: s2.search_matches,
            selected_index: 0,
            ..s0
        }),
        s2.search_query@ == s0.search_query@,
        s2.search_matches@ == s0.computed_matches(),
{
    assert(s0.search_query@.push(c).drop_last() =~= s0.search_query@);
    AppState::lemma_computed_matches_frame(&s2, &s0);
}

/// `a - b`, or zero when `b` is larger (`usize::saturating_sub`).
pub open spec fn sat_sub(a: int, b: int) -> int {
    if a > b {
        a - b
    } else {
        0
    }
}

/// The state after moving the selection down a row: the next row, if any,
/// and the first row shown moved down as far as it takes to show it.
/// Nothing changes on an empty list.
pub open spec fn after_next_item(s: AppState) -> AppState {
    let len = s.row_count();
    let sel = if s.selected_index + 1 < len {
        s.selected_index + 1
    } else {
        s.selected_index as int
    };
    let max_offset = sat_sub(sel, s.visible_items - 1);
    if len == 0 {
        s
    } else {
        AppState {
            selected_index: sel as usize,
            list_offset: if s.visible_items > 0 && s.list_offset < max_offset {
                max_offset as usize
            } else {
                s.list_offset
            },
            ..s
        }
    }
}

/// The state after moving the selection up a row: the previous row, if
/// any, and the first row shown moved up to it when it was above.
pub open spec fn after_prev_item(s: AppState) -> AppState {
    let sel = if s.selected_index > 0 {
        (s.selected_index - 1) as usize
    } else {
        s.selected_index
    };
    AppState {
        selected_index: sel,
        list_offset: if sel < s.list_offset {
            sel
        } else {
            s.list_offset
        },
        ..s
    }
}

/// The selection is a row of the list, when the list has rows.
pub open spec fn selection_in_list(s: AppState) -> bool {
    s.row_count() > 0 ==> s.selected_index < s.row_count()
}

/// The selected row is among the rows shown, when rows are shown.
pub open spec fn selection_on_screen(s: AppState) -> bool {
    s.visible_items > 0 ==> s.list_offset <= s.selected_index < s.list_offset + s.visible_items
}

impl AppState {
    proof fn lemma_cat_order_frame(a: &Self, b: &Self, idx: Seq<usize>)
        requires
            a.boards@ == b.boards@,
        ensures
            a.cat_order(idx) == b.cat_order(idx),
        decreases idx.len(),
    {
        if idx.len() > 0 {
            Self::lemma_cat_order_frame(a, b, idx.drop_last());
        }
    }

    proof fn lemma_in_cat_frame(a: &Self, b: &Self, idx: Seq<usize>, c: Seq<char>)
        requires
            a.boards@ == b.boards@,
        ensures
            a.in_cat(idx, c) == b.in_cat(idx, c),
        decreases idx.len(),
    {
        if idx.len() > 0 {
            Self::lemma_in_cat_frame(a, b, idx.drop_last(), c);
        }
    }

    proof fn lemma_group_items_frame(a: &Self, b: &Self, idx: Seq<usize>, cats: Seq<Seq<char>>)
        requires
            a.boards@ == b.boards@,
            a.collapsed_categories@ == b.collapsed_categories@,
        ensures
            a.group_items(idx, cats) == b.group_items(idx, cats),
        decreases cats.len(),
    {
        if cats.len() > 0 {
            Self::lemma_group_items_frame(a, b, idx, cats.drop_last());
            Self::lemma_in_cat_frame(a, b, idx, cats.last());
        }
    }

    /// The rows of the lists depend on the screen, the lists, the search
    /// and the collapsed categories alone.
    pub proof fn lemma_rows_frame(a: &Self, b: &Self)
        requires
            a.screen == b.screen,
            a.boards@ == b.boards@,
            a.threads@ == b.threads@,
            a.posts@ == b.posts@,
            a.search_active == b.search_active,
            a.search_matches@ == b.search_matches@,
            a.collapsed_categories@ == b.collapsed_categories@,
        ensures
            a.list_items() == b.list_items(),
            a.row_count() == b.row_count(),
    {
        Self::lemma_cat_order_frame(a, b, a.list_indices());
        Self::lemma_group_items_frame(a, b, a.list_indices(), a.cat_order(a.list_indices()));
    }
}

impl AppState {
    proof fn lemma_in_cat_bounded(&self, idx: Seq<usize>, c: Seq<char>, n: int)
        requires
            forall|j: int| 0 <= j < idx.len() ==> (#[trigger] idx[j]) < n,
        ensures
            forall|m: int|
                0 <= m < self.in_cat(idx, c).len() ==> (#[trigger] self.in_cat(idx, c)[m]) < n,
        decreases idx.len(),
    {
        if idx.len() > 0 {
            let init = idx.drop_last();
            assert forall|j: int| 0 <= j < init.len() implies (#[trigger] init[j]) < n by {
                assert(init[j] == idx[j]);
            }
            self.lemma_in_cat_bounded(init, c, n);
            assert(idx[idx.len() - 1] == idx.last());
            let r = self.in_cat(init, c);
            if self.cat_of(idx.last()) == c {
                let t = r.push(idx.last());
                assert(t == self.in_cat(idx, c));
                assert forall|m: int| 0 <= m < t.len() implies (#[trigger] t[m]) < n by {
                    if m < r.len() {
                        assert(t[m] == r[m]);
                    }
                }
            }
        }
    }

    proof fn lemma_group_items_bounded(&self, idx: Seq<usize>, cats: Seq<Seq<char>>, n: int)
        requires
            forall|j: int| 0 <= j < idx.len() ==> (#[trigger] idx[j]) < n,
        ensures
            forall|k: int|
                0 <= k < self.group_items(idx, cats).len() ==> ((#[trigger] self.group_items(
                    idx,
                    cats,
                )[k]) matches ItemView::Board(i) ==> i < n),
        decreases cats.len(),
    {
        if cats.len() > 0 {
            self.lemma_group_items_bounded(idx, cats.drop_last(), n);
            let c = cats.last();
            let members = self.in_cat(idx, c);
            self.lemma_in_cat_bounded(idx, c, n);
            let a = self.group_items(idx, cats.drop_last());
            let h = seq![ItemView::Header { name: c, board_count: members.len() }];
            let t = if string_set(self.collapsed_categories@).contains(c) {
                Seq::<ItemView>::empty()
            } else {
                members.map_values(|i: usize| ItemView::Board(i as nat))
            };
            let g = self.group_items(idx, cats);
            assert(g == a + h + t);
            assert forall|k: int| 0 <= k < g.len() implies ((#[trigger] g[k]) matches ItemView::Board(
                i,
            ) ==> i < n) by {
                if k < a.len() {
                    assert(g[k] == a[k]);
                } else if k == a.len() {
                } else {
                    assert(g[k] == t[k - a.len() - 1]);
                }
            }
        }
    }
}

/// `after` is `before` with the category whose header is selected
/// collapsed or expanded; nothing changes on another row.
pub open spec fn category_toggled(before: AppState, after: AppState) -> bool {
    &&& after == (AppState { collapsed_categories: after.collapsed_categories, ..before })
    &&& ({
        let items = before.list_items();
        let sel = before.selected_index as int;
        if sel < items.len() && items[sel] is Header {
            let name = items[sel]->Header_name;
            if string_set(before.collapsed_categories@).contains(name) {
                string_set(after.collapsed_categories@) == string_set(
                    before.collapsed_categories@,
                ).remove(name)
            } else {
                string_set(after.collapsed_categories@) == string_set(
                    before.collapsed_categories@,
                ).insert(name)
            }
        } else {
            after.collapsed_categories@ == before.collapsed_categories@
        }
    })
}

impl AppState {
    proof fn lemma_cat_order_distinct(&self, idx: Seq<usize>)
        ensures
            self.cat_order(idx).no_duplicates(),
        decreases idx.len(),
    {
        if idx.len() > 0 {
            self.lemma_cat_order_distinct(idx.drop_last());
        }
    }

    /// The rows of the first `k + 1` categories begin the rows of all of
    /// them, the header of category `k` last among them.
    proof fn lemma_group_prefix(&self, idx: Seq<usize>, cats: Seq<Seq<char>>, k: int)
        requires
            0 <= k < cats.len(),
        ensures
            self.group_items(idx, cats).len() > self.group_items(idx, cats.take(k)).len(),
            self.group_items(idx, cats)[self.group_items(idx, cats.take(k)).len() as int]
                == (ItemView::Header {
                name: cats[k],
                board_count: self.in_cat(idx, cats[k]).len(),
            }),
        decreases cats.len(),
    {
        let d = cats.drop_last();
        if k == cats.len() - 1 {
            assert(cats.take(k) =~= d);
        } else {
            self.lemma_group_prefix(idx, d, k);
            assert(d.take(k) =~= cats.take(k));
            assert(d[k] == cats[k]);
        }
    }

    /// A header row is the header of some category `k`, after the rows of
    /// the categories before it.
    proof fn lemma_header_position(&self, idx: Seq<usize>, cats: Seq<Seq<char>>, r: int)
        requires
            0 <= r < self.group_items(idx, cats).len(),
            self.group_items(idx, cats)[r] is Header,
        ensures
            exists|k: int|
                0 <= k < cats.len() && self.group_items(idx, cats)[r]->Header_name == cats[k]
                    && r == self.group_items(idx, cats.take(k)).len(),
        decreases cats.len(),
    {
        let d = cats.drop_last();
        let c = cats.last();
        let a = self.group_items(idx, d);
        let members = self.in_cat(idx, c);
        let t = if string_set(self.collapsed_categories@).contains(c) {
            Seq::<ItemView>::empty()
        } else {
            members.map_values(|i: usize| ItemView::Board(i as nat))
        };
        let g = self.group_items(idx, cats);
        assert(g == a + seq![ItemView::Header { name: c, board_count: members.len() }] + t);
        if r < a.len() {
            assert(g[r] == a[r]);
            self.lemma_header_position(idx, d, r);
            let k = choose|k: int|
                0 <= k < d.len() && a[r]->Header_name == d[k] && r == self.group_items(
                    idx,
                    d.take(k),
                ).len();
            assert(d.take(k) =~= cats.take(k));
            assert(d[k] == cats[k]);
        } else if r == a.len() {
            let k = cats.len() - 1;
            assert(cats.take(k) =~= d);
            assert(cats[k] == c);
        } else {
            assert(g[r] == t[r - a.len() - 1]);
        }
    }

    /// States that agree on the boards and on whether each of the first
    /// `k` categories is collapsed have the same rows for them.
    proof fn lemma_group_frame_prefix(
        a: &Self,
        b: &Self,
        idx: Seq<usize>,
        cats: Seq<Seq<char>>,
        k: int,
    )
        requires
            0 <= k <= cats.len(),
            a.boards@ == b.boards@,
            forall|j: int|
                0 <= j < k ==> string_set(a.collapsed_categories@).contains(#[trigger] cats[j])
                    == string_set(b.collapsed_categories@).contains(cats[j]),
        ensures
            a.group_items(idx, cats.take(k)) == b.group_items(idx, cats.take(k)),
        decreases k,
    {
        if k > 0 {
            Self::lemma_group_frame_prefix(a, b, idx, cats, k - 1);
            assert(cats.take(k).drop_last() =~= cats.take(k - 1));
            assert(cats.take(k).last() == cats[k - 1]);
            Self::lemma_in_cat_frame(a, b, idx, cats[k - 1]);
        }
    }
}

/// Toggling a category twice restores the collapsed categories.
pub proof fn law_toggle_category_twice(s0: AppState, s1: AppState, s2: AppState)
    requires
        category_toggled(s0, s1),
        category_toggled(s1, s2),
    ensures
        string_set(s2.collapsed_categories@) == string_set(s0.collapsed_categories@),
{
    let items0 = s0.list_items();
    let sel = s0.selected_index as int;
    let c0 = string_set(s0.collapsed_categories@);
    if sel < items0.len() && items0[sel] is Header {
        let c = items0[sel]->Header_name;
        let idx = s0.list_indices();
        assert(s1.list_indices() == idx);
        AppState::lemma_cat_order_frame(&s0, &s1, idx);
        let cats = s0.cat_order(idx);
        s0.lemma_header_position(idx, cats, sel);
        let k = choose|k: int|
            0 <= k < cats.len() && items0[sel]->Header_name == cats[k] && sel == s0.group_items(
                idx,
                cats.take(k),
            ).len();
        s0.lemma_cat_order_distinct(idx);
        let c1 = string_set(s1.collapsed_categories@);
        assert forall|j: int| 0 <= j < k implies c0.contains(#[trigger] cats[j]) == c1.contains(
            cats[j],
        ) by {
            assert(cats[j] != cats[k]);
        }
        AppState::lemma_group_frame_prefix(&s0, &s1, idx, cats, k);
        s1.lemma_group_prefix(idx, cats, k);
        assert(s1.list_items()[sel] is Header);
        assert(s1.list_items()[sel]->Header_name == c);
        if c0.contains(c) {
            assert(string_set(s2.collapsed_categories@) =~= c0);
        } else {
            assert(string_set(s2.collapsed_categories@) =~= c0);
        }
    } else {
        AppState::lemma_rows_frame(&s1, &s0);
    }
}

/// Every board row of the board list names a board, so on the board list
/// the selection always stands for a board of the list.
pub proof fn law_board_rows_name_boards(s: AppState)
    requires
        s.board_matches_in_range(),
        s.boards@.len() <= usize::MAX,
    ensures
        forall|k: int|
            0 <= k < s.list_items().len() ==> ((#[trigger] s.list_items()[k]) matches ItemView::Board(
                i,
            ) ==> i < s.boards@.len()),
        s.screen == Screen::BoardList && s.boards@.len() > 0 ==> s.selected_entry()
            < s.boards@.len(),
{
    let idx = s.list_indices();
    assert forall|j: int| 0 <= j < idx.len() implies (#[trigger] idx[j]) < s.boards@.len() by {
    }
    s.lemma_group_items_bounded(idx, s.cat_order(idx), s.boards@.len() as int);
    if s.screen == Screen::BoardList && s.boards@.len() > 0 {
        let items = s.list_items();
        if s.selected_index < items.len() {
            let k = s.selected_index as int;
            match items[k] {
                ItemView::Board(i) => {
                    assert(i < s.boards@.len());
                },
                _ => {},
            }
        }
    }
}

/// Moving the selection a row down or up keeps it a row of the list and
/// on screen.
pub proof fn law_row_moves_keep_selection(s: AppState)
    requires
        s.row_count() <= usize::MAX,
        selection_in_list(s),
        selection_on_screen(s),
    ensures
        selection_in_list(after_next_item(s)),
        selection_on_screen(after_next_item(s)),
        selection_in_list(after_prev_item(s)),
        selection_on_screen(after_prev_item(s)),
{
    AppState::lemma_rows_frame(&after_next_item(s), &s);
    AppState::lemma_rows_frame(&after_prev_item(s), &s);
}

impl AppState {
    /// Select the next row, keeping it on screen; nothing on an empty list.
    pub fn next_item(&mut self)
        requires
            old(self).screen == Screen::BoardList ==> old(self).board_matches_in_range(),
            old(self).row_count() == 0 || old(self).selected_index < usize::MAX,
        ensures
            *final(self) == after_next_item(*old(self)),
    {
        let len = self.item_count();
        if len == 0 {
            return;
        }
        if self.selected_index + 1 < len {
            self.selected_index = self.selected_index + 1;
        }
        if self.visible_items > 0 {
            let max_offset = self.selected_index.saturating_sub(self.visible_items - 1);
            if self.list_offset < max_offset {
                self.list_offset = max_offset;
            }
        }
    }

    /// Select the previous row, keeping it on screen.
    pub fn prev_item(&mut self)
        ensures
            *final(self) == after_prev_item(*old(self)),
    {
        if self.selected_index > 0 {
            self.selected_index = self.selected_index - 1;
        }
        if self.selected_index < self.list_offset {
            self.list_offset = self.selected_index;
        }
    }

    /// Scroll the thread down one line.
    pub fn scroll_down(&mut self)
        requires
            old(self).scroll_offset < usize::MAX,
        ensures
            *final(self) == (AppState { scroll_offset: (old(self).scroll_offset + 1) as usize, ..*old(self) }),
    {
        self.scroll_offset = self.scroll_offset + 1;
    }

    /// Scroll the thread up one line (not above the top).
    pub fn scroll_up(&mut self)
        ensures
            *final(self) == (AppState {
                scroll_offset: if old(self).scroll_offset > 0 {
                    (old(self).scroll_offset - 1) as usize
                } else {
                    0
                },
                ..*old(self)
            }),
    {
        if self.scroll_offset > 0 {
            self.scroll_offset = self.scroll_offset - 1;
        }
    }

    /// Go to the top: first row of a list, first line of a thread.
    pub fn scroll_to_top(&mut self)
        ensures
            (old(self).screen == Screen::BoardList || old(self).screen == Screen::ThreadList)
                ==> *final(self) == (AppState { selected_index: 0, list_offset: 0, ..*old(self) }),
            old(self).screen == Screen::ThreadView ==> *final(self) == (AppState {
                scroll_offset: 0,
                ..*old(self)
            }),
            old(self).screen == Screen::Compose ==> *final(self) == *old(self),
    {
        match self.screen {
            Screen::BoardList | Screen::ThreadList => {
                self.selected_index = 0;
                self.list_offset = 0;
            },
            Screen::ThreadView => {
                self.scroll_offset = 0;
            },
            Screen::Compose => {},
        }
    }
}

} // verus!
