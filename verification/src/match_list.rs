//! The selection state over the current match set: a cursor row inside the
//! viewport and the viewport's offset into the match set, with the pagination
//! and clamping rules.

use vstd::prelude::*;

verus! {

/// The indices are strictly ascending.
pub open spec fn strictly_ascending(s: Seq<usize>) -> bool {
    forall|k1: int, k2: int| 0 <= k1 < k2 < s.len() ==> s[k1] < s[k2]
}

/// Every index points into a list of `n` items.
pub open spec fn indices_in_range(s: Seq<usize>, n: int) -> bool {
    forall|k: int| 0 <= k < s.len() ==> s[k] < n
}

/// What `move_up` does to the cursor/offset pair: the cursor steps up, or
/// failing that the window does.
pub open spec fn spec_move_up(cursor: usize, offset: usize) -> (usize, usize) {
    if cursor > 0 {
        ((cursor - 1) as usize, offset)
    } else if offset > 0 {
        (cursor, (offset - 1) as usize)
    } else {
        (cursor, offset)
    }
}

/// What `move_down` does: the cursor steps down inside the viewport, or the
/// window shifts, never past the last full window of a match set of `len`.
pub open spec fn spec_move_down(cursor: usize, offset: usize, height: usize, len: int) -> (
    usize,
    usize,
) {
    if cursor < height {
        ((cursor + 1) as usize, offset)
    } else if offset < len - height - 1 {
        (cursor, (offset + 1) as usize)
    } else {
        (cursor, offset)
    }
}

/// What `move_up_page` does: a step of one viewport height, clamped at zero.
pub open spec fn spec_move_up_page(cursor: usize, offset: usize, height: usize) -> (usize, usize) {
    if cursor > 0 {
        if cursor >= height {
            ((cursor - height) as usize, offset)
        } else {
            (0usize, offset)
        }
    } else if offset > 0 {
        if offset >= height {
            (cursor, (offset - height) as usize)
        } else {
            (cursor, 0usize)
        }
    } else {
        (cursor, offset)
    }
}

/// What `move_down_page` does: the cursor jumps to the bottom row of the
/// viewport, or the window shifts one height, clamped to the last full window.
pub open spec fn spec_move_down_page(cursor: usize, offset: usize, height: usize, len: int) -> (
    usize,
    usize,
) {
    if cursor < height {
        (height, offset)
    } else if offset < len - height - 1 {
        let limit = len - height - 1;
        if offset + height > limit {
            (cursor, limit as usize)
        } else {
            (cursor, (offset + height) as usize)
        }
    } else {
        (cursor, offset)
    }
}

/// What `adjust_cursor` does: pulls a cursor that fell past the match set
/// back onto its last entry; no-op when the set is empty.
pub open spec fn spec_adjust_cursor(cursor: usize, len: int) -> usize {
    if len > 0 && cursor >= len {
        (len - 1) as usize
    } else {
        cursor
    }
}

/// What `adjust_offset` does: resets a window that fell off the match set.
pub open spec fn spec_adjust_offset(offset: usize, len: int) -> usize {
    if offset > len {
        0usize
    } else {
        offset
    }
}

/// The final step of `clamp_selection`: with the cursor already inside the
/// match set, pull the window up until the selection is a valid entry.
pub open spec fn spec_clamp_pair(cursor: usize, offset: usize, len: int) -> (usize, usize) {
    if len > 0 && cursor + offset >= len {
        (cursor, (len - 1 - cursor) as usize)
    } else {
        (cursor, offset)
    }
}

/// The match set, the item list it indexes, and the cursor/offset pair over it.
pub struct MatchList {
    height: usize,
    cursor: usize,
    offset: usize,
    matches: Vec<usize>,
    items: Vec<String>,
}

impl MatchList {
    #[verifier::type_invariant]
    spec fn inv(self) -> bool {
        &&& self.cursor <= self.height
        &&& strictly_ascending(self.matches@)
        &&& indices_in_range(self.matches@, self.items@.len() as int)
    }

    /// The viewport height.
    pub closed spec fn spec_height(self) -> usize {
        self.height
    }

    /// The cursor row within the viewport.
    pub closed spec fn spec_cursor(self) -> usize {
        self.cursor
    }

    /// The match-set index of the first visible row.
    pub closed spec fn spec_offset(self) -> usize {
        self.offset
    }

    /// The match set: indices into the item list, ascending.
    pub closed spec fn spec_matches(self) -> Seq<usize> {
        self.matches@
    }

    /// The items, as sequences of characters.
    pub closed spec fn spec_items(self) -> Seq<Seq<char>> {
        self.items.deep_view()
    }

    /// Everything but the cursor/offset pair is the same in both states.
    pub open spec fn same_but_selection(self, other: MatchList) -> bool {
        &&& other.spec_height() == self.spec_height()
        &&& other.spec_matches() == self.spec_matches()
        &&& other.spec_items() == self.spec_items()
    }

    /// The item selected by `cursor + offset`.
    pub open spec fn spec_selection(self) -> Seq<char> {
        self.spec_items()[self.spec_matches()[self.spec_cursor() + self.spec_offset()] as int]
    }

    /// An empty list with the given viewport height.
    pub fn new(height: usize) -> (m: MatchList)
        ensures
            m.spec_height() == height,
            m.spec_cursor() == 0,
            m.spec_offset() == 0,
            m.spec_matches() == Seq::<usize>::empty(),
            m.spec_items() == Seq::<Seq<char>>::empty(),
    {
        let m = MatchList {
            height,
            cursor: 0,
            offset: 0,
            matches: Vec::new(),
            items: Vec::new(),
        };
        proof {
            assert(m.spec_items() =~= Seq::<Seq<char>>::empty());
        }
        m
    }

    /// The viewport height.
    pub fn height(&self) -> (h: usize)
        ensures
            h == self.spec_height(),
    {
        self.height
    }

    /// The cursor row.
    pub fn cursor(&self) -> (c: usize)
        ensures
            c == self.spec_cursor(),
    {
        self.cursor
    }

    /// The viewport offset.
    pub fn offset(&self) -> (o: usize)
        ensures
            o == self.spec_offset(),
    {
        self.offset
    }

    /// The current match set.
    pub fn matches(&self) -> (r: &Vec<usize>)
        ensures
            r@ == self.spec_matches(),
            strictly_ascending(r@),
            indices_in_range(r@, self.spec_items().len() as int),
    {
        proof {
            use_type_invariant(self);
        }
        &self.matches
    }

    /// The item list.
    pub fn items(&self) -> (r: &Vec<String>)
        ensures
            r.deep_view() == self.spec_items(),
    {
        &self.items
    }

    /// Appends a chunk of newly arrived items; nothing else changes.
    pub fn push_items(&mut self, chunk: Vec<String>)
        ensures
            final(self).spec_items() == old(self).spec_items() + chunk.deep_view(),
            final(self).spec_matches() == old(self).spec_matches(),
            final(self).spec_height() == old(self).spec_height(),
            final(self).spec_cursor() == old(self).spec_cursor(),
            final(self).spec_offset() == old(self).spec_offset(),
    {
        proof {
            use_type_invariant(&*self);
        }
        let mut chunk = chunk;
        let ghost chunk0 = chunk.deep_view();
        let mut ms: Vec<usize> = Vec::new();
        std::mem::swap(&mut ms, &mut self.matches);
        let mut grown: Vec<String> = Vec::new();
        std::mem::swap(&mut grown, &mut self.items);
        grown.append(&mut chunk);
        self.items = grown;
        self.matches = ms;
        proof {
            assert(final(self).spec_items() =~= old(self).spec_items() + chunk0);
        }
    }

    /// Replaces the match set; cursor and offset are left for the clamping step.
    pub fn set_matches(&mut self, m: Vec<usize>)
        requires
            strictly_ascending(m@),
            indices_in_range(m@, old(self).spec_items().len() as int),
        ensures
            final(self).spec_matches() == m@,
            final(self).spec_items() == old(self).spec_items(),
            final(self).spec_height() == old(self).spec_height(),
            final(self).spec_cursor() == old(self).spec_cursor(),
            final(self).spec_offset() == old(self).spec_offset(),
    {
        proof {
            use_type_invariant(&*self);
        }
        self.matches = m;
    }

    /// Moves the selection up one row, shifting the window at the top edge.
    pub fn move_up(&mut self)
        ensures
            old(self).same_but_selection(*final(self)),
            (final(self).spec_cursor(), final(self).spec_offset()) == spec_move_up(
                old(self).spec_cursor(),
                old(self).spec_offset(),
            ),
    {
        proof {
            use_type_invariant(&*self);
        }
        if self.cursor > 0 {
            self.cursor = self.cursor - 1;
        } else if self.offset > 0 {
            self.offset = self.offset - 1;
        }
    }

    /// Moves the selection down one row, shifting the window at the bottom
    /// edge, never past the last full window.
    pub fn move_down(&mut self)
        ensures
            old(self).same_but_selection(*final(self)),
            (final(self).spec_cursor(), final(self).spec_offset()) == spec_move_down(
                old(self).spec_cursor(),
                old(self).spec_offset(),
                old(self).spec_height(),
                old(self).spec_matches().len() as int,
            ),
    {
        proof {
            use_type_invariant(&*self);
        }
        if self.cursor < self.height {
            self.cursor = self.cursor + 1;
        } else if self.matches.len() > self.height && self.offset < self.matches.len()
            - self.height - 1 {
            self.offset = self.offset + 1;
        }
    }

    /// Moves up by one viewport height, clamped at the top.
    pub fn move_up_page(&mut self)
        ensures
            old(self).same_but_selection(*final(self)),
            (final(self).spec_cursor(), final(self).spec_offset()) == spec_move_up_page(
                old(self).spec_cursor(),
                old(self).spec_offset(),
                old(self).spec_height(),
            ),
    {
        proof {
            use_type_invariant(&*self);
        }
        if self.cursor > 0 {
            if self.cursor >= self.height {
                self.cursor = self.cursor - self.height;
            } else {
                self.cursor = 0;
            }
        } else if self.offset > 0 {
            if self.offset >= self.height {
                self.offset = self.offset - self.height;
            } else {
                self.offset = 0;
            }
        }
    }

    /// Moves down by one viewport height, clamped at the bottom.
    pub fn move_down_page(&mut self)
        ensures
            old(self).same_but_selection(*final(self)),
            (final(self).spec_cursor(), final(self).spec_offset()) == spec_move_down_page(
                old(self).spec_cursor(),
                old(self).spec_offset(),
                old(self).spec_height(),
                old(self).spec_matches().len() as int,
            ),
    {
        proof {
            use_type_invariant(&*self);
        }
        if self.cursor < self.height {
            self.cursor = self.height;
        } else if self.matches.len() > self.height && self.offset < self.matches.len()
            - self.height - 1 {
            let limit = self.matches.len() - self.height - 1;
            if self.offset + self.height > limit {
                self.offset = limit;
            } else {
                self.offset = self.offset + self.height;
            }
        }
    }

    /// After a match-set replacement: if the cursor fell past the end of the
    /// match set, clamp it to the last entry; no-op when the set is empty.
    pub fn adjust_cursor(&mut self)
        ensures
            old(self).same_but_selection(*final(self)),
            final(self).spec_offset() == old(self).spec_offset(),
            final(self).spec_cursor() == spec_adjust_cursor(
                old(self).spec_cursor(),
                old(self).spec_matches().len() as int,
            ),
    {
        proof {
            use_type_invariant(&*self);
        }
        if self.matches.len() > 0 && self.cursor >= self.matches.len() {
            self.cursor = self.matches.len() - 1;
        }
    }

    /// After a match-set replacement: if the offset points past the match set,
    /// reset the window to the top.
    pub fn adjust_offset(&mut self)
        ensures
            old(self).same_but_selection(*final(self)),
            final(self).spec_cursor() == old(self).spec_cursor(),
            final(self).spec_offset() == spec_adjust_offset(
                old(self).spec_offset(),
                old(self).spec_matches().len() as int,
            ),
    {
        proof {
            use_type_invariant(&*self);
        }
        if self.offset > self.matches.len() {
            self.offset = 0;
        }
    }

    /// Re-establishes the selection invariant before a draw or a confirm:
    /// after both adjustments, if the match set is non-empty and
    /// `cursor + offset` still points past it, the window is pulled up so that
    /// the selection lands on the last match. Afterwards a non-empty match set
    /// always has `cursor + offset` on a valid entry.
    pub fn clamp_selection(&mut self)
        ensures
            old(self).same_but_selection(*final(self)),
            (final(self).spec_cursor(), final(self).spec_offset()) == spec_clamp_pair(
                spec_adjust_cursor(
                    old(self).spec_cursor(),
                    old(self).spec_matches().len() as int,
                ),
                spec_adjust_offset(
                    old(self).spec_offset(),
                    old(self).spec_matches().len() as int,
                ),
                old(self).spec_matches().len() as int,
            ),
            final(self).spec_matches().len() > 0 ==> final(self).spec_cursor()
                + final(self).spec_offset() < final(self).spec_matches().len(),
    {
        self.adjust_cursor();
        self.adjust_offset();
        proof {
            use_type_invariant(&*self);
        }
        if self.matches.len() > 0 && self.cursor >= self.matches.len() - self.offset {
            self.offset = self.matches.len() - 1 - self.cursor;
        }
    }

    /// The selected item's text; the selection must be valid, as
    /// `clamp_selection` leaves it.
    pub fn get_selection(&self) -> (r: &String)
        requires
            self.spec_cursor() + self.spec_offset() < self.spec_matches().len(),
        ensures
            r@ == self.spec_selection(),
    {
        proof {
            use_type_invariant(self);
        }
        let n = self.matches.len();
        let idx = self.cursor + self.offset;
        &self.items[self.matches[idx]]
    }
}

/// Paging down and then back up from the top of the match set returns the
/// cursor/offset pair exactly to where it started: neither ends up beyond its
/// value before the page down.
pub proof fn lemma_paging_symmetry(height: usize, len: int)
    ensures
        spec_move_up_page(
            spec_move_down_page(0, 0, height, len).0,
            spec_move_down_page(0, 0, height, len).1,
            height,
        ) == (0usize, 0usize),
{
}

} // verus!
