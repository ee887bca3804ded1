//! The interactive session: the query being typed, the growing item list,
//! the match set kept consistent with both, and the dispatch of decoded
//! input events. The surrounding loop performs the terminal and channel work
//! and hands plain values in and out.

use vstd::prelude::*;
use vstd::string::StrSliceExecFns;
use vstd::string::StringExecFns;

use crate::engine::all_indices;
use crate::engine::filter_candidates;
use crate::engine::lemma_filter_push;
use crate::engine::lemma_incremental_equivalence;
use crate::engine::lemma_match_seq_characterization;
use crate::engine::lemma_match_seq_empty;
use crate::engine::lemma_no_terms_matches_all;
use crate::engine::lemma_range_seq;
use crate::engine::match_pred;
use crate::engine::match_seq;
use crate::engine::matches_at;
use crate::engine::range_seq;
use crate::match_list::MatchList;
use crate::match_list::spec_adjust_cursor;
use crate::match_list::spec_adjust_offset;
use crate::match_list::spec_clamp_pair;
use crate::match_list::spec_move_down;
use crate::match_list::spec_move_down_page;
use crate::match_list::spec_move_up;
use crate::match_list::spec_move_up_page;
use crate::query::Query;
use crate::query::lemma_append_char_narrows_all;
use crate::query::query_matches;
use crate::query::split_ws;
use crate::render::Frame;
use crate::render::Row;
use crate::render::digit_count;
use crate::render::lemma_dec_digits_bound;
use crate::render::prompt_skip;
use crate::render::row_is;
use crate::render::span_is;
use crate::text::chars_vec;
use crate::text::find_first;
use crate::text::lower_of;
use crate::text::lowercase_chars;
use crate::text::push_char;

verus! {

/// A key, already decoded from whatever the terminal backend delivers.
#[derive(Clone, Copy, Debug, PartialEq, Eq, Structural)]
pub enum KeyInput {
    Enter,
    Backspace,
    Up,
    Down,
    PageUp,
    PageDown,
    Char(char),
}

/// One input to the session: a key with its control-modifier flag, a
/// terminal resize, or anything else (ignored).
#[derive(Clone, Copy, Debug, PartialEq, Eq, Structural)]
pub enum InputEvent {
    Key { code: KeyInput, ctrl: bool },
    Resize(usize, usize),
    Other,
}

/// One of the four navigation moves on the selection.
#[derive(Clone, Copy, Debug, PartialEq, Eq, Structural)]
enum Nav {
    Up,
    Down,
    PageUp,
    PageDown,
}

/// What the loop should do after an event was dispatched.
#[derive(Clone, Copy, Debug, PartialEq, Eq, Structural)]
pub enum HandleEventResult {
    Done,
    NoMatch,
    Quit,
    Continue,
    QueryAdd,
    QueryRemove,
}

/// Confirm: the enter key, whatever the modifiers.
pub open spec fn is_confirm_event(e: InputEvent) -> bool {
    match e {
        InputEvent::Key { code: KeyInput::Enter, ctrl: _ } => true,
        _ => false,
    }
}

/// Cancel: control-c.
pub open spec fn is_cancel_event(e: InputEvent) -> bool {
    match e {
        InputEvent::Key { code: KeyInput::Char(ch), ctrl } => ctrl && ch == 'c',
        _ => false,
    }
}

/// Move up one row: the up arrow, or control-p.
pub open spec fn is_up_event(e: InputEvent) -> bool {
    match e {
        InputEvent::Key { code: KeyInput::Up, ctrl: _ } => true,
        InputEvent::Key { code: KeyInput::Char(ch), ctrl } => ctrl && ch == 'p',
        _ => false,
    }
}

/// Move down one row: the down arrow, or control-n.
pub open spec fn is_down_event(e: InputEvent) -> bool {
    match e {
        InputEvent::Key { code: KeyInput::Down, ctrl: _ } => true,
        InputEvent::Key { code: KeyInput::Char(ch), ctrl } => ctrl && ch == 'n',
        _ => false,
    }
}

/// Move up one page.
pub open spec fn is_page_up_event(e: InputEvent) -> bool {
    match e {
        InputEvent::Key { code: KeyInput::PageUp, ctrl: _ } => true,
        _ => false,
    }
}

/// Move down one page.
pub open spec fn is_page_down_event(e: InputEvent) -> bool {
    match e {
        InputEvent::Key { code: KeyInput::PageDown, ctrl: _ } => true,
        _ => false,
    }
}

/// The character a key event appends to the query, if it is not one of the
/// control chords.
pub open spec fn insert_char_of(e: InputEvent) -> Option<char> {
    match e {
        InputEvent::Key { code: KeyInput::Char(ch), ctrl } => {
            if ctrl && (ch == 'c' || ch == 'p' || ch == 'n') {
                None
            } else {
                Some(ch)
            }
        },
        _ => None,
    }
}

/// Backspace, whatever the modifiers.
pub open spec fn is_backspace_event(e: InputEvent) -> bool {
    match e {
        InputEvent::Key { code: KeyInput::Backspace, ctrl: _ } => true,
        _ => false,
    }
}

/// The new screen size a resize event carries.
pub open spec fn resize_of(e: InputEvent) -> Option<(usize, usize)> {
    match e {
        InputEvent::Resize(w, h) => Some((w, h)),
        _ => None,
    }
}

/// The viewport height policy: in fullscreen mode the terminal height less
/// two rows; otherwise the requested height, likewise capped.
pub fn compute_height(fullscreen: bool, requested: usize, term_rows: usize) -> (h: usize)
    ensures
        fullscreen ==> h == if term_rows >= 2 {
            (term_rows - 2) as int
        } else {
            0int
        },
        !fullscreen ==> h == if requested <= term_rows - 2 {
            requested as int
        } else if term_rows >= 2 {
            (term_rows - 2) as int
        } else {
            0int
        },
{
    let cap = if term_rows >= 2 {
        term_rows - 2
    } else {
        0
    };
    if fullscreen || requested > cap {
        cap
    } else {
        requested
    }
}

/// The session: query, item list, match set and selection, plus what is
/// needed to recompute the match set incrementally — how many items the
/// current match set has seen, whether a widening edit happened since, and
/// (in ghost) the terms it was computed for.
pub struct FuzzyMatcher {
    query: Query,
    match_list: MatchList,
    screen_cols: usize,
    screen_rows: usize,
    matched_upto: usize,
    pending_widen: bool,
    prev_terms: Ghost<Seq<Seq<char>>>,
}

impl FuzzyMatcher {
    #[verifier::type_invariant]
    spec fn inv(self) -> bool {
        &&& self.matched_upto <= self.match_list.spec_items().len()
        &&& self.match_list.spec_matches() == match_seq(
            self.prev_terms@,
            self.match_list.spec_items().take(self.matched_upto as int),
        )
        &&& !self.pending_widen ==> forall|item: Seq<char>|
            #[trigger] query_matches(self.query.terms(), item) ==> query_matches(
                self.prev_terms@,
                item,
            )
        &&& self.query.terms() == split_ws(self.query.raw())
    }

    /// The current query.
    pub closed spec fn spec_query(self) -> Query {
        self.query
    }

    /// The match set and selection state.
    pub closed spec fn spec_list(self) -> MatchList {
        self.match_list
    }

    /// The cached terminal width.
    pub closed spec fn spec_cols(self) -> usize {
        self.screen_cols
    }

    /// The cached terminal height.
    pub closed spec fn spec_rows(self) -> usize {
        self.screen_rows
    }

    /// A fresh session: empty query, empty item list, empty match set.
    pub fn new(height: usize, screen_cols: usize, screen_rows: usize) -> (s: FuzzyMatcher)
        ensures
            s.spec_query().raw() == Seq::<char>::empty(),
            s.spec_query().terms() == Seq::<Seq<char>>::empty(),
            s.spec_list().spec_height() == height,
            s.spec_list().spec_cursor() == 0,
            s.spec_list().spec_offset() == 0,
            s.spec_list().spec_matches() == Seq::<usize>::empty(),
            s.spec_list().spec_items() == Seq::<Seq<char>>::empty(),
            s.spec_cols() == screen_cols,
            s.spec_rows() == screen_rows,
    {
        let query = Query::new(String::new());
        let match_list = MatchList::new(height);
        proof {
            assert(split_ws(Seq::<char>::empty()) == Seq::<Seq<char>>::empty());
            lemma_match_seq_empty(query.terms());
            assert(Seq::<Seq<char>>::empty().take(0) =~= Seq::<Seq<char>>::empty());
        }
        let s = FuzzyMatcher {
            query,
            match_list,
            screen_cols,
            screen_rows,
            matched_upto: 0,
            pending_widen: false,
            prev_terms: Ghost(query.terms()),
        };
        s
    }

    /// The current query.
    pub fn query(&self) -> (r: &Query)
        ensures
            r == self.spec_query(),
    {
        &self.query
    }

    /// The match set and selection state.
    pub fn match_list(&self) -> (r: &MatchList)
        ensures
            r == self.spec_list(),
    {
        &self.match_list
    }

    /// The cached terminal size.
    pub fn screen_size(&self) -> (r: (usize, usize))
        ensures
            r.0 == self.spec_cols(),
            r.1 == self.spec_rows(),
    {
        (self.screen_cols, self.screen_rows)
    }

    /// A chunk of items arrived from the producer: append it. The match set
    /// is untouched; the next recomputation scans the new items.
    pub fn push_items(&mut self, chunk: Vec<String>)
        ensures
            final(self).spec_list().spec_items() == old(self).spec_list().spec_items()
                + chunk.deep_view(),
            final(self).spec_list().spec_matches() == old(self).spec_list().spec_matches(),
            final(self).spec_list().spec_height() == old(self).spec_list().spec_height(),
            final(self).spec_list().spec_cursor() == old(self).spec_list().spec_cursor(),
            final(self).spec_list().spec_offset() == old(self).spec_list().spec_offset(),
            final(self).spec_query() == old(self).spec_query(),
            final(self).spec_cols() == old(self).spec_cols(),
            final(self).spec_rows() == old(self).spec_rows(),
    {
        proof {
            use_type_invariant(&*self);
        }
        let mut taken = Self::blank();
        std::mem::swap(&mut taken, self);
        let FuzzyMatcher {
            query,
            mut match_list,
            screen_cols,
            screen_rows,
            matched_upto,
            pending_widen,
            prev_terms,
        } = taken;
        let ghost old_items = match_list.spec_items();
        match_list.push_items(chunk);
        proof {
            assert(match_list.spec_items().take(matched_upto as int) =~= old_items.take(
                matched_upto as int,
            ));
        }
        *self = FuzzyMatcher {
            query,
            match_list,
            screen_cols,
            screen_rows,
            matched_upto,
            pending_widen,
            prev_terms,
        };
    }

    /// The match set of the current query over the current items, computed
    /// the cheapest correct way: all indices for an empty query; a full scan
    /// after a widening edit; otherwise the previous match set filtered, plus
    /// a scan of only the items that arrived since.
    pub fn find_matches(&self) -> (r: Vec<usize>)
        ensures
            r@ == match_seq(self.spec_query().terms(), self.spec_list().spec_items()),
    {
        proof {
            use_type_invariant(self);
        }
        let items = self.match_list.items();
        let n = items.len();
        let ghost dv = items.deep_view();
        proof {
            assert(dv.len() == n);
        }
        if self.query.term_count() == 0 {
            let r = all_indices(n);
            proof {
                lemma_no_terms_matches_all(self.query.terms(), dv);
            }
            r
        } else if self.pending_widen {
            let cands = all_indices(n);
            proof {
                lemma_range_seq(0, n as nat);
            }
            let r = filter_candidates(&self.query, items, &cands);
            r
        } else {
            let prev = self.match_list.matches();
            let mut r = filter_candidates(&self.query, items, prev);
            let ghost pred = match_pred(self.query.terms(), dv);
            let ghost upto = self.matched_upto as nat;
            let mut i: usize = self.matched_upto;
            proof {
                assert(range_seq(upto, upto) =~= Seq::<usize>::empty());
                assert(r@ + range_seq(upto, upto).filter(pred) =~= r@) by {
                    reveal(Seq::filter);
                }
            }
            while i < n
                invariant
                    upto <= i <= n,
                    n == dv.len(),
                    dv == self.spec_list().spec_items(),
                    pred == match_pred(self.spec_query().terms(), dv),
                    self.inv(),
                    r@ == self.spec_list().spec_matches().filter(pred) + range_seq(
                        upto,
                        i as nat,
                    ).filter(pred),
                decreases n - i,
            {
                let hit = matches_at(&self.query, self.match_list.items(), i);
                proof {
                    assert(range_seq(upto, (i + 1) as nat) == range_seq(upto, i as nat).push(
                        i,
                    ));
                    lemma_filter_push(range_seq(upto, i as nat), pred, i);
                }
                if hit {
                    r.push(i);
                }
                i = i + 1;
            }
            proof {
                lemma_incremental_equivalence(
                    self.prev_terms@,
                    self.spec_query().terms(),
                    dv,
                    upto,
                );
            }
            r
        }
    }

    /// Recomputes and installs the match set, then re-clamps the selection.
    /// Afterwards the match set is exactly the canonical match set of the
    /// current query over the current items, and a non-empty match set has
    /// `cursor + offset` on a valid entry.
    pub fn update_matches(&mut self)
        ensures
            final(self).spec_list().spec_matches() == match_seq(
                old(self).spec_query().terms(),
                old(self).spec_list().spec_items(),
            ),
            final(self).spec_list().spec_items() == old(self).spec_list().spec_items(),
            final(self).spec_list().spec_height() == old(self).spec_list().spec_height(),
            final(self).spec_query() == old(self).spec_query(),
            final(self).spec_cols() == old(self).spec_cols(),
            final(self).spec_rows() == old(self).spec_rows(),
            final(self).spec_list().spec_matches().len() > 0 ==> final(self).spec_list().spec_cursor()
                + final(self).spec_list().spec_offset() < final(self).spec_list().spec_matches().len(),
    {
        proof {
            use_type_invariant(&*self);
        }
        let m = self.find_matches();
        let mut taken = Self::blank();
        std::mem::swap(&mut taken, self);
        let FuzzyMatcher {
            query,
            mut match_list,
            screen_cols,
            screen_rows,
            matched_upto: _,
            pending_widen: _,
            prev_terms: _,
        } = taken;
        let upto = match_list.items().len();
        proof {
            assert(match_list.spec_items().len() == upto);
            lemma_match_seq_characterization(query.terms(), match_list.spec_items());
        }
        match_list.set_matches(m);
        match_list.clamp_selection();
        proof {
            assert(match_list.spec_items().take(upto as int) =~= match_list.spec_items());
        }
        *self = FuzzyMatcher {
            query,
            match_list,
            screen_cols,
            screen_rows,
            matched_upto: upto,
            pending_widen: false,
            prev_terms: Ghost(query.terms()),
        };
    }

    /// Dispatches one decoded event: confirm and cancel decide the outcome,
    /// navigation moves the selection, printable characters and backspace
    /// replace the query, a resize updates the cached size. The item list and
    /// the match set are never changed here.
    pub fn handle_event(&mut self, event: &InputEvent) -> (r: HandleEventResult)
        ensures
            final(self).spec_list().spec_items() == old(self).spec_list().spec_items(),
            final(self).spec_list().spec_matches() == old(self).spec_list().spec_matches(),
            final(self).spec_list().spec_height() == old(self).spec_list().spec_height(),
            final(self).spec_query().terms() == split_ws(final(self).spec_query().raw()),
            (r == HandleEventResult::Done) == (is_confirm_event(*event) && old(self).spec_list().spec_matches().len() > 0),
            (r == HandleEventResult::NoMatch) == (is_confirm_event(*event) && old(self).spec_list().spec_matches().len() == 0),
            (r == HandleEventResult::Quit) == is_cancel_event(*event),
            (r == HandleEventResult::QueryAdd) == (insert_char_of(*event) is Some),
            (r == HandleEventResult::QueryRemove) == (is_backspace_event(*event) && old(self).spec_query().raw().len() > 0),
            match insert_char_of(*event) {
                Some(ch) => final(self).spec_query().raw() == old(self).spec_query().raw().push(
                    ch,
                ),
                None => if is_backspace_event(*event) && old(self).spec_query().raw().len() > 0 {
                    final(self).spec_query().raw() == old(self).spec_query().raw().drop_last()
                } else {
                    final(self).spec_query() == old(self).spec_query()
                },
            },
            is_up_event(*event) ==> (
                final(self).spec_list().spec_cursor(),
                final(self).spec_list().spec_offset(),
            ) == spec_move_up(
                old(self).spec_list().spec_cursor(),
                old(self).spec_list().spec_offset(),
            ),
            is_down_event(*event) ==> (
                final(self).spec_list().spec_cursor(),
                final(self).spec_list().spec_offset(),
            ) == spec_move_down(
                old(self).spec_list().spec_cursor(),
                old(self).spec_list().spec_offset(),
                old(self).spec_list().spec_height(),
                old(self).spec_list().spec_matches().len() as int,
            ),
            is_page_up_event(*event) ==> (
                final(self).spec_list().spec_cursor(),
                final(self).spec_list().spec_offset(),
            ) == spec_move_up_page(
                old(self).spec_list().spec_cursor(),
                old(self).spec_list().spec_offset(),
                old(self).spec_list().spec_height(),
            ),
            is_page_down_event(*event) ==> (
                final(self).spec_list().spec_cursor(),
                final(self).spec_list().spec_offset(),
            ) == spec_move_down_page(
                old(self).spec_list().spec_cursor(),
                old(self).spec_list().spec_offset(),
                old(self).spec_list().spec_height(),
                old(self).spec_list().spec_matches().len() as int,
            ),
            r == HandleEventResult::Done ==> (
                final(self).spec_list().spec_cursor(),
                final(self).spec_list().spec_offset(),
            ) == spec_clamp_pair(
                spec_adjust_cursor(
                    old(self).spec_list().spec_cursor(),
                    old(self).spec_list().spec_matches().len() as int,
                ),
                spec_adjust_offset(
                    old(self).spec_list().spec_offset(),
                    old(self).spec_list().spec_matches().len() as int,
                ),
                old(self).spec_list().spec_matches().len() as int,
            ) && final(self).spec_list().spec_cursor() + final(self).spec_list().spec_offset()
                < final(self).spec_list().spec_matches().len(),
            (!is_up_event(*event) && !is_down_event(*event) && !is_page_up_event(*event)
                && !is_page_down_event(*event) && r != HandleEventResult::Done) ==> (final(self).spec_list().spec_cursor() == old(self).spec_list().spec_cursor() && final(self).spec_list().spec_offset() == old(self).spec_list().spec_offset()),
            match resize_of(*event) {
                Some((w, h)) => final(self).spec_cols() == w && final(self).spec_rows() == h,
                None => final(self).spec_cols() == old(self).spec_cols() && final(self).spec_rows()
                    == old(self).spec_rows(),
            },
    {
        proof {
            use_type_invariant(&*self);
        }
        match *event {
            InputEvent::Key { code, ctrl } => {
                match code {
                    KeyInput::Enter => {
                        if self.match_list.matches().len() == 0 {
                            HandleEventResult::NoMatch
                        } else {
                            self.do_clamp();
                            HandleEventResult::Done
                        }
                    },
                    KeyInput::Char(ch) => {
                        if ctrl && ch == 'c' {
                            HandleEventResult::Quit
                        } else if ctrl && ch == 'p' {
                            self.do_move(Nav::Up);
                            HandleEventResult::Continue
                        } else if ctrl && ch == 'n' {
                            self.do_move(Nav::Down);
                            HandleEventResult::Continue
                        } else {
                            self.do_insert(ch);
                            HandleEventResult::QueryAdd
                        }
                    },
                    KeyInput::Up => {
                        self.do_move(Nav::Up);
                        HandleEventResult::Continue
                    },
                    KeyInput::Down => {
                        self.do_move(Nav::Down);
                        HandleEventResult::Continue
                    },
                    KeyInput::PageUp => {
                        self.do_move(Nav::PageUp);
                        HandleEventResult::Continue
                    },
                    KeyInput::PageDown => {
                        self.do_move(Nav::PageDown);
                        HandleEventResult::Continue
                    },
                    KeyInput::Backspace => {
                        let len = self.query.raw_str().as_str().unicode_len();
                        if len > 0 {
                            self.do_backspace();
                            HandleEventResult::QueryRemove
                        } else {
                            HandleEventResult::Continue
                        }
                    },
                }
            },
            InputEvent::Resize(w, h) => {
                self.screen_cols = w;
                self.screen_rows = h;
                HandleEventResult::Continue
            },
            InputEvent::Other => HandleEventResult::Continue,
        }
    }

    /// What viewport row `i` shows right now: blank past the end of the
    /// match set, otherwise the truncated item text with one highlight span
    /// per query term.
    fn build_row(&self, i: usize) -> (r: Option<Row>)
        ensures
            row_is(self.spec_list(), self.spec_query(), self.spec_cols(), i as int, r),
    {
        proof {
            use_type_invariant(self);
        }
        let len = self.match_list.matches().len();
        let offset = self.match_list.offset();
        if offset < len && i < len - offset {
            let pos = offset + i;
            let idx = self.match_list.matches()[pos];
            let items = self.match_list.items();
            let item = &items[idx];
            proof {
                assert(items@[idx as int]@ == items.deep_view()[idx as int]);
            }
            let avail = if self.screen_cols >= 10 {
                self.screen_cols - 10
            } else {
                0
            };
            let item_len = item.as_str().unicode_len();
            let w = if avail <= item_len {
                avail
            } else {
                item_len
            };
            let text = String::from_str(item.as_str().substring_char(0, w));
            proof {
                assert(text@ =~= items.deep_view()[idx as int].take(w as int));
            }
            let folded_text = lowercase_chars(&chars_vec(text.as_str()));
            let terms = self.query.term_strings();
            let mut spans: Vec<Option<(usize, usize)>> = Vec::new();
            let mut j: usize = 0;
            while j < terms.len()
                invariant
                    j <= terms@.len(),
                    terms.deep_view() == self.spec_query().terms(),
                    folded_text@ == lower_of(text@),
                    spans@.len() == j,
                    forall|t: int|
                        0 <= t < j ==> span_is(
                            self.spec_query().terms()[t],
                            text@,
                            #[trigger] spans@[t],
                        ),
                decreases terms@.len() - j,
            {
                proof {
                    assert(terms@[j as int]@ == terms.deep_view()[j as int]);
                }
                let folded_term = lowercase_chars(&chars_vec(terms[j].as_str()));
                let hay_len = folded_text.len();
                match find_first(&folded_text, &folded_term) {
                    Some(k) => {
                        proof {
                            assert(k + folded_term@.len() <= hay_len);
                        }
                        spans.push(Some((k, k + folded_term.len())));
                    },
                    None => {
                        spans.push(None);
                    },
                }
                j = j + 1;
            }
            let selected = self.match_list.cursor() == i;
            Some(Row { selected, position: pos, text, spans })
        } else {
            None
        }
    }

    /// Computes one redraw. The selection is re-clamped first, as before
    /// every draw; the returned frame then describes exactly the current
    /// match set, item texts, highlights and prompt line.
    pub fn render(&mut self) -> (frame: Frame)
        ensures
            final(self).spec_list().spec_items() == old(self).spec_list().spec_items(),
            final(self).spec_list().spec_matches() == old(self).spec_list().spec_matches(),
            final(self).spec_list().spec_height() == old(self).spec_list().spec_height(),
            final(self).spec_query() == old(self).spec_query(),
            final(self).spec_cols() == old(self).spec_cols(),
            final(self).spec_rows() == old(self).spec_rows(),
            (final(self).spec_list().spec_cursor(), final(self).spec_list().spec_offset())
                == spec_clamp_pair(
                spec_adjust_cursor(
                    old(self).spec_list().spec_cursor(),
                    old(self).spec_list().spec_matches().len() as int,
                ),
                spec_adjust_offset(
                    old(self).spec_list().spec_offset(),
                    old(self).spec_list().spec_matches().len() as int,
                ),
                old(self).spec_list().spec_matches().len() as int,
            ),
            final(self).spec_list().spec_matches().len() > 0 ==> final(self).spec_list().spec_cursor()
                + final(self).spec_list().spec_offset() < final(self).spec_list().spec_matches().len(),
            frame.rows@.len() == final(self).spec_list().spec_height() + 1,
            forall|i: int|
                0 <= i <= final(self).spec_list().spec_height() ==> row_is(
                    final(self).spec_list(),
                    final(self).spec_query(),
                    final(self).spec_cols(),
                    i,
                    #[trigger] frame.rows@[i],
                ),
            frame.match_count == final(self).spec_list().spec_matches().len(),
            frame.item_count == final(self).spec_list().spec_items().len(),
            frame.prompt_tail@ == final(self).spec_query().raw().skip(
                prompt_skip(
                    final(self).spec_query().raw().len(),
                    final(self).spec_list().spec_matches().len(),
                    final(self).spec_list().spec_items().len(),
                    final(self).spec_cols() as nat,
                ),
            ),
    {
        self.do_clamp();
        proof {
            use_type_invariant(&*self);
        }
        let ghost snap = *self;
        let height = self.match_list.height();
        let mut rows: Vec<Option<Row>> = Vec::new();
        let mut i: usize = 0;
        while i < height
            invariant
                *self == snap,
                height == self.spec_list().spec_height(),
                i <= height,
                rows@.len() == i,
                forall|t: int|
                    0 <= t < i ==> row_is(
                        self.spec_list(),
                        self.spec_query(),
                        self.spec_cols(),
                        t,
                        #[trigger] rows@[t],
                    ),
            decreases height - i,
        {
            let r = self.build_row(i);
            rows.push(r);
            i = i + 1;
        }
        let last = self.build_row(height);
        rows.push(last);
        let n_matches = self.match_list.matches().len();
        let n_items = self.match_list.items().len();
        let dm = digit_count(n_matches);
        let dt = digit_count(n_items);
        proof {
            lemma_dec_digits_bound(n_matches as nat);
            lemma_dec_digits_bound(n_items as nat);
        }
        let extra = 7 + dm + dt;
        let raw = self.query.raw_str();
        let qlen = raw.as_str().unicode_len();
        let cut = if qlen <= self.screen_cols {
            let room = self.screen_cols - qlen;
            if extra > room {
                let need = extra - room;
                if need > qlen {
                    qlen
                } else {
                    need
                }
            } else {
                0
            }
        } else {
            if extra >= self.screen_cols {
                qlen
            } else {
                qlen - (self.screen_cols - extra)
            }
        };
        let prompt_tail = String::from_str(raw.as_str().substring_char(cut, qlen));
        proof {
            assert(prompt_tail@ =~= self.spec_query().raw().skip(cut as int));
        }
        Frame { rows, prompt_tail, match_count: n_matches, item_count: n_items }
    }

    /// A placeholder session, used only while another one is being rebuilt.
    fn blank() -> FuzzyMatcher {
        FuzzyMatcher::new(0, 0, 0)
    }

    /// One navigation step on the selection.
    fn do_move(&mut self, nav: Nav)
        ensures
            final(self).spec_list().spec_items() == old(self).spec_list().spec_items(),
            final(self).spec_list().spec_matches() == old(self).spec_list().spec_matches(),
            final(self).spec_list().spec_height() == old(self).spec_list().spec_height(),
            final(self).spec_query() == old(self).spec_query(),
            final(self).spec_cols() == old(self).spec_cols(),
            final(self).spec_rows() == old(self).spec_rows(),
            nav == Nav::Up ==> (
                final(self).spec_list().spec_cursor(),
                final(self).spec_list().spec_offset(),
            ) == spec_move_up(
                old(self).spec_list().spec_cursor(),
                old(self).spec_list().spec_offset(),
            ),
            nav == Nav::Down ==> (
                final(self).spec_list().spec_cursor(),
                final(self).spec_list().spec_offset(),
            ) == spec_move_down(
                old(self).spec_list().spec_cursor(),
                old(self).spec_list().spec_offset(),
                old(self).spec_list().spec_height(),
                old(self).spec_list().spec_matches().len() as int,
            ),
            nav == Nav::PageUp ==> (
                final(self).spec_list().spec_cursor(),
                final(self).spec_list().spec_offset(),
            ) == spec_move_up_page(
                old(self).spec_list().spec_cursor(),
                old(self).spec_list().spec_offset(),
                old(self).spec_list().spec_height(),
            ),
            nav == Nav::PageDown ==> (
                final(self).spec_list().spec_cursor(),
                final(self).spec_list().spec_offset(),
            ) == spec_move_down_page(
                old(self).spec_list().spec_cursor(),
                old(self).spec_list().spec_offset(),
                old(self).spec_list().spec_height(),
                old(self).spec_list().spec_matches().len() as int,
            ),
    {
        proof {
            use_type_invariant(&*self);
        }
        let mut taken = Self::blank();
        std::mem::swap(&mut taken, self);
        let FuzzyMatcher {
            query,
            mut match_list,
            screen_cols,
            screen_rows,
            matched_upto,
            pending_widen,
            prev_terms,
        } = taken;
        match nav {
            Nav::Up => match_list.move_up(),
            Nav::Down => match_list.move_down(),
            Nav::PageUp => match_list.move_up_page(),
            Nav::PageDown => match_list.move_down_page(),
        }
        *self = FuzzyMatcher {
            query,
            match_list,
            screen_cols,
            screen_rows,
            matched_upto,
            pending_widen,
            prev_terms,
        };
    }

    /// Clamps the selection before the match is confirmed.
    fn do_clamp(&mut self)
        ensures
            final(self).spec_list().spec_items() == old(self).spec_list().spec_items(),
            final(self).spec_list().spec_matches() == old(self).spec_list().spec_matches(),
            final(self).spec_list().spec_height() == old(self).spec_list().spec_height(),
            final(self).spec_query() == old(self).spec_query(),
            final(self).spec_cols() == old(self).spec_cols(),
            final(self).spec_rows() == old(self).spec_rows(),
            (final(self).spec_list().spec_cursor(), final(self).spec_list().spec_offset())
                == spec_clamp_pair(
                spec_adjust_cursor(
                    old(self).spec_list().spec_cursor(),
                    old(self).spec_list().spec_matches().len() as int,
                ),
                spec_adjust_offset(
                    old(self).spec_list().spec_offset(),
                    old(self).spec_list().spec_matches().len() as int,
                ),
                old(self).spec_list().spec_matches().len() as int,
            ),
            final(self).spec_list().spec_matches().len() > 0 ==> final(self).spec_list().spec_cursor()
                + final(self).spec_list().spec_offset() < final(self).spec_list().spec_matches().len(),
    {
        proof {
            use_type_invariant(&*self);
        }
        let mut taken = Self::blank();
        std::mem::swap(&mut taken, self);
        let FuzzyMatcher {
            query,
            mut match_list,
            screen_cols,
            screen_rows,
            matched_upto,
            pending_widen,
            prev_terms,
        } = taken;
        match_list.clamp_selection();
        *self = FuzzyMatcher {
            query,
            match_list,
            screen_cols,
            screen_rows,
            matched_upto,
            pending_widen,
            prev_terms,
        };
    }

    /// Appends one character to the query. A narrowing edit: the incremental
    /// path stays sound, by monotonicity of term matching.
    fn do_insert(&mut self, ch: char)
        ensures
            final(self).spec_list() == old(self).spec_list(),
            final(self).spec_cols() == old(self).spec_cols(),
            final(self).spec_rows() == old(self).spec_rows(),
            final(self).spec_query().raw() == old(self).spec_query().raw().push(ch),
            final(self).spec_query().terms() == split_ws(final(self).spec_query().raw()),
    {
        proof {
            use_type_invariant(&*self);
        }
        let mut taken = Self::blank();
        std::mem::swap(&mut taken, self);
        let FuzzyMatcher {
            query,
            match_list,
            screen_cols,
            screen_rows,
            matched_upto,
            pending_widen,
            prev_terms,
        } = taken;
        let mut new_raw = query.raw_str().clone();
        push_char(&mut new_raw, ch);
        let new_query = Query::new(new_raw);
        proof {
            lemma_append_char_narrows_all(query.raw(), ch);
        }
        *self = FuzzyMatcher {
            query: new_query,
            match_list,
            screen_cols,
            screen_rows,
            matched_upto,
            pending_widen,
            prev_terms,
        };
    }

    /// Removes the last character of the query. A widening edit: the next
    /// recomputation must scan the full item list.
    fn do_backspace(&mut self)
        requires
            old(self).spec_query().raw().len() > 0,
        ensures
            final(self).spec_list() == old(self).spec_list(),
            final(self).spec_cols() == old(self).spec_cols(),
            final(self).spec_rows() == old(self).spec_rows(),
            final(self).spec_query().raw() == old(self).spec_query().raw().drop_last(),
            final(self).spec_query().terms() == split_ws(final(self).spec_query().raw()),
    {
        proof {
            use_type_invariant(&*self);
        }
        let mut taken = Self::blank();
        std::mem::swap(&mut taken, self);
        let FuzzyMatcher {
            query,
            match_list,
            screen_cols,
            screen_rows,
            matched_upto,
            pending_widen: _,
            prev_terms,
        } = taken;
        let raw = query.raw_str();
        let n = raw.as_str().unicode_len();
        let shorter = raw.as_str().substring_char(0, n - 1);
        let new_query = Query::new(String::from_str(shorter));
        proof {
            assert(query.raw().subrange(0, query.raw().len() - 1) =~= query.raw().drop_last());
        }
        *self = FuzzyMatcher {
            query: new_query,
            match_list,
            screen_cols,
            screen_rows,
            matched_upto,
            pending_widen: true,
            prev_terms,
        };
    }
}

} // verus!
