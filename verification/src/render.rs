//! What one redraw shows, as plain data: the visible rows with their
//! highlight spans, and the prompt line's visible query text and counters.
//! Writing it to the terminal, with styling, is the backend's job.

use vstd::prelude::*;

use crate::match_list::MatchList;
use crate::query::Query;
use crate::text::first_occurrence_is;
use crate::text::lower_of;

verus! {

/// How many decimal digits a number prints as.
pub open spec fn dec_digits(n: nat) -> nat
    decreases n,
{
    if n < 10 {
        1
    } else {
        1 + dec_digits(n / 10)
    }
}

/// The width of the ` [matches/total]` counter.
pub open spec fn counter_width(n_matches: nat, n_items: nat) -> nat {
    4 + dec_digits(n_matches) + dec_digits(n_items)
}

/// How many leading characters of the raw query do not fit on the prompt
/// line: the line holds `"> "`, the query, one cursor cell and the counter.
pub open spec fn prompt_cut(qlen: nat, n_matches: nat, n_items: nat, cols: nat) -> int {
    let total = qlen + 3 + counter_width(n_matches, n_items);
    if total > cols {
        total - cols
    } else {
        0
    }
}

/// The number of decimal digits of `n`.
pub fn digit_count(n: usize) -> (d: usize)
    ensures
        d == dec_digits(n as nat),
{
    let mut m = n;
    let mut d: usize = 1;
    while m >= 10
        invariant
            dec_digits(n as nat) == d - 1 + dec_digits(m as nat),
            1 <= d,
            d - 1 <= n - m,
        decreases m,
    {
        proof {
            assert(m / 10 <= m - 9) by (nonlinear_arith)
                requires
                    m >= 10,
            ;
        }
        m = m / 10;
        d = d + 1;
    }
    d
}

/// More of a number never means fewer digits.
proof fn lemma_dec_digits_monotone(a: nat, b: nat)
    requires
        a <= b,
    ensures
        dec_digits(a) <= dec_digits(b),
    decreases b,
{
    if a >= 10 {
        assert(a / 10 <= b / 10 && b / 10 < b) by (nonlinear_arith)
            requires
                10 <= a <= b,
        ;
        lemma_dec_digits_monotone(a / 10, b / 10);
    }
}

/// No machine-word count prints as more than twenty digits.
pub proof fn lemma_dec_digits_bound(n: nat)
    requires
        n <= usize::MAX,
    ensures
        dec_digits(n) <= 20,
{
    lemma_dec_digits_monotone(n, 0xFFFF_FFFF_FFFF_FFFFnat);
    reveal_with_fuel(dec_digits, 21);
    assert(dec_digits(0xFFFF_FFFF_FFFF_FFFFnat) == 20);
}

/// One visible row: whether the cursor sits on it, its position in the match
/// set, the item text truncated to the view width, and for each query term
/// the first occurrence in the case-folded text, as a half-open span.
pub struct Row {
    pub selected: bool,
    pub position: usize,
    pub text: String,
    pub spans: Vec<Option<(usize, usize)>>,
}

/// One redraw: `height + 1` rows, blank past the end of the match set, and
/// the prompt line's parts.
pub struct Frame {
    pub rows: Vec<Option<Row>>,
    pub prompt_tail: String,
    pub match_count: usize,
    pub item_count: usize,
}

/// `s` is the highlight span of `term` in `text`: the first occurrence of
/// the folded term in the folded text, or nothing when it does not occur.
pub open spec fn span_is(term: Seq<char>, text: Seq<char>, s: Option<(usize, usize)>) -> bool {
    match s {
        Some(p) => p.1 == p.0 + lower_of(term).len() && first_occurrence_is(
            lower_of(term),
            lower_of(text),
            Some(p.0 as int),
        ),
        None => first_occurrence_is(lower_of(term), lower_of(text), None),
    }
}

/// `r` is what the viewport row `i` shows for this list and query on a
/// terminal `cols` wide: blank past the end of the match set; otherwise the
/// cursor flag, the row's position in the match set, the item text truncated
/// to the width less a fixed margin, and one highlight span per query term.
pub open spec fn row_is(
    list: MatchList,
    q: Query,
    cols: usize,
    i: int,
    r: Option<Row>,
) -> bool {
    let len = list.spec_matches().len() as int;
    let off = list.spec_offset() as int;
    if off + i < len {
        match r {
            Some(row) => {
                &&& row.selected == (i == list.spec_cursor())
                &&& row.position == off + i
                &&& ({
                    let item = list.spec_items()[list.spec_matches()[off + i] as int];
                    let avail: int = if cols >= 10 {
                        cols - 10
                    } else {
                        0
                    };
                    let w: int = if avail <= item.len() {
                        avail
                    } else {
                        item.len() as int
                    };
                    &&& row.text@ == item.take(w)
                    &&& row.spans@.len() == q.terms().len()
                    &&& forall|j: int|
                        0 <= j < q.terms().len() ==> span_is(
                            q.terms()[j],
                            row.text@,
                            #[trigger] row.spans@[j],
                        )
                })
            },
            None => false,
        }
    } else {
        r is None
    }
}

/// How far the visible query is cut on the left: the full overflow, but
/// never more than the query itself.
pub open spec fn prompt_skip(qlen: nat, n_matches: nat, n_items: nat, cols: nat) -> int {
    let c = prompt_cut(qlen, n_matches, n_items, cols);
    if c <= qlen {
        c
    } else {
        qlen as int
    }
}

} // verus!
