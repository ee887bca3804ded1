//! The match engine: given the item list and the query, the ordered set of
//! matching indices, with a parallel fast path for large candidate sets and
//! the lemmas that justify the incremental recomputation.

use vstd::prelude::*;

use rayon::iter::IntoParallelRefIterator;
use rayon::iter::ParallelIterator;

use crate::match_list::indices_in_range;
use crate::match_list::strictly_ascending;
use crate::query::Query;
use crate::query::query_matches;
use crate::query::lemma_append_char_narrows;
use crate::query::split_ws;

verus! {

/// Candidate sets at least this large are filtered through rayon; smaller
/// ones sequentially. The two paths compute the same result.
pub const PAR_CUTOFF: usize = 512;

/// The indices `a..b`, ascending.
pub open spec fn range_seq(a: nat, b: nat) -> Seq<usize>
    decreases b,
{
    if b <= a {
        Seq::empty()
    } else {
        range_seq(a, (b - 1) as nat).push((b - 1) as usize)
    }
}

/// Whether the item at a given index matches the query's terms.
pub open spec fn match_pred(terms: Seq<Seq<char>>, items: Seq<Seq<char>>) -> spec_fn(usize) -> bool {
    |u: usize| query_matches(terms, items[u as int])
}

/// The canonical match set: every index of an item that satisfies the query,
/// in ascending order.
pub open spec fn match_seq(terms: Seq<Seq<char>>, items: Seq<Seq<char>>) -> Seq<usize> {
    range_seq(0, items.len()).filter(match_pred(terms, items))
}

/// The shape of `range_seq`: `b - a` entries, the `i`-th being `a + i`.
pub proof fn lemma_range_seq(a: nat, b: nat)
    requires
        b <= usize::MAX,
    ensures
        range_seq(a, b).len() == if b <= a {
            0int
        } else {
            b - a
        },
        forall|i: int| 0 <= i < range_seq(a, b).len() ==> #[trigger] range_seq(a, b)[i] == a + i,
    decreases b,
{
    if b > a {
        lemma_range_seq(a, (b - 1) as nat);
    }
}

/// Adjacent ranges concatenate.
pub proof fn lemma_range_seq_split(a: nat, m: nat, b: nat)
    requires
        a <= m <= b,
    ensures
        range_seq(a, b) == range_seq(a, m) + range_seq(m, b),
    decreases b,
{
    if b <= m {
        assert(range_seq(m, b) =~= Seq::<usize>::empty());
        assert(range_seq(a, b) + Seq::<usize>::empty() =~= range_seq(a, b));
        assert(range_seq(a, b) =~= range_seq(a, m) + range_seq(m, b));
    } else {
        lemma_range_seq_split(a, m, (b - 1) as nat);
        assert(range_seq(a, b) =~= (range_seq(a, m) + range_seq(m, (b - 1) as nat)).push(
            (b - 1) as usize,
        ));
        assert((range_seq(a, m) + range_seq(m, (b - 1) as nat)).push((b - 1) as usize)
            =~= range_seq(a, m) + range_seq(m, (b - 1) as nat).push((b - 1) as usize));
    }
}

/// Filtering a sequence extended by one element.
pub proof fn lemma_filter_push(s: Seq<usize>, p: spec_fn(usize) -> bool, x: usize)
    ensures
        s.push(x).filter(p) == if p(x) {
            s.filter(p).push(x)
        } else {
            s.filter(p)
        },
{
    reveal(Seq::filter);
    assert(s.push(x).drop_last() =~= s);
    assert(s.push(x).last() == x);
}

/// Two predicates that agree on the elements of a sequence filter it alike.
pub proof fn lemma_filter_congruence(s: Seq<usize>, p: spec_fn(usize) -> bool, q: spec_fn(
    usize,
) -> bool)
    requires
        forall|k: int| 0 <= k < s.len() ==> (p(#[trigger] s[k]) <==> q(s[k])),
    ensures
        s.filter(p) == s.filter(q),
    decreases s.len(),
{
    reveal(Seq::filter);
    if s.len() > 0 {
        assert(forall|k: int| 0 <= k < s.drop_last().len() ==> s.drop_last()[k] == s[k]);
        lemma_filter_congruence(s.drop_last(), p, q);
        assert(s.last() == s[s.len() - 1]);
    }
}

/// Filtering twice is filtering by the conjunction.
pub proof fn lemma_filter_filter(s: Seq<usize>, p: spec_fn(usize) -> bool, q: spec_fn(
    usize,
) -> bool)
    ensures
        s.filter(p).filter(q) == s.filter(|u: usize| p(u) && q(u)),
    decreases s.len(),
{
    reveal(Seq::filter);
    if s.len() > 0 {
        lemma_filter_filter(s.drop_last(), p, q);
        let rest = s.drop_last().filter(p);
        if p(s.last()) {
            assert(s.filter(p) == rest.push(s.last()));
            lemma_filter_push(rest, q, s.last());
        }
    }
}

/// A predicate true of every element leaves the sequence unchanged.
pub proof fn lemma_filter_all_true(s: Seq<usize>, p: spec_fn(usize) -> bool)
    requires
        forall|k: int| 0 <= k < s.len() ==> p(#[trigger] s[k]),
    ensures
        s.filter(p) == s,
    decreases s.len(),
{
    reveal(Seq::filter);
    if s.len() > 0 {
        assert(forall|k: int| 0 <= k < s.drop_last().len() ==> s.drop_last()[k] == s[k]);
        lemma_filter_all_true(s.drop_last(), p);
        assert(s.drop_last().push(s.last()) =~= s);
    }
}

/// A pointwise weaker predicate never keeps more elements.
pub proof fn lemma_filter_weaker_len(s: Seq<usize>, p: spec_fn(usize) -> bool, q: spec_fn(
    usize,
) -> bool)
    requires
        forall|k: int| 0 <= k < s.len() ==> (p(#[trigger] s[k]) ==> q(s[k])),
    ensures
        s.filter(p).len() <= s.filter(q).len(),
    decreases s.len(),
{
    reveal(Seq::filter);
    if s.len() > 0 {
        assert(forall|k: int| 0 <= k < s.drop_last().len() ==> s.drop_last()[k] == s[k]);
        lemma_filter_weaker_len(s.drop_last(), p, q);
        assert(s.last() == s[s.len() - 1]);
    }
}

/// The filtered range holds exactly the indices in `[a, b)` that pass the
/// predicate, still ascending.
pub proof fn lemma_range_filter_props(a: nat, b: nat, p: spec_fn(usize) -> bool)
    requires
        a <= b <= usize::MAX,
    ensures
        strictly_ascending(range_seq(a, b).filter(p)),
        forall|k: int|
            0 <= k < range_seq(a, b).filter(p).len() ==> a <= #[trigger] range_seq(a, b).filter(
                p,
            )[k] < b && p(range_seq(a, b).filter(p)[k]),
        forall|u: usize| a <= u < b && p(u) ==> range_seq(a, b).filter(p).contains(u),
    decreases b,
{
    reveal(Seq::filter);
    if b > a {
        lemma_range_filter_props(a, (b - 1) as nat, p);
        let prev = range_seq(a, (b - 1) as nat).filter(p);
        lemma_filter_push(range_seq(a, (b - 1) as nat), p, (b - 1) as usize);
        let cur = range_seq(a, b).filter(p);
        if p((b - 1) as usize) {
            assert(cur == prev.push((b - 1) as usize));
            assert forall|u: usize| a <= u < b && p(u) implies cur.contains(u) by {
                if u < b - 1 {
                    assert(prev.contains(u));
                    let j = choose|j: int| 0 <= j < prev.len() && prev[j] == u;
                    assert(cur[j] == u);
                } else {
                    assert(cur[cur.len() - 1] == u);
                }
            }
        } else {
            assert(cur == prev);
        }
    }
}

/// The incremental fast path agrees with the full recomputation: when every
/// item matching the current query also matched the terms the previous match
/// set was computed for, filtering that previous match set and scanning only
/// the items that arrived since yields exactly the canonical match set of the
/// current query over the whole item list.
pub proof fn lemma_incremental_equivalence(
    prev_terms: Seq<Seq<char>>,
    cur_terms: Seq<Seq<char>>,
    items: Seq<Seq<char>>,
    n: nat,
)
    requires
        n <= items.len() <= usize::MAX,
        forall|item: Seq<char>|
            #[trigger] query_matches(cur_terms, item) ==> query_matches(prev_terms, item),
    ensures
        match_seq(prev_terms, items.take(n as int)).filter(match_pred(cur_terms, items))
            + range_seq(n, items.len()).filter(match_pred(cur_terms, items)) == match_seq(
            cur_terms,
            items,
        ),
{
    let p_prev_take = match_pred(prev_terms, items.take(n as int));
    let p_cur = match_pred(cur_terms, items);
    let head = range_seq(0, n);
    lemma_range_seq(0, n);
    lemma_range_seq(0, items.len());

    // Filtering the previous match set by the current query is filtering the
    // head range by the conjunction of the two predicates.
    lemma_filter_filter(head, p_prev_take, p_cur);

    // On indices below `n` the conjunction collapses to the current predicate.
    assert forall|k: int| 0 <= k < head.len() implies ((p_prev_take(#[trigger] head[k]) && p_cur(
        head[k],
    )) <==> p_cur(head[k])) by {
        let u = head[k];
        assert(u == k);
        assert(items.take(n as int)[u as int] == items[u as int]);
    }
    lemma_filter_congruence(head, |u: usize| p_prev_take(u) && p_cur(u), p_cur);

    // The whole range splits at `n`.
    lemma_range_seq_split(0, n, items.len());
    broadcast use vstd::seq_lib::group_seq_lib_default;

    assert((head + range_seq(n, items.len())).filter(p_cur) == head.filter(p_cur) + range_seq(
        n,
        items.len(),
    ).filter(p_cur));
}

/// The canonical match set holds exactly the indices whose items satisfy
/// every whitespace-separated term of the query, in ascending index order.
pub proof fn lemma_match_seq_characterization(terms: Seq<Seq<char>>, items: Seq<Seq<char>>)
    requires
        items.len() <= usize::MAX,
    ensures
        strictly_ascending(match_seq(terms, items)),
        indices_in_range(match_seq(terms, items), items.len() as int),
        forall|k: int|
            0 <= k < match_seq(terms, items).len() ==> query_matches(
                terms,
                items[#[trigger] match_seq(terms, items)[k] as int],
            ),
        forall|u: usize|
            u < items.len() && query_matches(terms, items[u as int]) ==> match_seq(
                terms,
                items,
            ).contains(u),
{
    lemma_range_filter_props(0, items.len(), match_pred(terms, items));
}

/// With no items there is nothing to match.
pub proof fn lemma_match_seq_empty(terms: Seq<Seq<char>>)
    ensures
        match_seq(terms, Seq::<Seq<char>>::empty()) == Seq::<usize>::empty(),
{
    reveal(Seq::filter);
    assert(range_seq(0, 0) =~= Seq::<usize>::empty());
}

/// A query with no terms matches every item: its match set is every index.
pub proof fn lemma_no_terms_matches_all(terms: Seq<Seq<char>>, items: Seq<Seq<char>>)
    requires
        terms.len() == 0,
        items.len() <= usize::MAX,
    ensures
        match_seq(terms, items) == range_seq(0, items.len()),
{
    lemma_range_seq(0, items.len());
    lemma_filter_all_true(range_seq(0, items.len()), match_pred(terms, items));
}

/// Appending a character to the query never grows the match set: every index
/// in the extended query's match set is in the shorter query's, and the
/// extended set is no longer. Read in the other direction: removing the
/// character recovers, by full recomputation, at least every match of the
/// longer query.
pub proof fn lemma_narrowing_monotone(raw: Seq<char>, c: char, items: Seq<Seq<char>>)
    requires
        items.len() <= usize::MAX,
    ensures
        forall|u: usize|
            #[trigger] match_seq(split_ws(raw.push(c)), items).contains(u) ==> match_seq(
                split_ws(raw),
                items,
            ).contains(u),
        match_seq(split_ws(raw.push(c)), items).len() <= match_seq(split_ws(raw), items).len(),
{
    let p_new = match_pred(split_ws(raw.push(c)), items);
    let p_old = match_pred(split_ws(raw), items);
    let s = range_seq(0, items.len());
    lemma_range_seq(0, items.len());
    assert forall|k: int| 0 <= k < s.len() && p_new(#[trigger] s[k]) implies p_old(s[k]) by {
        lemma_append_char_narrows(raw, c, items[s[k] as int]);
    }
    lemma_filter_weaker_len(s, p_new, p_old);
    lemma_range_filter_props(0, items.len(), p_new);
    lemma_range_filter_props(0, items.len(), p_old);
    assert forall|u: usize|
        #[trigger] match_seq(split_ws(raw.push(c)), items).contains(u) implies match_seq(
        split_ws(raw),
        items,
    ).contains(u) by {
        let flt = match_seq(split_ws(raw.push(c)), items);
        let j = choose|j: int| 0 <= j < flt.len() && flt[j] == u;
        assert(u < items.len() && p_new(u));
        lemma_append_char_narrows(raw, c, items[u as int]);
        assert(p_old(u));
    }
}

/// Whether item `i` of the list satisfies the query.
pub fn matches_at(query: &Query, items: &Vec<String>, i: usize) -> (r: bool)
    requires
        i < items@.len(),
    ensures
        r == query_matches(query.terms(), items.deep_view()[i as int]),
{
    let r = query.is_match(items[i].as_str());
    proof {
        assert(items@[i as int]@ == items.deep_view()[i as int]);
    }
    r
}

/// Relies on rayon's `par_iter().map().filter().collect::<Vec<_>>()`: the
/// per-split results are reduced left to right and appended in order, so the
/// collected vector holds exactly the elements that pass the predicate, in
/// their original order.
#[verifier::external_body]
fn par_filter_candidates(query: &Query, items: &Vec<String>, cands: &Vec<usize>) -> (r: Vec<usize>)
    requires
        indices_in_range(cands@, items@.len() as int),
    ensures
        r@ == cands@.filter(match_pred(query.terms(), items.deep_view())),
{
    cands.par_iter().map(|i| *i).filter(|i| matches_at(query, items, *i)).collect()
}

/// The candidate indices that satisfy the query, in their given order:
/// sequentially for small candidate sets, through rayon for large ones.
pub fn filter_candidates(query: &Query, items: &Vec<String>, cands: &Vec<usize>) -> (r: Vec<usize>)
    requires
        indices_in_range(cands@, items@.len() as int),
    ensures
        r@ == cands@.filter(match_pred(query.terms(), items.deep_view())),
{
    if cands.len() >= PAR_CUTOFF {
        return par_filter_candidates(query, items, cands);
    }
    let ghost pred = match_pred(query.terms(), items.deep_view());
    let mut r: Vec<usize> = Vec::new();
    let mut k: usize = 0;
    proof {
        assert(cands@.take(0) =~= Seq::<usize>::empty());
        reveal(Seq::filter);
    }
    while k < cands.len()
        invariant
            k <= cands@.len(),
            indices_in_range(cands@, items@.len() as int),
            pred == match_pred(query.terms(), items.deep_view()),
            r@ == cands@.take(k as int).filter(pred),
        decreases cands@.len() - k,
    {
        let u = cands[k];
        if matches_at(query, items, u) {
            r.push(u);
        }
        proof {
            assert(cands@.take(k + 1) =~= cands@.take(k as int).push(cands@[k as int]));
            lemma_filter_push(cands@.take(k as int), pred, cands@[k as int]);
        }
        k = k + 1;
    }
    proof {
        assert(cands@.take(cands@.len() as int) =~= cands@);
    }
    r
}

/// The indices `0..n` as a vector, the candidate set of a full scan.
pub fn all_indices(n: usize) -> (r: Vec<usize>)
    ensures
        r@ == range_seq(0, n as nat),
{
    let mut r: Vec<usize> = Vec::new();
    let mut i: usize = 0;
    proof {
        assert(r@ =~= range_seq(0, 0));
    }
    while i < n
        invariant
            i <= n,
            r@ == range_seq(0, i as nat),
        decreases n - i,
    {
        r.push(i);
        i = i + 1;
    }
    r
}

} // verus!
