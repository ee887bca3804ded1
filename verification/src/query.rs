//! The query: raw text plus the whitespace-separated terms derived from it.
//!
//! An item matches a query when every term, folded to lowercase, occurs as a
//! substring of the folded item; a query with no terms matches everything.

use vstd::prelude::*;
use vstd::string::StrSliceExecFns;
use vstd::string::StringExecFns;

use crate::text::contains_sub;
use crate::text::chars_vec;
use crate::text::is_substr;
use crate::text::lemma_lower_of_add;
use crate::text::lemma_substr_of_concat;
use crate::text::lower_of;
use crate::text::lowercase_chars;

verus! {

/// ASCII whitespace, as the tokenizer splits on it.
pub open spec fn is_ws(c: char) -> bool {
    c == ' ' || c == '\t' || c == '\n' || c == '\x0C' || c == '\r'
}

fn is_ws_exec(c: char) -> (r: bool)
    ensures
        r == is_ws(c),
{
    c == ' ' || c == '\t' || c == '\n' || c == '\x0C' || c == '\r'
}

/// The length of the leading run of non-whitespace characters.
pub open spec fn run_len(s: Seq<char>) -> nat
    decreases s.len(),
{
    if s.len() == 0 || is_ws(s[0]) {
        0
    } else {
        1 + run_len(s.drop_first())
    }
}

/// The leading run never reaches past the end.
pub proof fn lemma_run_len_le(s: Seq<char>)
    ensures
        run_len(s) <= s.len(),
    decreases s.len(),
{
    if s.len() > 0 && !is_ws(s[0]) {
        lemma_run_len_le(s.drop_first());
    }
}

/// The whitespace-separated terms of a sequence of characters, in order.
pub open spec fn split_ws(s: Seq<char>) -> Seq<Seq<char>>
    decreases s.len(),
    when true
    via split_ws_decreases
{
    if s.len() == 0 {
        Seq::empty()
    } else if is_ws(s[0]) {
        split_ws(s.drop_first())
    } else {
        seq![s.take(run_len(s) as int)] + split_ws(s.skip(run_len(s) as int))
    }
}

#[via_fn]
proof fn split_ws_decreases(s: Seq<char>) {
    if s.len() > 0 && !is_ws(s[0]) {
        lemma_run_len_le(s);
    }
}

/// Every term of the query, folded to lowercase, occurs in the folded item.
pub open spec fn query_matches(terms: Seq<Seq<char>>, item: Seq<char>) -> bool {
    forall|j: int| 0 <= j < terms.len() ==> is_substr(lower_of(#[trigger] terms[j]), lower_of(item))
}

/// The leading non-whitespace run of `s.skip(p)` ends exactly at `e`.
proof fn lemma_run_len_upto(s: Seq<char>, e: int)
    requires
        0 <= e <= s.len(),
        forall|t: int| 0 <= t < e ==> !is_ws(s[t]),
        e == s.len() || is_ws(s[e]),
    ensures
        run_len(s) == e,
    decreases e,
{
    if e == 0 {
    } else {
        assert(!is_ws(s[0]));
        lemma_run_len_upto(s.drop_first(), e - 1);
    }
}

/// Where the leading non-whitespace run ends: within bounds, everything
/// before it non-whitespace, and the character at its end (if any) whitespace.
proof fn lemma_run_len_props(s: Seq<char>)
    ensures
        run_len(s) <= s.len(),
        forall|t: int| 0 <= t < run_len(s) ==> !is_ws(#[trigger] s[t]),
        run_len(s) < s.len() ==> is_ws(s[run_len(s) as int]),
    decreases s.len(),
{
    if s.len() > 0 && !is_ws(s[0]) {
        lemma_run_len_props(s.drop_first());
        assert forall|t: int| 0 <= t < run_len(s) implies !is_ws(#[trigger] s[t]) by {
            if t > 0 {
                assert(s.drop_first()[t - 1] == s[t]);
            }
        }
        if run_len(s) < s.len() {
            assert(s.drop_first()[run_len(s) - 1] == s[run_len(s) as int]);
        }
    }
}

/// How appending one character changes the split: whitespace changes nothing,
/// a non-whitespace character after whitespace (or at the start) becomes a
/// fresh one-character term, and one after a non-whitespace character extends
/// the last term.
pub proof fn lemma_split_ws_push(s: Seq<char>, c: char)
    ensures
        is_ws(c) ==> split_ws(s.push(c)) == split_ws(s),
        !is_ws(c) && (s.len() == 0 || is_ws(s.last())) ==> split_ws(s.push(c)) == split_ws(
            s,
        ).push(seq![c]),
        !is_ws(c) && s.len() > 0 && !is_ws(s.last()) ==> split_ws(s).len() > 0 && split_ws(
            s.push(c),
        ) == split_ws(s).drop_last().push(split_ws(s).last().push(c)),
    decreases s.len(),
{
    let t = s.push(c);
    if s.len() == 0 {
        assert(t =~= seq![c]);
        if is_ws(c) {
            assert(t.drop_first() =~= Seq::<char>::empty());
            assert(split_ws(t) == split_ws(Seq::<char>::empty()));
        } else {
            assert(t.drop_first() =~= Seq::<char>::empty());
            assert(run_len(Seq::<char>::empty()) == 0);
            assert(run_len(t) == 1);
            assert(t.take(1) =~= seq![c]);
            assert(t.skip(1) =~= Seq::<char>::empty());
            assert(split_ws(t) == seq![seq![c]] + split_ws(Seq::<char>::empty()));
            assert(seq![seq![c]] + Seq::<Seq<char>>::empty() =~= Seq::<Seq<char>>::empty().push(
                seq![c],
            ));
        }
    } else if is_ws(s[0]) {
        assert(t[0] == s[0]);
        assert(t.drop_first() =~= s.drop_first().push(c));
        lemma_split_ws_push(s.drop_first(), c);
        assert(split_ws(t) == split_ws(s.drop_first().push(c)));
        assert(split_ws(s) == split_ws(s.drop_first()));
        if s.len() == 1 {
            assert(s.drop_first() =~= Seq::<char>::empty());
            assert(s.last() == s[0]);
        } else {
            assert(s.drop_first().len() > 0);
            assert(s.drop_first().last() == s.last());
        }
    } else {
        lemma_run_len_props(s);
        let k = run_len(s) as int;
        assert(k >= 1);
        assert(split_ws(s) == seq![s.take(k)] + split_ws(s.skip(k)));
        if k < s.len() {
            assert(is_ws(s[k]));
            assert forall|j: int| 0 <= j < k implies !is_ws(#[trigger] t[j]) by {
                assert(t[j] == s[j]);
            }
            assert(is_ws(t[k]));
            lemma_run_len_upto(t, k);
            assert(split_ws(t) == seq![t.take(k)] + split_ws(t.skip(k)));
            assert(t.take(k) =~= s.take(k));
            assert(t.skip(k) =~= s.skip(k).push(c));
            lemma_split_ws_push(s.skip(k), c);
            assert(s.skip(k).len() > 0);
            assert(s.skip(k).last() == s.last());
            if is_ws(c) {
                assert(split_ws(t) == split_ws(s));
            } else if is_ws(s.last()) {
                assert(split_ws(t.skip(k)) == split_ws(s.skip(k)).push(seq![c]));
                assert(seq![s.take(k)] + split_ws(s.skip(k)).push(seq![c]) =~= (seq![s.take(k)]
                    + split_ws(s.skip(k))).push(seq![c]));
            } else {
                let sub = split_ws(s.skip(k));
                assert(sub.len() > 0);
                assert(split_ws(t.skip(k)) == sub.drop_last().push(sub.last().push(c)));
                let full = seq![s.take(k)] + sub;
                assert(full.len() > 0);
                assert(full.last() == sub.last());
                assert(seq![s.take(k)] + sub.drop_last().push(sub.last().push(c)) =~= (seq![
                    s.take(k),
                ] + sub.drop_last()).push(sub.last().push(c)));
                assert(full.drop_last() =~= seq![s.take(k)] + sub.drop_last());
            }
        } else {
            assert(s.last() == s[s.len() - 1]);
            assert(!is_ws(s.last()));
            assert(s.take(k) =~= s);
            assert(s.skip(k) =~= Seq::<char>::empty());
            assert(split_ws(s) == seq![s] + split_ws(Seq::<char>::empty()));
            assert(split_ws(s) =~= seq![s]);
            assert forall|j: int| 0 <= j < k implies !is_ws(#[trigger] t[j]) by {
                assert(t[j] == s[j]);
            }
            if is_ws(c) {
                assert(is_ws(t[k]));
                lemma_run_len_upto(t, k);
                assert(split_ws(t) == seq![t.take(k)] + split_ws(t.skip(k)));
                assert(t.take(k) =~= s);
                assert(t.skip(k) =~= seq![c]);
                assert(seq![c].drop_first() =~= Seq::<char>::empty());
                assert(split_ws(seq![c]) == split_ws(Seq::<char>::empty()));
                assert(split_ws(t) =~= seq![s]);
            } else {
                assert(t[k] == c);
                lemma_run_len_upto(t, k + 1);
                assert(split_ws(t) == seq![t.take(k + 1)] + split_ws(t.skip(k + 1)));
                assert(t.take(k + 1) =~= s.push(c));
                assert(t.skip(k + 1) =~= Seq::<char>::empty());
                assert(split_ws(t) =~= seq![s.push(c)]);
                assert(split_ws(s).drop_last() =~= Seq::<Seq<char>>::empty());
                assert(split_ws(s).last() == s);
                assert(Seq::<Seq<char>>::empty().push(s.push(c)) =~= seq![s.push(c)]);
            }
        }
    }
}

/// Appending a character to the query can only narrow it: an item that
/// matches the extended query also matched the query without it.
pub proof fn lemma_append_char_narrows(raw: Seq<char>, c: char, item: Seq<char>)
    requires
        query_matches(split_ws(raw.push(c)), item),
    ensures
        query_matches(split_ws(raw), item),
{
    lemma_split_ws_push(raw, c);
    let old_t = split_ws(raw);
    let new_t = split_ws(raw.push(c));
    if is_ws(c) {
    } else if raw.len() == 0 || is_ws(raw.last()) {
        assert forall|j: int| 0 <= j < old_t.len() implies is_substr(
            lower_of(#[trigger] old_t[j]),
            lower_of(item),
        ) by {
            assert(new_t[j] == old_t[j]);
            assert(is_substr(lower_of(new_t[j]), lower_of(item)));
        }
    } else {
        let lt = old_t.last();
        assert forall|j: int| 0 <= j < old_t.len() implies is_substr(
            lower_of(#[trigger] old_t[j]),
            lower_of(item),
        ) by {
            if j < old_t.len() - 1 {
                assert(new_t[j] == old_t[j]);
                assert(is_substr(lower_of(new_t[j]), lower_of(item)));
            } else {
                assert(new_t[new_t.len() - 1] == lt.push(c));
                assert(is_substr(lower_of(lt.push(c)), lower_of(item)));
                assert(lt.push(c) =~= lt + seq![c]);
                lemma_lower_of_add(lt, seq![c]);
                lemma_substr_of_concat(lower_of(lt), lower_of(seq![c]), lower_of(item));
                assert(old_t[j] == lt);
            }
        }
    }
}

/// The same, stated over every item at once.
pub proof fn lemma_append_char_narrows_all(raw: Seq<char>, c: char)
    ensures
        forall|item: Seq<char>|
            #[trigger] query_matches(split_ws(raw.push(c)), item) ==> query_matches(
                split_ws(raw),
                item,
            ),
{
    assert forall|item: Seq<char>|
        #[trigger] query_matches(split_ws(raw.push(c)), item) implies query_matches(
        split_ws(raw),
        item,
    ) by {
        lemma_append_char_narrows(raw, c, item);
    }
}

/// A query: the raw text and its derived terms, raw and folded.
pub struct Query {
    query_str: String,
    query: Vec<String>,
    lowered: Vec<Vec<char>>,
}

impl Query {
    #[verifier::type_invariant]
    spec fn inv(self) -> bool {
        &&& self.query.deep_view() == split_ws(self.query_str@)
        &&& self.lowered@.len() == self.query@.len()
        &&& forall|j: int|
            0 <= j < self.lowered@.len() ==> self.lowered@[j]@ == lower_of(
                #[trigger] self.query@[j]@,
            )
    }

    /// The raw query text.
    pub closed spec fn raw(self) -> Seq<char> {
        self.query_str@
    }

    /// The whitespace-separated terms of the raw text.
    pub closed spec fn terms(self) -> Seq<Seq<char>> {
        self.query.deep_view()
    }

    /// Tokenizes the raw text on ASCII whitespace; the terms keep their order.
    pub fn new(query_str: String) -> (q: Query)
        ensures
            q.raw() == query_str@,
            q.terms() == split_ws(query_str@),
    {
        let terms = tokenize(query_str.as_str());
        let mut lowered: Vec<Vec<char>> = Vec::new();
        let mut j: usize = 0;
        while j < terms.len()
            invariant
                j <= terms@.len(),
                lowered@.len() == j,
                forall|t: int| 0 <= t < j ==> lowered@[t]@ == lower_of(#[trigger] terms@[t]@),
            decreases terms@.len() - j,
        {
            let cs = chars_vec(terms[j].as_str());
            let folded = lowercase_chars(&cs);
            lowered.push(folded);
            j = j + 1;
        }
        proof {
            assert(terms.deep_view() =~= split_ws(query_str@));
        }
        Query { query_str, query: terms, lowered }
    }

    /// The raw query text.
    pub fn raw_str(&self) -> (r: &String)
        ensures
            r@ == self.raw(),
    {
        &self.query_str
    }

    /// The terms, as they were split from the raw text.
    pub fn term_strings(&self) -> (r: &Vec<String>)
        ensures
            r.deep_view() == self.terms(),
    {
        proof {
            use_type_invariant(self);
        }
        &self.query
    }

    /// How many terms the query has.
    pub fn term_count(&self) -> (n: usize)
        ensures
            n == self.terms().len(),
    {
        proof {
            use_type_invariant(self);
            assert(self.query.deep_view().len() == self.query@.len());
        }
        self.query.len()
    }

    /// Whether the item satisfies every term of the query.
    pub fn is_match(&self, item: &str) -> (r: bool)
        ensures
            r == query_matches(self.terms(), item@),
    {
        proof {
            use_type_invariant(self);
        }
        let item_chars = chars_vec(item);
        let folded_item = lowercase_chars(&item_chars);
        let mut j: usize = 0;
        while j < self.lowered.len()
            invariant
                self.inv(),
                j <= self.lowered@.len(),
                folded_item@ == lower_of(item@),
                forall|t: int|
                    0 <= t < j ==> is_substr(lower_of(#[trigger] self.terms()[t]), lower_of(item@)),
            decreases self.lowered@.len() - j,
        {
            if !contains_sub(&folded_item, &self.lowered[j]) {
                proof {
                    assert(self.lowered@[j as int]@ == lower_of(self.terms()[j as int]));
                }
                return false;
            }
            j = j + 1;
        }
        true
    }
}

/// Splits a string into its maximal runs of non-whitespace characters.
fn tokenize(s: &str) -> (terms: Vec<String>)
    ensures
        terms.deep_view() == split_ws(s@),
{
    let n = s.unicode_len();
    let mut terms: Vec<String> = Vec::new();
    let mut p: usize = 0;
    proof {
        assert(s@.skip(0) =~= s@);
        assert(terms.deep_view() =~= Seq::<Seq<char>>::empty());
        assert(Seq::<Seq<char>>::empty() + split_ws(s@) =~= split_ws(s@));
    }
    while p < n
        invariant
            n == s@.len(),
            p <= n,
            split_ws(s@) == terms.deep_view() + split_ws(s@.skip(p as int)),
        decreases n - p,
    {
        let c = s.get_char(p);
        if is_ws_exec(c) {
            proof {
                assert(s@.skip(p as int).drop_first() =~= s@.skip(p + 1));
            }
            p = p + 1;
        } else {
            let mut e: usize = p + 1;
            while e < n && !is_ws_exec(s.get_char(e))
                invariant
                    n == s@.len(),
                    p < e <= n,
                    forall|t: int| p <= t < e ==> !is_ws(#[trigger] s@[t]),
                decreases n - e,
            {
                e = e + 1;
            }
            let term = s.substring_char(p, e);
            let ghost old_terms = terms.deep_view();
            terms.push(String::from_str(term));
            proof {
                let rest = s@.skip(p as int);
                lemma_run_len_upto(rest, e - p);
                assert(rest.take((e - p) as int) =~= s@.subrange(p as int, e as int));
                assert(rest.skip((e - p) as int) =~= s@.skip(e as int));
                assert(split_ws(rest) == seq![s@.subrange(p as int, e as int)] + split_ws(
                    s@.skip(e as int),
                ));
                assert(terms.deep_view() =~= old_terms + seq![s@.subrange(p as int, e as int)]);
                assert(old_terms + (seq![s@.subrange(p as int, e as int)] + split_ws(
                    s@.skip(e as int),
                )) =~= terms.deep_view() + split_ws(s@.skip(e as int)));
            }
            p = e;
        }
    }
    proof {
        assert(s@.skip(n as int) =~= Seq::<char>::empty());
        assert(terms.deep_view() + Seq::<Seq<char>>::empty() =~= terms.deep_view());
    }
    terms
}

} // verus!
