//! Characters, case folding and substring search.
//!
//! Matching is case-insensitive: both the query terms and the items are folded
//! character by character before the substring test. The folding of a single
//! character is whatever `char::to_lowercase` yields; everything built on top
//! of it is verified.

use vstd::prelude::*;
use vstd::string::StrSliceExecFns;

verus! {

/// The lowercase mapping of one character, as `char::to_lowercase` yields it.
pub uninterp spec fn lower_char(c: char) -> Seq<char>;

/// The character-wise lowercase folding of a sequence of characters.
pub open spec fn lower_of(s: Seq<char>) -> Seq<char>
    decreases s.len(),
{
    if s.len() == 0 {
        Seq::empty()
    } else {
        lower_char(s[0]) + lower_of(s.drop_first())
    }
}

/// Relies on `char::to_lowercase`: it yields the lowercase mapping of the
/// character, which depends on that character alone.
#[verifier::external_body]
fn lower_char_exec(c: char) -> (r: Vec<char>)
    ensures
        r@ == lower_char(c),
{
    c.to_lowercase().collect()
}

/// Folding distributes over concatenation.
pub proof fn lemma_lower_of_add(a: Seq<char>, b: Seq<char>)
    ensures
        lower_of(a + b) == lower_of(a) + lower_of(b),
    decreases a.len(),
{
    if a.len() == 0 {
        assert(a + b =~= b);
        assert(lower_of(a) + lower_of(b) =~= lower_of(b));
    } else {
        assert((a + b).drop_first() =~= a.drop_first() + b);
        assert((a + b)[0] == a[0]);
        lemma_lower_of_add(a.drop_first(), b);
        assert(lower_char(a[0]) + (lower_of(a.drop_first()) + lower_of(b)) =~= (lower_char(a[0])
            + lower_of(a.drop_first())) + lower_of(b));
    }
}

/// The characters of a string slice, in order.
pub fn chars_vec(s: &str) -> (r: Vec<char>)
    ensures
        r@ == s@,
{
    let n = s.unicode_len();
    let mut r: Vec<char> = Vec::new();
    let mut i: usize = 0;
    while i < n
        invariant
            n == s@.len(),
            i <= n,
            r@ == s@.take(i as int),
        decreases n - i,
    {
        r.push(s.get_char(i));
        proof {
            assert(s@.take(i + 1) =~= s@.take(i as int).push(s@[i as int]));
        }
        i = i + 1;
    }
    proof {
        assert(s@.take(n as int) =~= s@);
    }
    r
}

/// The case folding of a sequence of characters, computed one character at a time.
pub fn lowercase_chars(v: &Vec<char>) -> (r: Vec<char>)
    ensures
        r@ == lower_of(v@),
{
    let mut r: Vec<char> = Vec::new();
    let mut i: usize = 0;
    while i < v.len()
        invariant
            i <= v@.len(),
            r@ == lower_of(v@.take(i as int)),
        decreases v@.len() - i,
    {
        let mut piece = lower_char_exec(v[i]);
        proof {
            let x = v@[i as int];
            assert(v@.take(i + 1) =~= v@.take(i as int) + seq![x]);
            lemma_lower_of_add(v@.take(i as int), seq![x]);
            assert(seq![x].drop_first() =~= Seq::<char>::empty());
            assert(lower_of(Seq::<char>::empty()) == Seq::<char>::empty());
            assert(lower_of(seq![x]) == lower_char(x) + Seq::<char>::empty());
            assert(lower_char(x) + Seq::<char>::empty() =~= lower_char(x));
        }
        r.append(&mut piece);
        i = i + 1;
    }
    proof {
        assert(v@.take(v@.len() as int) =~= v@);
    }
    r
}

/// Relies on `String::push`: appends exactly the one character.
#[verifier::external_body]
pub(crate) fn push_char(s: &mut String, c: char)
    ensures
        final(s)@ == old(s)@.push(c),
{
    s.push(c);
}

/// `needle` occurs contiguously somewhere in `hay`.
pub open spec fn is_substr(needle: Seq<char>, hay: Seq<char>) -> bool {
    exists|k: int|
        0 <= k <= hay.len() - needle.len() && #[trigger] hay.subrange(k, k + needle.len() as int)
            == needle
}

/// A prefix of a substring is itself a substring.
pub proof fn lemma_substr_of_concat(a: Seq<char>, b: Seq<char>, hay: Seq<char>)
    requires
        is_substr(a + b, hay),
    ensures
        is_substr(a, hay),
{
    let ab = a + b;
    let k = choose|k: int|
        0 <= k <= hay.len() - ab.len() && #[trigger] hay.subrange(k, k + ab.len() as int) == ab;
    assert(hay.subrange(k, k + a.len() as int) =~= a) by {
        assert forall|t: int| 0 <= t < a.len() implies hay.subrange(k, k + a.len() as int)[t]
            == a[t] by {
            assert(hay.subrange(k, k + ab.len() as int)[t] == ab[t]);
        }
    }
}

/// Whether `hay[k .. k + needle.len()]` equals `needle`.
fn matches_at_pos(hay: &Vec<char>, needle: &Vec<char>, k: usize) -> (r: bool)
    requires
        k + needle@.len() <= hay@.len(),
    ensures
        r == (hay@.subrange(k as int, k + needle@.len() as int) == needle@),
{
    let hay_len = hay.len();
    let mut j: usize = 0;
    while j < needle.len()
        invariant
            hay_len == hay@.len(),
            j <= needle@.len(),
            k + needle@.len() <= hay@.len(),
            forall|t: int| 0 <= t < j ==> hay@[k + t] == needle@[t],
        decreases needle@.len() - j,
    {
        if hay[k + j] != needle[j] {
            proof {
                let sub = hay@.subrange(k as int, k + needle@.len() as int);
                assert(sub[j as int] == hay@[k + j]);
            }
            return false;
        }
        j = j + 1;
    }
    proof {
        assert(hay@.subrange(k as int, k + needle@.len() as int) =~= needle@);
    }
    true
}

/// `r` is the position of the first occurrence of `needle` in `hay`, or
/// nothing when there is none.
pub open spec fn first_occurrence_is(needle: Seq<char>, hay: Seq<char>, r: Option<int>) -> bool {
    match r {
        Some(k) => {
            &&& 0 <= k
            &&& k + needle.len() <= hay.len()
            &&& hay.subrange(k, k + needle.len() as int) == needle
            &&& forall|k2: int|
                0 <= k2 < k ==> #[trigger] hay.subrange(k2, k2 + needle.len() as int) != needle
        },
        None => !is_substr(needle, hay),
    }
}

/// The first position at which `needle` occurs in `hay`, if any.
pub fn find_first(hay: &Vec<char>, needle: &Vec<char>) -> (r: Option<usize>)
    ensures
        match r {
            Some(k) => first_occurrence_is(needle@, hay@, Some(k as int)),
            None => first_occurrence_is(needle@, hay@, None),
        },
{
    if needle.len() > hay.len() {
        return None;
    }
    let last = hay.len() - needle.len();
    let mut k: usize = 0;
    while k < last
        invariant
            needle@.len() <= hay@.len(),
            last == hay@.len() - needle@.len(),
            k <= last,
            forall|k2: int|
                0 <= k2 < k ==> #[trigger] hay@.subrange(k2, k2 + needle@.len() as int) != needle@,
        decreases last - k,
    {
        if matches_at_pos(hay, needle, k) {
            return Some(k);
        }
        k = k + 1;
    }
    if matches_at_pos(hay, needle, last) {
        return Some(last);
    }
    proof {
        if is_substr(needle@, hay@) {
            let k0 = choose|k0: int|
                0 <= k0 <= hay@.len() - needle@.len() && #[trigger] hay@.subrange(
                    k0,
                    k0 + needle@.len() as int,
                ) == needle@;
            assert(hay@.subrange(k0, k0 + needle@.len() as int) != needle@);
        }
    }
    None
}

/// Whether `needle` occurs in `hay`.
pub fn contains_sub(hay: &Vec<char>, needle: &Vec<char>) -> (r: bool)
    ensures
        r == is_substr(needle@, hay@),
{
    match find_first(hay, needle) {
        Some(k) => {
            proof {
                assert(0 <= k as int <= hay@.len() - needle@.len() && hay@.subrange(
                    k as int,
                    k as int + needle@.len() as int,
                ) == needle@);
            }
            true
        },
        None => false,
    }
}

} // verus!
