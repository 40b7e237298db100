//! Character-level helpers on strings.

use vstd::prelude::*;
use vstd::slice::slice_subrange;

verus! {

/// The texts that a list of strings stands for.
pub open spec fn texts_of(strings: Seq<String>) -> Seq<Seq<char>> {
    Seq::new(strings.len(), |i: int| strings[i]@)
}

/// Appends one character to a string: `String::push`, which std documents as
/// appending the given char to the end of the string.
#[verifier::external_body]
fn push_char(s: &mut String, c: char)
    ensures
        final(s)@ == old(s)@.push(c),
{
    s.push(c)
}

/// The characters of `s`, in order.
pub fn to_chars(s: &str) -> (v: Vec<char>)
    ensures
        v@ == s@,
{
    let mut v: Vec<char> = Vec::new();
    for c in it: s.chars()
        invariant
            v@ == it.seq().take(it.index() as int),
    {
        v.push(c);
    }
    v
}

/// The string made of the characters of `v`, in order.
pub fn from_chars(v: &[char]) -> (s: String)
    ensures
        s@ == v@,
{
    let mut s = String::new();
    let mut i: usize = 0;
    while i < v.len()
        invariant
            i <= v@.len(),
            s@ == v@.take(i as int),
        decreases v@.len() - i,
    {
        push_char(&mut s, v[i]);
        i += 1;
    }
    s
}

/// Tests whether `s` begins with `prefix`.
pub fn has_prefix(s: &[char], prefix: &[char]) -> (r: bool)
    ensures
        r == prefix@.is_prefix_of(s@),
{
    if prefix.len() > s.len() {
        return false;
    }
    let mut i: usize = 0;
    while i < prefix.len()
        invariant
            i <= prefix@.len() <= s@.len(),
            forall|k: int| 0 <= k < i ==> s@[k] == prefix@[k],
        decreases prefix@.len() - i,
    {
        if s[i] != prefix[i] {
            return false;
        }
        i += 1;
    }
    true
}

/// The index of the first `c` in `s`, if there is one.
pub fn position_of(s: &[char], c: char) -> (r: Option<usize>)
    ensures
        match r {
            Some(i) => s@.index_of_first(c) == Some(i as int) && i < s@.len(),
            None => s@.index_of_first(c) is None,
        },
{
    let mut i: usize = 0;
    while i < s.len()
        invariant
            i <= s@.len(),
            forall|k: int| 0 <= k < i ==> s@[k] != c,
        decreases s@.len() - i,
    {
        if s[i] == c {
            proof {
                s@.index_of_first_ensures(c);
            }
            return Some(i);
        }
        i += 1;
    }
    proof {
        s@.index_of_first_ensures(c);
    }
    None
}

/// `pat` stands in `text` from the position `at` on.
pub open spec fn found_at(text: Seq<char>, pat: Seq<char>, at: int) -> bool {
    0 <= at && at + pat.len() <= text.len() && text.subrange(at, at + pat.len()) == pat
}

/// `pat` stands somewhere in `text`.
pub open spec fn found(text: Seq<char>, pat: Seq<char>) -> bool {
    exists|at: int| found_at(text, pat, at)
}

/// The number of positions before `upto` from which on `pat` stands in
/// `text`.
pub open spec fn times(text: Seq<char>, pat: Seq<char>, upto: int) -> nat
    decreases upto,
{
    if upto <= 0 {
        0
    } else if found_at(text, pat, upto - 1) {
        times(text, pat, upto - 1) + 1
    } else {
        times(text, pat, upto - 1)
    }
}

/// Tests whether `pat` stands in `text` from the position `at` on.
pub fn stands_at(text: &[char], pat: &[char], at: usize) -> (r: bool)
    ensures
        r == found_at(text@, pat@, at as int),
{
    let n: usize = text.len();
    if at > n {
        return false;
    }
    let rest = slice_subrange(text, at, n);
    let r = has_prefix(rest, pat);
    proof {
        if pat@.len() <= rest@.len() {
            assert(rest@.subrange(0, pat@.len() as int) =~= text@.subrange(
                at as int,
                at + pat@.len(),
            ));
        }
    }
    r
}

/// Tests whether `pat` stands somewhere in `text`.
pub fn occurs(text: &[char], pat: &[char]) -> (r: bool)
    ensures
        r == found(text@, pat@),
{
    let n: usize = text.len();
    let mut at: usize = 0;
    while at < n
        invariant
            at <= n == text@.len(),
            forall|j: int| 0 <= j < at ==> !found_at(text@, pat@, j),
        decreases n - at,
    {
        if stands_at(text, pat, at) {
            return true;
        }
        at += 1;
    }
    stands_at(text, pat, n)
}

/// The number of positions of `text` from which on `pat` stands in it.
pub fn occurrences(text: &[char], pat: &[char]) -> (r: usize)
    ensures
        r == times(text@, pat@, text@.len() as int),
{
    let n: usize = text.len();
    let mut r: usize = 0;
    let mut at: usize = 0;
    while at < n
        invariant
            at <= n == text@.len(),
            r <= at,
            r == times(text@, pat@, at as int),
        decreases n - at,
    {
        if stands_at(text, pat, at) {
            r += 1;
        }
        at += 1;
    }
    r
}

/// The texts that a list of character vectors stands for.
pub open spec fn lists_of(items: Seq<Vec<char>>) -> Seq<Seq<char>> {
    Seq::new(items.len(), |i: int| items[i]@)
}

/// `at` is the first position at or behind `from` from which on `pat` stands
/// in `text`.
pub open spec fn first_place(text: Seq<char>, pat: Seq<char>, from: int, at: int) -> bool {
    &&& from <= at
    &&& found_at(text, pat, at)
    &&& forall|j: int| from <= j < at ==> !found_at(text, pat, j)
}

/// The first position at or behind `from` from which on `pat` stands in
/// `text`, if there is one.
pub open spec fn place_from(text: Seq<char>, pat: Seq<char>, from: int) -> Option<int> {
    if exists|at: int| first_place(text, pat, from, at) {
        Some(choose|at: int| first_place(text, pat, from, at))
    } else {
        None
    }
}

/// The items stand in `text` one behind the other, none reaching into the
/// next, the first of them at or behind `from`: each is looked for from the
/// end of the one before it on.
pub open spec fn in_order(text: Seq<char>, items: Seq<Seq<char>>, from: int) -> bool
    decreases items.len(),
{
    if items.len() == 0 {
        true
    } else {
        match place_from(text, items[0], from) {
            Some(at) => in_order(text, items.skip(1), at + items[0].len()),
            None => false,
        }
    }
}

/// The items stand in `text` at the given places: one behind the other, none
/// reaching into the next, the first of them at or behind `from`.
pub open spec fn placed(text: Seq<char>, items: Seq<Seq<char>>, places: Seq<int>, from: int) -> bool {
    &&& places.len() == items.len()
    &&& forall|k: int| 0 <= k < items.len() ==> found_at(text, #[trigger] items[k], places[k])
    &&& items.len() > 0 ==> from <= places[0]
    &&& forall|k: int|
        0 <= k < items.len() - 1 ==> (#[trigger] places[k]) + items[k].len() <= places[k + 1]
}

/// A first place is the only first place.
pub proof fn lemma_first_place_is_place_from(text: Seq<char>, pat: Seq<char>, from: int, at: int)
    requires
        first_place(text, pat, from, at),
    ensures
        place_from(text, pat, from) == Some(at),
{
}

/// Where `pat` stands somewhere at or behind `from`, it has a first place
/// there, and that place is not behind any other.
pub proof fn lemma_place_from_is_first(text: Seq<char>, pat: Seq<char>, from: int, at: int)
    requires
        from <= at,
        found_at(text, pat, at),
    ensures
        place_from(text, pat, from) matches Some(first) && from <= first <= at && found_at(
            text,
            pat,
            first,
        ),
    decreases at - from,
{
    if found_at(text, pat, from) {
        assert(first_place(text, pat, from, from));
        lemma_first_place_is_place_from(text, pat, from, from);
    } else {
        lemma_place_from_is_first(text, pat, from + 1, at);
        let first = place_from(text, pat, from + 1)->0;
        assert(first_place(text, pat, from + 1, first));
        assert(first_place(text, pat, from, first));
        lemma_first_place_is_place_from(text, pat, from, first);
    }
}

/// Items that stand in order behind a position stand in order behind every
/// position before it.
pub proof fn lemma_in_order_from_earlier(
    text: Seq<char>,
    items: Seq<Seq<char>>,
    from: int,
    later: int,
)
    requires
        from <= later,
        in_order(text, items, later),
    ensures
        in_order(text, items, from),
    decreases items.len(),
{
    if items.len() > 0 {
        let there = place_from(text, items[0], later)->0;
        assert(first_place(text, items[0], later, there));
        lemma_place_from_is_first(text, items[0], from, there);
        let here = place_from(text, items[0], from)->0;
        lemma_in_order_from_earlier(
            text,
            items.skip(1),
            here + items[0].len(),
            there + items[0].len(),
        );
    }
}

/// Items that stand at some places one behind the other stand in order.
pub proof fn lemma_placed_is_in_order(
    text: Seq<char>,
    items: Seq<Seq<char>>,
    places: Seq<int>,
    from: int,
)
    requires
        placed(text, items, places, from),
    ensures
        in_order(text, items, from),
    decreases items.len(),
{
    if items.len() > 0 {
        lemma_place_from_is_first(text, items[0], from, places[0]);
        let here = place_from(text, items[0], from)->0;
        let behind = places[0] + items[0].len();
        assert(placed(text, items.skip(1), places.skip(1), behind)) by {
            assert forall|k: int| 0 <= k < items.skip(1).len() implies found_at(
                text,
                #[trigger] items.skip(1)[k],
                places.skip(1)[k],
            ) by {
                assert(found_at(text, items[k + 1], places[k + 1]));
            }
            assert forall|k: int| 0 <= k < items.skip(1).len() - 1 implies (
            #[trigger] places.skip(1)[k]) + items.skip(1)[k].len() <= places.skip(1)[k + 1] by {
                assert(places[k + 1] + items[k + 1].len() <= places[k + 2]);
            }
            if items.len() > 1 {
                assert(places[0] + items[0].len() <= places[1]);
            }
        }
        lemma_placed_is_in_order(text, items.skip(1), places.skip(1), behind);
        lemma_in_order_from_earlier(text, items.skip(1), here + items[0].len(), behind);
    }
}

/// Items that stand in order stand at some places one behind the other.
pub proof fn lemma_in_order_is_placed(text: Seq<char>, items: Seq<Seq<char>>, from: int) -> (places:
    Seq<int>)
    requires
        in_order(text, items, from),
    ensures
        placed(text, items, places, from),
    decreases items.len(),
{
    if items.len() == 0 {
        Seq::empty()
    } else {
        let here = place_from(text, items[0], from)->0;
        assert(first_place(text, items[0], from, here));
        let rest = lemma_in_order_is_placed(text, items.skip(1), here + items[0].len());
        let places = seq![here] + rest;
        assert forall|k: int| 0 <= k < items.len() implies found_at(
            text,
            #[trigger] items[k],
            places[k],
        ) by {
            if k > 0 {
                assert(found_at(text, items.skip(1)[k - 1], rest[k - 1]));
            }
        }
        assert forall|k: int| 0 <= k < items.len() - 1 implies (#[trigger] places[k])
            + items[k].len() <= places[k + 1] by {
            if k > 0 {
                assert(rest[k - 1] + items.skip(1)[k - 1].len() <= rest[k]);
            }
        }
        places
    }
}

/// The first position at or behind `from` from which on `pat` stands in
/// `text`.
pub fn find_from(text: &[char], pat: &[char], from: usize) -> (r: Option<usize>)
    ensures
        match r {
            Some(at) => place_from(text@, pat@, from as int) == Some(at as int) && at + pat@.len()
                <= text@.len(),
            None => place_from(text@, pat@, from as int) is None,
        },
{
    let n: usize = text.len();
    if from > n {
        return None;
    }
    let mut at: usize = from;
    while at < n
        invariant
            from <= at <= n == text@.len(),
            forall|j: int| from <= j < at ==> !found_at(text@, pat@, j),
        decreases n - at,
    {
        if stands_at(text, pat, at) {
            proof {
                lemma_first_place_is_place_from(text@, pat@, from as int, at as int);
            }
            return Some(at);
        }
        at += 1;
    }
    if stands_at(text, pat, n) {
        proof {
            lemma_first_place_is_place_from(text@, pat@, from as int, n as int);
        }
        Some(n)
    } else {
        None
    }
}

/// Tests whether the items stand in `text` one behind the other.
pub fn stands_in_order(text: &[char], items: &Vec<Vec<char>>) -> (r: bool)
    ensures
        r == in_order(text@, lists_of(items@), 0),
{
    let ghost all = lists_of(items@);
    let n: usize = text.len();
    let mut cursor: usize = 0;
    let mut k: usize = 0;
    proof {
        assert(all.skip(0) =~= all);
    }
    while k < items.len()
        invariant
            k <= items@.len(),
            all == lists_of(items@),
            cursor <= n == text@.len(),
            in_order(text@, all, 0) == in_order(text@, all.skip(k as int), cursor as int),
        decreases items@.len() - k,
    {
        proof {
            assert(all.skip(k as int)[0] == items@[k as int]@);
            assert(all.skip(k as int).skip(1) =~= all.skip(k + 1));
        }
        match find_from(text, items[k].as_slice(), cursor) {
            Some(at) => {
                cursor = at + items[k].len();
            },
            None => {
                return false;
            },
        }
        k += 1;
    }
    true
}

} // verus!
