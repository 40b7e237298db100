//! The choice of the references to build: those whose full name matches one
//! of the patterns that the caller gave.

use vstd::prelude::*;
use crate::text::texts_of;

verus! {

/// A compiled set of regular expressions.
#[verifier::external_type_specification]
#[verifier::external_body]
pub struct ExRegexSet(regex::RegexSet);

/// The patterns that a set holds, in their order: what
/// `regex::RegexSet::patterns` returns.
pub uninterp spec fn patterns_of(set: regex::RegexSet) -> Seq<Seq<char>>;

/// Whether a set is as `regex::RegexSet::new` makes it, with none of the
/// options changed that a builder offers.
pub uninterp spec fn plainly_made(set: regex::RegexSet) -> bool;

/// Whether `regex::RegexSet::new` accepts the patterns: each of them is a
/// valid regular expression, and the set is within the size limit.
pub uninterp spec fn regex_valid(patterns: Seq<Seq<char>>) -> bool;

/// Whether one of the patterns has a match somewhere in `text`: what
/// `regex::RegexSet::is_match` returns on the set that
/// `regex::RegexSet::new` makes of them.
pub uninterp spec fn regex_is_match(patterns: Seq<Seq<char>>, text: Seq<char>) -> bool;

/// `regex::RegexSet::new`: the set of the given patterns, or nothing where
/// one of them is no valid regular expression.
#[verifier::external_body]
fn compile(patterns: &Vec<String>) -> (r: Option<regex::RegexSet>)
    ensures
        r is Some <==> regex_valid(texts_of(patterns@)),
        r matches Some(set) ==> patterns_of(set) == texts_of(patterns@) && plainly_made(set),
{
    regex::RegexSet::new(patterns).ok()
}

/// `regex::RegexSet::is_match`: whether one of the regular expressions of
/// the set has a match somewhere in `text`.
#[verifier::external_body]
fn is_match(set: &regex::RegexSet, text: &str) -> (r: bool)
    requires
        plainly_made(*set),
    ensures
        r == regex_is_match(patterns_of(*set), text@),
{
    set.is_match(text)
}

/// One of `patterns` matches `name`.
pub open spec fn selects(patterns: Seq<Seq<char>>, name: Seq<char>) -> bool {
    regex_is_match(patterns, name)
}

/// The test for a name that one of `patterns` matches.
pub open spec fn selector(patterns: Seq<Seq<char>>) -> spec_fn(Seq<char>) -> bool {
    |name: Seq<char>| selects(patterns, name)
}

/// Those of `names` that one of `patterns` matches, in their order.
pub open spec fn selected(patterns: Seq<Seq<char>>, names: Seq<Seq<char>>) -> Seq<Seq<char>> {
    names.filter(selector(patterns))
}

/// Tests whether the patterns are valid regular expressions.
pub fn valid_patterns(patterns: &Vec<String>) -> (r: bool)
    ensures
        r == regex_valid(texts_of(patterns@)),
{
    compile(patterns).is_some()
}

/// Tests whether one of `patterns` matches `name`; nothing where the
/// patterns are not valid.
pub fn matches_any(patterns: &Vec<String>, name: &str) -> (r: Option<bool>)
    ensures
        r == if regex_valid(texts_of(patterns@)) {
            Some(selects(texts_of(patterns@), name@))
        } else {
            None
        },
{
    match compile(patterns) {
        Some(set) => Some(is_match(&set, name)),
        None => None,
    }
}

/// Those of `names` whose flag is set, in their order. A name without a
/// flag counts as one whose flag is not set.
pub open spec fn kept(names: Seq<Seq<char>>, flags: Seq<bool>) -> Seq<Seq<char>>
    decreases names.len(),
{
    if names.len() == 0 {
        Seq::empty()
    } else {
        let before = kept(names.drop_last(), flags);
        if names.len() <= flags.len() && flags[names.len() - 1] {
            before.push(names.last())
        } else {
            before
        }
    }
}

/// Keeps those of `names` whose flag is set.
pub fn retain(names: &Vec<String>, flags: &Vec<bool>) -> (r: Vec<String>)
    ensures
        texts_of(r@) == kept(texts_of(names@), flags@),
{
    let mut r: Vec<String> = Vec::new();
    let mut i: usize = 0;
    while i < names.len()
        invariant
            i <= names@.len(),
            texts_of(r@) == kept(texts_of(names@).take(i as int), flags@),
        decreases names@.len() - i,
    {
        assert(texts_of(names@).take(i + 1).drop_last() =~= texts_of(names@).take(i as int));
        if i < flags.len() && flags[i] {
            r.push(names[i].clone());
        }
        i += 1;
    }
    assert(texts_of(names@).take(names@.len() as int) =~= texts_of(names@));
    r
}

/// Where each flag says whether the name at its place passes a test, the
/// names kept are the names that pass the test.
pub proof fn lemma_kept_is_filter(
    names: Seq<Seq<char>>,
    flags: Seq<bool>,
    test: spec_fn(Seq<char>) -> bool,
)
    requires
        flags.len() >= names.len(),
        forall|i: int| 0 <= i < names.len() ==> flags[i] == test(#[trigger] names[i]),
    ensures
        kept(names, flags) == names.filter(test),
    decreases names.len(),
{
    reveal(Seq::filter);
    if names.len() > 0 {
        assert forall|i: int| 0 <= i < names.drop_last().len() implies flags[i] == test(
            #[trigger] names.drop_last()[i],
        ) by {}
        lemma_kept_is_filter(names.drop_last(), flags, test);
    }
}

/// Those of `names` that one of `patterns` matches, in their order; nothing
/// where the patterns are not valid. The patterns are compiled once.
pub fn select_refs(patterns: &Vec<String>, names: &Vec<String>) -> (r: Option<Vec<String>>)
    ensures
        match r {
            Some(chosen) => regex_valid(texts_of(patterns@)) && texts_of(chosen@) == selected(
                texts_of(patterns@),
                texts_of(names@),
            ),
            None => !regex_valid(texts_of(patterns@)),
        },
{
    match compile(patterns) {
        Some(set) => {
            let mut flags: Vec<bool> = Vec::new();
            let mut i: usize = 0;
            while i < names.len()
                invariant
                    i <= names@.len(),
                    flags@.len() == i,
                    plainly_made(set),
                    patterns_of(set) == texts_of(patterns@),
                    forall|k: int|
                        0 <= k < i ==> flags@[k] == selects(
                            texts_of(patterns@),
                            #[trigger] texts_of(names@)[k],
                        ),
                decreases names@.len() - i,
            {
                flags.push(is_match(&set, names[i].as_str()));
                i += 1;
            }
            proof {
                lemma_kept_is_filter(texts_of(names@), flags@, selector(texts_of(patterns@)));
            }
            Some(retain(names, &flags))
        },
        None => None,
    }
}

} // verus!
