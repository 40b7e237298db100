//! Names derived from a git reference: its short name, the directory slug and
//! the major-version token of a tag.

use vstd::prelude::*;
use vstd::slice::slice_subrange;
use crate::text::{from_chars, has_prefix, position_of, to_chars};

verus! {

/// `s` without `prefix` at its start, or `s` itself where it does not begin
/// with `prefix`.
pub open spec fn without_prefix(s: Seq<char>, prefix: Seq<char>) -> Seq<char> {
    if prefix.is_prefix_of(s) {
        s.skip(prefix.len() as int)
    } else {
        s
    }
}

/// The short name of a reference: the full name without a leading `refs/`,
/// then without a leading `heads/`, then without a leading `tags/`.
pub open spec fn short_name(full: Seq<char>) -> Seq<char> {
    without_prefix(without_prefix(without_prefix(full, "refs/"@), "heads/"@), "tags/"@)
}

/// The directory name of a reference: its short name with every `/` replaced
/// by `-`.
pub open spec fn slug(short: Seq<char>) -> Seq<char> {
    Seq::new(short.len(), |i: int| if short[i] == '/' { '-' } else { short[i] })
}

/// The part of a tag's short name before its first `.`, or the whole name
/// where it holds no `.`.
pub open spec fn major_token(short: Seq<char>) -> Seq<char> {
    match short.index_of_first('.') {
        Some(dot) => short.take(dot),
        None => short,
    }
}

/// Where a reference belongs in the version index.
#[derive(Clone, Copy, Debug, PartialEq, Eq, Structural)]
pub enum RefKind {
    /// A tag: grouped with the other tags of its major version.
    Tag,
    /// A branch.
    Branch,
    /// Anything else.
    Misc,
}

/// The kind of a reference, by its full name: names under `refs/tags/` are
/// tags, names under `refs/heads/` are branches, all others are neither.
pub open spec fn kind_of(full: Seq<char>) -> RefKind {
    if "refs/tags/"@.is_prefix_of(full) {
        RefKind::Tag
    } else if "refs/heads/"@.is_prefix_of(full) {
        RefKind::Branch
    } else {
        RefKind::Misc
    }
}

/// Number of leading characters of `s` that `without_prefix` removes.
fn prefix_len(s: &[char], prefix: &str) -> (n: usize)
    ensures
        n <= s@.len(),
        s@.skip(n as int) == without_prefix(s@, prefix@),
{
    let p = to_chars(prefix);
    if has_prefix(s, p.as_slice()) {
        p.len()
    } else {
        0
    }
}

/// Strips the namespace prefixes from a full reference name.
pub fn short_ref_name(x: &str) -> (r: &str)
    ensures
        r@ == short_name(x@),
{
    let chars = to_chars(x);
    let a = prefix_len(chars.as_slice(), "refs/");
    let rest_a = slice_subrange(chars.as_slice(), a, chars.len());
    let b = prefix_len(rest_a, "heads/");
    let rest_b = slice_subrange(rest_a, b, rest_a.len());
    let c = prefix_len(rest_b, "tags/");
    x.substring_char(a + b + c, chars.len())
}

/// The directory name for a reference with the given short name.
pub fn slug_of(short: &str) -> (r: String)
    ensures
        r@ == slug(short@),
{
    let mut chars = to_chars(short);
    let mut i: usize = 0;
    while i < chars.len()
        invariant
            i <= chars@.len() == short@.len(),
            forall|k: int| 0 <= k < i ==> chars@[k] == slug(short@)[k],
            forall|k: int| i <= k < chars@.len() ==> chars@[k] == short@[k],
        decreases chars@.len() - i,
    {
        if chars[i] == '/' {
            chars.set(i, '-');
        }
        i += 1;
    }
    from_chars(chars.as_slice())
}

/// The major-version token of a tag with the given short name.
pub fn major_version(short: &str) -> (r: &str)
    ensures
        r@ == major_token(short@),
{
    let chars = to_chars(short);
    match position_of(chars.as_slice(), '.') {
        Some(dot) => short.substring_char(0, dot),
        None => short,
    }
}

/// Classifies a reference by its full name.
pub fn ref_kind(full: &str) -> (k: RefKind)
    ensures
        k == kind_of(full@),
{
    let chars = to_chars(full);
    let tags = to_chars("refs/tags/");
    let heads = to_chars("refs/heads/");
    if has_prefix(chars.as_slice(), tags.as_slice()) {
        RefKind::Tag
    } else if has_prefix(chars.as_slice(), heads.as_slice()) {
        RefKind::Branch
    } else {
        RefKind::Misc
    }
}

/// `full` is `short` with `a`, `b` and `c` in front of it, in that order.
pub open spec fn strips_to(
    full: Seq<char>,
    a: Seq<char>,
    b: Seq<char>,
    c: Seq<char>,
    short: Seq<char>,
) -> bool {
    full == a + b + c + short
}

/// `part` is `prefix` or nothing.
pub open spec fn at_most(part: Seq<char>, prefix: Seq<char>) -> bool {
    part == prefix || part == Seq::<char>::empty()
}

/// The short name is what is left of the full name once at most one `refs/`,
/// then at most one `heads/`, then at most one `tags/` has been taken from its
/// front.
pub proof fn lemma_short_name_strips_each_prefix_once(full: Seq<char>)
    ensures
        exists|a: Seq<char>, b: Seq<char>, c: Seq<char>|
            at_most(a, "refs/"@) && at_most(b, "heads/"@) && at_most(c, "tags/"@)
                && #[trigger] strips_to(full, a, b, c, short_name(full)),
{
    let s1 = without_prefix(full, "refs/"@);
    let s2 = without_prefix(s1, "heads/"@);
    let a = if "refs/"@.is_prefix_of(full) { "refs/"@ } else { Seq::<char>::empty() };
    let b = if "heads/"@.is_prefix_of(s1) { "heads/"@ } else { Seq::<char>::empty() };
    let c = if "tags/"@.is_prefix_of(s2) { "tags/"@ } else { Seq::<char>::empty() };
    assert(full =~= a + b + c + short_name(full));
    assert(strips_to(full, a, b, c, short_name(full)));
}

/// The slug is as long as the short name, holds `-` wherever the short name
/// holds `/`, agrees with it everywhere else, and holds no `/` itself.
pub proof fn lemma_slug_replaces_every_separator(short: Seq<char>)
    ensures
        slug(short).len() == short.len(),
        forall|i: int| 0 <= i < short.len() && short[i] == '/' ==> slug(short)[i] == '-',
        forall|i: int| 0 <= i < short.len() && short[i] != '/' ==> slug(short)[i] == short[i],
        !slug(short).contains('/'),
{
}

/// The major-version token is the short name up to its first `.`: it holds no
/// `.`, and the short name goes on with a `.` right after it unless the token
/// is the whole short name.
pub proof fn lemma_major_token_ends_at_first_dot(short: Seq<char>)
    ensures
        major_token(short).is_prefix_of(short),
        !major_token(short).contains('.'),
        major_token(short) != short ==> short[major_token(short).len() as int] == '.',
        !short.contains('.') ==> major_token(short) == short,
{
    short.index_of_first_ensures('.');
}

} // verus!
