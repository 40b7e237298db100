//! Insertion of the version selector script into generated HTML pages.

use vstd::prelude::*;
use vstd::slice::slice_subrange;
use vstd::string::StringSliceAdditionalSpecFns;
use crate::text::{has_prefix, texts_of, to_chars};

verus! {

/// The closing tag after which the script reference is inserted.
pub open spec fn title_close() -> Seq<u8> {
    "</title>".spec_bytes()
}

/// The script reference that is inserted.
pub open spec fn script_reference() -> Seq<u8> {
    "<script type=\"text/javascript\" src=\"/version-menu.js\"></script>".spec_bytes()
}

/// `pat` occurs in `data` starting at offset `at`.
pub open spec fn occurs_at(data: Seq<u8>, pat: Seq<u8>, at: int) -> bool {
    &&& 0 <= at
    &&& at + pat.len() <= data.len()
    &&& forall|k: int| 0 <= k < pat.len() ==> data[at + k] == pat[k]
}

/// `at` is the offset of the first occurrence of `pat` in `data`.
pub open spec fn first_occurrence(data: Seq<u8>, pat: Seq<u8>, at: int) -> bool {
    &&& occurs_at(data, pat, at)
    &&& forall|j: int| 0 <= j < at ==> !occurs_at(data, pat, j)
}

/// `pat` occurs nowhere in `data`.
pub open spec fn absent(data: Seq<u8>, pat: Seq<u8>) -> bool {
    forall|j: int| !occurs_at(data, pat, j)
}

/// The offset of the first occurrence of `pat` in `data`, if it occurs.
pub open spec fn position(data: Seq<u8>, pat: Seq<u8>) -> Option<int> {
    if exists|at: int| first_occurrence(data, pat, at) {
        Some(choose|at: int| first_occurrence(data, pat, at))
    } else {
        None
    }
}

/// A page with the script reference right after its first closing title tag;
/// a page without such a tag is left as it is.
pub open spec fn with_script(page: Seq<u8>) -> Seq<u8> {
    match position(page, title_close()) {
        Some(at) => {
            let cut = at + title_close().len();
            page.take(cut) + script_reference() + page.skip(cut)
        },
        None => page,
    }
}

/// A first occurrence is the only first occurrence.
pub proof fn lemma_first_occurrence_is_position(data: Seq<u8>, pat: Seq<u8>, at: int)
    requires
        first_occurrence(data, pat, at),
    ensures
        position(data, pat) == Some(at),
{
}

/// Where the pattern occurs nowhere there is no position.
pub proof fn lemma_absent_has_no_position(data: Seq<u8>, pat: Seq<u8>)
    requires
        absent(data, pat),
    ensures
        position(data, pat) is None,
{
}

/// Tests whether `pat` occurs in `data` at offset `at`.
fn matches_at(data: &[u8], pat: &[u8], at: usize) -> (r: bool)
    requires
        at + pat@.len() <= data@.len(),
    ensures
        r == occurs_at(data@, pat@, at as int),
{
    let total: usize = data.len();
    let mut k: usize = 0;
    while k < pat.len()
        invariant
            k <= pat@.len(),
            at + pat@.len() <= data@.len() == total,
            forall|i: int| 0 <= i < k ==> data@[at + i] == pat@[i],
        decreases pat@.len() - k,
    {
        if data[at + k] != pat[k] {
            return false;
        }
        k += 1;
    }
    true
}

/// Finds the first occurrence of `pat` in `data`.
pub fn find_first(data: &[u8], pat: &[u8]) -> (r: Option<usize>)
    ensures
        match r {
            Some(at) => first_occurrence(data@, pat@, at as int),
            None => absent(data@, pat@),
        },
{
    let mut at: usize = 0;
    while pat.len() <= data.len() - at
        invariant
            at <= data@.len(),
            forall|j: int| 0 <= j < at ==> !occurs_at(data@, pat@, j),
        decreases data@.len() - at,
    {
        if matches_at(data, pat, at) {
            return Some(at);
        }
        at += 1;
    }
    None
}

/// A file name with the extension `html`: it ends in `.html`, and something
/// stands before that dot.
pub open spec fn html_named(name: Seq<char>) -> bool {
    name.len() > 5 && ".html"@.is_suffix_of(name)
}

/// Tests whether a file of this name is a generated page, by its extension.
/// `name` is the last component of the file's path.
pub fn is_html_file(name: &str) -> (r: bool)
    ensures
        r == html_named(name@),
{
    let chars = to_chars(name);
    let ext = to_chars(".html");
    let n: usize = chars.len();
    if n < ext.len() {
        return false;
    }
    let tail = slice_subrange(chars.as_slice(), n - ext.len(), n);
    let ends = has_prefix(tail, ext.as_slice());
    proof {
        reveal_strlit(".html");
    }
    ends && n > 5
}

/// A file of the output tree is a generated page if it lies in the directory
/// of a reference or below it, not in the root itself, and its name has the
/// extension `html`. `path` holds the names that lead from the root to the
/// file, the file's own name last.
pub open spec fn generated_page(path: Seq<Seq<char>>) -> bool {
    path.len() >= 2 && html_named(path.last())
}

/// Tests whether the file at `path` below the root of the output tree is a
/// generated page, into which the script reference goes.
pub fn is_generated_page(path: &Vec<String>) -> (r: bool)
    ensures
        r == generated_page(texts_of(path@)),
{
    let n: usize = path.len();
    n >= 2 && is_html_file(path[n - 1].as_str())
}

/// Inserts the script reference into a page, right after its first closing
/// title tag. Returns `None` for a page without such a tag: it is to be left
/// untouched.
pub fn inject_version_js(page: &[u8]) -> (r: Option<Vec<u8>>)
    ensures
        match r {
            Some(out) => position(page@, title_close()) is Some && out@ == with_script(page@),
            None => position(page@, title_close()) is None && with_script(page@) == page@,
        },
{
    let needle = "</title>".as_bytes();
    let payload = "<script type=\"text/javascript\" src=\"/version-menu.js\"></script>".as_bytes();
    match find_first(page, needle) {
        Some(at) => {
            proof {
                lemma_first_occurrence_is_position(page@, needle@, at as int);
            }
            let total: usize = page.len();
            let cut: usize = at + needle.len();
            let mut out: Vec<u8> = Vec::new();
            out.extend_from_slice(slice_subrange(page, 0, cut));
            out.extend_from_slice(payload);
            out.extend_from_slice(slice_subrange(page, cut, total));
            Some(out)
        },
        None => {
            proof {
                lemma_absent_has_no_position(page@, needle@);
            }
            None
        },
    }
}

/// A page without a closing title tag comes back byte for byte.
pub proof fn lemma_page_without_title_is_unchanged(page: Seq<u8>)
    requires
        absent(page, title_close()),
    ensures
        with_script(page) == page,
{
    lemma_absent_has_no_position(page, title_close());
}

/// A page with a closing title tag gets the script reference once, right
/// after the first such tag: what stands before the insertion is the page up
/// to the end of the tag, what stands after it is the rest of the page, and
/// nothing else is added.
pub proof fn lemma_script_follows_first_title(page: Seq<u8>, at: int)
    requires
        first_occurrence(page, title_close(), at),
    ensures
        ({
            let cut = at + title_close().len();
            let out = with_script(page);
            &&& out.len() == page.len() + script_reference().len()
            &&& out.take(cut) == page.take(cut)
            &&& out.subrange(cut, cut + script_reference().len()) == script_reference()
            &&& out.skip(cut + script_reference().len()) == page.skip(cut)
        }),
{
    lemma_first_occurrence_is_position(page, title_close(), at);
}

/// Insertion does not move the tag it looks for: the first closing title tag
/// of the result stands where the first one of the page stood.
pub proof fn lemma_insertion_keeps_first_title(page: Seq<u8>)
    ensures
        position(with_script(page), title_close()) == position(page, title_close()),
{
    let pat = title_close();
    if exists|at: int| first_occurrence(page, pat, at) {
        let at = choose|at: int| first_occurrence(page, pat, at);
        lemma_first_occurrence_is_position(page, pat, at);
        let out = with_script(page);
        assert forall|j: int| 0 <= j < at implies !occurs_at(out, pat, j) by {
            if occurs_at(out, pat, j) {
                assert(occurs_at(page, pat, j));
            }
        }
        lemma_first_occurrence_is_position(out, pat, at);
    }
}

} // verus!
