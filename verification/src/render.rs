//! The two index files of the output tree: the machine-readable snapshot of
//! the version index, and the page that lists its entries.

use vstd::prelude::*;
use vstd::string::StringExecFns;
use crate::error::{failure, ErrorKind, Failure, FailureView};
use crate::text::{
    found, in_order, lists_of, occurrences, occurs, stands_in_order, times, to_chars,
};
use crate::version_index::{
    buckets_of, entries_of, lemma_tag_count_prefix, tag_count, Bucket, Entry, IndexContext,
    IndexRef, MajorVersion, VersionIndex,
};

verus! {

/// The sixteen digits of the escapes, by their value.
pub open spec fn hex_digit(value: int) -> char {
    "0123456789abcdef"@[value]
}

/// What stands in a JSON string literal for one character: an escape for
/// the quote, the backslash and the control characters below the space, and
/// the character as it is for any other.
pub open spec fn json_char(c: char) -> Seq<char> {
    let code = c as u32;
    if c == '"' {
        "\\\""@
    } else if c == '\\' {
        "\\\\"@
    } else if code == 0x08 {
        "\\b"@
    } else if code == 0x09 {
        "\\t"@
    } else if code == 0x0a {
        "\\n"@
    } else if code == 0x0c {
        "\\f"@
    } else if code == 0x0d {
        "\\r"@
    } else if code < 0x20 {
        "\\u00"@.push(hex_digit(code as int / 16)).push(hex_digit(code as int % 16))
    } else {
        seq![c]
    }
}

/// What stands in a JSON string literal for a text, between the quotes.
pub open spec fn json_chars(s: Seq<char>) -> Seq<char>
    decreases s.len(),
{
    if s.len() == 0 {
        Seq::empty()
    } else {
        json_chars(s.drop_last()) + json_char(s.last())
    }
}

/// The JSON string literal for `s`, quotes included.
pub open spec fn json_string(s: Seq<char>) -> Seq<char> {
    "\""@ + json_chars(s) + "\""@
}

/// `serde_json::to_string` on a string slice: the JSON string literal for
/// it. It writes a quote, then the text with an escape in the place of each
/// quote, backslash and control character below the space, then a quote.
/// Serialization fails only where a value's own serializer fails or a map
/// has a key that is no string, neither of which a string slice can do.
#[verifier::external_body]
fn json_quote(s: &str) -> (r: String)
    ensures
        r@ == json_string(s@),
{
    serde_json::to_string(s).unwrap_or_default()
}

/// What a template gives with the JSON document `data` as its data, or
/// nothing where the template or the document is faulty: what
/// `handlebars::Handlebars::render_template` returns on a registry as
/// `handlebars::Handlebars::new` makes it.
pub uninterp spec fn template_output(template: Seq<char>, data: Seq<char>) -> Option<Seq<char>>;

/// `handlebars::Handlebars::render_template` on a new registry. The data are
/// handed to it as the JSON value that `serde_json::from_str` reads from
/// `data`. Only the template of the index page is admitted: it names no
/// partial, so that rendering it comes to an end.
#[verifier::external_body]
fn render_template(template: &str, data: &str) -> (r: Option<String>)
    requires
        template@ == index_template(),
    ensures
        match r {
            Some(page) => template_output(template@, data@) == Some(page@),
            None => template_output(template@, data@) is None,
        },
{
    match serde_json::from_str::<serde_json::Value>(data) {
        Ok(value) => handlebars::Handlebars::new().render_template(template, &value).ok(),
        Err(_) => None,
    }
}

/// The items with a comma between each two of them.
pub open spec fn separated(items: Seq<Seq<char>>) -> Seq<char>
    decreases items.len(),
{
    if items.len() == 0 {
        Seq::empty()
    } else if items.len() == 1 {
        items[0]
    } else {
        separated(items.drop_last()) + ","@ + items.last()
    }
}

/// The JSON array of the given items.
pub open spec fn json_array(items: Seq<Seq<char>>) -> Seq<char> {
    "["@ + separated(items) + "]"@
}

/// The JSON object of one reference whose three fields are JSON string
/// literals already.
pub open spec fn framed_entry(e: Entry) -> Seq<char> {
    "{\"short_ref\":"@ + e.short_ref + ",\"git_ref\":"@ + e.git_ref + ",\"dir\":"@ + e.dir + "}"@
}

/// The JSON array of some such references.
pub open spec fn framed_entries(entries: Seq<Entry>) -> Seq<char> {
    json_array(Seq::new(entries.len(), |i: int| framed_entry(entries[i])))
}

/// The JSON object of one bucket of tags whose strings are JSON string
/// literals already.
pub open spec fn framed_bucket(b: Bucket) -> Seq<char> {
    "{\"major\":"@ + b.major + ",\"subversions\":"@ + framed_entries(b.subversions) + "}"@
}

/// The JSON array of some such buckets.
pub open spec fn framed_buckets(tags: Seq<Bucket>) -> Seq<char> {
    json_array(Seq::new(tags.len(), |i: int| framed_bucket(tags[i])))
}

/// The JSON document of an index whose strings are JSON string literals
/// already: an object with the buckets of the tags, the branches and the
/// other references, each list in its order.
pub open spec fn framed(ix: VersionIndex) -> Seq<char> {
    "{\"tags\":"@ + framed_buckets(ix.tags) + ",\"branches\":"@ + framed_entries(ix.branches)
        + ",\"misc_refs\":"@ + framed_entries(ix.misc_refs) + "}"@
}

/// A reference with the JSON string literal of each field in its place.
pub open spec fn quoted_entry(e: Entry) -> Entry {
    Entry {
        short_ref: json_string(e.short_ref),
        git_ref: json_string(e.git_ref),
        dir: json_string(e.dir),
    }
}

/// Some references with the JSON string literal of each field in its place.
pub open spec fn quoted_entries(entries: Seq<Entry>) -> Seq<Entry> {
    Seq::new(entries.len(), |i: int| quoted_entry(entries[i]))
}

/// A bucket with the JSON string literal of each string in its place.
pub open spec fn quoted_bucket(b: Bucket) -> Bucket {
    Bucket { major: json_string(b.major), subversions: quoted_entries(b.subversions) }
}

/// An index with the JSON string literal of each string in its place.
pub open spec fn quoted(ix: VersionIndex) -> VersionIndex {
    VersionIndex {
        tags: Seq::new(ix.tags.len(), |i: int| quoted_bucket(ix.tags[i])),
        branches: quoted_entries(ix.branches),
        misc_refs: quoted_entries(ix.misc_refs),
    }
}

/// The version index as a JSON document.
pub open spec fn json_document(ix: VersionIndex) -> Seq<char> {
    framed(quoted(ix))
}

/// The template of the index page.
pub open spec fn index_template() -> Seq<char> {
    INDEX_TEMPLATE@
}

/// The template of the index page: it lists the buckets of the tags, each
/// with its tags, then the branches, then the other references, each entry
/// with a link to its directory.
pub const INDEX_TEMPLATE: &'static str = "\
    <!DOCTYPE html>\n\
    <html>\n\
    <head>\n\
    <meta charset=\"utf-8\">\n\
    <title>Documentation</title>\n\
    </head>\n\
    <body>\n\
    <h1>Documentation</h1>\n\
    <h2>Tags</h2>\n\
    {{#each tags}}<h3>{{major}}</h3>\n\
    <ul>\n\
    {{#each subversions}}<li><a href=\"{{dir}}/\" title=\"{{git_ref}}\">{{short_ref}}</a></li>\n\
    {{/each}}</ul>\n\
    {{/each}}<h2>Branches</h2>\n\
    <ul>\n\
    {{#each branches}}<li><a href=\"{{dir}}/\" title=\"{{git_ref}}\">{{short_ref}}</a></li>\n\
    {{/each}}</ul>\n\
    <h2>Other references</h2>\n\
    <ul>\n\
    {{#each misc_refs}}<li><a href=\"{{dir}}/\" title=\"{{git_ref}}\">{{short_ref}}</a></li>\n\
    {{/each}}</ul>\n\
    </body>\n\
    </html>\n\
    ";

/// The page that a JSON document of the index gives, or the failure.
pub open spec fn page_of(document: Seq<char>) -> Result<Seq<char>, FailureView> {
    match template_output(index_template(), document) {
        Some(page) => Ok(page),
        None => Err(failure(ErrorKind::Template, "failed to generate index.html"@)),
    }
}

/// Writes one reference as a JSON object. Its fields are JSON string
/// literals already.
fn frame_entry(e: &IndexRef) -> (r: String)
    ensures
        r@ == framed_entry(e@),
{
    let mut r = "{\"short_ref\":".to_owned();
    r.append(e.short_ref.as_str());
    r.append(",\"git_ref\":");
    r.append(e.git_ref.as_str());
    r.append(",\"dir\":");
    r.append(e.dir.as_str());
    r.append("}");
    r
}

/// `items` with `item` behind them are separated like `items`, with a comma
/// and `item` behind them unless `items` is empty.
proof fn lemma_separated_push(items: Seq<Seq<char>>, item: Seq<char>)
    ensures
        separated(items.push(item)) == if items.len() == 0 {
            item
        } else {
            separated(items) + ","@ + item
        },
{
    assert(items.push(item).drop_last() =~= items);
}

/// Writes some references as a JSON array.
fn frame_entries(entries: &Vec<IndexRef>) -> (r: String)
    ensures
        r@ == framed_entries(entries_of(entries@)),
{
    let ghost all = entries_of(entries@);
    let ghost items = Seq::new(all.len(), |i: int| framed_entry(all[i]));
    let mut r = "[".to_owned();
    let mut i: usize = 0;
    while i < entries.len()
        invariant
            i <= entries@.len(),
            all == entries_of(entries@),
            items == Seq::new(all.len(), |i: int| framed_entry(all[i])),
            r@ == "["@ + separated(items.take(i as int)),
        decreases entries@.len() - i,
    {
        proof {
            lemma_separated_push(items.take(i as int), items[i as int]);
            assert(items.take(i as int).push(items[i as int]) =~= items.take(i + 1));
        }
        if i > 0 {
            r.append(",");
        }
        r.append(frame_entry(&entries[i]).as_str());
        i += 1;
    }
    assert(items.take(entries@.len() as int) =~= items);
    r.append("]");
    r
}

/// Writes one bucket of tags as a JSON object.
fn frame_bucket(b: &MajorVersion) -> (r: String)
    ensures
        r@ == framed_bucket(b@),
{
    let mut r = "{\"major\":".to_owned();
    r.append(b.major.as_str());
    r.append(",\"subversions\":");
    r.append(frame_entries(&b.subversions).as_str());
    r.append("}");
    r
}

/// Writes the buckets as a JSON array.
fn frame_buckets(tags: &Vec<MajorVersion>) -> (r: String)
    ensures
        r@ == framed_buckets(buckets_of(tags@)),
{
    let ghost all = buckets_of(tags@);
    let ghost items = Seq::new(all.len(), |i: int| framed_bucket(all[i]));
    let mut r = "[".to_owned();
    let mut i: usize = 0;
    while i < tags.len()
        invariant
            i <= tags@.len(),
            all == buckets_of(tags@),
            items == Seq::new(all.len(), |i: int| framed_bucket(all[i])),
            r@ == "["@ + separated(items.take(i as int)),
        decreases tags@.len() - i,
    {
        proof {
            lemma_separated_push(items.take(i as int), items[i as int]);
            assert(items.take(i as int).push(items[i as int]) =~= items.take(i + 1));
        }
        if i > 0 {
            r.append(",");
        }
        r.append(frame_bucket(&tags[i]).as_str());
        i += 1;
    }
    assert(items.take(tags@.len() as int) =~= items);
    r.append("]");
    r
}

/// Writes the JSON document of an index whose strings are JSON string
/// literals already.
pub fn frame(index: &IndexContext) -> (r: String)
    ensures
        r@ == framed(index@),
{
    let mut r = "{\"tags\":".to_owned();
    r.append(frame_buckets(&index.tags).as_str());
    r.append(",\"branches\":");
    r.append(frame_entries(&index.branches).as_str());
    r.append(",\"misc_refs\":");
    r.append(frame_entries(&index.misc_refs).as_str());
    r.append("}");
    r
}

/// Puts the JSON string literal of each field in its place.
fn quote_entry(e: &IndexRef) -> (r: IndexRef)
    ensures
        r@ == quoted_entry(e@),
{
    IndexRef {
        short_ref: json_quote(e.short_ref.as_str()),
        git_ref: json_quote(e.git_ref.as_str()),
        dir: json_quote(e.dir.as_str()),
    }
}

/// Puts the JSON string literal of each field of each reference in its
/// place.
fn quote_entries(entries: &Vec<IndexRef>) -> (r: Vec<IndexRef>)
    ensures
        entries_of(r@) == quoted_entries(entries_of(entries@)),
{
    let mut r: Vec<IndexRef> = Vec::new();
    let mut i: usize = 0;
    while i < entries.len()
        invariant
            i <= entries@.len(),
            r@.len() == i,
            forall|k: int| 0 <= k < i ==> r@[k]@ == quoted_entry(entries@[k]@),
        decreases entries@.len() - i,
    {
        r.push(quote_entry(&entries[i]));
        i += 1;
    }
    r
}

/// Puts the JSON string literal of each string of the index in its place.
pub fn quote(index: &IndexContext) -> (r: IndexContext)
    ensures
        r@ == quoted(index@),
{
    let mut tags: Vec<MajorVersion> = Vec::new();
    let mut i: usize = 0;
    while i < index.tags.len()
        invariant
            i <= index.tags@.len(),
            tags@.len() == i,
            forall|k: int| 0 <= k < i ==> tags@[k]@ == quoted_bucket(index.tags@[k]@),
        decreases index.tags@.len() - i,
    {
        let bucket = &index.tags[i];
        tags.push(
            MajorVersion {
                major: json_quote(bucket.major.as_str()),
                subversions: quote_entries(&bucket.subversions),
            },
        );
        i += 1;
    }
    let r = IndexContext {
        tags,
        branches: quote_entries(&index.branches),
        misc_refs: quote_entries(&index.misc_refs),
    };
    assert(r@.tags =~= quoted(index@).tags);
    r
}

/// Writes the version index as a JSON document.
pub fn to_json(index: &IndexContext) -> (r: String)
    ensures
        r@ == json_document(index@),
{
    let literal = quote(index);
    frame(&literal)
}

/// What stands on a page for one character of a text: the character, or
/// its entity where markup could be read into it.
pub open spec fn escaped_char(c: char) -> Seq<char> {
    if c == '<' {
        "&lt;"@
    } else if c == '>' {
        "&gt;"@
    } else if c == '"' {
        "&quot;"@
    } else if c == '&' {
        "&amp;"@
    } else if c == '\'' {
        "&#x27;"@
    } else if c == '`' {
        "&#x60;"@
    } else if c == '=' {
        "&#x3D;"@
    } else {
        seq![c]
    }
}

/// What stands on a page for a text: what stands for each of its characters,
/// in their order.
pub open spec fn html_escaped(s: Seq<char>) -> Seq<char>
    decreases s.len(),
{
    if s.len() == 0 {
        Seq::empty()
    } else {
        html_escaped(s.drop_last()) + escaped_char(s.last())
    }
}

/// `handlebars::html_escape`, which the templates use for every value that
/// they print: it goes through the characters of the text and writes an
/// entity for each of `<`, `>`, `"`, `&`, `'`, the backtick and `=`, and the
/// character as it is for any other.
#[verifier::external_body]
fn html_escape(s: &str) -> (r: String)
    ensures
        r@ == html_escaped(s@),
{
    handlebars::html_escape(s)
}

/// The list item that the index page holds for a reference: its short name
/// as a link to its directory.
pub open spec fn link(e: Entry) -> Seq<char> {
    "<li><a href=\""@ + html_escaped(e.dir) + "/\" title=\""@ + html_escaped(e.git_ref) + "\">"@
        + html_escaped(e.short_ref) + "</a></li>"@
}

/// The page holds the list item of every one of `entries`.
pub open spec fn lists_all(page: Seq<char>, entries: Seq<Entry>) -> bool {
    forall|i: int| 0 <= i < entries.len() ==> found(page, link(#[trigger] entries[i]))
}

/// The heading that the index page holds for a bucket of tags.
pub open spec fn heading(major: Seq<char>) -> Seq<char> {
    "<h3>"@ + html_escaped(major) + "</h3>"@
}

/// The list items of some references, in their order.
pub open spec fn links(entries: Seq<Entry>) -> Seq<Seq<char>> {
    Seq::new(entries.len(), |i: int| link(entries[i]))
}

/// What the index page holds for the buckets, in their order: for each its
/// heading and, behind it, the list items of its tags.
pub open spec fn tag_items(tags: Seq<Bucket>) -> Seq<Seq<char>>
    decreases tags.len(),
{
    if tags.len() == 0 {
        Seq::empty()
    } else {
        tag_items(tags.drop_last()) + seq![heading(tags.last().major)] + links(
            tags.last().subversions,
        )
    }
}

/// What the index page holds for an index, in the order of the page: the
/// heading of the tags and the buckets, the heading of the branches and
/// their list items, the heading of the other references and theirs.
pub open spec fn page_items(ix: VersionIndex) -> Seq<Seq<char>> {
    seq!["<h2>Tags</h2>"@] + tag_items(ix.tags) + seq!["<h2>Branches</h2>"@] + links(ix.branches)
        + seq!["<h2>Other references</h2>"@] + links(ix.misc_refs)
}

/// The page shows the index: it holds the list item of every reference of
/// the index; the list items stand in the order of the index, those of each
/// bucket behind its heading, then the branches, then the other references;
/// and the page holds as many list items as the index holds references, so
/// that no reference is left out and nothing is listed besides them.
pub open spec fn shows(page: Seq<char>, ix: VersionIndex) -> bool {
    &&& times(page, "<li>"@, page.len() as int) == ix.count()
    &&& forall|b: int| 0 <= b < ix.tags.len() ==> lists_all(page, (#[trigger] ix.tags[b]).subversions)
    &&& lists_all(page, ix.branches)
    &&& lists_all(page, ix.misc_refs)
    &&& in_order(page, page_items(ix), 0)
}

/// The failure of a page that does not show the index.
pub open spec fn not_shown() -> FailureView {
    failure(ErrorKind::Template, "index.html does not show the index"@)
}

/// The index page of an index: the page that the template gives with the
/// JSON document of the index, provided that it shows the index.
pub open spec fn index_page(ix: VersionIndex) -> Result<Seq<char>, FailureView> {
    match page_of(json_document(ix)) {
        Ok(page) => if shows(page, ix) {
            Ok(page)
        } else {
            Err(not_shown())
        },
        Err(f) => Err(f),
    }
}

/// Writes the list item of a reference.
fn link_of(e: &IndexRef) -> (r: String)
    ensures
        r@ == link(e@),
{
    let mut r = "<li><a href=\"".to_owned();
    r.append(html_escape(e.dir.as_str()).as_str());
    r.append("/\" title=\"");
    r.append(html_escape(e.git_ref.as_str()).as_str());
    r.append("\">");
    r.append(html_escape(e.short_ref.as_str()).as_str());
    r.append("</a></li>");
    r
}

/// Tests whether the page holds the list item of every one of `entries`.
fn lists(page: &[char], entries: &Vec<IndexRef>) -> (r: bool)
    ensures
        r == lists_all(page@, entries_of(entries@)),
{
    let mut i: usize = 0;
    while i < entries.len()
        invariant
            i <= entries@.len(),
            forall|k: int| 0 <= k < i ==> found(page@, link(#[trigger] entries_of(entries@)[k])),
        decreases entries@.len() - i,
    {
        let item = to_chars(link_of(&entries[i]).as_str());
        if !occurs(page, item.as_slice()) {
            assert(!found(page@, link(entries_of(entries@)[i as int])));
            return false;
        }
        assert(found(page@, link(entries_of(entries@)[i as int])));
        i += 1;
    }
    true
}

/// Puts the list items of `entries` behind `items`.
fn push_links(items: &mut Vec<Vec<char>>, entries: &Vec<IndexRef>)
    ensures
        lists_of(final(items)@) == lists_of(old(items)@) + links(entries_of(entries@)),
{
    let ghost before = lists_of(items@);
    let mut i: usize = 0;
    assert(lists_of(items@) =~= before + links(entries_of(entries@)).take(0));
    while i < entries.len()
        invariant
            i <= entries@.len(),
            lists_of(items@) == before + links(entries_of(entries@)).take(i as int),
        decreases entries@.len() - i,
    {
        let ghost earlier = lists_of(items@);
        items.push(to_chars(link_of(&entries[i]).as_str()));
        assert(lists_of(items@) =~= earlier.push(link(entries_of(entries@)[i as int])));
        assert(lists_of(items@) =~= before + links(entries_of(entries@)).take(i + 1));
        i += 1;
    }
    assert(links(entries_of(entries@)).take(entries@.len() as int) =~= links(
        entries_of(entries@),
    ));
}

/// Puts a text behind `items`.
fn push_text(items: &mut Vec<Vec<char>>, text: &str)
    ensures
        lists_of(final(items)@) == lists_of(old(items)@) + seq![text@],
{
    items.push(to_chars(text));
    assert(lists_of(items@) =~= lists_of(old(items)@) + seq![text@]);
}

/// What the index page holds for an index, in the order of the page.
fn items_of(index: &IndexContext) -> (items: Vec<Vec<char>>)
    ensures
        lists_of(items@) == page_items(index@),
{
    let mut items: Vec<Vec<char>> = Vec::new();
    push_text(&mut items, "<h2>Tags</h2>");
    let mut b: usize = 0;
    proof {
        assert(index@.tags.take(0) =~= Seq::<Bucket>::empty());
        assert(lists_of(items@) =~= seq!["<h2>Tags</h2>"@] + tag_items(index@.tags.take(0)));
    }
    while b < index.tags.len()
        invariant
            b <= index.tags@.len(),
            lists_of(items@) == seq!["<h2>Tags</h2>"@] + tag_items(index@.tags.take(b as int)),
        decreases index.tags@.len() - b,
    {
        let bucket = &index.tags[b];
        let ghost earlier = lists_of(items@);
        let mut title = "<h3>".to_owned();
        title.append(html_escape(bucket.major.as_str()).as_str());
        title.append("</h3>");
        push_text(&mut items, title.as_str());
        push_links(&mut items, &bucket.subversions);
        proof {
            let upto = index@.tags.take(b + 1);
            assert(upto.drop_last() =~= index@.tags.take(b as int));
            assert(upto.last() == bucket@);
            assert(lists_of(items@) =~= seq!["<h2>Tags</h2>"@] + tag_items(upto));
        }
        b += 1;
    }
    proof {
        assert(index@.tags.take(b as int) =~= index@.tags);
    }
    push_text(&mut items, "<h2>Branches</h2>");
    push_links(&mut items, &index.branches);
    push_text(&mut items, "<h2>Other references</h2>");
    push_links(&mut items, &index.misc_refs);
    items
}

/// Tests whether a page shows the index.
pub fn shows_index(page: &str, index: &IndexContext) -> (r: bool)
    ensures
        r == shows(page@, index@),
{
    let chars = to_chars(page);
    let item = to_chars("<li>");
    let items: usize = occurrences(chars.as_slice(), item.as_slice());
    let mut counted: usize = 0;
    let mut b: usize = 0;
    proof {
        assert(index@.tags.take(0) =~= Seq::<Bucket>::empty());
    }
    while b < index.tags.len()
        invariant
            b <= index.tags@.len(),
            chars@ == page@,
            items == times(page@, "<li>"@, page@.len() as int),
            counted == tag_count(index@.tags.take(b as int)),
            counted <= items,
            forall|k: int|
                0 <= k < b ==> lists_all(page@, (#[trigger] index@.tags[k]).subversions),
        decreases index.tags@.len() - b,
    {
        let tags = &index.tags[b].subversions;
        proof {
            lemma_tag_count_prefix(index@.tags, b as int);
            lemma_tag_count_prefix(index@.tags, b + 1);
            assert(index@.tags[b as int].subversions.len() == tags@.len());
        }
        if tags.len() > items - counted {
            return false;
        }
        counted += tags.len();
        if !lists(chars.as_slice(), tags) {
            assert(!lists_all(page@, index@.tags[b as int].subversions));
            return false;
        }
        assert(lists_all(page@, index@.tags[b as int].subversions));
        b += 1;
    }
    proof {
        assert(index@.tags.take(b as int) =~= index@.tags);
        assert(index@.branches.len() == index.branches@.len());
        assert(index@.misc_refs.len() == index.misc_refs@.len());
    }
    if index.branches.len() > items - counted {
        return false;
    }
    counted += index.branches.len();
    if index.misc_refs.len() > items - counted {
        return false;
    }
    counted += index.misc_refs.len();
    counted == items && lists(chars.as_slice(), &index.branches) && lists(
        chars.as_slice(),
        &index.misc_refs,
    ) && stands_in_order(chars.as_slice(), &items_of(index))
}

/// What a rendered page comes to: the page itself where it shows the index,
/// the failure where it does not.
pub fn shown(page: String, index: &IndexContext) -> (r: Result<String, Failure>)
    ensures
        match r {
            Ok(same) => shows(page@, index@) && same@ == page@,
            Err(e) => !shows(page@, index@) && e@ == not_shown(),
        },
{
    if shows_index(page.as_str(), index) {
        Ok(page)
    } else {
        Err(Failure::new(ErrorKind::Template, "index.html does not show the index"))
    }
}

/// What the rendering of the index page comes to: the page, or the failure
/// of the template.
pub fn rendered(page: Option<String>) -> (r: Result<String, Failure>)
    ensures
        match page {
            Some(text) => r matches Ok(same) && same@ == text@,
            None => r matches Err(e) && e@ == failure(
                ErrorKind::Template,
                "failed to generate index.html"@,
            ),
        },
{
    match page {
        Some(text) => Ok(text),
        None => Err(Failure::new(ErrorKind::Template, "failed to generate index.html")),
    }
}

/// Renders the index page from the JSON document of the version index.
pub fn render_page(document: &str) -> (r: Result<String, Failure>)
    ensures
        match r {
            Ok(page) => page_of(document@) == Ok::<Seq<char>, FailureView>(page@),
            Err(e) => page_of(document@) == Err::<Seq<char>, FailureView>(e@),
        },
{
    rendered(render_template(INDEX_TEMPLATE, document))
}

/// Renders the index page of the version index. The page is made from the
/// JSON document of the index, and it is handed out only if it shows the
/// index: every reference of the JSON document stands on the page as a list
/// item with its link, and the page has no list items besides.
pub fn render_index(index: &IndexContext) -> (r: Result<String, Failure>)
    ensures
        match r {
            Ok(page) => index_page(index@) == Ok::<Seq<char>, FailureView>(page@),
            Err(e) => index_page(index@) == Err::<Seq<char>, FailureView>(e@),
        },
{
    let document = to_json(index);
    match render_page(document.as_str()) {
        Ok(page) => shown(page, index),
        Err(e) => Err(e),
    }
}

/// The index page and the JSON document of an index hold the same
/// references: the document is made of the references of the index, each
/// once, and the page holds a list item for each of them, in the order of
/// the index and under the headings of their buckets, and as many list items
/// as there are references.
pub proof fn lemma_page_and_document_agree(ix: VersionIndex, page: Seq<char>)
    requires
        index_page(ix) == Ok::<Seq<char>, FailureView>(page),
    ensures
        page_of(json_document(ix)) == Ok::<Seq<char>, FailureView>(page),
        json_document(ix) == framed(quoted(ix)),
        times(page, "<li>"@, page.len() as int) == ix.count(),
        in_order(page, page_items(ix), 0),
        forall|i: int| 0 <= i < ix.branches.len() ==> found(page, link(#[trigger] ix.branches[i])),
        forall|i: int| 0 <= i < ix.misc_refs.len() ==> found(page, link(#[trigger] ix.misc_refs[i])),
        forall|b: int, i: int|
            0 <= b < ix.tags.len() && 0 <= i < ix.tags[b].subversions.len() ==> found(
                page,
                link(#[trigger] ix.tags[b].subversions[i]),
            ),
{
    assert forall|b: int, i: int|
        0 <= b < ix.tags.len() && 0 <= i < ix.tags[b].subversions.len() implies found(
        page,
        link(#[trigger] ix.tags[b].subversions[i]),
    ) by {
        assert(lists_all(page, ix.tags[b].subversions));
    }
}

} // verus!
