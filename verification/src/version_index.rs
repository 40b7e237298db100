//! The version index: every built reference, grouped for display.
//!
//! Tags are gathered in one bucket per major-version token, buckets in the
//! order in which their first tag was met; branches and all other references
//! are kept in two plain lists. Within each list the order is that in which
//! the references were added.

use vstd::prelude::*;
use crate::refname::{
    kind_of, major_token, major_version, ref_kind, short_name, short_ref_name, slug, slug_of,
    RefKind,
};

verus! {

/// One built reference, as the index pages show it.
#[derive(Debug)]
pub struct IndexRef {
    /// The reference's short name.
    pub short_ref: String,
    /// The reference's full name.
    pub git_ref: String,
    /// Where its documentation lies, relative to the root of the output tree.
    pub dir: String,
}

/// What an `IndexRef` stands for.
pub struct Entry {
    pub short_ref: Seq<char>,
    pub git_ref: Seq<char>,
    pub dir: Seq<char>,
}

impl View for IndexRef {
    type V = Entry;

    open spec fn view(&self) -> Entry {
        Entry { short_ref: self.short_ref@, git_ref: self.git_ref@, dir: self.dir@ }
    }
}

impl IndexRef {
    /// The entry of the reference with the given full name: under its short
    /// name, in the directory named by its slug.
    pub fn of(git_ref: &str) -> (r: IndexRef)
        ensures
            r@ == entry_of(git_ref@),
    {
        let short = short_ref_name(git_ref);
        IndexRef { short_ref: short.to_owned(), git_ref: git_ref.to_owned(), dir: slug_of(short) }
    }
}

/// The tags of one major version.
#[derive(Debug)]
pub struct MajorVersion {
    /// The major-version token that the tags share.
    pub major: String,
    /// The tags, in the order in which they were added.
    pub subversions: Vec<IndexRef>,
}

/// What a `MajorVersion` stands for.
pub struct Bucket {
    pub major: Seq<char>,
    pub subversions: Seq<Entry>,
}

/// The entries that a list of `IndexRef` stands for.
pub open spec fn entries_of(refs: Seq<IndexRef>) -> Seq<Entry> {
    Seq::new(refs.len(), |i: int| refs[i]@)
}

impl View for MajorVersion {
    type V = Bucket;

    open spec fn view(&self) -> Bucket {
        Bucket { major: self.major@, subversions: entries_of(self.subversions@) }
    }
}

/// The buckets that a list of `MajorVersion` stands for.
pub open spec fn buckets_of(tags: Seq<MajorVersion>) -> Seq<Bucket> {
    Seq::new(tags.len(), |i: int| tags[i]@)
}

/// The version index.
#[derive(Debug)]
pub struct IndexContext {
    /// The tags, one bucket per major version.
    pub tags: Vec<MajorVersion>,
    /// The branches.
    pub branches: Vec<IndexRef>,
    /// The references that are neither tags nor branches.
    pub misc_refs: Vec<IndexRef>,
}

/// What an `IndexContext` stands for.
pub struct VersionIndex {
    pub tags: Seq<Bucket>,
    pub branches: Seq<Entry>,
    pub misc_refs: Seq<Entry>,
}

impl View for IndexContext {
    type V = VersionIndex;

    open spec fn view(&self) -> VersionIndex {
        VersionIndex {
            tags: buckets_of(self.tags@),
            branches: entries_of(self.branches@),
            misc_refs: entries_of(self.misc_refs@),
        }
    }
}

/// The major-version tokens of the buckets, in order.
pub open spec fn majors(tags: Seq<Bucket>) -> Seq<Seq<char>> {
    Seq::new(tags.len(), |i: int| tags[i].major)
}

/// The buckets after a tag has been added: it joins the bucket of its
/// major-version token, at the end; where there is no such bucket yet, a new
/// one is opened for it behind the others.
pub open spec fn with_tag(tags: Seq<Bucket>, e: Entry) -> Seq<Bucket> {
    let major = major_token(e.short_ref);
    match majors(tags).index_of_first(major) {
        Some(i) => tags.update(i, Bucket { major, subversions: tags[i].subversions.push(e) }),
        None => tags.push(Bucket { major, subversions: seq![e] }),
    }
}

impl VersionIndex {
    /// The index that holds nothing.
    pub open spec fn empty() -> VersionIndex {
        VersionIndex { tags: Seq::empty(), branches: Seq::empty(), misc_refs: Seq::empty() }
    }

    /// The index holds a reference that lies in the directory `dir`.
    pub open spec fn dir_taken(self, dir: Seq<char>) -> bool {
        dir_in_tags(self.tags, dir) || dir_in(self.branches, dir) || dir_in(self.misc_refs, dir)
    }

    /// The index after `e` has been added: by the kind of its full name it
    /// goes to the tags, to the branches or to the other references.
    pub open spec fn insert(self, e: Entry) -> VersionIndex {
        match kind_of(e.git_ref) {
            RefKind::Tag => VersionIndex { tags: with_tag(self.tags, e), ..self },
            RefKind::Branch => VersionIndex { branches: self.branches.push(e), ..self },
            RefKind::Misc => VersionIndex { misc_refs: self.misc_refs.push(e), ..self },
        }
    }
}

/// One of `entries` lies in the directory `dir`.
pub open spec fn dir_in(entries: Seq<Entry>, dir: Seq<char>) -> bool {
    exists|i: int| 0 <= i < entries.len() && (#[trigger] entries[i]).dir == dir
}

/// One of the buckets holds a reference that lies in the directory `dir`.
pub open spec fn dir_in_tags(tags: Seq<Bucket>, dir: Seq<char>) -> bool {
    exists|b: int| 0 <= b < tags.len() && dir_in((#[trigger] tags[b]).subversions, dir)
}

/// The reference with the given full name, as the index shows it: under its
/// short name, in the directory named by its slug.
pub open spec fn entry_of(git_ref: Seq<char>) -> Entry {
    Entry { short_ref: short_name(git_ref), git_ref, dir: slug(short_name(git_ref)) }
}

/// The index that comes of adding the references of `refs` one after another.
pub open spec fn index_of(refs: Seq<Entry>) -> VersionIndex
    decreases refs.len(),
{
    if refs.len() == 0 {
        VersionIndex::empty()
    } else {
        index_of(refs.drop_last()).insert(refs.last())
    }
}

/// The test for a tag whose major-version token is `major`.
pub open spec fn tags_of(major: Seq<char>) -> spec_fn(Entry) -> bool {
    |e: Entry| kind_of(e.git_ref) == RefKind::Tag && major_token(e.short_ref) == major
}

/// The test for a branch.
pub open spec fn branches() -> spec_fn(Entry) -> bool {
    |e: Entry| kind_of(e.git_ref) == RefKind::Branch
}

/// The test for a reference that is neither a tag nor a branch.
pub open spec fn others() -> spec_fn(Entry) -> bool {
    |e: Entry| kind_of(e.git_ref) == RefKind::Misc
}

/// The major-version tokens of the tags among `refs`, each of them once, in
/// the order in which the first tag of each stands in `refs`.
pub open spec fn majors_met(refs: Seq<Entry>) -> Seq<Seq<char>>
    decreases refs.len(),
{
    if refs.len() == 0 {
        Seq::empty()
    } else {
        let before = majors_met(refs.drop_last());
        let e = refs.last();
        if kind_of(e.git_ref) == RefKind::Tag && !before.contains(major_token(e.short_ref)) {
            before.push(major_token(e.short_ref))
        } else {
            before
        }
    }
}

/// `ix` groups the references of `refs`: the buckets are those of the tokens
/// met, in the order in which they were met; each bucket holds the tags of its
/// token, each of the two lists the references of its kind, all of them in the
/// order of `refs`.
pub open spec fn groups(ix: VersionIndex, refs: Seq<Entry>) -> bool {
    &&& majors(ix.tags) == majors_met(refs)
    &&& forall|i: int|
        0 <= i < ix.tags.len() ==> (#[trigger] ix.tags[i]).subversions == refs.filter(
            tags_of(ix.tags[i].major),
        )
    &&& ix.branches == refs.filter(branches())
    &&& ix.misc_refs == refs.filter(others())
}

/// A token is among the tokens met exactly if some tag of `refs` has it, and
/// no token is met twice.
pub proof fn lemma_majors_met(refs: Seq<Entry>, major: Seq<char>)
    ensures
        majors_met(refs).contains(major) <==> exists|j: int|
            0 <= j < refs.len() && tags_of(major)(#[trigger] refs[j]),
        majors_met(refs).no_duplicates(),
    decreases refs.len(),
{
    if refs.len() > 0 {
        let rest = refs.drop_last();
        let e = refs.last();
        let before = majors_met(rest);
        lemma_majors_met(rest, major);
        lemma_majors_met(rest, major_token(e.short_ref));
        if exists|j: int| 0 <= j < refs.len() && tags_of(major)(#[trigger] refs[j]) {
            let j = choose|j: int| 0 <= j < refs.len() && tags_of(major)(#[trigger] refs[j]);
            if j < rest.len() {
                assert(tags_of(major)(rest[j]));
                let k = choose|k: int| 0 <= k < before.len() && before[k] == major;
                assert(majors_met(refs)[k] == major);
            } else if !before.contains(major) {
                assert(majors_met(refs)[before.len() as int] == major);
            }
        }
    }
}

/// Where no element passes the test, nothing is left of the sequence.
proof fn lemma_filter_none(refs: Seq<Entry>, pred: spec_fn(Entry) -> bool)
    requires
        forall|j: int| 0 <= j < refs.len() ==> !pred(#[trigger] refs[j]),
    ensures
        refs.filter(pred) == Seq::<Entry>::empty(),
{
    refs.lemma_all_neg_filter_empty(pred);
}

/// Adding a reference to an index that groups `refs` gives an index that
/// groups `refs` with that reference behind them.
pub proof fn lemma_insert_keeps_groups(ix: VersionIndex, refs: Seq<Entry>, e: Entry)
    requires
        groups(ix, refs),
    ensures
        groups(ix.insert(e), refs.push(e)),
{
    let next = ix.insert(e);
    let all = refs.push(e);
    let major = major_token(e.short_ref);
    assert(all.drop_last() =~= refs);
    refs.lemma_filter_push(e, branches());
    refs.lemma_filter_push(e, others());
    lemma_majors_met(refs, major);
    assert forall|i: int| 0 <= i < ix.tags.len() implies refs.push(e).filter(
        tags_of(#[trigger] ix.tags[i].major),
    ) == if tags_of(ix.tags[i].major)(e) {
        ix.tags[i].subversions.push(e)
    } else {
        ix.tags[i].subversions
    } by {
        refs.lemma_filter_push(e, tags_of(ix.tags[i].major));
    }
    if kind_of(e.git_ref) == RefKind::Tag {
        majors(ix.tags).index_of_first_ensures(major);
        match majors(ix.tags).index_of_first(major) {
            Some(at) => {
                assert(majors(next.tags) =~= majors(ix.tags));
                assert forall|i: int| 0 <= i < next.tags.len() implies (#[trigger] next.tags[i]).subversions
                    == all.filter(tags_of(next.tags[i].major)) by {
                    if i != at {
                        assert(majors(ix.tags)[i] != majors(ix.tags)[at]);
                    }
                }
            },
            None => {
                assert(majors(next.tags) =~= majors(ix.tags).push(major));
                assert forall|j: int| 0 <= j < refs.len() implies !tags_of(major)(#[trigger] refs[j]) by {}
                lemma_filter_none(refs, tags_of(major));
                refs.lemma_filter_push(e, tags_of(major));
                assert forall|i: int| 0 <= i < next.tags.len() implies (#[trigger] next.tags[i]).subversions
                    == all.filter(tags_of(next.tags[i].major)) by {
                    if i < ix.tags.len() {
                        assert(majors(ix.tags)[i] != major);
                    }
                }
            },
        }
    } else {
        assert forall|i: int| 0 <= i < next.tags.len() implies (#[trigger] next.tags[i]).subversions
            == all.filter(tags_of(next.tags[i].major)) by {}
    }
}

/// The index built from a sequence of references groups them: every tag
/// stands in the bucket of its major-version token, every branch among the
/// branches, every other reference among the rest, in the order in which they
/// were added, and the buckets stand in the order in which their tokens were
/// first met.
pub proof fn lemma_index_groups_references(refs: Seq<Entry>)
    ensures
        groups(index_of(refs), refs),
    decreases refs.len(),
{
    if refs.len() == 0 {
        assert(majors(index_of(refs).tags) =~= majors_met(refs));
        lemma_filter_none(refs, branches());
        lemma_filter_none(refs, others());
    } else {
        lemma_index_groups_references(refs.drop_last());
        lemma_insert_keeps_groups(index_of(refs.drop_last()), refs.drop_last(), refs.last());
        assert(refs.drop_last().push(refs.last()) =~= refs);
    }
}

/// After a reference has been added, the directories in use are those that
/// were in use before and the directory of that reference.
pub proof fn lemma_dir_taken_insert(ix: VersionIndex, e: Entry, dir: Seq<char>)
    ensures
        ix.insert(e).dir_taken(dir) <==> (ix.dir_taken(dir) || e.dir == dir),
{
    let next = ix.insert(e);
    match kind_of(e.git_ref) {
        RefKind::Tag => {
            let major = major_token(e.short_ref);
            majors(ix.tags).index_of_first_ensures(major);
            match majors(ix.tags).index_of_first(major) {
                Some(at) => {
                    let grown = ix.tags[at].subversions.push(e);
                    assert(next.tags[at].subversions == grown);
                    if dir_in_tags(ix.tags, dir) {
                        let b = choose|b: int|
                            0 <= b < ix.tags.len() && dir_in((#[trigger] ix.tags[b]).subversions, dir);
                        if b == at {
                            let i = choose|i: int|
                                0 <= i < ix.tags[at].subversions.len() && (
                                #[trigger] ix.tags[at].subversions[i]).dir == dir;
                            assert(grown[i].dir == dir);
                        } else {
                            assert(next.tags[b] == ix.tags[b]);
                        }
                    }
                    if e.dir == dir {
                        assert(grown[grown.len() - 1].dir == dir);
                    }
                },
                None => {
                    let last = ix.tags.len() as int;
                    assert(next.tags[last].subversions == seq![e]);
                    if dir_in_tags(ix.tags, dir) {
                        let b = choose|b: int|
                            0 <= b < ix.tags.len() && dir_in((#[trigger] ix.tags[b]).subversions, dir);
                        assert(next.tags[b] == ix.tags[b]);
                    }
                    if e.dir == dir {
                        assert(seq![e][0].dir == dir);
                    }
                },
            }
        },
        RefKind::Branch => {
            lemma_dir_in_push(ix.branches, e, dir);
        },
        RefKind::Misc => {
            lemma_dir_in_push(ix.misc_refs, e, dir);
        },
    }
}

/// A list with a reference behind it holds the directories that it held and
/// the directory of that reference.
proof fn lemma_dir_in_push(entries: Seq<Entry>, e: Entry, dir: Seq<char>)
    ensures
        dir_in(entries.push(e), dir) <==> (dir_in(entries, dir) || e.dir == dir),
{
    let grown = entries.push(e);
    if dir_in(entries, dir) {
        let i = choose|i: int| 0 <= i < entries.len() && (#[trigger] entries[i]).dir == dir;
        assert(grown[i].dir == dir);
    }
    if e.dir == dir {
        assert(grown[entries.len() as int].dir == dir);
    }
}

/// The directories in use in the index built from `refs` are the directories
/// of `refs`.
pub proof fn lemma_dir_taken_index_of(refs: Seq<Entry>, dir: Seq<char>)
    ensures
        index_of(refs).dir_taken(dir) <==> dir_in(refs, dir),
    decreases refs.len(),
{
    if refs.len() > 0 {
        let rest = refs.drop_last();
        lemma_dir_taken_index_of(rest, dir);
        lemma_dir_taken_insert(index_of(rest), refs.last(), dir);
        assert(rest.push(refs.last()) =~= refs);
        lemma_dir_in_push(rest, refs.last(), dir);
    }
}

/// `a` stands in `s` somewhere before `b`.
pub open spec fn stands_before(s: Seq<Entry>, a: Entry, b: Entry) -> bool {
    exists|p: int, q: int| 0 <= p < q < s.len() && #[trigger] s[p] == a && #[trigger] s[q] == b
}

/// Of two elements that pass the test, the first still stands before the
/// second in what is left of the sequence.
proof fn lemma_filter_keeps_order(refs: Seq<Entry>, pred: spec_fn(Entry) -> bool, i: int, j: int)
    requires
        0 <= i < j < refs.len(),
        pred(refs[i]),
        pred(refs[j]),
    ensures
        stands_before(refs.filter(pred), refs[i], refs[j]),
    decreases refs.len(),
{
    let rest = refs.drop_last();
    let kept = rest.filter(pred);
    assert(rest.push(refs.last()) =~= refs);
    rest.lemma_filter_push(refs.last(), pred);
    if j == refs.len() - 1 {
        rest.lemma_filter_contains(pred, i);
        let p = choose|p: int| 0 <= p < kept.len() && kept[p] == rest[i];
        let q = kept.len() as int;
        assert(refs.filter(pred)[p] == refs[i] && refs.filter(pred)[q] == refs[j]);
    } else {
        lemma_filter_keeps_order(rest, pred, i, j);
        let (p, q) = choose|p: int, q: int|
            0 <= p < q < kept.len() && #[trigger] kept[p] == rest[i] && #[trigger] kept[q] == rest[j];
        assert(refs.filter(pred)[p] == refs[i] && refs.filter(pred)[q] == refs[j]);
    }
}

/// Two tags with the same major-version token stand in the same bucket, the
/// one that was added first before the other.
pub proof fn lemma_same_token_same_bucket(refs: Seq<Entry>, i: int, j: int)
    requires
        0 <= i < j < refs.len(),
        kind_of(refs[i].git_ref) == RefKind::Tag,
        kind_of(refs[j].git_ref) == RefKind::Tag,
        major_token(refs[i].short_ref) == major_token(refs[j].short_ref),
    ensures
        exists|b: int|
            0 <= b < index_of(refs).tags.len() && (#[trigger] index_of(refs).tags[b]).major
                == major_token(refs[i].short_ref) && stands_before(
                index_of(refs).tags[b].subversions,
                refs[i],
                refs[j],
            ),
{
    let ix = index_of(refs);
    let major = major_token(refs[i].short_ref);
    lemma_index_groups_references(refs);
    lemma_majors_met(refs, major);
    lemma_filter_keeps_order(refs, tags_of(major), i, j);
    let b = choose|b: int| 0 <= b < majors(ix.tags).len() && majors(ix.tags)[b] == major;
    assert(ix.tags[b].major == major);
}

/// The number of references that the buckets hold.
pub open spec fn tag_count(tags: Seq<Bucket>) -> nat
    decreases tags.len(),
{
    if tags.len() == 0 {
        0
    } else {
        tag_count(tags.drop_last()) + tags.last().subversions.len()
    }
}

impl VersionIndex {
    /// The number of references that the index holds.
    pub open spec fn count(self) -> nat {
        tag_count(self.tags) + self.branches.len() + self.misc_refs.len()
    }
}

/// The first buckets hold no more references than all of them.
pub proof fn lemma_tag_count_prefix(tags: Seq<Bucket>, upto: int)
    requires
        0 <= upto <= tags.len(),
    ensures
        tag_count(tags.take(upto)) <= tag_count(tags),
        upto < tags.len() ==> tag_count(tags.take(upto + 1)) == tag_count(tags.take(upto))
            + tags[upto].subversions.len(),
    decreases tags.len() - upto,
{
    if upto < tags.len() {
        assert(tags.take(upto + 1).drop_last() =~= tags.take(upto));
        lemma_tag_count_prefix(tags, upto + 1);
    } else {
        assert(tags.take(upto) =~= tags);
    }
}

/// A bucket that grows by one reference makes the buckets hold one more.
proof fn lemma_tag_count_update(tags: Seq<Bucket>, at: int, e: Entry)
    requires
        0 <= at < tags.len(),
    ensures
        tag_count(
            tags.update(
                at,
                Bucket { major: tags[at].major, subversions: tags[at].subversions.push(e) },
            ),
        ) == tag_count(tags) + 1,
    decreases tags.len(),
{
    let grown = Bucket { major: tags[at].major, subversions: tags[at].subversions.push(e) };
    let after = tags.update(at, grown);
    if at == tags.len() - 1 {
        assert(after.drop_last() =~= tags.drop_last());
    } else {
        lemma_tag_count_update(tags.drop_last(), at, e);
        assert(after.drop_last() =~= tags.drop_last().update(at, grown));
    }
}

/// Adding a reference puts it in one place: the index holds one reference
/// more than before.
pub proof fn lemma_insert_adds_one(ix: VersionIndex, e: Entry)
    ensures
        ix.insert(e).count() == ix.count() + 1,
{
    if kind_of(e.git_ref) == RefKind::Tag {
        let major = major_token(e.short_ref);
        majors(ix.tags).index_of_first_ensures(major);
        match majors(ix.tags).index_of_first(major) {
            Some(at) => {
                lemma_tag_count_update(ix.tags, at, e);
            },
            None => {
                let bucket = Bucket { major, subversions: seq![e] };
                assert(ix.tags.push(bucket).drop_last() =~= ix.tags);
            },
        }
    }
}

/// The index built from a sequence of references holds as many references as
/// the sequence: with the grouping above, each of them in exactly one place.
pub proof fn lemma_index_holds_each_reference_once(refs: Seq<Entry>)
    ensures
        index_of(refs).count() == refs.len(),
    decreases refs.len(),
{
    if refs.len() > 0 {
        lemma_index_holds_each_reference_once(refs.drop_last());
        lemma_insert_adds_one(index_of(refs.drop_last()), refs.last());
    }
}

/// Tests whether one of `entries` lies in the directory `dir`.
fn list_has_dir(entries: &Vec<IndexRef>, dir: &String) -> (r: bool)
    ensures
        r == dir_in(entries_of(entries@), dir@),
{
    let mut i: usize = 0;
    while i < entries.len()
        invariant
            i <= entries@.len(),
            forall|k: int| 0 <= k < i ==> (#[trigger] entries_of(entries@)[k]).dir != dir@,
        decreases entries@.len() - i,
    {
        if entries[i].dir == *dir {
            assert(entries_of(entries@)[i as int].dir == dir@);
            return true;
        }
        i += 1;
    }
    false
}

impl IndexContext {
    /// An index that holds nothing.
    pub fn new() -> (r: IndexContext)
        ensures
            r@ == VersionIndex::empty(),
    {
        let r = IndexContext { tags: Vec::new(), branches: Vec::new(), misc_refs: Vec::new() };
        assert(r@.tags =~= Seq::empty());
        assert(r@.branches =~= Seq::empty());
        assert(r@.misc_refs =~= Seq::empty());
        r
    }

    /// The position of the bucket with the given major-version token.
    fn find_bucket(&self, major: &String) -> (r: Option<usize>)
        ensures
            match r {
                Some(i) => majors(self@.tags).index_of_first(major@) == Some(i as int)
                    && i < self.tags@.len() && self.tags@[i as int].major@ == major@,
                None => majors(self@.tags).index_of_first(major@) is None,
            },
    {
        let mut i: usize = 0;
        while i < self.tags.len()
            invariant
                i <= self.tags@.len(),
                forall|k: int| 0 <= k < i ==> majors(self@.tags)[k] != major@,
            decreases self.tags@.len() - i,
        {
            if self.tags[i].major == *major {
                proof {
                    assert(majors(self@.tags)[i as int] == major@);
                    majors(self@.tags).index_of_first_ensures(major@);
                }
                return Some(i);
            }
            i += 1;
        }
        proof {
            majors(self@.tags).index_of_first_ensures(major@);
        }
        None
    }

    /// Tests whether a reference of the index lies in the directory `name`.
    pub fn has_dir(&self, name: &str) -> (r: bool)
        ensures
            r == self@.dir_taken(name@),
    {
        let owned = name.to_owned();
        let dir = &owned;
        let mut b: usize = 0;
        while b < self.tags.len()
            invariant
                b <= self.tags@.len(),
                dir@ == name@,
                forall|k: int| 0 <= k < b ==> !dir_in((#[trigger] self@.tags[k]).subversions, dir@),
            decreases self.tags@.len() - b,
        {
            if list_has_dir(&self.tags[b].subversions, dir) {
                assert(dir_in(self@.tags[b as int].subversions, dir@));
                return true;
            }
            b += 1;
        }
        list_has_dir(&self.branches, dir) || list_has_dir(&self.misc_refs, dir)
    }

    /// Adds a built reference to the index.
    pub fn add(&mut self, entry: IndexRef)
        ensures
            final(self)@ == old(self)@.insert(entry@),
    {
        match ref_kind(entry.git_ref.as_str()) {
            RefKind::Tag => {
                let major = major_version(entry.short_ref.as_str()).to_owned();
                match self.find_bucket(&major) {
                    Some(i) => {
                        self.tags[i].subversions.push(entry);
                        proof {
                            let before = old(self)@.tags;
                            assert(self@.tags[i as int].subversions =~= before[i as int].subversions.push(
                                entry@,
                            ));
                            assert(self@.tags =~= with_tag(before, entry@));
                        }
                    },
                    None => {
                        let mut subversions: Vec<IndexRef> = Vec::new();
                        subversions.push(entry);
                        let bucket = MajorVersion { major, subversions };
                        assert(bucket@.subversions =~= seq![entry@]);
                        self.tags.push(bucket);
                        assert(self@.tags =~= with_tag(old(self)@.tags, entry@));
                    },
                }
            },
            RefKind::Branch => {
                self.branches.push(entry);
                assert(self@.branches =~= old(self)@.branches.push(entry@));
            },
            RefKind::Misc => {
                self.misc_refs.push(entry);
                assert(self@.misc_refs =~= old(self)@.misc_refs.push(entry@));
            },
        }
    }
}

} // verus!
