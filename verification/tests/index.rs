use refdocs::version_index::{IndexContext, IndexRef};

fn entry(git_ref: &str) -> IndexRef {
    IndexRef::of(git_ref)
}

fn short_names(entries: &[IndexRef]) -> Vec<String> {
    entries.iter().map(|e| e.short_ref.clone()).collect()
}

#[test]
fn new_index_is_empty() {
    let index = IndexContext::new();
    assert!(index.tags.is_empty());
    assert!(index.branches.is_empty());
    assert!(index.misc_refs.is_empty());
}

#[test]
fn tags_are_grouped_by_major_version() {
    let mut index = IndexContext::new();
    index.add(entry("refs/tags/v1.0.0"));
    index.add(entry("refs/tags/v1.2.0"));
    index.add(entry("refs/tags/v2.0.0"));
    assert_eq!(index.tags.len(), 2);
    assert_eq!(index.tags[0].major, "v1");
    assert_eq!(short_names(&index.tags[0].subversions), vec!["v1.0.0", "v1.2.0"]);
    assert_eq!(index.tags[1].major, "v2");
    assert_eq!(short_names(&index.tags[1].subversions), vec!["v2.0.0"]);
    assert!(index.branches.is_empty());
    assert!(index.misc_refs.is_empty());
}

#[test]
fn buckets_follow_first_encounter() {
    let mut index = IndexContext::new();
    index.add(entry("refs/tags/v2.0.0"));
    index.add(entry("refs/tags/v1.0.0"));
    index.add(entry("refs/heads/master"));
    index.add(entry("refs/tags/v2.1.0"));
    index.add(entry("refs/tags/v1.1.0"));
    assert_eq!(index.tags.len(), 2);
    assert_eq!(index.tags[0].major, "v2");
    assert_eq!(short_names(&index.tags[0].subversions), vec!["v2.0.0", "v2.1.0"]);
    assert_eq!(index.tags[1].major, "v1");
    assert_eq!(short_names(&index.tags[1].subversions), vec!["v1.0.0", "v1.1.0"]);
    assert_eq!(short_names(&index.branches), vec!["master"]);
}

#[test]
fn tag_without_dot_has_a_bucket_of_its_own_name() {
    let mut index = IndexContext::new();
    index.add(entry("refs/tags/nightly"));
    index.add(entry("refs/tags/nightly.1"));
    assert_eq!(index.tags.len(), 1);
    assert_eq!(index.tags[0].major, "nightly");
    assert_eq!(short_names(&index.tags[0].subversions), vec!["nightly", "nightly.1"]);
}

#[test]
fn branches_and_other_references_keep_their_order() {
    let mut index = IndexContext::new();
    index.add(entry("refs/remotes/origin/main"));
    index.add(entry("refs/heads/b"));
    index.add(entry("refs/stash"));
    index.add(entry("refs/heads/a"));
    assert!(index.tags.is_empty());
    assert_eq!(short_names(&index.branches), vec!["b", "a"]);
    assert_eq!(short_names(&index.misc_refs), vec!["remotes/origin/main", "stash"]);
}

#[test]
fn every_reference_is_in_one_place() {
    let names = [
        "refs/tags/v1.0.0",
        "refs/heads/master",
        "refs/tags/v2.0.0",
        "refs/notes/commits",
        "refs/tags/v1.0.1",
    ];
    let mut index = IndexContext::new();
    for name in names.iter() {
        index.add(entry(name));
    }
    let mut found: Vec<String> = Vec::new();
    for bucket in index.tags.iter() {
        for e in bucket.subversions.iter() {
            found.push(e.git_ref.clone());
        }
    }
    for e in index.branches.iter().chain(index.misc_refs.iter()) {
        found.push(e.git_ref.clone());
    }
    assert_eq!(found.len(), names.len());
    for name in names.iter() {
        assert_eq!(found.iter().filter(|f| f.as_str() == *name).count(), 1);
    }
}

#[test]
fn entry_keeps_its_fields() {
    let mut index = IndexContext::new();
    index.add(entry("refs/heads/feature/x"));
    let e = &index.branches[0];
    assert_eq!(e.short_ref, "feature/x");
    assert_eq!(e.git_ref, "refs/heads/feature/x");
    assert_eq!(e.dir, "feature-x");
}

#[test]
fn directories_in_use_are_found() {
    let mut index = IndexContext::new();
    index.add(entry("refs/tags/v1.0.0"));
    index.add(entry("refs/heads/a/b"));
    index.add(entry("refs/stash"));
    assert!(index.has_dir("v1.0.0"));
    assert!(index.has_dir("a-b"));
    assert!(index.has_dir("stash"));
    assert!(!index.has_dir("a/b"));
    assert!(!index.has_dir("v1"));
    assert!(!IndexContext::new().has_dir(""));
}

#[test]
fn entry_of_a_reference() {
    let e = IndexRef::of("refs/tags/release/v1.0");
    assert_eq!(e.short_ref, "release/v1.0");
    assert_eq!(e.git_ref, "refs/tags/release/v1.0");
    assert_eq!(e.dir, "release-v1.0");
}

#[test]
fn names_beside_a_namespace_are_other_references() {
    let mut index = IndexContext::new();
    index.add(entry("refs/tags-old/v1"));
    index.add(entry("refs/heads-backup/x"));
    assert!(index.tags.is_empty());
    assert!(index.branches.is_empty());
    assert_eq!(short_names(&index.misc_refs), vec!["tags-old/v1", "heads-backup/x"]);
}
