use refdocs::refname::{major_version, ref_kind, short_ref_name, slug_of, RefKind};

#[test]
fn short_name_of_a_branch() {
    assert_eq!(short_ref_name("refs/heads/master"), "master");
}

#[test]
fn short_name_of_a_tag() {
    assert_eq!(short_ref_name("refs/tags/v4.1.2"), "v4.1.2");
}

#[test]
fn short_name_keeps_other_namespaces() {
    assert_eq!(short_ref_name("refs/remotes/origin/main"), "remotes/origin/main");
}

#[test]
fn short_name_without_any_prefix() {
    assert_eq!(short_ref_name("feature/x"), "feature/x");
    assert_eq!(short_ref_name(""), "");
}

#[test]
fn short_name_strips_each_prefix_once() {
    assert_eq!(short_ref_name("refs/refs/heads/x"), "refs/heads/x");
    assert_eq!(short_ref_name("refs/heads/heads/x"), "heads/x");
    assert_eq!(short_ref_name("refs/tags/tags/x"), "tags/x");
}

#[test]
fn short_name_strips_in_a_fixed_order() {
    assert_eq!(short_ref_name("refs/heads/tags/x"), "x");
    assert_eq!(short_ref_name("refs/tags/heads/x"), "heads/x");
    assert_eq!(short_ref_name("heads/tags/x"), "x");
    assert_eq!(short_ref_name("tags/refs/x"), "refs/x");
}

#[test]
fn short_name_of_a_bare_prefix() {
    assert_eq!(short_ref_name("refs/"), "");
    assert_eq!(short_ref_name("refs/heads/"), "");
    assert_eq!(short_ref_name("refs"), "refs");
}

#[test]
fn short_name_with_wide_characters() {
    assert_eq!(short_ref_name("refs/heads/f\u{00fc}r/\u{4e2d}"), "f\u{00fc}r/\u{4e2d}");
}

#[test]
fn slug_replaces_every_separator() {
    assert_eq!(slug_of("feature/a/b"), "feature-a-b");
    assert_eq!(slug_of("master"), "master");
    assert_eq!(slug_of("/"), "-");
    assert_eq!(slug_of(""), "");
}

#[test]
fn slug_keeps_other_characters() {
    assert_eq!(slug_of("a-b.c\\d/\u{00e9}"), "a-b.c\\d-\u{00e9}");
}

#[test]
fn major_token_ends_at_first_dot() {
    assert_eq!(major_version("v4.1.2"), "v4");
    assert_eq!(major_version("1.0"), "1");
}

#[test]
fn major_token_without_a_dot_is_the_name() {
    assert_eq!(major_version("nightly"), "nightly");
    assert_eq!(major_version(""), "");
}

#[test]
fn major_token_of_a_leading_dot_is_empty() {
    assert_eq!(major_version(".hidden"), "");
    assert_eq!(major_version("v1."), "v1");
}

#[test]
fn kinds_by_namespace() {
    assert_eq!(ref_kind("refs/tags/v1.0.0"), RefKind::Tag);
    assert_eq!(ref_kind("refs/heads/master"), RefKind::Branch);
    assert_eq!(ref_kind("refs/remotes/origin/master"), RefKind::Misc);
    assert_eq!(ref_kind("refs/stash"), RefKind::Misc);
    assert_eq!(ref_kind("v1.0.0"), RefKind::Misc);
}

#[test]
fn only_names_under_a_namespace_belong_to_it() {
    assert_eq!(ref_kind("refs/tags/"), RefKind::Tag);
    assert_eq!(ref_kind("refs/heads/"), RefKind::Branch);
    assert_eq!(ref_kind("refs/tags"), RefKind::Misc);
    assert_eq!(ref_kind("refs/heads"), RefKind::Misc);
    assert_eq!(ref_kind("refs/tags-old/v1"), RefKind::Misc);
    assert_eq!(ref_kind("refs/heads-backup/x"), RefKind::Misc);
    assert_eq!(ref_kind("refs/tag"), RefKind::Misc);
    assert_eq!(ref_kind("xrefs/tags/v1"), RefKind::Misc);
}
