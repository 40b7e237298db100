use refdocs::error::ErrorKind;
use refdocs::render::{
    frame, quote, render_index, render_page, rendered, shown, shows_index, to_json, INDEX_TEMPLATE,
};
use refdocs::version_index::MajorVersion;
use refdocs::version_index::{IndexContext, IndexRef};

fn entry(git_ref: &str) -> IndexRef {
    IndexRef::of(git_ref)
}

fn sample() -> IndexContext {
    let mut index = IndexContext::new();
    index.add(entry("refs/tags/v1.0.0"));
    index.add(entry("refs/tags/v1.2.0"));
    index.add(entry("refs/heads/feature/x"));
    index.add(entry("refs/tags/v2.0.0"));
    index.add(entry("refs/stash"));
    index
}

#[test]
fn empty_index_as_json() {
    assert_eq!(to_json(&IndexContext::new()), "{\"tags\":[],\"branches\":[],\"misc_refs\":[]}");
}

#[test]
fn index_as_json() {
    let expected = concat_all(&[
        "{\"tags\":[",
        "{\"major\":\"v1\",\"subversions\":[",
        "{\"short_ref\":\"v1.0.0\",\"git_ref\":\"refs/tags/v1.0.0\",\"dir\":\"v1.0.0\"},",
        "{\"short_ref\":\"v1.2.0\",\"git_ref\":\"refs/tags/v1.2.0\",\"dir\":\"v1.2.0\"}]},",
        "{\"major\":\"v2\",\"subversions\":[",
        "{\"short_ref\":\"v2.0.0\",\"git_ref\":\"refs/tags/v2.0.0\",\"dir\":\"v2.0.0\"}]}],",
        "\"branches\":[",
        "{\"short_ref\":\"feature/x\",\"git_ref\":\"refs/heads/feature/x\",\"dir\":\"feature-x\"}],",
        "\"misc_refs\":[",
        "{\"short_ref\":\"stash\",\"git_ref\":\"refs/stash\",\"dir\":\"stash\"}]}",
    ]);
    assert_eq!(to_json(&sample()), expected);
}

fn concat_all(parts: &[&str]) -> String {
    let mut s = String::new();
    for p in parts {
        s.push_str(p);
    }
    s
}

#[test]
fn strings_are_escaped_in_json() {
    let mut index = IndexContext::new();
    index.add(IndexRef {
        short_ref: "a\"b\\c\n\u{00e9}".to_string(),
        git_ref: "refs/heads/x".to_string(),
        dir: "\t".to_string(),
    });
    assert_eq!(
        to_json(&index),
        "{\"tags\":[],\"branches\":[{\"short_ref\":\"a\\\"b\\\\c\\n\u{00e9}\",\"git_ref\":\"refs/heads/x\",\"dir\":\"\\t\"}],\"misc_refs\":[]}"
    );
}

#[test]
fn json_reads_back_as_the_index() {
    let index = sample();
    let value: serde_json::Value = serde_json::from_str(&to_json(&index)).unwrap();
    let tags = value.get("tags").unwrap().as_array().unwrap();
    assert_eq!(tags.len(), index.tags.len());
    for (bucket, read) in index.tags.iter().zip(tags.iter()) {
        assert_eq!(read.get("major").unwrap().as_str().unwrap(), bucket.major);
        let subs = read.get("subversions").unwrap().as_array().unwrap();
        assert_eq!(subs.len(), bucket.subversions.len());
        for (e, r) in bucket.subversions.iter().zip(subs.iter()) {
            assert_eq!(r.get("short_ref").unwrap().as_str().unwrap(), e.short_ref);
            assert_eq!(r.get("git_ref").unwrap().as_str().unwrap(), e.git_ref);
            assert_eq!(r.get("dir").unwrap().as_str().unwrap(), e.dir);
        }
    }
    let branches = value.get("branches").unwrap().as_array().unwrap();
    assert_eq!(branches.len(), 1);
    assert_eq!(branches[0].get("dir").unwrap().as_str().unwrap(), "feature-x");
    let misc = value.get("misc_refs").unwrap().as_array().unwrap();
    assert_eq!(misc.len(), 1);
    assert_eq!(misc[0].get("git_ref").unwrap().as_str().unwrap(), "refs/stash");
}

#[test]
fn empty_index_page() {
    let page = render_index(&IndexContext::new()).unwrap();
    let expected = concat_all(&[
        "<!DOCTYPE html>\n<html>\n<head>\n<meta charset=\"utf-8\">\n",
        "<title>Documentation</title>\n</head>\n<body>\n<h1>Documentation</h1>\n",
        "<h2>Tags</h2>\n<h2>Branches</h2>\n<ul>\n</ul>\n",
        "<h2>Other references</h2>\n<ul>\n</ul>\n</body>\n</html>\n",
    ]);
    assert_eq!(page, expected);
}

#[test]
fn index_page_lists_the_entries() {
    let page = render_index(&sample()).unwrap();
    let expected = concat_all(&[
        "<!DOCTYPE html>\n<html>\n<head>\n<meta charset=\"utf-8\">\n",
        "<title>Documentation</title>\n</head>\n<body>\n<h1>Documentation</h1>\n",
        "<h2>Tags</h2>\n",
        "<h3>v1</h3>\n<ul>\n",
        "<li><a href=\"v1.0.0/\" title=\"refs/tags/v1.0.0\">v1.0.0</a></li>\n",
        "<li><a href=\"v1.2.0/\" title=\"refs/tags/v1.2.0\">v1.2.0</a></li>\n",
        "</ul>\n",
        "<h3>v2</h3>\n<ul>\n",
        "<li><a href=\"v2.0.0/\" title=\"refs/tags/v2.0.0\">v2.0.0</a></li>\n",
        "</ul>\n",
        "<h2>Branches</h2>\n<ul>\n",
        "<li><a href=\"feature-x/\" title=\"refs/heads/feature/x\">feature/x</a></li>\n",
        "</ul>\n",
        "<h2>Other references</h2>\n<ul>\n",
        "<li><a href=\"stash/\" title=\"refs/stash\">stash</a></li>\n",
        "</ul>\n</body>\n</html>\n",
    ]);
    assert_eq!(page, expected);
}

#[test]
fn page_and_json_hold_the_same_entries() {
    let index = sample();
    let json = to_json(&index);
    let page = render_index(&index).unwrap();
    let mut all: Vec<&IndexRef> = Vec::new();
    for bucket in index.tags.iter() {
        all.extend(bucket.subversions.iter());
    }
    all.extend(index.branches.iter());
    all.extend(index.misc_refs.iter());
    assert_eq!(all.len(), 5);
    for e in all.iter() {
        let link = format!("<a href=\"{}/\" title=\"{}\">{}</a>", e.dir, e.git_ref, e.short_ref);
        assert_eq!(page.matches(&link).count(), 1);
        let object = format!(
            "{{\"short_ref\":\"{}\",\"git_ref\":\"{}\",\"dir\":\"{}\"}}",
            e.short_ref, e.git_ref, e.dir
        );
        assert_eq!(json.matches(&object).count(), 1);
    }
    assert_eq!(page.matches("<li>").count(), all.len());
    assert_eq!(json.matches("\"git_ref\"").count(), all.len());
}

#[test]
fn page_is_made_from_the_json_document() {
    let index = sample();
    assert_eq!(render_index(&index).unwrap(), render_page(&to_json(&index)).unwrap());
}

#[test]
fn markup_in_names_is_escaped_on_the_page() {
    let mut index = IndexContext::new();
    index.add(IndexRef {
        short_ref: "a<b>&\"c\"".to_string(),
        git_ref: "refs/heads/a<b>&\"c\"".to_string(),
        dir: "d".to_string(),
    });
    let page = render_index(&index).unwrap();
    assert!(page.contains(
        "<li><a href=\"d/\" title=\"refs/heads/a&lt;b&gt;&amp;&quot;c&quot;\">a&lt;b&gt;&amp;&quot;c&quot;</a></li>"
    ));
}

#[test]
fn faulty_document_gives_a_template_failure() {
    let e = render_page("{\"tags\":").unwrap_err();
    assert_eq!(e.kind, ErrorKind::Template);
    assert_eq!(e.detail, "failed to generate index.html");
}

#[test]
fn template_lists_all_three_groups() {
    assert!(INDEX_TEMPLATE.contains("{{#each tags}}"));
    assert!(INDEX_TEMPLATE.contains("{{#each subversions}}"));
    assert!(INDEX_TEMPLATE.contains("{{#each branches}}"));
    assert!(INDEX_TEMPLATE.contains("{{#each misc_refs}}"));
}

#[test]
fn frame_puts_the_literals_in_their_places() {
    let index = IndexContext {
        tags: vec![MajorVersion {
            major: "M".to_string(),
            subversions: vec![
                IndexRef { short_ref: "1".to_string(), git_ref: "2".to_string(), dir: "3".to_string() },
                IndexRef { short_ref: "4".to_string(), git_ref: "5".to_string(), dir: "6".to_string() },
            ],
        }],
        branches: vec![IndexRef {
            short_ref: "7".to_string(),
            git_ref: "8".to_string(),
            dir: "9".to_string(),
        }],
        misc_refs: Vec::new(),
    };
    assert_eq!(
        frame(&index),
        concat_all(&[
            "{\"tags\":[{\"major\":M,\"subversions\":[",
            "{\"short_ref\":1,\"git_ref\":2,\"dir\":3},",
            "{\"short_ref\":4,\"git_ref\":5,\"dir\":6}]}],",
            "\"branches\":[{\"short_ref\":7,\"git_ref\":8,\"dir\":9}],",
            "\"misc_refs\":[]}",
        ])
    );
}

#[test]
fn frame_of_several_buckets() {
    let bucket = |major: &str| MajorVersion { major: major.to_string(), subversions: Vec::new() };
    let index = IndexContext {
        tags: vec![bucket("A"), bucket("B"), bucket("C")],
        branches: Vec::new(),
        misc_refs: Vec::new(),
    };
    assert_eq!(
        frame(&index),
        concat_all(&[
            "{\"tags\":[{\"major\":A,\"subversions\":[]},{\"major\":B,\"subversions\":[]},",
            "{\"major\":C,\"subversions\":[]}],\"branches\":[],\"misc_refs\":[]}",
        ])
    );
}

#[test]
fn quote_makes_a_literal_of_every_string() {
    let q = quote(&sample());
    assert_eq!(q.tags.len(), 2);
    assert_eq!(q.tags[0].major, "\"v1\"");
    assert_eq!(q.tags[0].subversions.len(), 2);
    assert_eq!(q.tags[0].subversions[1].short_ref, "\"v1.2.0\"");
    assert_eq!(q.tags[0].subversions[1].git_ref, "\"refs/tags/v1.2.0\"");
    assert_eq!(q.tags[0].subversions[1].dir, "\"v1.2.0\"");
    assert_eq!(q.tags[1].major, "\"v2\"");
    assert_eq!(q.branches[0].short_ref, "\"feature/x\"");
    assert_eq!(q.branches[0].dir, "\"feature-x\"");
    assert_eq!(q.misc_refs[0].git_ref, "\"refs/stash\"");
}

#[test]
fn rendering_without_a_page_is_a_template_failure() {
    assert_eq!(rendered(Some("page".to_string())).unwrap(), "page");
    let e = rendered(None).unwrap_err();
    assert_eq!(e.kind, ErrorKind::Template);
    assert_eq!(e.detail, "failed to generate index.html");
}

#[test]
fn rendered_page_shows_the_index() {
    let index = sample();
    let page = render_page(&to_json(&index)).unwrap();
    assert!(shows_index(&page, &index));
    assert!(shows_index(&render_index(&IndexContext::new()).unwrap(), &IndexContext::new()));
}

#[test]
fn page_without_an_entry_does_not_show_the_index() {
    let index = sample();
    let page = render_index(&index).unwrap();
    let item = "<li><a href=\"stash/\" title=\"refs/stash\">stash</a></li>\n";
    assert!(page.contains(item));
    assert!(!shows_index(&page.replace(item, ""), &index));
    assert!(!shows_index(&page.replace(item, "<li>other</li>"), &index));
}

#[test]
fn page_with_more_items_does_not_show_the_index() {
    let index = sample();
    let page = render_index(&index).unwrap();
    assert!(!shows_index(&page.replace("</body>", "<li>more</li></body>"), &index));
    let item = "<li><a href=\"stash/\" title=\"refs/stash\">stash</a></li>\n";
    let twice = format!("{}{}", item, item);
    assert!(!shows_index(&page.replace(item, &twice), &index));
}

#[test]
fn page_of_another_index_does_not_show_the_index() {
    let mut other = IndexContext::new();
    other.add(entry("refs/heads/master"));
    let page = render_index(&other).unwrap();
    assert!(!shows_index(&page, &sample()));
    assert!(!shows_index(&page, &IndexContext::new()));
    assert!(!shows_index("", &other));
    assert!(!shows_index("", &IndexContext::new()));
    assert!(shows_index(
        "<h2>Tags</h2><h2>Branches</h2><h2>Other references</h2>",
        &IndexContext::new()
    ));
}

#[test]
fn page_that_does_not_show_the_index_is_a_template_failure() {
    let index = sample();
    let page = render_page(&to_json(&index)).unwrap();
    assert_eq!(shown(page.clone(), &index).unwrap(), page);
    let e = shown(page, &IndexContext::new()).unwrap_err();
    assert_eq!(e.kind, ErrorKind::Template);
    let e = shown("page".to_string(), &index).unwrap_err();
    assert_eq!(e.kind, ErrorKind::Template);
    assert_eq!(e.detail, "index.html does not show the index");
}

#[test]
fn every_escaped_character_is_shown() {
    let mut index = IndexContext::new();
    index.add(IndexRef {
        short_ref: "<>\"&'`=x".to_string(),
        git_ref: "refs/heads/<>\"&'`=x".to_string(),
        dir: "a=b".to_string(),
    });
    let page = render_index(&index).unwrap();
    assert!(page.contains(
        "<li><a href=\"a&#x3D;b/\" title=\"refs/heads/&lt;&gt;&quot;&amp;&#x27;&#x60;&#x3D;x\">&lt;&gt;&quot;&amp;&#x27;&#x60;&#x3D;x</a></li>"
    ));
}

#[test]
fn names_that_look_like_list_items_are_shown() {
    let mut index = IndexContext::new();
    index.add(IndexRef {
        short_ref: "<li>".to_string(),
        git_ref: "refs/heads/<li>".to_string(),
        dir: "<li>".to_string(),
    });
    index.add(entry("refs/tags/{{major}}.1"));
    assert!(render_index(&index).is_ok());
}

#[test]
fn control_characters_are_escaped_in_json() {
    let mut index = IndexContext::new();
    index.add(IndexRef {
        short_ref: "\u{0}\u{1}\u{8}\u{9}\u{a}\u{b}\u{c}\u{d}\u{e}\u{1f}".to_string(),
        git_ref: " \u{7f}\u{80}/\u{2028}".to_string(),
        dir: "\"\\".to_string(),
    });
    let expected = concat_all(&[
        "{\"tags\":[],\"branches\":[],\"misc_refs\":[{\"short_ref\":\"",
        "\\u0000\\u0001\\b\\t\\n\\u000b\\f\\r\\u000e\\u001f",
        "\",\"git_ref\":\" \u{7f}\u{80}/\u{2028}\",\"dir\":\"\\\"\\\\\"}]}",
    ]);
    assert_eq!(to_json(&index), expected);
}

#[test]
fn page_in_another_order_does_not_show_the_index() {
    let mut index = IndexContext::new();
    index.add(entry("refs/heads/a"));
    index.add(entry("refs/heads/b"));
    let mut swapped = IndexContext::new();
    swapped.add(entry("refs/heads/b"));
    swapped.add(entry("refs/heads/a"));
    let page = render_index(&index).unwrap();
    assert!(shows_index(&page, &index));
    assert!(!shows_index(&page, &swapped));
    assert!(shows_index(&render_index(&swapped).unwrap(), &swapped));
}

#[test]
fn page_with_tags_under_another_heading_does_not_show_the_index() {
    let index = sample();
    let page = render_index(&index).unwrap();
    assert!(!shows_index(&page.replace("<h3>v2</h3>", "<h3>v3</h3>"), &index));
    let first = "<li><a href=\"v1.2.0/\" title=\"refs/tags/v1.2.0\">v1.2.0</a></li>\n";
    let second = "<li><a href=\"v2.0.0/\" title=\"refs/tags/v2.0.0\">v2.0.0</a></li>\n";
    let moved = page.replace(first, "").replace(second, &format!("{}{}", second, first));
    assert_eq!(moved.matches("<li>").count(), page.matches("<li>").count());
    assert!(!shows_index(&moved, &index));
}

#[test]
fn page_with_a_branch_among_the_other_references_does_not_show_the_index() {
    let index = sample();
    let page = render_index(&index).unwrap();
    let branch = "<li><a href=\"feature-x/\" title=\"refs/heads/feature/x\">feature/x</a></li>\n";
    let moved = page.replace(branch, "").replace("</ul>\n</body>", &format!("{}</ul>\n</body>", branch));
    assert!(moved.contains(branch));
    assert!(!shows_index(&moved, &index));
}

#[test]
fn heading_of_a_bucket_is_escaped() {
    let mut index = IndexContext::new();
    index.add(entry("refs/tags/a&b.1"));
    let page = render_index(&index).unwrap();
    assert!(page.contains("<h3>a&amp;b</h3>"));
}
