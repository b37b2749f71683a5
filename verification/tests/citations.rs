use fortytwo::engine::citations::{validate, Source};

#[test]
fn keeps_valid_markers() {
    assert_eq!(validate("Foo [1] bar [2]", 2), "Foo [1] bar [2]");
    assert_eq!(validate("[1][2]", 2), "[1][2]");
    assert_eq!(validate("multi [1,2] end", 2), "multi [1,2] end");
}

#[test]
fn drops_invalid_markers() {
    assert_eq!(validate("Foo [9] bar", 2), "Foo  bar");
    assert_eq!(validate("[3]", 2), "");
}

#[test]
fn repairs_mixed_markers() {
    assert_eq!(validate("see [1,9] for details", 2), "see [1] for details");
}

#[test]
fn leaves_non_citations_alone() {
    let md = "[see here](https://example.com) and [brackets] in prose";
    assert_eq!(validate(md, 2), md);
}

#[test]
fn handles_zero_sources() {
    assert_eq!(validate("no [1] sources at all", 0), "no  sources at all");
}

#[test]
fn trims_and_normalizes_tokens_inside_citations() {
    assert_eq!(validate("a [ 1 , 2 ] b", 2), "a [1,2] b");
    assert_eq!(validate("a [1,,2] b", 2), "a [1,2] b");
    assert_eq!(validate("a [01] b", 2), "a [01] b");
}

#[test]
fn unclosed_and_empty_brackets_are_text() {
    assert_eq!(validate("open [1 and more", 2), "open [1 and more");
    assert_eq!(validate("empty [] and [ , ]", 2), "empty [] and [ , ]");
    assert_eq!(validate("sign [+1]", 2), "sign [+1]");
}

#[test]
fn nested_bracket_closes_at_first_bracket() {
    // the group "[[9]" is not numeric; "[9]" then is, and is dropped
    assert_eq!(validate("x[[9]1]", 2), "x[1]");
}

#[test]
fn huge_index_is_dropped_not_overflowing() {
    assert_eq!(
        validate("big [99999999999999999999999999] end", 3),
        "big  end"
    );
}

#[test]
fn non_ascii_text_is_kept() {
    assert_eq!(validate("héllo [1] wörld [7]", 1), "héllo [1] wörld ");
}

#[test]
fn text_without_brackets_is_unchanged() {
    let t = "plain text, no markers at all: 1, 2, 3.";
    assert_eq!(validate(t, 0), t);
    assert_eq!(validate(t, 5), t);
}

#[test]
fn validation_never_lengthens() {
    for t in ["[ 1 ,  2 ,9]", "a[1]b[2]c[3]", "[[[1]]]", "[,,1,,]", "x [10, 2] y"] {
        let v = validate(t, 2);
        assert!(v.chars().count() <= t.chars().count(), "{t} -> {v}");
    }
}

#[test]
fn kept_indices_are_in_range() {
    let v = validate("[0,1,2,3] [4] [2,2]", 2);
    assert_eq!(v, "[1,2]  [2,2]");
}

#[test]
fn source_duplicate_copies_fields() {
    let s = Source {
        index: 3,
        title: "T".into(),
        url: "u".into(),
        snippet: "s".into(),
    };
    let d = s.duplicate();
    assert_eq!(d.index, 3);
    assert_eq!(d.title, "T");
    assert_eq!(d.url, "u");
    assert_eq!(d.snippet, "s");
}

#[test]
fn repair_never_forms_a_marker_to_a_missing_source() {
    // dropping "[3]" joins "[" and "5]"; the joined marker is dropped too
    assert_eq!(validate("[[3]5]", 2), "");
    assert_eq!(validate("see [[9]2] and [[3]1]", 2), "see [2] and [1]");
}

#[test]
fn a_joined_marker_naming_a_real_source_is_kept_as_one_pass_leaves_it() {
    assert_eq!(validate("[[9] 1]", 2), "[ 1]");
    assert_eq!(validate("x[[9]1]", 2), "x[1]");
}
