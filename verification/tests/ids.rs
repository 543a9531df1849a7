use mdbook_markdown::{
    checked_unique_id_from_content, id_from_content, normalize_id, unique_id_from_content,
    IdCounter,
};

#[test]
fn it_generates_anchors() {
    assert_eq!(
        id_from_content("## Method-call expressions"),
        "method-call-expressions"
    );
    assert_eq!(id_from_content("## **Bold** title"), "bold-title");
    assert_eq!(id_from_content("## `Code` title"), "code-title");
    assert_eq!(
        id_from_content("## title <span dir=rtl>foo</span>"),
        "title-foo"
    );
}

#[test]
fn it_generates_anchors_from_non_ascii_initial() {
    assert_eq!(
        id_from_content("## `--passes`: add more rustdoc passes"),
        "--passes-add-more-rustdoc-passes"
    );
    assert_eq!(
        id_from_content("## 中文標題 CJK title"),
        "中文標題-cjk-title"
    );
    assert_eq!(id_from_content("## Über"), "Über");
}

#[test]
fn it_normalizes_ids() {
    assert_eq!(
        normalize_id("`--passes`: add more rustdoc passes"),
        "--passes-add-more-rustdoc-passes"
    );
    assert_eq!(
        normalize_id("Method-call 🐙 expressions \u{1f47c}"),
        "method-call--expressions-"
    );
    assert_eq!(normalize_id("_-_12345"), "_-_12345");
    assert_eq!(normalize_id("12345"), "12345");
    assert_eq!(normalize_id("中文"), "中文");
    assert_eq!(normalize_id("にほんご"), "にほんご");
    assert_eq!(normalize_id("한국어"), "한국어");
    assert_eq!(normalize_id(""), "");
}

#[test]
fn it_generates_unique_ids_from_content() {
    // Same id if not given shared state
    assert_eq!(
        unique_id_from_content("## 中文標題 CJK title", &mut Default::default()),
        "中文標題-cjk-title"
    );
    assert_eq!(
        unique_id_from_content("## 中文標題 CJK title", &mut Default::default()),
        "中文標題-cjk-title"
    );

    // Different id if given shared state
    let mut id_counter = Default::default();
    assert_eq!(unique_id_from_content("## Über", &mut id_counter), "Über");
    assert_eq!(
        unique_id_from_content("## 中文標題 CJK title", &mut id_counter),
        "中文標題-cjk-title"
    );
    assert_eq!(unique_id_from_content("## Über", &mut id_counter), "Über-1");
    assert_eq!(unique_id_from_content("## Über", &mut id_counter), "Über-2");
}

#[test]
fn counter_counts_each_identifier() {
    let mut counter = IdCounter::new();
    assert_eq!(counter.count("intro"), 0);
    assert_eq!(unique_id_from_content("# Intro", &mut counter), "intro");
    assert_eq!(counter.count("intro"), 1);
    assert_eq!(unique_id_from_content("# Other", &mut counter), "other");
    assert_eq!(counter.count("intro"), 1);
    assert_eq!(counter.count("other"), 1);
    for n in 1..12 {
        assert_eq!(
            unique_id_from_content("# Intro", &mut counter),
            format!("intro-{}", n)
        );
    }
    assert_eq!(counter.count("intro"), 12);
}

#[test]
fn tags_and_escapes_are_left_out_of_identifiers() {
    assert_eq!(id_from_content("## &lt;tag&gt; &amp; more"), "tag--more");
    assert_eq!(id_from_content("a <b>bold</b> <i>move</i>"), "a-bold-move");
    assert_eq!(id_from_content("a < b"), "a--b");
    assert_eq!(id_from_content("a <b\nc> d"), "a-b-c-d");
    assert_eq!(id_from_content("&am&lt;p;x"), "x");
    assert_eq!(id_from_content("  ## # Title  "), "-title");
    assert_eq!(id_from_content("it&#39;s &quot;here&quot;"), "its-here");
    assert_eq!(id_from_content(""), "");
}

#[test]
fn an_identifier_is_given_out_while_the_counter_can_count() {
    let mut counter = IdCounter::new();
    assert_eq!(
        checked_unique_id_from_content("# Title", &mut counter),
        Some("title".to_string())
    );
    assert_eq!(
        checked_unique_id_from_content("# Title", &mut counter),
        Some("title-1".to_string())
    );
    assert_eq!(counter.count("title"), 2);
    assert_eq!(unique_id_from_content("Title", &mut counter), "title-2");
}

#[test]
fn a_heading_that_looks_numbered_is_counted_for_itself() {
    let mut counter = IdCounter::new();
    assert_eq!(unique_id_from_content("foo", &mut counter), "foo");
    assert_eq!(unique_id_from_content("foo", &mut counter), "foo-1");
    assert_eq!(unique_id_from_content("foo-1", &mut counter), "foo-1");
    assert_eq!(unique_id_from_content("foo-1", &mut counter), "foo-1-1");
    assert_eq!(unique_id_from_content("foo", &mut counter), "foo-2");
}
