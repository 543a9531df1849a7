use mdbook_markdown::{add_base, normalize_path, normalize_print_page_id};
use std::path::{Component, Path, PathBuf};

/// The normal form as `std::path` computes it on a system whose separator is
/// `/`, popping a component for each `..`. It agrees with the library where no
/// `..` follows a `..` that was kept.
fn with_std_path(path: &str) -> String {
    let ends_with_slash = path.ends_with('/');
    let mut normalized = PathBuf::new();
    for component in Path::new(path).components() {
        match &component {
            Component::ParentDir => {
                if !normalized.pop() {
                    normalized.push(component);
                }
            }
            Component::CurDir => {}
            _ => {
                normalized.push(component);
            }
        }
    }
    if ends_with_slash {
        normalized.push("");
    }
    normalized
        .to_str()
        .unwrap()
        .replace("\\", "/")
        .trim_start_matches('/')
        .to_string()
}

#[test]
fn normal_forms_of_relative_paths() {
    assert_eq!(normalize_path("a/b/../c"), "a/c");
    assert_eq!(normalize_path("a/./b"), "a/b");
    assert_eq!(normalize_path("./a"), "a");
    assert_eq!(normalize_path("a//b"), "a/b");
    assert_eq!(normalize_path("a/b/"), "a/b/");
    assert_eq!(normalize_path("/a/b"), "a/b");
    assert_eq!(normalize_path("../a"), "../a");
    assert_eq!(normalize_path("a/../../b"), "../b");
    assert_eq!(normalize_path("second/../../std/foo/bar.html"), "../std/foo/bar.html");
    assert_eq!(normalize_path("a\\b"), "a/b");
    assert_eq!(normalize_path(""), "");
    assert_eq!(normalize_path("."), "");
    assert_eq!(normalize_path("/"), "");
    assert_eq!(normalize_path("a/.."), "");
    assert_eq!(normalize_path("a/../"), "");
    assert_eq!(normalize_path(".."), "..");
    assert_eq!(normalize_path("../"), "../");
    assert_eq!(normalize_path("..."), "...");
}

#[test]
fn a_path_out_of_the_book_keeps_its_way_out() {
    assert_eq!(normalize_path("../.."), "../..");
    assert_eq!(normalize_path("../../a"), "../../a");
    assert_eq!(normalize_path("../../../a"), "../../../a");
    assert_eq!(normalize_path("a/../../../b"), "../../b");
    assert_eq!(normalize_path("../a/../.."), "../..");
    assert_eq!(normalize_path("/../../a/"), "../../a/");
    assert_eq!(normalize_path("../a/b/../c"), "../a/c");
    assert!(normalize_path("../../a").starts_with("../"));
    assert!(normalize_path("x/../../../a").starts_with("../"));
}

#[test]
fn a_normal_form_is_its_own_normal_form() {
    for path in ["a/./b/../c/", "../../a", "x/../../y//z", "/a/b", "..", "", "./", "a/.."] {
        let once = normalize_path(path);
        assert_eq!(normalize_path(&once), once, "for {:?}", path);
    }
}

#[test]
fn normal_forms_agree_with_std_path() {
    let samples = [
        "",
        ".",
        "./",
        "a",
        "a/",
        "a/b/../c",
        "../a",
        "a/../../b",
        "/a/b",
        "/",
        "//a//b//",
        "a/./b",
        "./a",
        "a\\b",
        "\\a",
        "a/b/..",
        "a/b/../",
        "...",
        "a/.../b",
        "..",
        "../",
        "a/..",
        "a/../",
        "/..",
        "/../a",
        "a//",
        "über/straße/../x.md",
        "chapter/sub.md#frag",
        "a/b.html#x/../y",
        "./././a/./.",
        "a/b/c/../../../../d",
    ];
    for sample in samples {
        assert_eq!(normalize_path(sample), with_std_path(sample), "for {:?}", sample);
    }
}

#[test]
fn identifiers_of_pages_on_the_print_page() {
    assert_eq!(normalize_print_page_id("chapter/sub.html".to_string()), "chapter-sub");
    assert_eq!(
        normalize_print_page_id("chapter/sub.html#frag".to_string()),
        "chapter-sub-frag"
    );
    assert_eq!(normalize_print_page_id("Chapter/Sub".to_string()), "chapter-sub");
    assert_eq!(normalize_print_page_id("a#b#c".to_string()), "a-b-c");
    assert_eq!(normalize_print_page_id("A.HTML".to_string()), "a");
    assert_eq!(normalize_print_page_id("a.html.html".to_string()), "a.html");
    assert_eq!(normalize_print_page_id("".to_string()), "");
    assert_eq!(normalize_print_page_id(".html".to_string()), "");
}

#[test]
fn what_stands_before_a_relative_destination() {
    assert_eq!(add_base(None), "");
    assert_eq!(add_base(Some("page.md")), "");
    assert_eq!(add_base(Some("chapter/page.md")), "chapter/");
    assert_eq!(add_base(Some("a/b/page.md")), "a/b/");
    assert_eq!(add_base(Some("a//page.md")), "a/");
    assert_eq!(add_base(Some("")), "");
}

#[test]
fn directories_agree_with_std_path() {
    let samples = ["page.md", "chapter/page.md", "a/b/c.md", "a//c.md", "a/b/", "../x.md", "a/b"];
    for sample in samples {
        let parent = Path::new(sample).parent().unwrap().to_str().unwrap();
        let expected = if parent.is_empty() {
            String::new()
        } else {
            format!("{}/", parent)
        };
        assert_eq!(add_base(Some(sample)), expected, "for {:?}", sample);
    }
}
