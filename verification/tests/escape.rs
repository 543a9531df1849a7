use mdbook_markdown::{bracket_escape, special_escape};

#[test]
fn escaped_brackets() {
    assert_eq!(bracket_escape(""), "");
    assert_eq!(bracket_escape("<"), "&lt;");
    assert_eq!(bracket_escape(">"), "&gt;");
    assert_eq!(bracket_escape("<>"), "&lt;&gt;");
    assert_eq!(bracket_escape("<test>"), "&lt;test&gt;");
    assert_eq!(bracket_escape("a<test>b"), "a&lt;test&gt;b");
    assert_eq!(bracket_escape("'"), "'");
    assert_eq!(bracket_escape("\\"), "\\");
}

#[test]
fn escaped_special() {
    assert_eq!(special_escape(""), "");
    assert_eq!(special_escape("<"), "&lt;");
    assert_eq!(special_escape(">"), "&gt;");
    assert_eq!(special_escape("<>"), "&lt;&gt;");
    assert_eq!(special_escape("<test>"), "&lt;test&gt;");
    assert_eq!(special_escape("a<test>b"), "a&lt;test&gt;b");
    assert_eq!(special_escape("'"), "&#39;");
    assert_eq!(special_escape("\\"), "&#92;");
    assert_eq!(special_escape("&"), "&amp;");
}

#[test]
fn escapes_every_special_character_in_place() {
    assert_eq!(special_escape("\""), "&quot;");
    assert_eq!(
        special_escape("a&b\"c'd\\e<f>g"),
        "a&amp;b&quot;c&#39;d&#92;e&lt;f&gt;g"
    );
    assert_eq!(bracket_escape("a&b\"c<d>"), "a&b\"c&lt;d&gt;");
    assert_eq!(special_escape("é<ü"), "é&lt;ü");
}
