use mdbook_markdown::{collapse_whitespace, normalize_id};

/// Whether the character with this number has the property `White_Space`.
fn in_white_space(n: u32) -> bool {
    (0x09..=0x0D).contains(&n)
        || n == 0x20
        || n == 0x85
        || n == 0xA0
        || n == 0x1680
        || (0x2000..=0x200A).contains(&n)
        || n == 0x2028
        || n == 0x2029
        || n == 0x202F
        || n == 0x205F
        || n == 0x3000
}

#[test]
fn white_space_is_the_unicode_property_for_every_character() {
    let mut count = 0;
    for n in 0..=0x10FFFF_u32 {
        if let Some(c) = char::from_u32(n) {
            assert_eq!(c.is_whitespace(), in_white_space(n), "for U+{:04X}", n);
            if c.is_whitespace() {
                count += 1;
            }
        }
    }
    assert_eq!(count, 25);
}

#[test]
fn white_space_collapses_for_every_character() {
    for n in 0..=0x10FFFF_u32 {
        if let Some(c) = char::from_u32(n) {
            let text = format!("a{}{}b", c, c);
            if in_white_space(n) {
                assert_eq!(collapse_whitespace(&text), "a b", "for U+{:04X}", n);
            } else {
                assert_eq!(collapse_whitespace(&text), text, "for U+{:04X}", n);
            }
        }
    }
}

#[test]
fn ascii_capitals_become_small_in_identifiers() {
    for n in 0..128_u32 {
        let c = char::from_u32(n).unwrap();
        let id = normalize_id(&c.to_string());
        let expected = if c.is_ascii_alphanumeric() || c == '_' || c == '-' {
            c.to_ascii_lowercase().to_string()
        } else if in_white_space(n) {
            "-".to_string()
        } else {
            String::new()
        };
        assert_eq!(id, expected, "for U+{:04X}", n);
    }
    assert_eq!(normalize_id("ÀÉ"), "ÀÉ");
}
