use router_sync::jsonc::{normalize_jsonc, strip_jsonc_comments};

#[test]
fn line_comment_leaves_its_line_feed() {
    let input = "{\n  // models below\n  \"a\": 1\n}";
    assert_eq!(strip_jsonc_comments(input), "{\n  \n  \"a\": 1\n}");
}

#[test]
fn block_comment_vanishes() {
    assert_eq!(strip_jsonc_comments("{/* x */\"a\":1}"), "{\"a\":1}");
    assert_eq!(strip_jsonc_comments("[1,/***/2]"), "[1,2]");
}

#[test]
fn slashes_inside_strings_are_text() {
    let input = "{\"url\": \"https://ai.bocahdigital.com//v1/*x*/\"}";
    assert_eq!(strip_jsonc_comments(input), input);
}

#[test]
fn escaped_quote_keeps_the_string_open() {
    let input = "\"a\\\"//b\" // gone";
    assert_eq!(strip_jsonc_comments(input), "\"a\\\"//b\" ");
}

#[test]
fn unterminated_comments_run_to_the_end() {
    assert_eq!(strip_jsonc_comments("[1] /* open"), "[1] ");
    assert_eq!(strip_jsonc_comments("[1] // no newline"), "[1] ");
    assert_eq!(strip_jsonc_comments("/*/ still open"), "");
}

#[test]
fn lone_slash_is_kept() {
    assert_eq!(strip_jsonc_comments("a / b"), "a / b");
    assert_eq!(strip_jsonc_comments("/"), "/");
}

#[test]
fn trailing_commas_are_removed() {
    assert_eq!(normalize_jsonc("[1, 2, ]"), "[1, 2 ]");
    assert_eq!(normalize_jsonc("{\"a\": 1,\n}"), "{\"a\": 1\n}");
    assert_eq!(normalize_jsonc("[1,"), "[1");
}

#[test]
fn inner_commas_and_string_commas_stay() {
    assert_eq!(normalize_jsonc("[1, 2]"), "[1, 2]");
    assert_eq!(normalize_jsonc("[\"a,]\", 2]"), "[\"a,]\", 2]");
}

#[test]
fn comments_go_before_commas_are_judged() {
    let input = "{\n  \"a\": 1, // last one\n}";
    assert_eq!(normalize_jsonc(input), "{\n  \"a\": 1 \n}");
    assert_eq!(normalize_jsonc("[1, /* c */ ]"), "[1  ]");
}

#[test]
fn zed_settings_become_plain_json() {
    let input = "// Zed settings\n{\n  \"theme\": \"One Dark\", /* x */\n  \"list\": [1, 2,],\n}\n";
    let out = normalize_jsonc(input);
    assert_eq!(out, "\n{\n  \"theme\": \"One Dark\", \n  \"list\": [1, 2]\n}\n");
    let value: serde_json::Value = serde_json::from_str(&out).unwrap();
    assert_eq!(value["list"][1], 2);
}

#[test]
fn text_without_slashes_is_unchanged() {
    let input = "{\n  \"a\": [1, 2, 3],\n  \"b\": {\"c\": \"d\"}\n}\n";
    assert_eq!(strip_jsonc_comments(input), input);
    assert_eq!(normalize_jsonc(input), input);
}

#[test]
fn normalizing_removes_only_commas() {
    let input = "[1, 2, ] {\"x\": [3,],\n}";
    let out = normalize_jsonc(input);
    let strip = |t: &str| t.chars().filter(|c| *c != ',').collect::<String>();
    assert_eq!(strip(&out), strip(input));
    assert_eq!(out, "[1, 2 ] {\"x\": [3]\n}");
}

#[test]
fn stripping_twice_is_stripping_once() {
    for input in ["a/ /*c*/ /b", "x//*c*//y\nz", "\"//\" /* a */ / \"\\\"/*\"", "/*/ */*/"] {
        let once = strip_jsonc_comments(input);
        assert_eq!(strip_jsonc_comments(&once), once);
    }
    assert_eq!(strip_jsonc_comments("a/ /*c*/ /b"), "a/  /b");
}

#[test]
fn unicode_whitespace_before_a_closing_bracket() {
    assert_eq!(normalize_jsonc("[1,\u{3000}\u{2028}]"), "[1\u{3000}\u{2028}]");
    assert_eq!(normalize_jsonc("[1,\u{200B}]"), "[1,\u{200B}]");
}

#[test]
fn whitespace_test_agrees_with_std() {
    for n in 0u32..=0x10FFFF {
        if let Some(c) = char::from_u32(n) {
            assert_eq!(router_sync::text::char_is_whitespace(c), c.is_whitespace(), "U+{:04X}", n);
        }
    }
}
