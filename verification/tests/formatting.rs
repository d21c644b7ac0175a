//! End-to-end checks of the formatter on concrete inputs.

use diag_pretty::printer::pretty_print;

fn fmt(input: &[u8], width: usize) -> String {
    let out = pretty_print(input, width);
    out.iter().map(|&b| b as char).collect()
}

#[test]
fn empty_input_gives_empty_output() {
    assert_eq!(fmt(b"", 2), "");
}

#[test]
fn empty_map_collapses() {
    assert_eq!(fmt(b"{}", 2), "{}");
}

#[test]
fn empty_array_collapses() {
    assert_eq!(fmt(b"[]", 2), "[]");
}

#[test]
fn empty_array_value_collapses() {
    assert_eq!(fmt(b"{\"a\":[]}", 2), "{\n  \"a\": []\n}");
}

#[test]
fn comma_and_colon_spacing() {
    assert_eq!(fmt(b"{\"a\":1,\"b\":2}", 2), "{\n  \"a\": 1,\n  \"b\": 2\n}");
}

#[test]
fn nested_indentation_scales_with_depth() {
    assert_eq!(fmt(b"[1,[2,3]]", 2), "[\n  1,\n  [\n    2,\n    3\n  ]\n]");
}

#[test]
fn indent_width_four_doubles_every_run() {
    assert_eq!(
        fmt(b"[1,[2,3]]", 4),
        "[\n    1,\n    [\n        2,\n        3\n    ]\n]"
    );
}

#[test]
fn indent_width_zero_breaks_without_spaces() {
    assert_eq!(fmt(b"[1,2]", 0), "[\n1,\n2\n]");
}

#[test]
fn colon_gains_exactly_one_space() {
    assert_eq!(fmt(b"\"key\":value", 2), "\"key\": value");
}

#[test]
fn stray_spaces_outside_strings_are_dropped() {
    assert_eq!(fmt(b"{ \"a\" : 1 }", 2), fmt(b"{\"a\":1}", 2));
}

#[test]
fn stray_spaces_dropped_at_other_widths_too() {
    assert_eq!(fmt(b"{ \"a\" : 1 }", 5), fmt(b"{\"a\":1}", 5));
}

#[test]
fn string_contents_are_masked() {
    // Structural bytes inside a string literal are copied untouched.
    assert_eq!(fmt(b"\"a, b: c\"", 2), "\"a, b: c\"");
}

#[test]
fn string_with_braces_is_masked() {
    assert_eq!(fmt(b"[\"{x, y}\",1]", 2), "[\n  \"{x, y}\",\n  1\n]");
}

#[test]
fn escaped_quote_stays_inside_string() {
    assert_eq!(fmt(b"[\"a\\\"b\",1]", 2), "[\n  \"a\\\"b\",\n  1\n]");
}

#[test]
fn backslash_before_closing_quote_keeps_string_open() {
    // Known two-state simplification: the quote after an escaped backslash
    // is treated as escaped, so the rest of the input stays in string mode
    // and is copied verbatim.
    assert_eq!(fmt(b"[\"a\\\\\",1]", 2), "[\n  \"a\\\\\",1]");
}

#[test]
fn unmatched_close_saturates_at_depth_zero() {
    assert_eq!(fmt(b"}", 2), "}");
    assert_eq!(fmt(b"}]", 2), "}\n]");
}

#[test]
fn space_inside_empty_container_defeats_collapse() {
    // The empty-container check looks at the literal neighbouring byte, so
    // a space between the brackets still produces a break on each side.
    assert_eq!(fmt(b"{ }", 2), "{\n  \n}");
}

#[test]
fn deep_nesting_indents_per_level() {
    assert_eq!(fmt(b"[[[1]]]", 1), "[\n [\n  [\n   1\n  ]\n ]\n]");
}
