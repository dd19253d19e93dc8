use starpls_custom::glob::glob_component_matches;
use starpls_custom::glob::glob_matches;
use starpls_custom::glob::glob_segments_match;

#[test]
fn matches_supported_glob_patterns() {
    assert!(glob_matches("**/*.star", "main.star"));
    assert!(glob_matches("**/*.star", "pkg/nested/main.star"));
    assert!(glob_matches("pkg/*.star", "pkg/main.star"));
    assert!(!glob_matches("pkg/*.star", "pkg/nested/main.star"));
    assert!(glob_matches("pkg/??.star", "pkg/ab.star"));
    assert!(!glob_matches("pkg/??.star", "pkg/abc.star"));
}

#[test]
fn component_star_matches_any_run() {
    assert!(glob_component_matches(b"*", b""));
    assert!(glob_component_matches(b"*", b"anything"));
    assert!(glob_component_matches(b"a*b*c", b"aXXbYYc"));
    assert!(glob_component_matches(b"a*b*c", b"abc"));
    assert!(!glob_component_matches(b"a*b*c", b"aXXbYY"));
    assert!(glob_component_matches(b"*.star", b"x.star.star"));
    assert!(glob_component_matches(b"**", b"abc"));
}

#[test]
fn component_question_mark_matches_one_byte() {
    assert!(glob_component_matches(b"?", b"a"));
    assert!(!glob_component_matches(b"?", b""));
    assert!(!glob_component_matches(b"?", b"ab"));
    // `?` stands for one byte, so a two-byte character needs two of them
    assert!(glob_component_matches("??".as_bytes(), "é".as_bytes()));
    assert!(!glob_component_matches("?".as_bytes(), "é".as_bytes()));
}

#[test]
fn component_plain_pattern_matches_only_itself() {
    assert!(glob_component_matches(b"main.star", b"main.star"));
    assert!(!glob_component_matches(b"main.star", b"main.sta"));
    assert!(!glob_component_matches(b"main.star", b"main.stars"));
    assert!(glob_component_matches(b"", b""));
    assert!(!glob_component_matches(b"", b"a"));
}

#[test]
fn component_star_matches_text_holding_stars() {
    assert!(glob_component_matches(b"*", b"*x"));
    assert!(glob_component_matches(b"*a", b"*ba"));
    assert!(glob_component_matches(b"*a", b"ba"));
    assert!(glob_component_matches(b"*", b"*"));
    assert!(glob_component_matches(b"a*", b"a**"));
    assert!(!glob_component_matches(b"*a", b"*b"));
    assert!(glob_matches("pkg/*", "pkg/*x"));
}

fn segments_of<'a>(parts: &[&'a str]) -> Vec<&'a [u8]> {
    parts.iter().map(|p| p.as_bytes()).collect()
}

#[test]
fn double_star_spans_any_number_of_segments() {
    let pattern = segments_of(&["**", "x"]);
    let none = segments_of(&["x"]);
    let two = segments_of(&["a", "b", "x"]);
    let wrong = segments_of(&["a", "b", "y"]);
    assert!(glob_segments_match(&pattern, &none));
    assert!(glob_segments_match(&pattern, &two));
    assert!(!glob_segments_match(&pattern, &wrong));
    let only = segments_of(&["**"]);
    let empty: Vec<&[u8]> = vec![];
    assert!(glob_segments_match(&only, &empty));
    assert!(!glob_segments_match(&empty, &none));
    assert!(glob_segments_match(&empty, &empty));
}

#[test]
fn glob_splits_at_every_slash() {
    assert!(glob_matches("pkg//a.star", "pkg//a.star"));
    assert!(!glob_matches("pkg/a.star", "pkg//a.star"));
    assert!(glob_matches("**", ""));
    assert!(glob_matches("", ""));
    assert!(!glob_matches("*", "a/b"));
    assert!(glob_matches("*/*", "a/b"));
    assert!(glob_matches("rendering/**/*.star", "rendering/a/b/c.star"));
    assert!(!glob_matches("rendering/**/*.star", "workflows/c.star"));
}

#[test]
fn adding_wildcards_keeps_a_match() {
    assert!(glob_component_matches(b"main.star", b"main.star"));
    assert!(glob_component_matches(b"main*.star", b"main.star"));
    assert!(glob_component_matches(b"ma?n.star", b"main.star"));
    assert!(glob_component_matches(b"*main.star*", b"main.star"));
    assert!(glob_component_matches(b"a?*", b"ab"));
}
