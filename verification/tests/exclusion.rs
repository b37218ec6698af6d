use agentic_navigation_guide::exclusion::ExclusionMatcher;
use std::path::PathBuf;
fn matcher(patterns: &[&str]) -> ExclusionMatcher {
    ExclusionMatcher::compile(
        &patterns
            .iter()
            .map(|pattern| (*pattern).to_string())
            .collect::<Vec<_>>(),
    )
    .expect("valid patterns")
}

fn matches(matcher: &ExclusionMatcher, components: &[&str]) -> bool {
    let components = components
        .iter()
        .map(|component| component.chars().collect::<Vec<char>>())
        .collect::<Vec<_>>();
    matcher.matches_components(&components)
}

#[test]
fn issue_44_basename_and_root_relative_truth_table() {
    let basename = matcher(&["target"]);
    assert!(matches(&basename, &["target"]));
    assert!(matches(&basename, &["project", "target"]));
    assert!(!matches(&basename, &["targets"]));

    let temporary = matcher(&["*.tmp"]);
    assert!(matches(&temporary, &["nested", "a.tmp"]));
    assert!(!matches(&temporary, &["nested", "a.tmp.keep"]));

    let root_relative = matcher(&["project/target"]);
    assert!(matches(&root_relative, &["project", "target"]));
    assert!(!matches(&root_relative, &["other", "project", "target"]));
    assert!(!matches(&root_relative, &["project", "target", "file"]));
}

#[test]
fn issue_44_component_wildcards_and_globstar_are_distinct() {
    let one = matcher(&["projects/*/target"]);
    assert!(matches(&one, &["projects", "a", "target"]));
    assert!(!matches(&one, &["projects", "a", "b", "target"]));

    let recursive = matcher(&["projects/**/target"]);
    assert!(matches(&recursive, &["projects", "target"]));
    assert!(matches(&recursive, &["projects", "a", "b", "target"]));
    assert!(!matches(&recursive, &["projects", "a", "target", "file"]));

    let trailing = matcher(&["project/**"]);
    assert!(matches(&trailing, &["project"]));
    assert!(matches(&trailing, &["project", "a", "b"]));

    let all = matcher(&["**"]);
    assert!(matches(&all, &["one"]));
    assert!(matches(&all, &["one", "two"]));
}

#[test]
fn issue_44_segment_tokens_match_unicode_scalars_exactly() {
    let one = matcher(&["?"]);
    assert!(matches(&one, &["é"]));
    assert!(!matches(&one, &["éé"]));

    let range = matcher(&["[α-ω]"]);
    assert!(matches(&range, &["λ"]));
    assert!(!matches(&range, &["A"]));

    let negated = matcher(&["[!0-9]"]);
    assert!(matches(&negated, &["x"]));
    assert!(!matches(&negated, &["7"]));

    let caret_is_literal = matcher(&["[^]"]);
    assert!(matches(&caret_is_literal, &["^"]));
    assert!(!matches(&caret_is_literal, &["x"]));
}

#[test]
fn issue_44_matching_is_exact_case_sensitive_and_normalization_preserving() {
    let exact = matcher(&["target"]);
    assert!(!matches(&exact, &["TARGET"]));
    assert!(!matches(&exact, &["targets"]));

    let composed = matcher(&["é"]);
    assert!(matches(&composed, &["é"]));
    assert!(!matches(&composed, &["e\u{301}"]));

    let dot = matcher(&["*"]);
    assert!(matches(&dot, &[".git"]));
}

#[test]
fn issue_44_escapes_and_other_literals_follow_only_the_contract() {
    let escaped = matcher(&[r"\*\?\[\]\\"]);
    assert!(matches(&escaped, &[r"*?[]\"]));

    let class_escaped = matcher(&[r"[\]\-\\]"]);
    for value in ["]", "-", r"\"] {
        assert!(matches(&class_escaped, &[value]));
    }
    assert!(!matches(&class_escaped, &["x"]));

    let literals = matcher(&["{one,two}", "!target"]);
    assert!(matches(&literals, &["{one,two}"]));
    assert!(matches(&literals, &["!target"]));
    assert!(!matches(&literals, &["one"]));
    assert!(!matches(&literals, &["target"]));

    let escaped_adjacent_stars = matcher(&[r"\**", r"*\*"]);
    assert!(matches(&escaped_adjacent_stars, &["*suffix"]));
    assert!(matches(&escaped_adjacent_stars, &["prefix*"]));
}

#[test]
fn issue_44_multiple_patterns_are_a_union() {
    let union = matcher(&["target", "*.tmp", "project/generated"]);
    assert!(matches(&union, &["nested", "target"]));
    assert!(matches(&union, &["nested", "file.tmp"]));
    assert!(matches(&union, &["project", "generated"]));
    assert!(!matches(&union, &["project", "keep"]));
}

#[test]
fn issue_44_invalid_forms_are_rejected_during_compilation() {
    for pattern in [
        "",
        "/a",
        "a/",
        "a//b",
        ".",
        "..",
        "a/./b",
        "a/../b",
        "***",
        "a/**b",
        "a/b**",
        "a/***/b",
        "[]",
        "[!]",
        "[",
        "[z-a]",
        "[-a]",
        "[a-]",
        "[a--]",
        "[/]",
        r"[\q]",
        "unescaped]",
        "\\",
        "\\q",
    ] {
        let error = ExclusionMatcher::compile(&[pattern.to_string()])
            .err()
            .unwrap_or_else(|| panic!("invalid pattern {pattern:?} was accepted"));
        assert!(
            error.message().contains("invalid glob pattern"),
            "{pattern:?}: {}",
            error.message()
        );
    }
}

#[test]
fn issue_44_one_invalid_pattern_rejects_the_union() {
    assert!(ExclusionMatcher::compile(&["target".to_string(), "a/**b".to_string()]).is_err());
}

#[test]
fn issue_44_invalid_pattern_diagnostics_escape_controls() {
    let diagnostic = ExclusionMatcher::compile(&["\\\n".to_string()])
        .err()
        .expect("unknown control escape must reject")
        .message();
    assert!(!diagnostic.contains('\n'), "{diagnostic:?}");
    assert!(diagnostic.contains("\\n"), "{diagnostic:?}");
}

#[test]
fn issue_44_invalid_pattern_diagnostics_are_bounded() {
    let pattern = format!("{}\\q", "a".repeat(10_000));
    let diagnostic = ExclusionMatcher::compile(&[pattern])
        .err()
        .expect("unknown long escape must reject")
        .message();
    assert!(diagnostic.chars().count() < 600, "{}", diagnostic.len());
    assert!(diagnostic.contains('…'), "{diagnostic}");
}

#[test]
fn issue_44_physical_components_use_logical_slash_matching() {
    let matcher = matcher(&["project/target"]);
    let physical = PathBuf::from("project").join("target");
    let components = physical
        .components()
        .map(|component| component.as_os_str().as_encoded_bytes().to_vec())
        .collect::<Vec<_>>();
    assert!(matcher.is_match(&components).expect("UTF-8 physical path"));
}
