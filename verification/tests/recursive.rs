use agentic_navigation_guide::errors::{AppError, SemanticError};
use agentic_navigation_guide::entry_type::SupportedEntryKind;
use agentic_navigation_guide::errors::SyntaxError;
use agentic_navigation_guide::guide_check::{DirEntry, DirListing, Listing};
use agentic_navigation_guide::recursive::{
    child_action, discovery_setup, display_results, render_results, verify_single_guide,
    ChildAction, DiscoveryFailure, GuideVerificationResult, Stream, VerificationAggregate,
};
use std::path::PathBuf;
use agentic_navigation_guide::types::{Config, ExecutionMode, LogLevel};

#[test]
fn empty_result_slice_is_an_absent_failure_not_vacuous_success() {
    let config = Config {
        log_level: LogLevel::Quiet,
        ..Config::default()
    };

    let aggregate = VerificationAggregate::from_results(&[]);
    assert_eq!(
        aggregate,
        VerificationAggregate {
            discovered: 0,
            passed: 0,
            failed: 0,
            ignored: 0,
            absent: 1,
        }
    );
    assert!(!display_results(&[], &config).expect("render empty result"));
}

fn result(guide: &str, success: bool, ignored: bool, error: Option<AppError>) -> GuideVerificationResult {
    GuideVerificationResult {
        guide: guide.to_string(),
        root: "./".to_string(),
        success,
        error,
        ignored,
    }
}

#[test]
fn aggregate_counts_each_outcome_once() {
    let results = vec![
        result("a/GUIDE.md", true, false, None),
        result("b/GUIDE.md", true, true, None),
        result(
            "c/GUIDE.md",
            false,
            false,
            Some(AppError::Semantic(SemanticError::PermissionDenied {
                line: 3,
                path: "x".to_string(),
            })),
        ),
    ];
    let aggregate = VerificationAggregate::from_results(&results);
    assert_eq!(
        aggregate,
        VerificationAggregate {
            discovered: 3,
            passed: 1,
            failed: 1,
            ignored: 1,
            absent: 0,
        }
    );
    assert_eq!(
        aggregate.summary(),
        "Total: 3, Discovered: 3, Passed: 1, Failed: 1, Ignored: 1, Absent: 0"
    );
}

#[test]
fn default_report_lists_failures_and_the_summary() {
    let results = vec![
        result("a/GUIDE.md", true, false, None),
        result(
            "c/GUIDE.md",
            false,
            false,
            Some(AppError::Other("boom".to_string())),
        ),
    ];
    let (lines, ok) = render_results(&results, &Config::default());
    assert!(!ok);
    let texts = lines.iter().map(|l| (l.stream, l.text.as_str())).collect::<Vec<_>>();
    assert_eq!(
        texts,
        vec![
            (Stream::Stderr, "✗ c/GUIDE.md:"),
            (Stream::Stderr, "boom"),
            (Stream::Stderr, ""),
            (Stream::Stderr, "✗ Some navigation guides failed verification"),
            (
                Stream::Stderr,
                "  Total: 2, Discovered: 2, Passed: 1, Failed: 1, Ignored: 0, Absent: 0"
            ),
        ]
    );
}

#[test]
fn github_report_of_a_passing_run() {
    let results = vec![result("GUIDE.md", true, false, None)];
    let config = Config {
        execution_mode: ExecutionMode::GitHubActions,
        ..Config::default()
    };
    let (lines, ok) = render_results(&results, &config);
    assert!(ok);
    assert_eq!(lines.len(), 2);
    assert_eq!(lines[0].text, "✓ GUIDE.md: verified");
    assert_eq!(
        lines[1].text,
        "✓ All navigation guides verified (Total: 1, Discovered: 1, Passed: 1, Failed: 0, Ignored: 0, Absent: 0)"
    );
}

#[test]
fn absent_run_reports_zero_guides_unless_quiet() {
    let (lines, ok) = render_results(&[], &Config::default());
    assert!(!ok);
    assert_eq!(lines.len(), 2);
    assert_eq!(lines[0].text, "zero navigation guides were verified");
    assert_eq!(lines[0].stream, Stream::Stderr);
}

#[test]
fn github_report_of_a_failure_uses_the_ci_diagnostic() {
    let results = vec![result(
        "docs/GUIDE.md",
        false,
        false,
        Some(AppError::Semantic(SemanticError::PermissionDenied {
            line: 4,
            path: "secret".to_string(),
        })),
    )];
    let config = Config {
        execution_mode: ExecutionMode::GitHubActions,
        ..Config::default()
    };
    let (lines, ok) = render_results(&results, &config);
    assert!(!ok);
    assert_eq!(
        lines[0].text,
        "❌ Navigation guide verification failed\n\ndocs/GUIDE.md:4: semantic error: line 4: permission denied accessing 'secret'\n"
    );
    assert_eq!(lines[0].stream, Stream::Stderr);
    assert_eq!(
        lines[1].text,
        "❌ Navigation guide verification failed: Total: 1, Discovered: 1, Passed: 0, Failed: 1, Ignored: 0, Absent: 0"
    );
}

#[test]
fn post_tool_use_report_explains_an_out_of_date_guide() {
    let mut failed = result(
        "docs/GUIDE.md",
        false,
        false,
        Some(AppError::Semantic(SemanticError::PermissionDenied {
            line: 4,
            path: "secret".to_string(),
        })),
    );
    failed.root = "docs".to_string();
    let config = Config {
        execution_mode: ExecutionMode::PostToolUse,
        log_level: LogLevel::Quiet,
        ..Config::default()
    };
    let (lines, ok) = render_results(&[failed], &config);
    assert!(!ok);
    assert_eq!(lines.len(), 1);
    assert_eq!(
        lines[0].text,
        "The agentic navigation guide has become out-of-date vis-a-vis the current state of the file system.\n\n- guide: docs/GUIDE.md\n- root: docs\n- details:\n  - line 4: permission denied accessing 'secret'"
    );
}

#[test]
fn ignored_results_are_warned_about_and_do_not_fail_the_run() {
    let results = vec![result("GUIDE.md", true, true, None)];
    let (lines, ok) = render_results(&results, &Config::default());
    assert!(ok);
    assert_eq!(
        lines[0].text,
        "Warning: Skipping verification of GUIDE.md (marked with ignore=true)"
    );
    assert_eq!(
        lines[1].text,
        "No navigation guides were verified; ignored guides were discovered"
    );
}

fn listing(directory: &str, names: &[(&str, SupportedEntryKind)]) -> DirListing {
    DirListing {
        resolved: Vec::new(),
        directory: directory.to_string(),
        listing: Listing::Entries(
            names
                .iter()
                .map(|(name, kind)| DirEntry {
                    name: name.as_bytes().to_vec(),
                    kind: Ok(*kind),
                })
                .collect(),
        ),
    }
}

#[test]
fn a_single_guide_is_parsed_then_checked_against_its_listings() {
    let content = "<agentic-navigation-guide>\n- src/\n- README.md\n</agentic-navigation-guide>";
    let listings = vec![listing(
        "",
        &[
            ("src", SupportedEntryKind::Directory),
            ("README.md", SupportedEntryKind::RegularFile),
        ],
    )];
    let r = verify_single_guide(
        "GUIDE.md".to_string(),
        "./".to_string(),
        content,
        PathBuf::from("."),
        &listings,
    );
    assert!(r.success && !r.ignored && r.error.is_none());
    assert_eq!(r.guide, "GUIDE.md");
    assert_eq!(r.root, "./");

    let missing = vec![listing("", &[("src", SupportedEntryKind::Directory)])];
    let r = verify_single_guide(
        "GUIDE.md".to_string(),
        "./".to_string(),
        content,
        PathBuf::from("."),
        &missing,
    );
    assert!(!r.success && !r.ignored);
    assert!(matches!(
        r.error,
        Some(AppError::Semantic(SemanticError::ItemNotFound { line: 3, .. }))
    ));
}

#[test]
fn a_single_guide_that_does_not_parse_fails_with_its_syntax_error() {
    let r = verify_single_guide(
        "GUIDE.md".to_string(),
        "./".to_string(),
        "no guide here",
        PathBuf::from("."),
        &[],
    );
    assert!(!r.success && !r.ignored);
    assert!(matches!(
        r.error,
        Some(AppError::Syntax(SyntaxError::MissingOpeningMarker { .. }))
    ));
}

#[test]
fn an_ignored_single_guide_is_not_checked() {
    let r = verify_single_guide(
        "GUIDE.md".to_string(),
        "./".to_string(),
        "<agentic-navigation-guide ignore=true>\n- missing.txt\n</agentic-navigation-guide>",
        PathBuf::from("."),
        &[],
    );
    assert!(r.success && r.ignored && r.error.is_none());
}

#[test]
fn discovered_entries_are_classified_by_name_link_and_kind() {
    let name = "AGENTIC_NAVIGATION_GUIDE.md";
    assert_eq!(child_action(name.as_bytes(), name, false, false), ChildAction::Guide);
    assert_eq!(child_action(name.as_bytes(), name, true, false), ChildAction::CheckLink);
    assert_eq!(child_action(b"src", name, false, true), ChildAction::Descend);
    assert_eq!(child_action(b"src", name, true, true), ChildAction::Skip);
    assert_eq!(child_action(b"notes.md", name, false, false), ChildAction::Skip);
    // A directory named like the guide is a guide candidate, as the name decides first.
    assert_eq!(child_action(name.as_bytes(), name, false, true), ChildAction::Guide);
    assert_eq!(child_action(b"agentic_navigation_guide.md", name, false, false), ChildAction::Skip);
}

#[test]
fn discovery_checks_the_name_before_the_patterns() {
    let bad_pattern = vec!["[".to_string()];
    match discovery_setup("a/b", "\"a/b\"", &bad_pattern) {
        Err(AppError::Other(m)) => assert_eq!(
            m,
            "invalid implicit guide name \"a/b\": directory separators are not allowed"
        ),
        _ => panic!("expected a name error"),
    }
    assert!(matches!(
        discovery_setup("GUIDE.md", "\"GUIDE.md\"", &bad_pattern),
        Err(AppError::Other(_))
    ));
    let matcher = discovery_setup("GUIDE.md", "\"GUIDE.md\"", &["target".to_string()])
        .expect("valid setup");
    assert_eq!(matcher.is_match(&[b"target".to_vec()]).ok(), Some(true));
    assert_eq!(matcher.is_match(&[b"src".to_vec()]).ok(), Some(false));
}

#[test]
fn discovery_failures_name_the_directory_that_failed() {
    let root = DiscoveryFailure::Unenumerable {
        root: "repo".to_string(),
        directory: None,
        kind: "PermissionDenied".to_string(),
    };
    assert_eq!(
        root.message(),
        "filesystem walk error: could not enumerate the selected recursive root repo (PermissionDenied)"
    );
    let nested = DiscoveryFailure::Unenumerable {
        root: "repo".to_string(),
        directory: Some("src/deep".to_string()),
        kind: "PermissionDenied".to_string(),
    };
    assert_eq!(
        nested.message(),
        "filesystem walk error: could not enumerate included directory src/deep (PermissionDenied)"
    );
    assert_eq!(
        DiscoveryFailure::RootNotDirectory {
            root: "file.txt".to_string()
        }
        .message(),
        "filesystem walk error: the selected recursive root file.txt is not a directory"
    );
    assert_eq!(
        DiscoveryFailure::EntryUninspectable {
            entry: "src/x".to_string(),
            kind: "NotFound".to_string()
        }
        .into_error(),
        AppError::Other("filesystem walk error: could not inspect included entry src/x (NotFound)".to_string())
    );
    assert_eq!(
        DiscoveryFailure::RootUninspectable {
            root: "gone".to_string(),
            kind: "NotFound".to_string()
        }
        .message(),
        "filesystem walk error: could not inspect the selected recursive root gone (NotFound)"
    );
}
