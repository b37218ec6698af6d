use agentic_navigation_guide::cli::CommandOutcome;
use agentic_navigation_guide::commands::{
    check_report, error_line_number, format_guide_error, guide_report, recursive_report,
    select_execution_mode, verify_report, CommandReport, GuideCommand,
};
use agentic_navigation_guide::entry_type::SupportedEntryKind;
use agentic_navigation_guide::errors::{AppError, SemanticError, SyntaxError};
use agentic_navigation_guide::guide_check::{DirEntry, DirListing, Listing};
use agentic_navigation_guide::recursive::{GuideVerificationResult, Stream};
use agentic_navigation_guide::types::{Config, ExecutionMode, LogLevel};
use std::path::PathBuf;

fn texts(report: &CommandReport) -> Vec<(Stream, String)> {
    report
        .lines
        .iter()
        .map(|line| (line.stream, line.text.clone()))
        .collect()
}

fn config(mode: ExecutionMode, level: LogLevel) -> Config {
    Config {
        execution_mode: mode,
        log_level: level,
        ..Config::default()
    }
}

fn outcome(guide: &str, success: bool, ignored: bool, error: Option<AppError>) -> GuideVerificationResult {
    GuideVerificationResult {
        guide: guide.to_string(),
        root: "./".to_string(),
        success,
        error,
        ignored,
    }
}

const VALID: &str = "<agentic-navigation-guide>\n- src/\n- README.md\n</agentic-navigation-guide>";
const IGNORED: &str = "<agentic-navigation-guide ignore=true>\nanything\n</agentic-navigation-guide>";

fn listings() -> Vec<DirListing> {
    vec![DirListing {
        resolved: Vec::new(),
        directory: String::new(),
        listing: Listing::Entries(vec![
            DirEntry {
                name: b"src".to_vec(),
                kind: Ok(SupportedEntryKind::Directory),
            },
            DirEntry {
                name: b"README.md".to_vec(),
                kind: Ok(SupportedEntryKind::RegularFile),
            },
        ]),
    }]
}

#[test]
fn a_hook_flag_selects_the_execution_mode() {
    let mut c = Config::default();
    select_execution_mode(&mut c, false, false, true);
    assert_eq!(c.execution_mode, ExecutionMode::GitHubActions);
    select_execution_mode(&mut c, true, true, true);
    assert_eq!(c.execution_mode, ExecutionMode::PostToolUse);
    let mut c = config(ExecutionMode::PreCommitHook, LogLevel::Quiet);
    select_execution_mode(&mut c, false, false, false);
    assert_eq!(c.execution_mode, ExecutionMode::PreCommitHook);
    assert_eq!(c.log_level, LogLevel::Quiet);
    select_execution_mode(&mut c, false, true, false);
    assert_eq!(c.execution_mode, ExecutionMode::PreCommitHook);
}

#[test]
fn error_lines_come_from_syntax_and_semantic_errors_only() {
    assert_eq!(
        error_line_number(&AppError::Syntax(SyntaxError::BlankLineInGuide { line: 7 })),
        Some(7)
    );
    assert_eq!(
        error_line_number(&AppError::Syntax(SyntaxError::EmptyGuideBlock)),
        None
    );
    assert_eq!(
        error_line_number(&AppError::Semantic(SemanticError::PermissionDenied {
            line: 3,
            path: "x".to_string()
        })),
        Some(3)
    );
    assert_eq!(error_line_number(&AppError::Other("x".to_string())), None);
}

#[test]
fn github_diagnostic_quotes_the_trimmed_guide_line() {
    let error = AppError::Syntax(SyntaxError::InvalidListFormat { line: 2 });
    let content = "<agentic-navigation-guide>\n  oops  \n</agentic-navigation-guide>";
    assert_eq!(
        format_guide_error(
            &error,
            ExecutionMode::GitHubActions,
            GuideCommand::Verify,
            "GUIDE.md",
            "./",
            Some(content)
        ),
        "❌ Navigation guide verification failed\n\nGUIDE.md:2: syntax error: line 2: invalid list format - must start with '-'\n    oops\n"
    );
    assert_eq!(
        format_guide_error(
            &error,
            ExecutionMode::GitHubActions,
            GuideCommand::Check,
            "GUIDE.md",
            "./",
            None
        ),
        "❌ Navigation guide syntax check failed\n\nGUIDE.md:2: syntax error: line 2: invalid list format - must start with '-'\n"
    );
    assert_eq!(
        format_guide_error(
            &AppError::Syntax(SyntaxError::EmptyGuideBlock),
            ExecutionMode::GitHubActions,
            GuideCommand::Check,
            "GUIDE.md",
            "./",
            None
        ),
        "❌ Navigation guide syntax check failed\n\nGUIDE.md: syntax error: empty navigation guide block\n"
    );
}

#[test]
fn post_tool_use_diagnostics_are_for_verify_only() {
    let error = AppError::Syntax(SyntaxError::InvalidListFormat { line: 2 });
    assert_eq!(
        format_guide_error(
            &error,
            ExecutionMode::PostToolUse,
            GuideCommand::Verify,
            "GUIDE.md",
            "./",
            None
        ),
        "The agentic navigation guide at GUIDE.md has a syntax error:\n\nline 2: invalid list format - must start with '-'"
    );
    assert_eq!(
        format_guide_error(
            &error,
            ExecutionMode::PostToolUse,
            GuideCommand::Check,
            "GUIDE.md",
            "./",
            None
        ),
        "line 2: invalid list format - must start with '-'"
    );
    assert_eq!(
        format_guide_error(
            &AppError::Other("plain".to_string()),
            ExecutionMode::PostToolUse,
            GuideCommand::Verify,
            "GUIDE.md",
            "./",
            None
        ),
        "plain"
    );
}

#[test]
fn default_diagnostic_adds_the_line_context() {
    let error = AppError::Syntax(SyntaxError::InvalidListFormat { line: 2 });
    let content = "<agentic-navigation-guide>\n  oops  \n</agentic-navigation-guide>";
    assert_eq!(
        format_guide_error(
            &error,
            ExecutionMode::Default,
            GuideCommand::Verify,
            "GUIDE.md",
            "./",
            Some(content)
        ),
        "line 2: invalid list format - must start with '-'\n    oops"
    );
}

#[test]
fn a_failed_guide_prints_its_diagnostic_and_fails_with_its_error() {
    let error = AppError::Syntax(SyntaxError::BlankLineInGuide { line: 3 });
    let report = guide_report(
        GuideCommand::Check,
        outcome("GUIDE.md", false, false, Some(error)),
        ExecutionMode::Default,
        LogLevel::Quiet,
        false,
        true,
    );
    assert_eq!(
        texts(&report),
        vec![(
            Stream::Stderr,
            "line 3: blank lines are not allowed within the guide block".to_string()
        )]
    );
    assert_eq!(
        report.outcome,
        Err(AppError::Syntax(SyntaxError::BlankLineInGuide { line: 3 }))
    );
}

#[test]
fn an_ignored_guide_warns_and_follows_the_policy() {
    let report = guide_report(
        GuideCommand::Verify,
        outcome("AGENTIC_NAVIGATION_GUIDE.md", true, true, None),
        ExecutionMode::Default,
        LogLevel::Default,
        true,
        false,
    );
    assert_eq!(
        texts(&report),
        vec![
            (
                Stream::Stderr,
                "Warning: Skipping verification of AGENTIC_NAVIGATION_GUIDE.md (marked with ignore=true)"
                    .to_string()
            ),
            (
                Stream::Stderr,
                "Note: Standalone guide file is marked with ignore=true. This may be intentional for examples."
                    .to_string()
            ),
        ]
    );
    assert_eq!(report.outcome, Ok(CommandOutcome::Ignored { count: 1 }));

    let denied = guide_report(
        GuideCommand::Check,
        outcome("g.md", true, true, None),
        ExecutionMode::GitHubActions,
        LogLevel::Default,
        false,
        true,
    );
    assert_eq!(
        texts(&denied),
        vec![
            (
                Stream::Stderr,
                "⚠️  Skipping syntax check: guide at g.md has ignore=true".to_string()
            ),
            (
                Stream::Stderr,
                "--deny-ignored rejected the run because 1 ignored navigation guide was discovered"
                    .to_string()
            ),
        ]
    );
    assert_eq!(
        denied.outcome,
        Err(AppError::Other(
            "--deny-ignored rejected the run because 1 ignored navigation guide was discovered"
                .to_string()
        ))
    );
}

#[test]
fn check_confirms_a_valid_guide() {
    let report = check_report(
        VALID,
        "GUIDE.md".to_string(),
        &Config::default(),
        false,
        true,
    );
    assert_eq!(
        texts(&report),
        vec![(Stream::Stdout, "✓ Navigation guide syntax is valid".to_string())]
    );
    assert_eq!(report.outcome, Ok(CommandOutcome::Completed));

    let ci = check_report(
        VALID,
        "GUIDE.md".to_string(),
        &config(ExecutionMode::GitHubActions, LogLevel::Default),
        false,
        false,
    );
    assert_eq!(texts(&ci), vec![(Stream::Stdout, "✓ Syntax valid".to_string())]);

    let quiet = check_report(
        VALID,
        "GUIDE.md".to_string(),
        &config(ExecutionMode::Default, LogLevel::Quiet),
        false,
        false,
    );
    assert!(quiet.lines.is_empty());
}

#[test]
fn check_reports_an_invalid_guide() {
    let content = "<agentic-navigation-guide>\n- a.md\n- a.md\n</agentic-navigation-guide>";
    let report = check_report(
        content,
        "GUIDE.md".to_string(),
        &config(ExecutionMode::GitHubActions, LogLevel::Default),
        false,
        false,
    );
    assert!(matches!(
        report.outcome,
        Err(AppError::Syntax(SyntaxError::InvalidPathFormat { line: 3, .. }))
    ));
    assert_eq!(
        texts(&report),
        vec![(
            Stream::Stderr,
            "❌ Navigation guide syntax check failed\n\nGUIDE.md:3: syntax error: line 3: invalid path format 'a.md'\n"
                .to_string()
        )]
    );
}

#[test]
fn check_of_an_ignored_guide_is_the_ignored_outcome() {
    let report = check_report(
        IGNORED,
        "GUIDE.md".to_string(),
        &Config::default(),
        false,
        false,
    );
    assert_eq!(report.outcome, Ok(CommandOutcome::Ignored { count: 1 }));
    assert_eq!(
        texts(&report),
        vec![(
            Stream::Stderr,
            "Warning: Skipping syntax check of GUIDE.md (marked with ignore=true)".to_string()
        )]
    );
}

#[test]
fn verify_confirms_a_guide_that_matches() {
    let report = verify_report(
        VALID,
        "GUIDE.md".to_string(),
        "./".to_string(),
        PathBuf::from("."),
        &listings(),
        &Config::default(),
        false,
        false,
    );
    assert_eq!(
        texts(&report),
        vec![(
            Stream::Stdout,
            "✓ Navigation guide is valid and matches filesystem".to_string()
        )]
    );
    assert_eq!(report.outcome, Ok(CommandOutcome::Completed));
}

#[test]
fn verify_as_a_hook_explains_a_stale_guide() {
    let content = "<agentic-navigation-guide>\n- src/\n- gone.md\n</agentic-navigation-guide>";
    let report = verify_report(
        content,
        "GUIDE.md".to_string(),
        "repo".to_string(),
        PathBuf::from("repo"),
        &listings(),
        &config(ExecutionMode::PostToolUse, LogLevel::Default),
        false,
        false,
    );
    assert!(matches!(
        report.outcome,
        Err(AppError::Semantic(SemanticError::ItemNotFound { line: 3, .. }))
    ));
    assert_eq!(report.lines.len(), 1);
    assert!(report.lines[0].text.starts_with(
        "The agentic navigation guide has become out-of-date vis-a-vis the current state of the file system.\n\n- guide: GUIDE.md\n- root: repo\n- details:\n  - line 3: "
    ));
}

#[test]
fn recursive_search_without_guides_fails_closed() {
    let report = recursive_report(&[], "repo", "GUIDE.md", &Config::default(), false, false);
    let message = "zero navigation guides were verified: no files named GUIDE.md were discovered under repo. Check --root, --guide-name, and --exclude; pass --allow-empty only when an empty recursive search is intentional.";
    assert_eq!(
        texts(&report),
        vec![
            (Stream::Stderr, message.to_string()),
            (
                Stream::Stderr,
                "  Total: 0, Discovered: 0, Passed: 0, Failed: 0, Ignored: 0, Absent: 1".to_string()
            ),
        ]
    );
    assert_eq!(report.outcome, Err(AppError::Other(message.to_string())));

    let allowed = recursive_report(&[], "repo", "GUIDE.md", &Config::default(), true, true);
    assert_eq!(allowed.outcome, Ok(CommandOutcome::Completed));
    assert_eq!(
        allowed.lines[0].text,
        "--allow-empty accepted: zero navigation guides were verified"
    );
    let quiet = recursive_report(
        &[],
        "repo",
        "GUIDE.md",
        &config(ExecutionMode::Default, LogLevel::Quiet),
        false,
        true,
    );
    assert!(quiet.lines.is_empty());
    assert_eq!(quiet.outcome, Ok(CommandOutcome::Completed));
}

#[test]
fn recursive_run_announces_then_reports() {
    let results = vec![outcome("GUIDE.md", true, false, None)];
    let report = recursive_report(&results, "repo", "GUIDE.md", &Config::default(), false, false);
    assert_eq!(
        texts(&report),
        vec![
            (
                Stream::Stdout,
                "Found 1 navigation guide(s) to verify in repo".to_string()
            ),
            (
                Stream::Stdout,
                "✓ All navigation guides are valid and match filesystem".to_string()
            ),
            (
                Stream::Stdout,
                "  Total: 1, Discovered: 1, Passed: 1, Failed: 0, Ignored: 0, Absent: 0".to_string()
            ),
        ]
    );
    assert_eq!(report.outcome, Ok(CommandOutcome::Completed));

    let ci = recursive_report(
        &results,
        "repo",
        "GUIDE.md",
        &config(ExecutionMode::GitHubActions, LogLevel::Default),
        false,
        false,
    );
    assert_eq!(ci.lines[0].text, "Found 1 navigation guide(s)");
}

#[test]
fn recursive_run_with_a_failure_fails() {
    let results = vec![
        outcome("a/GUIDE.md", true, false, None),
        outcome("b/GUIDE.md", false, false, Some(AppError::Other("bad".to_string()))),
    ];
    let report = recursive_report(
        &results,
        "repo",
        "GUIDE.md",
        &config(ExecutionMode::Default, LogLevel::Quiet),
        false,
        false,
    );
    assert_eq!(
        report.outcome,
        Err(AppError::Other("Some guides failed verification".to_string()))
    );
}

#[test]
fn deny_ignored_refuses_a_recursive_run_with_an_ignored_guide() {
    let results = vec![
        outcome("a/GUIDE.md", true, false, None),
        outcome("b/GUIDE.md", true, true, None),
    ];
    let lenient = recursive_report(&results, "repo", "GUIDE.md", &Config::default(), false, false);
    assert_eq!(lenient.outcome, Ok(CommandOutcome::Ignored { count: 1 }));

    let quiet = config(ExecutionMode::Default, LogLevel::Quiet);
    let strict = recursive_report(&results, "repo", "GUIDE.md", &quiet, true, false);
    let denied = "--deny-ignored rejected the run because 1 ignored navigation guide was discovered";
    assert_eq!(strict.outcome, Err(AppError::Other(denied.to_string())));
    assert_eq!(
        texts(&strict),
        vec![
            (
                Stream::Stderr,
                "  Total: 2, Discovered: 2, Passed: 1, Failed: 0, Ignored: 1, Absent: 0".to_string()
            ),
            (Stream::Stderr, denied.to_string()),
        ]
    );

    let mixed = vec![
        outcome("a/GUIDE.md", false, false, Some(AppError::Other("bad".to_string()))),
        outcome("b/GUIDE.md", true, true, None),
        outcome("c/GUIDE.md", true, true, None),
    ];
    let both = recursive_report(&mixed, "repo", "GUIDE.md", &quiet, true, false);
    assert_eq!(
        both.outcome,
        Err(AppError::Other(
            "Some guides failed verification, and --deny-ignored rejected the run because 2 ignored navigation guides were discovered"
                .to_string()
        ))
    );
}
