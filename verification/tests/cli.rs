use agentic_navigation_guide::cli::{
    denied_ignored_message, finish_ignored_policy, get_exit_code, parse_depth, parse_indent,
    init_document, validate_implicit_name, CheckArgs, Cli, Command, CommandOutcome, DumpArgs,
    EnvironmentDefaults, InitArgs,
    VerifyArgs, GUIDE_NAME, LOG_MODE,
};
use agentic_navigation_guide::errors::AppError;
use agentic_navigation_guide::types::{Config, ExecutionMode, LogLevel};

#[test]
fn issue_46_mode_environment_values_are_exact_and_complete() {
    for value in ["quiet", "default", "verbose"] {
        let defaults = EnvironmentDefaults {
            log_mode: Some(value.as_bytes().to_vec()),
            ..EnvironmentDefaults::default()
        };
        assert_eq!(
            defaults.log_mode().expect("valid log mode").as_deref(),
            Some(value)
        );
    }
    for value in ["default", "post-tool-use", "pre-commit-hook", "github-actions"] {
        let defaults = EnvironmentDefaults {
            execution_mode: Some(value.as_bytes().to_vec()),
            ..EnvironmentDefaults::default()
        };
        assert_eq!(
            defaults
                .execution_mode()
                .expect("valid execution mode")
                .as_deref(),
            Some(value)
        );
    }
    for value in ["", "Quiet", " quiet", "verbose ", "unknown", "quiet\nforged"] {
        let defaults = EnvironmentDefaults {
            log_mode: Some(value.as_bytes().to_vec()),
            ..EnvironmentDefaults::default()
        };
        let diagnostic = defaults.log_mode().expect_err("invalid log mode").message();
        assert!(diagnostic.contains(LOG_MODE));
        assert!(!diagnostic.contains("forged"));
    }
    let defaults = EnvironmentDefaults {
        execution_mode: Some(b"ISSUE46_EXECUTION_SECRET\nforged-line".to_vec()),
        ..EnvironmentDefaults::default()
    };
    let diagnostic = defaults
        .execution_mode()
        .expect_err("control-bearing execution mode")
        .message();
    assert!(!diagnostic.contains("ISSUE46_EXECUTION_SECRET"));
    assert!(!diagnostic.contains("forged-line"));
}

#[test]
fn issue_46_guide_names_remain_implicit_single_components() {
    for value in ["GUIDE.md", "導航.md", "é.md"] {
        let defaults = EnvironmentDefaults {
            guide_name: Some(value.as_bytes().to_vec()),
            ..EnvironmentDefaults::default()
        };
        assert_eq!(defaults.guide_name().expect("valid guide name"), value);
    }
    for value in ["", ".", "..", "nested/GUIDE.md", r"nested\GUIDE.md"] {
        let defaults = EnvironmentDefaults {
            guide_name: Some(value.as_bytes().to_vec()),
            ..EnvironmentDefaults::default()
        };
        let diagnostic = defaults.guide_name().expect_err("invalid guide name").message();
        assert!(diagnostic.contains(GUIDE_NAME));
        assert!(diagnostic.contains("invalid implicit guide name"));
    }
    assert_eq!(
        EnvironmentDefaults::default().guide_name().expect("default"),
        "AGENTIC_NAVIGATION_GUIDE.md"
    );
    assert!(validate_implicit_name("GUIDE.md").is_ok());
    assert_eq!(
        validate_implicit_name("a/b").err().as_deref(),
        Some("directory separators are not allowed")
    );
}

#[test]
fn path_defaults_keep_raw_bytes_and_reject_empty_values() {
    let defaults = EnvironmentDefaults {
        guide_path: Some(vec![b'p', 0xff, b't', b'h']),
        guide_root: Some(Vec::new()),
        ..EnvironmentDefaults::default()
    };
    assert_eq!(
        defaults.guide_path().expect("raw path"),
        Some(vec![b'p', 0xff, b't', b'h'])
    );
    assert_eq!(
        defaults.guide_root().expect_err("empty root").message(),
        "invalid environment default AGENTIC_NAVIGATION_GUIDE_ROOT: expected a nonempty filesystem path; the value is not shown"
    );
}

fn check_cli() -> Cli {
    Cli {
        verbose: false,
        quiet: false,
        log_level: None,
        execution_mode: None,
        command: Command::Check(CheckArgs {
            guide: None,
            implicit_guide_name: None,
            deny_ignored: false,
            post_tool_use_hook: false,
            pre_commit_hook: false,
            github_actions_check: false,
        }),
    }
}

#[test]
fn options_override_environment_defaults() {
    let defaults = EnvironmentDefaults {
        log_mode: Some(b"verbose".to_vec()),
        execution_mode: Some(b"github-actions".to_vec()),
        guide_name: Some(b"NAV.md".to_vec()),
        ..EnvironmentDefaults::default()
    };
    let mut cli = check_cli();
    cli.apply_environment_defaults(&defaults).expect("usable defaults");
    assert_eq!(cli.log_level.as_deref(), Some("verbose"));
    assert_eq!(cli.execution_mode.as_deref(), Some("github-actions"));
    match &cli.command {
        Command::Check(args) => {
            assert!(args.guide.is_none());
            assert_eq!(args.implicit_guide_name.as_deref(), Some("NAV.md"));
        }
        _ => panic!("command changed"),
    }
    let config = cli.build_config();
    assert_eq!(config.log_level, LogLevel::Verbose);
    assert_eq!(config.execution_mode, ExecutionMode::GitHubActions);

    let mut quiet = check_cli();
    quiet.quiet = true;
    if let Command::Check(args) = &mut quiet.command {
        args.post_tool_use_hook = true;
    }
    let broken = EnvironmentDefaults {
        log_mode: Some(b"loud".to_vec()),
        execution_mode: Some(b"nonsense".to_vec()),
        ..EnvironmentDefaults::default()
    };
    quiet.apply_environment_defaults(&broken).expect("shadowed values are never read");
    assert!(quiet.log_level.is_none());
    assert!(quiet.execution_mode.is_none());
    assert_eq!(quiet.build_config().log_level, LogLevel::Quiet);
}

#[test]
fn an_unusable_default_changes_nothing() {
    let mut cli = Cli {
        verbose: true,
        quiet: false,
        log_level: None,
        execution_mode: Some("default".to_string()),
        command: Command::Dump(DumpArgs {
            output: None,
            depth: None,
            exclude: Vec::new(),
            indent: 2,
            omit_xml_wrapper: false,
            root: None,
        }),
    };
    let defaults = EnvironmentDefaults {
        guide_root: Some(Vec::new()),
        ..EnvironmentDefaults::default()
    };
    let error = cli.apply_environment_defaults(&defaults).expect_err("empty root");
    assert_eq!(error.variable, "AGENTIC_NAVIGATION_GUIDE_ROOT");
    match &cli.command {
        Command::Dump(args) => assert!(args.root.is_none()),
        _ => panic!("command changed"),
    }
}

#[test]
fn recursive_verify_takes_only_the_name_default() {
    let mut cli = Cli {
        verbose: false,
        quiet: false,
        log_level: None,
        execution_mode: None,
        command: Command::Verify(VerifyArgs {
            guide: None,
            deny_ignored: false,
            root: None,
            recursive: true,
            guide_name: None,
            implicit_guide_name: None,
            exclude_patterns: Vec::new(),
            allow_empty: false,
            post_tool_use_hook: false,
            pre_commit_hook: false,
            github_actions_check: false,
        }),
    };
    let defaults = EnvironmentDefaults {
        guide_path: Some(Vec::new()),
        guide_root: Some(b"/repo".to_vec()),
        ..EnvironmentDefaults::default()
    };
    cli.apply_environment_defaults(&defaults).expect("path default is irrelevant");
    match &cli.command {
        Command::Verify(args) => {
            assert_eq!(args.root.as_deref(), Some(&b"/repo"[..]));
            assert!(args.guide.is_none());
            assert_eq!(
                args.implicit_guide_name.as_deref(),
                Some("AGENTIC_NAVIGATION_GUIDE.md")
            );
        }
        _ => panic!("command changed"),
    }
}

#[test]
fn numeric_options_are_bounded() {
    assert_eq!(parse_indent("4"), Ok(4));
    assert_eq!(parse_indent("+16"), Ok(16));
    assert_eq!(
        parse_indent("0"),
        Err("indent size must be from 1 through 16".to_string())
    );
    assert_eq!(
        parse_indent("x"),
        Err("indent size must be an integer from 1 through 16".to_string())
    );
    assert_eq!(parse_depth("0"), Ok(0));
    assert_eq!(
        parse_depth("257"),
        Err("maximum depth must be from 0 through 256".to_string())
    );
    assert_eq!(
        parse_depth("99999999999999999999999"),
        Err("maximum depth must be an integer from 0 through 256".to_string())
    );
}

#[test]
fn exit_codes_and_ignored_policy() {
    let mut config = Config::default();
    assert_eq!(get_exit_code(&config, false), 0);
    assert_eq!(get_exit_code(&config, true), 1);
    config.execution_mode = ExecutionMode::PostToolUse;
    assert_eq!(get_exit_code(&config, true), 2);

    assert_eq!(
        denied_ignored_message(1),
        "--deny-ignored rejected the run because 1 ignored navigation guide was discovered"
    );
    assert_eq!(
        denied_ignored_message(3),
        "--deny-ignored rejected the run because 3 ignored navigation guides were discovered"
    );
    assert_eq!(finish_ignored_policy(0, true).ok(), Some(CommandOutcome::Completed));
    assert_eq!(
        finish_ignored_policy(2, false).ok(),
        Some(CommandOutcome::Ignored { count: 2 })
    );
    match finish_ignored_policy(2, true) {
        Err(AppError::Other(message)) => assert_eq!(message, denied_ignored_message(2)),
        other => panic!("unexpected outcome {other:?}"),
    }
}

fn init_args(exclude: &[&str], include_vcs_directories: bool) -> InitArgs {
    InitArgs {
        output: b"GUIDE.md".to_vec(),
        depth: None,
        exclude: exclude.iter().map(|p| p.to_string()).collect(),
        indent: 2,
        root: None,
        include_vcs_directories,
    }
}

#[test]
fn init_leaves_out_version_control_directories_by_default() {
    assert_eq!(
        init_args(&["target"], false).exclude_patterns(),
        vec![".git", ".svn", ".hg", ".bzr", "CVS", "_darcs", "target"]
    );
    assert_eq!(init_args(&["target"], true).exclude_patterns(), vec!["target"]);
    assert!(init_args(&[], true).exclude_patterns().is_empty());
}

#[test]
fn init_document_frames_the_guide_block() {
    assert_eq!(
        init_document("<agentic-navigation-guide>\n- a\n</agentic-navigation-guide>"),
        "# Agentic Navigation Guide\n\nThis navigation guide helps AI coding assistants understand the structure of this project.\nThe listing below may be incomplete and highlights key files and directories.\n\n<agentic-navigation-guide>\n- a\n</agentic-navigation-guide>\n\nNote: This guide was automatically generated and may need manual adjustments.\n"
    );
}
