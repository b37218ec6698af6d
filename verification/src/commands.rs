//! The decisions of the `check` and `verify` commands once the guide text and
//! the directory listings are in hand: the execution mode a command runs in,
//! the diagnostic text of a failure, the lines a command prints and its outcome.

use vstd::prelude::*;
use crate::cli::{CommandOutcome, denied_ignored_message, finish_ignored_policy, spec_denied_ignored_message};
use crate::errors::{AppError, AppErrorView, ErrorFormatter, spec_format_with_context};
use crate::guide_check::{DirListing, snapshot_view, spec_verify};
use crate::parser::{Parser, spec_parse, well_nested};
use crate::recursive::{
    GuideVerificationResult, OutputLine, Stream, VerificationAggregate, line_views, push_line,
    render_results, spec_report, count_ignored, count_failed, verify_single_guide, single_outcome,
    lemma_counts_bounded, law_run_passes_iff_nothing_failed,
};
use crate::types::{LogLevel, NavigationGuideLine, flatten};
use crate::validator::{Validator, spec_validate};
use crate::text::{
    chars_of, document_lines, push_all, push_decimal, push_str, spec_decimal, spec_lines,
    spec_trim_end, trim_end_white,
};
use crate::types::{Config, ExecutionMode};

verus! {

/// The guide command a diagnostic belongs to.
#[derive(Clone, Copy, Debug, PartialEq, Eq, Structural)]
pub enum GuideCommand {
    /// `check` command.
    Check,
    /// `verify` command.
    Verify,
}

/// A hook flag of the subcommand selects the execution mode; without one the
/// configured mode stays.
pub open spec fn spec_selected_mode(
    post_tool_use_hook: bool,
    pre_commit_hook: bool,
    github_actions_check: bool,
    configured: ExecutionMode,
) -> ExecutionMode {
    if post_tool_use_hook {
        ExecutionMode::PostToolUse
    } else if pre_commit_hook {
        ExecutionMode::PreCommitHook
    } else if github_actions_check {
        ExecutionMode::GitHubActions
    } else {
        configured
    }
}

/// Records in `config` the execution mode that the subcommand's hook flags select.
pub fn select_execution_mode(
    config: &mut Config,
    post_tool_use_hook: bool,
    pre_commit_hook: bool,
    github_actions_check: bool,
)
    ensures
        final(config).execution_mode == spec_selected_mode(
            post_tool_use_hook,
            pre_commit_hook,
            github_actions_check,
            old(config).execution_mode,
        ),
        final(config).log_level == old(config).log_level,
        final(config).root_path == old(config).root_path,
        final(config).guide_path == old(config).guide_path,
        final(config).original_guide_path == old(config).original_guide_path,
        final(config).original_root_path == old(config).original_root_path,
{
    if post_tool_use_hook {
        config.execution_mode = ExecutionMode::PostToolUse;
    } else if pre_commit_hook {
        config.execution_mode = ExecutionMode::PreCommitHook;
    } else if github_actions_check {
        config.execution_mode = ExecutionMode::GitHubActions;
    }
}

/// The guide line an error points at, if any.
pub open spec fn spec_error_line(e: AppError) -> Option<usize> {
    match e {
        AppError::Syntax(s) => s.spec_line_number(),
        AppError::Semantic(s) => Some(s.spec_line_number()),
        AppError::Other(_) => None,
    }
}

/// The guide line an error points at, if any.
pub fn error_line_number(error: &AppError) -> (r: Option<usize>)
    ensures
        r == spec_error_line(*error),
{
    match error {
        AppError::Syntax(e) => e.line_number(),
        AppError::Semantic(e) => Some(e.line_number()),
        AppError::Other(_) => None,
    }
}

/// Line `n` (counting from 1; 0 counts as 1) of the content, if it has one.
pub open spec fn content_line(content: Option<Seq<char>>, n: usize) -> Option<Seq<char>> {
    match content {
        Some(c) => {
            let index = if n == 0 {
                0
            } else {
                n - 1
            };
            if index < spec_lines(c).len() {
                Some(spec_lines(c)[index])
            } else {
                None
            }
        },
        None => None,
    }
}

pub open spec fn opt_chars(s: Option<&str>) -> Option<Seq<char>> {
    match s {
        Some(t) => Some(t@),
        None => None,
    }
}

/// The GitHub Actions diagnostic: a header naming the command, then
/// `guide:line: error` (or `guide: error` without a line), then the trimmed
/// guide line when the content has it.
pub open spec fn spec_github_error(
    e: AppError,
    command: GuideCommand,
    guide: Seq<char>,
    content: Option<Seq<char>>,
) -> Seq<char> {
    let head = match command {
        GuideCommand::Check => "❌ Navigation guide syntax check failed\n\n"@,
        GuideCommand::Verify => "❌ Navigation guide verification failed\n\n"@,
    };
    match spec_error_line(e) {
        Some(n) => head + guide + ":"@ + spec_decimal(n as nat) + ": "@ + e.spec_message() + "\n"@
            + match content_line(content, n) {
            Some(l) => "  "@ + spec_trim_end(l) + "\n"@,
            None => Seq::<char>::empty(),
        },
        None => head + guide + ": "@ + e.spec_message() + "\n"@,
    }
}

/// The post-tool-use diagnostic of `verify`: a syntax error names the guide,
/// a filesystem mismatch names the guide, the root and the mismatch.
pub open spec fn spec_post_tool_use_error(
    e: AppError,
    guide: Seq<char>,
    root: Seq<char>,
    content: Option<Seq<char>>,
) -> Seq<char> {
    match e {
        AppError::Syntax(_) => "The agentic navigation guide at "@ + guide
            + " has a syntax error:\n\n"@ + spec_format_with_context(e, content),
        AppError::Semantic(s) =>
            "The agentic navigation guide has become out-of-date vis-a-vis the current state of the file system.\n\n- guide: "@
            + guide + "\n- root: "@ + root + "\n- details:\n  - "@ + s.spec_message(),
        AppError::Other(_) => spec_format_with_context(e, content),
    }
}

/// The diagnostic of a guide command's failure in an execution mode.
pub open spec fn spec_format_guide_error(
    e: AppError,
    mode: ExecutionMode,
    command: GuideCommand,
    guide: Seq<char>,
    root: Seq<char>,
    content: Option<Seq<char>>,
) -> Seq<char> {
    if command == GuideCommand::Verify && mode == ExecutionMode::PostToolUse {
        spec_post_tool_use_error(e, guide, root, content)
    } else if mode == ExecutionMode::GitHubActions {
        spec_github_error(e, command, guide, content)
    } else {
        spec_format_with_context(e, content)
    }
}

/// The GitHub Actions diagnostic.
fn format_github_actions_error(
    error: &AppError,
    command: GuideCommand,
    guide: &str,
    content: Option<&str>,
) -> (s: String)
    ensures
        s@ == spec_github_error(*error, command, guide@, opt_chars(content)),
{
    let mut s = String::new();
    match command {
        GuideCommand::Check => push_str(&mut s, "❌ Navigation guide syntax check failed\n\n"),
        GuideCommand::Verify => push_str(&mut s, "❌ Navigation guide verification failed\n\n"),
    }
    let message = error.message();
    match error_line_number(error) {
        Some(n) => {
            push_str(&mut s, guide);
            push_str(&mut s, ":");
            push_decimal(&mut s, n);
            push_str(&mut s, ": ");
            push_str(&mut s, message.as_str());
            push_str(&mut s, "\n");
            let ghost before = s@;
            match content {
                Some(c) => {
                    let chars = chars_of(c);
                    let lines = document_lines(chars.as_slice());
                    let index = if n == 0 {
                        0
                    } else {
                        n - 1
                    };
                    if index < lines.len() {
                        let trimmed = trim_end_white(lines[index].as_slice());
                        push_str(&mut s, "  ");
                        push_all(&mut s, trimmed.as_slice());
                        push_str(&mut s, "\n");
                    }
                },
                None => {},
            }
            assert(s@ == before + match content_line(opt_chars(content), n) {
                Some(l) => "  "@ + spec_trim_end(l) + "\n"@,
                None => Seq::<char>::empty(),
            });
        },
        None => {
            push_str(&mut s, guide);
            push_str(&mut s, ": ");
            push_str(&mut s, message.as_str());
            push_str(&mut s, "\n");
        },
    }
    s
}

/// The post-tool-use diagnostic of `verify`.
fn format_verify_post_tool_use_error(
    error: &AppError,
    guide: &str,
    root: &str,
    content: Option<&str>,
) -> (s: String)
    ensures
        s@ == spec_post_tool_use_error(*error, guide@, root@, opt_chars(content)),
{
    match error {
        AppError::Syntax(_) => {
            let mut s = String::new();
            push_str(&mut s, "The agentic navigation guide at ");
            push_str(&mut s, guide);
            push_str(&mut s, " has a syntax error:\n\n");
            let detail = ErrorFormatter::format_with_context(error, content);
            push_str(&mut s, detail.as_str());
            s
        },
        AppError::Semantic(e) => {
            let mut s = String::new();
            push_str(
                &mut s,
                "The agentic navigation guide has become out-of-date vis-a-vis the current state of the file system.\n\n- guide: ",
            );
            push_str(&mut s, guide);
            push_str(&mut s, "\n- root: ");
            push_str(&mut s, root);
            push_str(&mut s, "\n- details:\n  - ");
            let detail = e.message();
            push_str(&mut s, detail.as_str());
            s
        },
        AppError::Other(_) => ErrorFormatter::format_with_context(error, content),
    }
}

/// The diagnostic printed for a failed guide command: the post-tool-use form
/// for `verify` as a hook, the GitHub Actions form, or the error with its
/// guide line.
pub fn format_guide_error(
    error: &AppError,
    mode: ExecutionMode,
    command: GuideCommand,
    guide: &str,
    root: &str,
    content: Option<&str>,
) -> (s: String)
    ensures
        s@ == spec_format_guide_error(*error, mode, command, guide@, root@, opt_chars(content)),
{
    let verify = match command {
        GuideCommand::Verify => true,
        GuideCommand::Check => false,
    };
    match mode {
        ExecutionMode::PostToolUse => {
            if verify {
                return format_verify_post_tool_use_error(error, guide, root, content);
            }
        },
        ExecutionMode::GitHubActions => {
            return format_github_actions_error(error, command, guide, content);
        },
        _ => {},
    }
    ErrorFormatter::format_with_context(error, content)
}


// ---------------------------------------------------------------------------
// What a command prints and how it ends

/// What a command prints, in order, and how it ends.
pub struct CommandReport {
    pub lines: Vec<OutputLine>,
    pub outcome: Result<CommandOutcome, AppError>,
}

pub open spec fn outcome_view(o: Result<CommandOutcome, AppError>) -> Result<CommandOutcome, AppErrorView> {
    match o {
        Ok(c) => Ok(c),
        Err(e) => Err(e.view()),
    }
}

/// The ignored-guide policy: no ignored guide completes, ignored guides are
/// reported, and with `--deny-ignored` they fail the run.
pub open spec fn spec_policy(count: usize, deny_ignored: bool) -> Result<CommandOutcome, AppErrorView> {
    if count == 0 {
        Ok(CommandOutcome::Completed)
    } else if !deny_ignored {
        Ok(CommandOutcome::Ignored { count })
    } else {
        Err(AppErrorView::Other(spec_denied_ignored_message(count)))
    }
}

/// The refusal printed when the policy rejects ignored guides.
pub open spec fn policy_lines(count: usize, deny_ignored: bool) -> Seq<(Stream, Seq<char>)> {
    if count > 0 && deny_ignored {
        seq![(Stream::Stderr, spec_denied_ignored_message(count))]
    } else {
        seq![]
    }
}

/// The warnings about a single guide marked `ignore=true`.
pub open spec fn ignored_lines(
    command: GuideCommand,
    mode: ExecutionMode,
    level: LogLevel,
    guide: Seq<char>,
    standalone: bool,
) -> Seq<(Stream, Seq<char>)> {
    let what = match command {
        GuideCommand::Check => "syntax check"@,
        GuideCommand::Verify => "verification"@,
    };
    if level == LogLevel::Quiet {
        seq![]
    } else {
        let warning = if mode == ExecutionMode::GitHubActions {
            "⚠️  Skipping "@ + what + ": guide at "@ + guide + " has ignore=true"@
        } else {
            "Warning: Skipping "@ + what + " of "@ + guide + " (marked with ignore=true)"@
        };
        seq![(Stream::Stderr, warning)] + if standalone {
            seq![
                (
                    Stream::Stderr,
                    "Note: Standalone guide file is marked with ignore=true. This may be intentional for examples."@,
                ),
            ]
        } else {
            seq![]
        }
    }
}

/// The confirmation of a single guide that passed.
pub open spec fn success_lines(command: GuideCommand, mode: ExecutionMode, level: LogLevel) -> Seq<
    (Stream, Seq<char>),
> {
    if level == LogLevel::Quiet {
        seq![]
    } else {
        let text = match command {
            GuideCommand::Check => if mode == ExecutionMode::GitHubActions {
                "✓ Syntax valid"@
            } else {
                "✓ Navigation guide syntax is valid"@
            },
            GuideCommand::Verify => if mode == ExecutionMode::GitHubActions {
                "✓ Navigation guide verified"@
            } else {
                "✓ Navigation guide is valid and matches filesystem"@
            },
        };
        seq![(Stream::Stdout, text)]
    }
}

/// The report of a single-guide command: a failure prints its diagnostic and
/// fails with its error; an ignored guide warns and follows the ignored-guide
/// policy; a guide that passed is confirmed and completes.
pub open spec fn spec_guide_report(
    command: GuideCommand,
    r: GuideVerificationResult,
    mode: ExecutionMode,
    level: LogLevel,
    standalone: bool,
    deny_ignored: bool,
) -> (Seq<(Stream, Seq<char>)>, Result<CommandOutcome, AppErrorView>) {
    if !r.success {
        let e = r.error.unwrap();
        (
            seq![(Stream::Stderr, spec_format_guide_error(e, mode, command, r.guide@, r.root@, None))],
            Err(e.view()),
        )
    } else if r.ignored {
        (ignored_lines(command, mode, level, r.guide@, standalone) + policy_lines(1, deny_ignored), spec_policy(1, deny_ignored))
    } else {
        (success_lines(command, mode, level), Ok(CommandOutcome::Completed))
    }
}

fn push_ignored_lines(
    out: &mut Vec<OutputLine>,
    command: GuideCommand,
    mode: ExecutionMode,
    level: LogLevel,
    guide: &str,
    standalone: bool,
)
    ensures
        line_views(final(out)@) == line_views(old(out)@) + ignored_lines(command, mode, level, guide@, standalone),
{
    let ghost base = line_views(out@);
    let quiet = match level {
        LogLevel::Quiet => true,
        _ => false,
    };
    if !quiet {
        let what = match command {
            GuideCommand::Check => "syntax check",
            GuideCommand::Verify => "verification",
        };
        let mut t = String::new();
        match mode {
            ExecutionMode::GitHubActions => {
                push_str(&mut t, "⚠️  Skipping ");
                push_str(&mut t, what);
                push_str(&mut t, ": guide at ");
                push_str(&mut t, guide);
                push_str(&mut t, " has ignore=true");
            },
            _ => {
                push_str(&mut t, "Warning: Skipping ");
                push_str(&mut t, what);
                push_str(&mut t, " of ");
                push_str(&mut t, guide);
                push_str(&mut t, " (marked with ignore=true)");
            },
        }
        push_line(out, Stream::Stderr, t);
        if standalone {
            push_line(
                out,
                Stream::Stderr,
                "Note: Standalone guide file is marked with ignore=true. This may be intentional for examples.".to_owned(),
            );
        }
    }
    assert(line_views(out@) =~= base + ignored_lines(command, mode, level, guide@, standalone));
}

fn push_success_lines(out: &mut Vec<OutputLine>, command: GuideCommand, mode: ExecutionMode, level: LogLevel)
    ensures
        line_views(final(out)@) == line_views(old(out)@) + success_lines(command, mode, level),
{
    let ghost base = line_views(out@);
    let quiet = match level {
        LogLevel::Quiet => true,
        _ => false,
    };
    if !quiet {
        let ci = match mode {
            ExecutionMode::GitHubActions => true,
            _ => false,
        };
        let text = match command {
            GuideCommand::Check => if ci {
                "✓ Syntax valid".to_owned()
            } else {
                "✓ Navigation guide syntax is valid".to_owned()
            },
            GuideCommand::Verify => if ci {
                "✓ Navigation guide verified".to_owned()
            } else {
                "✓ Navigation guide is valid and matches filesystem".to_owned()
            },
        };
        push_line(out, Stream::Stdout, text);
    }
    assert(line_views(out@) =~= base + success_lines(command, mode, level));
}

/// The ignored-guide policy, with the refusal it prints.
fn apply_policy(out: &mut Vec<OutputLine>, count: usize, deny_ignored: bool) -> (r: Result<CommandOutcome, AppError>)
    ensures
        line_views(final(out)@) == line_views(old(out)@) + policy_lines(count, deny_ignored),
        outcome_view(r) == spec_policy(count, deny_ignored),
{
    let ghost base = line_views(out@);
    let r = finish_ignored_policy(count, deny_ignored);
    if count > 0 && deny_ignored {
        push_line(out, Stream::Stderr, denied_ignored_message(count));
    }
    assert(line_views(out@) =~= base + policy_lines(count, deny_ignored));
    r
}

/// What a single-guide command prints and how it ends, from the outcome of
/// its guide.
pub fn guide_report(
    command: GuideCommand,
    result: GuideVerificationResult,
    mode: ExecutionMode,
    level: LogLevel,
    standalone: bool,
    deny_ignored: bool,
) -> (r: CommandReport)
    requires
        result.success || result.error is Some,
    ensures
        (line_views(r.lines@), outcome_view(r.outcome)) == spec_guide_report(
            command,
            result,
            mode,
            level,
            standalone,
            deny_ignored,
        ),
{
    let mut lines: Vec<OutputLine> = Vec::new();
    assert(line_views(lines@) =~= Seq::<(Stream, Seq<char>)>::empty());
    let ghost spec_result = result;
    if !result.success {
        let GuideVerificationResult { guide, root, success: _, error, ignored: _ } = result;
        match error {
            Some(e) => {
                let t = format_guide_error(&e, mode, command, guide.as_str(), root.as_str(), None);
                push_line(&mut lines, Stream::Stderr, t);
                assert(line_views(lines@) =~= spec_guide_report(command, spec_result, mode, level, standalone, deny_ignored).0);
                return CommandReport { lines, outcome: Err(e) };
            },
            None => {
                return CommandReport { lines, outcome: Err(AppError::Other(String::new())) };
            },
        }
    }
    if result.ignored {
        push_ignored_lines(&mut lines, command, mode, level, result.guide.as_str(), standalone);
        let outcome = apply_policy(&mut lines, 1, deny_ignored);
        return CommandReport { lines, outcome };
    }
    push_success_lines(&mut lines, command, mode, level);
    CommandReport { lines, outcome: Ok(CommandOutcome::Completed) }
}


// ---------------------------------------------------------------------------
// `check`

/// `r` is the outcome of checking the syntax of the guide `guide` read from
/// `content`: a parse failure, the ignored outcome, or the validation of the
/// parsed tree.
pub open spec fn checked(guide: String, content: Seq<char>, r: GuideVerificationResult) -> bool {
    &&& r.guide == guide
    &&& r.root@ == Seq::<char>::empty()
    &&& match spec_parse(content) {
        Err(e) => !r.success && !r.ignored && (r.error matches Some(x) && x.view() == AppErrorView::Syntax(e)),
        Ok(g) => if g.ignore {
            r.success && r.ignored && r.error is None
        } else {
            exists|t: Seq<NavigationGuideLine>|
                flatten(t) == g.lines && well_nested(t, 0) && match spec_validate(t) {
                    None => r.success && !r.ignored && r.error is None,
                    Some(e) => !r.success && !r.ignored && (r.error matches Some(x) && x.view()
                        == AppErrorView::Syntax(e)),
                }
        },
    }
}

/// The outcome of checking the syntax of one guide.
pub fn check_result(guide: String, content: &str) -> (r: GuideVerificationResult)
    ensures
        checked(guide, content@, r),
{
    let root = String::new();
    match Parser::new().parse(content) {
        Err(e) => GuideVerificationResult { guide, root, success: false, error: Some(e), ignored: false },
        Ok(g) => {
            if g.ignore {
                return GuideVerificationResult { guide, root, success: true, error: None, ignored: true };
            }
            let outcome = Validator::new().validate_syntax(&g);
            proof {
                assert(flatten(g.items@) == flatten(g.items@));
            }
            match outcome {
                Ok(()) => GuideVerificationResult { guide, root, success: true, error: None, ignored: false },
                Err(e) => GuideVerificationResult { guide, root, success: false, error: Some(e), ignored: false },
            }
        },
    }
}

/// What `check` prints and how it ends once the guide `guide` has been read
/// as `content`. `standalone` says the guide file has the default guide name.
pub fn check_report(
    content: &str,
    guide: String,
    config: &Config,
    standalone: bool,
    deny_ignored: bool,
) -> (r: CommandReport)
    ensures
        exists|x: GuideVerificationResult|
            checked(guide, content@, x) && (line_views(r.lines@), outcome_view(r.outcome)) == spec_guide_report(
                GuideCommand::Check,
                x,
                config.execution_mode,
                config.log_level,
                standalone,
                deny_ignored,
            ),
{
    let result = check_result(guide, content);
    let ghost x = result;
    let r = guide_report(GuideCommand::Check, result, config.execution_mode, config.log_level, standalone, deny_ignored);
    assert(checked(guide, content@, x));
    r
}

// ---------------------------------------------------------------------------
// `verify`

/// What `verify` of one guide prints and how it ends once the guide `guide`
/// (below the root `root`) has been read as `content` and its directories,
/// below `root_path`, listed.
pub fn verify_report(
    content: &str,
    guide: String,
    root: String,
    root_path: std::path::PathBuf,
    listings: &[DirListing],
    config: &Config,
    standalone: bool,
    deny_ignored: bool,
) -> (r: CommandReport)
    ensures
        exists|x: GuideVerificationResult|
            single_outcome(guide, root, content@, listings@, x) && (
            line_views(r.lines@),
            outcome_view(r.outcome),
            ) == spec_guide_report(
                GuideCommand::Verify,
                x,
                config.execution_mode,
                config.log_level,
                standalone,
                deny_ignored,
            ),
{
    let result = verify_single_guide(guide, root, content, root_path, listings);
    let ghost x = result;
    let r = guide_report(GuideCommand::Verify, result, config.execution_mode, config.log_level, standalone, deny_ignored);
    assert(single_outcome(guide, root, content@, listings@, x));
    r
}

/// The announcement of the guides a recursive search found.
pub open spec fn found_lines(mode: ExecutionMode, level: LogLevel, n: nat, root: Seq<char>) -> Seq<(Stream, Seq<char>)> {
    if level == LogLevel::Quiet {
        seq![]
    } else if mode == ExecutionMode::GitHubActions {
        seq![(Stream::Stdout, "Found "@ + spec_decimal(n) + " navigation guide(s)"@)]
    } else {
        seq![(Stream::Stdout, "Found "@ + spec_decimal(n) + " navigation guide(s) to verify in "@ + root)]
    }
}

/// The failure of a recursive search that found no guide.
pub open spec fn no_guides_message(guide_name: Seq<char>, root: Seq<char>) -> Seq<char> {
    "zero navigation guides were verified: no files named "@ + guide_name + " were discovered under "@ + root
        + ". Check --root, --guide-name, and --exclude; pass --allow-empty only when an empty recursive search is intentional."@
}

pub open spec fn failed_and_denied(count: usize) -> Seq<char> {
    "Some guides failed verification, and "@ + spec_denied_ignored_message(count)
}

/// The report of `verify --recursive` from the results of the guides found
/// below `root` (a search for files named `guide_name`): an empty search
/// fails unless `--allow-empty` accepts it; otherwise the results are
/// reported, and the run fails when a guide failed or, with
/// `--deny-ignored`, when an ignored guide was found.
pub open spec fn spec_recursive_report(
    rs: Seq<GuideVerificationResult>,
    mode: ExecutionMode,
    level: LogLevel,
    root: Seq<char>,
    guide_name: Seq<char>,
    deny_ignored: bool,
    allow_empty: bool,
) -> (Seq<(Stream, Seq<char>)>, Result<CommandOutcome, AppErrorView>) {
    let a = VerificationAggregate::spec_from(rs);
    let s = a.spec_summary();
    if rs.len() == 0 {
        if allow_empty {
            (
                if level == LogLevel::Quiet {
                    seq![]
                } else {
                    seq![
                        (Stream::Stdout, "--allow-empty accepted: zero navigation guides were verified"@),
                        (Stream::Stdout, "  "@ + s),
                    ]
                },
                Ok(CommandOutcome::Completed),
            )
        } else {
            (
                seq![(Stream::Stderr, no_guides_message(guide_name, root)), (Stream::Stderr, "  "@ + s)],
                Err(AppErrorView::Other(no_guides_message(guide_name, root))),
            )
        }
    } else {
        let report = spec_report(rs, mode, level, a);
        let body = found_lines(mode, level, rs.len(), root) + report.0;
        if deny_ignored && a.ignored != 0 {
            let quiet_line = if level == LogLevel::Quiet {
                seq![(Stream::Stderr, "  "@ + s)]
            } else {
                seq![]
            };
            if !report.1 {
                (
                    body + quiet_line + seq![(Stream::Stderr, failed_and_denied(a.ignored))],
                    Err(AppErrorView::Other(failed_and_denied(a.ignored))),
                )
            } else {
                (
                    body + quiet_line + seq![(Stream::Stderr, spec_denied_ignored_message(a.ignored))],
                    Err(AppErrorView::Other(spec_denied_ignored_message(a.ignored))),
                )
            }
        } else if !report.1 {
            (body, Err(AppErrorView::Other("Some guides failed verification"@)))
        } else {
            (body, spec_policy(a.ignored, deny_ignored))
        }
    }
}

proof fn lemma_line_views_concat(a: Seq<OutputLine>, b: Seq<OutputLine>)
    ensures
        line_views(a + b) == line_views(a) + line_views(b),
{
    assert(line_views(a + b) =~= line_views(a) + line_views(b));
}

/// What `verify --recursive` prints and how it ends, from the results of the
/// guides found below the root `root` in a search for `guide_name`.
pub fn recursive_report(
    results: &[GuideVerificationResult],
    root: &str,
    guide_name: &str,
    config: &Config,
    deny_ignored: bool,
    allow_empty: bool,
) -> (r: CommandReport)
    ensures
        (line_views(r.lines@), outcome_view(r.outcome)) == spec_recursive_report(
            results@,
            config.execution_mode,
            config.log_level,
            root@,
            guide_name@,
            deny_ignored,
            allow_empty,
        ),
{
    let mode = config.execution_mode;
    let level = config.log_level;
    let quiet = match level {
        LogLevel::Quiet => true,
        _ => false,
    };
    let a = VerificationAggregate::from_results(results);
    assert(a == VerificationAggregate::spec_from(results@));
    let summary = a.summary();
    let mut lines: Vec<OutputLine> = Vec::new();
    assert(line_views(lines@) =~= Seq::<(Stream, Seq<char>)>::empty());
    let mut indented = String::new();
    push_str(&mut indented, "  ");
    push_str(&mut indented, summary.as_str());
    if results.len() == 0 {
        if allow_empty {
            if !quiet {
                push_line(&mut lines, Stream::Stdout, "--allow-empty accepted: zero navigation guides were verified".to_owned());
                push_line(&mut lines, Stream::Stdout, indented);
            }
            return CommandReport { lines, outcome: Ok(CommandOutcome::Completed) };
        }
        let mut m = String::new();
        push_str(&mut m, "zero navigation guides were verified: no files named ");
        push_str(&mut m, guide_name);
        push_str(&mut m, " were discovered under ");
        push_str(&mut m, root);
        push_str(
            &mut m,
            ". Check --root, --guide-name, and --exclude; pass --allow-empty only when an empty recursive search is intentional.",
        );
        push_line(&mut lines, Stream::Stderr, m.clone());
        push_line(&mut lines, Stream::Stderr, indented);
        return CommandReport { lines, outcome: Err(AppError::Other(m)) };
    }
    if !quiet {
        let mut t = String::new();
        push_str(&mut t, "Found ");
        push_decimal(&mut t, results.len());
        match mode {
            ExecutionMode::GitHubActions => {
                push_str(&mut t, " navigation guide(s)");
            },
            _ => {
                push_str(&mut t, " navigation guide(s) to verify in ");
                push_str(&mut t, root);
            },
        }
        push_line(&mut lines, Stream::Stdout, t);
    }
    assert(line_views(lines@) == found_lines(mode, level, results@.len(), root@));
    let (mut shown, passed) = render_results(results, config);
    let ghost before = lines@;
    let ghost shown_before = shown@;
    lines.append(&mut shown);
    proof {
        lemma_line_views_concat(before, shown_before);
    }
    if deny_ignored && a.ignored != 0 {
        if quiet {
            push_line(&mut lines, Stream::Stderr, indented);
        }
        if !passed {
            let mut m = String::new();
            push_str(&mut m, "Some guides failed verification, and ");
            let d = denied_ignored_message(a.ignored);
            push_str(&mut m, d.as_str());
            push_line(&mut lines, Stream::Stderr, m.clone());
            return CommandReport { lines, outcome: Err(AppError::Other(m)) };
        }
        let d = denied_ignored_message(a.ignored);
        push_line(&mut lines, Stream::Stderr, d.clone());
        return CommandReport { lines, outcome: Err(AppError::Other(d)) };
    }
    if !passed {
        return CommandReport { lines, outcome: Err(AppError::Other("Some guides failed verification".to_owned())) };
    }
    let outcome = finish_ignored_policy(a.ignored, deny_ignored);
    CommandReport { lines, outcome }
}


// ---------------------------------------------------------------------------
// Laws

/// A guide marked `ignore=true` is never a completed check: it is the
/// distinct ignored outcome, or a failure under `--deny-ignored`.
pub proof fn law_ignored_guide_is_not_success(
    command: GuideCommand,
    r: GuideVerificationResult,
    mode: ExecutionMode,
    level: LogLevel,
    standalone: bool,
    deny_ignored: bool,
)
    requires
        r.success,
        r.ignored,
    ensures
        spec_guide_report(command, r, mode, level, standalone, deny_ignored).1 != Ok::<
            CommandOutcome,
            AppErrorView,
        >(CommandOutcome::Completed),
        deny_ignored ==> spec_guide_report(command, r, mode, level, standalone, deny_ignored).1 is Err,
        !deny_ignored ==> spec_guide_report(command, r, mode, level, standalone, deny_ignored).1 == Ok::<
            CommandOutcome,
            AppErrorView,
        >(CommandOutcome::Ignored { count: 1 }),
{
}

/// A recursive run succeeds exactly when it found a guide, no guide failed
/// and `--deny-ignored` has no ignored guide to refuse, or when it found
/// nothing and `--allow-empty` accepts that.
pub proof fn law_recursive_run_succeeds_iff(
    rs: Seq<GuideVerificationResult>,
    mode: ExecutionMode,
    level: LogLevel,
    root: Seq<char>,
    guide_name: Seq<char>,
    deny_ignored: bool,
    allow_empty: bool,
)
    requires
        rs.len() <= usize::MAX,
    ensures
        spec_recursive_report(rs, mode, level, root, guide_name, deny_ignored, allow_empty).1 is Ok <==> (
        (rs.len() == 0 && allow_empty) || (rs.len() > 0 && count_failed(rs) == 0 && !(deny_ignored
            && count_ignored(rs) > 0))),
{
    lemma_counts_bounded(rs);
    law_run_passes_iff_nothing_failed(rs, mode, level);
}

/// With `--deny-ignored`, a recursive run that found an ignored guide fails,
/// whatever the other guides did.
pub proof fn law_deny_ignored_refuses_ignored_guides(
    rs: Seq<GuideVerificationResult>,
    mode: ExecutionMode,
    level: LogLevel,
    root: Seq<char>,
    guide_name: Seq<char>,
    allow_empty: bool,
)
    requires
        rs.len() <= usize::MAX,
        count_ignored(rs) > 0,
    ensures
        spec_recursive_report(rs, mode, level, root, guide_name, true, allow_empty).1 is Err,
{
    law_recursive_run_succeeds_iff(rs, mode, level, root, guide_name, true, allow_empty);
}

} // verus!
