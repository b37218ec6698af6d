//! Outcomes of verifying many guides: one guide's outcome from its text and
//! its directory listings, the aggregate counts, and the report lines.

use vstd::prelude::*;
use crate::errors::{AppError, AppErrorView};
use crate::guide_check::{DirListing, Verifier, resolver, snapshot_view, spec_verify};
use crate::parser::{Parser, spec_parse};
use crate::text::{push_decimal, push_str, spec_decimal};
use crate::types::{Config, ExecutionMode, LogLevel};
use crate::validator::{Validator, spec_validate};
use crate::parser::{GuideSpec, well_nested};
use crate::errors::SyntaxErrorView;
use crate::types::{NavigationGuideLine, flatten};
use crate::commands::{GuideCommand, format_guide_error, spec_format_guide_error};
use crate::cli::{implicit_name_error, validate_implicit_name};
use crate::exclusion::{ExclusionMatcher, PatternView, spec_compile_all, string_views};
use crate::guide_input::GuideInputError;
use vstd::string::StringSliceAdditionalSpecFns;

verus! {

/// Result of verifying a single guide
pub struct GuideVerificationResult {
    /// The rendered search-root-relative path of the guide
    pub guide: String,
    /// The rendered directory of the guide relative to the search root (`./` for the root itself)
    pub root: String,
    /// Whether processing completed without a failure (ignored guides included)
    pub success: bool,
    /// The failure when verification failed
    pub error: Option<AppError>,
    /// Whether the guide produced the distinct ignored outcome
    pub ignored: bool,
}

/// Counts over the results of one recursive run.
#[derive(Clone, Copy, Debug, PartialEq, Eq, Structural)]
pub struct VerificationAggregate {
    pub discovered: usize,
    pub passed: usize,
    pub failed: usize,
    pub ignored: usize,
    pub absent: usize,
}

pub open spec fn count_passed(rs: Seq<GuideVerificationResult>) -> nat
    decreases rs.len(),
{
    if rs.len() == 0 {
        0
    } else {
        count_passed(rs.drop_last()) + if rs.last().success && !rs.last().ignored {
            1nat
        } else {
            0nat
        }
    }
}

pub open spec fn count_failed(rs: Seq<GuideVerificationResult>) -> nat
    decreases rs.len(),
{
    if rs.len() == 0 {
        0
    } else {
        count_failed(rs.drop_last()) + if !rs.last().success {
            1nat
        } else {
            0nat
        }
    }
}

pub open spec fn count_ignored(rs: Seq<GuideVerificationResult>) -> nat
    decreases rs.len(),
{
    if rs.len() == 0 {
        0
    } else {
        count_ignored(rs.drop_last()) + if rs.last().ignored {
            1nat
        } else {
            0nat
        }
    }
}

pub proof fn lemma_counts_bounded(rs: Seq<GuideVerificationResult>)
    ensures
        count_passed(rs) <= rs.len(),
        count_failed(rs) <= rs.len(),
        count_ignored(rs) <= rs.len(),
    decreases rs.len(),
{
    if rs.len() > 0 {
        lemma_counts_bounded(rs.drop_last());
    }
}

impl VerificationAggregate {
    /// The counts of a run: every result is discovered; passed ones succeeded
    /// without being ignored; absence is one outcome of an empty search.
    pub fn from_results(results: &[GuideVerificationResult]) -> (a: Self)
        ensures
            a.discovered == results@.len(),
            a.passed == count_passed(results@),
            a.failed == count_failed(results@),
            a.ignored == count_ignored(results@),
            a.absent == (if results@.len() == 0 {
                1usize
            } else {
                0usize
            }),
    {
        let mut passed: usize = 0;
        let mut failed: usize = 0;
        let mut ignored: usize = 0;
        let mut i: usize = 0;
        assert(results@.take(0) =~= Seq::<GuideVerificationResult>::empty());
        while i < results.len()
            invariant
                i <= results@.len(),
                passed == count_passed(results@.take(i as int)),
                failed == count_failed(results@.take(i as int)),
                ignored == count_ignored(results@.take(i as int)),
            decreases results@.len() - i,
        {
            proof {
                lemma_counts_bounded(results@.take(i as int));
            }
            assert(results@.take(i + 1).drop_last() =~= results@.take(i as int));
            let r = &results[i];
            if r.success && !r.ignored {
                passed = passed + 1;
            }
            if !r.success {
                failed = failed + 1;
            }
            if r.ignored {
                ignored = ignored + 1;
            }
            i = i + 1;
        }
        assert(results@.take(results@.len() as int) =~= results@);
        let discovered = results.len();
        VerificationAggregate {
            discovered,
            passed,
            failed,
            ignored,
            absent: if discovered == 0 {
                1
            } else {
                0
            },
        }
    }

    pub open spec fn spec_summary(self) -> Seq<char> {
        "Total: "@ + spec_decimal(self.discovered as nat) + ", Discovered: "@ + spec_decimal(
            self.discovered as nat,
        ) + ", Passed: "@ + spec_decimal(self.passed as nat) + ", Failed: "@ + spec_decimal(
            self.failed as nat,
        ) + ", Ignored: "@ + spec_decimal(self.ignored as nat) + ", Absent: "@ + spec_decimal(
            self.absent as nat,
        )
    }

    /// The one-line summary of the counts.
    pub fn summary(&self) -> (s: String)
        ensures
            s@ == self.spec_summary(),
    {
        let mut s = String::new();
        push_str(&mut s, "Total: ");
        push_decimal(&mut s, self.discovered);
        push_str(&mut s, ", Discovered: ");
        push_decimal(&mut s, self.discovered);
        push_str(&mut s, ", Passed: ");
        push_decimal(&mut s, self.passed);
        push_str(&mut s, ", Failed: ");
        push_decimal(&mut s, self.failed);
        push_str(&mut s, ", Ignored: ");
        push_decimal(&mut s, self.ignored);
        push_str(&mut s, ", Absent: ");
        push_decimal(&mut s, self.absent);
        s
    }
}


/// `r` is the outcome of the guide `guide` (in directory `root`) read from
/// `content` and checked against the listings `snap`: a parse failure, the
/// ignored outcome, or the check of the parsed tree.
pub open spec fn single_outcome(
    guide: String,
    root: String,
    content: Seq<char>,
    snap: Seq<DirListing>,
    r: GuideVerificationResult,
) -> bool {
    &&& r.guide == guide
    &&& r.root == root
    &&& match spec_parse(content) {
        Err(e) => !r.success && !r.ignored && (r.error matches Some(x) && x.view() == AppErrorView::Syntax(e)),
        Ok(g) => if g.ignore {
            r.success && r.ignored && r.error is None
        } else {
            exists|t: Seq<NavigationGuideLine>|
                flatten(t) == g.lines && well_nested(t, 0) && match spec_verify(t, snapshot_view(snap), resolver(snap)) {
                    Ok(()) => r.success && !r.ignored && r.error is None,
                    Err(e) => !r.success && !r.ignored && (r.error matches Some(x) && x.view() == e),
                }
        },
    }
}

/// The outcome of one guide read from `content`, checked against the
/// listings of its directories: a parse failure, the ignored outcome, or the
/// check of the parsed tree.
pub fn verify_single_guide(
    guide: String,
    root: String,
    content: &str,
    root_path: std::path::PathBuf,
    listings: &[DirListing],
) -> (r: GuideVerificationResult)
    ensures
        single_outcome(guide, root, content@, listings@, r),
{
    let parsed = Parser::new().parse(content);
    let g = match parsed {
        Err(e) => {
            return GuideVerificationResult { guide, root, success: false, error: Some(e), ignored: false };
        },
        Ok(g) => g,
    };
    if g.ignore {
        return GuideVerificationResult { guide, root, success: true, error: None, ignored: true };
    }
    let verifier = Verifier::new(root_path);
    let outcome = verifier.verify(&g, listings);
    proof {
        assert(flatten(g.items@) == flatten(g.items@));
    }
    match outcome {
        Ok(()) => GuideVerificationResult { guide, root, success: true, error: None, ignored: false },
        Err(e) => GuideVerificationResult { guide, root, success: false, error: Some(e), ignored: false },
    }
}


/// Where a report line goes.
#[derive(Clone, Copy, Debug, PartialEq, Eq, Structural)]
pub enum Stream {
    Stdout,
    Stderr,
}

/// One line of a report.
pub struct OutputLine {
    pub stream: Stream,
    pub text: String,
}

pub open spec fn line_views(ls: Seq<OutputLine>) -> Seq<(Stream, Seq<char>)> {
    ls.map_values(|l: OutputLine| (l.stream, l.text@))
}

pub open spec fn error_text(e: Option<AppError>) -> Seq<char> {
    match e {
        Some(x) => x.spec_message(),
        None => seq![],
    }
}

/// The diagnostic of a failed result in a hook or CI mode.
pub open spec fn guide_error_text(r: GuideVerificationResult, mode: ExecutionMode) -> Seq<char> {
    match r.error {
        Some(e) => spec_format_guide_error(e, mode, GuideCommand::Verify, r.guide@, r.root@, None),
        None => seq![],
    }
}

/// The lines reporting one result.
pub open spec fn result_lines(r: GuideVerificationResult, mode: ExecutionMode, level: LogLevel) -> Seq<
    (Stream, Seq<char>),
> {
    let g = r.guide@;
    let quiet = level == LogLevel::Quiet;
    match mode {
        ExecutionMode::GitHubActions => if r.ignored {
            if quiet {
                seq![]
            } else {
                seq![(Stream::Stderr, "⚠️  Skipping verification: guide at "@ + g + " has ignore=true"@)]
            }
        } else if r.success {
            if quiet {
                seq![]
            } else {
                seq![(Stream::Stdout, "✓ "@ + g + ": verified"@)]
            }
        } else if r.error is Some {
            seq![(Stream::Stderr, guide_error_text(r, mode))]
        } else {
            seq![]
        },
        ExecutionMode::PostToolUse => if r.ignored {
            if quiet {
                seq![]
            } else {
                seq![(Stream::Stderr, "Warning: Skipping verification of "@ + g + " (marked with ignore=true)"@)]
            }
        } else if !r.success && r.error is Some {
            seq![(Stream::Stderr, guide_error_text(r, mode))]
        } else {
            seq![]
        },
        _ => if r.ignored {
            if quiet {
                seq![]
            } else {
                seq![(Stream::Stderr, "Warning: Skipping verification of "@ + g + " (marked with ignore=true)"@)]
            }
        } else if r.success {
            if level == LogLevel::Verbose {
                seq![(Stream::Stdout, "✓ "@ + g + ": valid"@)]
            } else {
                seq![]
            }
        } else if r.error is Some {
            seq![(Stream::Stderr, "✗ "@ + g + ":"@), (Stream::Stderr, error_text(r.error)), (Stream::Stderr, seq![])]
        } else {
            seq![]
        },
    }
}

pub open spec fn all_result_lines(rs: Seq<GuideVerificationResult>, mode: ExecutionMode, level: LogLevel) -> Seq<
    (Stream, Seq<char>),
>
    decreases rs.len(),
{
    if rs.len() == 0 {
        seq![]
    } else {
        all_result_lines(rs.drop_last(), mode, level) + result_lines(rs.last(), mode, level)
    }
}

/// The closing summary of a run with results.
pub open spec fn summary_lines(a: VerificationAggregate, mode: ExecutionMode, level: LogLevel) -> Seq<
    (Stream, Seq<char>),
> {
    let s = a.spec_summary();
    if level == LogLevel::Quiet {
        seq![]
    } else {
        match mode {
            ExecutionMode::GitHubActions => if a.failed == 0 {
                if a.ignored == 0 {
                    seq![(Stream::Stdout, "✓ All navigation guides verified ("@ + s + ")"@)]
                } else {
                    seq![(Stream::Stdout, "Navigation guide verification complete ("@ + s + ")"@)]
                }
            } else {
                seq![(Stream::Stderr, "❌ Navigation guide verification failed: "@ + s)]
            },
            _ => if a.failed == 0 {
                let head = if a.ignored == 0 {
                    "✓ All navigation guides are valid and match filesystem"@
                } else if a.passed == 0 {
                    "No navigation guides were verified; ignored guides were discovered"@
                } else {
                    "Navigation guide verification complete; active guides passed and ignored guides were skipped"@
                };
                seq![(Stream::Stdout, head), (Stream::Stdout, "  "@ + s)]
            } else {
                seq![(Stream::Stderr, "✗ Some navigation guides failed verification"@), (Stream::Stderr, "  "@ + s)]
            },
        }
    }
}

/// The report of a run and whether it passed: an empty run is an absent
/// failure, never vacuous success; otherwise the run passes when no guide failed.
pub open spec fn spec_report(rs: Seq<GuideVerificationResult>, mode: ExecutionMode, level: LogLevel, a: VerificationAggregate) -> (
    Seq<(Stream, Seq<char>)>,
    bool,
) {
    if a.absent != 0 {
        (
            if level == LogLevel::Quiet {
                seq![]
            } else {
                seq![
                    (Stream::Stderr, "zero navigation guides were verified"@),
                    (Stream::Stderr, "  "@ + a.spec_summary()),
                ]
            },
            false,
        )
    } else {
        (all_result_lines(rs, mode, level) + summary_lines(a, mode, level), a.failed == 0)
    }
}

pub(crate) fn push_line(out: &mut Vec<OutputLine>, stream: Stream, text: String)
    ensures
        line_views(final(out)@) == line_views(old(out)@).push((stream, text@)),
{
    let ghost before = out@;
    let l = OutputLine { stream, text };
    let ghost lv = l;
    out.push(l);
    assert(out@ == before.push(lv));
    assert(line_views(out@) =~= line_views(before).push((stream, lv.text@)));
}

fn error_text_exec(e: &Option<AppError>) -> (s: String)
    ensures
        s@ == error_text(*e),
{
    match e {
        Some(x) => x.message(),
        None => String::new(),
    }
}

fn result_lines_exec(r: &GuideVerificationResult, mode: ExecutionMode, level: LogLevel, out: &mut Vec<OutputLine>)
    ensures
        line_views(final(out)@) == line_views(old(out)@) + result_lines(*r, mode, level),
{
    let ghost base = line_views(out@);
    let quiet = match level {
        LogLevel::Quiet => true,
        _ => false,
    };
    let g = r.guide.as_str();
    match mode {
        ExecutionMode::GitHubActions => {
            if r.ignored {
                if !quiet {
                    let mut t = String::new();
                    push_str(&mut t, "⚠️  Skipping verification: guide at ");
                    push_str(&mut t, g);
                    push_str(&mut t, " has ignore=true");
                    push_line(out, Stream::Stderr, t);
                }
            } else if r.success {
                if !quiet {
                    let mut t = String::new();
                    push_str(&mut t, "✓ ");
                    push_str(&mut t, g);
                    push_str(&mut t, ": verified");
                    push_line(out, Stream::Stdout, t);
                }
            } else if let Some(e) = &r.error {
                let t = format_guide_error(e, mode, GuideCommand::Verify, g, r.root.as_str(), None);
                push_line(out, Stream::Stderr, t);
            }
        },
        ExecutionMode::PostToolUse => {
            if r.ignored {
                if !quiet {
                    let mut t = String::new();
                    push_str(&mut t, "Warning: Skipping verification of ");
                    push_str(&mut t, g);
                    push_str(&mut t, " (marked with ignore=true)");
                    push_line(out, Stream::Stderr, t);
                }
            } else if !r.success && r.error.is_some() {
                if let Some(e) = &r.error {
                    let t = format_guide_error(e, mode, GuideCommand::Verify, g, r.root.as_str(), None);
                    push_line(out, Stream::Stderr, t);
                }
            }
        },
        _ => {
            if r.ignored {
                if !quiet {
                    let mut t = String::new();
                    push_str(&mut t, "Warning: Skipping verification of ");
                    push_str(&mut t, g);
                    push_str(&mut t, " (marked with ignore=true)");
                    push_line(out, Stream::Stderr, t);
                }
            } else if r.success {
                let verbose = match level {
                    LogLevel::Verbose => true,
                    _ => false,
                };
                if verbose {
                    let mut t = String::new();
                    push_str(&mut t, "✓ ");
                    push_str(&mut t, g);
                    push_str(&mut t, ": valid");
                    push_line(out, Stream::Stdout, t);
                }
            } else if r.error.is_some() {
                let mut t = String::new();
                push_str(&mut t, "✗ ");
                push_str(&mut t, g);
                push_str(&mut t, ":");
                push_line(out, Stream::Stderr, t);
                push_line(out, Stream::Stderr, error_text_exec(&r.error));
                push_line(out, Stream::Stderr, String::new());
            }
        },
    }
    assert(line_views(out@) =~= base + result_lines(*r, mode, level));
}

fn summary_lines_exec(a: &VerificationAggregate, mode: ExecutionMode, level: LogLevel, out: &mut Vec<OutputLine>)
    ensures
        line_views(final(out)@) == line_views(old(out)@) + summary_lines(*a, mode, level),
{
    let ghost base = line_views(out@);
    let quiet = match level {
        LogLevel::Quiet => true,
        _ => false,
    };
    if !quiet {
        let s = a.summary();
        match mode {
            ExecutionMode::GitHubActions => {
                if a.failed == 0 {
                    let mut t = String::new();
                    if a.ignored == 0 {
                        push_str(&mut t, "✓ All navigation guides verified (");
                    } else {
                        push_str(&mut t, "Navigation guide verification complete (");
                    }
                    push_str(&mut t, s.as_str());
                    push_str(&mut t, ")");
                    push_line(out, Stream::Stdout, t);
                } else {
                    let mut t = String::new();
                    push_str(&mut t, "❌ Navigation guide verification failed: ");
                    push_str(&mut t, s.as_str());
                    push_line(out, Stream::Stderr, t);
                }
            },
            _ => {
                let mut indented = String::new();
                push_str(&mut indented, "  ");
                push_str(&mut indented, s.as_str());
                if a.failed == 0 {
                    let head = if a.ignored == 0 {
                        "✓ All navigation guides are valid and match filesystem".to_owned()
                    } else if a.passed == 0 {
                        "No navigation guides were verified; ignored guides were discovered".to_owned()
                    } else {
                        "Navigation guide verification complete; active guides passed and ignored guides were skipped".to_owned()
                    };
                    push_line(out, Stream::Stdout, head);
                    push_line(out, Stream::Stdout, indented);
                } else {
                    push_line(out, Stream::Stderr, "✗ Some navigation guides failed verification".to_owned());
                    push_line(out, Stream::Stderr, indented);
                }
            },
        }
    }
    assert(line_views(out@) =~= base + summary_lines(*a, mode, level));
}

/// The report lines of a run and whether it passed.
pub fn render_results(results: &[GuideVerificationResult], config: &Config) -> (r: (Vec<OutputLine>, bool))
    ensures
        (line_views(r.0@), r.1) == spec_report(
            results@,
            config.execution_mode,
            config.log_level,
            VerificationAggregate::spec_from(results@),
        ),
{
    let a = VerificationAggregate::from_results(results);
    assert(a == VerificationAggregate::spec_from(results@));
    let mut out: Vec<OutputLine> = Vec::new();
    assert(line_views(out@) =~= Seq::<(Stream, Seq<char>)>::empty());
    let quiet = match config.log_level {
        LogLevel::Quiet => true,
        _ => false,
    };
    if a.absent != 0 {
        if !quiet {
            push_line(&mut out, Stream::Stderr, "zero navigation guides were verified".to_owned());
            let mut t = String::new();
            push_str(&mut t, "  ");
            let s = a.summary();
            push_str(&mut t, s.as_str());
            push_line(&mut out, Stream::Stderr, t);
        }
        return (out, false);
    }
    let mut i: usize = 0;
    assert(results@.take(0) =~= Seq::<GuideVerificationResult>::empty());
    while i < results.len()
        invariant
            i <= results@.len(),
            line_views(out@) == all_result_lines(results@.take(i as int), config.execution_mode, config.log_level),
        decreases results@.len() - i,
    {
        assert(results@.take(i + 1).drop_last() =~= results@.take(i as int));
        result_lines_exec(&results[i], config.execution_mode, config.log_level, &mut out);
        i = i + 1;
    }
    assert(results@.take(results@.len() as int) =~= results@);
    summary_lines_exec(&a, config.execution_mode, config.log_level, &mut out);
    (out, a.failed == 0)
}

/// Whether the report of a run says it passed (its lines come from `render_results`).
pub fn display_results(results: &[GuideVerificationResult], config: &Config) -> (r: Result<bool, AppError>)
    ensures
        r == Ok::<bool, AppError>(
            spec_report(results@, config.execution_mode, config.log_level, VerificationAggregate::spec_from(results@)).1,
        ),
{
    let (_, ok) = render_results(results, config);
    Ok(ok)
}

impl VerificationAggregate {
    pub open spec fn spec_from(rs: Seq<GuideVerificationResult>) -> VerificationAggregate {
        VerificationAggregate {
            discovered: rs.len() as usize,
            passed: count_passed(rs) as usize,
            failed: count_failed(rs) as usize,
            ignored: count_ignored(rs) as usize,
            absent: if rs.len() == 0 {
                1usize
            } else {
                0usize
            },
        }
    }
}


/// An empty run is an absent failure, never vacuous success.
pub proof fn law_empty_run_fails(mode: ExecutionMode, level: LogLevel)
    ensures
        !spec_report(
            Seq::<GuideVerificationResult>::empty(),
            mode,
            level,
            VerificationAggregate::spec_from(Seq::<GuideVerificationResult>::empty()),
        ).1,
        VerificationAggregate::spec_from(Seq::<GuideVerificationResult>::empty()).absent == 1,
{
}

/// A run passes exactly when it found a guide and no guide failed.
pub proof fn law_run_passes_iff_nothing_failed(rs: Seq<GuideVerificationResult>, mode: ExecutionMode, level: LogLevel)
    requires
        rs.len() <= usize::MAX,
    ensures
        spec_report(rs, mode, level, VerificationAggregate::spec_from(rs)).1 <==> rs.len() > 0 && count_failed(rs) == 0,
{
    lemma_counts_bounded(rs);
}

/// When ignored results count as processed, every result is exactly one
/// of passed, failed or ignored.
pub proof fn law_counts_partition_the_run(rs: Seq<GuideVerificationResult>)
    requires
        forall|i: int| 0 <= i < rs.len() ==> (#[trigger] rs[i]).ignored ==> rs[i].success,
    ensures
        count_passed(rs) + count_failed(rs) + count_ignored(rs) == rs.len(),
    decreases rs.len(),
{
    if rs.len() > 0 {
        assert forall|i: int| 0 <= i < rs.drop_last().len() && (#[trigger] rs.drop_last()[i]).ignored implies rs.drop_last()[i].success by {
            assert(rs.drop_last()[i] == rs[i]);
        }
        law_counts_partition_the_run(rs.drop_last());
        assert(rs.last() == rs[rs.len() - 1]);
    }
}


// ---------------------------------------------------------------------------
// Discovery: finding the guides below a search root

/// What the search does with a directory entry that no exclusion pattern matched.
#[derive(Clone, Copy, Debug, PartialEq, Eq, Structural)]
pub enum ChildAction {
    /// Passed over: neither named like the guide nor a directory, or a link
    /// with another name.
    Skip,
    /// A link named like the guide: it must pass the containment check of the
    /// search root (an unsafe one fails the search) and is never a guide.
    CheckLink,
    /// Named like the guide: it must pass the containment check, then it is a guide.
    Guide,
    /// A directory, searched after the current one.
    Descend,
}

/// The action for an entry with raw name `name`, observed without following
/// links; `guide_name` is the UTF-8 spelling of the guide's file name.
pub open spec fn spec_child_action(name: Seq<u8>, guide_name: Seq<u8>, is_link: bool, is_dir: bool) -> ChildAction {
    if is_link {
        if name == guide_name {
            ChildAction::CheckLink
        } else {
            ChildAction::Skip
        }
    } else if name == guide_name {
        ChildAction::Guide
    } else if is_dir {
        ChildAction::Descend
    } else {
        ChildAction::Skip
    }
}

fn bytes_equal(a: &[u8], b: &[u8]) -> (r: bool)
    ensures
        r == (a@ == b@),
{
    if a.len() != b.len() {
        return false;
    }
    let mut i: usize = 0;
    while i < a.len()
        invariant
            i <= a@.len() == b@.len(),
            forall|j: int| 0 <= j < i ==> a@[j] == b@[j],
        decreases a@.len() - i,
    {
        if a[i] != b[i] {
            return false;
        }
        i = i + 1;
    }
    assert(a@ =~= b@);
    true
}

/// What the search does with the entry `name` that no exclusion matched.
pub fn child_action(name: &[u8], guide_name: &str, is_link: bool, is_dir: bool) -> (r: ChildAction)
    ensures
        r == spec_child_action(name@, guide_name.spec_bytes(), is_link, is_dir),
{
    let named = bytes_equal(name, guide_name.as_bytes());
    if is_link {
        if named {
            ChildAction::CheckLink
        } else {
            ChildAction::Skip
        }
    } else if named {
        ChildAction::Guide
    } else if is_dir {
        ChildAction::Descend
    } else {
        ChildAction::Skip
    }
}

/// Before the search root is touched, the guide name must be one ordinary
/// file name (`rendered_name` is its displayed form) and every exclusion
/// pattern must compile; the compiled patterns are returned.
pub fn discovery_setup(guide_name: &str, rendered_name: &str, exclude_patterns: &[String]) -> (r: Result<
    ExclusionMatcher,
    AppError,
>)
    ensures
        match implicit_name_error(guide_name@) {
            Some(reason) => r matches Err(AppError::Other(m)) && m@ == "invalid implicit guide name "@
                + rendered_name@ + ": "@ + reason,
            None => match r {
                Ok(m) => m.wf() && spec_compile_all(string_views(exclude_patterns@)) == Ok::<
                    Seq<PatternView>,
                    Seq<char>,
                >(m.view()),
                Err(e) => e matches AppError::Other(msg) && spec_compile_all(string_views(exclude_patterns@))
                    == Err::<Seq<PatternView>, Seq<char>>(msg@),
            },
        },
{
    if let Err(reason) = validate_implicit_name(guide_name) {
        let error = GuideInputError::InvalidName { name: rendered_name.to_owned(), reason };
        return Err(AppError::Other(error.message()));
    }
    ExclusionMatcher::compile(exclude_patterns)
}


/// Why a guide search failed while walking the filesystem. Paths are held in
/// their rendered, displayable form and error kinds as their names.
#[derive(Debug, PartialEq, Eq)]
pub enum DiscoveryFailure {
    /// The search root could not be inspected.
    RootUninspectable { root: String, kind: String },
    /// The search root is not a directory.
    RootNotDirectory { root: String },
    /// A directory could not be listed: the root itself (`directory` is `None`)
    /// or an included directory relative to it.
    Unenumerable { root: String, directory: Option<String>, kind: String },
    /// An included entry could not be inspected.
    EntryUninspectable { entry: String, kind: String },
}

impl DiscoveryFailure {
    pub open spec fn spec_message(self) -> Seq<char> {
        "filesystem walk error: "@ + match self {
            DiscoveryFailure::RootUninspectable { root, kind } => "could not inspect the selected recursive root "@
                + root@ + " ("@ + kind@ + ")"@,
            DiscoveryFailure::RootNotDirectory { root } => "the selected recursive root "@ + root@
                + " is not a directory"@,
            DiscoveryFailure::Unenumerable { root, directory, kind } => match directory {
                None => "could not enumerate the selected recursive root "@ + root@ + " ("@ + kind@ + ")"@,
                Some(d) => "could not enumerate included directory "@ + d@ + " ("@ + kind@ + ")"@,
            },
            DiscoveryFailure::EntryUninspectable { entry, kind } => "could not inspect included entry "@
                + entry@ + " ("@ + kind@ + ")"@,
        }
    }

    /// The diagnostic text of the failure.
    pub fn message(&self) -> (s: String)
        ensures
            s@ == self.spec_message(),
    {
        let mut s = String::new();
        push_str(&mut s, "filesystem walk error: ");
        match self {
            DiscoveryFailure::RootUninspectable { root, kind } => {
                push_str(&mut s, "could not inspect the selected recursive root ");
                push_str(&mut s, root.as_str());
                push_str(&mut s, " (");
                push_str(&mut s, kind.as_str());
                push_str(&mut s, ")");
            },
            DiscoveryFailure::RootNotDirectory { root } => {
                push_str(&mut s, "the selected recursive root ");
                push_str(&mut s, root.as_str());
                push_str(&mut s, " is not a directory");
            },
            DiscoveryFailure::Unenumerable { root, directory, kind } => {
                match directory {
                    None => {
                        push_str(&mut s, "could not enumerate the selected recursive root ");
                        push_str(&mut s, root.as_str());
                    },
                    Some(d) => {
                        push_str(&mut s, "could not enumerate included directory ");
                        push_str(&mut s, d.as_str());
                    },
                }
                push_str(&mut s, " (");
                push_str(&mut s, kind.as_str());
                push_str(&mut s, ")");
            },
            DiscoveryFailure::EntryUninspectable { entry, kind } => {
                push_str(&mut s, "could not inspect included entry ");
                push_str(&mut s, entry.as_str());
                push_str(&mut s, " (");
                push_str(&mut s, kind.as_str());
                push_str(&mut s, ")");
            },
        }
        s
    }

    /// The application error that carries the failure.
    pub fn into_error(&self) -> (e: AppError)
        ensures
            e matches AppError::Other(m) && m@ == self.spec_message(),
    {
        AppError::Other(self.message())
    }
}

} // verus!
