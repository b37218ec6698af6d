//! Command-line decisions that involve no I/O: option values, environment
//! defaults, the resolved configuration and exit codes. Paths are carried as
//! the raw bytes of their platform spelling.

use vstd::prelude::*;
use crate::errors::AppError;
use crate::text::{chars_of, push_decimal, push_str, spec_decimal, utf8_to_str};
use crate::types::{Config, ExecutionMode, LogLevel};
use crate::exclusion::string_views;
use vstd::utf8::{decode_utf8, valid_utf8};

verus! {

pub const GUIDE_PATH: &'static str = "AGENTIC_NAVIGATION_GUIDE_PATH";

pub const GUIDE_ROOT: &'static str = "AGENTIC_NAVIGATION_GUIDE_ROOT";

pub const GUIDE_NAME: &'static str = "AGENTIC_NAVIGATION_GUIDE_NAME";

pub const LOG_MODE: &'static str = "AGENTIC_NAVIGATION_GUIDE_LOG_MODE";

pub const EXECUTION_MODE: &'static str = "AGENTIC_NAVIGATION_GUIDE_EXECUTION_MODE";

pub const DEFAULT_GUIDE_NAME: &'static str = "AGENTIC_NAVIGATION_GUIDE.md";

// ---------------------------------------------------------------------------
// Numeric option values

pub open spec fn is_digit(c: char) -> bool {
    '0' <= c && c <= '9'
}

pub open spec fn digits_value(s: Seq<char>) -> nat
    decreases s.len(),
{
    if s.len() == 0 {
        0
    } else {
        digits_value(s.drop_last()) * 10 + (s.last() as nat - '0' as nat) as nat
    }
}

/// `usize::from_str`: an optional `+`, then one or more ASCII digits whose
/// value fits in `usize`.
pub open spec fn spec_parse_usize(s: Seq<char>) -> Option<nat> {
    let body = unsigned_body(s);
    if body.len() > 0 && all_digits(body) && digits_value(body) <= usize::MAX {
        Some(digits_value(body))
    } else {
        None
    }
}

/// The text after an optional leading `+`.
pub open spec fn unsigned_body(s: Seq<char>) -> Seq<char> {
    if s.len() > 0 && s[0] == '+' {
        s.drop_first()
    } else {
        s
    }
}

pub open spec fn all_digits(b: Seq<char>) -> bool {
    forall|i: int| 0 <= i < b.len() ==> is_digit(#[trigger] b[i])
}

pub fn parse_usize(value: &str) -> (r: Option<usize>)
    ensures
        match r {
            Some(n) => spec_parse_usize(value@) == Some(n as nat),
            None => spec_parse_usize(value@) is None,
        },
{
    let s = chars_of(value);
    let start: usize = if s.len() > 0 && s[0] == '+' {
        1
    } else {
        0
    };
    let ghost body = if s@.len() > 0 && s@[0] == '+' {
        s@.drop_first()
    } else {
        s@
    };
    assert(body =~= s@.subrange(start as int, s@.len() as int));
    if start >= s.len() {
        return None;
    }
    let mut v: usize = 0;
    let mut i = start;
    while i < s.len()
        invariant
            start <= i <= s@.len(),
            s@ == value@,
            body == unsigned_body(value@),
            body == s@.subrange(start as int, s@.len() as int),
            forall|j: int| start <= j < i ==> is_digit(#[trigger] s@[j]),
            v as nat == digits_value(s@.subrange(start as int, i as int)),
        decreases s@.len() - i,
    {
        let c = s[i];
        assert(s@.subrange(start as int, i + 1).drop_last() =~= s@.subrange(start as int, i as int));
        if !('0' <= c && c <= '9') {
            assert(body[i - start] == s@[i as int]);
            assert(!is_digit(body[i - start]));
            assert(!(forall|k: int| 0 <= k < body.len() ==> is_digit(#[trigger] body[k])));
            assert(!all_digits(body));
            return None;
        }
        let d = (c as u32 - '0' as u32) as usize;
        let next = match v.checked_mul(10) {
            None => {
                proof {
                    lemma_digits_monotone(s@, start as int, i + 1, s@.len() as int);
                    lemma_all_digits_prefix_bound(body, s@, start as int, i as int);
                }
                return None;
            },
            Some(m) => match m.checked_add(d) {
                None => {
                    proof {
                        lemma_digits_monotone(s@, start as int, i + 1, s@.len() as int);
                        lemma_all_digits_prefix_bound(body, s@, start as int, i as int);
                    }
                    return None;
                },
                Some(x) => x,
            },
        };
        v = next;
        i = i + 1;
    }
    assert(s@.subrange(start as int, s@.len() as int) == body);
    assert forall|k: int| 0 <= k < body.len() implies is_digit(#[trigger] body[k]) by {
        assert(body[k] == s@[start + k]);
    }
    assert(all_digits(body));
    Some(v)
}

/// A longer run of digits is worth at least as much.
proof fn lemma_digits_monotone(s: Seq<char>, a: int, i: int, j: int)
    requires
        0 <= a <= i <= j <= s.len(),
        forall|k: int| a <= k < j ==> is_digit(#[trigger] s[k]) || k >= i,
    ensures
        digits_value(s.subrange(a, i)) <= digits_value(s.subrange(a, j)),
    decreases j - i,
{
    if j > i {
        lemma_digits_monotone(s, a, i, j - 1);
        assert(s.subrange(a, j).drop_last() =~= s.subrange(a, j - 1));
    }
}

/// When the digits up to and including index `i` already overflow, either
/// the whole body is not all digits or its value overflows.
proof fn lemma_all_digits_prefix_bound(body: Seq<char>, s: Seq<char>, start: int, i: int)
    requires
        0 <= start <= i < s.len(),
        body == s.subrange(start, s.len() as int),
        forall|j: int| start <= j <= i ==> is_digit(#[trigger] s[j]),
        digits_value(s.subrange(start, i + 1)) > usize::MAX,
    ensures
        !(all_digits(body) && digits_value(body) <= usize::MAX),
{
    if all_digits(body) {
        assert forall|k: int| start <= k < s.len() implies is_digit(#[trigger] s[k]) by {
            assert(body[k - start] == s[k]);
        }
        lemma_digits_monotone_all(s, start, i + 1, s.len() as int);
        assert(s.subrange(start, s.len() as int) == body);
    }
}

proof fn lemma_digits_monotone_all(s: Seq<char>, a: int, i: int, j: int)
    requires
        0 <= a <= i <= j <= s.len(),
        forall|k: int| a <= k < j ==> is_digit(#[trigger] s[k]),
    ensures
        digits_value(s.subrange(a, i)) <= digits_value(s.subrange(a, j)),
    decreases j - i,
{
    if j > i {
        lemma_digits_monotone_all(s, a, i, j - 1);
        assert(s.subrange(a, j).drop_last() =~= s.subrange(a, j - 1));
    }
}

/// An option value that must be an integer from `minimum` through `maximum`.
pub open spec fn spec_parse_bounded(value: Seq<char>, minimum: usize, maximum: usize, label: Seq<char>) -> Result<
    usize,
    Seq<char>,
> {
    match spec_parse_usize(value) {
        None => Err(
            label + " must be an integer from "@ + spec_decimal(minimum as nat) + " through "@
                + spec_decimal(maximum as nat),
        ),
        Some(n) => if minimum <= n <= maximum {
            Ok(n as usize)
        } else {
            Err(label + " must be from "@ + spec_decimal(minimum as nat) + " through "@ + spec_decimal(maximum as nat))
        },
    }
}

pub fn parse_bounded(value: &str, minimum: usize, maximum: usize, label: &str) -> (r: Result<usize, String>)
    ensures
        match r {
            Ok(n) => spec_parse_bounded(value@, minimum, maximum, label@) == Ok::<usize, Seq<char>>(n),
            Err(m) => spec_parse_bounded(value@, minimum, maximum, label@) == Err::<usize, Seq<char>>(m@),
        },
{
    match parse_usize(value) {
        None => {
            let mut m = String::new();
            push_str(&mut m, label);
            push_str(&mut m, " must be an integer from ");
            push_decimal(&mut m, minimum);
            push_str(&mut m, " through ");
            push_decimal(&mut m, maximum);
            Err(m)
        },
        Some(n) => {
            if minimum <= n && n <= maximum {
                Ok(n)
            } else {
                let mut m = String::new();
                push_str(&mut m, label);
                push_str(&mut m, " must be from ");
                push_decimal(&mut m, minimum);
                push_str(&mut m, " through ");
                push_decimal(&mut m, maximum);
                Err(m)
            }
        },
    }
}

/// An `--indent` value: 1 through 16.
pub fn parse_indent(value: &str) -> (r: Result<usize, String>)
    ensures
        match r {
            Ok(n) => spec_parse_bounded(value@, 1, 16, "indent size"@) == Ok::<usize, Seq<char>>(n),
            Err(m) => spec_parse_bounded(value@, 1, 16, "indent size"@) == Err::<usize, Seq<char>>(m@),
        },
{
    parse_bounded(value, 1, 16, "indent size")
}

/// A `--depth` value: 0 through 256.
pub fn parse_depth(value: &str) -> (r: Result<usize, String>)
    ensures
        match r {
            Ok(n) => spec_parse_bounded(value@, 0, 256, "maximum depth"@) == Ok::<usize, Seq<char>>(n),
            Err(m) => spec_parse_bounded(value@, 0, 256, "maximum depth"@) == Err::<usize, Seq<char>>(m@),
        },
{
    parse_bounded(value, 0, 256, "maximum depth")
}


// ---------------------------------------------------------------------------
// Environment defaults

/// The raw values of the environment variables, captured once.
#[derive(Default)]
pub struct EnvironmentDefaults {
    pub guide_path: Option<Vec<u8>>,
    pub guide_root: Option<Vec<u8>>,
    pub guide_name: Option<Vec<u8>>,
    pub log_mode: Option<Vec<u8>>,
    pub execution_mode: Option<Vec<u8>>,
}

/// An environment default that cannot be used; its value is never shown.
#[derive(Debug)]
pub struct EnvironmentError {
    pub variable: String,
    pub expectation: String,
}

impl EnvironmentError {
    pub open spec fn view(self) -> (Seq<char>, Seq<char>) {
        (self.variable@, self.expectation@)
    }

    pub open spec fn spec_message(self) -> Seq<char> {
        "invalid environment default "@ + self.variable@ + ": "@ + self.expectation@ + "; the value is not shown"@
    }

    /// The diagnostic text of the error.
    pub fn message(&self) -> (s: String)
        ensures
            s@ == self.spec_message(),
    {
        let mut s = String::new();
        push_str(&mut s, "invalid environment default ");
        push_str(&mut s, self.variable.as_str());
        push_str(&mut s, ": ");
        push_str(&mut s, self.expectation.as_str());
        push_str(&mut s, "; the value is not shown");
        s
    }
}

fn env_error(variable: &str, expectation: &str) -> (e: EnvironmentError)
    ensures
        e.view() == (variable@, expectation@),
{
    EnvironmentError { variable: variable.to_owned(), expectation: expectation.to_owned() }
}

pub open spec fn opt_bytes(o: Option<Vec<u8>>) -> Option<Seq<u8>> {
    match o {
        Some(v) => Some(v@),
        None => None,
    }
}

pub open spec fn opt_text(o: Option<String>) -> Option<Seq<char>> {
    match o {
        Some(v) => Some(v@),
        None => None,
    }
}

pub type EnvOutcome<T> = Result<T, (Seq<char>, Seq<char>)>;

/// A path default: absent, or a nonempty value.
pub open spec fn spec_selected_path(raw: Option<Seq<u8>>, variable: Seq<char>) -> EnvOutcome<Option<Seq<u8>>> {
    match raw {
        None => Ok(None),
        Some(r) => if r.len() == 0 {
            Err((variable, "expected a nonempty filesystem path"@))
        } else {
            Ok(Some(r))
        },
    }
}

pub open spec fn is_log_mode(v: Seq<char>) -> bool {
    v == "quiet"@ || v == "default"@ || v == "verbose"@
}

pub open spec fn is_execution_mode(v: Seq<char>) -> bool {
    v == "default"@ || v == "post-tool-use"@ || v == "pre-commit-hook"@ || v == "github-actions"@
}

pub open spec fn spec_log_mode(raw: Option<Seq<u8>>) -> EnvOutcome<Option<Seq<char>>> {
    match raw {
        None => Ok(None),
        Some(r) => if valid_utf8(r) && is_log_mode(decode_utf8(r)) {
            Ok(Some(decode_utf8(r)))
        } else {
            Err((LOG_MODE@, "expected one of: quiet, default, verbose"@))
        },
    }
}

pub open spec fn spec_execution_mode(raw: Option<Seq<u8>>) -> EnvOutcome<Option<Seq<char>>> {
    match raw {
        None => Ok(None),
        Some(r) => if valid_utf8(r) && is_execution_mode(decode_utf8(r)) {
            Ok(Some(decode_utf8(r)))
        } else {
            Err((EXECUTION_MODE@, "expected one of: default, post-tool-use, pre-commit-hook, github-actions"@))
        },
    }
}

/// Why a guide file name is not one ordinary filename component, if it is not.
pub open spec fn implicit_name_error(n: Seq<char>) -> Option<Seq<char>> {
    if n.len() == 0 {
        Some("the name must contain exactly one nonempty filename component"@)
    } else if n.contains('/') || n.contains('\\') {
        Some("directory separators are not allowed"@)
    } else if n == seq!['.'] || n == seq!['.', '.'] {
        Some("the name must be one ordinary relative filename component"@)
    } else {
        None
    }
}

pub open spec fn spec_guide_name(raw: Option<Seq<u8>>) -> EnvOutcome<Seq<char>> {
    match raw {
        None => Ok(DEFAULT_GUIDE_NAME@),
        Some(r) => if !valid_utf8(r) {
            Err((GUIDE_NAME@, "invalid implicit guide name: the value is not valid UTF-8"@))
        } else if implicit_name_error(decode_utf8(r)) is Some {
            Err((GUIDE_NAME@, "invalid implicit guide name: expected exactly one nonempty filename component"@))
        } else {
            Ok(decode_utf8(r))
        },
    }
}

/// Checks that `name` is one ordinary filename component: nonempty, without
/// `/` or `\`, and neither `.` nor `..`. The error is the reason.
pub fn validate_implicit_name(name: &str) -> (r: Result<(), String>)
    ensures
        match r {
            Ok(()) => implicit_name_error(name@) is None,
            Err(reason) => implicit_name_error(name@) == Some(reason@),
        },
{
    let n = chars_of(name);
    if n.len() == 0 {
        return Err("the name must contain exactly one nonempty filename component".to_owned());
    }
    let mut i: usize = 0;
    while i < n.len()
        invariant
            i <= n@.len(),
            n@ == name@,
            n@.len() > 0,
            forall|j: int| 0 <= j < i ==> n@[j] != '/' && n@[j] != '\\',
        decreases n@.len() - i,
    {
        if n[i] == '/' || n[i] == '\\' {
            assert(n@.contains(n@[i as int]));
            assert(n@.contains('/') || n@.contains('\\'));
            return Err("directory separators are not allowed".to_owned());
        }
        i = i + 1;
    }
    if (n.len() == 1 && n[0] == '.') || (n.len() == 2 && n[0] == '.' && n[1] == '.') {
        proof {
            if n@.len() == 1 {
                assert(n@ =~= seq!['.']);
            } else {
                assert(n@ =~= seq!['.', '.']);
            }
        }
        return Err("the name must be one ordinary relative filename component".to_owned());
    }
    assert(!(n@ == seq!['.'] || n@ == seq!['.', '.'])) by {
        if n@ == seq!['.'] {
            assert(n@[0] == '.');
        }
        if n@ == seq!['.', '.'] {
            assert(n@[0] == '.' && n@[1] == '.');
        }
    }
    Ok(())
}

fn copy_bytes(v: &Vec<u8>) -> (r: Vec<u8>)
    ensures
        r@ == v@,
{
    let mut r: Vec<u8> = Vec::new();
    let mut i: usize = 0;
    while i < v.len()
        invariant
            i <= v@.len(),
            r@ == v@.take(i as int),
        decreases v@.len() - i,
    {
        r.push(v[i]);
        i = i + 1;
        assert(v@.take(i as int) =~= v@.take(i - 1).push(v@[i - 1]));
    }
    assert(v@.take(v@.len() as int) =~= v@);
    r
}

fn text_is(t: &[char], w: &str) -> (r: bool)
    ensures
        r == (t@ == w@),
{
    let wc = chars_of(w);
    if t.len() != wc.len() {
        return false;
    }
    let mut i: usize = 0;
    while i < t.len()
        invariant
            i <= t@.len(),
            t@.len() == wc@.len(),
            wc@ == w@,
            forall|j: int| 0 <= j < i ==> t@[j] == wc@[j],
        decreases t@.len() - i,
    {
        if t[i] != wc[i] {
            return false;
        }
        i = i + 1;
    }
    assert(t@ =~= wc@);
    true
}

impl EnvironmentDefaults {
    /// The explicit guide path default.
    pub fn guide_path(&self) -> (r: Result<Option<Vec<u8>>, EnvironmentError>)
        ensures
            match r {
                Ok(p) => spec_selected_path(opt_bytes(self.guide_path), GUIDE_PATH@) == Ok::<Option<Seq<u8>>, (Seq<char>, Seq<char>)>(opt_bytes(p)),
                Err(e) => spec_selected_path(opt_bytes(self.guide_path), GUIDE_PATH@) == Err::<Option<Seq<u8>>, (Seq<char>, Seq<char>)>(e.view()),
            },
    {
        selected_path(&self.guide_path, GUIDE_PATH)
    }

    /// The root default.
    pub fn guide_root(&self) -> (r: Result<Option<Vec<u8>>, EnvironmentError>)
        ensures
            match r {
                Ok(p) => spec_selected_path(opt_bytes(self.guide_root), GUIDE_ROOT@) == Ok::<Option<Seq<u8>>, (Seq<char>, Seq<char>)>(opt_bytes(p)),
                Err(e) => spec_selected_path(opt_bytes(self.guide_root), GUIDE_ROOT@) == Err::<Option<Seq<u8>>, (Seq<char>, Seq<char>)>(e.view()),
            },
    {
        selected_path(&self.guide_root, GUIDE_ROOT)
    }

    /// The implicit guide file name: the default name when unset.
    pub fn guide_name(&self) -> (r: Result<String, EnvironmentError>)
        ensures
            match r {
                Ok(n) => spec_guide_name(opt_bytes(self.guide_name)) == Ok::<Seq<char>, (Seq<char>, Seq<char>)>(n@),
                Err(e) => spec_guide_name(opt_bytes(self.guide_name)) == Err::<Seq<char>, (Seq<char>, Seq<char>)>(e.view()),
            },
    {
        match &self.guide_name {
            None => Ok(DEFAULT_GUIDE_NAME.to_owned()),
            Some(raw) => match utf8_to_str(raw.as_slice()) {
                None => Err(env_error(GUIDE_NAME, "invalid implicit guide name: the value is not valid UTF-8")),
                Some(name) => {
                    if validate_implicit_name(name).is_err() {
                        return Err(
                            env_error(
                                GUIDE_NAME,
                                "invalid implicit guide name: expected exactly one nonempty filename component",
                            ),
                        );
                    }
                    Ok(name.to_owned())
                },
            },
        }
    }

    /// The global log mode default.
    pub fn log_mode(&self) -> (r: Result<Option<String>, EnvironmentError>)
        ensures
            match r {
                Ok(m) => spec_log_mode(opt_bytes(self.log_mode)) == Ok::<Option<Seq<char>>, (Seq<char>, Seq<char>)>(opt_text(m)),
                Err(e) => spec_log_mode(opt_bytes(self.log_mode)) == Err::<Option<Seq<char>>, (Seq<char>, Seq<char>)>(e.view()),
            },
    {
        match &self.log_mode {
            None => Ok(None),
            Some(raw) => match utf8_to_str(raw.as_slice()) {
                Some(text) => {
                    let t = chars_of(text);
                    if text_is(t.as_slice(), "quiet") || text_is(t.as_slice(), "default") || text_is(t.as_slice(), "verbose") {
                        Ok(Some(text.to_owned()))
                    } else {
                        Err(env_error(LOG_MODE, "expected one of: quiet, default, verbose"))
                    }
                },
                None => Err(env_error(LOG_MODE, "expected one of: quiet, default, verbose")),
            },
        }
    }

    /// The global execution mode default.
    pub fn execution_mode(&self) -> (r: Result<Option<String>, EnvironmentError>)
        ensures
            match r {
                Ok(m) => spec_execution_mode(opt_bytes(self.execution_mode)) == Ok::<Option<Seq<char>>, (Seq<char>, Seq<char>)>(opt_text(m)),
                Err(e) => spec_execution_mode(opt_bytes(self.execution_mode)) == Err::<Option<Seq<char>>, (Seq<char>, Seq<char>)>(e.view()),
            },
    {
        match &self.execution_mode {
            None => Ok(None),
            Some(raw) => match utf8_to_str(raw.as_slice()) {
                Some(text) => {
                    let t = chars_of(text);
                    if text_is(t.as_slice(), "default") || text_is(t.as_slice(), "post-tool-use") || text_is(
                        t.as_slice(),
                        "pre-commit-hook",
                    ) || text_is(t.as_slice(), "github-actions") {
                        Ok(Some(text.to_owned()))
                    } else {
                        Err(env_error(EXECUTION_MODE, "expected one of: default, post-tool-use, pre-commit-hook, github-actions"))
                    }
                },
                None => Err(env_error(EXECUTION_MODE, "expected one of: default, post-tool-use, pre-commit-hook, github-actions")),
            },
        }
    }
}

fn selected_path(raw: &Option<Vec<u8>>, variable: &str) -> (r: Result<Option<Vec<u8>>, EnvironmentError>)
    ensures
        match r {
            Ok(p) => spec_selected_path(opt_bytes(*raw), variable@) == Ok::<Option<Seq<u8>>, (Seq<char>, Seq<char>)>(opt_bytes(p)),
            Err(e) => spec_selected_path(opt_bytes(*raw), variable@) == Err::<Option<Seq<u8>>, (Seq<char>, Seq<char>)>(e.view()),
        },
{
    match raw {
        None => Ok(None),
        Some(r) => {
            if r.len() == 0 {
                Err(env_error(variable, "expected a nonempty filesystem path"))
            } else {
                Ok(Some(copy_bytes(r)))
            }
        },
    }
}


// ---------------------------------------------------------------------------
// Parsed arguments

/// Arguments of `dump`.
pub struct DumpArgs {
    pub output: Option<Vec<u8>>,
    pub depth: Option<usize>,
    pub exclude: Vec<String>,
    pub indent: usize,
    pub omit_xml_wrapper: bool,
    pub root: Option<Vec<u8>>,
}

/// Arguments of `init`.
pub struct InitArgs {
    pub output: Vec<u8>,
    pub depth: Option<usize>,
    pub exclude: Vec<String>,
    pub indent: usize,
    pub root: Option<Vec<u8>>,
    pub include_vcs_directories: bool,
}

/// Arguments of `check`.
pub struct CheckArgs {
    pub guide: Option<Vec<u8>>,
    pub implicit_guide_name: Option<String>,
    pub deny_ignored: bool,
    pub post_tool_use_hook: bool,
    pub pre_commit_hook: bool,
    pub github_actions_check: bool,
}

/// Arguments of `verify`.
pub struct VerifyArgs {
    pub guide: Option<Vec<u8>>,
    pub deny_ignored: bool,
    pub root: Option<Vec<u8>>,
    pub recursive: bool,
    pub guide_name: Option<String>,
    pub implicit_guide_name: Option<String>,
    pub exclude_patterns: Vec<String>,
    pub allow_empty: bool,
    pub post_tool_use_hook: bool,
    pub pre_commit_hook: bool,
    pub github_actions_check: bool,
}

/// Available subcommands
pub enum Command {
    Dump(DumpArgs),
    Init(InitArgs),
    Check(CheckArgs),
    Verify(VerifyArgs),
}

/// CLI arguments structure
pub struct Cli {
    pub verbose: bool,
    pub quiet: bool,
    pub log_level: Option<String>,
    pub execution_mode: Option<String>,
    pub command: Command,
}

impl Command {
    pub open spec fn spec_has_flag(&self) -> bool {
        match self {
            Command::Check(a) => a.post_tool_use_hook || a.pre_commit_hook || a.github_actions_check,
            Command::Verify(a) => a.post_tool_use_hook || a.pre_commit_hook || a.github_actions_check,
            _ => false,
        }
    }

    /// Whether a mode flag of the subcommand selects the execution mode.
    pub fn has_execution_mode_flag(&self) -> (r: bool)
        ensures
            r == self.spec_has_flag(),
    {
        match self {
            Command::Check(args) => args.post_tool_use_hook || args.pre_commit_hook || args.github_actions_check,
            Command::Verify(args) => args.post_tool_use_hook || args.pre_commit_hook || args.github_actions_check,
            Command::Dump(_) => false,
            Command::Init(_) => false,
        }
    }
}

pub open spec fn log_relevant(c: Cli) -> bool {
    !c.verbose && !c.quiet && c.log_level is None
}

pub open spec fn execution_relevant(c: Cli) -> bool {
    c.execution_mode is None && !c.command.spec_has_flag()
}

/// The path and name a guide selection ends with: the path default when no
/// path is given, and the name default when there is still no path.
pub open spec fn selection_error(guide: Option<Seq<u8>>, d: EnvironmentDefaults) -> Option<(Seq<char>, Seq<char>)> {
    if guide is None {
        match spec_selected_path(opt_bytes(d.guide_path), GUIDE_PATH@) {
            Err(e) => Some(e),
            Ok(None) => match spec_guide_name(opt_bytes(d.guide_name)) {
                Err(e) => Some(e),
                Ok(_) => None,
            },
            Ok(Some(_)) => None,
        }
    } else {
        None
    }
}

pub open spec fn root_error(root: Option<Seq<u8>>, d: EnvironmentDefaults) -> Option<(Seq<char>, Seq<char>)> {
    if root is None {
        match spec_selected_path(opt_bytes(d.guide_root), GUIDE_ROOT@) {
            Err(e) => Some(e),
            Ok(_) => None,
        }
    } else {
        None
    }
}

/// The first unusable relevant environment default: the log mode, the
/// execution mode, then the subcommand's root, path and name defaults. Only
/// values that no option shadows are read.
pub open spec fn environment_error(c: Cli, d: EnvironmentDefaults) -> Option<(Seq<char>, Seq<char>)> {
    if log_relevant(c) && spec_log_mode(opt_bytes(d.log_mode)) is Err {
        Some(spec_log_mode(opt_bytes(d.log_mode))->Err_0)
    } else if execution_relevant(c) && spec_execution_mode(opt_bytes(d.execution_mode)) is Err {
        Some(spec_execution_mode(opt_bytes(d.execution_mode))->Err_0)
    } else {
        match c.command {
            Command::Dump(a) => root_error(opt_bytes(a.root), d),
            Command::Init(a) => root_error(opt_bytes(a.root), d),
            Command::Check(a) => selection_error(opt_bytes(a.guide), d),
            Command::Verify(a) => if root_error(opt_bytes(a.root), d) is Some {
                root_error(opt_bytes(a.root), d)
            } else if a.recursive {
                if a.guide_name is None && spec_guide_name(opt_bytes(d.guide_name)) is Err {
                    Some(spec_guide_name(opt_bytes(d.guide_name))->Err_0)
                } else {
                    None
                }
            } else {
                selection_error(opt_bytes(a.guide), d)
            },
        }
    }
}

/// A path option after defaults: the option when given, else the default.
pub open spec fn with_default(given: Option<Seq<u8>>, default: EnvOutcome<Option<Seq<u8>>>) -> Option<Seq<u8>> {
    if given is Some {
        given
    } else {
        default->Ok_0
    }
}

/// The implicit name after defaults for a guide selection.
pub open spec fn selected_name(
    guide: Option<Seq<u8>>,
    old_name: Option<Seq<char>>,
    d: EnvironmentDefaults,
) -> Option<Seq<char>> {
    if with_default(guide, spec_selected_path(opt_bytes(d.guide_path), GUIDE_PATH@)) is None {
        Some(spec_guide_name(opt_bytes(d.guide_name))->Ok_0)
    } else {
        old_name
    }
}

/// How the subcommand's arguments change when defaults apply.
pub open spec fn command_resolved(o: Command, n: Command, d: EnvironmentDefaults) -> bool {
    let root_default = spec_selected_path(opt_bytes(d.guide_root), GUIDE_ROOT@);
    let path_default = spec_selected_path(opt_bytes(d.guide_path), GUIDE_PATH@);
    match (o, n) {
        (Command::Dump(a), Command::Dump(b)) => b.output == a.output && b.depth == a.depth && b.exclude
            == a.exclude && b.indent == a.indent && b.omit_xml_wrapper == a.omit_xml_wrapper
            && opt_bytes(b.root) == with_default(opt_bytes(a.root), root_default),
        (Command::Init(a), Command::Init(b)) => b.output == a.output && b.depth == a.depth && b.exclude
            == a.exclude && b.indent == a.indent && b.include_vcs_directories
            == a.include_vcs_directories && opt_bytes(b.root) == with_default(opt_bytes(a.root), root_default),
        (Command::Check(a), Command::Check(b)) => b.deny_ignored == a.deny_ignored && b.post_tool_use_hook
            == a.post_tool_use_hook && b.pre_commit_hook == a.pre_commit_hook && b.github_actions_check
            == a.github_actions_check && opt_bytes(b.guide) == with_default(opt_bytes(a.guide), path_default)
            && opt_text(b.implicit_guide_name) == selected_name(
            opt_bytes(a.guide),
            opt_text(a.implicit_guide_name),
            d,
        ),
        (Command::Verify(a), Command::Verify(b)) => b.deny_ignored == a.deny_ignored && b.recursive
            == a.recursive && b.guide_name == a.guide_name && b.exclude_patterns == a.exclude_patterns
            && b.allow_empty == a.allow_empty && b.post_tool_use_hook == a.post_tool_use_hook
            && b.pre_commit_hook == a.pre_commit_hook && b.github_actions_check == a.github_actions_check
            && opt_bytes(b.root) == with_default(opt_bytes(a.root), root_default) && (if a.recursive {
            opt_bytes(b.guide) == opt_bytes(a.guide) && opt_text(b.implicit_guide_name) == (if a.guide_name is None {
                Some(spec_guide_name(opt_bytes(d.guide_name))->Ok_0)
            } else {
                opt_text(a.implicit_guide_name)
            })
        } else {
            opt_bytes(b.guide) == with_default(opt_bytes(a.guide), path_default) && opt_text(
                b.implicit_guide_name,
            ) == selected_name(opt_bytes(a.guide), opt_text(a.implicit_guide_name), d)
        }),
        _ => false,
    }
}


/// A guide path and implicit name after defaults: `(path, name)` to store
/// when no path option is given.
fn resolve_selection(guide_given: bool, defaults: &EnvironmentDefaults) -> (r: Result<
    (Option<Vec<u8>>, Option<String>),
    EnvironmentError,
>)
    ensures
        match r {
            Ok((p, n)) => (guide_given ==> p is None && n is None) && (!guide_given ==> selection_error(None, *defaults) is None
                && opt_bytes(p) == spec_selected_path(opt_bytes(defaults.guide_path), GUIDE_PATH@)->Ok_0
                && opt_text(n) == (if p is None {
                Some(spec_guide_name(opt_bytes(defaults.guide_name))->Ok_0)
            } else {
                None
            })),
            Err(e) => !guide_given && selection_error(None, *defaults) == Some(e.view()),
        },
{
    if guide_given {
        return Ok((None, None));
    }
    let path = match defaults.guide_path() {
        Err(e) => {
            return Err(e);
        },
        Ok(p) => p,
    };
    if path.is_some() {
        return Ok((path, None));
    }
    match defaults.guide_name() {
        Err(e) => Err(e),
        Ok(n) => Ok((None, Some(n))),
    }
}

impl Cli {
    /// Apply the relevant environment defaults to options that were not
    /// given. On an unusable default nothing changes.
    pub fn apply_environment_defaults(&mut self, defaults: &EnvironmentDefaults) -> (r: Result<(), EnvironmentError>)
        ensures
            match r {
                Err(e) => environment_error(*old(self), *defaults) == Some(e.view()) && *final(self) == *old(self),
                Ok(()) => environment_error(*old(self), *defaults) is None && final(self).verbose == old(self).verbose
                    && final(self).quiet == old(self).quiet && opt_text(final(self).log_level) == (if log_relevant(*old(self)) {
                    spec_log_mode(opt_bytes(defaults.log_mode))->Ok_0
                } else {
                    opt_text(old(self).log_level)
                }) && opt_text(final(self).execution_mode) == (if execution_relevant(*old(self)) {
                    spec_execution_mode(opt_bytes(defaults.execution_mode))->Ok_0
                } else {
                    opt_text(old(self).execution_mode)
                }) && command_resolved(old(self).command, final(self).command, *defaults),
            },
    {
        let log_relevant = !self.verbose && !self.quiet && self.log_level.is_none();
        let log = if log_relevant {
            match defaults.log_mode() {
                Err(e) => {
                    return Err(e);
                },
                Ok(m) => m,
            }
        } else {
            None
        };
        let exec_relevant = self.execution_mode.is_none() && !self.command.has_execution_mode_flag();
        let exec = if exec_relevant {
            match defaults.execution_mode() {
                Err(e) => {
                    return Err(e);
                },
                Ok(m) => m,
            }
        } else {
            None
        };
        let (root_given, guide_given, recursive, name_given) = match &self.command {
            Command::Dump(a) => (a.root.is_some(), true, false, true),
            Command::Init(a) => (a.root.is_some(), true, false, true),
            Command::Check(a) => (true, a.guide.is_some(), false, true),
            Command::Verify(a) => (a.root.is_some(), a.guide.is_some(), a.recursive, a.guide_name.is_some()),
        };
        let root = if root_given {
            None
        } else {
            match defaults.guide_root() {
                Err(e) => {
                    return Err(e);
                },
                Ok(p) => p,
            }
        };
        let is_check = match &self.command {
            Command::Check(_) => true,
            _ => false,
        };
        let is_verify = match &self.command {
            Command::Verify(_) => true,
            _ => false,
        };
        let (path, name) = if (is_check || (is_verify && !recursive)) {
            match resolve_selection(guide_given, defaults) {
                Err(e) => {
                    return Err(e);
                },
                Ok(x) => x,
            }
        } else if is_verify && recursive && !name_given {
            match defaults.guide_name() {
                Err(e) => {
                    return Err(e);
                },
                Ok(n) => (None, Some(n)),
            }
        } else {
            (None, None)
        };
        if log_relevant {
            self.log_level = log;
        }
        if exec_relevant {
            self.execution_mode = exec;
        }
        match &mut self.command {
            Command::Dump(a) => {
                if !root_given {
                    a.root = root;
                }
            },
            Command::Init(a) => {
                if !root_given {
                    a.root = root;
                }
            },
            Command::Check(a) => {
                if !guide_given {
                    a.guide = path;
                    if a.guide.is_none() {
                        a.implicit_guide_name = name;
                    }
                }
            },
            Command::Verify(a) => {
                if !root_given {
                    a.root = root;
                }
                if recursive {
                    if !name_given {
                        a.implicit_guide_name = name;
                    }
                } else if !guide_given {
                    a.guide = path;
                    if a.guide.is_none() {
                        a.implicit_guide_name = name;
                    }
                }
            },
        }
        Ok(())
    }
}


/// The log level the options select.
pub open spec fn spec_log_level(verbose: bool, quiet: bool, level: Option<Seq<char>>) -> LogLevel {
    if verbose {
        LogLevel::Verbose
    } else if quiet {
        LogLevel::Quiet
    } else {
        match level {
            Some(t) => if t == "quiet"@ {
                LogLevel::Quiet
            } else if t == "verbose"@ {
                LogLevel::Verbose
            } else {
                LogLevel::Default
            },
            None => LogLevel::Default,
        }
    }
}

/// The execution mode the options select.
pub open spec fn spec_execution_mode_of(mode: Option<Seq<char>>) -> ExecutionMode {
    match mode {
        Some(t) => if t == "post-tool-use"@ {
            ExecutionMode::PostToolUse
        } else if t == "pre-commit-hook"@ {
            ExecutionMode::PreCommitHook
        } else if t == "github-actions"@ {
            ExecutionMode::GitHubActions
        } else {
            ExecutionMode::Default
        },
        None => ExecutionMode::Default,
    }
}

impl Cli {
    /// Resolve already-parsed CLI arguments into a Config.
    pub fn build_config(&self) -> (c: Config)
        ensures
            c.log_level == spec_log_level(self.verbose, self.quiet, opt_text(self.log_level)),
            c.execution_mode == spec_execution_mode_of(opt_text(self.execution_mode)),
            c.root_path is None,
            c.guide_path is None,
            c.original_guide_path is None,
            c.original_root_path is None,
    {
        let log_level = if self.verbose {
            LogLevel::Verbose
        } else if self.quiet {
            LogLevel::Quiet
        } else {
            match &self.log_level {
                Some(level) => {
                    let t = chars_of(level.as_str());
                    if text_is(t.as_slice(), "quiet") {
                        LogLevel::Quiet
                    } else if text_is(t.as_slice(), "verbose") {
                        LogLevel::Verbose
                    } else {
                        LogLevel::Default
                    }
                },
                None => LogLevel::Default,
            }
        };
        let execution_mode = match &self.execution_mode {
            Some(mode) => {
                let t = chars_of(mode.as_str());
                if text_is(t.as_slice(), "post-tool-use") {
                    ExecutionMode::PostToolUse
                } else if text_is(t.as_slice(), "pre-commit-hook") {
                    ExecutionMode::PreCommitHook
                } else if text_is(t.as_slice(), "github-actions") {
                    ExecutionMode::GitHubActions
                } else {
                    ExecutionMode::Default
                }
            },
            None => ExecutionMode::Default,
        };
        Config {
            execution_mode,
            log_level,
            root_path: None,
            guide_path: None,
            original_guide_path: None,
            original_root_path: None,
        }
    }
}

/// Get the appropriate exit code based on execution mode: 0 on success; on
/// failure 2 for a post-tool-use hook and 1 otherwise.
pub fn get_exit_code(config: &Config, is_error: bool) -> (code: i32)
    ensures
        code == (if !is_error {
            0i32
        } else if config.execution_mode == ExecutionMode::PostToolUse {
            2i32
        } else {
            1i32
        }),
{
    if is_error {
        match config.execution_mode {
            ExecutionMode::PostToolUse => 2,
            _ => 1,
        }
    } else {
        0
    }
}

/// The outcome of a command that completed.
#[derive(Clone, Copy, Debug, PartialEq, Eq, Structural)]
pub enum CommandOutcome {
    Completed,
    Ignored { count: usize },
}

pub open spec fn spec_denied_ignored_message(count: usize) -> Seq<char> {
    "--deny-ignored rejected the run because "@ + spec_decimal(count as nat) + " ignored "@ + (if count == 1 {
        "navigation guide was"@
    } else {
        "navigation guides were"@
    }) + " discovered"@
}

/// The refusal of a run in which ignored guides were discovered.
pub fn denied_ignored_message(ignored_count: usize) -> (s: String)
    ensures
        s@ == spec_denied_ignored_message(ignored_count),
{
    let mut s = String::new();
    push_str(&mut s, "--deny-ignored rejected the run because ");
    push_decimal(&mut s, ignored_count);
    push_str(&mut s, " ignored ");
    if ignored_count == 1 {
        push_str(&mut s, "navigation guide was");
    } else {
        push_str(&mut s, "navigation guides were");
    }
    push_str(&mut s, " discovered");
    s
}

/// The ignored-guide policy: no ignored guide completes, ignored guides are
/// reported, and with `--deny-ignored` they fail the run.
pub fn finish_ignored_policy(ignored_count: usize, deny_ignored: bool) -> (r: Result<CommandOutcome, AppError>)
    ensures
        ignored_count == 0 ==> r == Ok::<CommandOutcome, AppError>(CommandOutcome::Completed),
        ignored_count > 0 && !deny_ignored ==> r == Ok::<CommandOutcome, AppError>(CommandOutcome::Ignored { count: ignored_count }),
        ignored_count > 0 && deny_ignored ==> (r matches Err(AppError::Other(m)) && m@ == spec_denied_ignored_message(ignored_count)),
{
    if ignored_count == 0 {
        return Ok(CommandOutcome::Completed);
    }
    if !deny_ignored {
        return Ok(CommandOutcome::Ignored { count: ignored_count });
    }
    Err(AppError::Other(denied_ignored_message(ignored_count)))
}


// ---------------------------------------------------------------------------
// `init`

/// The version-control directories that `init` leaves out unless asked to
/// include them.
pub open spec fn vcs_excludes() -> Seq<Seq<char>> {
    seq![".git"@, ".svn"@, ".hg"@, ".bzr"@, "CVS"@, "_darcs"@]
}

impl InitArgs {
    /// The exclusion patterns of `init`: the version-control directories
    /// (unless they are included), then the patterns given.
    pub fn exclude_patterns(&self) -> (r: Vec<String>)
        ensures
            string_views(r@) == (if self.include_vcs_directories {
                Seq::<Seq<char>>::empty()
            } else {
                vcs_excludes()
            }) + string_views(self.exclude@),
    {
        let mut r: Vec<String> = Vec::new();
        if !self.include_vcs_directories {
            r.push(".git".to_owned());
            r.push(".svn".to_owned());
            r.push(".hg".to_owned());
            r.push(".bzr".to_owned());
            r.push("CVS".to_owned());
            r.push("_darcs".to_owned());
        }
        let ghost head = string_views(r@);
        assert(head =~= (if self.include_vcs_directories {
            Seq::<Seq<char>>::empty()
        } else {
            vcs_excludes()
        }));
        let mut i: usize = 0;
        while i < self.exclude.len()
            invariant
                i <= self.exclude@.len(),
                string_views(r@) == head + string_views(self.exclude@.take(i as int)),
            decreases self.exclude@.len() - i,
        {
            let p = self.exclude[i].clone();
            let ghost before = r@;
            r.push(p);
            assert(string_views(r@) =~= string_views(before).push(self.exclude@[i as int]@));
            assert(string_views(self.exclude@.take(i + 1)) =~= string_views(self.exclude@.take(i as int)).push(
                self.exclude@[i as int]@,
            ));
            assert(string_views(r@) =~= head + string_views(self.exclude@.take(i + 1)));
            i = i + 1;
        }
        assert(self.exclude@.take(self.exclude@.len() as int) =~= self.exclude@);
        r
    }
}

/// The document `init` writes around the wrapped guide block.
pub open spec fn spec_init_document(guide: Seq<char>) -> Seq<char> {
    "# Agentic Navigation Guide\n\nThis navigation guide helps AI coding assistants understand the structure of this project.\nThe listing below may be incomplete and highlights key files and directories.\n\n"@
        + guide + "\n\nNote: This guide was automatically generated and may need manual adjustments.\n"@
}

/// The document `init` writes around the wrapped guide block.
pub fn init_document(guide: &str) -> (s: String)
    ensures
        s@ == spec_init_document(guide@),
{
    let mut s = String::new();
    push_str(
        &mut s,
        "# Agentic Navigation Guide\n\nThis navigation guide helps AI coding assistants understand the structure of this project.\nThe listing below may be incomplete and highlights key files and directories.\n\n",
    );
    push_str(&mut s, guide);
    push_str(&mut s, "\n\nNote: This guide was automatically generated and may need manual adjustments.\n");
    s
}

} // verus!
