//! Generating a guide from a directory tree. The traversal reads each
//! included directory; every decision it takes (configuration bounds,
//! exclusion, depth, name validity, descending) and the rendering of the
//! collected entries are made here.

use vstd::prelude::*;
use vstd::utf8::{decode_utf8, valid_utf8};
use crate::entry_type::{SupportedEntryKind, UnsupportedEntryKind};
use crate::errors::{AppError, AppErrorView};
use crate::exclusion::{
    ExclusionMatcher, PatternView, byte_views, decoded_names, first_non_utf8,
    non_utf8_entry_message, union_matches,
};
use crate::parser::MAX_LOGICAL_DEPTH;
use crate::validator::is_dot_component;
use crate::path_codec::{
    render_bytes_component, render_utf8_chars, serialize_chars, spec_render_bytes, spec_render_utf8,
    spec_serialize_component,
};
use crate::text::{
    chars_contain_forbidden_control, chars_have_windows_drive_prefix, chars_of,
    has_forbidden_control, push_decimal, push_str, spec_decimal, spec_has_windows_drive_prefix,
    utf8_to_str,
};

verus! {

pub const MIN_INDENT_SIZE: usize = 1;

pub const MAX_INDENT_SIZE: usize = 16;

/// How deep a traversal may go: the deepest entry depth (a root entry has
/// depth 1), and whether an included entry below it is an error rather than
/// the end of the traversal.
#[derive(Clone, Copy, Debug, PartialEq, Eq, Structural)]
pub struct TraversalLimit {
    pub maximum_entry_depth: usize,
    pub reject_beyond_limit: bool,
}

/// One entry of a generated guide: its root-relative components and whether
/// it is a directory.
pub struct GeneratedEntry {
    pub components: Vec<String>,
    pub is_dir: bool,
}

pub open spec fn entry_view(e: GeneratedEntry) -> (Seq<Seq<char>>, bool) {
    (e.components@.map_values(|c: String| c@), e.is_dir)
}

pub open spec fn entries_view(es: Seq<GeneratedEntry>) -> Seq<(Seq<Seq<char>>, bool)> {
    es.map_values(|e: GeneratedEntry| entry_view(e))
}

/// Dumper for creating navigation guides from directory structures
pub struct Dumper {
    /// Root path to dump from
    root_path: std::path::PathBuf,
    /// Maximum depth to traverse
    max_depth: Option<usize>,
    /// Patterns whose matches are left out
    exclude: Option<ExclusionMatcher>,
    /// Number of spaces for indentation
    indent_size: usize,
}

/// The configuration errors of a generation, or its traversal limit.
pub open spec fn spec_limit(indent_size: usize, max_depth: Option<usize>) -> Result<TraversalLimit, AppErrorView> {
    if !(MIN_INDENT_SIZE <= indent_size <= MAX_INDENT_SIZE) {
        Err(
            AppErrorView::Other(
                "indent size "@ + spec_decimal(indent_size as nat)
                    + " is outside the supported range 1 through 16"@,
            ),
        )
    } else {
        match max_depth {
            Some(d) => if d <= MAX_LOGICAL_DEPTH {
                Ok(TraversalLimit { maximum_entry_depth: (d + 1) as usize, reject_beyond_limit: false })
            } else {
                Err(
                    AppErrorView::Other(
                        "maximum depth "@ + spec_decimal(d as nat)
                            + " is outside the supported range 0 through 256"@,
                    ),
                )
            },
            None => Ok(
                TraversalLimit { maximum_entry_depth: (MAX_LOGICAL_DEPTH + 1) as usize, reject_beyond_limit: true },
            ),
        }
    }
}

/// Why a UTF-8 filesystem name cannot appear in a generated guide, if it cannot.
pub open spec fn text_name_error(n: Seq<char>, at_root: bool) -> Option<Seq<char>> {
    if has_forbidden_control(n) {
        Some("unsupported control-bearing filesystem name "@ + spec_render_utf8(n))
    } else if at_root && ((n.len() > 0 && n[0] == '\\') || spec_has_windows_drive_prefix(n)) {
        Some("unsupported rooted or drive-prefixed filesystem name "@ + spec_render_utf8(n))
    } else {
        None
    }
}

/// Why a raw filesystem name cannot appear in a generated guide, if it cannot.
pub open spec fn name_error(raw: Seq<u8>, at_root: bool) -> Option<Seq<char>> {
    if !valid_utf8(raw) {
        Some("unsupported non-UTF-8 filesystem name "@ + spec_render_bytes(raw))
    } else {
        text_name_error(decode_utf8(raw), at_root)
    }
}

pub open spec fn beyond_depth_message() -> Seq<char> {
    "generation without an explicit depth encountered an included entry beyond maximum logical depth 256"@
}

/// Whether the traversal includes the entry at root-relative components
/// `rel` and depth `depth`: `Ok(false)` when an exclusion pattern matches
/// it, an error when it lies below the depth limit or its name cannot be
/// listed, `Ok(true)` otherwise.
pub open spec fn spec_admit(
    exclude: Option<Seq<PatternView>>,
    rel: Seq<Seq<u8>>,
    depth: usize,
    limit: TraversalLimit,
) -> Result<bool, AppErrorView> {
    let k = first_non_utf8(rel, 0);
    let excluded = match exclude {
        None => Ok(false),
        Some(ps) => if k < rel.len() {
            Err(AppErrorView::Other(non_utf8_entry_message(rel[k])))
        } else {
            Ok(rel.len() > 0 && union_matches(ps, decoded_names(rel)))
        },
    };
    match excluded {
        Err(e) => Err(e),
        Ok(true) => Ok(false),
        Ok(false) => if depth > limit.maximum_entry_depth {
            Err(AppErrorView::Other(beyond_depth_message()))
        } else if rel.len() > 0 && name_error(rel.last(), depth == 1) is Some {
            Err(AppErrorView::Other(name_error(rel.last(), depth == 1)->0))
        } else {
            Ok(true)
        },
    }
}

/// Whether the traversal reads the directory entry at depth `depth`: below
/// the limit always, and at it only when going further is an error.
pub open spec fn spec_descend(is_dir: bool, depth: usize, limit: TraversalLimit) -> bool {
    is_dir && (depth < limit.maximum_entry_depth || limit.reject_beyond_limit)
}

fn name_error_exec(raw: &[u8], at_root: bool) -> (r: Option<String>)
    ensures
        match r {
            Some(m) => name_error(raw@, at_root) == Some(m@),
            None => name_error(raw@, at_root) is None,
        },
{
    let text = match utf8_to_str(raw) {
        None => {
            let mut m = String::new();
            push_str(&mut m, "unsupported non-UTF-8 filesystem name ");
            let r = render_bytes_component(raw);
            push_str(&mut m, r.as_str());
            return Some(m);
        },
        Some(t) => t,
    };
    let n = chars_of(text);
    text_name_error_exec(n.as_slice(), at_root)
}

fn text_name_error_exec(n: &[char], at_root: bool) -> (r: Option<String>)
    ensures
        match r {
            Some(m) => text_name_error(n@, at_root) == Some(m@),
            None => text_name_error(n@, at_root) is None,
        },
{
    if chars_contain_forbidden_control(n) {
        let mut m = String::new();
        push_str(&mut m, "unsupported control-bearing filesystem name ");
        let r = render_utf8_chars(n);
        push_str(&mut m, r.as_str());
        return Some(m);
    }
    if at_root && ((n.len() > 0 && n[0] == '\\') || chars_have_windows_drive_prefix(n)) {
        let mut m = String::new();
        push_str(&mut m, "unsupported rooted or drive-prefixed filesystem name ");
        let r = render_utf8_chars(n);
        push_str(&mut m, r.as_str());
        return Some(m);
    }
    None
}

/// The diagnostic spelling of a root-relative path of raw names.
pub open spec fn render_relative(rel: Seq<Seq<u8>>) -> Seq<char>
    decreases rel.len(),
{
    if rel.len() == 0 {
        seq![]
    } else if rel.len() == 1 {
        spec_render_bytes(rel[0])
    } else {
        render_relative(rel.drop_last()) + seq!['/'] + spec_render_bytes(rel.last())
    }
}

pub fn render_relative_path(rel: &[Vec<u8>]) -> (s: String)
    ensures
        s@ == render_relative(byte_views(rel@)),
{
    let ghost names = byte_views(rel@);
    let mut s = String::new();
    let mut i: usize = 0;
    while i < rel.len()
        invariant
            i <= rel@.len(),
            names == byte_views(rel@),
            s@ == render_relative(names.take(i as int)),
        decreases rel@.len() - i,
    {
        assert(names.take(i + 1).drop_last() =~= names.take(i as int));
        assert(names.take(i + 1).last() == rel@[i as int]@);
        if i > 0 {
            s.push('/');
        }
        let r = render_bytes_component(rel[i].as_slice());
        push_str(&mut s, r.as_str());
        i = i + 1;
    }
    assert(names.take(rel@.len() as int) =~= names);
    s
}

/// The error for an included entry of an unsupported kind.
pub fn unsupported_entry_error(rel: &[Vec<u8>], kind: UnsupportedEntryKind) -> (e: AppError)
    ensures
        e.view() == AppErrorView::Other(
            "unsupported included filesystem entry "@ + render_relative(byte_views(rel@)) + ": "@
                + kind.spec_description(),
        ),
{
    let mut m = String::new();
    push_str(&mut m, "unsupported included filesystem entry ");
    let r = render_relative_path(rel);
    push_str(&mut m, r.as_str());
    push_str(&mut m, ": ");
    let d = kind.description();
    push_str(&mut m, d.as_str());
    AppError::Other(m)
}


pub open spec fn spaces(n: nat) -> Seq<char> {
    Seq::new(n, |i: int| ' ')
}

/// The guide line of one generated entry at `indent` spaces per level.
pub open spec fn entry_line(e: (Seq<Seq<char>>, bool), indent: nat) -> Result<Seq<char>, AppErrorView> {
    let comps = e.0;
    if comps.len() == 0 {
        Err(AppErrorView::Other("a generated entry has no name"@))
    } else {
        let depth = (comps.len() - 1) as nat;
        let name = comps.last();
        if depth * indent > usize::MAX {
            Err(AppErrorView::Other("generation indentation width could not be represented"@))
        } else if text_name_error(name, depth == 0) is Some {
            Err(AppErrorView::Other(text_name_error(name, depth == 0)->0))
        } else {
            match spec_serialize_component(name) {
                None => Err(AppErrorView::Other("unsupported filesystem name "@ + spec_render_utf8(name))),
                Some(s) => Ok(
                    spaces(depth * indent) + "- "@ + s + (if e.1 {
                        seq!['/']
                    } else {
                        seq![]
                    }) + seq!['\n'],
                ),
            }
        }
    }
}

/// The guide list of the entries, in the given order, or the first entry
/// that cannot be listed.
pub open spec fn render_entries(es: Seq<(Seq<Seq<char>>, bool)>, indent: nat) -> Result<Seq<char>, AppErrorView>
    decreases es.len(),
{
    if es.len() == 0 {
        Ok(seq![])
    } else {
        match render_entries(es.drop_last(), indent) {
            Err(e) => Err(e),
            Ok(prefix) => match entry_line(es.last(), indent) {
                Err(e) => Err(e),
                Ok(l) => Ok(prefix + l),
            },
        }
    }
}

/// A generated guide: the configuration checks, a nonempty entry list, and
/// its rendering.
pub open spec fn spec_dump(
    indent_size: usize,
    max_depth: Option<usize>,
    root: Seq<char>,
    es: Seq<(Seq<Seq<char>>, bool)>,
) -> Result<Seq<char>, AppErrorView> {
    match spec_limit(indent_size, max_depth) {
        Err(e) => Err(e),
        Ok(_) => if es.len() == 0 {
            Err(
                AppErrorView::Other(
                    "generation root "@ + root
                        + " has no included, representable entries after depth and exclusion rules"@,
                ),
            )
        } else {
            render_entries(es, indent_size as nat)
        },
    }
}

pub open spec fn wrap_guide(content: Seq<char>) -> Seq<char> {
    "<agentic-navigation-guide>\n"@ + content + "</agentic-navigation-guide>"@
}

proof fn lemma_render_failed(es: Seq<(Seq<Seq<char>>, bool)>, indent: nat, k: int)
    requires
        0 <= k <= es.len(),
        render_entries(es.take(k), indent) is Err,
    ensures
        render_entries(es, indent) == render_entries(es.take(k), indent),
    decreases es.len() - k,
{
    if k < es.len() {
        assert(es.take(k + 1).drop_last() =~= es.take(k));
        lemma_render_failed(es, indent, k + 1);
    } else {
        assert(es.take(k) =~= es);
    }
}

fn entry_line_exec(e: &GeneratedEntry, indent: usize, out: &mut String) -> (r: Result<(), AppError>)
    ensures
        match r {
            Ok(()) => (entry_line(entry_view(*e), indent as nat) matches Ok(l) && final(out)@ == old(out)@ + l),
            Err(err) => entry_line(entry_view(*e), indent as nat) == Err::<Seq<char>, AppErrorView>(err.view()),
        },
{
    let ghost ev = entry_view(*e);
    let n = e.components.len();
    if n == 0 {
        return Err(AppError::Other("a generated entry has no name".to_owned()));
    }
    let depth = n - 1;
    let width = match depth.checked_mul(indent) {
        None => {
            return Err(AppError::Other("generation indentation width could not be represented".to_owned()));
        },
        Some(w) => w,
    };
    assert(ev.0.last() == e.components@[n - 1]@);
    let name = chars_of(e.components[depth].as_str());
    if let Some(m) = text_name_error_exec(name.as_slice(), depth == 0) {
        return Err(AppError::Other(m));
    }
    let serialized = match serialize_chars(name.as_slice()) {
        None => {
            let mut m = String::new();
            push_str(&mut m, "unsupported filesystem name ");
            let r = render_utf8_chars(name.as_slice());
            push_str(&mut m, r.as_str());
            return Err(AppError::Other(m));
        },
        Some(s) => s,
    };
    let ghost base = out@;
    let mut i: usize = 0;
    while i < width
        invariant
            i <= width,
            out@ == base + spaces(i as nat),
        decreases width - i,
    {
        out.push(' ');
        i = i + 1;
        assert(spaces(i as nat) =~= spaces((i - 1) as nat).push(' '));
    }
    push_str(out, "- ");
    push_str(out, serialized.as_str());
    if e.is_dir {
        out.push('/');
    }
    out.push('\n');
    proof {
        let l = spaces(depth as nat * indent as nat) + "- "@ + serialized@ + (if e.is_dir {
            seq!['/']
        } else {
            seq![]
        }) + seq!['\n'];
        assert(out@ =~= base + l);
    }
    Ok(())
}

impl Dumper {
    pub closed spec fn wf(&self) -> bool {
        self.exclude matches Some(m) ==> m.wf()
    }

    pub closed spec fn spec_indent_size(&self) -> usize {
        self.indent_size
    }

    pub closed spec fn spec_root_path(&self) -> std::path::PathBuf {
        self.root_path
    }

    pub closed spec fn spec_max_depth(&self) -> Option<usize> {
        self.max_depth
    }

    pub closed spec fn spec_exclude(&self) -> Option<Seq<PatternView>> {
        match self.exclude {
            Some(m) => Some(m.view()),
            None => None,
        }
    }

    /// Create a new dumper for the given root path
    pub fn new(root_path: std::path::PathBuf) -> (d: Self)
        ensures
            d.wf(),
            d.spec_indent_size() == 2,
            d.spec_max_depth() is None,
            d.spec_exclude() is None,
            d.spec_root_path() == root_path,
    {
        Dumper { root_path, max_depth: None, exclude: None, indent_size: 2 }
    }

    /// The root the generation reads.
    pub fn root_path(&self) -> (r: &std::path::PathBuf)
        ensures
            *r == self.spec_root_path(),
    {
        &self.root_path
    }

    /// Set the maximum depth to traverse
    pub fn with_max_depth(self, max_depth: Option<usize>) -> (d: Self)
        ensures
            d.wf() == self.wf(),
            d.spec_max_depth() == max_depth,
            d.spec_indent_size() == self.spec_indent_size(),
            d.spec_exclude() == self.spec_exclude(),
    {
        Dumper { max_depth, ..self }
    }

    /// Set exclude patterns; an invalid pattern rejects the whole set.
    pub fn with_exclude_patterns(self, patterns: &[String]) -> (r: Result<Self, AppError>)
        ensures
            match r {
                Ok(d) => d.wf() && d.spec_max_depth() == self.spec_max_depth() && d.spec_indent_size()
                    == self.spec_indent_size() && (if patterns@.len() == 0 {
                    d.spec_exclude() is None
                } else {
                    (d.spec_exclude() matches Some(ps) && crate::exclusion::spec_compile_all(
                        crate::exclusion::string_views(patterns@),
                    ) == Ok::<Seq<PatternView>, Seq<char>>(ps))
                }),
                Err(e) => patterns@.len() > 0 && (e matches AppError::Other(m)
                    && crate::exclusion::spec_compile_all(crate::exclusion::string_views(patterns@))
                    == Err::<Seq<PatternView>, Seq<char>>(m@)),
            },
    {
        if patterns.len() == 0 {
            return Ok(Dumper { exclude: None, ..self });
        }
        let m = ExclusionMatcher::compile(patterns)?;
        Ok(Dumper { exclude: Some(m), ..self })
    }

    /// Set the indent size
    pub fn with_indent_size(self, indent_size: usize) -> (d: Self)
        ensures
            d.wf() == self.wf(),
            d.spec_indent_size() == indent_size,
            d.spec_max_depth() == self.spec_max_depth(),
            d.spec_exclude() == self.spec_exclude(),
    {
        Dumper { indent_size, ..self }
    }

    /// The traversal limit, or why the configuration is out of range.
    pub fn validate_configuration(&self) -> (r: Result<TraversalLimit, AppError>)
        ensures
            match r {
                Ok(l) => spec_limit(self.spec_indent_size(), self.spec_max_depth()) == Ok::<TraversalLimit, AppErrorView>(l),
                Err(e) => spec_limit(self.spec_indent_size(), self.spec_max_depth()) == Err::<TraversalLimit, AppErrorView>(e.view()),
            },
    {
        if !(MIN_INDENT_SIZE <= self.indent_size && self.indent_size <= MAX_INDENT_SIZE) {
            let mut m = String::new();
            push_str(&mut m, "indent size ");
            push_decimal(&mut m, self.indent_size);
            push_str(&mut m, " is outside the supported range 1 through 16");
            return Err(AppError::Other(m));
        }
        match self.max_depth {
            Some(d) => {
                if d <= MAX_LOGICAL_DEPTH {
                    Ok(TraversalLimit { maximum_entry_depth: d + 1, reject_beyond_limit: false })
                } else {
                    let mut m = String::new();
                    push_str(&mut m, "maximum depth ");
                    push_decimal(&mut m, d);
                    push_str(&mut m, " is outside the supported range 0 through 256");
                    Err(AppError::Other(m))
                }
            },
            None => Ok(TraversalLimit { maximum_entry_depth: MAX_LOGICAL_DEPTH + 1, reject_beyond_limit: true }),
        }
    }

    /// Whether the traversal includes the entry with root-relative raw
    /// components `rel` at depth `depth` (a root entry has depth 1).
    pub fn admit_entry(&self, rel: &[Vec<u8>], depth: usize, limit: TraversalLimit) -> (r: Result<bool, AppError>)
        requires
            self.wf(),
        ensures
            match r {
                Ok(b) => spec_admit(self.spec_exclude(), byte_views(rel@), depth, limit) == Ok::<bool, AppErrorView>(b),
                Err(e) => spec_admit(self.spec_exclude(), byte_views(rel@), depth, limit) == Err::<bool, AppErrorView>(e.view()),
            },
    {
        let excluded = match &self.exclude {
            None => false,
            Some(m) => match m.is_match(rel) {
                Err(e) => {
                    return Err(e);
                },
                Ok(b) => b,
            },
        };
        if excluded {
            return Ok(false);
        }
        if depth > limit.maximum_entry_depth {
            return Err(AppError::Other(
                "generation without an explicit depth encountered an included entry beyond maximum logical depth 256".to_owned(),
            ));
        }
        if rel.len() > 0 {
            assert(byte_views(rel@).last() == rel@[rel@.len() - 1]@);
            if let Some(m) = name_error_exec(rel[rel.len() - 1].as_slice(), depth == 1) {
                return Err(AppError::Other(m));
            }
        }
        Ok(true)
    }

    /// Whether the traversal reads the directory entry at depth `depth`.
    pub fn should_descend(is_dir: bool, depth: usize, limit: TraversalLimit) -> (r: bool)
        ensures
            r == spec_descend(is_dir, depth, limit),
    {
        is_dir && (depth < limit.maximum_entry_depth || limit.reject_beyond_limit)
    }

    /// Dump the collected entries as a navigation guide list; the entries
    /// come in guide order (each directory before its entries, siblings by
    /// name) and `root` is the rendered root for diagnostics.
    pub fn dump(&self, root: &str, entries: &[GeneratedEntry]) -> (r: Result<String, AppError>)
        ensures
            match r {
                Ok(s) => spec_dump(self.spec_indent_size(), self.spec_max_depth(), root@, entries_view(entries@)) == Ok::<Seq<char>, AppErrorView>(s@),
                Err(e) => spec_dump(self.spec_indent_size(), self.spec_max_depth(), root@, entries_view(entries@)) == Err::<Seq<char>, AppErrorView>(e.view()),
            },
    {
        match self.validate_configuration() {
            Err(e) => {
                return Err(e);
            },
            Ok(_) => {},
        }
        if entries.len() == 0 {
            let mut m = String::new();
            push_str(&mut m, "generation root ");
            push_str(&mut m, root);
            push_str(&mut m, " has no included, representable entries after depth and exclusion rules");
            return Err(AppError::Other(m));
        }
        let ghost ev = entries_view(entries@);
        let mut out = String::new();
        let mut i: usize = 0;
        assert(ev.take(0) =~= Seq::<(Seq<Seq<char>>, bool)>::empty());
        while i < entries.len()
            invariant
                i <= entries@.len(),
                entries@.len() > 0,
                spec_limit(self.spec_indent_size(), self.spec_max_depth()) is Ok,
                ev == entries_view(entries@),
                render_entries(ev.take(i as int), self.spec_indent_size() as nat) == Ok::<Seq<char>, AppErrorView>(out@),
            decreases entries@.len() - i,
        {
            assert(ev.take(i + 1).drop_last() =~= ev.take(i as int));
            assert(ev.take(i + 1).last() == entry_view(entries@[i as int]));
            match entry_line_exec(&entries[i], self.indent_size, &mut out) {
                Err(e) => {
                    proof {
                        lemma_render_failed(ev, self.spec_indent_size() as nat, i + 1);
                    }
                    return Err(e);
                },
                Ok(()) => {},
            }
            i = i + 1;
        }
        assert(ev.take(entries@.len() as int) =~= ev);
        Ok(out)
    }

    /// Dump with the guide markers around the list
    pub fn dump_with_wrapper(&self, root: &str, entries: &[GeneratedEntry]) -> (r: Result<String, AppError>)
        ensures
            match r {
                Ok(s) => (spec_dump(self.spec_indent_size(), self.spec_max_depth(), root@, entries_view(entries@)) matches Ok(c)
                    && s@ == wrap_guide(c)),
                Err(e) => spec_dump(self.spec_indent_size(), self.spec_max_depth(), root@, entries_view(entries@)) == Err::<Seq<char>, AppErrorView>(e.view()),
            },
    {
        let content = self.dump(root, entries)?;
        let mut s = String::new();
        push_str(&mut s, "<agentic-navigation-guide>\n");
        push_str(&mut s, content.as_str());
        push_str(&mut s, "</agentic-navigation-guide>");
        Ok(s)
    }
}


/// Whether byte string `a` comes strictly before `b` in byte order,
/// comparing from index `i` on.
pub open spec fn before_from(a: Seq<u8>, b: Seq<u8>, i: int) -> bool
    decreases a.len() - i,
{
    if i < 0 || i >= a.len() {
        i < b.len()
    } else if i >= b.len() {
        false
    } else if a[i] != b[i] {
        a[i] < b[i]
    } else {
        before_from(a, b, i + 1)
    }
}

/// Whether byte string `a` comes strictly before `b` in byte order.
pub open spec fn bytes_before(a: Seq<u8>, b: Seq<u8>) -> bool {
    before_from(a, b, 0)
}

/// Names in ascending byte order: none comes before the one ahead of it.
pub open spec fn ascending_names(s: Seq<Seq<u8>>) -> bool {
    forall|i: int| 1 <= i < s.len() ==> !bytes_before(#[trigger] s[i], s[i - 1])
}

pub open spec fn name_bytes(v: Seq<Vec<u8>>) -> Seq<Seq<u8>> {
    v.map_values(|n: Vec<u8>| n@)
}

proof fn lemma_before_asymmetric(a: Seq<u8>, b: Seq<u8>, i: int)
    requires
        0 <= i,
        before_from(a, b, i),
    ensures
        !before_from(b, a, i),
    decreases a.len() - i,
{
    if i < a.len() && i < b.len() && a[i] == b[i] {
        lemma_before_asymmetric(a, b, i + 1);
    }
}

/// `i` is where `a` and `b` first part in byte order with `a` first: they
/// agree before `i`, and there `a` has ended while `b` goes on, or both go
/// on and `a`'s byte is the smaller.
pub open spec fn parts_before_at(a: Seq<u8>, b: Seq<u8>, i: int) -> bool {
    &&& 0 <= i <= a.len()
    &&& i <= b.len()
    &&& a.take(i) == b.take(i)
    &&& ((i == a.len() && i < b.len()) || (i < a.len() && i < b.len() && a[i] < b[i]))
}

proof fn lemma_before_has_point(a: Seq<u8>, b: Seq<u8>, m: int) -> (i: int)
    requires
        0 <= m <= a.len(),
        m <= b.len(),
        a.take(m) == b.take(m),
        before_from(a, b, m),
    ensures
        parts_before_at(a, b, i),
    decreases a.len() - m,
{
    if m == a.len() {
        m
    } else if a[m] != b[m] {
        m
    } else {
        assert(a.take(m + 1) =~= a.take(m).push(a[m]));
        assert(b.take(m + 1) =~= b.take(m).push(b[m]));
        lemma_before_has_point(a, b, m + 1)
    }
}

proof fn lemma_point_gives_before(a: Seq<u8>, b: Seq<u8>, m: int, i: int)
    requires
        0 <= m <= i,
        a.take(m) == b.take(m),
        parts_before_at(a, b, i),
    ensures
        before_from(a, b, m),
    decreases i - m,
{
    if m < i {
        assert(a.take(i)[m] == a[m] && b.take(i)[m] == b[m]);
        assert(a.take(m + 1) =~= a.take(m).push(a[m]));
        assert(b.take(m + 1) =~= b.take(m).push(b[m]));
        lemma_point_gives_before(a, b, m + 1, i);
    }
}

/// Byte order is lexicographic: `a` comes before `b` exactly when, where
/// they first part, `a` has ended while `b` goes on or `a`'s byte is the
/// smaller. So a name comes before every longer name it begins, and of two
/// different names exactly one comes first.
pub proof fn law_byte_order_is_lexicographic(a: Seq<u8>, b: Seq<u8>, s: Seq<u8>)
    ensures
        bytes_before(a, b) <==> exists|i: int| #[trigger] parts_before_at(a, b, i),
        s.len() > 0 ==> bytes_before(a, a + s),
        !bytes_before(a, a),
        a != b ==> (bytes_before(a, b) || bytes_before(b, a)),
        bytes_before(a, b) ==> !bytes_before(b, a),
{
    assert(a.take(0) =~= b.take(0));
    if bytes_before(a, b) {
        let i = lemma_before_has_point(a, b, 0);
        assert(parts_before_at(a, b, i));
    }
    if exists|i: int| #[trigger] parts_before_at(a, b, i) {
        let i = choose|i: int| #[trigger] parts_before_at(a, b, i);
        lemma_point_gives_before(a, b, 0, i);
    }
    if s.len() > 0 {
        let c = a + s;
        assert(a.take(a.len() as int) =~= c.take(a.len() as int));
        assert(parts_before_at(a, c, a.len() as int));
        assert(a.take(0) =~= c.take(0));
        lemma_point_gives_before(a, c, 0, a.len() as int);
    }
    lemma_before_irreflexive(a, 0);
    if a != b {
        lemma_before_total(a, b, 0);
    }
    if bytes_before(a, b) {
        lemma_before_asymmetric(a, b, 0);
    }
}

proof fn lemma_before_total(a: Seq<u8>, b: Seq<u8>, i: int)
    requires
        0 <= i <= a.len(),
        i <= b.len(),
        a.take(i) == b.take(i),
        a != b,
    ensures
        before_from(a, b, i) || before_from(b, a, i),
    decreases a.len() - i,
{
    if i == a.len() && i == b.len() {
        assert(a =~= a.take(i));
        assert(b =~= b.take(i));
    } else if i < a.len() && i < b.len() && a[i] == b[i] {
        assert(a.take(i + 1) =~= a.take(i).push(a[i]));
        assert(b.take(i + 1) =~= b.take(i).push(b[i]));
        lemma_before_total(a, b, i + 1);
    }
}

proof fn lemma_before_irreflexive(a: Seq<u8>, i: int)
    requires
        0 <= i,
    ensures
        !before_from(a, a, i),
    decreases a.len() - i,
{
    if i < a.len() {
        lemma_before_irreflexive(a, i + 1);
    }
}

fn bytes_before_exec(a: &[u8], b: &[u8]) -> (r: bool)
    ensures
        r == bytes_before(a@, b@),
{
    let mut i: usize = 0;
    while i < a.len() && i < b.len() && a[i] == b[i]
        invariant
            i <= a@.len(),
            before_from(a@, b@, 0) == before_from(a@, b@, i as int),
        decreases a@.len() - i,
    {
        i = i + 1;
    }
    if i >= a.len() {
        i < b.len()
    } else if i >= b.len() {
        false
    } else {
        a[i] < b[i]
    }
}

impl Dumper {
    /// The names of one directory in the order a generated guide lists
    /// them: ascending byte order, every name kept.
    pub fn order_siblings(names: Vec<Vec<u8>>) -> (r: Vec<Vec<u8>>)
        ensures
            ascending_names(name_bytes(r@)),
            name_bytes(r@).to_multiset() == name_bytes(names@).to_multiset(),
    {
        broadcast use vstd::seq_lib::group_to_multiset_ensures;

        let mut r: Vec<Vec<u8>> = Vec::new();
        let mut k: usize = 0;
        assert(name_bytes(names@).take(0) =~= Seq::<Seq<u8>>::empty());
        assert(name_bytes(r@) =~= Seq::<Seq<u8>>::empty());
        while k < names.len()
            invariant
                k <= names@.len(),
                ascending_names(name_bytes(r@)),
                name_bytes(r@).to_multiset() == name_bytes(names@).take(k as int).to_multiset(),
            decreases names@.len() - k,
        {
            let x = names[k].clone();
            assert(x@ == names@[k as int]@);
            let mut p: usize = 0;
            while p < r.len() && !bytes_before_exec(x.as_slice(), r[p].as_slice())
                invariant
                    p <= r@.len(),
                    forall|q: int| 0 <= q < p ==> !bytes_before(x@, #[trigger] r@[q]@),
                decreases r@.len() - p,
            {
                p = p + 1;
            }
            let ghost old_r = name_bytes(r@);
            assert(p < r@.len() ==> bytes_before(x@, r@[p as int]@));
            r.insert(p, x.clone());
            assert(name_bytes(r@) =~= old_r.insert(p as int, x@));
            assert(name_bytes(names@).take(k + 1) =~= name_bytes(names@).take(k as int).push(x@));
            proof {
                vstd::seq_lib::to_multiset_insert(old_r, p as int, x@);
                name_bytes(names@).take(k as int).to_multiset_ensures();
            }
            assert forall|i: int| 1 <= i < name_bytes(r@).len() implies !bytes_before(
                #[trigger] name_bytes(r@)[i],
                name_bytes(r@)[i - 1],
            ) by {
                if i < p {
                    assert(name_bytes(r@)[i] == old_r[i] && name_bytes(r@)[i - 1] == old_r[i - 1]);
                } else if i == p {
                    assert(name_bytes(r@)[i] == x@ && name_bytes(r@)[i - 1] == old_r[i - 1]);
                } else if i == p + 1 {
                    assert(name_bytes(r@)[i] == old_r[i - 1] && name_bytes(r@)[i - 1] == x@);
                    lemma_before_asymmetric(x@, old_r[i - 1], 0);
                } else {
                    assert(name_bytes(r@)[i] == old_r[i - 1] && name_bytes(r@)[i - 1] == old_r[i - 2]);
                }
            }
            k = k + 1;
        }
        assert(name_bytes(names@).take(names@.len() as int) =~= name_bytes(names@));
        r
    }
}

/// The message for an included name that is not UTF-8.
pub open spec fn non_utf8_name_message(raw: Seq<u8>) -> Seq<char> {
    "unsupported non-UTF-8 filesystem name "@ + spec_render_bytes(raw)
}

/// The text of each raw component of an included entry; the first
/// component that is not UTF-8 is refused, shown byte by byte.
pub fn entry_texts(components: &[Vec<u8>]) -> (r: Result<Vec<String>, AppError>)
    ensures
        match r {
            Ok(v) => v@.len() == components@.len() && forall|k: int|
                0 <= k < components@.len() ==> valid_utf8((#[trigger] components@[k])@) && v@[k]@ == decode_utf8(
                    components@[k]@,
                ),
            Err(e) => exists|k: int|
                0 <= k < components@.len() && !valid_utf8((#[trigger] components@[k])@) && (forall|j: int|
                    0 <= j < k ==> valid_utf8((#[trigger] components@[j])@)) && (e matches AppError::Other(m)
                    && m@ == non_utf8_name_message(components@[k]@)),
        },
{
    let mut v: Vec<String> = Vec::new();
    let mut k: usize = 0;
    while k < components.len()
        invariant
            k <= components@.len(),
            v@.len() == k,
            forall|j: int|
                0 <= j < k ==> valid_utf8((#[trigger] components@[j])@) && v@[j]@ == decode_utf8(components@[j]@),
        decreases components@.len() - k,
    {
        match utf8_to_str(components[k].as_slice()) {
            Some(t) => {
                v.push(t.to_owned());
            },
            None => {
                let mut m = String::new();
                push_str(&mut m, "unsupported non-UTF-8 filesystem name ");
                let rendered = render_bytes_component(components[k].as_slice());
                push_str(&mut m, rendered.as_str());
                assert(m@ =~= non_utf8_name_message(components@[k as int]@)) by {
                    reveal_strlit("unsupported non-UTF-8 filesystem name ");
                }
                assert(!valid_utf8(components@[k as int]@));
                return Err(AppError::Other(m));
            },
        }
        k = k + 1;
    }
    Ok(v)
}


/// Why generation failed while reading the filesystem. The root is held as
/// its raw spelling, entries as their raw root-relative components, and
/// error kinds as their names.
pub enum GenerationFailure {
    /// The root could not be resolved or inspected (`operation` says which).
    RootAccess { root: Vec<u8>, operation: String, kind: String },
    /// The root does not resolve to a directory.
    RootNotDirectory { root: Vec<u8> },
    /// A directory could not be listed: the root (no components) or an
    /// included directory.
    Unenumerable { root: Vec<u8>, directory: Vec<Vec<u8>>, kind: String },
    /// An included entry could not be classified without following it.
    Unclassifiable { entry: Vec<Vec<u8>>, kind: String },
}

impl GenerationFailure {
    pub open spec fn spec_message(self) -> Seq<char> {
        match self {
            GenerationFailure::RootAccess { root, operation, kind } => "could not "@ + operation@ + " "@
                + spec_render_bytes(root@) + " ("@ + kind@ + ")"@,
            GenerationFailure::RootNotDirectory { root } => "generation root "@ + spec_render_bytes(root@)
                + " must resolve to a directory"@,
            GenerationFailure::Unenumerable { root, directory, kind } => if directory@.len() == 0 {
                "could not read the generation root directory "@ + spec_render_bytes(root@) + " ("@ + kind@
                    + ")"@
            } else {
                "could not enumerate included directory "@ + render_relative(byte_views(directory@))
                    + " ("@ + kind@ + ")"@
            },
            GenerationFailure::Unclassifiable { entry, kind } => "could not classify included filesystem entry "@
                + render_relative(byte_views(entry@)) + " without following it ("@ + kind@ + ")"@,
        }
    }

    /// The application error that carries the failure.
    pub fn into_error(&self) -> (e: AppError)
        ensures
            e.view() == AppErrorView::Other(self.spec_message()),
    {
        let mut s = String::new();
        match self {
            GenerationFailure::RootAccess { root, operation, kind } => {
                push_str(&mut s, "could not ");
                push_str(&mut s, operation.as_str());
                push_str(&mut s, " ");
                let r = render_bytes_component(root.as_slice());
                push_str(&mut s, r.as_str());
                push_str(&mut s, " (");
                push_str(&mut s, kind.as_str());
                push_str(&mut s, ")");
            },
            GenerationFailure::RootNotDirectory { root } => {
                push_str(&mut s, "generation root ");
                let r = render_bytes_component(root.as_slice());
                push_str(&mut s, r.as_str());
                push_str(&mut s, " must resolve to a directory");
            },
            GenerationFailure::Unenumerable { root, directory, kind } => {
                if directory.len() == 0 {
                    push_str(&mut s, "could not read the generation root directory ");
                    let r = render_bytes_component(root.as_slice());
                    push_str(&mut s, r.as_str());
                } else {
                    push_str(&mut s, "could not enumerate included directory ");
                    let r = render_relative_path(directory.as_slice());
                    push_str(&mut s, r.as_str());
                }
                push_str(&mut s, " (");
                push_str(&mut s, kind.as_str());
                push_str(&mut s, ")");
            },
            GenerationFailure::Unclassifiable { entry, kind } => {
                push_str(&mut s, "could not classify included filesystem entry ");
                let r = render_relative_path(entry.as_slice());
                push_str(&mut s, r.as_str());
                push_str(&mut s, " without following it (");
                push_str(&mut s, kind.as_str());
                push_str(&mut s, ")");
            },
        }
        AppError::Other(s)
    }
}

// ---------------------------------------------------------------------------
// Generation from the walk of the root

/// One entry met by the walk of a generation root: its raw root-relative
/// components and what classifying it, without following links, gave.
pub struct WalkedEntry {
    pub components: Vec<Vec<u8>>,
    pub kind: Result<SupportedEntryKind, UnsupportedEntryKind>,
}

pub open spec fn walked_view(w: Seq<WalkedEntry>) -> Seq<(Seq<Seq<u8>>, Result<SupportedEntryKind, UnsupportedEntryKind>)> {
    w.map_values(|e: WalkedEntry| (byte_views(e.components@), e.kind))
}

/// Whether the first `j` components of `rel` name an excluded entry.
pub open spec fn prefix_excluded(exclude: Option<Seq<PatternView>>, rel: Seq<Seq<u8>>, j: int, limit: TraversalLimit) -> bool {
    spec_admit(exclude, rel.take(j), j as usize, limit) == Ok::<bool, AppErrorView>(false)
}

/// An entry the walk never inspects: below the explicit depth limit, or
/// inside an excluded directory.
pub open spec fn hidden(exclude: Option<Seq<PatternView>>, rel: Seq<Seq<u8>>, limit: TraversalLimit) -> bool {
    ||| (rel.len() > limit.maximum_entry_depth && !limit.reject_beyond_limit)
    ||| exists|j: int| 1 <= j < rel.len() && #[trigger] prefix_excluded(exclude, rel, j, limit)
}

pub open spec fn unsupported_message(rel: Seq<Seq<u8>>, kind: UnsupportedEntryKind) -> Seq<char> {
    "unsupported included filesystem entry "@ + render_relative(rel) + ": "@ + kind.spec_description()
}

/// The included entries of a walk, in walk order, or the first fault: an
/// entry refused by the depth limit or for its name, an included entry of
/// an unsupported kind, or a name that is not UTF-8.
pub open spec fn select(
    exclude: Option<Seq<PatternView>>,
    limit: TraversalLimit,
    ws: Seq<(Seq<Seq<u8>>, Result<SupportedEntryKind, UnsupportedEntryKind>)>,
) -> Result<Seq<(Seq<Seq<u8>>, bool)>, AppErrorView>
    decreases ws.len(),
{
    if ws.len() == 0 {
        Ok(seq![])
    } else {
        match select(exclude, limit, ws.drop_last()) {
            Err(e) => Err(e),
            Ok(prev) => {
                let rel = ws.last().0;
                if hidden(exclude, rel, limit) {
                    Ok(prev)
                } else {
                    match spec_admit(exclude, rel, rel.len() as usize, limit) {
                        Err(e) => Err(e),
                        Ok(false) => Ok(prev),
                        Ok(true) => match ws.last().1 {
                            Err(u) => Err(AppErrorView::Other(unsupported_message(rel, u))),
                            Ok(k) => if first_non_utf8(rel, 0) < rel.len() {
                                Err(AppErrorView::Other(non_utf8_name_message(rel[first_non_utf8(rel, 0)])))
                            } else {
                                Ok(prev.push((rel, k == SupportedEntryKind::Directory)))
                            },
                        },
                    }
                }
            },
        }
    }
}

/// Whether `a` comes strictly before `b` in the order of their
/// characters' code points, comparing from index `i` on.
pub open spec fn chars_before_from(a: Seq<char>, b: Seq<char>, i: int) -> bool
    decreases a.len() - i,
{
    if i < 0 || i >= a.len() {
        i < b.len()
    } else if i >= b.len() {
        false
    } else if a[i] != b[i] {
        (a[i] as u32) < (b[i] as u32)
    } else {
        chars_before_from(a, b, i + 1)
    }
}

/// Whether name `a` comes strictly before name `b` (for UTF-8 names the
/// order of their bytes).
pub open spec fn chars_before(a: Seq<char>, b: Seq<char>) -> bool {
    chars_before_from(a, b, 0)
}

/// A name a directory can hold: nonempty, without `/`, neither `.` nor `..`.
pub open spec fn plain_entry_name(c: Seq<char>) -> bool {
    c.len() > 0 && !c.contains('/') && !is_dot_component(c)
}

/// The included entries form an ordered depth-first walk: every name is a
/// plain name, the walk starts at the root, goes one level deeper only into
/// the directory just listed, each entry lies in the directory of the path
/// before it, and each name comes strictly after its previous sibling's.
pub open spec fn walk_shaped(es: Seq<(Seq<Seq<char>>, bool)>) -> bool {
    &&& forall|i: int| 0 <= i < es.len() ==> (#[trigger] es[i]).0.len() > 0
    &&& forall|i: int, m: int| 0 <= i < es.len() && 0 <= m < es[i].0.len() ==> plain_entry_name(#[trigger] es[i].0[m])
    &&& es.len() > 0 ==> es[0].0.len() == 1
    &&& forall|i: int| 1 <= i < es.len() ==> pair_in_walk(es[i - 1], #[trigger] es[i])
}

/// One step of an ordered depth-first walk, from `p` to `e`.
pub open spec fn pair_in_walk(p: (Seq<Seq<char>>, bool), e: (Seq<Seq<char>>, bool)) -> bool {
    let d = e.0.len();
    &&& d <= p.0.len() + 1
    &&& (d == p.0.len() + 1 ==> p.1)
    &&& e.0.drop_last() == p.0.take(d - 1)
    &&& (d <= p.0.len() ==> chars_before(p.0[d - 1], e.0.last()))
}

pub open spec fn not_a_walk_message() -> Seq<char> {
    "the entries of the generation root are not an ordered depth-first walk"@
}

pub open spec fn decoded_entries(es: Seq<(Seq<Seq<u8>>, bool)>) -> Seq<(Seq<Seq<char>>, bool)> {
    es.map_values(|e: (Seq<Seq<u8>>, bool)| (e.0.map_values(|c: Seq<u8>| decode_utf8(c)), e.1))
}

/// The guide generated from the walk of a root: the configuration checks,
/// the included entries in walk order, the shape of the walk, and the
/// rendering of those entries.
pub open spec fn spec_generate(
    exclude: Option<Seq<PatternView>>,
    indent_size: usize,
    max_depth: Option<usize>,
    root: Seq<char>,
    ws: Seq<(Seq<Seq<u8>>, Result<SupportedEntryKind, UnsupportedEntryKind>)>,
) -> Result<Seq<char>, AppErrorView> {
    match spec_limit(indent_size, max_depth) {
        Err(e) => Err(e),
        Ok(limit) => match select(exclude, limit, ws) {
            Err(e) => Err(e),
            Ok(es) => if !walk_shaped(decoded_entries(es)) {
                Err(AppErrorView::Other(not_a_walk_message()))
            } else {
                spec_dump(indent_size, max_depth, root, decoded_entries(es))
            },
        },
    }
}

proof fn lemma_first_invalid(rel: Seq<Seq<u8>>, i: int, k: int)
    requires
        0 <= i <= k <= rel.len(),
        forall|j: int| i <= j < k ==> valid_utf8(#[trigger] rel[j]),
        k < rel.len() ==> !valid_utf8(rel[k]),
    ensures
        first_non_utf8(rel, i) == k,
    decreases k - i,
{
    if i < k {
        lemma_first_invalid(rel, i + 1, k);
    }
}

fn text_eq(a: &str, b: &str) -> (r: bool)
    ensures
        r == (a@ == b@),
{
    let x = chars_of(a);
    let y = chars_of(b);
    if x.len() != y.len() {
        return false;
    }
    let mut i: usize = 0;
    while i < x.len()
        invariant
            i <= x@.len(),
            x@.len() == y@.len(),
            x@ == a@,
            y@ == b@,
            forall|j: int| 0 <= j < i ==> x@[j] == y@[j],
        decreases x@.len() - i,
    {
        if x[i] != y[i] {
            return false;
        }
        i = i + 1;
    }
    assert(x@ =~= y@);
    true
}

fn chars_before_exec(a: &str, b: &str) -> (r: bool)
    ensures
        r == chars_before(a@, b@),
{
    let x = chars_of(a);
    let y = chars_of(b);
    let mut i: usize = 0;
    while i < x.len() && i < y.len() && x[i] == y[i]
        invariant
            i <= x@.len(),
            x@ == a@,
            y@ == b@,
            chars_before_from(a@, b@, 0) == chars_before_from(a@, b@, i as int),
        decreases x@.len() - i,
    {
        i = i + 1;
    }
    if i >= x.len() {
        i < y.len()
    } else if i >= y.len() {
        false
    } else {
        (x[i] as u32) < (y[i] as u32)
    }
}

fn plain_text(t: &str) -> (r: bool)
    ensures
        r == plain_entry_name(t@),
{
    let x = chars_of(t);
    if x.len() == 0 {
        return false;
    }
    let mut i: usize = 0;
    while i < x.len()
        invariant
            i <= x@.len(),
            x@ == t@,
            forall|j: int| 0 <= j < i ==> x@[j] != '/',
        decreases x@.len() - i,
    {
        if x[i] == '/' {
            assert(t@.contains('/'));
            return false;
        }
        i = i + 1;
    }
    let dot = (x.len() == 1 && x[0] == '.') || (x.len() == 2 && x[0] == '.' && x[1] == '.');
    proof {
        if dot {
            if x@.len() == 1 {
                assert(x@ =~= seq!['.']);
            } else {
                assert(x@ =~= seq!['.', '.']);
            }
        }
    }
    !dot
}

/// Whether `cur` follows `prev` in an ordered depth-first walk, and all the
/// names of `cur` are plain.
fn pair_ok(prev: &GeneratedEntry, cur: &GeneratedEntry) -> (r: bool)
    requires
        cur.components@.len() > 0,
    ensures
        r == pair_in_walk(entry_view(*prev), entry_view(*cur)),
{
    let ghost p = entry_view(*prev).0;
    let ghost c = entry_view(*cur).0;
    let d = cur.components.len();
    if d - 1 > prev.components.len() {
        return false;
    }
    if d - 1 == prev.components.len() && !prev.is_dir {
        return false;
    }
    let mut m: usize = 0;
    while m + 1 < d
        invariant
            m + 1 <= d,
            d == cur.components@.len(),
            d <= prev.components@.len() + 1,
            p == entry_view(*prev).0,
            c == entry_view(*cur).0,
            forall|q: int| 0 <= q < m ==> c[q] == p[q],
        decreases d - m,
    {
        if !text_eq(cur.components[m].as_str(), prev.components[m].as_str()) {
            assert(c.drop_last()[m as int] != p.take(d - 1)[m as int]);
            return false;
        }
        m = m + 1;
    }
    assert(c.drop_last() =~= p.take(d - 1));
    if d <= prev.components.len() {
        chars_before_exec(prev.components[d - 1].as_str(), cur.components[d - 1].as_str())
    } else {
        true
    }
}

fn decoded_texts(components: &[Vec<u8>]) -> (r: Result<Vec<String>, AppError>)
    ensures
        match r {
            Ok(v) => first_non_utf8(byte_views(components@), 0) == components@.len() && v@.map_values(|t: String| t@)
                == byte_views(components@).map_values(|c: Seq<u8>| decode_utf8(c)),
            Err(e) => first_non_utf8(byte_views(components@), 0) < components@.len() && e.view() == AppErrorView::Other(
                non_utf8_name_message(byte_views(components@)[first_non_utf8(byte_views(components@), 0)]),
            ),
        },
{
    let ghost rel = byte_views(components@);
    match entry_texts(components) {
        Ok(v) => {
            proof {
                assert forall|j: int| 0 <= j < rel.len() implies valid_utf8(#[trigger] rel[j]) by {
                    assert(rel[j] == components@[j]@);
                }
                lemma_first_invalid(rel, 0, rel.len() as int);
                assert(v@.map_values(|t: String| t@) =~= rel.map_values(|c: Seq<u8>| decode_utf8(c)));
            }
            Ok(v)
        },
        Err(e) => {
            proof {
                let k = choose|k: int|
                    0 <= k < components@.len() && !valid_utf8((#[trigger] components@[k])@) && (forall|j: int|
                        0 <= j < k ==> valid_utf8((#[trigger] components@[j])@)) && (e matches AppError::Other(m)
                        && m@ == non_utf8_name_message(components@[k]@));
                assert forall|j: int| 0 <= j < k implies valid_utf8(#[trigger] rel[j]) by {
                    assert(rel[j] == components@[j]@);
                }
                assert(rel[k] == components@[k]@);
                lemma_first_invalid(rel, 0, k);
            }
            Err(e)
        },
    }
}

impl Dumper {
    /// Whether the walk of the root inspects nothing below the first `j`
    /// components: checks every proper prefix of `comps` for exclusion.
    fn inside_excluded(&self, comps: &Vec<Vec<u8>>, limit: TraversalLimit) -> (r: bool)
        requires
            self.wf(),
        ensures
            r == exists|j: int| 1 <= j < comps@.len() && #[trigger] prefix_excluded(self.spec_exclude(), byte_views(comps@), j, limit),
    {
        let ghost rel = byte_views(comps@);
        if comps.len() == 0 {
            return false;
        }
        let mut prefix: Vec<Vec<u8>> = Vec::new();
        let mut j: usize = 0;
        assert(byte_views(prefix@) =~= rel.take(0));
        while j < comps.len() - 1
            invariant
                self.wf(),
                rel == byte_views(comps@),
                comps@.len() > 0,
                j <= comps@.len() - 1,
                byte_views(prefix@) == rel.take(j as int),
                forall|q: int| 1 <= q <= j ==> !#[trigger] prefix_excluded(self.spec_exclude(), rel, q, limit),
            decreases comps@.len() - j,
        {
            let c = comps[j].clone();
            assert(c@ == comps@[j as int]@);
            let ghost old_prefix = byte_views(prefix@);
            prefix.push(c);
            assert(byte_views(prefix@) =~= old_prefix.push(c@));
            assert(rel.take(j + 1) =~= rel.take(j as int).push(rel[j as int]));
            j = j + 1;
            assert(byte_views(prefix@) =~= rel.take(j as int));
            match self.admit_entry(prefix.as_slice(), j, limit) {
                Ok(false) => {
                    assert(prefix_excluded(self.spec_exclude(), rel, j as int, limit));
                    return true;
                },
                _ => {},
            }
        }
        false
    }

    /// Generate a guide list from the walk of the root: `walked` holds the
    /// entries met, in walk order. Entries the walk would not inspect are
    /// left out, as are excluded ones; the depth limit, names and kinds of
    /// the included entries are checked; the included entries must form an
    /// ordered depth-first walk; then they are rendered.
    pub fn generate(&self, root: &str, walked: &[WalkedEntry]) -> (r: Result<String, AppError>)
        requires
            self.wf(),
        ensures
            match r {
                Ok(s) => spec_generate(self.spec_exclude(), self.spec_indent_size(), self.spec_max_depth(), root@, walked_view(walked@))
                    == Ok::<Seq<char>, AppErrorView>(s@),
                Err(e) => spec_generate(self.spec_exclude(), self.spec_indent_size(), self.spec_max_depth(), root@, walked_view(walked@))
                    == Err::<Seq<char>, AppErrorView>(e.view()),
            },
    {
        let limit = self.validate_configuration()?;
        let ghost ex = self.spec_exclude();
        let ghost wv = walked_view(walked@);
        let mut raw: Vec<usize> = Vec::new();
        let mut dirs: Vec<bool> = Vec::new();
        let mut out: Vec<GeneratedEntry> = Vec::new();
        let ghost mut sel: Seq<(Seq<Seq<u8>>, bool)> = seq![];
        let mut k: usize = 0;
        assert(wv.take(0) =~= Seq::<(Seq<Seq<u8>>, Result<SupportedEntryKind, UnsupportedEntryKind>)>::empty());
        while k < walked.len()
            invariant
                self.wf(),
                ex == self.spec_exclude(),
                wv == walked_view(walked@),
                spec_limit(self.spec_indent_size(), self.spec_max_depth()) == Ok::<TraversalLimit, AppErrorView>(limit),
                k <= walked@.len(),
                select(ex, limit, wv.take(k as int)) == Ok::<Seq<(Seq<Seq<u8>>, bool)>, AppErrorView>(sel),
                raw@.len() == sel.len(),
                dirs@.len() == sel.len(),
                forall|i: int| 0 <= i < sel.len() ==> (#[trigger] raw@[i]) < walked@.len() && sel[i] == (
                    byte_views(walked@[raw@[i] as int].components@),
                    dirs@[i],
                ),
                entries_view(out@) == decoded_entries(sel),
            decreases walked@.len() - k,
        {
            let w = &walked[k];
            let ghost rel = byte_views(w.components@);
            assert(wv[k as int] == (rel, w.kind));
            assert(wv.take(k + 1).drop_last() =~= wv.take(k as int));
            assert(wv.take(k + 1).last() == wv[k as int]);
            let depth = w.components.len();
            let beyond = depth > limit.maximum_entry_depth && !limit.reject_beyond_limit;
            let skip = beyond || self.inside_excluded(&w.components, limit);
            if !skip {
                match self.admit_entry(w.components.as_slice(), depth, limit) {
                    Err(e) => {
                        proof {
                            lemma_select_failed(ex, limit, wv, k as int + 1);
                        }
                        return Err(e);
                    },
                    Ok(false) => {},
                    Ok(true) => match w.kind {
                        Err(u) => {
                            let e = unsupported_entry_error(w.components.as_slice(), u);
                            proof {
                                lemma_select_failed(ex, limit, wv, k as int + 1);
                            }
                            return Err(e);
                        },
                        Ok(kind) => {
                            let texts = match decoded_texts(w.components.as_slice()) {
                                Err(e) => {
                                    proof {
                                        lemma_select_failed(ex, limit, wv, k as int + 1);
                                    }
                                    return Err(e);
                                },
                                Ok(t) => t,
                            };
                            let is_dir = match kind {
                                SupportedEntryKind::Directory => true,
                                SupportedEntryKind::RegularFile => false,
                            };
                            let ghost before = out@;
                            out.push(GeneratedEntry { components: texts, is_dir });
                            raw.push(k);
                            dirs.push(is_dir);
                            proof {
                                let old_sel = sel;
                                sel = sel.push((rel, is_dir));
                                assert(entries_view(out@) =~= decoded_entries(sel)) by {
                                    assert(entries_view(out@) =~= entries_view(before).push(entry_view(out@[out@.len() - 1])));
                                    assert(decoded_entries(sel) =~= decoded_entries(old_sel).push(decoded_entries(sel)[sel.len() - 1]));
                                }
                            }
                        },
                    },
                }
            }
            k = k + 1;
        }
        assert(wv.take(walked@.len() as int) =~= wv);
        let ghost des = decoded_entries(sel);
        let mut i: usize = 0;
        while i < out.len()
            invariant
                ex == self.spec_exclude(),
                wv == walked_view(walked@),
                spec_limit(self.spec_indent_size(), self.spec_max_depth()) == Ok::<TraversalLimit, AppErrorView>(limit),
                select(ex, limit, wv) == Ok::<Seq<(Seq<Seq<u8>>, bool)>, AppErrorView>(sel),
                des == decoded_entries(sel),
                entries_view(out@) == des,
                i <= out@.len(),
                forall|q: int| 0 <= q < i ==> (#[trigger] des[q]).0.len() > 0,
                forall|q: int, m: int| 0 <= q < i && 0 <= m < des[q].0.len() ==> plain_entry_name(#[trigger] des[q].0[m]),
                i > 0 ==> des[0].0.len() == 1,
                forall|q: int| 1 <= q < i ==> pair_in_walk(des[q - 1], #[trigger] des[q]),
            decreases out@.len() - i,
        {
            let cur = &out[i];
            assert(des[i as int] == entry_view(*cur));
            let n = cur.components.len();
            if n == 0 || (i == 0 && n != 1) {
                proof {
                    if walk_shaped(des) {
                        assert(des[i as int].0.len() > 0);
                    }
                }
                return Err(not_a_walk());
            }
            let mut m: usize = 0;
            while m < n
                invariant
                    m <= n,
                    n == cur.components@.len(),
                    i < des.len(),
                    ex == self.spec_exclude(),
                    wv == walked_view(walked@),
                    spec_limit(self.spec_indent_size(), self.spec_max_depth()) == Ok::<TraversalLimit, AppErrorView>(limit),
                    select(ex, limit, wv) == Ok::<Seq<(Seq<Seq<u8>>, bool)>, AppErrorView>(sel),
                    des == decoded_entries(sel),
                    entries_view(out@) == des,
                    des[i as int] == entry_view(*cur),
                    forall|q: int| 0 <= q < m ==> plain_entry_name(#[trigger] des[i as int].0[q]),
                decreases n - m,
            {
                assert(des[i as int].0[m as int] == cur.components@[m as int]@);
                if !plain_text(cur.components[m].as_str()) {
                    proof {
                        if walk_shaped(des) {
                            assert(plain_entry_name(des[i as int].0[m as int]));
                        }
                    }
                    return Err(not_a_walk());
                }
                m = m + 1;
            }
            if i > 0 {
                let prev = &out[i - 1];
                assert(des[i - 1] == entry_view(*prev));
                if !pair_ok(prev, cur) {
                    proof {
                        if walk_shaped(des) {
                            assert(pair_in_walk(des[i - 1], des[i as int]));
                        }
                    }
                    return Err(not_a_walk());
                }
            }
            i = i + 1;
        }
        assert(walk_shaped(des));
        self.dump(root, out.as_slice())
    }

    /// Generate a guide from the walk of the root, with the guide markers
    /// around the list.
    pub fn generate_with_wrapper(&self, root: &str, walked: &[WalkedEntry]) -> (r: Result<String, AppError>)
        requires
            self.wf(),
        ensures
            match r {
                Ok(s) => (spec_generate(self.spec_exclude(), self.spec_indent_size(), self.spec_max_depth(), root@, walked_view(walked@)) matches Ok(c)
                    && s@ == wrap_guide(c)),
                Err(e) => spec_generate(self.spec_exclude(), self.spec_indent_size(), self.spec_max_depth(), root@, walked_view(walked@))
                    == Err::<Seq<char>, AppErrorView>(e.view()),
            },
    {
        let content = self.generate(root, walked)?;
        let mut s = String::new();
        push_str(&mut s, "<agentic-navigation-guide>\n");
        push_str(&mut s, content.as_str());
        push_str(&mut s, "</agentic-navigation-guide>");
        Ok(s)
    }
}

fn not_a_walk() -> (e: AppError)
    ensures
        e.view() == AppErrorView::Other(not_a_walk_message()),
{
    AppError::Other("the entries of the generation root are not an ordered depth-first walk".to_owned())
}

proof fn lemma_select_failed(
    ex: Option<Seq<PatternView>>,
    limit: TraversalLimit,
    ws: Seq<(Seq<Seq<u8>>, Result<SupportedEntryKind, UnsupportedEntryKind>)>,
    k: int,
)
    requires
        0 <= k <= ws.len(),
        select(ex, limit, ws.take(k)) is Err,
    ensures
        select(ex, limit, ws) == select(ex, limit, ws.take(k)),
    decreases ws.len() - k,
{
    if k < ws.len() {
        assert(ws.take(k + 1).drop_last() =~= ws.take(k));
        lemma_select_failed(ex, limit, ws, k + 1);
    } else {
        assert(ws.take(k) =~= ws);
    }
}

} // verus!
