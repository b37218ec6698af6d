//! The guide reader: locates the single `<agentic-navigation-guide>` block of a
//! Markdown document and turns its list into a guide tree.

use vstd::prelude::*;
use crate::errors::{AppError, SyntaxError, SyntaxErrorView};
use crate::lexer::{
    lex, spec_lex, LexFailure, LexMode, LexState, Template, TemplateExec, seq_views, lex_init, lex_run,
    lex_step, lex_finish, is_escapable, spaces, emit, flush,
};
use crate::path_codec::{
    concat_map, is_syntax_char, is_ellipsis, needs_quotes, quoted_char, quoted_spelling,
    spec_serialize_component,
};
use crate::text::{
    blank, chars_of, document_lines, first_failing, is_blank, is_white_space,
    lemma_trim_start_skip, spec_lines, spec_trim, split_state, strip_cr, string_of, subrange, trim_end_by,
    trim_start_by, trim_white, white_space,
};
use crate::types::{FilesystemItem, FlatLine, LineKind, NavigationGuide, NavigationGuideLine, flatten, opt_view, placeholder_path};

verus! {

// ---------------------------------------------------------------------------
// Marker lines

pub open spec fn is_hblank(c: char) -> bool {
    c == ' ' || c == '\t'
}

/// A marker line without the spaces and tabs around it.
pub open spec fn marker_trim(l: Seq<char>) -> Seq<char> {
    trim_end_by(trim_start_by(l, |c: char| is_hblank(c)), |c: char| is_hblank(c))
}

pub open spec fn closing_marker() -> Seq<char> {
    "</agentic-navigation-guide>"@
}

pub open spec fn opening_name() -> Seq<char> {
    "<agentic-navigation-guide"@
}

pub open spec fn ignore_name() -> Seq<char> {
    "ignore"@
}

pub open spec fn is_closing_line(l: Seq<char>) -> bool {
    marker_trim(l) == closing_marker()
}

pub open spec fn is_true_value(v: Seq<char>) -> bool {
    v == "true"@ || v == "\"true\""@
}

/// The attribute text between the marker name and `>`: empty, or exactly
/// `ignore=true` / `ignore="true"` after a blank, with optional blanks
/// around `=` and before `>`. `Some(ignore)` when well formed.
pub open spec fn attribute_ignore(a: Seq<char>) -> Option<bool> {
    if a.len() == 0 {
        Some(false)
    } else {
        let a1 = trim_start_by(a, |c: char| is_hblank(c));
        let n = ignore_name();
        if a1.len() < a.len() && a1.len() >= n.len() && a1.take(n.len() as int) == n {
            let a2 = trim_start_by(a1.skip(n.len() as int), |c: char| is_hblank(c));
            if a2.len() > 0 && a2[0] == '=' {
                let v = trim_end_by(trim_start_by(a2.skip(1), |c: char| is_hblank(c)), |c: char| is_hblank(c));
                if is_true_value(v) {
                    Some(true)
                } else {
                    None
                }
            } else {
                None
            }
        } else {
            None
        }
    }
}

/// `Some(ignore)` when the line is an exact opening marker.
pub open spec fn opening_line(l: Seq<char>) -> Option<bool> {
    let t = marker_trim(l);
    let n = opening_name();
    if t.len() > n.len() && t.take(n.len() as int) == n && t.last() == '>' {
        attribute_ignore(t.subrange(n.len() as int, t.len() - 1))
    } else {
        None
    }
}

fn hblank(c: char) -> (r: bool)
    ensures
        r == is_hblank(c),
{
    c == ' ' || c == '\t'
}

/// The first index at or after `i` whose character is not a space or tab.
fn skip_hblank(s: &[char], i: usize) -> (j: usize)
    requires
        i <= s@.len(),
    ensures
        j == first_failing(s@, |c: char| is_hblank(c), i as int),
        i <= j <= s@.len(),
{
    let ghost p = |c: char| is_hblank(c);
    let mut j = i;
    while j < s.len() && hblank(s[j])
        invariant
            i <= j <= s@.len(),
            p == (|c: char| is_hblank(c)),
            first_failing(s@, p, i as int) == first_failing(s@, p, j as int),
        decreases s@.len() - j,
    {
        assert(p(s@[j as int]));
        assert(first_failing(s@, p, j as int) == first_failing(s@, p, j + 1));
        j = j + 1;
    }
    assert(first_failing(s@, p, j as int) == j);
    j
}

/// The end of `s[i..j]` once trailing spaces and tabs are removed.
fn trim_hblank_end(s: &[char], i: usize, j: usize) -> (k: usize)
    requires
        i <= j <= s@.len(),
    ensures
        i <= k <= j,
        trim_end_by(s@.subrange(i as int, j as int), |c: char| is_hblank(c)) == s@.subrange(i as int, k as int),
{
    let ghost p = |c: char| is_hblank(c);
    let mut k = j;
    while k > i && hblank(s[k - 1])
        invariant
            i <= k <= j <= s@.len(),
            p == (|c: char| is_hblank(c)),
            trim_end_by(s@.subrange(i as int, j as int), p) == trim_end_by(s@.subrange(i as int, k as int), p),
        decreases k,
    {
        assert(p(s@[k - 1]));
        assert(s@.subrange(i as int, k as int).last() == s@[k - 1]);
        assert(s@.subrange(i as int, k as int).drop_last() == s@.subrange(i as int, k - 1));
        k = k - 1;
    }
    proof {
        if k > i {
            assert(s@.subrange(i as int, k as int).last() == s@[k - 1]);
        }
    }
    k
}

/// Whether `s[i..i + w.len()]` equals `w`.
fn matches_at(s: &[char], i: usize, w: &[char]) -> (r: bool)
    requires
        i <= s@.len(),
    ensures
        r == (i + w@.len() <= s@.len() && s@.subrange(i as int, i + w@.len()) == w@),
{
    if w.len() > s.len() - i {
        return false;
    }
    let n = s.len();
    let mut k: usize = 0;
    while k < w.len()
        invariant
            n == s@.len(),
            k <= w@.len(),
            i <= s@.len(),
            i + w@.len() <= s@.len(),
            forall|m: int| 0 <= m < k ==> s@[i + m] == w@[m],
        decreases w@.len() - k,
    {
        assert(i + k < n);
        if s[i + k] != w[k] {
            assert(s@.subrange(i as int, i + w@.len())[k as int] != w@[k as int]);
            return false;
        }
        k = k + 1;
    }
    assert(s@.subrange(i as int, i + w@.len()) =~= w@);
    true
}

fn attribute_exec(t: &[char], a0: usize, a1: usize) -> (r: Option<bool>)
    requires
        a0 <= a1 <= t@.len(),
    ensures
        r == attribute_ignore(t@.subrange(a0 as int, a1 as int)),
{
    let ghost a = t@.subrange(a0 as int, a1 as int);
    let ghost p = |c: char| is_hblank(c);
    if a0 == a1 {
        return Some(false);
    }
    let b = skip_hblank(&t[0..a1], a0);
    proof {
        let u = t@.subrange(0, a1 as int);
        assert(t@.subrange(0, a1 as int) == u);
        lemma_trim_start_skip(u, p, a0 as int);
        assert(u.skip(a0 as int) == a);
        assert(u.skip(b as int) == t@.subrange(b as int, a1 as int));
    }
    let ghost a1s = t@.subrange(b as int, a1 as int);
    assert(trim_start_by(a, p) == a1s);
    let name = chars_of("ignore");
    if !(b > a0 && matches_at(&t[0..a1], b, name.as_slice())) {
        proof {
            let u = t@.subrange(0, a1 as int);
            if a1s.len() < a.len() && a1s.len() >= name@.len() && a1s.take(name@.len() as int) == name@ {
                assert(u.subrange(b as int, b + name@.len()) == a1s.take(name@.len() as int));
            }
        }
        return None;
    }
    let c = b + name.len();
    proof {
        let u = t@.subrange(0, a1 as int);
        assert(u.subrange(b as int, b + name@.len()) == a1s.take(name@.len() as int));
        assert(a1s.skip(name@.len() as int) == t@.subrange(c as int, a1 as int));
    }
    let d = skip_hblank(&t[0..a1], c);
    proof {
        let u = t@.subrange(0, a1 as int);
        lemma_trim_start_skip(u, p, c as int);
        assert(u.skip(c as int) == t@.subrange(c as int, a1 as int));
        assert(u.skip(d as int) == t@.subrange(d as int, a1 as int));
    }
    let ghost a2 = t@.subrange(d as int, a1 as int);
    if !(d < a1 && t[d] == '=') {
        return None;
    }
    let e = skip_hblank(&t[0..a1], d + 1);
    proof {
        let u = t@.subrange(0, a1 as int);
        lemma_trim_start_skip(u, p, d + 1);
        assert(u.skip(d + 1) == a2.skip(1));
        assert(u.skip(e as int) == t@.subrange(e as int, a1 as int));
    }
    let f = trim_hblank_end(t, e, a1);
    let v = subrange(t, e, f);
    let tv = chars_of("true");
    let qv = chars_of("\"true\"");
    let ok = (v.len() == tv.len() && matches_at(v.as_slice(), 0, tv.as_slice())) || (v.len() == qv.len()
        && matches_at(v.as_slice(), 0, qv.as_slice()));
    proof {
        assert(v@.subrange(0, tv@.len() as int) == v@ ==> v@.len() == tv@.len() || true);
        if v@.len() == tv@.len() {
            assert(v@.subrange(0, tv@.len() as int) == v@);
        }
        if v@.len() == qv@.len() {
            assert(v@.subrange(0, qv@.len() as int) == v@);
        }
    }
    if ok {
        Some(true)
    } else {
        None
    }
}

/// Whether a document line is the closing marker, and the `ignore` value when
/// it is an exact opening marker.
fn classify_marker(l: &[char]) -> (r: (bool, Option<bool>))
    ensures
        r.0 == is_closing_line(l@),
        r.1 == opening_line(l@),
{
    let ghost p = |c: char| is_hblank(c);
    let i = skip_hblank(l, 0);
    proof {
        lemma_trim_start_skip(l@, p, 0);
        assert(l@.skip(0) == l@);
        assert(l@.skip(i as int) == l@.subrange(i as int, l@.len() as int));
    }
    let j = trim_hblank_end(l, i, l.len());
    let t = subrange(l, i, j);
    assert(t@ == marker_trim(l@));
    let close = chars_of("</agentic-navigation-guide>");
    let is_close = t.len() == close.len() && matches_at(t.as_slice(), 0, close.as_slice());
    proof {
        if t@.len() == close@.len() {
            assert(t@.subrange(0, close@.len() as int) == t@);
        }
    }
    let name = chars_of("<agentic-navigation-guide");
    let n = t.len();
    let open = if n > name.len() && matches_at(t.as_slice(), 0, name.as_slice()) && t[n - 1] == '>' {
        proof {
            assert(t@.subrange(0, name@.len() as int) == t@.take(name@.len() as int));
        }
        attribute_exec(t.as_slice(), name.len(), n - 1)
    } else {
        proof {
            if n > name@.len() && t@.take(name@.len() as int) == name@ {
                assert(t@.subrange(0, name@.len() as int) == t@.take(name@.len() as int));
            }
        }
        None
    };
    (is_close, open)
}

} // verus!

verus! {

// ---------------------------------------------------------------------------
// Locating the guide block

/// The marker scan after a prefix of the document lines.
pub struct BlockScan {
    pub start: Option<int>,
    pub end: Option<int>,
    pub ignore: bool,
    pub failed: Option<SyntaxErrorView>,
}

pub open spec fn scan_init() -> BlockScan {
    BlockScan { start: None, end: None, ignore: false, failed: None }
}

pub open spec fn multiple_blocks(st: BlockScan, idx: int) -> BlockScan {
    BlockScan { failed: Some(SyntaxErrorView::MultipleGuideBlocks { line: (idx + 1) as usize }), ..st }
}

/// One line of the marker scan: exactly one opening and one closing marker
/// may occur, the opening first.
pub open spec fn scan_step(st: BlockScan, idx: int, l: Seq<char>) -> BlockScan {
    if st.failed is Some {
        st
    } else if opening_line(l) is Some {
        if st.start is Some || st.end is Some {
            multiple_blocks(st, idx)
        } else {
            BlockScan { start: Some(idx), ignore: opening_line(l)->0, ..st }
        }
    } else if is_closing_line(l) {
        if st.end is Some {
            multiple_blocks(st, idx)
        } else {
            BlockScan { end: Some(idx), ..st }
        }
    } else {
        st
    }
}

pub open spec fn scan_lines(ls: Seq<Seq<char>>) -> BlockScan
    decreases ls.len(),
{
    if ls.len() == 0 {
        scan_init()
    } else {
        scan_step(scan_lines(ls.drop_last()), ls.len() - 1, ls.last())
    }
}

/// The opening index, closing index and `ignore` flag of the guide block.
pub open spec fn spec_locate(ls: Seq<Seq<char>>) -> Result<(int, int, bool), SyntaxErrorView> {
    let st = scan_lines(ls);
    if st.failed is Some {
        Err(st.failed->0)
    } else if st.start is None {
        Err(SyntaxErrorView::MissingOpeningMarker { line: 1 })
    } else if st.end is None {
        Err(SyntaxErrorView::MissingClosingMarker { line: ls.len() as usize })
    } else {
        Ok((st.start->0, st.end->0, st.ignore))
    }
}

/// Lines joined with `\n` between them.
pub open spec fn join_lines(ls: Seq<Seq<char>>) -> Seq<char>
    decreases ls.len(),
{
    if ls.len() == 0 {
        seq![]
    } else if ls.len() == 1 {
        ls[0]
    } else {
        join_lines(ls.drop_last()) + seq!['\n'] + ls.last()
    }
}

proof fn lemma_scan_order(ls: Seq<Seq<char>>)
    ensures
        scan_lines(ls).failed is None ==> (scan_lines(ls).start matches Some(s) ==> 0 <= s < ls.len()),
        scan_lines(ls).failed is None ==> (scan_lines(ls).end matches Some(e) ==> 0 <= e < ls.len()),
        scan_lines(ls).failed is None ==> (scan_lines(ls).start matches Some(s) ==> scan_lines(ls).end matches Some(e) ==> s < e),
    decreases ls.len(),
{
    if ls.len() > 0 {
        lemma_scan_order(ls.drop_last());
    }
}

/// `lines[i..j]` joined with `\n`.
fn join_range(lines: &Vec<Vec<char>>, i: usize, j: usize) -> (r: Vec<char>)
    requires
        i <= j <= lines@.len(),
    ensures
        r@ == join_lines(lines@.subrange(i as int, j as int).map_values(|l: Vec<char>| l@)),
{
    let ghost views = lines@.map_values(|l: Vec<char>| l@);
    let mut r: Vec<char> = Vec::new();
    let mut k = i;
    while k < j
        invariant
            i <= k <= j <= lines@.len(),
            views == lines@.map_values(|l: Vec<char>| l@),
            r@ == join_lines(lines@.subrange(i as int, k as int).map_values(|l: Vec<char>| l@)),
        decreases j - k,
    {
        let ghost before = lines@.subrange(i as int, k as int).map_values(|l: Vec<char>| l@);
        let ghost after = lines@.subrange(i as int, k + 1).map_values(|l: Vec<char>| l@);
        assert(after.drop_last() =~= before);
        assert(after.last() == lines@[k as int]@);
        if k > i {
            r.push('\n');
        }
        let line = &lines[k];
        let mut m: usize = 0;
        let ghost base = r@;
        while m < line.len()
            invariant
                m <= line@.len(),
                r@ == base + line@.take(m as int),
            decreases line@.len() - m,
        {
            r.push(line[m]);
            m = m + 1;
            assert(line@.take(m as int) == line@.take(m - 1) .push(line@[m - 1]));
        }
        assert(line@.take(line@.len() as int) == line@);
        proof {
            if k == i {
                assert(after.len() == 1);
                assert(before.len() == 0);
            }
        }
        k = k + 1;
    }
    r
}

/// The scan of document lines: `Ok((start, end, ignore))` or the marker error.
fn locate_block(lines: &Vec<Vec<char>>) -> (r: Result<(usize, usize, bool), SyntaxError>)
    ensures
        match r {
            Ok((s, e, ig)) => spec_locate(lines@.map_values(|l: Vec<char>| l@)) == Ok::<(int, int, bool), SyntaxErrorView>((s as int, e as int, ig)),
            Err(err) => spec_locate(lines@.map_values(|l: Vec<char>| l@)) == Err::<(int, int, bool), SyntaxErrorView>(err.view()),
        },
{
    let ghost views = lines@.map_values(|l: Vec<char>| l@);
    let mut start: Option<usize> = None;
    let mut end: Option<usize> = None;
    let mut ignore = false;
    let mut idx: usize = 0;
    while idx < lines.len()
        invariant
            idx <= lines@.len(),
            views == lines@.map_values(|l: Vec<char>| l@),
            scan_lines(views.take(idx as int)).failed is None,
            scan_lines(views.take(idx as int)).start == match start {
                Some(s) => Some(s as int),
                None => None::<int>,
            },
            scan_lines(views.take(idx as int)).end == match end {
                Some(e) => Some(e as int),
                None => None::<int>,
            },
            scan_lines(views.take(idx as int)).ignore == ignore,
        decreases lines@.len() - idx,
    {
        assert(views.take(idx + 1).drop_last() =~= views.take(idx as int));
        assert(views.take(idx + 1).last() == lines@[idx as int]@);
        let (closing, opening) = classify_marker(lines[idx].as_slice());
        match opening {
            Some(ig) => {
                if start.is_some() || end.is_some() {
                    proof {
                        assert(scan_lines(views.take(idx + 1)) == multiple_blocks(scan_lines(views.take(idx as int)), idx as int));
                        lemma_scan_prefix_failed(views, idx as int + 1);
                    }
                    return Err(SyntaxError::MultipleGuideBlocks { line: idx + 1 });
                }
                start = Some(idx);
                ignore = ig;
            },
            None => {
                if closing {
                    if end.is_some() {
                        proof {
                            lemma_scan_prefix_failed(views, idx as int + 1);
                        }
                        return Err(SyntaxError::MultipleGuideBlocks { line: idx + 1 });
                    }
                    end = Some(idx);
                }
            },
        }
        idx = idx + 1;
    }
    assert(views.take(lines@.len() as int) =~= views);
    match (start, end) {
        (Some(s), Some(e)) => Ok((s, e, ignore)),
        (None, _) => Err(SyntaxError::MissingOpeningMarker { line: 1 }),
        (Some(_), None) => Err(SyntaxError::MissingClosingMarker { line: lines.len() }),
    }
}

/// Once the scan of a prefix has failed, the scan of the whole document
/// reports the same error.
proof fn lemma_scan_prefix_failed(ls: Seq<Seq<char>>, k: int)
    requires
        0 <= k <= ls.len(),
        scan_lines(ls.take(k)).failed is Some,
    ensures
        scan_lines(ls) == scan_lines(ls.take(k)),
    decreases ls.len() - k,
{
    if k < ls.len() {
        assert(ls.take(k + 1).drop_last() =~= ls.take(k));
        lemma_scan_prefix_failed(ls, k + 1);
    } else {
        assert(ls.take(k) =~= ls);
    }
}

} // verus!

verus! {

// ---------------------------------------------------------------------------
// List lines

/// The deepest logical indentation level a guide may use.
pub const MAX_LOGICAL_DEPTH: usize = 256;

/// The regular expression that recognises a list line.
pub open spec fn list_item_pattern() -> Seq<char> {
    "^(\\s*)-\\s+(.+)$"@
}

/// What the list-item expression captures as its first group: the leading
/// white space, when the line is white space, `-`, white space and at least
/// one more character.
pub open spec fn regex_list_item(l: Seq<char>) -> Option<Seq<char>> {
    let k = first_failing(l, |c: char| is_white_space(c), 0);
    if k + 3 <= l.len() && l[k] == '-' && is_white_space(l[k + 1]) {
        Some(l.take(k))
    } else {
        None
    }
}

/// Runs the regular expression `pattern` of the `regex` crate on `line` and
/// returns the text of its first capture group. Only the list-item pattern
/// `^(\s*)-\s+(.+)$` is passed here; with the crate's Unicode classes `\s`
/// is White_Space and `.` any character but a line feed, so on a line
/// without a line feed the pattern matches exactly when the line is leading
/// white space, a dash, white space and at least one more character, and the
/// group is the leading white space.
#[verifier::external_body]
fn first_capture(pattern: &str, line: &str) -> (r: Option<String>)
    requires
        pattern@ == list_item_pattern(),
        !line@.contains('\n'),
    ensures
        match r {
            Some(g) => regex_list_item(line@) == Some(g@),
            None => regex_list_item(line@) is None,
        },
{
    match regex::Regex::new(pattern) {
        Ok(re) => match re.captures(line) {
            Some(caps) => Some(caps[1].to_string()),
            None => None,
        },
        Err(_) => None,
    }
}

pub open spec fn all_spaces(s: Seq<char>) -> bool {
    forall|i: int| 0 <= i < s.len() ==> #[trigger] s[i] == ' '
}

/// The error a malformed item text produces: choice-block faults are wildcard
/// syntax errors, every other fault an invalid path.
pub open spec fn lex_error(f: LexFailure, line: usize, text: Seq<char>) -> SyntaxErrorView {
    match f {
        LexFailure::MultipleBlocks => SyntaxErrorView::InvalidWildcardSyntax {
            line,
            path: text,
            message: "multiple wildcard choice blocks are not supported"@,
        },
        LexFailure::NestedBlock => SyntaxErrorView::InvalidWildcardSyntax {
            line,
            path: text,
            message: "nested wildcard choice blocks are not supported"@,
        },
        LexFailure::UnterminatedBlock => SyntaxErrorView::InvalidWildcardSyntax {
            line,
            path: text,
            message: "unterminated wildcard choice block"@,
        },
        LexFailure::TooManyChoices => SyntaxErrorView::InvalidWildcardSyntax {
            line,
            path: text,
            message: "choice block has more than 256 alternatives"@,
        },
        LexFailure::EmptyChoiceBlock => SyntaxErrorView::InvalidWildcardSyntax {
            line,
            path: text,
            message: "choice block cannot be empty"@,
        },
        LexFailure::IncompleteEscape => SyntaxErrorView::InvalidWildcardSyntax {
            line,
            path: text,
            message: "incomplete escape sequence"@,
        },
        _ => SyntaxErrorView::InvalidPathFormat { line, path: text },
    }
}

/// Characters with their protection dropped.
pub open spec fn unmarked(s: Seq<char>) -> Seq<(char, bool)> {
    s.map_values(|c: char| (c, false))
}

pub open spec fn decoded(s: Seq<(char, bool)>) -> Seq<char> {
    s.map_values(|p: (char, bool)| p.0)
}

/// The path texts a template stands for, one per alternative.
pub open spec fn expansions(t: Template) -> Seq<Seq<(char, bool)>> {
    match t.alternatives {
        Some(alts) => alts.map_values(|a: Seq<char>| t.prefix + unmarked(a) + t.suffix),
        None => seq![t.prefix + t.suffix],
    }
}

pub open spec fn is_sep(s: Seq<(char, bool)>, i: int) -> bool {
    s[i] == ('/', false)
}

/// A component that starts or ends with an unprotected space.
pub open spec fn has_edge_space(s: Seq<(char, bool)>) -> bool {
    exists|i: int|
        0 <= i < s.len() && #[trigger] s[i] == (' ', false) && (i == 0 || is_sep(s, i - 1) || i
            == s.len() - 1 || is_sep(s, i + 1))
}

/// A component spelled as a bare `...`.
pub open spec fn has_bare_ellipsis(s: Seq<(char, bool)>) -> bool {
    exists|i: int|
        0 <= i && i + 3 <= s.len() && #[trigger] s[i] == ('.', false) && s[i + 1] == ('.', false)
            && s[i + 2] == ('.', false) && (i == 0 || is_sep(s, i - 1)) && (i + 3 == s.len()
            || is_sep(s, i + 3))
}

pub open spec fn bare_placeholder() -> Seq<(char, bool)> {
    seq![('.', false), ('.', false), ('.', false)]
}

/// The kind and path of one expansion, or `None` when it is not a valid path.
pub open spec fn classify(s: Seq<(char, bool)>, has_block: bool) -> Option<(LineKind, Seq<char>)> {
    if !has_block && s == bare_placeholder() {
        Some((LineKind::Placeholder, placeholder_path()))
    } else {
        let dir = s.len() > 0 && is_sep(s, s.len() - 1);
        let body = if dir {
            s.drop_last()
        } else {
            s
        };
        if body.len() == 0 || has_edge_space(body) || has_bare_ellipsis(body) {
            None
        } else {
            Some(
                (
                    if dir {
                        LineKind::Directory
                    } else {
                        LineKind::File
                    },
                    decoded(body),
                ),
            )
        }
    }
}

pub open spec fn trimmed_comment(c: Option<Seq<char>>) -> Option<Seq<char>> {
    match c {
        Some(t) => Some(spec_trim(t)),
        None => None,
    }
}

/// The guide lines of the first `k` expansions, or the first invalid one.
pub open spec fn expand_prefix(
    exps: Seq<Seq<(char, bool)>>,
    has_block: bool,
    line: usize,
    level: usize,
    comment: Option<Seq<char>>,
) -> Result<Seq<FlatLine>, SyntaxErrorView>
    decreases exps.len(),
{
    if exps.len() == 0 {
        Ok(seq![])
    } else {
        match expand_prefix(exps.drop_last(), has_block, line, level, comment) {
            Err(e) => Err(e),
            Ok(prev) => match classify(exps.last(), has_block) {
                None => Err(SyntaxErrorView::InvalidPathFormat { line, path: decoded(exps.last()) }),
                Some((kind, path)) => Ok(
                    prev.push(FlatLine { line_number: line, indent_level: level, kind, path, comment }),
                ),
            },
        }
    }
}

pub open spec fn expand_template(t: Template, line: usize, level: usize) -> Result<
    Seq<FlatLine>,
    SyntaxErrorView,
> {
    expand_prefix(expansions(t), t.alternatives is Some, line, level, trimmed_comment(t.comment))
}

/// The reading of the body lines so far.
pub struct BodyState {
    pub items: Seq<FlatLine>,
    pub size: Option<nat>,
    pub failed: Option<SyntaxErrorView>,
}

pub open spec fn body_init() -> BodyState {
    BodyState { items: seq![], size: None, failed: None }
}

pub open spec fn body_fail(st: BodyState, e: SyntaxErrorView) -> BodyState {
    BodyState { failed: Some(e), ..st }
}

/// The indentation size after a list line indented by `k` spaces, and its
/// logical level (`None` when `k` is not a multiple of the size).
pub open spec fn indent_level(size: Option<nat>, k: nat) -> (Option<nat>, Option<nat>) {
    if k == 0 {
        (size, Some(0))
    } else {
        match size {
            None => (Some(k), Some(1)),
            Some(z) => if k % z == 0 {
                (size, Some(k / z))
            } else {
                (size, None)
            },
        }
    }
}

/// What one body line contributes: the indentation size after it and its
/// guide lines. It must be a list line `- item` indented by spaces only, at a
/// multiple of the first indentation, no deeper than the maximum depth, whose
/// item text lexes and expands to valid paths.
pub open spec fn line_read(size: Option<nat>, n: usize, l: Seq<char>) -> Result<
    (Option<nat>, Seq<FlatLine>),
    SyntaxErrorView,
> {
    if is_blank(l) {
        Err(SyntaxErrorView::BlankLineInGuide { line: n })
    } else {
        match regex_list_item(l) {
            None => Err(SyntaxErrorView::InvalidListFormat { line: n }),
            Some(ind) => {
                let k = ind.len();
                if !all_spaces(ind) {
                    Err(SyntaxErrorView::InvalidIndentationLevel { line: n })
                } else if l[k as int + 1] != ' ' {
                    Err(SyntaxErrorView::InvalidListFormat { line: n })
                } else {
                    let (new_size, level) = indent_level(size, k);
                    if level is None || level->0 > MAX_LOGICAL_DEPTH {
                        Err(SyntaxErrorView::InvalidIndentationLevel { line: n })
                    } else {
                        let text = l.skip(k as int + 2);
                        match spec_lex(text) {
                            Err(f) => Err(lex_error(f, n, text)),
                            Ok(t) => match expand_template(t, n, level->0 as usize) {
                                Err(e) => Err(e),
                                Ok(new) => Ok((new_size, new)),
                            },
                        }
                    }
                }
            },
        }
    }
}

pub open spec fn line_step(st: BodyState, n: usize, l: Seq<char>) -> BodyState {
    if st.failed is Some {
        st
    } else {
        match line_read(st.size, n, l) {
            Err(e) => body_fail(st, e),
            Ok((size, new)) => BodyState { items: st.items + new, size, failed: None },
        }
    }
}

/// The reading of body lines `ls`, the first of which is document line `first`.
pub open spec fn body_run(ls: Seq<Seq<char>>, first: int) -> BodyState
    decreases ls.len(),
{
    if ls.len() == 0 {
        body_init()
    } else {
        line_step(body_run(ls.drop_last(), first), (first + ls.len() - 1) as usize, ls.last())
    }
}

/// Whether line `i` of a flat list may follow line `i - 1`: the first line is
/// at level 0, and a line one level deeper than its predecessor needs a
/// directory before it; a line may never be more than one level deeper.
pub open spec fn nests_after(items: Seq<FlatLine>, i: int) -> bool {
    if i == 0 {
        items[0].indent_level == 0
    } else {
        let prev = items[i - 1].indent_level as int;
        let cur = items[i].indent_level as int;
        cur <= prev + 1 && (cur == prev + 1 ==> items[i - 1].kind == LineKind::Directory)
    }
}

/// The document line of the first item that does not nest after its predecessor.
pub open spec fn nesting_error(items: Seq<FlatLine>) -> Option<usize>
    decreases items.len(),
{
    if items.len() == 0 {
        None
    } else {
        match nesting_error(items.drop_last()) {
            Some(n) => Some(n),
            None => if nests_after(items, items.len() - 1) {
                None
            } else {
                Some(items.last().line_number)
            },
        }
    }
}

/// The mathematical content of a parsed guide.
pub struct GuideSpec {
    pub lines: Seq<FlatLine>,
    pub prologue: Option<Seq<char>>,
    pub epilogue: Option<Seq<char>>,
    pub ignore: bool,
}

/// The reading of a whole document: the single guide block between exact
/// markers, its prologue and epilogue, and its list. The body of an ignored
/// guide is opaque: it never makes the document fail, and its lines are
/// reported only when it reads as a valid list.
pub open spec fn spec_parse(content: Seq<char>) -> Result<GuideSpec, SyntaxErrorView> {
    let ls = spec_lines(content);
    match spec_locate(ls) {
        Err(e) => Err(e),
        Ok((s, e, ignore)) => {
            let prologue = if s > 0 {
                Some(join_lines(ls.take(s)))
            } else {
                None
            };
            let epilogue = if e + 1 < ls.len() {
                Some(join_lines(ls.skip(e + 1)))
            } else {
                None
            };
            if ignore {
                let lines = match spec_body(ls.subrange(s + 1, e), s + 2) {
                    Ok(items) => items,
                    Err(_) => seq![],
                };
                Ok(GuideSpec { lines, prologue, epilogue, ignore })
            } else {
                match spec_body(ls.subrange(s + 1, e), s + 2) {
                    Err(err) => Err(err),
                    Ok(items) => Ok(GuideSpec { lines: items, prologue, epilogue, ignore }),
                }
            }
        },
    }
}

/// The guide lines of an active guide body whose first line is document line
/// `first`: a nonblank body, every line read, and the lines nested.
pub open spec fn spec_body(body: Seq<Seq<char>>, first: int) -> Result<Seq<FlatLine>, SyntaxErrorView> {
    if forall|j: int| 0 <= j < body.len() ==> is_blank(#[trigger] body[j]) {
        Err(SyntaxErrorView::EmptyGuideBlock)
    } else {
        let st = body_run(body, first);
        if st.failed is Some {
            Err(st.failed->0)
        } else if nesting_error(st.items) is Some {
            Err(SyntaxErrorView::InvalidIndentationLevel { line: nesting_error(st.items)->0 })
        } else {
            Ok(st.items)
        }
    }
}

/// Every line of `lines` is at `level`, and the children of each directory
/// are, recursively, one level deeper.
pub open spec fn well_nested(lines: Seq<NavigationGuideLine>, level: nat) -> bool
    decreases lines,
{
    if lines.len() == 0 {
        true
    } else {
        let last = lines[lines.len() - 1];
        &&& well_nested(lines.drop_last(), level)
        &&& last.indent_level == level
        &&& match last.item {
            FilesystemItem::Directory { children, .. } => well_nested(children@, level + 1),
            _ => true,
        }
    }
}

} // verus!

verus! {

/// One guide line before the hierarchy is built.
pub struct FlatItem {
    pub line_number: usize,
    pub indent_level: usize,
    pub kind: LineKind,
    pub path: Vec<char>,
    pub comment: Option<Vec<char>>,
}

pub open spec fn opt_chars(c: Option<Vec<char>>) -> Option<Seq<char>> {
    match c {
        Some(v) => Some(v@),
        None => None,
    }
}

impl FlatItem {
    pub open spec fn view(&self) -> FlatLine {
        FlatLine {
            line_number: self.line_number,
            indent_level: self.indent_level,
            kind: self.kind,
            path: self.path@,
            comment: opt_chars(self.comment),
        }
    }
}

pub open spec fn flat_views(v: Seq<FlatItem>) -> Seq<FlatLine> {
    v.map_values(|f: FlatItem| f.view())
}

fn sep_at(s: &[(char, bool)], i: usize) -> (r: bool)
    requires
        i < s@.len(),
    ensures
        r == is_sep(s@, i as int),
{
    s[i].0 == '/' && !s[i].1
}

fn edge_space(s: &[(char, bool)]) -> (r: bool)
    ensures
        r == has_edge_space(s@),
{
    let n = s.len();
    let mut i: usize = 0;
    while i < n
        invariant
            i <= n,
            n == s@.len(),
            forall|j: int|
                0 <= j < i ==> !(#[trigger] s@[j] == (' ', false) && (j == 0 || is_sep(s@, j - 1)
                    || j == s@.len() - 1 || is_sep(s@, j + 1))),
        decreases n - i,
    {
        if s[i].0 == ' ' && !s[i].1 {
            if i == 0 || sep_at(s, i - 1) || i == n - 1 || sep_at(s, i + 1) {
                assert(s@[i as int] == (' ', false));
                return true;
            }
        }
        i = i + 1;
    }
    false
}

fn bare_ellipsis(s: &[(char, bool)]) -> (r: bool)
    ensures
        r == has_bare_ellipsis(s@),
{
    let n = s.len();
    let mut i: usize = 0;
    while i < n && n - i >= 3
        invariant
            i <= n,
            n == s@.len(),
            forall|j: int|
                0 <= j < i && j + 3 <= s@.len() ==> !(#[trigger] s@[j] == ('.', false) && s@[j + 1]
                    == ('.', false) && s@[j + 2] == ('.', false) && (j == 0 || is_sep(s@, j - 1))
                    && (j + 3 == s@.len() || is_sep(s@, j + 3))),
        decreases n - i,
    {
        if s[i].0 == '.' && !s[i].1 && s[i + 1].0 == '.' && !s[i + 1].1 && s[i + 2].0 == '.'
            && !s[i + 2].1 {
            if (i == 0 || sep_at(s, i - 1)) && (i + 3 == n || sep_at(s, i + 3)) {
                assert(s@[i as int] == ('.', false));
                assert(s@[i + 1] == ('.', false));
                assert(s@[i + 2] == ('.', false));
                return true;
            }
        }
        i = i + 1;
    }
    false
}

/// The characters of `s`, protection dropped.
fn decode_marked(s: &[(char, bool)]) -> (r: Vec<char>)
    ensures
        r@ == decoded(s@),
{
    let mut r: Vec<char> = Vec::new();
    let mut i: usize = 0;
    while i < s.len()
        invariant
            i <= s@.len(),
            r@ == decoded(s@.take(i as int)),
        decreases s@.len() - i,
    {
        r.push(s[i].0);
        i = i + 1;
        assert(decoded(s@.take(i as int)) =~= decoded(s@.take(i - 1)).push(s@[i - 1].0));
    }
    assert(s@.take(s@.len() as int) =~= s@);
    r
}

fn classify_exec(s: &[(char, bool)], has_block: bool) -> (r: Option<(LineKind, Vec<char>)>)
    ensures
        match r {
            Some((k, p)) => classify(s@, has_block) == Some((k, p@)),
            None => classify(s@, has_block) is None,
        },
{
    let n = s.len();
    if !has_block && n == 3 && s[0].0 == '.' && !s[0].1 && s[1].0 == '.' && !s[1].1 && s[2].0 == '.'
        && !s[2].1 {
        assert(s@ =~= bare_placeholder());
        let mut p: Vec<char> = Vec::new();
        p.push('.');
        p.push('.');
        p.push('.');
        assert(p@ =~= placeholder_path());
        return Some((LineKind::Placeholder, p));
    }
    assert(!(!has_block && s@ == bare_placeholder())) by {
        if !has_block && s@ == bare_placeholder() {
            assert(s@[0] == ('.', false));
            assert(s@[1] == ('.', false));
            assert(s@[2] == ('.', false));
        }
    }
    let dir = n > 0 && sep_at(s, n - 1);
    let m = if dir {
        n - 1
    } else {
        n
    };
    let body = &s[0..m];
    assert(body@ == (if dir { s@.drop_last() } else { s@ }));
    if m == 0 || edge_space(body) || bare_ellipsis(body) {
        return None;
    }
    let path = decode_marked(body);
    let kind = if dir {
        LineKind::Directory
    } else {
        LineKind::File
    };
    Some((kind, path))
}

} // verus!

verus! {

fn append_marked(dst: &mut Vec<(char, bool)>, src: &[(char, bool)])
    ensures
        final(dst)@ == old(dst)@ + src@,
{
    let ghost base = dst@;
    let mut i: usize = 0;
    while i < src.len()
        invariant
            i <= src@.len(),
            dst@ == base + src@.take(i as int),
        decreases src@.len() - i,
    {
        dst.push(src[i]);
        i = i + 1;
        assert(src@.take(i as int) =~= src@.take(i - 1).push(src@[i - 1]));
    }
    assert(src@.take(src@.len() as int) =~= src@);
}

fn append_unmarked(dst: &mut Vec<(char, bool)>, src: &[char])
    ensures
        final(dst)@ == old(dst)@ + unmarked(src@),
{
    let ghost base = dst@;
    let mut i: usize = 0;
    while i < src.len()
        invariant
            i <= src@.len(),
            dst@ == base + unmarked(src@.take(i as int)),
        decreases src@.len() - i,
    {
        dst.push((src[i], false));
        i = i + 1;
        assert(unmarked(src@.take(i as int)) =~= unmarked(src@.take(i - 1)).push((src@[i - 1], false)));
    }
    assert(src@.take(src@.len() as int) =~= src@);
}

proof fn lemma_expand_prefix_failed(
    exps: Seq<Seq<(char, bool)>>,
    has_block: bool,
    line: usize,
    level: usize,
    comment: Option<Seq<char>>,
    k: int,
)
    requires
        0 <= k <= exps.len(),
        expand_prefix(exps.take(k), has_block, line, level, comment) is Err,
    ensures
        expand_prefix(exps, has_block, line, level, comment) == expand_prefix(
            exps.take(k),
            has_block,
            line,
            level,
            comment,
        ),
    decreases exps.len() - k,
{
    if k < exps.len() {
        assert(exps.take(k + 1).drop_last() =~= exps.take(k));
        lemma_expand_prefix_failed(exps, has_block, line, level, comment, k + 1);
    } else {
        assert(exps.take(k) =~= exps);
    }
}

pub open spec fn marked_views(v: Seq<Vec<(char, bool)>>) -> Seq<Seq<(char, bool)>> {
    v.map_values(|e: Vec<(char, bool)>| e@)
}

/// The path texts of a template, one per alternative.
fn expansions_exec(t: &TemplateExec) -> (r: Vec<Vec<(char, bool)>>)
    ensures
        marked_views(r@) == expansions(t.view()),
{
    let mut exps: Vec<Vec<(char, bool)>> = Vec::new();
    match &t.alternatives {
        Some(alts) => {
            let ghost target = expansions(t.view());
            let mut k: usize = 0;
            while k < alts.len()
                invariant
                    k <= alts@.len(),
                    t.alternatives == Some(*alts),
                    target == expansions(t.view()),
                    target.len() == alts@.len(),
                    exps@.len() == k,
                    marked_views(exps@) =~= target.take(k as int),
                decreases alts@.len() - k,
            {
                let mut e: Vec<(char, bool)> = Vec::new();
                append_marked(&mut e, t.prefix.as_slice());
                append_unmarked(&mut e, alts[k].as_slice());
                append_marked(&mut e, t.suffix.as_slice());
                assert(target[k as int] == t.prefix@ + unmarked(alts@[k as int]@) + t.suffix@);
                let ghost ek = e;
                let ghost before = exps@;
                exps.push(e);
                assert(exps@ == before.push(ek));
                assert(marked_views(exps@)[k as int] == ek@);
                k = k + 1;
                assert(marked_views(exps@) =~= target.take(k as int));
            }
            assert(target.take(alts@.len() as int) =~= target);
        },
        None => {
            let mut e: Vec<(char, bool)> = Vec::new();
            append_marked(&mut e, t.prefix.as_slice());
            append_marked(&mut e, t.suffix.as_slice());
            exps.push(e);
            assert(marked_views(exps@) =~= expansions(t.view()));
        },
    }
    exps
}

fn copy_comment(c: &Option<Vec<char>>) -> (r: Option<Vec<char>>)
    ensures
        opt_chars(r) == opt_chars(*c),
{
    match c {
        Some(v) => Some(subrange(v.as_slice(), 0, v.len())),
        None => None,
    }
}

/// The guide lines of one lexed item at document line `n` and level `level`.
fn expand_exec(t: &TemplateExec, n: usize, level: usize) -> (r: Result<Vec<FlatItem>, SyntaxError>)
    ensures
        match r {
            Ok(v) => expand_template(t.view(), n, level) == Ok::<Seq<FlatLine>, SyntaxErrorView>(flat_views(v@)),
            Err(e) => expand_template(t.view(), n, level) == Err::<Seq<FlatLine>, SyntaxErrorView>(e.view()),
        },
{
    let comment: Option<Vec<char>> = match &t.comment {
        Some(c) => Some(trim_white(c.as_slice())),
        None => None,
    };
    assert(opt_chars(comment) == trimmed_comment(t.view().comment));
    let has_block = t.alternatives.is_some();
    let exps = expansions_exec(t);
    let ghost ev = marked_views(exps@);
    let ghost cmt = trimmed_comment(t.view().comment);
    let mut out: Vec<FlatItem> = Vec::new();
    let mut i: usize = 0;
    assert(ev.take(0) =~= Seq::<Seq<(char, bool)>>::empty());
    assert(flat_views(out@) =~= Seq::<FlatLine>::empty());
    while i < exps.len()
        invariant
            i <= exps@.len(),
            ev == marked_views(exps@),
            ev == expansions(t.view()),
            cmt == trimmed_comment(t.view().comment),
            has_block == (t.view().alternatives is Some),
            opt_chars(comment) == cmt,
            expand_prefix(ev.take(i as int), has_block, n, level, cmt) == Ok::<Seq<FlatLine>, SyntaxErrorView>(flat_views(out@)),
        decreases exps@.len() - i,
    {
        assert(ev.take(i + 1).drop_last() =~= ev.take(i as int));
        assert(ev.take(i + 1).last() == exps@[i as int]@);
        match classify_exec(exps[i].as_slice(), has_block) {
            None => {
                let path = decode_marked(exps[i].as_slice());
                proof {
                    lemma_expand_prefix_failed(ev, has_block, n, level, cmt, i + 1);
                    assert(ev[i as int] == exps@[i as int]@);
                }
                return Err(SyntaxError::InvalidPathFormat { line: n, path: string_of(path.as_slice()) });
            },
            Some((kind, path)) => {
                let ghost prev = out@;
                let item = FlatItem { line_number: n, indent_level: level, kind, path, comment: copy_comment(&comment) };
                let ghost iv = item.view();
                let ghost ic = item;
                out.push(item);
                assert(out@ == prev.push(ic));
                assert(flat_views(out@) =~= flat_views(prev).push(iv));
                i = i + 1;
            },
        }
    }
    assert(ev.take(exps@.len() as int) =~= ev);
    assert(ev == expansions(t.view()));
    assert(expand_prefix(ev, has_block, n, level, cmt) == Ok::<Seq<FlatLine>, SyntaxErrorView>(flat_views(out@)));
    assert(has_block == (t.view().alternatives is Some));
    assert(expand_template(t.view(), n, level) == expand_prefix(ev, has_block, n, level, cmt));
    Ok(out)
}

} // verus!

verus! {

pub open spec fn opt_nat(o: Option<usize>) -> Option<nat> {
    match o {
        Some(z) => Some(z as nat),
        None => None,
    }
}

pub(crate) proof fn lemma_split_state_no_newline(s: Seq<char>)
    ensures
        forall|k: int|
            0 <= k < split_state(s).0.len() ==> !(#[trigger] split_state(s).0[k]).contains('\n'),
        !split_state(s).1.contains('\n'),
    decreases s.len(),
{
    if s.len() > 0 {
        let st = split_state(s.drop_last());
        lemma_split_state_no_newline(s.drop_last());
        if s.last() == '\n' {
            let p = strip_cr(st.1);
            assert(!p.contains('\n')) by {
                if p.contains('\n') {
                    let i = choose|i: int| 0 <= i < p.len() && p[i] == '\n';
                    assert(st.1[i] == '\n');
                }
            }
            assert(!Seq::<char>::empty().contains('\n'));
            assert forall|k: int| 0 <= k < split_state(s).0.len() implies !(#[trigger] split_state(s).0[k]).contains('\n') by {
                if k < st.0.len() {
                    assert(split_state(s).0[k] == st.0[k]);
                }
            }
        } else {
            let p = st.1.push(s.last());
            assert(!p.contains('\n')) by {
                if p.contains('\n') {
                    let i = choose|i: int| 0 <= i < p.len() && p[i] == '\n';
                    if i < st.1.len() {
                        assert(st.1[i] == '\n');
                    }
                }
            }
        }
    }
}

/// No line of a document contains a line feed.
proof fn lemma_lines_have_no_newline(s: Seq<char>)
    ensures
        forall|k: int| 0 <= k < spec_lines(s).len() ==> !(#[trigger] spec_lines(s)[k]).contains('\n'),
{
    lemma_split_state_no_newline(s);
    let st = split_state(s);
    assert forall|k: int| 0 <= k < spec_lines(s).len() implies !(#[trigger] spec_lines(s)[k]).contains('\n') by {
        if k < st.0.len() {
            assert(spec_lines(s)[k] == st.0[k]);
        }
    }
}

fn lex_error_exec(f: LexFailure, line: usize, text: Vec<char>) -> (e: SyntaxError)
    ensures
        e.view() == lex_error(f, line, text@),
{
    match f {
        LexFailure::MultipleBlocks => SyntaxError::InvalidWildcardSyntax {
            line,
            path: string_of(text.as_slice()),
            message: "multiple wildcard choice blocks are not supported".to_owned(),
        },
        LexFailure::NestedBlock => SyntaxError::InvalidWildcardSyntax {
            line,
            path: string_of(text.as_slice()),
            message: "nested wildcard choice blocks are not supported".to_owned(),
        },
        LexFailure::UnterminatedBlock => SyntaxError::InvalidWildcardSyntax {
            line,
            path: string_of(text.as_slice()),
            message: "unterminated wildcard choice block".to_owned(),
        },
        LexFailure::TooManyChoices => SyntaxError::InvalidWildcardSyntax {
            line,
            path: string_of(text.as_slice()),
            message: "choice block has more than 256 alternatives".to_owned(),
        },
        LexFailure::EmptyChoiceBlock => SyntaxError::InvalidWildcardSyntax {
            line,
            path: string_of(text.as_slice()),
            message: "choice block cannot be empty".to_owned(),
        },
        LexFailure::IncompleteEscape => SyntaxError::InvalidWildcardSyntax {
            line,
            path: string_of(text.as_slice()),
            message: "incomplete escape sequence".to_owned(),
        },
        _ => SyntaxError::InvalidPathFormat { line, path: string_of(text.as_slice()) },
    }
}

pub(crate) proof fn lemma_first_failing(s: Seq<char>, p: spec_fn(char) -> bool, i: int)
    requires
        0 <= i <= s.len(),
    ensures
        i <= first_failing(s, p, i) <= s.len(),
        first_failing(s, p, i) < s.len() ==> !p(s[first_failing(s, p, i)]),
        forall|j: int| i <= j < first_failing(s, p, i) ==> p(#[trigger] s[j]),
    decreases s.len() - i,
{
    if i < s.len() && p(s[i]) {
        lemma_first_failing(s, p, i + 1);
    }
}

/// Reads one body line at document line `n`, given the indentation size so far.
fn read_line(size: Option<usize>, n: usize, l: &Vec<char>) -> (r: Result<(Option<usize>, Vec<FlatItem>), SyntaxError>)
    requires
        !l@.contains('\n'),
        size matches Some(z) ==> z > 0,
    ensures
        match r {
            Ok((sz, v)) => line_read(opt_nat(size), n, l@) == Ok::<(Option<nat>, Seq<FlatLine>), SyntaxErrorView>((opt_nat(sz), flat_views(v@))) && (sz matches Some(z) ==> z > 0),
            Err(e) => line_read(opt_nat(size), n, l@) == Err::<(Option<nat>, Seq<FlatLine>), SyntaxErrorView>(e.view()),
        },
{
    if blank(l.as_slice()) {
        return Err(SyntaxError::BlankLineInGuide { line: n });
    }
    let s = string_of(l.as_slice());
    let cap = first_capture("^(\\s*)-\\s+(.+)$", s.as_str());
    let g = match cap {
        None => {
            return Err(SyntaxError::InvalidListFormat { line: n });
        },
        Some(g) => g,
    };
    let ind = chars_of(g.as_str());
    let k = ind.len();
    proof {
        lemma_first_failing(l@, |c: char| is_white_space(c), 0);
        assert(s@ == l@);
        assert(ind@ == l@.take(first_failing(l@, |c: char| is_white_space(c), 0)));
    }
    let len = l.len();
    assert(k + 3 <= len);
    let mut m: usize = 0;
    while m < k
        invariant
            m <= k,
            k == ind@.len(),
            !is_blank(l@),
            regex_list_item(l@) == Some(ind@),
            forall|i: int| 0 <= i < m ==> #[trigger] ind@[i] == ' ',
        decreases k - m,
    {
        if ind[m] != ' ' {
            return Err(SyntaxError::InvalidIndentationLevel { line: n });
        }
        m = m + 1;
    }
    if l[k + 1] != ' ' {
        return Err(SyntaxError::InvalidListFormat { line: n });
    }
    let (new_size, level): (Option<usize>, usize) = if k == 0 {
        (size, 0)
    } else {
        match size {
            None => (Some(k), 1),
            Some(z) => {
                if k % z != 0 {
                    return Err(SyntaxError::InvalidIndentationLevel { line: n });
                }
                (size, k / z)
            },
        }
    };
    if level > MAX_LOGICAL_DEPTH {
        return Err(SyntaxError::InvalidIndentationLevel { line: n });
    }
    let text = subrange(l.as_slice(), k + 2, l.len());
    assert(text@ == l@.skip(k + 2));
    match lex(text.as_slice()) {
        Err(f) => Err(lex_error_exec(f, n, text)),
        Ok(t) => match expand_exec(&t, n, level) {
            Err(e) => Err(e),
            Ok(v) => Ok((new_size, v)),
        },
    }
}

} // verus!

verus! {

pub open spec fn line_views(v: Seq<Vec<char>>) -> Seq<Seq<char>> {
    v.map_values(|l: Vec<char>| l@)
}

proof fn lemma_body_failed(ls: Seq<Seq<char>>, first: int, k: int)
    requires
        0 <= k <= ls.len(),
        body_run(ls.take(k), first).failed is Some,
    ensures
        body_run(ls, first) == body_run(ls.take(k), first),
    decreases ls.len() - k,
{
    if k < ls.len() {
        assert(ls.take(k + 1).drop_last() =~= ls.take(k));
        lemma_body_failed(ls, first, k + 1);
    } else {
        assert(ls.take(k) =~= ls);
    }
}

/// Reads the body lines `lines[s + 1 .. e]` of a guide whose opening marker is line `s`.
fn read_body(lines: &Vec<Vec<char>>, s: usize, e: usize) -> (r: Result<Vec<FlatItem>, SyntaxError>)
    requires
        s < e <= lines@.len(),
        forall|k: int| 0 <= k < lines@.len() ==> !(#[trigger] lines@[k]@).contains('\n'),
    ensures
        match r {
            Ok(v) => body_run(line_views(lines@).subrange(s + 1, e as int), s + 2).failed is None
                && body_run(line_views(lines@).subrange(s + 1, e as int), s + 2).items == flat_views(v@),
            Err(err) => body_run(line_views(lines@).subrange(s + 1, e as int), s + 2).failed == Some(err.view()),
        },
{
    let ghost body = line_views(lines@).subrange(s + 1, e as int);
    let mut items: Vec<FlatItem> = Vec::new();
    let mut size: Option<usize> = None;
    let mut j = s + 1;
    assert(body.take(0) =~= Seq::<Seq<char>>::empty());
    assert(flat_views(items@) =~= Seq::<FlatLine>::empty());
    while j < e
        invariant
            s + 1 <= j <= e <= lines@.len(),
            body == line_views(lines@).subrange(s + 1, e as int),
            forall|k: int| 0 <= k < lines@.len() ==> !(#[trigger] lines@[k]@).contains('\n'),
            body_run(body.take(j - (s + 1)), s + 2) == (BodyState { items: flat_views(items@), size: opt_nat(size), failed: None }),
            size matches Some(z) ==> z > 0,
        decreases e - j,
    {
        let ghost k = j - (s + 1);
        assert(body.take(k + 1).drop_last() =~= body.take(k));
        assert(body.take(k + 1).last() == lines@[j as int]@);
        match read_line(size, j + 1, &lines[j]) {
            Err(err) => {
                proof {
                    lemma_body_failed(body, s + 2, k + 1);
                    assert(body.take(body.len() as int) =~= body);
                }
                return Err(err);
            },
            Ok((sz, v)) => {
                let ghost before = items@;
                let mut v = v;
                let ghost vv = v@;
                items.append(&mut v);
                assert(items@ == before + vv);
                assert(flat_views(items@) =~= flat_views(before) + flat_views(vv));
                size = sz;
            },
        }
        j = j + 1;
    }
    assert(body.take(body.len() as int) =~= body);
    Ok(items)
}

proof fn lemma_nesting_prefix_failed(items: Seq<FlatLine>, k: int)
    requires
        0 <= k <= items.len(),
        nesting_error(items.take(k)) is Some,
    ensures
        nesting_error(items) == nesting_error(items.take(k)),
    decreases items.len() - k,
{
    if k < items.len() {
        assert(items.take(k + 1).drop_last() =~= items.take(k));
        lemma_nesting_prefix_failed(items, k + 1);
    } else {
        assert(items.take(k) =~= items);
    }
}

proof fn lemma_nesting_ok(items: Seq<FlatLine>)
    requires
        nesting_error(items) is None,
    ensures
        forall|i: int| 0 <= i < items.len() ==> nests_after(items, i),
    decreases items.len(),
{
    if items.len() > 0 {
        lemma_nesting_ok(items.drop_last());
        assert forall|i: int| 0 <= i < items.len() implies nests_after(items, i) by {
            if i < items.len() - 1 {
                assert(nests_after(items.drop_last(), i));
                if i > 0 {
                    assert(items.drop_last()[i - 1] == items[i - 1]);
                }
                assert(items.drop_last()[i] == items[i]);
            }
        }
    }
}

/// The document line of the first item that does not nest after its predecessor.
fn check_nesting(items: &Vec<FlatItem>) -> (r: Option<usize>)
    ensures
        r == nesting_error(flat_views(items@)),
{
    let ghost fv = flat_views(items@);
    let mut i: usize = 0;
    assert(fv.take(0) =~= Seq::<FlatLine>::empty());
    while i < items.len()
        invariant
            i <= items@.len(),
            fv == flat_views(items@),
            nesting_error(fv.take(i as int)) is None,
        decreases items@.len() - i,
    {
        let ghost t = fv.take(i + 1);
        assert(t.drop_last() =~= fv.take(i as int));
        assert(t[i as int] == items@[i as int].view());
        if i > 0 {
            assert(t[i - 1] == items@[i - 1].view());
        }
        let ok = if i == 0 {
            items[0].indent_level == 0
        } else {
            let prev = items[i - 1].indent_level;
            let cur = items[i].indent_level;
            cur <= prev || (cur - prev == 1 && items[i - 1].kind == LineKind::Directory)
        };
        assert(ok == nests_after(t, i as int));
        if !ok {
            proof {
                lemma_nesting_prefix_failed(fv, i + 1);
            }
            return Some(items[i].line_number);
        }
        i = i + 1;
    }
    assert(fv.take(items@.len() as int) =~= fv);
    None
}

/// Placeholders carry the placeholder path.
pub open spec fn placeholders_plain(items: Seq<FlatLine>) -> bool {
    forall|i: int|
        0 <= i < items.len() && (#[trigger] items[i]).kind == LineKind::Placeholder ==> items[i].path
            == placeholder_path()
}

/// No line is deeper than the maximum depth.
pub open spec fn depth_bounded(items: Seq<FlatLine>) -> bool {
    forall|i: int| 0 <= i < items.len() ==> (#[trigger] items[i]).indent_level <= MAX_LOGICAL_DEPTH
}

proof fn lemma_expand_plain(
    exps: Seq<Seq<(char, bool)>>,
    has_block: bool,
    line: usize,
    level: usize,
    comment: Option<Seq<char>>,
)
    ensures
        expand_prefix(exps, has_block, line, level, comment) matches Ok(v) ==> placeholders_plain(v)
            && forall|i: int| 0 <= i < v.len() ==> (#[trigger] v[i]).indent_level == level,
    decreases exps.len(),
{
    if exps.len() > 0 {
        lemma_expand_plain(exps.drop_last(), has_block, line, level, comment);
    }
}

proof fn lemma_body_plain(ls: Seq<Seq<char>>, first: int)
    ensures
        body_run(ls, first).failed is None ==> placeholders_plain(body_run(ls, first).items)
            && depth_bounded(body_run(ls, first).items),
    decreases ls.len(),
{
    if ls.len() > 0 {
        let prev = body_run(ls.drop_last(), first);
        lemma_body_plain(ls.drop_last(), first);
        let n = (first + ls.len() - 1) as usize;
        let l = ls.last();
        if prev.failed is None {
            match line_read(prev.size, n, l) {
                Ok((size, new)) => {
                    let k = regex_list_item(l)->0.len();
                    let (ns, level) = indent_level(prev.size, k);
                    let t = spec_lex(l.skip(k as int + 2))->Ok_0;
                    lemma_expand_plain(
                        expansions(t),
                        t.alternatives is Some,
                        n,
                        level->0 as usize,
                        trimmed_comment(t.comment),
                    );
                    let all = prev.items + new;
                    assert forall|i: int|
                        0 <= i < all.len() && (#[trigger] all[i]).kind == LineKind::Placeholder implies all[i].path
                            == placeholder_path() by {
                        if i >= prev.items.len() {
                            assert(all[i] == new[i - prev.items.len()]);
                        }
                    }
                    assert forall|i: int| 0 <= i < all.len() implies (#[trigger] all[i]).indent_level <= MAX_LOGICAL_DEPTH by {
                        if i >= prev.items.len() {
                            assert(all[i] == new[i - prev.items.len()]);
                        }
                    }
                },
                Err(_) => {},
            }
        }
    }
}


fn comment_string(c: &Option<Vec<char>>) -> (r: Option<String>)
    ensures
        opt_view(r) == opt_chars(*c),
{
    match c {
        Some(v) => Some(string_of(v.as_slice())),
        None => None,
    }
}

/// Builds the guide lines at `level` starting at `items[pos]`: each line is
/// followed by its deeper lines, which become the children of a directory.
/// Returns the lines and the index of the first item shallower than `level`.
fn build_level(items: &Vec<FlatItem>, pos: usize, level: usize) -> (r: (
    Vec<NavigationGuideLine>,
    usize,
))
    requires
        pos <= items@.len(),
        forall|i: int| 0 <= i < items@.len() ==> nests_after(flat_views(items@), i),
        placeholders_plain(flat_views(items@)),
        depth_bounded(flat_views(items@)),
        pos < items@.len() ==> items@[pos as int].indent_level <= level,
    ensures
        pos <= r.1 <= items@.len(),
        r.1 < items@.len() ==> items@[r.1 as int].indent_level < level,
        flatten(r.0@) == flat_views(items@).subrange(pos as int, r.1 as int),
        well_nested(r.0@, level as nat),
    decreases items@.len() - pos,
{
    let ghost fv = flat_views(items@);
    let mut out: Vec<NavigationGuideLine> = Vec::new();
    let mut i = pos;
    assert(fv.subrange(pos as int, pos as int) =~= Seq::<FlatLine>::empty());
    assert(flatten(out@) =~= Seq::<FlatLine>::empty());
    while i < items.len() && items[i].indent_level >= level
        invariant
            pos <= i <= items@.len(),
            fv == flat_views(items@),
            forall|k: int| 0 <= k < items@.len() ==> nests_after(fv, k),
            placeholders_plain(fv),
            depth_bounded(fv),
            i < items@.len() ==> items@[i as int].indent_level <= level,
            flatten(out@) == fv.subrange(pos as int, i as int),
            well_nested(out@, level as nat),
        decreases items@.len() - i,
    {
        let it = &items[i];
        assert(fv[i as int] == it.view());
        if i + 1 < items.len() {
            assert(nests_after(fv, i + 1));
            assert(fv[i + 1] == items@[i + 1].view());
        }
        let comment = comment_string(&it.comment);
        let ghost before = out@;
        let (node, next) = match it.kind {
            LineKind::Directory => {
                let (children, j) = build_level(items, i + 1, level + 1);
                let node = NavigationGuideLine {
                    line_number: it.line_number,
                    indent_level: level,
                    item: FilesystemItem::Directory { path: string_of(it.path.as_slice()), comment, children },
                };
                assert(fv.subrange(pos as int, j as int) =~= fv.subrange(pos as int, i as int) + seq![fv[i as int]] + fv.subrange(i + 1, j as int));
                (node, j)
            },
            LineKind::File => {
                let node = NavigationGuideLine {
                    line_number: it.line_number,
                    indent_level: level,
                    item: FilesystemItem::File { path: string_of(it.path.as_slice()), comment },
                };
                assert(fv.subrange(pos as int, i + 1) =~= fv.subrange(pos as int, i as int) + seq![fv[i as int]]);
                (node, i + 1)
            },
            LineKind::Placeholder => {
                let node = NavigationGuideLine {
                    line_number: it.line_number,
                    indent_level: level,
                    item: FilesystemItem::Placeholder { comment },
                };
                assert(fv.subrange(pos as int, i + 1) =~= fv.subrange(pos as int, i as int) + seq![fv[i as int]]);
                (node, i + 1)
            },
        };
        assert(node.flat() == fv[i as int]);
        let ghost nv = node;
        out.push(node);
        assert(out@.drop_last() =~= before);
        assert(out@.last() == nv);
        i = next;
    }
    (out, i)
}

/// Reader of navigation guide documents.
pub struct Parser;

impl Parser {
    /// Create a new parser instance
    pub fn new() -> (p: Self)
        ensures
            p == Parser,
    {
        Parser
    }

    /// Parse navigation guide content from a markdown string
    pub fn parse(&self, content: &str) -> (r: Result<NavigationGuide, AppError>)
        ensures
            match r {
                Ok(g) => spec_parse(content@) == Ok::<GuideSpec, SyntaxErrorView>(
                    GuideSpec {
                        lines: flatten(g.items@),
                        prologue: opt_view(g.prologue),
                        epilogue: opt_view(g.epilogue),
                        ignore: g.ignore,
                    },
                ) && well_nested(g.items@, 0),
                Err(AppError::Syntax(e)) => spec_parse(content@) == Err::<GuideSpec, SyntaxErrorView>(e.view()),
                Err(_) => false,
            },
    {
        let chars = chars_of(content);
        let lines = document_lines(chars.as_slice());
        let ghost ls = spec_lines(content@);
        proof {
            assert(line_views(lines@) =~= ls);
            lemma_lines_have_no_newline(content@);
            assert forall|k: int| 0 <= k < lines@.len() implies !(#[trigger] lines@[k]@).contains('\n') by {
                assert(lines@[k]@ == ls[k]);
            }
        }
        let (s, e, ignore) = match locate_block(&lines) {
            Err(err) => {
                return Err(AppError::Syntax(err));
            },
            Ok(x) => x,
        };
        proof {
            lemma_scan_order(ls);
        }
        let n = lines.len();
        let prologue = if s > 0 {
            Some(string_of(join_range(&lines, 0, s).as_slice()))
        } else {
            None
        };
        let epilogue = if e + 1 < n {
            Some(string_of(join_range(&lines, e + 1, n).as_slice()))
        } else {
            None
        };
        assert(lines@.subrange(0, s as int).map_values(|l: Vec<char>| l@) =~= ls.take(s as int));
        assert(lines@.subrange(e + 1, n as int).map_values(|l: Vec<char>| l@) =~= ls.skip(e + 1));
        assert(opt_view(prologue) == (if s > 0 { Some(join_lines(ls.take(s as int))) } else { None::<Seq<char>> }));
        assert(opt_view(epilogue) == (if e + 1 < ls.len() { Some(join_lines(ls.skip(e + 1))) } else { None::<Seq<char>> }));
        assert(spec_locate(ls) == Ok::<(int, int, bool), SyntaxErrorView>((s as int, e as int, ignore)));
        if ignore {
            let items = match parse_body(&lines, s, e) {
                Ok(tree) => tree,
                Err(_) => Vec::new(),
            };
            let g = NavigationGuide { items, prologue, epilogue, ignore: true };
            assert(flatten(Seq::<NavigationGuideLine>::empty()) =~= Seq::<FlatLine>::empty());
            return Ok(g);
        }
        match parse_body(&lines, s, e) {
            Err(err) => Err(AppError::Syntax(err)),
            Ok(tree) => Ok(NavigationGuide { items: tree, prologue, epilogue, ignore: false }),
        }
    }
}

/// The guide tree of the active body `lines[s + 1 .. e]`.
fn parse_body(lines: &Vec<Vec<char>>, s: usize, e: usize) -> (r: Result<Vec<NavigationGuideLine>, SyntaxError>)
    requires
        s < e <= lines@.len(),
        forall|k: int| 0 <= k < lines@.len() ==> !(#[trigger] lines@[k]@).contains('\n'),
    ensures
        match r {
            Ok(tree) => spec_body(line_views(lines@).subrange(s + 1, e as int), s + 2) == Ok::<Seq<FlatLine>, SyntaxErrorView>(flatten(tree@))
                && well_nested(tree@, 0),
            Err(err) => spec_body(line_views(lines@).subrange(s + 1, e as int), s + 2) == Err::<Seq<FlatLine>, SyntaxErrorView>(err.view()),
        },
{
    let ghost ls = line_views(lines@);
    let ghost body = ls.subrange(s + 1, e as int);
    let mut j = s + 1;
    let mut all_blank = true;
    while j < e
        invariant
            s + 1 <= j <= e <= lines@.len(),
            ls == line_views(lines@),
            all_blank == forall|m: int| s + 1 <= m < j ==> is_blank(#[trigger] ls[m]),
        decreases e - j,
    {
        assert(ls[j as int] == lines@[j as int]@);
        if !blank(lines[j].as_slice()) {
            all_blank = false;
        }
        j = j + 1;
    }
    assert(all_blank == forall|m: int| 0 <= m < body.len() ==> is_blank(#[trigger] body[m])) by {
        if all_blank {
            assert forall|m: int| 0 <= m < body.len() implies is_blank(#[trigger] body[m]) by {
                assert(body[m] == ls[s + 1 + m]);
            }
        } else {
            let m = choose|m: int| s + 1 <= m < e && !is_blank(#[trigger] ls[m]);
            assert(body[m - s - 1] == ls[m]);
        }
    }
    if all_blank {
        return Err(SyntaxError::EmptyGuideBlock);
    }
    let items = match read_body(lines, s, e) {
        Err(err) => {
            return Err(err);
        },
        Ok(v) => v,
    };
    if let Some(line) = check_nesting(&items) {
        return Err(SyntaxError::InvalidIndentationLevel { line });
    }
    proof {
        lemma_nesting_ok(flat_views(items@));
        lemma_body_plain(body, s + 2);
    }
    if items.len() > 0 {
        assert(nests_after(flat_views(items@), 0));
        assert(flat_views(items@)[0] == items@[0].view());
    }
    let (tree, end) = build_level(&items, 0, 0);
    assert(flat_views(items@).subrange(0, items@.len() as int) =~= flat_views(items@));
    Ok(tree)
}

impl Default for Parser {
    fn default() -> (p: Self) {
        Parser
    }
}

} // verus!

verus! {

// ---------------------------------------------------------------------------
// Canonical spellings read back

/// The lexer state after reading `s` from state `st`.
pub open spec fn lex_from(st: LexState, s: Seq<char>) -> LexState
    decreases s.len(),
{
    if s.len() == 0 {
        st
    } else {
        lex_step(lex_from(st, s.drop_last()), s.last())
    }
}

pub(crate) proof fn lemma_lex_run_append(a: Seq<char>, b: Seq<char>)
    ensures
        lex_run(a + b) == lex_from(lex_run(a), b),
    decreases b.len(),
{
    if b.len() == 0 {
        assert(a + b =~= a);
    } else {
        lemma_lex_run_append(a, b.drop_last());
        assert((a + b).drop_last() =~= a + b.drop_last());
        assert((a + b).last() == b.last());
    }
}

pub(crate) proof fn lemma_lex_from_append(st: LexState, a: Seq<char>, b: Seq<char>)
    ensures
        lex_from(st, a + b) == lex_from(lex_from(st, a), b),
    decreases b.len(),
{
    if b.len() == 0 {
        assert(a + b =~= a);
    } else {
        lemma_lex_from_append(st, a, b.drop_last());
        assert((a + b).drop_last() =~= a + b.drop_last());
        assert((a + b).last() == b.last());
    }
}

/// The number of spaces that end `s`.
pub open spec fn trailing_spaces(s: Seq<char>) -> nat
    decreases s.len(),
{
    if s.len() > 0 && s.last() == ' ' {
        trailing_spaces(s.drop_last()) + 1
    } else {
        0
    }
}

pub(crate) proof fn lemma_trailing_spaces(s: Seq<char>)
    ensures
        trailing_spaces(s) <= s.len(),
        unmarked(s.take(s.len() - trailing_spaces(s))) + spaces(trailing_spaces(s)) == unmarked(s),
    decreases s.len(),
{
    if s.len() > 0 && s.last() == ' ' {
        let d = s.drop_last();
        lemma_trailing_spaces(d);
        let t = trailing_spaces(d);
        assert(s.take(s.len() - (t + 1)) =~= d.take(d.len() - t));
        assert(unmarked(s) =~= unmarked(d).push((' ', false)));
        assert(spaces(t + 1) =~= spaces(t).push((' ', false)));
    } else {
        assert(s.take(s.len() as int) =~= s);
        assert(spaces(0) =~= Seq::<(char, bool)>::empty());
    }
}

/// A plain spelling: no guide syntax, no separator, and a nonblank first character.
pub open spec fn plain_name(v: Seq<char>) -> bool {
    &&& v.len() > 0
    &&& v[0] != ' '
    &&& forall|i: int| 0 <= i < v.len() ==> !is_syntax_char(#[trigger] v[i]) && v[i] != '/'
}

/// The lexer state inside a plain spelling.
pub open spec fn plain_state(v: Seq<char>) -> LexState {
    LexState {
        failed: None,
        mode: LexMode::Bare,
        esc: false,
        pend: trailing_spaces(v),
        started: true,
        comp_start: false,
        block: 0,
        prefix: unmarked(v.take(v.len() - trailing_spaces(v))),
        suffix: seq![],
        alts: seq![],
        cur: seq![],
        alt_started: false,
        comment: seq![],
    }
}

pub(crate) proof fn lemma_plain_run(v: Seq<char>, k: int)
    requires
        plain_name(v),
        1 <= k <= v.len(),
    ensures
        lex_run(v.take(k)) == plain_state(v.take(k)),
    decreases k,
{
    let w = v.take(k);
    assert(w.drop_last() =~= v.take(k - 1));
    assert(w.last() == v[k - 1]);
    let c = v[k - 1];
    assert(!is_syntax_char(c) && c != '/');
    if k == 1 {
        assert(v.take(0) =~= Seq::<char>::empty());
        assert(c != ' ');
        assert(trailing_spaces(w) == 0);
        assert(w.take(1) =~= w);
        assert(unmarked(w) =~= seq![(c, false)]);
        assert(spaces(0) =~= Seq::<(char, bool)>::empty());
        assert(lex_run(w) =~= plain_state(w));
    } else {
        lemma_plain_run(v, k - 1);
        let p = v.take(k - 1);
        lemma_trailing_spaces(p);
        if c == ' ' {
            assert(trailing_spaces(w) == trailing_spaces(p) + 1);
            assert(w.take(w.len() - trailing_spaces(w)) =~= p.take(p.len() - trailing_spaces(p)));
        } else {
            assert(trailing_spaces(w) == 0);
            assert(w.take(w.len() as int) =~= w);
            assert(unmarked(w) =~= unmarked(p).push((c, false)));
            assert(lex_run(w).prefix =~= plain_state(w).prefix);
        }
        assert(lex_run(w) =~= plain_state(w));
    }
}

pub open spec fn protected(v: Seq<char>) -> Seq<(char, bool)> {
    v.map_values(|c: char| (c, true))
}

/// The lexer state inside a quoted spelling.
pub open spec fn quoted_state(v: Seq<char>) -> LexState {
    LexState {
        failed: None,
        mode: LexMode::Quoted,
        esc: false,
        pend: 0,
        started: true,
        comp_start: false,
        block: 0,
        prefix: protected(v),
        suffix: seq![],
        alts: seq![],
        cur: seq![],
        alt_started: false,
        comment: seq![],
    }
}

pub(crate) proof fn lemma_quoted_run(v: Seq<char>, j: int)
    requires
        0 <= j <= v.len(),
        forall|i: int| 0 <= i < v.len() ==> v[i] != '/',
    ensures
        lex_from(quoted_state(seq![]), concat_map(v.take(j), |c: char| quoted_char(c))) == quoted_state(v.take(j)),
    decreases j,
{
    let f = |c: char| quoted_char(c);
    if j == 0 {
        assert(v.take(0) =~= Seq::<char>::empty());
        assert(concat_map(v.take(0), f) =~= Seq::<char>::empty());
    } else {
        lemma_quoted_run(v, j - 1);
        lemma_concat_map_take(v, j - 1, f);
        let c = v[j - 1];
        let before = concat_map(v.take(j - 1), f);
        lemma_lex_from_append(quoted_state(seq![]), before, f(c));
        let st = quoted_state(v.take(j - 1));
        assert(protected(v.take(j)) =~= protected(v.take(j - 1)).push((c, true)));
        assert(c != '/');
        reveal_with_fuel(lex_from, 3);
        if c == '"' || c == '\\' {
            let two = seq!['\\', c];
            assert(f(c) =~= two);
            assert(two.drop_last() =~= seq!['\\']);
            assert(two.last() == c);
            assert(seq!['\\'].drop_last() =~= Seq::<char>::empty());
            assert(seq!['\\'].last() == '\\');
            assert(is_escapable(c));
            let mid = lex_step(st, '\\');
            assert(lex_from(st, seq!['\\']) == mid);
            assert(mid.esc);
            let fin = lex_step(mid, c);
            assert(lex_from(st, two) == fin);
            assert(fin.prefix =~= quoted_state(v.take(j)).prefix);
            assert(fin == quoted_state(v.take(j)));
        } else {
            let one = seq![c];
            assert(f(c) =~= one);
            assert(one.drop_last() =~= Seq::<char>::empty());
            assert(one.last() == c);
            let fin = lex_step(st, c);
            assert(lex_from(st, one) == fin);
            assert(fin.prefix =~= quoted_state(v.take(j)).prefix);
            assert(fin == quoted_state(v.take(j)));
        }
    }
}

pub(crate) proof fn lemma_concat_map_take(v: Seq<char>, i: int, f: spec_fn(char) -> Seq<char>)
    requires
        0 <= i < v.len(),
    ensures
        concat_map(v.take(i + 1), f) == concat_map(v.take(i), f) + f(v[i]),
{
    assert(v.take(i + 1).drop_last() =~= v.take(i));
    assert(v.take(i + 1).last() == v[i]);
}

/// A filesystem name written in its canonical spelling reads back as a file
/// with exactly that name: the item text lexes to the name alone and
/// expands to one file line.
pub proof fn law_canonical_spelling_reads_back(v: Seq<char>, line: usize, level: usize)
    requires
        !v.contains('/'),
        spec_serialize_component(v) is Some,
    ensures
        spec_lex(spec_serialize_component(v)->0) matches Ok(t) && expand_template(t, line, level) == Ok::<
            Seq<FlatLine>,
            SyntaxErrorView,
        >(seq![FlatLine { line_number: line, indent_level: level, kind: LineKind::File, path: v, comment: None }]),
{
    assert forall|i: int| 0 <= i < v.len() implies v[i] != '/' by {
        if v[i] == '/' {
            assert(v.contains('/'));
        }
    }
    let s = spec_serialize_component(v)->0;
    let marked = if !needs_quotes(v) {
        unmarked(v)
    } else {
        protected(v)
    };
    if !needs_quotes(v) {
        assert(plain_name(v)) by {
            assert forall|i: int| 0 <= i < v.len() implies !is_syntax_char(#[trigger] v[i]) && v[i] != '/' by {
                if is_syntax_char(v[i]) {
                    assert(needs_quotes(v));
                }
            }
        }
        lemma_plain_run(v, v.len() as int);
        assert(v.take(v.len() as int) =~= v);
        assert(trailing_spaces(v) == 0);
        assert(v.take(v.len() - 0) =~= v);
        assert(s == v);
        assert(lex_run(s) == plain_state(v));
        assert(lex_run(s).prefix == unmarked(v));
    } else {
        let body = concat_map(v, |c: char| quoted_char(c));
        assert(s =~= seq!['"'] + body + seq!['"']);
        lemma_lex_run_append(seq!['"'], body + seq!['"']);
        lemma_lex_from_append(lex_run(seq!['"']), body, seq!['"']);
        assert(seq!['"'].drop_last() =~= Seq::<char>::empty());
        assert(seq!['"'].last() == '"');
        reveal_with_fuel(lex_run, 2);
        assert(lex_run(Seq::<char>::empty()) == lex_init());
        let q = lex_step(lex_init(), '"');
        assert(lex_run(seq!['"']) == q);
        assert(protected(Seq::<char>::empty()) =~= Seq::<(char, bool)>::empty());
        assert(q.prefix =~= quoted_state(seq![]).prefix);
        assert(q == quoted_state(seq![]));
        lemma_quoted_run(v, v.len() as int);
        assert(v.take(v.len() as int) =~= v);
        assert(seq!['"'] + (body + seq!['"']) =~= s);
        assert(seq!['"'].drop_last() =~= Seq::<char>::empty());
        let qs = quoted_state(v);
        assert(lex_from(quoted_state(seq![]), body) == qs);
        reveal_with_fuel(lex_from, 2);
        assert(lex_from(qs, seq!['"']) == lex_step(qs, '"'));
        assert(lex_run(s) == lex_step(qs, '"'));
        assert(lex_run(s).prefix == protected(v));
        assert(lex_run(s).mode == LexMode::AfterQuote);
    }
    let t = spec_lex(s)->Ok_0;
    assert(spec_lex(s) is Ok);
    assert(t.prefix == marked);
    assert(t.suffix =~= Seq::<(char, bool)>::empty());
    assert(t.alternatives is None);
    assert(t.comment is None);
    let exps = expansions(t);
    assert(exps =~= seq![marked]) by {
        assert(marked + Seq::<(char, bool)>::empty() =~= marked);
    }
    assert(marked != bare_placeholder()) by {
        if !needs_quotes(v) {
            if marked == bare_placeholder() {
                assert(v =~= seq!['.', '.', '.']) by {
                    assert(v.len() == 3);
                    assert(marked[0] == (v[0], false));
                    assert(marked[1] == (v[1], false));
                    assert(marked[2] == (v[2], false));
                }
                assert(is_ellipsis(v));
            }
        } else {
            assert(marked[0].1);
        }
    }
    assert(!(marked.len() > 0 && is_sep(marked, marked.len() - 1))) by {
        if marked.len() > 0 {
            assert(marked[marked.len() - 1].0 == v[v.len() - 1]);
        }
    }
    assert(!has_edge_space(marked)) by {
        if has_edge_space(marked) {
            let i = choose|i: int|
                0 <= i < marked.len() && #[trigger] marked[i] == (' ', false) && (i == 0 || is_sep(marked, i - 1)
                    || i == marked.len() - 1 || is_sep(marked, i + 1));
            assert(!needs_quotes(v));
            assert(v[i] == ' ');
            if i == 0 {
            } else if is_sep(marked, i - 1) {
                assert(v[i - 1] == '/');
            } else if i == marked.len() - 1 {
                assert(v.last() == ' ');
            } else {
                assert(v[i + 1] == '/');
            }
        }
    }
    assert(!has_bare_ellipsis(marked)) by {
        if has_bare_ellipsis(marked) {
            let i = choose|i: int|
                0 <= i && i + 3 <= marked.len() && #[trigger] marked[i] == ('.', false) && marked[i + 1] == ('.', false)
                    && marked[i + 2] == ('.', false) && (i == 0 || is_sep(marked, i - 1)) && (i + 3 == marked.len()
                    || is_sep(marked, i + 3));
            assert(!needs_quotes(v));
            if i > 0 {
                assert(v[i - 1] == '/');
            }
            if i + 3 < marked.len() {
                assert(v[i + 3] == '/');
            }
            assert(v =~= seq!['.', '.', '.']);
        }
    }
    assert(decoded(marked) =~= v);
    assert(classify(marked, false) == Some((LineKind::File, v)));
    assert(exps.drop_last() =~= Seq::<Seq<(char, bool)>>::empty());
    assert(trimmed_comment(t.comment) is None);
    reveal_with_fuel(expand_prefix, 2);
    assert(expand_prefix(exps.drop_last(), false, line, level, None) == Ok::<Seq<FlatLine>, SyntaxErrorView>(seq![]));
    assert(exps.last() == marked);
    assert(expand_prefix(exps, false, line, level, None) == Ok::<Seq<FlatLine>, SyntaxErrorView>(
        seq![FlatLine { line_number: line, indent_level: level, kind: LineKind::File, path: v, comment: None }],
    ));
}


/// A list line `- ` followed by the canonical spelling of a name reads back
/// as one root-level file line with exactly that name, whatever the
/// indentation size so far.
pub proof fn law_canonical_list_line_reads_back(v: Seq<char>, size: Option<nat>, n: usize)
    requires
        !v.contains('/'),
        spec_serialize_component(v) is Some,
    ensures
        line_read(size, n, seq!['-', ' '] + spec_serialize_component(v)->0) == Ok::<
            (Option<nat>, Seq<FlatLine>),
            SyntaxErrorView,
        >((size, seq![FlatLine { line_number: n, indent_level: 0, kind: LineKind::File, path: v, comment: None }])),
{
    let s = spec_serialize_component(v)->0;
    let l = seq!['-', ' '] + s;
    law_canonical_spelling_reads_back(v, n, 0);
    assert(s.len() > 0) by {
        if needs_quotes(v) {
            assert(s =~= quoted_spelling(v));
            assert(quoted_spelling(v)[0] == '"');
        }
    }
    assert(!is_blank(l)) by {
        assert(l[0] == '-');
        assert(!is_white_space(l[0]));
    }
    let p = |c: char| is_white_space(c);
    assert(first_failing(l, p, 0) == 0) by {
        assert(!p(l[0]));
    }
    assert(l[1] == ' ');
    assert(is_white_space(l[1]));
    assert(regex_list_item(l) == Some(l.take(0)));
    assert(l.take(0) =~= Seq::<char>::empty());
    assert(all_spaces(l.take(0)));
    assert(l.skip(2) =~= s);
    assert(indent_level(size, 0) == (size, Some(0nat)));
}


// ---------------------------------------------------------------------------
// Bounds, opacity and line endings

proof fn lemma_expand_len(
    exps: Seq<Seq<(char, bool)>>,
    has_block: bool,
    line: usize,
    level: usize,
    comment: Option<Seq<char>>,
)
    ensures
        expand_prefix(exps, has_block, line, level, comment) matches Ok(v) ==> v.len() == exps.len(),
    decreases exps.len(),
{
    if exps.len() > 0 {
        lemma_expand_len(exps.drop_last(), has_block, line, level, comment);
    }
}

proof fn lemma_line_read_len(size: Option<nat>, n: usize, l: Seq<char>)
    ensures
        line_read(size, n, l) matches Ok((_, new)) ==> new.len() <= crate::lexer::MAX_CHOICE_ALTERNATIVES,
{
    if line_read(size, n, l) is Ok {
        let k = regex_list_item(l)->0.len();
        let (ns, level) = indent_level(size, k);
        let text = l.skip(k as int + 2);
        let t = spec_lex(text)->Ok_0;
        lemma_expand_len(
            expansions(t),
            t.alternatives is Some,
            n,
            level->0 as usize,
            trimmed_comment(t.comment),
        );
    }
}

proof fn lemma_body_len(ls: Seq<Seq<char>>, first: int)
    ensures
        body_run(ls, first).failed is None ==> body_run(ls, first).items.len() <= ls.len()
            * crate::lexer::MAX_CHOICE_ALTERNATIVES,
    decreases ls.len(),
{
    if ls.len() > 0 {
        let prev = body_run(ls.drop_last(), first);
        lemma_body_len(ls.drop_last(), first);
        lemma_line_read_len(prev.size, (first + ls.len() - 1) as usize, ls.last());
    }
}

proof fn lemma_spec_body_bounded(body: Seq<Seq<char>>, first: int)
    ensures
        spec_body(body, first) matches Ok(items) ==> depth_bounded(items) && items.len() <= body.len()
            * crate::lexer::MAX_CHOICE_ALTERNATIVES,
{
    lemma_body_len(body, first);
    lemma_body_plain(body, first);
}

/// An accepted guide never lists a line deeper than the maximum depth, nor
/// more than one line per choice alternative of each document line.
pub proof fn law_parsed_guide_is_bounded(content: Seq<char>)
    ensures
        spec_parse(content) matches Ok(g) ==> depth_bounded(g.lines) && g.lines.len() <= spec_lines(content).len()
            * crate::lexer::MAX_CHOICE_ALTERNATIVES,
{
    let ls = spec_lines(content);
    lemma_scan_order(ls);
    if spec_locate(ls) is Ok {
        let (s, e, ig) = spec_locate(ls)->Ok_0;
        let body = ls.subrange(s + 1, e);
        lemma_spec_body_bounded(body, s + 2);
        assert(body.len() <= ls.len());
        assert(depth_bounded(Seq::<FlatLine>::empty()));
    }
}

/// The body of an ignored guide never makes its document fail.
pub proof fn law_ignored_body_is_opaque(content: Seq<char>)
    ensures
        spec_locate(spec_lines(content)) matches Ok((s, e, ignore)) && ignore ==> (spec_parse(content) matches Ok(g)
            && g.ignore),
{
}

pub open spec fn crlf_char(c: char) -> Seq<char> {
    if c == '\n' {
        seq!['\r', '\n']
    } else {
        seq![c]
    }
}

/// The document with every line feed written as carriage return and line feed.
pub open spec fn with_crlf(s: Seq<char>) -> Seq<char> {
    concat_map(s, |c: char| crlf_char(c))
}

proof fn lemma_pending_no_cr(s: Seq<char>)
    requires
        !s.contains('\r'),
    ensures
        !split_state(s).1.contains('\r'),
    decreases s.len(),
{
    if s.len() > 0 {
        let d = s.drop_last();
        assert(!d.contains('\r')) by {
            if d.contains('\r') {
                let i = choose|i: int| 0 <= i < d.len() && d[i] == '\r';
                assert(s[i] == '\r');
            }
        }
        lemma_pending_no_cr(d);
        if s.last() != '\n' {
            let p = split_state(d).1.push(s.last());
            assert(s.last() != '\r') by {
                assert(s[s.len() - 1] == s.last());
            }
            assert(!p.contains('\r')) by {
                if p.contains('\r') {
                    let i = choose|i: int| 0 <= i < p.len() && p[i] == '\r';
                    if i < split_state(d).1.len() {
                        assert(split_state(d).1[i] == '\r');
                    }
                }
            }
        }
    }
}

proof fn lemma_split_state_crlf(s: Seq<char>)
    requires
        !s.contains('\r'),
    ensures
        split_state(with_crlf(s)) == split_state(s),
    decreases s.len(),
{
    reveal_with_fuel(split_state, 3);
    if s.len() == 0 {
        assert(with_crlf(s) =~= Seq::<char>::empty());
    } else {
        let d = s.drop_last();
        let c = s.last();
        assert(!d.contains('\r')) by {
            if d.contains('\r') {
                let i = choose|i: int| 0 <= i < d.len() && d[i] == '\r';
                assert(s[i] == '\r');
            }
        }
        lemma_split_state_crlf(d);
        lemma_pending_no_cr(d);
        let w = with_crlf(d);
        assert(with_crlf(s) == w + crlf_char(c));
        let st = split_state(d);
        if c == '\n' {
            let a = w + seq!['\r'];
            let b = w + seq!['\r', '\n'];
            assert(b.drop_last() =~= a);
            assert(a.drop_last() =~= w);
            assert(split_state(a) == (st.0, st.1.push('\r')));
            assert(strip_cr(st.1.push('\r')) =~= st.1);
            assert(st.1.len() > 0 ==> st.1.last() != '\r') by {
                if st.1.len() > 0 && st.1.last() == '\r' {
                    assert(st.1.contains('\r'));
                }
            }
            assert(strip_cr(st.1) == st.1);
        } else {
            let b = w + seq![c];
            assert(b.drop_last() =~= w);
        }
    }
}

proof fn lemma_list_indent(l: Seq<char>, k: int)
    requires
        0 <= k < l.len(),
        forall|q: int| 0 <= q < k ==> l[q] == ' ',
        l[k] == '-',
    ensures
        first_failing(l, |c: char| is_white_space(c), 0) == k,
        !is_blank(l),
        all_spaces(l.take(k)),
{
    let p = |c: char| is_white_space(c);
    lemma_first_failing(l, p, 0);
    let f = first_failing(l, p, 0);
    assert(!is_white_space('-'));
    if f > k {
        assert(p(l[k]));
    }
    if f < k {
        assert(l[f] == ' ');
    }
    assert(!is_white_space(l[k]));
    assert forall|q: int| 0 <= q < l.take(k).len() implies #[trigger] l.take(k)[q] == ' ' by {
        assert(l.take(k)[q] == l[q]);
    }
}

/// A list line sits at an exact indentation level: indented by `k` spaces it
/// is read at the level `k / z`, where `z` is the indentation size in force
/// (set by the first indented line, never changed after), and `k` is a
/// multiple of `z`; a line that is not indented sits at the root.
pub proof fn law_list_lines_sit_at_exact_levels(size: Option<nat>, n: usize, l: Seq<char>, k: int)
    requires
        size matches Some(z) ==> z > 0,
        0 <= k < l.len(),
        forall|q: int| 0 <= q < k ==> l[q] == ' ',
        l[k] == '-',
        line_read(size, n, l) is Ok,
    ensures
        ({
            let (z2, ls) = line_read(size, n, l)->Ok_0;
            &&& (size is Some ==> z2 == size)
            &&& (size is None ==> z2 == (if k == 0 { None::<nat> } else { Some(k as nat) }))
            &&& forall|i: int|
                0 <= i < ls.len() ==> (k == 0 ==> (#[trigger] ls[i]).indent_level == 0) && (k > 0 ==> (z2 matches Some(
                    z,
                ) && ls[i].indent_level * z == k))
        }),
{
    lemma_list_indent(l, k);
    assert(regex_list_item(l) is Some);
    assert(regex_list_item(l) == Some(l.take(k)));
    assert(l.take(k).len() == k);
    let (z2, level) = indent_level(size, k as nat);
    let t = spec_lex(l.skip(k + 2))->Ok_0;
    lemma_expand_prefix_lines(expansions(t), t.alternatives is Some, n, level->0 as usize, trimmed_comment(t.comment));
    let ls = line_read(size, n, l)->Ok_0.1;
    assert(ls == expand_template(t, n, level->0 as usize)->Ok_0);
    assert forall|i: int| 0 <= i < ls.len() implies (#[trigger] ls[i]).indent_level == level->0 as usize by {
        let e = expansions(t)[i];
        assert(classify(e, t.alternatives is Some) is Some);
    }
    assert(level is Some && level->0 <= MAX_LOGICAL_DEPTH);
    assert(line_read(size, n, l)->Ok_0.0 == z2);
    if k > 0 {
        match size {
            Some(z) => {
                assert(k % (z as int) == 0);
                assert(level->0 == k / (z as int));
                vstd::arithmetic::div_mod::lemma_fundamental_div_mod(k, z as int);
                assert((k / (z as int)) * z == k) by (nonlinear_arith)
                    requires
                        k == (z as int) * (k / (z as int)) + k % (z as int),
                        k % (z as int) == 0;
                assert forall|i: int| 0 <= i < ls.len() implies (#[trigger] ls[i]).indent_level * z == k by {
                    assert(ls[i].indent_level == level->0);
                }
            },
            None => {
                assert(level->0 == 1);
            },
        }
    } else {
        assert(level->0 == 0);
    }
}

/// A list line indented by a number of spaces that is not a multiple of
/// the indentation size in force is refused at that line.
pub proof fn law_misaligned_lines_are_refused(size: Option<nat>, n: usize, l: Seq<char>, k: int)
    requires
        size matches Some(z) && z > 0 && k % (z as int) != 0,
        0 < k,
        k + 3 <= l.len(),
        forall|q: int| 0 <= q < k ==> l[q] == ' ',
        l[k] == '-',
        l[k + 1] == ' ',
    ensures
        line_read(size, n, l) == Err::<(Option<nat>, Seq<FlatLine>), SyntaxErrorView>(
            SyntaxErrorView::InvalidIndentationLevel { line: n },
        ),
{
    lemma_list_indent(l, k);
    assert(is_white_space(' '));
    assert(regex_list_item(l) == Some(l.take(k)));
}

proof fn lemma_expand_prefix_lines(
    exps: Seq<Seq<(char, bool)>>,
    has_block: bool,
    line: usize,
    level: usize,
    comment: Option<Seq<char>>,
)
    requires
        expand_prefix(exps, has_block, line, level, comment) is Ok,
    ensures
        ({
            let ls = expand_prefix(exps, has_block, line, level, comment)->Ok_0;
            &&& ls.len() == exps.len()
            &&& forall|i: int|
                0 <= i < exps.len() ==> (classify(#[trigger] exps[i], has_block) matches Some((kind, path)) && ls[i]
                    == (FlatLine { line_number: line, indent_level: level, kind, path, comment }))
        }),
    decreases exps.len(),
{
    if exps.len() > 0 {
        lemma_expand_prefix_lines(exps.drop_last(), has_block, line, level, comment);
        let ls = expand_prefix(exps, has_block, line, level, comment)->Ok_0;
        assert forall|i: int| 0 <= i < exps.len() implies (classify(#[trigger] exps[i], has_block) matches Some(
            (kind, path),
        ) && ls[i] == (FlatLine { line_number: line, indent_level: level, kind, path, comment })) by {
            if i < exps.len() - 1 {
                assert(exps.drop_last()[i] == exps[i]);
            }
        }
    }
}

/// A list item with a choice block stands for one line per alternative, in
/// choice order, each read from the text before the block, the alternative
/// and the text after it; an item without a block stands for one line.
pub proof fn law_choice_expansion(text: Seq<char>, line: usize, level: usize)
    requires
        spec_lex(text) is Ok,
        expand_template(spec_lex(text)->Ok_0, line, level) is Ok,
    ensures
        ({
            let t = spec_lex(text)->Ok_0;
            let ls = expand_template(t, line, level)->Ok_0;
            match t.alternatives {
                Some(alts) => ls.len() == alts.len() && forall|i: int|
                    0 <= i < alts.len() ==> decoded(#[trigger] expansions(t)[i]) == decoded(t.prefix) + alts[i]
                        + decoded(t.suffix) && (classify(expansions(t)[i], true) matches Some((kind, path))
                        && ls[i] == (FlatLine {
                        line_number: line,
                        indent_level: level,
                        kind,
                        path,
                        comment: trimmed_comment(t.comment),
                    })),
                None => ls.len() == 1 && expansions(t)[0] == t.prefix + t.suffix && (classify(
                    t.prefix + t.suffix,
                    false,
                ) matches Some((kind, path)) && ls[0] == (FlatLine {
                    line_number: line,
                    indent_level: level,
                    kind,
                    path,
                    comment: trimmed_comment(t.comment),
                })),
            }
        }),
{
    let t = spec_lex(text)->Ok_0;
    lemma_expand_prefix_lines(expansions(t), t.alternatives is Some, line, level, trimmed_comment(t.comment));
    match t.alternatives {
        Some(alts) => {
            assert forall|i: int| 0 <= i < alts.len() implies decoded(#[trigger] expansions(t)[i]) == decoded(t.prefix)
                + alts[i] + decoded(t.suffix) by {
                assert(expansions(t)[i] == t.prefix + unmarked(alts[i]) + t.suffix);
                assert(decoded(unmarked(alts[i])) =~= alts[i]);
                assert(decoded(t.prefix + unmarked(alts[i]) + t.suffix) =~= decoded(t.prefix) + decoded(unmarked(alts[i]))
                    + decoded(t.suffix));
            }
        },
        None => {},
    }
}

/// Writing line feeds as carriage return and line feed changes nothing in
/// how a document without carriage returns is read.
pub proof fn law_line_endings_do_not_matter(s: Seq<char>)
    requires
        !s.contains('\r'),
    ensures
        spec_parse(with_crlf(s)) == spec_parse(s),
{
    lemma_split_state_crlf(s);
    assert(spec_lines(with_crlf(s)) == spec_lines(s));
}

/// Writing line feeds as carriage return and line feed changes nothing in
/// the syntax check of a document without carriage returns: the trees read
/// from both spellings get the same verdict.
pub proof fn law_line_endings_do_not_change_the_check(
    s: Seq<char>,
    t1: Seq<NavigationGuideLine>,
    t2: Seq<NavigationGuideLine>,
)
    requires
        !s.contains('\r'),
        spec_parse(s) matches Ok(g) && flatten(t1) == g.lines && well_nested(t1, 0),
        spec_parse(with_crlf(s)) matches Ok(h) && flatten(t2) == h.lines && well_nested(t2, 0),
    ensures
        crate::validator::spec_validate(t1) == crate::validator::spec_validate(t2),
{
    law_line_endings_do_not_matter(s);
    crate::validator::law_check_depends_only_on_lines(t1, t2);
}

} // verus!
