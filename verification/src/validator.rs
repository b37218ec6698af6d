//! Structural checks of a parsed guide: path spelling, indentation,
//! placeholder placement and unique full paths.

use vstd::prelude::*;
use crate::errors::{AppError, SyntaxError, SyntaxErrorView};
use crate::path_codec::{render_utf8_chars, spec_render_utf8};
use crate::text::{
    chars_contain_forbidden_control, chars_have_windows_drive_prefix, chars_of,
    has_forbidden_control, spec_has_windows_drive_prefix, spec_split, split_on, string_of, subrange,
};
use crate::types::{FilesystemItem, FlatLine, LineKind, NavigationGuide, NavigationGuideLine, flatten};
use crate::parser::well_nested;
use crate::round_trip::lemma_flatten_levels;

verus! {

// ---------------------------------------------------------------------------
// Path spelling

pub open spec fn is_dot_component(c: Seq<char>) -> bool {
    c == seq!['.'] || c == seq!['.', '.']
}

/// The first fault among the `/`-separated components from index `k` on.
pub open spec fn component_error(
    comps: Seq<Seq<char>>,
    k: int,
    path: Seq<char>,
    line: usize,
    at_root: bool,
) -> Option<SyntaxErrorView>
    decreases comps.len() - k,
{
    if k < 0 || k >= comps.len() {
        None
    } else {
        let c = comps[k];
        if c.len() == 0 {
            Some(SyntaxErrorView::InvalidPathFormat { line, path })
        } else if is_dot_component(c) {
            Some(SyntaxErrorView::InvalidSpecialDirectory { line, path })
        } else if has_forbidden_control(c) {
            Some(SyntaxErrorView::InvalidPathFormat { line, path: spec_render_utf8(path) })
        } else if at_root && k == 0 && spec_has_windows_drive_prefix(c) {
            Some(SyntaxErrorView::InvalidPathFormat { line, path })
        } else {
            component_error(comps, k + 1, path, line, at_root)
        }
    }
}

/// A listed path must be nonempty and relative, with nonempty components
/// other than `.` and `..`, free of control characters, and a root entry may
/// not begin with a backslash or a drive prefix.
pub open spec fn path_error(path: Seq<char>, line: usize, at_root: bool) -> Option<SyntaxErrorView> {
    if path.len() == 0 {
        Some(SyntaxErrorView::InvalidPathFormat { line, path })
    } else if path[0] == '/' || (at_root && path[0] == '\\') {
        Some(SyntaxErrorView::InvalidPathFormat { line, path })
    } else {
        component_error(spec_split(path, '/'), 0, path, line, at_root)
    }
}

pub open spec fn ends_with_slash(p: Seq<char>) -> bool {
    p.len() > 0 && p.last() == '/'
}

/// The first placeholder, from index `k` on, that directly follows another.
pub open spec fn adjacent_from(ls: Seq<NavigationGuideLine>, k: int) -> Option<SyntaxErrorView>
    decreases ls.len() - k,
{
    if k < 0 || k + 1 >= ls.len() {
        None
    } else if ls[k].item.kind() == LineKind::Placeholder && ls[k + 1].item.kind() == LineKind::Placeholder {
        Some(SyntaxErrorView::AdjacentPlaceholders { line: ls[k + 1].line_number })
    } else {
        adjacent_from(ls, k + 1)
    }
}

/// The first fault of one line and, for a directory, of its subtree.
pub open spec fn item_error(l: NavigationGuideLine, at_root: bool) -> Option<SyntaxErrorView>
    decreases l, 0int,
{
    let structural = match l.item {
        FilesystemItem::Placeholder { .. } => None,
        _ => path_error(l.item.spec_path(), l.line_number, at_root),
    };
    if structural is Some {
        structural
    } else {
        match l.item {
            FilesystemItem::Directory { path, children, .. } => if ends_with_slash(path@) {
                Some(SyntaxErrorView::InvalidPathFormat { line: l.line_number, path: path@ })
            } else {
                match items_error(children@, 0, false) {
                    Some(e) => Some(e),
                    None => adjacent_from(children@, 0),
                }
            },
            FilesystemItem::File { path, .. } => if ends_with_slash(path@) {
                Some(SyntaxErrorView::InvalidPathFormat { line: l.line_number, path: path@ })
            } else {
                None
            },
            FilesystemItem::Placeholder { .. } => None,
        }
    }
}

/// The first fault among the lines from index `k` on.
pub open spec fn items_error(ls: Seq<NavigationGuideLine>, k: int, at_root: bool) -> Option<
    SyntaxErrorView,
>
    decreases ls, ls.len() - k,
{
    if k < 0 || k >= ls.len() {
        None
    } else {
        match item_error(ls[k], at_root) {
            Some(e) => Some(e),
            None => items_error(ls, k + 1, at_root),
        }
    }
}

fn chars_equal(a: &[char], b: &[char]) -> (r: bool)
    ensures
        r == (a@ == b@),
{
    if a.len() != b.len() {
        return false;
    }
    let mut i: usize = 0;
    while i < a.len()
        invariant
            i <= a@.len(),
            a@.len() == b@.len(),
            forall|j: int| 0 <= j < i ==> a@[j] == b@[j],
        decreases a@.len() - i,
    {
        if a[i] != b[i] {
            return false;
        }
        i = i + 1;
    }
    assert(a@ =~= b@);
    true
}

fn path_error_exec(path: &[char], line: usize, at_root: bool) -> (r: Option<SyntaxError>)
    ensures
        match r {
            Some(e) => path_error(path@, line, at_root) == Some(e.view()),
            None => path_error(path@, line, at_root) is None,
        },
{
    if path.len() == 0 || path[0] == '/' || (at_root && path[0] == '\\') {
        return Some(SyntaxError::InvalidPathFormat { line, path: string_of(path) });
    }
    let comps = split_on(path, '/');
    let ghost cs = spec_split(path@, '/');
    let mut k: usize = 0;
    while k < comps.len()
        invariant
            k <= comps@.len(),
            comps@.len() == cs.len(),
            cs == spec_split(path@, '/'),
            forall|m: int| 0 <= m < comps@.len() ==> #[trigger] comps@[m]@ == cs[m],
            path@.len() > 0,
            !(path@[0] == '/' || (at_root && path@[0] == '\\')),
            component_error(cs, 0, path@, line, at_root) == component_error(cs, k as int, path@, line, at_root),
        decreases comps@.len() - k,
    {
        let c = comps[k].as_slice();
        assert(c@ == cs[k as int]);
        if c.len() == 0 {
            return Some(SyntaxError::InvalidPathFormat { line, path: string_of(path) });
        }
        if (c.len() == 1 && c[0] == '.') || (c.len() == 2 && c[0] == '.' && c[1] == '.') {
            assert(is_dot_component(c@)) by {
                if c@.len() == 1 {
                    assert(c@ =~= seq!['.']);
                } else {
                    assert(c@ =~= seq!['.', '.']);
                }
            }
            return Some(SyntaxError::InvalidSpecialDirectory { line, path: string_of(path) });
        }
        assert(!is_dot_component(c@)) by {
            if c@ == seq!['.'] {
                assert(c@[0] == '.');
            }
            if c@ == seq!['.', '.'] {
                assert(c@[0] == '.' && c@[1] == '.');
            }
        }
        if chars_contain_forbidden_control(c) {
            return Some(SyntaxError::InvalidPathFormat { line, path: render_utf8_chars(path) });
        }
        if at_root && k == 0 && chars_have_windows_drive_prefix(c) {
            return Some(SyntaxError::InvalidPathFormat { line, path: string_of(path) });
        }
        k = k + 1;
    }
    None
}

fn adjacent_exec(ls: &[NavigationGuideLine]) -> (r: Option<SyntaxError>)
    ensures
        match r {
            Some(e) => adjacent_from(ls@, 0) == Some(e.view()),
            None => adjacent_from(ls@, 0) is None,
        },
{
    let mut k: usize = 0;
    while k < ls.len() && ls.len() - k > 1
        invariant
            adjacent_from(ls@, 0) == adjacent_from(ls@, k as int),
        decreases ls@.len() - k,
    {
        if ls[k].is_placeholder() && ls[k + 1].is_placeholder() {
            return Some(SyntaxError::AdjacentPlaceholders { line: ls[k + 1].line_number });
        }
        k = k + 1;
    }
    None
}

fn item_error_exec(l: &NavigationGuideLine, at_root: bool) -> (r: Option<SyntaxError>)
    ensures
        match r {
            Some(e) => item_error(*l, at_root) == Some(e.view()),
            None => item_error(*l, at_root) is None,
        },
    decreases *l, 0int,
{
    if !l.is_placeholder() {
        let p = chars_of(l.path());
        if let Some(e) = path_error_exec(p.as_slice(), l.line_number, at_root) {
            return Some(e);
        }
    }
    match &l.item {
        FilesystemItem::Directory { path, children, .. } => {
            let p = chars_of(path.as_str());
            if p.len() > 0 && p[p.len() - 1] == '/' {
                return Some(SyntaxError::InvalidPathFormat { line: l.line_number, path: string_of(p.as_slice()) });
            }
            if let Some(e) = items_error_exec(children.as_slice(), false) {
                return Some(e);
            }
            adjacent_exec(children.as_slice())
        },
        FilesystemItem::File { path, .. } => {
            let p = chars_of(path.as_str());
            if p.len() > 0 && p[p.len() - 1] == '/' {
                return Some(SyntaxError::InvalidPathFormat { line: l.line_number, path: string_of(p.as_slice()) });
            }
            None
        },
        FilesystemItem::Placeholder { .. } => None,
    }
}

fn items_error_exec(ls: &[NavigationGuideLine], at_root: bool) -> (r: Option<SyntaxError>)
    ensures
        match r {
            Some(e) => items_error(ls@, 0, at_root) == Some(e.view()),
            None => items_error(ls@, 0, at_root) is None,
        },
    decreases ls@, ls@.len(),
{
    let mut k: usize = 0;
    while k < ls.len()
        invariant
            k <= ls@.len(),
            items_error(ls@, 0, at_root) == items_error(ls@, k as int, at_root),
        decreases ls@.len() - k,
    {
        if let Some(e) = item_error_exec(&ls[k], at_root) {
            return Some(e);
        }
        k = k + 1;
    }
    None
}


// ---------------------------------------------------------------------------
// Indentation

/// The document line and indentation level of each line, in document order.
pub open spec fn level_pairs(f: Seq<FlatLine>) -> Seq<(usize, usize)> {
    f.map_values(|x: FlatLine| (x.line_number, x.indent_level))
}

/// The smallest nonzero level.
pub open spec fn min_nonzero(s: Seq<(usize, usize)>) -> Option<usize>
    decreases s.len(),
{
    if s.len() == 0 {
        None
    } else {
        let m = min_nonzero(s.drop_last());
        let v = s.last().1;
        if v == 0 {
            m
        } else {
            match m {
                None => Some(v),
                Some(x) => Some(
                    if v < x {
                        v
                    } else {
                        x
                    },
                ),
            }
        }
    }
}

/// The first index from `k` on whose level is not a multiple of `base`.
pub open spec fn first_offending(s: Seq<(usize, usize)>, base: usize, k: int) -> Option<int>
    decreases s.len() - k,
{
    if k < 0 || k >= s.len() {
        None
    } else if s[k].1 > 0 && s[k].1 % base != 0 {
        Some(k)
    } else {
        first_offending(s, base, k + 1)
    }
}

/// The next multiple of `base` above `level`, saturated at the largest `usize`.
pub open spec fn expected_level(level: usize, base: usize) -> usize {
    if level - level % base + base <= usize::MAX {
        (level - level % base + base) as usize
    } else {
        usize::MAX
    }
}

/// Every nonzero level must be a multiple of the smallest one; the first line
/// whose level is not is reported.
pub open spec fn inconsistent_error(ls: Seq<NavigationGuideLine>) -> Option<SyntaxErrorView> {
    let s = level_pairs(flatten(ls));
    match min_nonzero(s) {
        None => None,
        Some(b) => match first_offending(s, b, 0) {
            None => None,
            Some(i) => Some(
                SyntaxErrorView::InconsistentIndentation {
                    line: s[i].0,
                    expected: expected_level(s[i].1, b),
                    found: s[i].1,
                },
            ),
        },
    }
}

/// The first child from index `k` on that is not at level `lv`.
pub open spec fn bad_child(cs: Seq<NavigationGuideLine>, k: int, lv: int) -> Option<usize>
    decreases cs.len() - k,
{
    if k < 0 || k >= cs.len() {
        None
    } else if cs[k].indent_level != lv {
        Some(cs[k].line_number)
    } else {
        bad_child(cs, k + 1, lv)
    }
}

/// The children of a directory must be one level deeper than it; each
/// directory's children are checked before its subtrees.
pub open spec fn nest_item(l: NavigationGuideLine) -> Option<usize>
    decreases l, 0int,
{
    match l.item {
        FilesystemItem::Directory { children, .. } => match bad_child(children@, 0, l.indent_level + 1) {
            Some(n) => Some(n),
            None => nest_items(children@, 0),
        },
        _ => None,
    }
}

pub open spec fn nest_items(ls: Seq<NavigationGuideLine>, k: int) -> Option<usize>
    decreases ls, ls.len() - k,
{
    if k < 0 || k >= ls.len() {
        None
    } else {
        match nest_item(ls[k]) {
            Some(n) => Some(n),
            None => nest_items(ls, k + 1),
        }
    }
}

fn collect_levels(ls: &[NavigationGuideLine], out: &mut Vec<(usize, usize)>)
    ensures
        final(out)@ == old(out)@ + level_pairs(flatten(ls@)),
    decreases ls@,
{
    let ghost base = out@;
    let mut k: usize = 0;
    assert(ls@.take(0) =~= Seq::<NavigationGuideLine>::empty());
    assert(level_pairs(flatten(ls@.take(0))) =~= Seq::<(usize, usize)>::empty());
    while k < ls.len()
        invariant
            k <= ls@.len(),
            out@ == base + level_pairs(flatten(ls@.take(k as int))),
        decreases ls@.len() - k,
    {
        let l = &ls[k];
        let ghost before = out@;
        assert(ls@.take(k + 1).drop_last() =~= ls@.take(k as int));
        assert(ls@.take(k + 1)[k as int] == *l);
        out.push((l.line_number, l.indent_level));
        let ghost mid = out@;
        match &l.item {
            FilesystemItem::Directory { children, .. } => {
                collect_levels(children.as_slice(), out);
                assert(level_pairs(flatten(ls@.take(k + 1))) =~= level_pairs(flatten(ls@.take(k as int))) + seq![(l.line_number, l.indent_level)] + level_pairs(flatten(children@)));
            },
            _ => {
                assert(level_pairs(flatten(ls@.take(k + 1))) =~= level_pairs(flatten(ls@.take(k as int))) + seq![(l.line_number, l.indent_level)]);
            },
        }
        k = k + 1;
    }
    assert(ls@.take(ls@.len() as int) =~= ls@);
}

fn inconsistent_exec(ls: &[NavigationGuideLine]) -> (r: Option<SyntaxError>)
    ensures
        match r {
            Some(e) => inconsistent_error(ls@) == Some(e.view()),
            None => inconsistent_error(ls@) is None,
        },
{
    let mut pairs: Vec<(usize, usize)> = Vec::new();
    collect_levels(ls, &mut pairs);
    let ghost s = level_pairs(flatten(ls@));
    assert(pairs@ =~= s);
    let mut base: Option<usize> = None;
    let mut i: usize = 0;
    assert(pairs@.take(0) =~= Seq::<(usize, usize)>::empty());
    while i < pairs.len()
        invariant
            i <= pairs@.len(),
            base == min_nonzero(pairs@.take(i as int)),
        decreases pairs@.len() - i,
    {
        assert(pairs@.take(i + 1).drop_last() =~= pairs@.take(i as int));
        let v = pairs[i].1;
        if v != 0 {
            base = match base {
                None => Some(v),
                Some(x) => Some(if v < x { v } else { x }),
            };
        }
        i = i + 1;
    }
    assert(pairs@.take(pairs@.len() as int) =~= pairs@);
    let b = match base {
        None => {
            return None;
        },
        Some(b) => b,
    };
    proof {
        lemma_min_nonzero_positive(pairs@);
    }
    let mut k: usize = 0;
    while k < pairs.len()
        invariant
            k <= pairs@.len(),
            b > 0,
            pairs@ == level_pairs(flatten(ls@)),
            min_nonzero(pairs@) == Some(b),
            first_offending(pairs@, b, 0) == first_offending(pairs@, b, k as int),
        decreases pairs@.len() - k,
    {
        let (line, lv) = pairs[k];
        if lv > 0 && lv % b != 0 {
            assert(lv % b <= lv) by (nonlinear_arith)
                requires
                    b > 0,
            ;
            let expected = match (lv - lv % b).checked_add(b) {
                Some(x) => x,
                None => usize::MAX,
            };
            return Some(SyntaxError::InconsistentIndentation { line, expected, found: lv });
        }
        k = k + 1;
    }
    None
}

proof fn lemma_min_nonzero_positive(s: Seq<(usize, usize)>)
    ensures
        min_nonzero(s) matches Some(b) ==> b > 0,
    decreases s.len(),
{
    if s.len() > 0 {
        lemma_min_nonzero_positive(s.drop_last());
    }
}

fn bad_child_exec(cs: &[NavigationGuideLine], lv: usize) -> (r: Option<usize>)
    ensures
        r == bad_child(cs@, 0, lv + 1),
{
    let mut k: usize = 0;
    while k < cs.len()
        invariant
            k <= cs@.len(),
            bad_child(cs@, 0, lv + 1) == bad_child(cs@, k as int, lv + 1),
        decreases cs@.len() - k,
    {
        if lv == usize::MAX || cs[k].indent_level != lv + 1 {
            return Some(cs[k].line_number);
        }
        k = k + 1;
    }
    None
}

fn nest_item_exec(l: &NavigationGuideLine) -> (r: Option<usize>)
    ensures
        r == nest_item(*l),
    decreases *l, 0int,
{
    match &l.item {
        FilesystemItem::Directory { children, .. } => match bad_child_exec(children.as_slice(), l.indent_level) {
            Some(n) => Some(n),
            None => nest_items_exec(children.as_slice()),
        },
        _ => None,
    }
}

fn nest_items_exec(ls: &[NavigationGuideLine]) -> (r: Option<usize>)
    ensures
        r == nest_items(ls@, 0),
    decreases ls@, ls@.len(),
{
    let mut k: usize = 0;
    while k < ls.len()
        invariant
            k <= ls@.len(),
            nest_items(ls@, 0) == nest_items(ls@, k as int),
        decreases ls@.len() - k,
    {
        if let Some(n) = nest_item_exec(&ls[k]) {
            return Some(n);
        }
        k = k + 1;
    }
    None
}


// ---------------------------------------------------------------------------
// Unique full paths

/// `parent/p`, or `p` at the root.
pub open spec fn join_path(parent: Seq<char>, p: Seq<char>) -> Seq<char> {
    if parent.len() == 0 {
        p
    } else {
        parent + seq!['/'] + p
    }
}

/// Records the full path of a file or directory line and of its subtree;
/// fails on the first full path seen before. Placeholders have no identity.
pub open spec fn unique_item(l: NavigationGuideLine, parent: Seq<char>, seen: Set<Seq<char>>) -> Result<
    Set<Seq<char>>,
    SyntaxErrorView,
>
    decreases l, 0int,
{
    match l.item {
        FilesystemItem::Placeholder { .. } => Ok(seen),
        _ => {
            let full = join_path(parent, l.item.spec_path());
            if seen.contains(full) {
                Err(SyntaxErrorView::InvalidPathFormat { line: l.line_number, path: full })
            } else {
                match l.item {
                    FilesystemItem::Directory { children, .. } => unique_items(
                        children@,
                        0,
                        full,
                        seen.insert(full),
                    ),
                    _ => Ok(seen.insert(full)),
                }
            }
        },
    }
}

pub open spec fn unique_items(
    ls: Seq<NavigationGuideLine>,
    k: int,
    parent: Seq<char>,
    seen: Set<Seq<char>>,
) -> Result<Set<Seq<char>>, SyntaxErrorView>
    decreases ls, ls.len() - k,
{
    if k < 0 || k >= ls.len() {
        Ok(seen)
    } else {
        match unique_item(ls[k], parent, seen) {
            Err(e) => Err(e),
            Ok(s2) => unique_items(ls, k + 1, parent, s2),
        }
    }
}

pub open spec fn seen_set(v: Seq<Vec<char>>) -> Set<Seq<char>> {
    Set::new(|p: Seq<char>| exists|i: int| 0 <= i < v.len() && (#[trigger] v[i])@ == p)
}

fn seen_contains(seen: &Vec<Vec<char>>, p: &[char]) -> (r: bool)
    ensures
        r == seen_set(seen@).contains(p@),
{
    let mut i: usize = 0;
    while i < seen.len()
        invariant
            i <= seen@.len(),
            forall|j: int| 0 <= j < i ==> (#[trigger] seen@[j])@ != p@,
        decreases seen@.len() - i,
    {
        if chars_equal(seen[i].as_slice(), p) {
            assert(seen@[i as int]@ == p@);
            return true;
        }
        i = i + 1;
    }
    false
}

fn join_path_exec(parent: &[char], p: &[char]) -> (r: Vec<char>)
    ensures
        r@ == join_path(parent@, p@),
{
    let mut r: Vec<char> = Vec::new();
    if parent.len() > 0 {
        let mut i: usize = 0;
        while i < parent.len()
            invariant
                i <= parent@.len(),
                r@ == parent@.take(i as int),
            decreases parent@.len() - i,
        {
            r.push(parent[i]);
            i = i + 1;
            assert(parent@.take(i as int) =~= parent@.take(i - 1).push(parent@[i - 1]));
        }
        assert(parent@.take(parent@.len() as int) =~= parent@);
        r.push('/');
    }
    let ghost base = r@;
    let mut j: usize = 0;
    while j < p.len()
        invariant
            j <= p@.len(),
            r@ == base + p@.take(j as int),
        decreases p@.len() - j,
    {
        r.push(p[j]);
        j = j + 1;
        assert(p@.take(j as int) =~= p@.take(j - 1).push(p@[j - 1]));
    }
    assert(p@.take(p@.len() as int) =~= p@);
    r
}

fn unique_item_exec(l: &NavigationGuideLine, parent: &[char], seen: &mut Vec<Vec<char>>) -> (r: Option<
    SyntaxError,
>)
    ensures
        match r {
            None => unique_item(*l, parent@, seen_set(old(seen)@)) == Ok::<Set<Seq<char>>, SyntaxErrorView>(seen_set(final(seen)@)),
            Some(e) => unique_item(*l, parent@, seen_set(old(seen)@)) == Err::<Set<Seq<char>>, SyntaxErrorView>(e.view()),
        },
    decreases *l, 0int,
{
    if l.is_placeholder() {
        return None;
    }
    let p = chars_of(l.path());
    let full = join_path_exec(parent, p.as_slice());
    if seen_contains(seen, full.as_slice()) {
        return Some(SyntaxError::InvalidPathFormat { line: l.line_number, path: string_of(full.as_slice()) });
    }
    let ghost before = seen@;
    let ghost fv = full@;
    let parent_of_children = subrange(full.as_slice(), 0, full.len());
    seen.push(full);
    assert(seen_set(seen@) =~= seen_set(before).insert(fv)) by {
        assert(seen@[before.len() as int]@ == fv);
        assert forall|q: Seq<char>| seen_set(seen@).contains(q) implies seen_set(before).insert(fv).contains(q) by {
            let i = choose|i: int| 0 <= i < seen@.len() && (#[trigger] seen@[i])@ == q;
            if i < before.len() {
                assert(before[i] == seen@[i]);
            }
        }
        assert forall|q: Seq<char>| seen_set(before).insert(fv).contains(q) implies seen_set(seen@).contains(q) by {
            if q != fv {
                let i = choose|i: int| 0 <= i < before.len() && (#[trigger] before[i])@ == q;
                assert(seen@[i] == before[i]);
            }
        }
    }
    assert(fv == join_path(parent@, l.item.spec_path()));
    assert(!seen_set(before).contains(fv));
    match &l.item {
        FilesystemItem::Directory { children, .. } => {
            let r = unique_items_exec(children.as_slice(), parent_of_children.as_slice(), seen);
            assert(parent_of_children@ == fv);
            r
        },
        _ => None,
    }
}

fn unique_items_exec(ls: &[NavigationGuideLine], parent: &[char], seen: &mut Vec<Vec<char>>) -> (r: Option<
    SyntaxError,
>)
    ensures
        match r {
            None => unique_items(ls@, 0, parent@, seen_set(old(seen)@)) == Ok::<Set<Seq<char>>, SyntaxErrorView>(seen_set(final(seen)@)),
            Some(e) => unique_items(ls@, 0, parent@, seen_set(old(seen)@)) == Err::<Set<Seq<char>>, SyntaxErrorView>(e.view()),
        },
    decreases ls@, ls@.len(),
{
    let ghost s0 = seen@;
    let mut k: usize = 0;
    while k < ls.len()
        invariant
            k <= ls@.len(),
            s0 == old(seen)@,
            unique_items(ls@, 0, parent@, seen_set(s0)) == unique_items(ls@, k as int, parent@, seen_set(seen@)),
        decreases ls@.len() - k,
    {
        let ghost before = seen@;
        if let Some(e) = unique_item_exec(&ls[k], parent, seen) {
            assert(unique_item(ls@[k as int], parent@, seen_set(before)) == Err::<Set<Seq<char>>, SyntaxErrorView>(e.view()));
            assert(unique_items(ls@, k as int, parent@, seen_set(before)) == Err::<Set<Seq<char>>, SyntaxErrorView>(e.view()));
            return Some(e);
        }
        assert(unique_item(ls@[k as int], parent@, seen_set(before)) == Ok::<Set<Seq<char>>, SyntaxErrorView>(seen_set(seen@)));
        k = k + 1;
    }
    None
}

// ---------------------------------------------------------------------------
// The whole guide

/// The first fault of a guide: an empty list; then a path or placeholder
/// fault in document order; then inconsistent indentation; then a child not
/// one level below its directory; then adjacent root placeholders; then a
/// repeated full path.
pub open spec fn spec_validate(items: Seq<NavigationGuideLine>) -> Option<SyntaxErrorView> {
    if items.len() == 0 {
        Some(SyntaxErrorView::EmptyGuideBlock)
    } else if items_error(items, 0, true) is Some {
        items_error(items, 0, true)
    } else if inconsistent_error(items) is Some {
        inconsistent_error(items)
    } else if nest_items(items, 0) is Some {
        Some(SyntaxErrorView::InvalidIndentationLevel { line: nest_items(items, 0)->0 })
    } else if adjacent_from(items, 0) is Some {
        adjacent_from(items, 0)
    } else {
        match unique_items(items, 0, seq![], Set::empty()) {
            Err(e) => Some(e),
            Ok(_) => None,
        }
    }
}

/// Validator for navigation guide syntax
pub struct Validator;

impl Validator {
    /// Create a new validator instance
    pub fn new() -> (v: Self)
        ensures
            v == Validator,
    {
        Validator
    }

    /// Validate the syntax of a navigation guide
    pub fn validate_syntax(&self, guide: &NavigationGuide) -> (r: Result<(), AppError>)
        ensures
            match r {
                Ok(()) => spec_validate(guide.items@) is None,
                Err(AppError::Syntax(e)) => spec_validate(guide.items@) == Some(e.view()),
                Err(_) => false,
            },
    {
        let items = guide.items.as_slice();
        if items.len() == 0 {
            return Err(AppError::Syntax(SyntaxError::EmptyGuideBlock));
        }
        if let Some(e) = items_error_exec(items, true) {
            return Err(AppError::Syntax(e));
        }
        if let Some(e) = inconsistent_exec(items) {
            return Err(AppError::Syntax(e));
        }
        if let Some(line) = nest_items_exec(items) {
            return Err(AppError::Syntax(SyntaxError::InvalidIndentationLevel { line }));
        }
        if let Some(e) = adjacent_exec(items) {
            return Err(AppError::Syntax(e));
        }
        let mut seen: Vec<Vec<char>> = Vec::new();
        assert(seen_set(seen@) =~= Set::<Seq<char>>::empty());
        let root: Vec<char> = Vec::new();
        match unique_items_exec(items, root.as_slice(), &mut seen) {
            Some(e) => Err(AppError::Syntax(e)),
            None => Ok(()),
        }
    }
}

impl Default for Validator {
    fn default() -> (v: Self) {
        Validator
    }
}

// ---------------------------------------------------------------------------
// The check depends only on the lines

/// Two trees with the same lines, level by level: equal flattened lines at
/// each position and, below each directory, the same children.
pub open spec fn same_tree(a: Seq<NavigationGuideLine>, b: Seq<NavigationGuideLine>) -> bool
    decreases a,
{
    if a.len() == 0 {
        b.len() == 0
    } else {
        let x = a[a.len() - 1];
        &&& b.len() == a.len()
        &&& same_tree(a.drop_last(), b.drop_last())
        &&& x.flat() == b[b.len() - 1].flat()
        &&& match x.item {
            FilesystemItem::Directory { children, .. } => same_tree(children@, b[b.len() - 1].item.spec_children()),
            _ => true,
        }
    }
}

/// Well-nested trees with the same flattened lines are the same tree.
proof fn lemma_unique_tree(a: Seq<NavigationGuideLine>, b: Seq<NavigationGuideLine>, lvl: nat)
    requires
        well_nested(a, lvl),
        well_nested(b, lvl),
        flatten(a) == flatten(b),
    ensures
        same_tree(a, b),
    decreases a,
{
    if a.len() == 0 {
        if b.len() > 0 {
            assert(flatten(b).len() > 0);
        }
    } else {
        if b.len() == 0 {
            assert(flatten(a).len() > 0);
        }
        let x = a[a.len() - 1];
        let y = b[b.len() - 1];
        let pa = flatten(a.drop_last());
        let pb = flatten(b.drop_last());
        let ca = flatten(x.item.spec_children());
        let cb = flatten(y.item.spec_children());
        let f = flatten(a);
        assert(f == pa + seq![x.flat()] + ca);
        assert(flatten(b) == pb + seq![y.flat()] + cb);
        match x.item {
            FilesystemItem::Directory { children, .. } => lemma_flatten_levels(children@, lvl + 1),
            _ => {},
        }
        match y.item {
            FilesystemItem::Directory { children, .. } => lemma_flatten_levels(children@, lvl + 1),
            _ => {},
        }
        assert(forall|i: int| 0 <= i < ca.len() ==> (#[trigger] ca[i]).indent_level >= lvl + 1);
        assert(forall|i: int| 0 <= i < cb.len() ==> (#[trigger] cb[i]).indent_level >= lvl + 1);
        if pa.len() < pb.len() {
            assert(f[pb.len() as int] == y.flat());
            assert(f[pb.len() as int] == ca[pb.len() - pa.len() - 1]);
        }
        if pb.len() < pa.len() {
            assert(f[pa.len() as int] == x.flat());
            assert(f[pa.len() as int] == cb[pa.len() - pb.len() - 1]);
        }
        assert(pa.len() == pb.len());
        assert(pa =~= f.take(pa.len() as int));
        assert(pb =~= f.take(pa.len() as int));
        assert(x.flat() == f[pa.len() as int]);
        assert(ca =~= f.skip(pa.len() as int + 1));
        assert(cb =~= f.skip(pa.len() as int + 1));
        lemma_unique_tree(a.drop_last(), b.drop_last(), lvl);
        match x.item {
            FilesystemItem::Directory { children, .. } => {
                lemma_unique_tree(children@, y.item.spec_children(), lvl + 1);
            },
            _ => {},
        }
    }
}

proof fn lemma_same_tree_at(a: Seq<NavigationGuideLine>, b: Seq<NavigationGuideLine>, k: int)
    requires
        same_tree(a, b),
        0 <= k < a.len(),
    ensures
        a.len() == b.len(),
        a[k].flat() == b[k].flat(),
        same_tree(a[k].item.spec_children(), b[k].item.spec_children()),
    decreases a.len(),
{
    if k < a.len() - 1 {
        lemma_same_tree_at(a.drop_last(), b.drop_last(), k);
        assert(a.drop_last()[k] == a[k] && b.drop_last()[k] == b[k]);
    } else {
        match a[k].item {
            FilesystemItem::Directory { .. } => {},
            _ => {
                assert(b[k].item.kind() != LineKind::Directory);
                assert(b[k].item.spec_children() =~= Seq::<NavigationGuideLine>::empty());
                assert(a[k].item.spec_children() =~= Seq::<NavigationGuideLine>::empty());
            },
        }
    }
}

proof fn lemma_adjacent_same(a: Seq<NavigationGuideLine>, b: Seq<NavigationGuideLine>, k: int)
    requires
        same_tree(a, b),
    ensures
        adjacent_from(a, k) == adjacent_from(b, k),
    decreases a.len() - k,
{
    if 0 <= k && k + 1 < a.len() {
        lemma_same_tree_at(a, b, k);
        lemma_same_tree_at(a, b, k + 1);
        lemma_adjacent_same(a, b, k + 1);
    } else if a.len() > 0 {
        lemma_same_tree_at(a, b, 0);
    }
}

proof fn lemma_item_error_same(l1: NavigationGuideLine, l2: NavigationGuideLine, at_root: bool)
    requires
        l1.flat() == l2.flat(),
        same_tree(l1.item.spec_children(), l2.item.spec_children()),
    ensures
        item_error(l1, at_root) == item_error(l2, at_root),
    decreases l1, 0int,
{
    match l1.item {
        FilesystemItem::Directory { children, .. } => {
            lemma_items_error_same(children@, l2.item.spec_children(), 0, false);
            lemma_adjacent_same(children@, l2.item.spec_children(), 0);
        },
        _ => {},
    }
}

proof fn lemma_items_error_same(a: Seq<NavigationGuideLine>, b: Seq<NavigationGuideLine>, k: int, at_root: bool)
    requires
        same_tree(a, b),
    ensures
        items_error(a, k, at_root) == items_error(b, k, at_root),
    decreases a, a.len() - k,
{
    if 0 <= k < a.len() {
        lemma_same_tree_at(a, b, k);
        lemma_item_error_same(a[k], b[k], at_root);
        lemma_items_error_same(a, b, k + 1, at_root);
    } else if a.len() > 0 {
        lemma_same_tree_at(a, b, 0);
    }
}

proof fn lemma_bad_child_same(a: Seq<NavigationGuideLine>, b: Seq<NavigationGuideLine>, k: int, lv: int)
    requires
        same_tree(a, b),
    ensures
        bad_child(a, k, lv) == bad_child(b, k, lv),
    decreases a.len() - k,
{
    if 0 <= k < a.len() {
        lemma_same_tree_at(a, b, k);
        lemma_bad_child_same(a, b, k + 1, lv);
    } else if a.len() > 0 {
        lemma_same_tree_at(a, b, 0);
    }
}

proof fn lemma_nest_item_same(l1: NavigationGuideLine, l2: NavigationGuideLine)
    requires
        l1.flat() == l2.flat(),
        same_tree(l1.item.spec_children(), l2.item.spec_children()),
    ensures
        nest_item(l1) == nest_item(l2),
    decreases l1, 0int,
{
    match l1.item {
        FilesystemItem::Directory { children, .. } => {
            lemma_bad_child_same(children@, l2.item.spec_children(), 0, l1.indent_level + 1);
            lemma_nest_items_same(children@, l2.item.spec_children(), 0);
        },
        _ => {},
    }
}

proof fn lemma_nest_items_same(a: Seq<NavigationGuideLine>, b: Seq<NavigationGuideLine>, k: int)
    requires
        same_tree(a, b),
    ensures
        nest_items(a, k) == nest_items(b, k),
    decreases a, a.len() - k,
{
    if 0 <= k < a.len() {
        lemma_same_tree_at(a, b, k);
        lemma_nest_item_same(a[k], b[k]);
        lemma_nest_items_same(a, b, k + 1);
    } else if a.len() > 0 {
        lemma_same_tree_at(a, b, 0);
    }
}

proof fn lemma_unique_item_same(l1: NavigationGuideLine, l2: NavigationGuideLine, parent: Seq<char>, seen: Set<Seq<char>>)
    requires
        l1.flat() == l2.flat(),
        same_tree(l1.item.spec_children(), l2.item.spec_children()),
    ensures
        unique_item(l1, parent, seen) == unique_item(l2, parent, seen),
    decreases l1, 0int,
{
    match l1.item {
        FilesystemItem::Directory { children, .. } => {
            let full = join_path(parent, l1.item.spec_path());
            lemma_unique_items_same(children@, l2.item.spec_children(), 0, full, seen.insert(full));
        },
        _ => {},
    }
}

proof fn lemma_unique_items_same(
    a: Seq<NavigationGuideLine>,
    b: Seq<NavigationGuideLine>,
    k: int,
    parent: Seq<char>,
    seen: Set<Seq<char>>,
)
    requires
        same_tree(a, b),
    ensures
        unique_items(a, k, parent, seen) == unique_items(b, k, parent, seen),
    decreases a, a.len() - k,
{
    if 0 <= k < a.len() {
        lemma_same_tree_at(a, b, k);
        lemma_unique_item_same(a[k], b[k], parent, seen);
        match unique_item(a[k], parent, seen) {
            Ok(s2) => lemma_unique_items_same(a, b, k + 1, parent, s2),
            Err(_) => {},
        }
    } else if a.len() > 0 {
        lemma_same_tree_at(a, b, 0);
    }
}

/// The syntax check of a guide depends only on its lines: two well-nested
/// trees with the same flattened lines get the same verdict.
pub proof fn law_check_depends_only_on_lines(t1: Seq<NavigationGuideLine>, t2: Seq<NavigationGuideLine>)
    requires
        well_nested(t1, 0),
        well_nested(t2, 0),
        flatten(t1) == flatten(t2),
    ensures
        spec_validate(t1) == spec_validate(t2),
{
    lemma_unique_tree(t1, t2, 0);
    if t1.len() > 0 {
        lemma_same_tree_at(t1, t2, 0);
    }
    lemma_items_error_same(t1, t2, 0, true);
    lemma_nest_items_same(t1, t2, 0);
    lemma_adjacent_same(t1, t2, 0);
    lemma_unique_items_same(t1, t2, 0, seq![], Set::empty());
}

// ---------------------------------------------------------------------------
// Placeholders stand apart

/// No two consecutive lines of a list, nor of any directory's children
/// below it, are both placeholders.
pub open spec fn placeholders_apart(ls: Seq<NavigationGuideLine>) -> bool
    decreases ls,
{
    if ls.len() == 0 {
        true
    } else {
        let x = ls[ls.len() - 1];
        &&& placeholders_apart(ls.drop_last())
        &&& (ls.len() >= 2 ==> !(ls[ls.len() - 2].item.kind() == LineKind::Placeholder && x.item.kind()
            == LineKind::Placeholder))
        &&& match x.item {
            FilesystemItem::Directory { children, .. } => placeholders_apart(children@),
            _ => true,
        }
    }
}

proof fn lemma_items_error_none_at(ls: Seq<NavigationGuideLine>, k: int, at_root: bool, i: int)
    requires
        0 <= k <= i < ls.len(),
        items_error(ls, k, at_root) is None,
    ensures
        item_error(ls[i], at_root) is None,
    decreases i - k,
{
    if k < i {
        lemma_items_error_none_at(ls, k + 1, at_root, i);
    }
}

proof fn lemma_adjacent_none_at(ls: Seq<NavigationGuideLine>, k: int, i: int)
    requires
        0 <= k <= i,
        i + 1 < ls.len(),
        adjacent_from(ls, k) is None,
    ensures
        !(ls[i].item.kind() == LineKind::Placeholder && ls[i + 1].item.kind() == LineKind::Placeholder),
    decreases i - k,
{
    if k < i {
        lemma_adjacent_none_at(ls, k + 1, i);
    }
}

proof fn lemma_apart(ls: Seq<NavigationGuideLine>, at_root: bool)
    requires
        forall|i: int| 0 <= i < ls.len() ==> item_error(#[trigger] ls[i], at_root) is None,
        forall|i: int|
            0 <= i && i + 1 < ls.len() ==> !(#[trigger] ls[i].item.kind() == LineKind::Placeholder && ls[i
                + 1].item.kind() == LineKind::Placeholder),
    ensures
        placeholders_apart(ls),
    decreases ls,
{
    if ls.len() > 0 {
        let d = ls.drop_last();
        assert forall|i: int| 0 <= i < d.len() implies item_error(#[trigger] d[i], at_root) is None by {
            assert(d[i] == ls[i]);
        }
        assert forall|i: int|
            0 <= i && i + 1 < d.len() implies !(#[trigger] d[i].item.kind() == LineKind::Placeholder && d[i
                + 1].item.kind() == LineKind::Placeholder) by {
            assert(d[i] == ls[i] && d[i + 1] == ls[i + 1]);
        }
        lemma_apart(d, at_root);
        let x = ls[ls.len() - 1];
        if ls.len() >= 2 {
            assert(!(ls[ls.len() - 2].item.kind() == LineKind::Placeholder && ls[ls.len() - 2 + 1].item.kind()
                == LineKind::Placeholder));
        }
        assert(item_error(x, at_root) is None);
        match x.item {
            FilesystemItem::Directory { children, .. } => {
                let cs = children@;
                assert(items_error(cs, 0, false) is None);
                assert(adjacent_from(cs, 0) is None);
                assert forall|i: int| 0 <= i < cs.len() implies item_error(#[trigger] cs[i], false) is None by {
                    lemma_items_error_none_at(cs, 0, false, i);
                }
                assert forall|i: int|
                    0 <= i && i + 1 < cs.len() implies !(#[trigger] cs[i].item.kind() == LineKind::Placeholder
                        && cs[i + 1].item.kind() == LineKind::Placeholder) by {
                    lemma_adjacent_none_at(cs, 0, i);
                }
                lemma_apart(cs, false);
            },
            _ => {},
        }
    }
}

/// A guide that passes the syntax check never lists two placeholders one
/// right after the other, at the root or in any directory.
pub proof fn law_valid_guides_keep_placeholders_apart(items: Seq<NavigationGuideLine>)
    requires
        spec_validate(items) is None,
    ensures
        placeholders_apart(items),
        forall|i: int|
            0 <= i && i + 1 < items.len() ==> !(#[trigger] items[i].item.kind() == LineKind::Placeholder
                && items[i + 1].item.kind() == LineKind::Placeholder),
{
    assert(items_error(items, 0, true) is None);
    assert(adjacent_from(items, 0) is None);
    assert forall|i: int| 0 <= i < items.len() implies item_error(#[trigger] items[i], true) is None by {
        lemma_items_error_none_at(items, 0, true, i);
    }
    assert forall|i: int|
        0 <= i && i + 1 < items.len() implies !(#[trigger] items[i].item.kind() == LineKind::Placeholder
            && items[i + 1].item.kind() == LineKind::Placeholder) by {
        lemma_adjacent_none_at(items, 0, i);
    }
    lemma_apart(items, true);
}

} // verus!
