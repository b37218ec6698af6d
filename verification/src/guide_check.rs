//! Checking a guide against the filesystem. The directories that a check
//! consults are read once each into a snapshot; the decision over the
//! snapshot is exact: a listed name matches only the entry spelled with the
//! same characters.

use vstd::prelude::*;
use vstd::utf8::{decode_utf8, valid_utf8};
use crate::entry_type::{SupportedEntryKind, UnsupportedEntryKind};
use crate::errors::{AppError, AppErrorView, SemanticError, SemanticErrorView, line_prefix};
use crate::path_codec::{render_bytes_component, render_utf8_chars, spec_render_bytes, spec_render_utf8};
use crate::text::{
    chars_contain_forbidden_control, chars_have_windows_drive_prefix, chars_of,
    has_forbidden_control, is_blank, blank, push_all, push_decimal, push_str, spec_has_windows_drive_prefix,
    spec_split, spec_trim, split_on, string_of, subrange, trim_white, utf8_to_str,
};
use crate::types::{FilesystemItem, LineKind, NavigationGuide, NavigationGuideLine, opt_view};
use crate::validator::{Validator, join_path, spec_validate};

verus! {

/// One entry of a directory listing: its raw name and its kind.
pub struct DirEntry {
    pub name: Vec<u8>,
    pub kind: Result<SupportedEntryKind, UnsupportedEntryKind>,
}

/// What reading one directory gave.
pub enum Listing {
    Entries(Vec<DirEntry>),
    Missing,
    NotDirectory,
    PermissionDenied,
    Failed(String),
}

/// The listing of the directory at a root-relative `/`-joined path (`""` is the root),
/// with the names requested in it that the host resolves to an entry
/// (a case-insensitive host resolves differently spelled names too).
pub struct DirListing {
    pub directory: String,
    pub listing: Listing,
    pub resolved: Vec<String>,
}

/// Whether the host resolves `name` in directory `dir`, as the listings report.
pub open spec fn host_resolves(ls: Seq<DirListing>, dir: Seq<char>, name: Seq<char>) -> bool {
    exists|i: int, j: int|
        0 <= i < ls.len() && 0 <= j < ls[i].resolved@.len() && (#[trigger] ls[i]).directory@ == dir
            && (#[trigger] ls[i].resolved@[j])@ == name
}

/// The name resolution the listings report.
pub open spec fn resolver(ls: Seq<DirListing>) -> spec_fn(Seq<char>, Seq<char>) -> bool {
    |dir: Seq<char>, name: Seq<char>| host_resolves(ls, dir, name)
}

pub enum ListingView {
    Entries(Seq<(Seq<u8>, Result<SupportedEntryKind, UnsupportedEntryKind>)>),
    Missing,
    NotDirectory,
    PermissionDenied,
    Failed(Seq<char>),
}

pub open spec fn entry_views(es: Seq<DirEntry>) -> Seq<(Seq<u8>, Result<SupportedEntryKind, UnsupportedEntryKind>)> {
    es.map_values(|e: DirEntry| (e.name@, e.kind))
}

impl Listing {
    pub open spec fn view(self) -> ListingView {
        match self {
            Listing::Entries(es) => ListingView::Entries(entry_views(es@)),
            Listing::Missing => ListingView::Missing,
            Listing::NotDirectory => ListingView::NotDirectory,
            Listing::PermissionDenied => ListingView::PermissionDenied,
            Listing::Failed(m) => ListingView::Failed(m@),
        }
    }
}

pub open spec fn snapshot_view(ls: Seq<DirListing>) -> Seq<(Seq<char>, ListingView)> {
    ls.map_values(|l: DirListing| (l.directory@, l.listing.view()))
}

/// The first listing of directory `dir` from index `k` on.
pub open spec fn lookup(snap: Seq<(Seq<char>, ListingView)>, dir: Seq<char>, k: int) -> Option<ListingView>
    decreases snap.len() - k,
{
    if k < 0 || k >= snap.len() {
        None
    } else if snap[k].0 == dir {
        Some(snap[k].1)
    } else {
        lookup(snap, dir, k + 1)
    }
}

/// The kind of the first entry, from index `k` on, whose name is the UTF-8 spelling of `name`.
pub open spec fn find_entry(
    es: Seq<(Seq<u8>, Result<SupportedEntryKind, UnsupportedEntryKind>)>,
    name: Seq<char>,
    k: int,
) -> Option<Result<SupportedEntryKind, UnsupportedEntryKind>>
    decreases es.len() - k,
{
    if k < 0 || k >= es.len() {
        None
    } else if valid_utf8(es[k].0) && decode_utf8(es[k].0) == name {
        Some(es[k].1)
    } else {
        find_entry(es, name, k + 1)
    }
}

/// How a directory is named in diagnostics.
pub open spec fn display_dir(dir: Seq<char>) -> Seq<char> {
    if dir.len() == 0 {
        seq!['.']
    } else {
        dir
    }
}

pub open spec fn kind_text(k: Result<SupportedEntryKind, UnsupportedEntryKind>) -> Seq<char> {
    match k {
        Ok(SupportedEntryKind::RegularFile) => "file"@,
        Ok(SupportedEntryKind::Directory) => "directory"@,
        Err(u) => u.spec_description(),
    }
}

pub open spec fn item_type_text(item: FilesystemItem) -> Seq<char> {
    match item {
        FilesystemItem::File { .. } => "file"@,
        FilesystemItem::Directory { .. } => "directory"@,
        FilesystemItem::Placeholder { .. } => "placeholder"@,
    }
}

pub open spec fn not_found(l: NavigationGuideLine, full: Seq<char>) -> AppErrorView {
    AppErrorView::Semantic(
        SemanticErrorView::ItemNotFound {
            line: l.line_number,
            item_type: item_type_text(l.item),
            path: l.item.spec_path(),
            full_path: full,
        },
    )
}

/// A requested name that no entry has exactly, though the host resolves it.
pub open spec fn alias_error(l: NavigationGuideLine, name: Seq<char>, dir: Seq<char>) -> AppErrorView {
    AppErrorView::Other(
        line_prefix(l.line_number) + "requested name "@ + name + " is not the exact filesystem name of an entry of "@
            + display_dir(dir) + "; the host resolves it to a differently spelled entry"@,
    )
}

pub open spec fn no_listing(dir: Seq<char>) -> AppErrorView {
    AppErrorView::Other("directory "@ + display_dir(dir) + " was not read"@)
}

/// Follows the components `comps[j..]` of a listed path from directory
/// `dir`: every name of each directory visited must be representable, and
/// each component must be exactly the name of an entry of its directory,
/// the inner ones directories and the last one of the listed kind. A name
/// that no entry has but the host resolves (`res`) is reported as such.
pub open spec fn walk(
    snap: Seq<(Seq<char>, ListingView)>,
    res: spec_fn(Seq<char>, Seq<char>) -> bool,
    l: NavigationGuideLine,
    comps: Seq<Seq<char>>,
    j: int,
    dir: Seq<char>,
    full: Seq<char>,
) -> Result<(), AppErrorView>
    decreases comps.len() - j,
{
    if j < 0 || j >= comps.len() {
        Ok(())
    } else {
        match lookup(snap, dir, 0) {
            None => Err(no_listing(dir)),
            Some(ListingView::PermissionDenied) => Err(
                AppErrorView::Semantic(
                    SemanticErrorView::PermissionDenied { line: l.line_number, path: l.item.spec_path() },
                ),
            ),
            Some(ListingView::Failed(m)) => Err(AppErrorView::Other(m)),
            Some(ListingView::Missing) => Err(not_found(l, full)),
            Some(ListingView::NotDirectory) => Err(not_found(l, full)),
            Some(ListingView::Entries(es)) => match scan_entries(es, l.line_number, seq![], dir.len() == 0) {
                Err(e) => Err(e),
                Ok(_) => match find_entry(es, comps[j], 0) {
                    None => if res(dir, comps[j]) {
                        Err(alias_error(l, comps[j], dir))
                    } else {
                        Err(not_found(l, full))
                    },
                    Some(kind) => if j + 1 < comps.len() {
                        if kind == Ok::<SupportedEntryKind, UnsupportedEntryKind>(SupportedEntryKind::Directory) {
                            walk(snap, res, l, comps, j + 1, join_path(dir, comps[j]), full)
                        } else {
                            Err(not_found(l, full))
                        }
                    } else {
                        let expected = if l.item.kind() == LineKind::Directory {
                            SupportedEntryKind::Directory
                        } else {
                            SupportedEntryKind::RegularFile
                        };
                        if kind == Ok::<SupportedEntryKind, UnsupportedEntryKind>(expected) {
                            Ok(())
                        } else {
                            Err(
                                AppErrorView::Semantic(
                                    SemanticErrorView::TypeMismatch {
                                        line: l.line_number,
                                        expected: kind_text(Ok(expected)),
                                        found: kind_text(kind),
                                        path: l.item.spec_path(),
                                    },
                                ),
                            )
                        }
                    },
                },
            },
        }
    }
}

/// The first components of the listed (non-placeholder) lines.
pub open spec fn mentioned_names(ls: Seq<NavigationGuideLine>) -> Seq<Seq<char>>
    decreases ls.len(),
{
    if ls.len() == 0 {
        seq![]
    } else if ls.last().item.kind() == LineKind::Placeholder {
        mentioned_names(ls.drop_last())
    } else {
        mentioned_names(ls.drop_last()).push(spec_split(ls.last().item.spec_path(), '/')[0])
    }
}

pub open spec fn unsupported_name(line: usize, what: Seq<char>, name: Seq<char>) -> AppErrorView {
    AppErrorView::Other(line_prefix(line) + "unsupported "@ + what + " filesystem name "@ + spec_render_utf8(name))
}

/// The number of entries whose names are not mentioned, or the first entry
/// whose name cannot be listed.
pub open spec fn scan_entries(
    es: Seq<(Seq<u8>, Result<SupportedEntryKind, UnsupportedEntryKind>)>,
    line: usize,
    mentioned: Seq<Seq<char>>,
    at_root: bool,
) -> Result<nat, AppErrorView>
    decreases es.len(),
{
    if es.len() == 0 {
        Ok(0)
    } else {
        match scan_entries(es.drop_last(), line, mentioned, at_root) {
            Err(e) => Err(e),
            Ok(c) => {
                let raw = es.last().0;
                if !valid_utf8(raw) {
                    Err(AppErrorView::Semantic(SemanticErrorView::NonUtf8Path { line, path: spec_render_bytes(raw) }))
                } else {
                    let n = decode_utf8(raw);
                    if has_forbidden_control(n) {
                        Err(unsupported_name(line, "control-bearing"@, n))
                    } else if at_root && ((n.len() > 0 && n[0] == '\\') || spec_has_windows_drive_prefix(n)) {
                        Err(unsupported_name(line, "rooted or drive-prefixed"@, n))
                    } else if mentioned.contains(n) {
                        Ok(c)
                    } else {
                        Ok(c + 1)
                    }
                }
            },
        }
    }
}

/// A comment that is more than white space.
pub open spec fn meaningful(c: Option<Seq<char>>) -> bool {
    c matches Some(t) && spec_trim(t).len() > 0
}

/// A placeholder stands for at least one unlisted entry of its directory,
/// unless its comment describes what it stands for.
pub open spec fn placeholder_check(
    snap: Seq<(Seq<char>, ListingView)>,
    l: NavigationGuideLine,
    dir: Seq<char>,
    mentioned: Seq<Seq<char>>,
    at_root: bool,
) -> Result<(), AppErrorView> {
    match lookup(snap, dir, 0) {
        None => Err(no_listing(dir)),
        Some(ListingView::PermissionDenied) => Err(
            AppErrorView::Semantic(SemanticErrorView::PermissionDenied { line: l.line_number, path: display_dir(dir) }),
        ),
        Some(ListingView::Failed(m)) => Err(AppErrorView::Other(m)),
        Some(ListingView::Missing) => Err(no_listing(dir)),
        Some(ListingView::NotDirectory) => Err(no_listing(dir)),
        Some(ListingView::Entries(es)) => match scan_entries(es, l.line_number, mentioned, at_root) {
            Err(e) => Err(e),
            Ok(count) => if count == 0 && !meaningful(l.item.spec_comment()) {
                Err(
                    AppErrorView::Semantic(
                        SemanticErrorView::PlaceholderNoUnmentionedItems {
                            line: l.line_number,
                            parent: display_dir(dir),
                        },
                    ),
                )
            } else {
                Ok(())
            },
        },
    }
}

/// A listed line exists with its kind, and a directory's lines hold inside it.
pub open spec fn verify_item(
    snap: Seq<(Seq<char>, ListingView)>,
    res: spec_fn(Seq<char>, Seq<char>) -> bool,
    l: NavigationGuideLine,
    dir: Seq<char>,
) -> Result<
    (),
    AppErrorView,
>
    decreases l, 0int,
{
    let full = join_path(dir, l.item.spec_path());
    match walk(snap, res, l, spec_split(l.item.spec_path(), '/'), 0, dir, full) {
        Err(e) => Err(e),
        Ok(()) => match l.item {
            FilesystemItem::Directory { children, .. } => verify_items(snap, res, children@, full, false, 0),
            _ => Ok(()),
        },
    }
}

/// The lines from index `k` on, in order, in directory `dir`.
pub open spec fn verify_items(
    snap: Seq<(Seq<char>, ListingView)>,
    res: spec_fn(Seq<char>, Seq<char>) -> bool,
    ls: Seq<NavigationGuideLine>,
    dir: Seq<char>,
    at_root: bool,
    k: int,
) -> Result<(), AppErrorView>
    decreases ls, ls.len() - k,
{
    if k < 0 || k >= ls.len() {
        Ok(())
    } else {
        let r = if ls[k].item.kind() == LineKind::Placeholder {
            placeholder_check(snap, ls[k], dir, mentioned_names(ls), at_root)
        } else {
            verify_item(snap, res, ls[k], dir)
        };
        match r {
            Err(e) => Err(e),
            Ok(()) => verify_items(snap, res, ls, dir, at_root, k + 1),
        }
    }
}

/// The check of a whole guide: its syntax, then every line in order.
pub open spec fn spec_verify(
    items: Seq<NavigationGuideLine>,
    snap: Seq<(Seq<char>, ListingView)>,
    res: spec_fn(Seq<char>, Seq<char>) -> bool,
) -> Result<(), AppErrorView> {
    match spec_validate(items) {
        Some(e) => Err(AppErrorView::Syntax(e)),
        None => verify_items(snap, res, items, seq![], true, 0),
    }
}


fn lookup_exec(listings: &[DirListing], dir: &[char]) -> (r: Option<usize>)
    ensures
        match r {
            Some(i) => i < listings@.len() && lookup(snapshot_view(listings@), dir@, 0) == Some(
                listings@[i as int].listing.view(),
            ),
            None => lookup(snapshot_view(listings@), dir@, 0) is None,
        },
{
    let ghost snap = snapshot_view(listings@);
    let mut i: usize = 0;
    while i < listings.len()
        invariant
            i <= listings@.len(),
            snap == snapshot_view(listings@),
            lookup(snap, dir@, 0) == lookup(snap, dir@, i as int),
        decreases listings@.len() - i,
    {
        let key = chars_of(listings[i].directory.as_str());
        assert(snap[i as int] == (listings@[i as int].directory@, listings@[i as int].listing.view()));
        if chars_eq(key.as_slice(), dir) {
            return Some(i);
        }
        i = i + 1;
    }
    None
}

fn chars_eq(a: &[char], b: &[char]) -> (r: bool)
    ensures
        r == (a@ == b@),
{
    if a.len() != b.len() {
        return false;
    }
    let mut i: usize = 0;
    while i < a.len()
        invariant
            i <= a@.len(),
            a@.len() == b@.len(),
            forall|j: int| 0 <= j < i ==> a@[j] == b@[j],
        decreases a@.len() - i,
    {
        if a[i] != b[i] {
            return false;
        }
        i = i + 1;
    }
    assert(a@ =~= b@);
    true
}

fn find_entry_exec(es: &[DirEntry], name: &[char]) -> (r: Option<Result<SupportedEntryKind, UnsupportedEntryKind>>)
    ensures
        r == find_entry(entry_views(es@), name@, 0),
{
    let ghost ev = entry_views(es@);
    let mut i: usize = 0;
    while i < es.len()
        invariant
            i <= es@.len(),
            ev == entry_views(es@),
            find_entry(ev, name@, 0) == find_entry(ev, name@, i as int),
        decreases es@.len() - i,
    {
        assert(ev[i as int] == (es@[i as int].name@, es@[i as int].kind));
        match utf8_to_str(es[i].name.as_slice()) {
            Some(text) => {
                let chars = chars_of(text);
                if chars_eq(chars.as_slice(), name) {
                    return Some(es[i].kind);
                }
            },
            None => {},
        }
        i = i + 1;
    }
    None
}

fn push_dir_display(s: &mut String, dir: &[char])
    ensures
        final(s)@ == old(s)@ + display_dir(dir@),
{
    if dir.len() == 0 {
        s.push('.');
    } else {
        push_all(s, dir);
    }
}

fn resolves_exec(listings: &[DirListing], dir: &[char], name: &[char]) -> (r: bool)
    ensures
        r == host_resolves(listings@, dir@, name@),
{
    let mut i: usize = 0;
    while i < listings.len()
        invariant
            i <= listings@.len(),
            forall|a: int, b: int|
                0 <= a < i && 0 <= b < listings@[a].resolved@.len() ==> !((#[trigger] listings@[a]).directory@ == dir@
                    && (#[trigger] listings@[a].resolved@[b])@ == name@),
        decreases listings@.len() - i,
    {
        let d = chars_of(listings[i].directory.as_str());
        if chars_eq(d.as_slice(), dir) {
            let mut j: usize = 0;
            while j < listings[i].resolved.len()
                invariant
                    i < listings@.len(),
                    j <= listings@[i as int].resolved@.len(),
                    listings@[i as int].directory@ == dir@,
                    forall|b: int| 0 <= b < j ==> (#[trigger] listings@[i as int].resolved@[b])@ != name@,
                decreases listings@[i as int].resolved@.len() - j,
            {
                let n = chars_of(listings[i].resolved[j].as_str());
                if chars_eq(n.as_slice(), name) {
                    assert(listings@[i as int].resolved@[j as int]@ == name@);
                    return true;
                }
                j = j + 1;
            }
        }
        i = i + 1;
    }
    false
}

fn alias_error_exec(l: &NavigationGuideLine, name: &[char], dir: &[char]) -> (e: AppError)
    ensures
        e.view() == alias_error(*l, name@, dir@),
{
    let mut s = String::new();
    push_str(&mut s, "line ");
    push_decimal(&mut s, l.line_number);
    push_str(&mut s, ": requested name ");
    push_all(&mut s, name);
    push_str(&mut s, " is not the exact filesystem name of an entry of ");
    push_dir_display(&mut s, dir);
    push_str(&mut s, "; the host resolves it to a differently spelled entry");
    assert(s@ =~= line_prefix(l.line_number) + "requested name "@ + name@ + " is not the exact filesystem name of an entry of "@
        + display_dir(dir@) + "; the host resolves it to a differently spelled entry"@) by {
        reveal_strlit("line ");
        reveal_strlit(": requested name ");
        reveal_strlit("requested name ");
        reveal_strlit(": ");
    }
    AppError::Other(s)
}

fn no_listing_exec(dir: &[char]) -> (e: AppError)
    ensures
        e.view() == no_listing(dir@),
{
    let mut s = String::new();
    push_str(&mut s, "directory ");
    push_dir_display(&mut s, dir);
    push_str(&mut s, " was not read");
    AppError::Other(s)
}

fn kind_text_exec(k: Result<SupportedEntryKind, UnsupportedEntryKind>) -> (s: String)
    ensures
        s@ == kind_text(k),
{
    match k {
        Ok(SupportedEntryKind::RegularFile) => "file".to_owned(),
        Ok(SupportedEntryKind::Directory) => "directory".to_owned(),
        Err(u) => u.description(),
    }
}

fn not_found_exec(l: &NavigationGuideLine, full: &[char]) -> (e: AppError)
    ensures
        e.view() == not_found(*l, full@),
{
    let item_type = match &l.item {
        FilesystemItem::File { .. } => "file".to_owned(),
        FilesystemItem::Directory { .. } => "directory".to_owned(),
        FilesystemItem::Placeholder { .. } => "placeholder".to_owned(),
    };
    AppError::Semantic(
        SemanticError::ItemNotFound {
            line: l.line_number,
            item_type,
            path: l.path().to_owned(),
            full_path: string_of(full),
        },
    )
}

fn join_exec(dir: &[char], p: &[char]) -> (r: Vec<char>)
    ensures
        r@ == join_path(dir@, p@),
{
    let mut r: Vec<char> = Vec::new();
    let mut i: usize = 0;
    while i < dir.len()
        invariant
            i <= dir@.len(),
            r@ == dir@.take(i as int),
        decreases dir@.len() - i,
    {
        r.push(dir[i]);
        i = i + 1;
        assert(dir@.take(i as int) =~= dir@.take(i - 1).push(dir@[i - 1]));
    }
    assert(dir@.take(dir@.len() as int) =~= dir@);
    if dir.len() > 0 {
        r.push('/');
    }
    let ghost base = r@;
    let mut j: usize = 0;
    while j < p.len()
        invariant
            j <= p@.len(),
            r@ == base + p@.take(j as int),
        decreases p@.len() - j,
    {
        r.push(p[j]);
        j = j + 1;
        assert(p@.take(j as int) =~= p@.take(j - 1).push(p@[j - 1]));
    }
    assert(p@.take(p@.len() as int) =~= p@);
    r
}

fn walk_exec(
    listings: &[DirListing],
    l: &NavigationGuideLine,
    comps: &Vec<Vec<char>>,
    start: Vec<char>,
    full: &[char],
) -> (r: Result<(), AppError>)
    ensures
        match r {
            Ok(()) => walk(snapshot_view(listings@), resolver(listings@), *l, comps@.map_values(|c: Vec<char>| c@), 0, start@, full@) is Ok,
            Err(e) => walk(snapshot_view(listings@), resolver(listings@), *l, comps@.map_values(|c: Vec<char>| c@), 0, start@, full@) == Err::<(), AppErrorView>(e.view()),
        },
{
    let ghost snap = snapshot_view(listings@);
    let ghost cs = comps@.map_values(|c: Vec<char>| c@);
    let mut dir = start;
    let mut j: usize = 0;
    while j < comps.len()
        invariant
            j <= comps@.len(),
            snap == snapshot_view(listings@),
            cs == comps@.map_values(|c: Vec<char>| c@),
            walk(snap, resolver(listings@), *l, cs, 0, start@, full@) == walk(snap, resolver(listings@), *l, cs, j as int, dir@, full@),
        decreases comps@.len() - j,
    {
        assert(cs[j as int] == comps@[j as int]@);
        let idx = match lookup_exec(listings, dir.as_slice()) {
            None => {
                return Err(no_listing_exec(dir.as_slice()));
            },
            Some(i) => i,
        };
        match &listings[idx].listing {
            Listing::PermissionDenied => {
                return Err(AppError::Semantic(SemanticError::PermissionDenied { line: l.line_number, path: l.path().to_owned() }));
            },
            Listing::Failed(m) => {
                return Err(AppError::Other(m.clone()));
            },
            Listing::Missing => {
                return Err(not_found_exec(l, full));
            },
            Listing::NotDirectory => {
                return Err(not_found_exec(l, full));
            },
            Listing::Entries(es) => {
                let none: Vec<Vec<char>> = Vec::new();
                assert(name_views(none@) =~= Seq::<Seq<char>>::empty());
                scan_exec(es.as_slice(), l.line_number, &none, dir.len() == 0)?;
                let kind = match find_entry_exec(es.as_slice(), comps[j].as_slice()) {
                    None => {
                        if resolves_exec(listings, dir.as_slice(), comps[j].as_slice()) {
                            return Err(alias_error_exec(l, comps[j].as_slice(), dir.as_slice()));
                        }
                        return Err(not_found_exec(l, full));
                    },
                    Some(k) => k,
                };
                if j + 1 < comps.len() {
                    match kind {
                        Ok(SupportedEntryKind::Directory) => {
                            dir = join_exec(dir.as_slice(), comps[j].as_slice());
                        },
                        _ => {
                            return Err(not_found_exec(l, full));
                        },
                    }
                } else {
                    let expected = if l.is_directory() {
                        SupportedEntryKind::Directory
                    } else {
                        SupportedEntryKind::RegularFile
                    };
                    let matches = match (kind, expected) {
                        (Ok(SupportedEntryKind::Directory), SupportedEntryKind::Directory) => true,
                        (Ok(SupportedEntryKind::RegularFile), SupportedEntryKind::RegularFile) => true,
                        _ => false,
                    };
                    if matches {
                        return Ok(());
                    }
                    return Err(
                        AppError::Semantic(
                            SemanticError::TypeMismatch {
                                line: l.line_number,
                                expected: kind_text_exec(Ok(expected)),
                                found: kind_text_exec(kind),
                                path: l.path().to_owned(),
                            },
                        ),
                    );
                }
            },
        }
        j = j + 1;
    }
    Ok(())
}


pub open spec fn name_views(v: Seq<Vec<char>>) -> Seq<Seq<char>> {
    v.map_values(|n: Vec<char>| n@)
}

fn first_component(path: &[char]) -> (r: Vec<char>)
    ensures
        r@ == spec_split(path@, '/')[0],
{
    let pieces = split_on(path, '/');
    assert(spec_split(path@, '/').len() > 0);
    let mut pieces = pieces;
    pieces.swap_remove(0)
}

fn mentioned_exec(ls: &[NavigationGuideLine]) -> (r: Vec<Vec<char>>)
    ensures
        name_views(r@) == mentioned_names(ls@),
{
    let mut out: Vec<Vec<char>> = Vec::new();
    let mut k: usize = 0;
    assert(ls@.take(0) =~= Seq::<NavigationGuideLine>::empty());
    assert(name_views(out@) =~= Seq::<Seq<char>>::empty());
    while k < ls.len()
        invariant
            k <= ls@.len(),
            name_views(out@) == mentioned_names(ls@.take(k as int)),
        decreases ls@.len() - k,
    {
        assert(ls@.take(k + 1).drop_last() =~= ls@.take(k as int));
        assert(ls@.take(k + 1).last() == ls@[k as int]);
        if !ls[k].is_placeholder() {
            let p = chars_of(ls[k].path());
            let f = first_component(p.as_slice());
            let ghost before = out@;
            let ghost fv = f@;
            out.push(f);
            assert(name_views(out@) =~= name_views(before).push(fv));
        }
        k = k + 1;
    }
    assert(ls@.take(ls@.len() as int) =~= ls@);
    out
}

fn contains_name(names: &Vec<Vec<char>>, n: &[char]) -> (r: bool)
    ensures
        r == name_views(names@).contains(n@),
{
    let mut i: usize = 0;
    while i < names.len()
        invariant
            i <= names@.len(),
            forall|j: int| 0 <= j < i ==> (#[trigger] names@[j])@ != n@,
        decreases names@.len() - i,
    {
        if chars_eq(names[i].as_slice(), n) {
            assert(name_views(names@)[i as int] == n@);
            return true;
        }
        i = i + 1;
    }
    assert forall|j: int| 0 <= j < name_views(names@).len() implies name_views(names@)[j] != n@ by {
        assert(name_views(names@)[j] == names@[j]@);
    }
    false
}

fn unsupported_name_exec(line: usize, what: &str, name: &[char]) -> (e: AppError)
    ensures
        e.view() == unsupported_name(line, what@, name@),
{
    let mut s = String::new();
    push_str(&mut s, "line ");
    push_decimal(&mut s, line);
    push_str(&mut s, ": unsupported ");
    push_str(&mut s, what);
    push_str(&mut s, " filesystem name ");
    let r = render_utf8_chars(name);
    push_str(&mut s, r.as_str());
    assert(s@ =~= line_prefix(line) + "unsupported "@ + what@ + " filesystem name "@ + spec_render_utf8(name@)) by {
        reveal_strlit("line ");
        reveal_strlit(": unsupported ");
        reveal_strlit("unsupported ");
        reveal_strlit(": ");
    }
    AppError::Other(s)
}

fn scan_exec(es: &[DirEntry], line: usize, mentioned: &Vec<Vec<char>>, at_root: bool) -> (r: Result<usize, AppError>)
    ensures
        match r {
            Ok(c) => scan_entries(entry_views(es@), line, name_views(mentioned@), at_root) == Ok::<nat, AppErrorView>(c as nat),
            Err(e) => scan_entries(entry_views(es@), line, name_views(mentioned@), at_root) == Err::<nat, AppErrorView>(e.view()),
        },
{
    let ghost ev = entry_views(es@);
    let ghost mv = name_views(mentioned@);
    let mut count: usize = 0;
    let mut k: usize = 0;
    assert(ev.take(0) =~= Seq::<(Seq<u8>, Result<SupportedEntryKind, UnsupportedEntryKind>)>::empty());
    while k < es.len()
        invariant
            k <= es@.len(),
            count <= k,
            ev == entry_views(es@),
            mv == name_views(mentioned@),
            scan_entries(ev.take(k as int), line, mv, at_root) == Ok::<nat, AppErrorView>(count as nat),
        decreases es@.len() - k,
    {
        assert(ev.take(k + 1).drop_last() =~= ev.take(k as int));
        assert(ev.take(k + 1).last() == ev[k as int]);
        assert(ev[k as int] == (es@[k as int].name@, es@[k as int].kind));
        let raw = es[k].name.as_slice();
        let text = match utf8_to_str(raw) {
            None => {
                proof {
                    lemma_scan_failed(ev, line, mv, at_root, k + 1);
                }
                return Err(AppError::Semantic(SemanticError::NonUtf8Path { line, path: render_bytes_component(raw) }));
            },
            Some(t) => t,
        };
        let n = chars_of(text);
        if chars_contain_forbidden_control(n.as_slice()) {
            proof {
                lemma_scan_failed(ev, line, mv, at_root, k + 1);
            }
            return Err(unsupported_name_exec(line, "control-bearing", n.as_slice()));
        }
        if at_root && ((n.len() > 0 && n[0] == '\\') || chars_have_windows_drive_prefix(n.as_slice())) {
            proof {
                lemma_scan_failed(ev, line, mv, at_root, k + 1);
            }
            return Err(unsupported_name_exec(line, "rooted or drive-prefixed", n.as_slice()));
        }
        if !contains_name(mentioned, n.as_slice()) {
            count = count + 1;
        }
        k = k + 1;
    }
    assert(ev.take(es@.len() as int) =~= ev);
    Ok(count)
}

proof fn lemma_scan_failed(
    es: Seq<(Seq<u8>, Result<SupportedEntryKind, UnsupportedEntryKind>)>,
    line: usize,
    mentioned: Seq<Seq<char>>,
    at_root: bool,
    k: int,
)
    requires
        0 <= k <= es.len(),
        scan_entries(es.take(k), line, mentioned, at_root) is Err,
    ensures
        scan_entries(es, line, mentioned, at_root) == scan_entries(es.take(k), line, mentioned, at_root),
    decreases es.len() - k,
{
    if k < es.len() {
        assert(es.take(k + 1).drop_last() =~= es.take(k));
        lemma_scan_failed(es, line, mentioned, at_root, k + 1);
    } else {
        assert(es.take(k) =~= es);
    }
}

fn meaningful_exec(c: Option<&str>) -> (r: bool)
    ensures
        r == meaningful(match c {
            Some(t) => Some(t@),
            None => None,
        }),
{
    match c {
        Some(t) => {
            let chars = chars_of(t);
            let trimmed = trim_white(chars.as_slice());
            trimmed.len() > 0
        },
        None => false,
    }
}

fn placeholder_exec(
    listings: &[DirListing],
    l: &NavigationGuideLine,
    dir: &[char],
    mentioned: &Vec<Vec<char>>,
    at_root: bool,
) -> (r: Result<(), AppError>)
    ensures
        match r {
            Ok(()) => placeholder_check(snapshot_view(listings@), *l, dir@, name_views(mentioned@), at_root) is Ok,
            Err(e) => placeholder_check(snapshot_view(listings@), *l, dir@, name_views(mentioned@), at_root) == Err::<(), AppErrorView>(e.view()),
        },
{
    let idx = match lookup_exec(listings, dir) {
        None => {
            return Err(no_listing_exec(dir));
        },
        Some(i) => i,
    };
    match &listings[idx].listing {
        Listing::PermissionDenied => {
            let mut s = String::new();
            push_dir_display(&mut s, dir);
            Err(AppError::Semantic(SemanticError::PermissionDenied { line: l.line_number, path: s }))
        },
        Listing::Failed(m) => Err(AppError::Other(m.clone())),
        Listing::Missing => Err(no_listing_exec(dir)),
        Listing::NotDirectory => Err(no_listing_exec(dir)),
        Listing::Entries(es) => {
            let count = scan_exec(es.as_slice(), l.line_number, mentioned, at_root)?;
            if count == 0 && !meaningful_exec(l.comment()) {
                let mut s = String::new();
                push_dir_display(&mut s, dir);
                return Err(
                    AppError::Semantic(SemanticError::PlaceholderNoUnmentionedItems { line: l.line_number, parent: s }),
                );
            }
            Ok(())
        },
    }
}


fn verify_item_exec(listings: &[DirListing], l: &NavigationGuideLine, dir: &[char]) -> (r: Result<(), AppError>)
    ensures
        match r {
            Ok(()) => verify_item(snapshot_view(listings@), resolver(listings@), *l, dir@) is Ok,
            Err(e) => verify_item(snapshot_view(listings@), resolver(listings@), *l, dir@) == Err::<(), AppErrorView>(e.view()),
        },
    decreases *l, 0int,
{
    let p = chars_of(l.path());
    let full = join_exec(dir, p.as_slice());
    let comps = split_on(p.as_slice(), '/');
    proof {
        assert(comps@.map_values(|c: Vec<char>| c@) =~= spec_split(p@, '/'));
    }
    let start = subrange(dir, 0, dir.len());
    assert(start@ =~= dir@);
    walk_exec(listings, l, &comps, start, full.as_slice())?;
    match &l.item {
        FilesystemItem::Directory { children, .. } => verify_items_exec(listings, children.as_slice(), full.as_slice(), false),
        _ => Ok(()),
    }
}

fn verify_items_exec(listings: &[DirListing], ls: &[NavigationGuideLine], dir: &[char], at_root: bool) -> (r: Result<
    (),
    AppError,
>)
    ensures
        match r {
            Ok(()) => verify_items(snapshot_view(listings@), resolver(listings@), ls@, dir@, at_root, 0) is Ok,
            Err(e) => verify_items(snapshot_view(listings@), resolver(listings@), ls@, dir@, at_root, 0) == Err::<(), AppErrorView>(e.view()),
        },
    decreases ls@, ls@.len(),
{
    let mentioned = mentioned_exec(ls);
    let mut k: usize = 0;
    while k < ls.len()
        invariant
            k <= ls@.len(),
            name_views(mentioned@) == mentioned_names(ls@),
            verify_items(snapshot_view(listings@), resolver(listings@), ls@, dir@, at_root, 0) == verify_items(
                snapshot_view(listings@),
                resolver(listings@),
                ls@,
                dir@,
                at_root,
                k as int,
            ),
        decreases ls@.len() - k,
    {
        let l = &ls[k];
        if l.is_placeholder() {
            placeholder_exec(listings, l, dir, &mentioned, at_root)?;
        } else {
            verify_item_exec(listings, l, dir)?;
        }
        k = k + 1;
    }
    Ok(())
}

// ---------------------------------------------------------------------------
// What a successful check says of each line

/// The directory reached from `dir` through the first `j` components.
pub open spec fn dir_after(dir: Seq<char>, comps: Seq<Seq<char>>, j: int) -> Seq<char>
    decreases j,
{
    if j <= 0 {
        dir
    } else {
        join_path(dir_after(dir, comps, j - 1), comps[j - 1])
    }
}

/// The kind that the listing of directory `dir` gives the entry named
/// exactly `name`, if it lists one.
pub open spec fn entry_kind_at(snap: Seq<(Seq<char>, ListingView)>, dir: Seq<char>, name: Seq<char>) -> Option<
    Result<SupportedEntryKind, UnsupportedEntryKind>,
> {
    match lookup(snap, dir, 0) {
        Some(ListingView::Entries(es)) => find_entry(es, name, 0),
        _ => None,
    }
}

/// The kind a line names: a directory for a line ending in `/`, a regular
/// file otherwise.
pub open spec fn listed_kind(l: NavigationGuideLine) -> SupportedEntryKind {
    if l.item.kind() == LineKind::Directory {
        SupportedEntryKind::Directory
    } else {
        SupportedEntryKind::RegularFile
    }
}

/// Each component of the path, followed from `dir`, is the exact name of an
/// entry of its directory: a directory for every inner component, and an
/// entry of kind `last` for the final one.
pub open spec fn path_found(
    snap: Seq<(Seq<char>, ListingView)>,
    dir: Seq<char>,
    comps: Seq<Seq<char>>,
    last: SupportedEntryKind,
) -> bool {
    forall|j: int|
        0 <= j < comps.len() ==> #[trigger] entry_kind_at(snap, dir_after(dir, comps, j), comps[j]) == Some(
            Ok::<SupportedEntryKind, UnsupportedEntryKind>(
                if j + 1 < comps.len() {
                    SupportedEntryKind::Directory
                } else {
                    last
                },
            ),
        )
}

proof fn lemma_walk_found(
    snap: Seq<(Seq<char>, ListingView)>,
    res: spec_fn(Seq<char>, Seq<char>) -> bool,
    l: NavigationGuideLine,
    comps: Seq<Seq<char>>,
    j: int,
    base: Seq<char>,
    full: Seq<char>,
)
    requires
        0 <= j,
        walk(snap, res, l, comps, j, dir_after(base, comps, j), full) is Ok,
    ensures
        forall|i: int|
            j <= i < comps.len() ==> #[trigger] entry_kind_at(snap, dir_after(base, comps, i), comps[i]) == Some(
                Ok::<SupportedEntryKind, UnsupportedEntryKind>(
                    if i + 1 < comps.len() {
                        SupportedEntryKind::Directory
                    } else {
                        listed_kind(l)
                    },
                ),
            ),
    decreases comps.len() - j,
{
    if j < comps.len() {
        let d = dir_after(base, comps, j);
        assert(dir_after(base, comps, j + 1) == join_path(d, comps[j]));
        if j + 1 < comps.len() {
            lemma_walk_found(snap, res, l, comps, j + 1, base, full);
        }
    }
}

proof fn lemma_items_ok_at(
    snap: Seq<(Seq<char>, ListingView)>,
    res: spec_fn(Seq<char>, Seq<char>) -> bool,
    ls: Seq<NavigationGuideLine>,
    dir: Seq<char>,
    at_root: bool,
    k0: int,
    k: int,
)
    requires
        0 <= k0 <= k < ls.len(),
        verify_items(snap, res, ls, dir, at_root, k0) is Ok,
    ensures
        ls[k].item.kind() != LineKind::Placeholder ==> verify_item(snap, res, ls[k], dir) is Ok,
    decreases k - k0,
{
    if k0 < k {
        lemma_items_ok_at(snap, res, ls, dir, at_root, k0 + 1, k);
    }
}

/// When a check succeeds, every file or directory line names, component by
/// component from its directory, entries that exist under exactly those
/// names: directories for the inner components, and for the last one a
/// directory if the line ends in `/` and a regular file otherwise; and the
/// lines below a directory line check successfully inside it.
pub proof fn law_verified_lines_name_entries_of_their_kind(
    snap: Seq<(Seq<char>, ListingView)>,
    res: spec_fn(Seq<char>, Seq<char>) -> bool,
    ls: Seq<NavigationGuideLine>,
    dir: Seq<char>,
    at_root: bool,
)
    requires
        verify_items(snap, res, ls, dir, at_root, 0) is Ok,
    ensures
        forall|k: int|
            0 <= k < ls.len() && (#[trigger] ls[k]).item.kind() != LineKind::Placeholder ==> path_found(
                snap,
                dir,
                spec_split(ls[k].item.spec_path(), '/'),
                listed_kind(ls[k]),
            ) && (ls[k].item.kind() == LineKind::Directory ==> verify_items(
                snap,
                res,
                ls[k].item.spec_children(),
                join_path(dir, ls[k].item.spec_path()),
                false,
                0,
            ) is Ok),
{
    assert forall|k: int| 0 <= k < ls.len() && (#[trigger] ls[k]).item.kind() != LineKind::Placeholder implies path_found(
        snap,
        dir,
        spec_split(ls[k].item.spec_path(), '/'),
        listed_kind(ls[k]),
    ) && (ls[k].item.kind() == LineKind::Directory ==> verify_items(
        snap,
        res,
        ls[k].item.spec_children(),
        join_path(dir, ls[k].item.spec_path()),
        false,
        0,
    ) is Ok) by {
        lemma_items_ok_at(snap, res, ls, dir, at_root, 0, k);
        let l = ls[k];
        let comps = spec_split(l.item.spec_path(), '/');
        let full = join_path(dir, l.item.spec_path());
        assert(dir_after(dir, comps, 0) == dir);
        lemma_walk_found(snap, res, l, comps, 0, dir, full);
    }
}

/// A guide that checks successfully passes the syntax check, and every file
/// or directory line at its root names entries of exactly that kind below
/// the root.
pub proof fn law_verified_guides_name_entries_of_their_kind(
    items: Seq<NavigationGuideLine>,
    snap: Seq<(Seq<char>, ListingView)>,
    res: spec_fn(Seq<char>, Seq<char>) -> bool,
)
    requires
        spec_verify(items, snap, res) is Ok,
    ensures
        spec_validate(items) is None,
        forall|k: int|
            0 <= k < items.len() && (#[trigger] items[k]).item.kind() != LineKind::Placeholder ==> path_found(
                snap,
                seq![],
                spec_split(items[k].item.spec_path(), '/'),
                listed_kind(items[k]),
            ),
{
    law_verified_lines_name_entries_of_their_kind(snap, res, items, seq![], true);
}

// ---------------------------------------------------------------------------
// The directories a check reads

/// The directories a walk of `comps[j..]` from `dir` consults.
pub open spec fn walk_dirs(comps: Seq<Seq<char>>, j: int, dir: Seq<char>) -> Seq<Seq<char>>
    decreases comps.len() - j,
{
    if j < 0 || j >= comps.len() {
        seq![]
    } else {
        seq![dir] + walk_dirs(comps, j + 1, join_path(dir, comps[j]))
    }
}

pub open spec fn consulted_item(l: NavigationGuideLine, dir: Seq<char>) -> Seq<Seq<char>>
    decreases l, 0int,
{
    let full = join_path(dir, l.item.spec_path());
    let own = walk_dirs(spec_split(l.item.spec_path(), '/'), 0, dir);
    match l.item {
        FilesystemItem::Directory { children, .. } => own + consulted_items(children@, full, 0),
        _ => own,
    }
}

/// The directories the check of the lines from index `k` on consults, in order.
pub open spec fn consulted_items(ls: Seq<NavigationGuideLine>, dir: Seq<char>, k: int) -> Seq<Seq<char>>
    decreases ls, ls.len() - k,
{
    if k < 0 || k >= ls.len() {
        seq![]
    } else {
        let own = if ls[k].item.kind() == LineKind::Placeholder {
            seq![dir]
        } else {
            consulted_item(ls[k], dir)
        };
        own + consulted_items(ls, dir, k + 1)
    }
}

pub open spec fn string_views(v: Seq<String>) -> Seq<Seq<char>> {
    v.map_values(|s: String| s@)
}

fn walk_dirs_exec(comps: &Vec<Vec<char>>, start: Vec<char>, out: &mut Vec<String>)
    ensures
        string_views(final(out)@) == string_views(old(out)@) + walk_dirs(comps@.map_values(|c: Vec<char>| c@), 0, start@),
{
    let ghost cs = comps@.map_values(|c: Vec<char>| c@);
    let ghost base = string_views(out@);
    let mut dir = start;
    let mut j: usize = 0;
    while j < comps.len()
        invariant
            j <= comps@.len(),
            cs == comps@.map_values(|c: Vec<char>| c@),
            base + walk_dirs(cs, 0, start@) == string_views(out@) + walk_dirs(cs, j as int, dir@),
        decreases comps@.len() - j,
    {
        assert(cs[j as int] == comps@[j as int]@);
        let ghost before = string_views(out@);
        let ghost dv = dir@;
        out.push(string_of(dir.as_slice()));
        assert(string_views(out@) =~= before.push(dv));
        dir = join_exec(dir.as_slice(), comps[j].as_slice());
        assert(walk_dirs(cs, j as int, dv) =~= seq![dv] + walk_dirs(cs, j + 1, dir@));
        j = j + 1;
    }
    assert(walk_dirs(cs, j as int, dir@) =~= Seq::<Seq<char>>::empty());
}

fn consulted_item_exec(l: &NavigationGuideLine, dir: &[char], out: &mut Vec<String>)
    ensures
        string_views(final(out)@) == string_views(old(out)@) + consulted_item(*l, dir@),
    decreases *l, 0int,
{
    let p = chars_of(l.path());
    let full = join_exec(dir, p.as_slice());
    let comps = split_on(p.as_slice(), '/');
    proof {
        assert(comps@.map_values(|c: Vec<char>| c@) =~= spec_split(p@, '/'));
    }
    let start = subrange(dir, 0, dir.len());
    assert(start@ =~= dir@);
    let ghost base = string_views(out@);
    walk_dirs_exec(&comps, start, out);
    match &l.item {
        FilesystemItem::Directory { children, .. } => {
            let ghost mid = string_views(out@);
            consulted_items_exec(children.as_slice(), full.as_slice(), out);
            assert(string_views(out@) =~= base + consulted_item(*l, dir@));
        },
        _ => {},
    }
}

fn consulted_items_exec(ls: &[NavigationGuideLine], dir: &[char], out: &mut Vec<String>)
    ensures
        string_views(final(out)@) == string_views(old(out)@) + consulted_items(ls@, dir@, 0),
    decreases ls@, ls@.len(),
{
    let ghost base = string_views(out@);
    let mut k: usize = 0;
    while k < ls.len()
        invariant
            k <= ls@.len(),
            base + consulted_items(ls@, dir@, 0) == string_views(out@) + consulted_items(ls@, dir@, k as int),
        decreases ls@.len() - k,
    {
        let l = &ls[k];
        let ghost before = string_views(out@);
        if l.is_placeholder() {
            out.push(string_of(dir));
            assert(string_views(out@) =~= before.push(dir@));
            assert(consulted_items(ls@, dir@, k as int) =~= seq![dir@] + consulted_items(ls@, dir@, k + 1));
        } else {
            consulted_item_exec(l, dir, out);
            assert(consulted_items(ls@, dir@, k as int) =~= consulted_item(ls@[k as int], dir@) + consulted_items(ls@, dir@, k + 1));
        }
        k = k + 1;
    }
    assert(consulted_items(ls@, dir@, k as int) =~= Seq::<Seq<char>>::empty());
}

// ---------------------------------------------------------------------------
// The names a check looks up

/// The names a walk of `comps[j..]` from `dir` looks up, each with its directory.
pub open spec fn walk_names(comps: Seq<Seq<char>>, j: int, dir: Seq<char>) -> Seq<(Seq<char>, Seq<char>)>
    decreases comps.len() - j,
{
    if j < 0 || j >= comps.len() {
        seq![]
    } else {
        seq![(dir, comps[j])] + walk_names(comps, j + 1, join_path(dir, comps[j]))
    }
}

pub open spec fn requested_item(l: NavigationGuideLine, dir: Seq<char>) -> Seq<(Seq<char>, Seq<char>)>
    decreases l, 0int,
{
    let full = join_path(dir, l.item.spec_path());
    let own = walk_names(spec_split(l.item.spec_path(), '/'), 0, dir);
    match l.item {
        FilesystemItem::Directory { children, .. } => own + requested_items(children@, full, 0),
        _ => own,
    }
}

/// The names the check of the lines from index `k` on looks up, in order.
pub open spec fn requested_items(ls: Seq<NavigationGuideLine>, dir: Seq<char>, k: int) -> Seq<(Seq<char>, Seq<char>)>
    decreases ls, ls.len() - k,
{
    if k < 0 || k >= ls.len() {
        seq![]
    } else {
        let own = if ls[k].item.kind() == LineKind::Placeholder {
            seq![]
        } else {
            requested_item(ls[k], dir)
        };
        own + requested_items(ls, dir, k + 1)
    }
}

pub open spec fn pair_views(v: Seq<(String, String)>) -> Seq<(Seq<char>, Seq<char>)> {
    v.map_values(|p: (String, String)| (p.0@, p.1@))
}

fn walk_names_exec(comps: &Vec<Vec<char>>, start: Vec<char>, out: &mut Vec<(String, String)>)
    ensures
        pair_views(final(out)@) == pair_views(old(out)@) + walk_names(comps@.map_values(|c: Vec<char>| c@), 0, start@),
{
    let ghost cs = comps@.map_values(|c: Vec<char>| c@);
    let ghost base = pair_views(out@);
    let mut dir = start;
    let mut j: usize = 0;
    while j < comps.len()
        invariant
            j <= comps@.len(),
            cs == comps@.map_values(|c: Vec<char>| c@),
            base + walk_names(cs, 0, start@) == pair_views(out@) + walk_names(cs, j as int, dir@),
        decreases comps@.len() - j,
    {
        assert(cs[j as int] == comps@[j as int]@);
        let ghost before = pair_views(out@);
        let ghost dv = dir@;
        out.push((string_of(dir.as_slice()), string_of(comps[j].as_slice())));
        assert(pair_views(out@) =~= before.push((dv, cs[j as int])));
        dir = join_exec(dir.as_slice(), comps[j].as_slice());
        assert(walk_names(cs, j as int, dv) =~= seq![(dv, cs[j as int])] + walk_names(cs, j + 1, dir@));
        j = j + 1;
    }
    assert(walk_names(cs, j as int, dir@) =~= Seq::<(Seq<char>, Seq<char>)>::empty());
}

fn requested_item_exec(l: &NavigationGuideLine, dir: &[char], out: &mut Vec<(String, String)>)
    ensures
        pair_views(final(out)@) == pair_views(old(out)@) + requested_item(*l, dir@),
    decreases *l, 0int,
{
    let p = chars_of(l.path());
    let full = join_exec(dir, p.as_slice());
    let comps = split_on(p.as_slice(), '/');
    proof {
        assert(comps@.map_values(|c: Vec<char>| c@) =~= spec_split(p@, '/'));
    }
    let start = subrange(dir, 0, dir.len());
    assert(start@ =~= dir@);
    let ghost base = pair_views(out@);
    walk_names_exec(&comps, start, out);
    match &l.item {
        FilesystemItem::Directory { children, .. } => {
            requested_items_exec(children.as_slice(), full.as_slice(), out);
            assert(pair_views(out@) =~= base + requested_item(*l, dir@));
        },
        _ => {},
    }
}

fn requested_items_exec(ls: &[NavigationGuideLine], dir: &[char], out: &mut Vec<(String, String)>)
    ensures
        pair_views(final(out)@) == pair_views(old(out)@) + requested_items(ls@, dir@, 0),
    decreases ls@, ls@.len(),
{
    let ghost base = pair_views(out@);
    let mut k: usize = 0;
    while k < ls.len()
        invariant
            k <= ls@.len(),
            base + requested_items(ls@, dir@, 0) == pair_views(out@) + requested_items(ls@, dir@, k as int),
        decreases ls@.len() - k,
    {
        let l = &ls[k];
        if l.is_placeholder() {
            assert(requested_items(ls@, dir@, k as int) =~= requested_items(ls@, dir@, k + 1));
        } else {
            requested_item_exec(l, dir, out);
            assert(requested_items(ls@, dir@, k as int) =~= requested_item(ls@[k as int], dir@) + requested_items(ls@, dir@, k + 1));
        }
        k = k + 1;
    }
    assert(requested_items(ls@, dir@, k as int) =~= Seq::<(Seq<char>, Seq<char>)>::empty());
}

/// Verifier for navigation guides against filesystem
pub struct Verifier {
    /// Root path for verification
    root_path: std::path::PathBuf,
}

impl Verifier {
    /// The root that guide paths are relative to.
    pub closed spec fn spec_root_path(&self) -> std::path::PathBuf {
        self.root_path
    }

    /// Create a new verifier with the given root path
    pub fn new(root_path: std::path::PathBuf) -> (v: Self)
        ensures
            v.spec_root_path() == root_path,
    {
        Verifier { root_path }
    }

    /// The root that guide paths are relative to.
    pub fn root_path(&self) -> (r: &std::path::PathBuf)
        ensures
            *r == self.spec_root_path(),
    {
        &self.root_path
    }

    /// The root-relative directories (`""` is the root) whose listings a
    /// check of `guide` consults, in the order it consults them.
    pub fn directories_to_read(guide: &NavigationGuide) -> (r: Vec<String>)
        ensures
            string_views(r@) == seq![Seq::<char>::empty()] + consulted_items(guide.items@, seq![], 0),
    {
        let mut out: Vec<String> = Vec::new();
        out.push(String::new());
        assert(string_views(out@) =~= seq![Seq::<char>::empty()]);
        let root: Vec<char> = Vec::new();
        consulted_items_exec(guide.items.as_slice(), root.as_slice(), &mut out);
        out
    }

    /// The names a check of `guide` looks up, each with its root-relative
    /// directory, in the order it looks them up: those whose resolution by
    /// the host the listings report.
    pub fn names_to_probe(guide: &NavigationGuide) -> (r: Vec<(String, String)>)
        ensures
            pair_views(r@) == requested_items(guide.items@, seq![], 0),
    {
        let mut out: Vec<(String, String)> = Vec::new();
        assert(pair_views(out@) =~= Seq::<(Seq<char>, Seq<char>)>::empty());
        let root: Vec<char> = Vec::new();
        requested_items_exec(guide.items.as_slice(), root.as_slice(), &mut out);
        assert(pair_views(out@) =~= requested_items(guide.items@, seq![], 0));
        out
    }

    /// Verify a navigation guide against the listings of its directories
    pub fn verify(&self, guide: &NavigationGuide, listings: &[DirListing]) -> (r: Result<(), AppError>)
        ensures
            match r {
                Ok(()) => spec_verify(guide.items@, snapshot_view(listings@), resolver(listings@)) is Ok,
                Err(e) => spec_verify(guide.items@, snapshot_view(listings@), resolver(listings@)) == Err::<(), AppErrorView>(e.view()),
            },
    {
        match Validator::new().validate_syntax(guide) {
            Err(AppError::Syntax(e)) => {
                return Err(AppError::Syntax(e));
            },
            Err(e) => {
                return Err(e);
            },
            Ok(()) => {},
        }
        let root: Vec<char> = Vec::new();
        verify_items_exec(listings, guide.items.as_slice(), root.as_slice(), true)
    }
}

} // verus!
