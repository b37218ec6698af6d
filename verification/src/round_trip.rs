//! A generated guide reads back: the list that `dump` renders for the entries
//! of a traversal is parsed into exactly those entries, in order, at their
//! depths, with their names and kinds.

use vstd::prelude::*;
use crate::lexer::{LexMode, Template, lex_run, lex_step, lex_finish, spec_lex};
use crate::parser::{
    BlockScan, GuideSpec, scan_init, scan_lines, scan_step, spec_locate, spec_parse, spec_body, marker_trim,
    opening_line, is_closing_line, is_hblank, opening_name, closing_marker, attribute_ignore,
    MAX_LOGICAL_DEPTH, all_spaces, indent_level, line_read, regex_list_item, BodyState, body_run,
    line_step, nesting_error, nests_after,
    bare_placeholder, classify, decoded, expand_prefix, expand_template, expansions, has_bare_ellipsis,
    has_edge_space, is_sep, lemma_lex_from_append, lemma_lex_run_append, lemma_plain_run,
    lemma_quoted_run, lex_from, plain_name, plain_state, protected, quoted_state, trailing_spaces,
    trimmed_comment, unmarked, law_canonical_spelling_reads_back,
};
use crate::path_codec::{concat_map, is_ellipsis, is_syntax_char, needs_quotes, quoted_char, spec_serialize_component};
use crate::errors::SyntaxErrorView;
use crate::types::{FlatLine, LineKind, FilesystemItem, NavigationGuideLine, flatten};
use crate::validator::{
    spec_validate, join_path, unique_item, unique_items,
    level_pairs, min_nonzero, first_offending, inconsistent_error,
    adjacent_from, bad_child, component_error, ends_with_slash, item_error, items_error, nest_item, nest_items,
    path_error, is_dot_component,
};
use crate::parser::well_nested;
use crate::text::{spec_split, split_state_on, spec_has_windows_drive_prefix, trim_start_by, trim_end_by, first_failing, is_blank, is_white_space, is_forbidden_control, has_forbidden_control, spec_lines, split_state, strip_cr};
use crate::guide_check::{ListingView, find_entry, lookup, scan_entries, spec_verify, verify_item, verify_items, walk};
use vstd::utf8::{decode_utf8, valid_utf8};
use crate::entry_type::{SupportedEntryKind, UnsupportedEntryKind};
use crate::dumper::{spaces, entry_line, render_entries, spec_dump, wrap_guide, text_name_error, spec_limit, TraversalLimit, select, spec_admit, spec_generate, decoded_entries, walk_shaped, pair_in_walk, chars_before, chars_before_from, plain_entry_name};
use crate::exclusion::PatternView;
use crate::errors::AppErrorView;

verus! {

// ---------------------------------------------------------------------------
// One item text

/// The characters a canonical spelling stands for, with the protection that
/// quoting gives them.
pub open spec fn canonical_marked(v: Seq<char>) -> Seq<(char, bool)> {
    if !needs_quotes(v) {
        unmarked(v)
    } else {
        protected(v)
    }
}

/// The item text of a generated entry: the canonical spelling of its name,
/// and `/` after a directory's.
pub open spec fn canonical_item(v: Seq<char>, is_dir: bool) -> Seq<char> {
    spec_serialize_component(v)->0 + if is_dir {
        seq!['/']
    } else {
        Seq::<char>::empty()
    }
}

pub open spec fn line_kind(is_dir: bool) -> LineKind {
    if is_dir {
        LineKind::Directory
    } else {
        LineKind::File
    }
}

/// The lexer state at the end of a canonical spelling: no failure, no
/// pending escape or space, no choice block, and the name as the prefix.
proof fn lemma_canonical_lex(v: Seq<char>)
    requires
        !v.contains('/'),
        spec_serialize_component(v) is Some,
    ensures
        ({
            let st = lex_run(spec_serialize_component(v)->0);
            &&& st.failed is None
            &&& !st.esc
            &&& st.pend == 0
            &&& st.block == 0
            &&& (st.mode == LexMode::Bare || st.mode == LexMode::AfterQuote)
            &&& st.prefix == canonical_marked(v)
            &&& st.suffix == Seq::<(char, bool)>::empty()
        }),
{
    assert forall|i: int| 0 <= i < v.len() implies v[i] != '/' by {
        if v[i] == '/' {
            assert(v.contains('/'));
        }
    }
    let s = spec_serialize_component(v)->0;
    if !needs_quotes(v) {
        assert(plain_name(v)) by {
            assert forall|i: int| 0 <= i < v.len() implies !is_syntax_char(#[trigger] v[i]) && v[i] != '/' by {
                if is_syntax_char(v[i]) {
                    assert(needs_quotes(v));
                }
            }
        }
        lemma_plain_run(v, v.len() as int);
        assert(v.take(v.len() as int) =~= v);
        assert(trailing_spaces(v) == 0);
        assert(v.take(v.len() - 0) =~= v);
        assert(s == v);
        assert(lex_run(s) == plain_state(v));
    } else {
        let body = concat_map(v, |c: char| quoted_char(c));
        assert(s =~= seq!['"'] + body + seq!['"']);
        lemma_lex_run_append(seq!['"'], body + seq!['"']);
        lemma_lex_from_append(lex_run(seq!['"']), body, seq!['"']);
        assert(seq!['"'].drop_last() =~= Seq::<char>::empty());
        assert(seq!['"'].last() == '"');
        reveal_with_fuel(lex_run, 2);
        let q = lex_step(crate::lexer::lex_init(), '"');
        assert(lex_run(seq!['"']) == q);
        assert(protected(Seq::<char>::empty()) =~= Seq::<(char, bool)>::empty());
        assert(q.prefix =~= quoted_state(seq![]).prefix);
        assert(q == quoted_state(seq![]));
        lemma_quoted_run(v, v.len() as int);
        assert(v.take(v.len() as int) =~= v);
        assert(seq!['"'] + (body + seq!['"']) =~= s);
        let qs = quoted_state(v);
        assert(lex_from(quoted_state(seq![]), body) == qs);
        reveal_with_fuel(lex_from, 2);
        assert(lex_from(qs, seq!['"']) == lex_step(qs, '"'));
        assert(lex_run(s) == lex_step(qs, '"'));
    }
}

/// The characters of a canonical spelling form one valid path component.
proof fn lemma_canonical_marked(v: Seq<char>)
    requires
        !v.contains('/'),
        spec_serialize_component(v) is Some,
    ensures
        canonical_marked(v).len() == v.len() > 0,
        canonical_marked(v) != bare_placeholder(),
        !is_sep(canonical_marked(v), canonical_marked(v).len() - 1),
        !has_edge_space(canonical_marked(v)),
        !has_bare_ellipsis(canonical_marked(v)),
        decoded(canonical_marked(v)) == v,
{
    let marked = canonical_marked(v);
    assert forall|i: int| 0 <= i < v.len() implies v[i] != '/' by {
        if v[i] == '/' {
            assert(v.contains('/'));
        }
    }
    assert(marked.len() == v.len());
    assert(marked != bare_placeholder()) by {
        if !needs_quotes(v) {
            if marked == bare_placeholder() {
                assert(marked == unmarked(v));
                assert(bare_placeholder().len() == 3);
                assert(v =~= seq!['.', '.', '.']) by {
                    assert(v.len() == 3);
                    assert(marked[0] == (v[0], false));
                    assert(marked[1] == (v[1], false));
                    assert(marked[2] == (v[2], false));
                }
                assert(is_ellipsis(v));
            }
        } else {
            assert(marked[0].1);
        }
    }
    assert(marked[marked.len() - 1].0 == v[v.len() - 1]);
    assert(!has_edge_space(marked)) by {
        if has_edge_space(marked) {
            let i = choose|i: int|
                0 <= i < marked.len() && #[trigger] marked[i] == (' ', false) && (i == 0 || is_sep(marked, i - 1)
                    || i == marked.len() - 1 || is_sep(marked, i + 1));
            assert(!needs_quotes(v));
            assert(v[i] == ' ');
            if i == 0 {
            } else if is_sep(marked, i - 1) {
                assert(v[i - 1] == '/');
            } else if i == marked.len() - 1 {
                assert(v.last() == ' ');
            } else {
                assert(v[i + 1] == '/');
            }
        }
    }
    assert(!has_bare_ellipsis(marked)) by {
        if has_bare_ellipsis(marked) {
            let i = choose|i: int|
                0 <= i && i + 3 <= marked.len() && #[trigger] marked[i] == ('.', false) && marked[i + 1] == (
                '.',
                false,
            ) && marked[i + 2] == ('.', false) && (i == 0 || is_sep(marked, i - 1)) && (i + 3 == marked.len()
                || is_sep(marked, i + 3));
            assert(!needs_quotes(v));
            if i > 0 {
                assert(v[i - 1] == '/');
            }
            if i + 3 < marked.len() {
                assert(v[i + 3] == '/');
            }
            assert(v =~= seq!['.', '.', '.']);
        }
    }
    assert(decoded(marked) =~= v);
}

/// The item text of a generated entry lexes and expands to one guide line
/// with the entry's name and kind.
pub(crate) proof fn lemma_canonical_item(v: Seq<char>, is_dir: bool, line: usize, level: usize)
    requires
        !v.contains('/'),
        spec_serialize_component(v) is Some,
    ensures
        spec_lex(canonical_item(v, is_dir)) matches Ok(t) && expand_template(t, line, level) == Ok::<
            Seq<FlatLine>,
            SyntaxErrorView,
        >(seq![FlatLine { line_number: line, indent_level: level, kind: line_kind(is_dir), path: v, comment: None }]),
{
    let s = spec_serialize_component(v)->0;
    if !is_dir {
        assert(canonical_item(v, is_dir) =~= s);
        law_canonical_spelling_reads_back(v, line, level);
    } else {
        lemma_canonical_lex(v);
        lemma_canonical_marked(v);
        let marked = canonical_marked(v);
        let st = lex_run(s);
        lemma_lex_run_append(s, seq!['/']);
        assert(canonical_item(v, is_dir) =~= s + seq!['/']);
        assert(seq!['/'].drop_last() =~= Seq::<char>::empty());
        assert(seq!['/'].last() == '/');
        reveal_with_fuel(lex_from, 2);
        let fin = lex_step(st, '/');
        assert(lex_run(s + seq!['/']) == fin);
        let sep = marked.push(('/', false));
        assert(fin.prefix =~= sep);
        assert(fin.failed is None && !fin.esc && fin.block == 0 && fin.mode == LexMode::Bare);
        assert(fin.suffix =~= Seq::<(char, bool)>::empty());
        let t = Template { prefix: sep, alternatives: None, suffix: Seq::<(char, bool)>::empty(), comment: None };
        assert(lex_finish(fin) == Ok::<Template, crate::lexer::LexFailure>(t));
        assert(expansions(t) =~= seq![sep]) by {
            assert(sep + Seq::<(char, bool)>::empty() =~= sep);
        }
        assert(sep.drop_last() =~= marked);
        assert(is_sep(sep, sep.len() - 1));
        assert(sep != bare_placeholder()) by {
            if sep == bare_placeholder() {
                assert(sep[2] == ('.', false));
            }
        }
        assert(classify(sep, false) == Some((LineKind::Directory, v)));
        assert(expansions(t).drop_last() =~= Seq::<Seq<(char, bool)>>::empty());
        assert(trimmed_comment(t.comment) is None);
        reveal_with_fuel(expand_prefix, 2);
        assert(expansions(t).last() == sep);
        assert(expand_prefix(expansions(t), false, line, level, None) == Ok::<Seq<FlatLine>, SyntaxErrorView>(
            seq![FlatLine { line_number: line, indent_level: level, kind: LineKind::Directory, path: v, comment: None }],
        ));
    }
}


// ---------------------------------------------------------------------------
// One list line

/// A generated list line without its line feed: `k` spaces, `- `, and the
/// item text.
pub open spec fn generated_body(v: Seq<char>, is_dir: bool, k: nat) -> Seq<char> {
    spaces(k) + "- "@ + canonical_item(v, is_dir)
}

proof fn lemma_first_failing_at(l: Seq<char>, p: spec_fn(char) -> bool, i: int, k: int)
    requires
        0 <= i <= k < l.len(),
        forall|j: int| i <= j < k ==> p(#[trigger] l[j]),
        !p(l[k]),
    ensures
        first_failing(l, p, i) == k,
    decreases k - i,
{
    if i < k {
        lemma_first_failing_at(l, p, i + 1, k);
    }
}

/// A generated list line reads as one guide line with the entry's name and
/// kind, at the level its indentation gives.
pub(crate) proof fn lemma_generated_line_read(
    v: Seq<char>,
    is_dir: bool,
    size: Option<nat>,
    n: usize,
    k: nat,
)
    requires
        !v.contains('/'),
        spec_serialize_component(v) is Some,
        indent_level(size, k).1 matches Some(level) && level <= MAX_LOGICAL_DEPTH,
    ensures
        line_read(size, n, generated_body(v, is_dir, k)) == Ok::<(Option<nat>, Seq<FlatLine>), SyntaxErrorView>(
            (
                indent_level(size, k).0,
                seq![
                    FlatLine {
                        line_number: n,
                        indent_level: indent_level(size, k).1->0 as usize,
                        kind: line_kind(is_dir),
                        path: v,
                        comment: None,
                    },
                ],
            ),
        ),
{
    reveal_strlit("- ");
    let item = canonical_item(v, is_dir);
    let s = spec_serialize_component(v)->0;
    assert(s.len() > 0) by {
        if needs_quotes(v) {
            assert(s[0] == '"');
        }
    }
    assert(item.len() > 0) by {
        assert(item[0] == s[0]);
    }
    let l = generated_body(v, is_dir, k);
    let dash = "- "@;
    assert(dash =~= seq!['-', ' ']);
    assert(l.len() == k + 2 + item.len());
    assert(l[k as int] == '-');
    assert(l[k + 1 as int] == ' ');
    assert(!is_blank(l)) by {
        assert(!is_white_space(l[k as int]));
    }
    let p = |c: char| is_white_space(c);
    assert forall|j: int| 0 <= j < k implies p(#[trigger] l[j]) by {
        assert(l[j] == ' ');
    }
    lemma_first_failing_at(l, p, 0, k as int);
    assert(l.take(k as int) =~= spaces(k));
    assert(regex_list_item(l) == Some(spaces(k)));
    assert(all_spaces(spaces(k)));
    assert(l.skip(k + 2 as int) =~= item);
    let level = indent_level(size, k).1->0;
    lemma_canonical_item(v, is_dir, n, level as usize);
}


// ---------------------------------------------------------------------------
// The list of a traversal

/// The depth of a generated entry: a root entry has depth 0.
pub open spec fn entry_depth(e: (Seq<Seq<char>>, bool)) -> nat {
    (e.0.len() - 1) as nat
}

/// The name of a generated entry: its last component.
pub open spec fn entry_name(e: (Seq<Seq<char>>, bool)) -> Seq<char> {
    e.0.last()
}

/// Entries in the order of a depth-first traversal: each has a name; the
/// first is a root entry; and each is at most one level deeper than the one
/// before it, and one level deeper only below a directory.
pub open spec fn traversal_ordered(es: Seq<(Seq<Seq<char>>, bool)>) -> bool {
    &&& forall|i: int| 0 <= i < es.len() ==> (#[trigger] es[i]).0.len() > 0
    &&& es.len() > 0 ==> entry_depth(es[0]) == 0
    &&& forall|i: int|
        1 <= i < es.len() ==> entry_depth(#[trigger] es[i]) <= entry_depth(es[i - 1]) + 1 && (entry_depth(es[i])
            == entry_depth(es[i - 1]) + 1 ==> es[i - 1].1)
}

/// Every entry has a name that can be written in a guide, and is no deeper
/// than a guide may list.
pub open spec fn listable(es: Seq<(Seq<Seq<char>>, bool)>) -> bool {
    forall|i: int|
        0 <= i < es.len() ==> !entry_name(#[trigger] es[i]).contains('/') && spec_serialize_component(
            entry_name(es[i]),
        ) is Some && entry_depth(es[i]) <= MAX_LOGICAL_DEPTH
}

/// The list lines of the entries, without line feeds, at `indent` spaces per level.
pub open spec fn generated_bodies(es: Seq<(Seq<Seq<char>>, bool)>, indent: nat) -> Seq<Seq<char>> {
    es.map_values(|e: (Seq<Seq<char>>, bool)| generated_body(entry_name(e), e.1, entry_depth(e) * indent))
}

/// The guide line of an entry read back from document line `n`.
pub open spec fn generated_line(e: (Seq<Seq<char>>, bool), n: int) -> FlatLine {
    FlatLine {
        line_number: n as usize,
        indent_level: entry_depth(e) as usize,
        kind: line_kind(e.1),
        path: entry_name(e),
        comment: None,
    }
}

/// The guide lines of the entries, the first read from document line `first`.
pub open spec fn generated_lines(es: Seq<(Seq<Seq<char>>, bool)>, first: int) -> Seq<FlatLine> {
    Seq::new(es.len(), |i: int| generated_line(es[i], first + i))
}

/// The indentation size after reading the first `i` lines: set by the first
/// indented line, which is one level deep.
pub open spec fn size_after(es: Seq<(Seq<Seq<char>>, bool)>, i: int, indent: nat) -> Option<nat> {
    if exists|j: int| 0 <= j < i && entry_depth(#[trigger] es[j]) > 0 {
        Some(indent)
    } else {
        None
    }
}

/// The indentation of the `i`-th generated line gives its depth, and the
/// indentation size after it.
proof fn lemma_entry_indent(es: Seq<(Seq<Seq<char>>, bool)>, indent: nat, i: int)
    requires
        indent > 0,
        1 <= i <= es.len(),
        traversal_ordered(es),
    ensures
        indent_level(size_after(es, i - 1, indent), entry_depth(es[i - 1]) * indent) == (
            size_after(es, i, indent),
            Some(entry_depth(es[i - 1])),
        ),
{
    let d = entry_depth(es[i - 1]);
    let k = d * indent;
    let size = size_after(es, i - 1, indent);
    if d == 0 {
        assert(k == 0) by (nonlinear_arith)
            requires
                d == 0,
                k == d * indent,
        ;
        assert(size_after(es, i, indent) == size) by {
            if exists|j: int| 0 <= j < i && entry_depth(#[trigger] es[j]) > 0 {
                let j = choose|j: int| 0 <= j < i && entry_depth(#[trigger] es[j]) > 0;
                assert(j != i - 1);
                assert(0 <= j < i - 1 && entry_depth(es[j]) > 0);
            }
        }
    } else {
        assert(size_after(es, i, indent) == Some(indent)) by {
            assert(0 <= i - 1 < i && entry_depth(es[i - 1]) > 0);
        }
        assert(k > 0) by (nonlinear_arith)
            requires
                d > 0,
                indent > 0,
                k == d * indent,
        ;
        if size is None {
            assert(i - 1 > 0);
            assert(entry_depth(es[i - 2]) == 0) by {
                if entry_depth(es[i - 2]) > 0 {
                    assert(0 <= i - 2 < i - 1 && entry_depth(es[i - 2]) > 0);
                }
            }
            assert(entry_depth(es[(i - 1) as int]) <= entry_depth(es[i - 1 - 1]) + 1);
            assert(d == 1);
            assert(k == indent) by (nonlinear_arith)
                requires
                    d == 1,
                    k == d * indent,
            ;
        } else {
            vstd::arithmetic::div_mod::lemma_mod_multiples_basic(d as int, indent as int);
            vstd::arithmetic::div_mod::lemma_div_multiples_vanish(d as int, indent as int);
            assert((d * indent) as int == (indent * d) as int) by (nonlinear_arith);
            assert(k % indent == 0);
            assert(k / indent == d);
        }
    }
}

#[verifier::rlimit(50)]
proof fn lemma_generated_body_run(es: Seq<(Seq<Seq<char>>, bool)>, indent: nat, first: int, i: int)
    requires
        indent > 0,
        0 <= i <= es.len(),
        0 <= first,
        first + es.len() <= usize::MAX,
        traversal_ordered(es),
        listable(es),
    ensures
        body_run(generated_bodies(es, indent).take(i), first) == (BodyState {
            items: generated_lines(es.take(i), first),
            size: size_after(es, i, indent),
            failed: None,
        }),
    decreases i,
{
    let bodies = generated_bodies(es, indent).take(i);
    if i == 0 {
        assert(bodies =~= Seq::<Seq<char>>::empty());
        assert(generated_lines(es.take(0), first) =~= Seq::<FlatLine>::empty());
        assert(!(exists|j: int| 0 <= j < 0 && entry_depth(#[trigger] es[j]) > 0));
    } else {
        lemma_generated_body_run(es, indent, first, i - 1);
        assert(bodies.drop_last() =~= generated_bodies(es, indent).take(i - 1));
        let e = es[i - 1];
        let k = entry_depth(e) * indent;
        assert(bodies.last() == generated_body(entry_name(e), e.1, k));
        let size = size_after(es, i - 1, indent);
        lemma_entry_indent(es, indent, i);
        assert(!entry_name(es[i - 1]).contains('/'));
        lemma_generated_line_read(entry_name(e), e.1, size, (first + i - 1) as usize, k);
        assert(generated_lines(es.take(i), first) =~= generated_lines(es.take(i - 1), first) + seq![
            generated_line(e, first + i - 1),
        ]);
    }
}

proof fn lemma_nested_all(items: Seq<FlatLine>)
    requires
        forall|i: int| 0 <= i < items.len() ==> nests_after(items, i),
    ensures
        nesting_error(items) is None,
    decreases items.len(),
{
    if items.len() > 0 {
        let d = items.drop_last();
        assert forall|i: int| 0 <= i < d.len() implies nests_after(d, i) by {
            assert(nests_after(items, i));
            if i > 0 {
                assert(d[i - 1] == items[i - 1]);
            }
            assert(d[i] == items[i]);
        }
        lemma_nested_all(d);
        assert(nests_after(items, items.len() - 1));
    }
}

/// The guide lines of a traversal nest: each at most one level below the
/// one before it, and one level below only a directory.
proof fn lemma_generated_lines_nest(es: Seq<(Seq<Seq<char>>, bool)>, first: int)
    requires
        traversal_ordered(es),
        listable(es),
    ensures
        nesting_error(generated_lines(es, first)) is None,
{
    let items = generated_lines(es, first);
    assert forall|i: int| 0 <= i < items.len() implies nests_after(items, i) by {
        assert(entry_depth(es[i]) <= MAX_LOGICAL_DEPTH);
        if i == 0 {
            assert(items[0].indent_level == 0);
        } else {
            assert(entry_depth(es[i - 1]) <= MAX_LOGICAL_DEPTH);
            assert(items[i].indent_level as int == entry_depth(es[i]));
            assert(items[i - 1].indent_level as int == entry_depth(es[i - 1]));
            assert(entry_depth(es[i]) <= entry_depth(es[i - 1]) + 1);
        }
    }
    lemma_nested_all(items);
}


// ---------------------------------------------------------------------------
// The lines of the document

/// Lines, each followed by a line feed.
pub open spec fn terminated(ls: Seq<Seq<char>>) -> Seq<char>
    decreases ls.len(),
{
    if ls.len() == 0 {
        seq![]
    } else {
        terminated(ls.drop_last()) + ls.last() + seq!['\n']
    }
}

/// Text without control characters (so without line feeds or carriage returns).
pub open spec fn control_free(s: Seq<char>) -> bool {
    forall|i: int| 0 <= i < s.len() ==> !is_forbidden_control(#[trigger] s[i])
}

proof fn lemma_quoted_control_free(v: Seq<char>)
    requires
        control_free(v),
    ensures
        control_free(concat_map(v, |c: char| quoted_char(c))),
    decreases v.len(),
{
    if v.len() > 0 {
        let d = v.drop_last();
        assert forall|i: int| 0 <= i < d.len() implies !is_forbidden_control(#[trigger] d[i]) by {
            assert(d[i] == v[i]);
        }
        lemma_quoted_control_free(d);
        let a = concat_map(d, |c: char| quoted_char(c));
        let b = quoted_char(v.last());
        assert(concat_map(v, |c: char| quoted_char(c)) == a + b);
        assert(!is_forbidden_control(v[v.len() - 1]));
        assert forall|i: int| 0 <= i < (a + b).len() implies !is_forbidden_control(#[trigger] (a + b)[i]) by {
            if i >= a.len() {
                assert(b[i - a.len()] == (a + b)[i]);
            }
        }
    }
}

/// A generated list line holds no control character, so it is one whole
/// document line.
proof fn lemma_generated_body_control_free(v: Seq<char>, is_dir: bool, k: nat)
    requires
        spec_serialize_component(v) is Some,
    ensures
        control_free(generated_body(v, is_dir, k)),
        generated_body(v, is_dir, k).len() > 0,
{
    reveal_strlit("- ");
    assert(!has_forbidden_control(v));
    assert(control_free(v)) by {
        assert forall|i: int| 0 <= i < v.len() implies !is_forbidden_control(#[trigger] v[i]) by {
            if is_forbidden_control(v[i]) {
                assert(has_forbidden_control(v));
            }
        }
    }
    let s = spec_serialize_component(v)->0;
    assert(control_free(s)) by {
        if needs_quotes(v) {
            lemma_quoted_control_free(v);
            let body = concat_map(v, |c: char| quoted_char(c));
            assert(s == seq!['"'] + body + seq!['"']);
            assert forall|i: int| 0 <= i < s.len() implies !is_forbidden_control(#[trigger] s[i]) by {
                if 1 <= i < s.len() - 1 {
                    assert(s[i] == body[i - 1]);
                }
            }
        }
    }
    let item = canonical_item(v, is_dir);
    assert(control_free(item)) by {
        assert forall|i: int| 0 <= i < item.len() implies !is_forbidden_control(#[trigger] item[i]) by {
            if i < s.len() {
                assert(item[i] == s[i]);
            }
        }
    }
    let l = generated_body(v, is_dir, k);
    assert forall|i: int| 0 <= i < l.len() implies !is_forbidden_control(#[trigger] l[i]) by {
        if i >= k + 2 {
            assert(l[i] == item[i - k - 2]);
        }
    }
}

proof fn lemma_split_append(a: Seq<char>, b: Seq<char>)
    requires
        split_state(a).1.len() == 0,
    ensures
        split_state(a + b) == (split_state(a).0 + split_state(b).0, split_state(b).1),
    decreases b.len(),
{
    if b.len() == 0 {
        assert(a + b =~= a);
        assert(split_state(a).0 + Seq::<Seq<char>>::empty() =~= split_state(a).0);
        assert(split_state(a).1 =~= Seq::<char>::empty());
    } else {
        lemma_split_append(a, b.drop_last());
        assert((a + b).drop_last() =~= a + b.drop_last());
        assert((a + b).last() == b.last());
        let bs = split_state(b.drop_last());
        if b.last() == '\n' {
            assert((split_state(a).0 + bs.0).push(strip_cr(bs.1)) =~= split_state(a).0 + bs.0.push(strip_cr(bs.1)));
        }
    }
}

proof fn lemma_split_plain(x: Seq<char>)
    requires
        control_free(x),
    ensures
        split_state(x) == (Seq::<Seq<char>>::empty(), x),
    decreases x.len(),
{
    if x.len() > 0 {
        let d = x.drop_last();
        assert forall|i: int| 0 <= i < d.len() implies !is_forbidden_control(#[trigger] d[i]) by {
            assert(d[i] == x[i]);
        }
        lemma_split_plain(d);
        assert(!is_forbidden_control(x[x.len() - 1]));
        assert(x.last() != '\n');
        assert(d.push(x.last()) =~= x);
    }
}

proof fn lemma_split_line(x: Seq<char>)
    requires
        control_free(x),
    ensures
        split_state(x + seq!['\n']) == (seq![x], Seq::<char>::empty()),
{
    lemma_split_plain(x);
    assert((x + seq!['\n']).drop_last() =~= x);
    assert((x + seq!['\n']).last() == '\n');
    if x.len() > 0 {
        assert(!is_forbidden_control(x[x.len() - 1]));
    }
    assert(strip_cr(x) == x);
    assert(Seq::<Seq<char>>::empty().push(x) =~= seq![x]);
}

proof fn lemma_split_terminated(ls: Seq<Seq<char>>)
    requires
        forall|i: int| 0 <= i < ls.len() ==> control_free(#[trigger] ls[i]),
    ensures
        split_state(terminated(ls)) == (ls, Seq::<char>::empty()),
    decreases ls.len(),
{
    if ls.len() == 0 {
        assert(split_state(Seq::<char>::empty()) == (Seq::<Seq<char>>::empty(), Seq::<char>::empty()));
        assert(ls =~= Seq::<Seq<char>>::empty());
    } else {
        let d = ls.drop_last();
        assert forall|i: int| 0 <= i < d.len() implies control_free(#[trigger] d[i]) by {
            assert(d[i] == ls[i]);
        }
        lemma_split_terminated(d);
        assert(control_free(ls[ls.len() - 1]));
        lemma_split_line(ls.last());
        lemma_split_append(terminated(d), ls.last() + seq!['\n']);
        assert(terminated(ls) =~= terminated(d) + (ls.last() + seq!['\n']));
        assert(d + seq![ls.last()] =~= ls);
    }
}

/// The document lines of a marker line, terminated lines, and a marker line.
pub(crate) proof fn lemma_document_lines(open: Seq<char>, ls: Seq<Seq<char>>, close: Seq<char>)
    requires
        control_free(open),
        control_free(close),
        close.len() > 0,
        forall|i: int| 0 <= i < ls.len() ==> control_free(#[trigger] ls[i]),
    ensures
        spec_lines(open + seq!['\n'] + terminated(ls) + close) == seq![open] + ls + seq![close],
{
    lemma_split_line(open);
    lemma_split_terminated(ls);
    lemma_split_plain(close);
    lemma_split_append(open + seq!['\n'], terminated(ls));
    assert(split_state(open + seq!['\n'] + terminated(ls)) == (seq![open] + ls, Seq::<char>::empty()));
    lemma_split_append(open + seq!['\n'] + terminated(ls), close);
    assert(split_state(open + seq!['\n'] + terminated(ls) + close) == (seq![open] + ls + Seq::<Seq<char>>::empty(), close));
    assert(seq![open] + ls + Seq::<Seq<char>>::empty() =~= seq![open] + ls);
    assert((seq![open] + ls).push(close) =~= seq![open] + ls + seq![close]);
}

/// A successful rendering is the generated list lines, each followed by a line feed.
pub(crate) proof fn lemma_render_terminated(es: Seq<(Seq<Seq<char>>, bool)>, indent: nat)
    requires
        render_entries(es, indent) is Ok,
    ensures
        render_entries(es, indent) == Ok::<Seq<char>, AppErrorView>(terminated(generated_bodies(es, indent))),
        forall|i: int| 0 <= i < es.len() ==> (#[trigger] es[i]).0.len() > 0 && spec_serialize_component(entry_name(es[i])) is Some
            && text_name_error(entry_name(es[i]), entry_depth(es[i]) == 0) is None,
    decreases es.len(),
{
    if es.len() == 0 {
        assert(generated_bodies(es, indent) =~= Seq::<Seq<char>>::empty());
    } else {
        let d = es.drop_last();
        assert(render_entries(d, indent) is Ok);
        lemma_render_terminated(d, indent);
        let e = es.last();
        assert(generated_bodies(es, indent).drop_last() =~= generated_bodies(d, indent));
        assert(generated_bodies(es, indent).last() == generated_body(entry_name(e), e.1, entry_depth(e) * indent));
        assert(entry_line(e, indent) is Ok);
        let l = entry_line(e, indent)->Ok_0;
        let b = generated_body(entry_name(e), e.1, entry_depth(e) * indent);
        assert(l =~= b + seq!['\n']);
        let t = terminated(generated_bodies(d, indent));
        assert(render_entries(es, indent) == Ok::<Seq<char>, AppErrorView>(t + l));
        assert(terminated(generated_bodies(es, indent)) == t + b + seq!['\n']);
        assert(t + l =~= t + b + seq!['\n']);
        assert forall|i: int| 0 <= i < es.len() implies (#[trigger] es[i]).0.len() > 0 && spec_serialize_component(entry_name(es[i])) is Some
            && text_name_error(entry_name(es[i]), entry_depth(es[i]) == 0) is None by {
            if i < d.len() {
                assert(d[i] == es[i]);
            }
        }
    }
}


// ---------------------------------------------------------------------------
// Locating the block

proof fn lemma_trim_start_spaces(k: nat, r: Seq<char>)
    ensures
        trim_start_by(spaces(k) + r, |c: char| is_hblank(c)) == trim_start_by(r, |c: char| is_hblank(c)),
    decreases k,
{
    if k > 0 {
        let x = spaces(k) + r;
        assert(x[0] == ' ');
        assert(x.drop_first() =~= spaces((k - 1) as nat) + r);
        lemma_trim_start_spaces((k - 1) as nat, r);
    } else {
        assert(spaces(0) + r =~= r);
    }
}

proof fn lemma_trim_end_keeps_start(x: Seq<char>, p: spec_fn(char) -> bool)
    ensures
        trim_end_by(x, p).len() <= x.len(),
        forall|i: int| 0 <= i < trim_end_by(x, p).len() ==> #[trigger] trim_end_by(x, p)[i] == x[i],
        x.len() > 0 && !p(x[0]) ==> trim_end_by(x, p).len() > 0,
    decreases x.len(),
{
    if x.len() > 0 && p(x.last()) {
        lemma_trim_end_keeps_start(x.drop_last(), p);
        if x.len() == 1 {
            assert(x[0] == x.last());
        } else {
            assert(x.drop_last()[0] == x[0]);
        }
    }
}

/// A list line is no marker: trimmed, it starts with `-`.
proof fn lemma_body_not_marker(v: Seq<char>, is_dir: bool, k: nat)
    ensures
        opening_line(generated_body(v, is_dir, k)) is None,
        !is_closing_line(generated_body(v, is_dir, k)),
{
    reveal_strlit("- ");
    reveal_strlit("</agentic-navigation-guide>");
    reveal_strlit("<agentic-navigation-guide");
    let p = |c: char| is_hblank(c);
    let r = "- "@ + canonical_item(v, is_dir);
    assert(generated_body(v, is_dir, k) == spaces(k) + r);
    lemma_trim_start_spaces(k, r);
    assert(r[0] == '-');
    assert(!p(r[0]));
    assert(trim_start_by(r, p) == r);
    let t = marker_trim(generated_body(v, is_dir, k));
    assert(t == trim_end_by(r, p));
    lemma_trim_end_keeps_start(r, p);
    assert(t.len() > 0);
    assert(t[0] == '-');
    assert(closing_marker()[0] == '<');
    assert(t != closing_marker());
    assert(opening_name()[0] == '<');
    if t.len() > opening_name().len() && t.take(opening_name().len() as int) == opening_name() {
        assert(t.take(opening_name().len() as int)[0] == t[0]);
    }
}

proof fn lemma_markers()
    ensures
        opening_line("<agentic-navigation-guide>"@) == Some(false),
        opening_line("</agentic-navigation-guide>"@) is None,
        is_closing_line("</agentic-navigation-guide>"@),
{
    reveal_strlit("<agentic-navigation-guide>");
    reveal_strlit("</agentic-navigation-guide>");
    reveal_strlit("<agentic-navigation-guide");
    let p = |c: char| is_hblank(c);
    let open = "<agentic-navigation-guide>"@;
    let close = "</agentic-navigation-guide>"@;
    assert(!p(open[0]) && !p(open.last()));
    assert(trim_start_by(open, p) == open);
    assert(trim_end_by(open, p) == open);
    assert(marker_trim(open) == open);
    let n = opening_name();
    assert(open.len() > n.len());
    assert(open.take(n.len() as int) =~= n);
    assert(open.last() == '>');
    assert(open.subrange(n.len() as int, open.len() - 1) =~= Seq::<char>::empty());
    assert(attribute_ignore(Seq::<char>::empty()) == Some(false));
    assert(!p(close[0]) && !p(close.last()));
    assert(trim_start_by(close, p) == close);
    assert(trim_end_by(close, p) == close);
    assert(marker_trim(close) == close);
    assert(close == closing_marker());
    assert(close.take(n.len() as int)[1] == '/');
    assert(n[1] == 'a');
    assert(close.take(n.len() as int) != n);
}

proof fn lemma_scan_bodies(open: Seq<char>, bodies: Seq<Seq<char>>, j: int)
    requires
        opening_line(open) == Some(false),
        0 <= j <= bodies.len(),
        forall|i: int| 0 <= i < bodies.len() ==> opening_line(#[trigger] bodies[i]) is None && !is_closing_line(bodies[i]),
    ensures
        scan_lines(seq![open] + bodies.take(j)) == (BlockScan { start: Some(0), end: None, ignore: false, failed: None }),
    decreases j,
{
    if j == 0 {
        assert(seq![open] + bodies.take(0) =~= seq![open]);
        assert(seq![open].drop_last() =~= Seq::<Seq<char>>::empty());
        assert(scan_lines(Seq::<Seq<char>>::empty()) == scan_init());
    } else {
        lemma_scan_bodies(open, bodies, j - 1);
        let ls = seq![open] + bodies.take(j);
        assert(ls.drop_last() =~= seq![open] + bodies.take(j - 1));
        assert(ls.last() == bodies[j - 1]);
    }
}

/// The block of a wrapped list spans the whole document.
proof fn lemma_locate_wrapped(bodies: Seq<Seq<char>>)
    requires
        forall|i: int| 0 <= i < bodies.len() ==> opening_line(#[trigger] bodies[i]) is None && !is_closing_line(bodies[i]),
    ensures
        spec_locate(seq!["<agentic-navigation-guide>"@] + bodies + seq!["</agentic-navigation-guide>"@])
            == Ok::<(int, int, bool), SyntaxErrorView>((0, bodies.len() + 1 as int, false)),
{
    lemma_markers();
    let open = "<agentic-navigation-guide>"@;
    let close = "</agentic-navigation-guide>"@;
    lemma_scan_bodies(open, bodies, bodies.len() as int);
    assert(bodies.take(bodies.len() as int) =~= bodies);
    let ls = seq![open] + bodies + seq![close];
    assert(ls.drop_last() =~= seq![open] + bodies);
    assert(ls.last() == close);
}

// ---------------------------------------------------------------------------
// The law

/// A generated guide reads back: when `dump` renders the entries of a
/// depth-first traversal (names without `/`, no entry deeper than a guide may
/// list), the document it wraps them in parses as an active guide without
/// prologue or epilogue whose lines are exactly those entries, in order, each
/// at its depth and with its name and kind, read from document line 2 on.
pub proof fn law_generated_guide_reads_back(
    indent: usize,
    max_depth: Option<usize>,
    root: Seq<char>,
    es: Seq<(Seq<Seq<char>>, bool)>,
    text: Seq<char>,
)
    requires
        spec_dump(indent, max_depth, root, es) == Ok::<Seq<char>, AppErrorView>(text),
        traversal_ordered(es),
        forall|i: int|
            0 <= i < es.len() ==> !entry_name(#[trigger] es[i]).contains('/') && entry_depth(es[i]) <= MAX_LOGICAL_DEPTH,
        es.len() + 2 <= usize::MAX,
    ensures
        spec_parse(wrap_guide(text)) == Ok::<GuideSpec, SyntaxErrorView>(
            GuideSpec { lines: generated_lines(es, 2), prologue: None, epilogue: None, ignore: false },
        ),
{
    reveal_strlit("<agentic-navigation-guide>\n");
    reveal_strlit("<agentic-navigation-guide>");
    reveal_strlit("</agentic-navigation-guide>");
    let ind = indent as nat;
    assert(es.len() > 0 && 1 <= indent);
    lemma_render_terminated(es, ind);
    assert(listable(es));
    let bodies = generated_bodies(es, ind);
    assert(text == terminated(bodies));
    let open = "<agentic-navigation-guide>"@;
    let close = "</agentic-navigation-guide>"@;
    assert forall|i: int| 0 <= i < bodies.len() implies control_free(#[trigger] bodies[i]) && opening_line(bodies[i]) is None
        && !is_closing_line(bodies[i]) by {
        let e = es[i];
        assert(bodies[i] == generated_body(entry_name(e), e.1, entry_depth(e) * ind));
        lemma_generated_body_control_free(entry_name(e), e.1, entry_depth(e) * ind);
        lemma_body_not_marker(entry_name(e), e.1, entry_depth(e) * ind);
    }
    assert(control_free(open));
    assert(control_free(close));
    assert(wrap_guide(text) =~= open + seq!['\n'] + terminated(bodies) + close);
    lemma_document_lines(open, bodies, close);
    let ls = seq![open] + bodies + seq![close];
    assert(spec_lines(wrap_guide(text)) == ls);
    lemma_locate_wrapped(bodies);
    assert(ls.subrange(1, bodies.len() + 1 as int) =~= bodies);
    lemma_generated_body_run(es, ind, 2, es.len() as int);
    assert(bodies.take(bodies.len() as int) =~= bodies);
    assert(es.take(es.len() as int) =~= es);
    lemma_generated_lines_nest(es, 2);
    assert(!is_blank(bodies[0])) by {
        let e = es[0];
        lemma_generated_body_control_free(entry_name(e), e.1, entry_depth(e) * ind);
        reveal_strlit("- ");
        let k = entry_depth(e) * ind;
        assert(bodies[0][k as int] == '-');
    }
    assert(spec_body(bodies, 2) == Ok::<Seq<FlatLine>, SyntaxErrorView>(generated_lines(es, 2)));
}


// ---------------------------------------------------------------------------
// Trees whose flattening is known

pub(crate) proof fn lemma_flatten_append(a: Seq<NavigationGuideLine>, b: Seq<NavigationGuideLine>)
    ensures
        flatten(a + b) == flatten(a) + flatten(b),
    decreases b.len(),
{
    if b.len() == 0 {
        assert(a + b =~= a);
        assert(flatten(b) =~= Seq::<FlatLine>::empty());
        assert(flatten(a) + flatten(b) =~= flatten(a));
    } else {
        lemma_flatten_append(a, b.drop_last());
        assert((a + b).drop_last() =~= a + b.drop_last());
        assert((a + b)[(a + b).len() - 1] == b[b.len() - 1]);
        let last = b[b.len() - 1];
        assert(flatten(a + b) == flatten(a + b.drop_last()) + seq![last.flat()] + flatten(last.item.spec_children())) by {
            match last.item {
                FilesystemItem::Directory { children, .. } => {},
                _ => {},
            }
        }
        assert(flatten(b) == flatten(b.drop_last()) + seq![last.flat()] + flatten(last.item.spec_children())) by {
            match last.item {
                FilesystemItem::Directory { children, .. } => {},
                _ => {},
            }
        }
        assert(flatten(a) + flatten(b.drop_last()) + seq![last.flat()] + flatten(last.item.spec_children())
            =~= flatten(a) + (flatten(b.drop_last()) + seq![last.flat()] + flatten(last.item.spec_children())));
    }
}

/// The flattening of a tree around its `k`-th line: the lines before it, the
/// line, its subtree, and the lines after it.
pub(crate) proof fn lemma_flatten_at(ls: Seq<NavigationGuideLine>, k: int)
    requires
        0 <= k < ls.len(),
    ensures
        flatten(ls) == flatten(ls.take(k)) + seq![ls[k].flat()] + flatten(ls[k].item.spec_children()) + flatten(
            ls.skip(k + 1),
        ),
{
    let x = ls[k];
    assert(ls =~= ls.take(k) + seq![x] + ls.skip(k + 1));
    lemma_flatten_append(ls.take(k) + seq![x], ls.skip(k + 1));
    lemma_flatten_append(ls.take(k), seq![x]);
    assert(seq![x].drop_last() =~= Seq::<NavigationGuideLine>::empty());
    assert(flatten(seq![x]) == seq![x.flat()] + flatten(x.item.spec_children())) by {
        assert(flatten(Seq::<NavigationGuideLine>::empty()) =~= Seq::<FlatLine>::empty());
        match x.item {
            FilesystemItem::Directory { children, .. } => {},
            _ => {
                assert(flatten(x.item.spec_children()) =~= Seq::<FlatLine>::empty());
            },
        }
        assert(Seq::<FlatLine>::empty() + seq![x.flat()] + flatten(x.item.spec_children()) =~= seq![x.flat()]
            + flatten(x.item.spec_children()));
    }
    assert(flatten(ls.take(k)) + (seq![x.flat()] + flatten(x.item.spec_children())) =~= flatten(ls.take(k))
        + seq![x.flat()] + flatten(x.item.spec_children()));
}

/// Every line of a well-nested tree at level `lvl` is at `lvl`, and a
/// directory's children are well nested one level deeper.
pub(crate) proof fn lemma_well_nested_at(ls: Seq<NavigationGuideLine>, lvl: nat, k: int)
    requires
        well_nested(ls, lvl),
        0 <= k < ls.len(),
    ensures
        ls[k].indent_level == lvl,
        ls[k].item.kind() == LineKind::Directory ==> well_nested(ls[k].item.spec_children(), lvl + 1),
    decreases ls.len(),
{
    if k < ls.len() - 1 {
        lemma_well_nested_at(ls.drop_last(), lvl, k);
        assert(ls.drop_last()[k] == ls[k]);
    } else {
        match ls[k].item {
            FilesystemItem::Directory { children, .. } => {},
            _ => {},
        }
    }
}

/// A generated line passes the per-line checks: it is a file or a directory
/// whose path is a single valid component without a trailing `/`.
pub open spec fn line_ok(x: FlatLine) -> bool {
    &&& x.kind != LineKind::Placeholder
    &&& path_error(x.path, x.line_number, x.indent_level == 0) is None
    &&& !ends_with_slash(x.path)
}

pub open spec fn lines_ok(f: Seq<FlatLine>) -> bool {
    forall|i: int| 0 <= i < f.len() ==> line_ok(#[trigger] f[i])
}

proof fn lemma_lines_ok_parts(ls: Seq<NavigationGuideLine>, k: int)
    requires
        0 <= k < ls.len(),
        lines_ok(flatten(ls)),
    ensures
        line_ok(ls[k].flat()),
        lines_ok(flatten(ls[k].item.spec_children())),
{
    lemma_flatten_at(ls, k);
    let a = flatten(ls.take(k));
    let c = flatten(ls[k].item.spec_children());
    let f = flatten(ls);
    assert(f[a.len() as int] == ls[k].flat());
    assert forall|i: int| 0 <= i < c.len() implies line_ok(#[trigger] c[i]) by {
        assert(f[a.len() + 1 + i] == c[i]);
    }
}

proof fn lemma_bad_child_none(cs: Seq<NavigationGuideLine>, lvl: nat, k: int)
    requires
        well_nested(cs, lvl),
        0 <= k,
    ensures
        bad_child(cs, k, lvl as int) is None,
    decreases cs.len() - k,
{
    if k < cs.len() {
        lemma_well_nested_at(cs, lvl, k);
        lemma_bad_child_none(cs, lvl, k + 1);
    }
}

/// A well-nested tree of valid lines passes the path, placeholder and
/// nesting checks.
proof fn lemma_items_ok(ls: Seq<NavigationGuideLine>, lvl: nat, k: int)
    requires
        well_nested(ls, lvl),
        lines_ok(flatten(ls)),
        0 <= k,
    ensures
        items_error(ls, k, lvl == 0) is None,
        adjacent_from(ls, k) is None,
        nest_items(ls, k) is None,
    decreases ls, ls.len() - k,
{
    if k < ls.len() {
        lemma_lines_ok_parts(ls, k);
        lemma_well_nested_at(ls, lvl, k);
        lemma_item_ok(ls[k], lvl);
        lemma_items_ok(ls, lvl, k + 1);
        if k + 1 < ls.len() {
            lemma_lines_ok_parts(ls, k + 1);
        }
    }
}

proof fn lemma_item_ok(l: NavigationGuideLine, lvl: nat)
    requires
        l.indent_level == lvl,
        line_ok(l.flat()),
        l.item.kind() == LineKind::Directory ==> well_nested(l.item.spec_children(), lvl + 1),
        lines_ok(flatten(l.item.spec_children())),
    ensures
        item_error(l, lvl == 0) is None,
        nest_item(l) is None,
    decreases l, 1int,
{
    match l.item {
        FilesystemItem::Directory { path, children, .. } => {
            assert(children@ == l.item.spec_children());
            lemma_items_ok(children@, lvl + 1, 0);
            lemma_bad_child_none(children@, lvl + 1, 0);
        },
        _ => {},
    }
}


// ---------------------------------------------------------------------------
// Generated lines pass the per-line checks

proof fn lemma_split_plain_on(x: Seq<char>, sep: char)
    requires
        !x.contains(sep),
    ensures
        split_state_on(x, sep) == (Seq::<Seq<char>>::empty(), x),
    decreases x.len(),
{
    if x.len() > 0 {
        let d = x.drop_last();
        assert(!d.contains(sep)) by {
            if d.contains(sep) {
                let i = choose|i: int| 0 <= i < d.len() && d[i] == sep;
                assert(x[i] == sep);
            }
        }
        lemma_split_plain_on(d, sep);
        assert(x.last() != sep) by {
            assert(x[x.len() - 1] == x.last());
        }
        assert(d.push(x.last()) =~= x);
    }
}

/// The line read back for an entry passes the per-line checks.
proof fn lemma_generated_line_ok(e: (Seq<Seq<char>>, bool), n: int)
    requires
        e.0.len() > 0,
        !entry_name(e).contains('/'),
        entry_name(e).len() > 0,
        !is_dot_component(entry_name(e)),
        !has_forbidden_control(entry_name(e)),
        text_name_error(entry_name(e), entry_depth(e) == 0) is None,
        entry_depth(e) <= MAX_LOGICAL_DEPTH,
    ensures
        line_ok(generated_line(e, n)),
{
    let x = generated_line(e, n);
    let v = entry_name(e);
    let root = entry_depth(e) == 0;
    assert(x.indent_level == 0 <==> root);
    lemma_split_plain_on(v, '/');
    assert(spec_split(v, '/') =~= seq![v]);
    assert(v[0] != '/') by {
        if v[0] == '/' {
            assert(v.contains('/'));
        }
    }
    assert(root ==> !spec_has_windows_drive_prefix(v) && v[0] != '\\');
    assert(component_error(seq![v], 1, v, x.line_number, root) is None);
    assert(component_error(seq![v], 0, v, x.line_number, root) is None);
    assert(path_error(v, x.line_number, root) is None);
    assert(!ends_with_slash(v)) by {
        if ends_with_slash(v) {
            assert(v[v.len() - 1] == '/');
            assert(v.contains('/'));
        }
    }
}

// ---------------------------------------------------------------------------
// Generated levels are consistent

proof fn lemma_first_offending_one(s: Seq<(usize, usize)>, k: int)
    requires
        0 <= k,
    ensures
        first_offending(s, 1, k) is None,
    decreases s.len() - k,
{
    if k < s.len() {
        assert(s[k].1 % 1 == 0);
        lemma_first_offending_one(s, k + 1);
    }
}

proof fn lemma_min_nonzero(s: Seq<(usize, usize)>)
    ensures
        min_nonzero(s) matches Some(b) ==> b > 0 && forall|i: int| 0 <= i < s.len() && s[i].1 > 0 ==> b <= #[trigger] s[i].1,
        min_nonzero(s) is None ==> forall|i: int| 0 <= i < s.len() ==> #[trigger] s[i].1 == 0,
    decreases s.len(),
{
    if s.len() > 0 {
        let d = s.drop_last();
        lemma_min_nonzero(d);
        assert forall|i: int| 0 <= i < s.len() - 1 implies s[i] == d[i] by {}
    }
}

/// In a traversal, the first entry below the root level is one level deep.
proof fn lemma_some_level_one(es: Seq<(Seq<Seq<char>>, bool)>, i: int)
    requires
        traversal_ordered(es),
        0 <= i < es.len(),
        entry_depth(es[i]) > 0,
    ensures
        exists|j: int| 0 <= j <= i && entry_depth(#[trigger] es[j]) == 1,
    decreases i,
{
    if entry_depth(es[i - 1]) == 0 {
        assert(entry_depth(es[i]) == 1);
    } else {
        lemma_some_level_one(es, i - 1);
        let j = choose|j: int| 0 <= j <= i - 1 && entry_depth(#[trigger] es[j]) == 1;
        assert(0 <= j <= i && entry_depth(es[j]) == 1);
    }
}

/// The levels of a traversal's lines are consistent: the smallest nonzero
/// level is one, of which every level is a multiple.
proof fn lemma_generated_levels_consistent(es: Seq<(Seq<Seq<char>>, bool)>, t: Seq<NavigationGuideLine>, first: int)
    requires
        traversal_ordered(es),
        listable(es),
        flatten(t) == generated_lines(es, first),
    ensures
        inconsistent_error(t) is None,
{
    let s = level_pairs(flatten(t));
    lemma_min_nonzero(s);
    if min_nonzero(s) is Some {
        let b = min_nonzero(s)->0;
        assert(exists|i: int| 0 <= i < s.len() && s[i].1 > 0) by {
            if !(exists|i: int| 0 <= i < s.len() && s[i].1 > 0) {
                lemma_min_nonzero_some(s);
            }
        }
        let i = choose|i: int| 0 <= i < s.len() && s[i].1 > 0;
        assert(s[i].1 == entry_depth(es[i]) as usize);
        assert(entry_depth(es[i]) <= MAX_LOGICAL_DEPTH);
        lemma_some_level_one(es, i);
        let j = choose|j: int| 0 <= j <= i && entry_depth(#[trigger] es[j]) == 1;
        assert(s[j].1 == 1);
        assert(b <= s[j].1);
        assert(b == 1);
        lemma_first_offending_one(s, 0);
    }
}

proof fn lemma_min_nonzero_some(s: Seq<(usize, usize)>)
    requires
        min_nonzero(s) is Some,
    ensures
        exists|i: int| 0 <= i < s.len() && s[i].1 > 0,
    decreases s.len(),
{
    let d = s.drop_last();
    if s.last().1 > 0 {
        assert(s[s.len() - 1].1 > 0);
    } else {
        lemma_min_nonzero_some(d);
        let i = choose|i: int| 0 <= i < d.len() && d[i].1 > 0;
        assert(s[i] == d[i]);
    }
}


// ---------------------------------------------------------------------------
// Full paths of a tree

/// Components joined with `/`.
pub open spec fn joined(c: Seq<Seq<char>>) -> Seq<char>
    decreases c.len(),
{
    if c.len() == 0 {
        seq![]
    } else {
        join_path(joined(c.drop_last()), c.last())
    }
}

/// The full paths of the lines of a tree below `parent`, in document order.
pub open spec fn full_paths(ls: Seq<NavigationGuideLine>, parent: Seq<char>) -> Seq<Seq<char>>
    decreases ls,
{
    if ls.len() == 0 {
        seq![]
    } else {
        let last = ls[ls.len() - 1];
        let full = join_path(parent, last.item.spec_path());
        full_paths(ls.drop_last(), parent) + seq![full] + match last.item {
            FilesystemItem::Directory { children, .. } => full_paths(children@, full),
            _ => seq![],
        }
    }
}

pub open spec fn no_dups(s: Seq<Seq<char>>) -> bool {
    forall|i: int, j: int| 0 <= i < j < s.len() ==> s[i] != s[j]
}

pub open spec fn path_set(s: Seq<Seq<char>>) -> Set<Seq<char>> {
    Set::new(|p: Seq<char>| s.contains(p))
}

pub open spec fn disjoint(seen: Set<Seq<char>>, s: Seq<Seq<char>>) -> bool {
    forall|i: int| 0 <= i < s.len() ==> !seen.contains(#[trigger] s[i])
}

proof fn lemma_full_paths_append(a: Seq<NavigationGuideLine>, b: Seq<NavigationGuideLine>, p: Seq<char>)
    ensures
        full_paths(a + b, p) == full_paths(a, p) + full_paths(b, p),
    decreases b.len(),
{
    if b.len() == 0 {
        assert(a + b =~= a);
        assert(full_paths(a, p) + full_paths(b, p) =~= full_paths(a, p));
    } else {
        lemma_full_paths_append(a, b.drop_last(), p);
        assert((a + b).drop_last() =~= a + b.drop_last());
        let last = b[b.len() - 1];
        assert((a + b)[(a + b).len() - 1] == last);
        let full = join_path(p, last.item.spec_path());
        let below = match last.item {
            FilesystemItem::Directory { children, .. } => full_paths(children@, full),
            _ => Seq::<Seq<char>>::empty(),
        };
        assert(full_paths(a + b, p) == full_paths(a + b.drop_last(), p) + seq![full] + below);
        assert(full_paths(b, p) == full_paths(b.drop_last(), p) + seq![full] + below);
        assert(full_paths(a, p) + full_paths(b.drop_last(), p) + seq![full] + below =~= full_paths(a, p) + (
        full_paths(b.drop_last(), p) + seq![full] + below));
    }
}

proof fn lemma_full_paths_single(x: NavigationGuideLine, p: Seq<char>)
    ensures
        full_paths(seq![x], p) == seq![join_path(p, x.item.spec_path())] + full_paths(
            x.item.spec_children(),
            join_path(p, x.item.spec_path()),
        ),
{
    let full = join_path(p, x.item.spec_path());
    assert(seq![x].drop_last() =~= Seq::<NavigationGuideLine>::empty());
    assert(seq![x][0] == x);
    assert(full_paths(Seq::<NavigationGuideLine>::empty(), p) =~= Seq::<Seq<char>>::empty());
    assert(full_paths(seq![x], p) == full_paths(seq![x].drop_last(), p) + seq![full] + match x.item {
        FilesystemItem::Directory { children, .. } => full_paths(children@, full),
        _ => seq![],
    });
    match x.item {
        FilesystemItem::Directory { children, .. } => {
            assert(Seq::<Seq<char>>::empty() + seq![full] + full_paths(children@, full) =~= seq![full] + full_paths(
                children@,
                full,
            ));
        },
        _ => {
            assert(full_paths(x.item.spec_children(), full) =~= Seq::<Seq<char>>::empty());
            assert(Seq::<Seq<char>>::empty() + seq![full] + Seq::<Seq<char>>::empty() =~= seq![full]
                + Seq::<Seq<char>>::empty());
        },
    }
}

proof fn lemma_no_dups_split(a: Seq<Seq<char>>, b: Seq<Seq<char>>)
    requires
        no_dups(a + b),
    ensures
        no_dups(a),
        no_dups(b),
        forall|i: int| 0 <= i < b.len() ==> !path_set(a).contains(#[trigger] b[i]),
{
    let c = a + b;
    assert forall|i: int, j: int| 0 <= i < j < a.len() implies a[i] != a[j] by {
        assert(c[i] == a[i] && c[j] == a[j]);
    }
    assert forall|i: int, j: int| 0 <= i < j < b.len() implies b[i] != b[j] by {
        assert(c[a.len() + i] == b[i] && c[a.len() + j] == b[j]);
    }
    assert forall|i: int| 0 <= i < b.len() implies !path_set(a).contains(#[trigger] b[i]) by {
        if a.contains(b[i]) {
            let k = choose|k: int| 0 <= k < a.len() && a[k] == b[i];
            assert(c[k] == c[a.len() + i]);
        }
    }
}

/// The uniqueness check of a tree without placeholders succeeds exactly when
/// its full paths are distinct and new, and records them.
proof fn lemma_unique_items(ls: Seq<NavigationGuideLine>, k: int, parent: Seq<char>, seen: Set<Seq<char>>)
    requires
        0 <= k <= ls.len(),
        lines_ok(flatten(ls)),
        no_dups(full_paths(ls.skip(k), parent)),
        disjoint(seen, full_paths(ls.skip(k), parent)),
    ensures
        unique_items(ls, k, parent, seen) == Ok::<Set<Seq<char>>, SyntaxErrorView>(
            seen.union(path_set(full_paths(ls.skip(k), parent))),
        ),
    decreases ls, ls.len() - k,
{
    if k == ls.len() {
        assert(ls.skip(k) =~= Seq::<NavigationGuideLine>::empty());
        assert(seen.union(path_set(Seq::<Seq<char>>::empty())) =~= seen);
    } else {
        let x = ls[k];
        assert(ls.skip(k) =~= seq![x] + ls.skip(k + 1));
        lemma_full_paths_append(seq![x], ls.skip(k + 1), parent);
        let a = full_paths(seq![x], parent);
        let b = full_paths(ls.skip(k + 1), parent);
        lemma_no_dups_split(a, b);
        lemma_lines_ok_parts(ls, k);
        assert(disjoint(seen, a)) by {
            assert forall|i: int| 0 <= i < a.len() implies !seen.contains(#[trigger] a[i]) by {
                assert((a + b)[i] == a[i]);
            }
        }
        lemma_unique_item(x, parent, seen);
        let seen2 = seen.union(path_set(a));
        assert(disjoint(seen2, b)) by {
            assert forall|i: int| 0 <= i < b.len() implies !seen2.contains(#[trigger] b[i]) by {
                assert((a + b)[a.len() + i] == b[i]);
            }
        }
        lemma_unique_items(ls, k + 1, parent, seen2);
        assert(seen2.union(path_set(b)) =~= seen.union(path_set(a + b))) by {
            assert forall|p: Seq<char>| (a + b).contains(p) <==> a.contains(p) || b.contains(p) by {
                if (a + b).contains(p) {
                    let i = choose|i: int| 0 <= i < (a + b).len() && (a + b)[i] == p;
                    if i < a.len() {
                        assert(a[i] == p);
                    } else {
                        assert(b[i - a.len()] == p);
                    }
                }
                if a.contains(p) {
                    let i = choose|i: int| 0 <= i < a.len() && a[i] == p;
                    assert((a + b)[i] == p);
                }
                if b.contains(p) {
                    let i = choose|i: int| 0 <= i < b.len() && b[i] == p;
                    assert((a + b)[a.len() + i] == p);
                }
            }
        }
    }
}

proof fn lemma_unique_item(l: NavigationGuideLine, parent: Seq<char>, seen: Set<Seq<char>>)
    requires
        line_ok(l.flat()),
        lines_ok(flatten(l.item.spec_children())),
        no_dups(full_paths(seq![l], parent)),
        disjoint(seen, full_paths(seq![l], parent)),
    ensures
        unique_item(l, parent, seen) == Ok::<Set<Seq<char>>, SyntaxErrorView>(
            seen.union(path_set(full_paths(seq![l], parent))),
        ),
    decreases l, 1int,
{
    lemma_full_paths_single(l, parent);
    let full = join_path(parent, l.item.spec_path());
    let below = full_paths(l.item.spec_children(), full);
    let all = seq![full] + below;
    assert(all[0] == full);
    assert(!seen.contains(full));
    lemma_no_dups_split(seq![full], below);
    match l.item {
        FilesystemItem::Directory { children, .. } => {
            assert(children@ == l.item.spec_children());
            assert(children@.skip(0) =~= children@);
            let seen2 = seen.insert(full);
            assert(disjoint(seen2, below)) by {
                assert forall|i: int| 0 <= i < below.len() implies !seen2.contains(#[trigger] below[i]) by {
                    assert(all[1 + i] == below[i]);
                    assert(!path_set(seq![full]).contains(below[i]));
                    assert(seq![full][0] == full);
                    if below[i] == full {
                        assert(seq![full].contains(full));
                    }
                }
            }
            lemma_unique_items(children@, 0, full, seen2);
            assert(seen2.union(path_set(below)) =~= seen.union(path_set(all))) by {
                assert forall|p: Seq<char>| all.contains(p) <==> p == full || below.contains(p) by {
                    if all.contains(p) {
                        let i = choose|i: int| 0 <= i < all.len() && all[i] == p;
                        if i > 0 {
                            assert(below[i - 1] == p);
                        }
                    }
                    if below.contains(p) {
                        let i = choose|i: int| 0 <= i < below.len() && below[i] == p;
                        assert(all[1 + i] == p);
                    }
                    if p == full {
                        assert(all[0] == p);
                    }
                }
            }
        },
        FilesystemItem::File { .. } => {
            assert(below =~= Seq::<Seq<char>>::empty());
            assert(seen.insert(full) =~= seen.union(path_set(all))) by {
                assert(all =~= seq![full]);
                assert forall|p: Seq<char>| all.contains(p) <==> p == full by {
                    if all.contains(p) {
                        let i = choose|i: int| 0 <= i < all.len() && all[i] == p;
                    }
                }
            }
        },
        FilesystemItem::Placeholder { .. } => {},
    }
}


// ---------------------------------------------------------------------------
// The full paths of a generated tree are the entries' paths

/// Each entry's directory lies on the path of the entry before it, as in a
/// depth-first traversal.
pub open spec fn on_path(es: Seq<(Seq<Seq<char>>, bool)>) -> bool {
    forall|i: int|
        1 <= i < es.len() ==> entry_depth(#[trigger] es[i]) <= es[i - 1].0.len() && es[i].0.drop_last() == es[i
            - 1].0.take(entry_depth(es[i]) as int)
}

/// Components that are nonempty names without `/`.
pub open spec fn plain_components(c: Seq<Seq<char>>) -> bool {
    forall|i: int| 0 <= i < c.len() ==> (#[trigger] c[i]).len() > 0 && !c[i].contains('/')
}

pub(crate) proof fn lemma_flatten_levels(ls: Seq<NavigationGuideLine>, lvl: nat)
    requires
        well_nested(ls, lvl),
    ensures
        forall|i: int| 0 <= i < flatten(ls).len() ==> (#[trigger] flatten(ls)[i]).indent_level >= lvl,
    decreases ls,
{
    if ls.len() > 0 {
        let d = ls.drop_last();
        let x = ls[ls.len() - 1];
        lemma_flatten_levels(d, lvl);
        let below = match x.item {
            FilesystemItem::Directory { children, .. } => {
                lemma_flatten_levels(children@, lvl + 1);
                flatten(children@)
            },
            _ => seq![],
        };
        assert(flatten(ls) == flatten(d) + seq![x.flat()] + below);
        assert forall|i: int| 0 <= i < flatten(ls).len() implies (#[trigger] flatten(ls)[i]).indent_level >= lvl by {
            let fd = flatten(d);
            if i < fd.len() {
                assert(flatten(ls)[i] == fd[i]);
            } else if i > fd.len() {
                assert(flatten(ls)[i] == below[i - fd.len() - 1]);
            }
        }
    }
}

/// Along a traversal, the entries below an entry keep its components as
/// their prefix.
proof fn lemma_on_path_prefix(seg: Seq<(Seq<Seq<char>>, bool)>, m: int, j: int, l: nat)
    requires
        on_path(seg),
        0 <= m < j < seg.len(),
        seg[m].0.len() == l,
        forall|q: int| m < q <= j ==> (#[trigger] seg[q]).0.len() > l,
    ensures
        seg[j].0.take(l as int) == seg[m].0,
    decreases j - m,
{
    let c = seg[j].0;
    let prev = seg[j - 1].0;
    let dj = entry_depth(seg[j]);
    assert(c.drop_last() == prev.take(dj as int));
    assert(c.take(l as int) =~= c.drop_last().take(l as int));
    assert(prev.take(dj as int).take(l as int) =~= prev.take(l as int));
    if j - 1 == m {
        assert(prev.take(l as int) =~= prev);
    } else {
        lemma_on_path_prefix(seg, m, j - 1, l);
    }
}

#[verifier::rlimit(40)]
proof fn lemma_full_paths_match(
    ls: Seq<NavigationGuideLine>,
    lvl: nat,
    pre: Seq<Seq<char>>,
    seg: Seq<(Seq<Seq<char>>, bool)>,
)
    requires
        well_nested(ls, lvl),
        flatten(ls).len() == seg.len(),
        forall|i: int|
            0 <= i < seg.len() ==> (#[trigger] flatten(ls)[i]).path == entry_name(seg[i])
                && flatten(ls)[i].indent_level as int == entry_depth(seg[i]),
        pre.len() == lvl,
        forall|i: int| 0 <= i < seg.len() ==> (#[trigger] seg[i]).0.len() > lvl && seg[i].0.take(lvl as int) == pre,
        on_path(seg),
    ensures
        full_paths(ls, joined(pre)) == seg.map_values(|e: (Seq<Seq<char>>, bool)| joined(e.0)),
    decreases ls,
{
    let jp = joined(pre);
    if ls.len() == 0 {
        assert(seg.map_values(|e: (Seq<Seq<char>>, bool)| joined(e.0)) =~= Seq::<Seq<char>>::empty());
    } else {
        let d = ls.drop_last();
        let x = ls[ls.len() - 1];
        let fd = flatten(d);
        let m = fd.len() as int;
        let ch = x.item.spec_children();
        let fc = flatten(ch);
        assert(flatten(ls) == fd + seq![x.flat()] + fc) by {
            match x.item {
                FilesystemItem::Directory { children, .. } => {},
                _ => {
                    assert(fc =~= Seq::<FlatLine>::empty());
                },
            }
        }
        assert(well_nested(d, lvl));
        assert(x.indent_level == lvl);
        let sd = seg.take(m);
        assert forall|i: int| 0 <= i < sd.len() implies (#[trigger] flatten(d)[i]).path == entry_name(sd[i])
            && flatten(d)[i].indent_level as int == entry_depth(sd[i]) by {
            assert(flatten(ls)[i] == fd[i]);
            assert(sd[i] == seg[i]);
        }
        assert forall|i: int| 0 <= i < sd.len() implies (#[trigger] sd[i]).0.len() > lvl && sd[i].0.take(lvl as int) == pre by {
            assert(sd[i] == seg[i]);
        }
        assert(on_path(sd)) by {
            assert forall|i: int| 1 <= i < sd.len() implies entry_depth(#[trigger] sd[i]) <= sd[i - 1].0.len()
                && sd[i].0.drop_last() == sd[i - 1].0.take(entry_depth(sd[i]) as int) by {
                assert(sd[i] == seg[i] && sd[i - 1] == seg[i - 1]);
            }
        }
        lemma_full_paths_match(d, lvl, pre, sd);
        let e = seg[m];
        assert(flatten(ls)[m] == x.flat());
        let name = x.item.spec_path();
        assert(name == entry_name(e));
        assert(entry_depth(e) == lvl);
        assert(e.0 =~= pre.push(name)) by {
            assert(e.0.len() == lvl + 1);
            assert(e.0.take(lvl as int) == pre);
            assert forall|q: int| 0 <= q < e.0.len() implies e.0[q] == pre.push(name)[q] by {
                if q < lvl {
                    assert(e.0.take(lvl as int)[q] == e.0[q]);
                }
            }
        }
        assert(e.0.drop_last() =~= pre);
        let full = join_path(jp, name);
        assert(joined(e.0) == full);
        let sc = seg.subrange(m + 1, seg.len() as int);
        let below = match x.item {
            FilesystemItem::Directory { children, .. } => full_paths(children@, full),
            _ => seq![],
        };
        assert(full_paths(ls, jp) == full_paths(d, jp) + seq![full] + below);
        if x.item.kind() == LineKind::Directory {
            assert(well_nested(ch, lvl + 1)) by {
                match x.item {
                    FilesystemItem::Directory { children, .. } => {},
                    _ => {},
                }
            }
            lemma_flatten_levels(ch, lvl + 1);
            assert forall|i: int| 0 <= i < sc.len() implies (#[trigger] flatten(ch)[i]).path == entry_name(sc[i])
                && flatten(ch)[i].indent_level as int == entry_depth(sc[i]) by {
                assert(flatten(ls)[m + 1 + i] == fc[i]);
                assert(sc[i] == seg[m + 1 + i]);
            }
            assert forall|q: int| m < q < seg.len() implies (#[trigger] seg[q]).0.len() > lvl + 1 by {
                assert(flatten(ls)[q] == fc[q - m - 1]);
                assert(fc[q - m - 1].indent_level >= lvl + 1);
            }
            assert forall|i: int| 0 <= i < sc.len() implies (#[trigger] sc[i]).0.len() > lvl + 1 && sc[i].0.take(
                lvl + 1 as int,
            ) == e.0 by {
                assert(sc[i] == seg[m + 1 + i]);
                lemma_on_path_prefix(seg, m, m + 1 + i, lvl + 1);
            }
            assert(on_path(sc)) by {
                assert forall|i: int| 1 <= i < sc.len() implies entry_depth(#[trigger] sc[i]) <= sc[i - 1].0.len()
                    && sc[i].0.drop_last() == sc[i - 1].0.take(entry_depth(sc[i]) as int) by {
                    assert(sc[i] == seg[m + 1 + i] && sc[i - 1] == seg[m + i]);
                }
            }
            match x.item {
                FilesystemItem::Directory { children, .. } => {
                    lemma_full_paths_match(children@, lvl + 1, e.0, sc);
                },
                _ => {},
            }
        } else {
            assert(fc =~= Seq::<FlatLine>::empty()) by {
                match x.item {
                    FilesystemItem::Directory { children, .. } => {},
                    _ => {},
                }
            }
            assert(sc =~= Seq::<(Seq<Seq<char>>, bool)>::empty());
            assert(below =~= Seq::<Seq<char>>::empty());
        }
        assert(seg.map_values(|e: (Seq<Seq<char>>, bool)| joined(e.0)) =~= sd.map_values(
            |e: (Seq<Seq<char>>, bool)| joined(e.0),
        ) + seq![joined(e.0)] + sc.map_values(|e: (Seq<Seq<char>>, bool)| joined(e.0)));
    }
}


// ---------------------------------------------------------------------------
// Distinct entries have distinct full paths

proof fn lemma_joined_shape(c: Seq<Seq<char>>)
    requires
        plain_components(c),
    ensures
        c.len() == 0 ==> joined(c) == Seq::<char>::empty(),
        c.len() == 1 ==> joined(c) == c[0],
        c.len() >= 1 ==> joined(c).len() > 0,
        c.len() >= 2 ==> joined(c) == joined(c.drop_last()) + seq!['/'] + c.last() && joined(c.drop_last()).len() > 0,
    decreases c.len(),
{
    if c.len() >= 1 {
        let d = c.drop_last();
        assert(plain_components(d)) by {
            assert forall|i: int| 0 <= i < d.len() implies (#[trigger] d[i]).len() > 0 && !d[i].contains('/') by {
                assert(d[i] == c[i]);
            }
        }
        lemma_joined_shape(d);
        assert(c.last() == c[c.len() - 1]);
        if c.len() == 1 {
            assert(d.len() == 0);
        }
    }
}

proof fn lemma_no_slash_at(x: Seq<char>, i: int)
    requires
        !x.contains('/'),
        0 <= i < x.len(),
    ensures
        x[i] != '/',
{
    if x[i] == '/' {
        assert(x.contains('/'));
    }
}

/// Joining plain components with `/` loses nothing.
proof fn lemma_joined_injective(a: Seq<Seq<char>>, b: Seq<Seq<char>>)
    requires
        plain_components(a),
        plain_components(b),
        joined(a) == joined(b),
    ensures
        a == b,
    decreases a.len() + b.len(),
{
    lemma_joined_shape(a);
    lemma_joined_shape(b);
    if a.len() == 0 || b.len() == 0 {
        assert(a.len() == 0 && b.len() == 0);
        assert(a =~= b);
    } else {
        let la = a.last();
        let lb = b.last();
        assert(a[a.len() - 1] == la && b[b.len() - 1] == lb);
        let x = joined(a);
        if a.len() == 1 && b.len() == 1 {
            assert(a =~= b);
        } else if a.len() == 1 {
            let jb = joined(b.drop_last());
            assert(x[jb.len() as int] == '/');
            lemma_no_slash_at(a[0], jb.len() as int);
        } else if b.len() == 1 {
            let ja = joined(a.drop_last());
            assert(x[ja.len() as int] == '/');
            lemma_no_slash_at(b[0], ja.len() as int);
        } else {
            let ja = joined(a.drop_last());
            let jb = joined(b.drop_last());
            if la.len() == lb.len() {
                assert(ja.len() == jb.len());
                assert(ja =~= x.take(ja.len() as int));
                assert(jb =~= x.take(jb.len() as int));
                assert(la =~= x.skip(ja.len() + 1 as int));
                assert(lb =~= x.skip(jb.len() + 1 as int));
                let da = a.drop_last();
                let db = b.drop_last();
                assert(plain_components(da)) by {
                    assert forall|i: int| 0 <= i < da.len() implies (#[trigger] da[i]).len() > 0 && !da[i].contains('/') by {
                        assert(da[i] == a[i]);
                    }
                }
                assert(plain_components(db)) by {
                    assert forall|i: int| 0 <= i < db.len() implies (#[trigger] db[i]).len() > 0 && !db[i].contains('/') by {
                        assert(db[i] == b[i]);
                    }
                }
                lemma_joined_injective(da, db);
                assert(a =~= da.push(la));
                assert(b =~= db.push(lb));
            } else if la.len() < lb.len() {
                let p = ja.len() as int;
                assert(x[p] == '/');
                assert(x[p] == lb[p - jb.len() - 1]);
                lemma_no_slash_at(lb, p - jb.len() - 1);
            } else {
                let p = jb.len() as int;
                assert(x[p] == '/');
                assert(x[p] == la[p - ja.len() - 1]);
                lemma_no_slash_at(la, p - ja.len() - 1);
            }
        }
    }
}

// ---------------------------------------------------------------------------
// The law

/// A generated guide passes `check`: when `dump` renders the entries of a
/// depth-first traversal of distinct entries (each entry's directory on the
/// path of the entry before it, components that are names without `/`,
/// other than `.` and `..`, no entry deeper than a guide may list), the
/// document parses as those entries, and every tree with that flattening
/// and nesting (the tree `Parser::parse` returns) passes the syntax checks.
pub proof fn law_generated_guide_passes_check(
    indent: usize,
    max_depth: Option<usize>,
    root: Seq<char>,
    es: Seq<(Seq<Seq<char>>, bool)>,
    text: Seq<char>,
)
    requires
        spec_dump(indent, max_depth, root, es) == Ok::<Seq<char>, AppErrorView>(text),
        traversal_ordered(es),
        on_path(es),
        forall|i: int|
            0 <= i < es.len() ==> plain_components((#[trigger] es[i]).0) && !is_dot_component(entry_name(es[i]))
                && entry_depth(es[i]) <= MAX_LOGICAL_DEPTH,
        forall|i: int, j: int| 0 <= i < j < es.len() ==> (#[trigger] es[i]).0 != (#[trigger] es[j]).0,
        es.len() + 2 <= usize::MAX,
    ensures
        spec_parse(wrap_guide(text)) == Ok::<GuideSpec, SyntaxErrorView>(
            GuideSpec { lines: generated_lines(es, 2), prologue: None, epilogue: None, ignore: false },
        ),
        forall|t: Seq<NavigationGuideLine>|
            flatten(t) == generated_lines(es, 2) && well_nested(t, 0) ==> spec_validate(t) is None,
{
    let ind = indent as nat;
    assert forall|i: int| 0 <= i < es.len() implies !entry_name(#[trigger] es[i]).contains('/') && entry_depth(es[i])
        <= MAX_LOGICAL_DEPTH by {
        let c = es[i].0;
        assert(plain_components(c));
        assert(c.len() > 0);
        assert(c[c.len() - 1] == entry_name(es[i]));
    }
    law_generated_guide_reads_back(indent, max_depth, root, es, text);
    lemma_render_terminated(es, ind);
    let gl = generated_lines(es, 2);
    assert forall|i: int| 0 <= i < gl.len() implies line_ok(#[trigger] gl[i]) by {
        let e = es[i];
        let c = e.0;
        assert(c[c.len() - 1] == entry_name(e));
        assert(!has_forbidden_control(entry_name(e))) by {
            assert(spec_serialize_component(entry_name(e)) is Some);
        }
        lemma_generated_line_ok(e, 2 + i);
    }
    let joins = es.map_values(|e: (Seq<Seq<char>>, bool)| joined(e.0));
    assert(no_dups(joins)) by {
        assert forall|i: int, j: int| 0 <= i < j < joins.len() implies joins[i] != joins[j] by {
            if joins[i] == joins[j] {
                lemma_joined_injective(es[i].0, es[j].0);
            }
        }
    }
    assert forall|t: Seq<NavigationGuideLine>| flatten(t) == gl && well_nested(t, 0) implies spec_validate(t) is None by {
        assert(t.len() > 0) by {
            if t.len() == 0 {
                assert(flatten(t) =~= Seq::<FlatLine>::empty());
            }
        }
        lemma_items_ok(t, 0, 0);
        lemma_generated_levels_consistent(es, t, 2);
        assert forall|i: int| 0 <= i < es.len() implies (#[trigger] flatten(t)[i]).path == entry_name(es[i])
            && flatten(t)[i].indent_level as int == entry_depth(es[i]) by {
            assert(flatten(t)[i] == generated_line(es[i], 2 + i));
        }
        assert forall|i: int| 0 <= i < es.len() implies (#[trigger] es[i]).0.len() > 0 && es[i].0.take(0) == Seq::<
            Seq<char>,
        >::empty() by {
            assert(es[i].0.take(0) =~= Seq::<Seq<char>>::empty());
        }
        lemma_full_paths_match(t, 0, Seq::<Seq<char>>::empty(), es);
        assert(joined(Seq::<Seq<char>>::empty()) == Seq::<char>::empty());
        assert(t.skip(0) =~= t);
        lemma_unique_items(t, 0, Seq::<char>::empty(), Set::<Seq<char>>::empty());
    }
}


// ---------------------------------------------------------------------------
// A generated guide matches the listings of its traversal

/// A tree and the entries of the traversal its lines came from, below the
/// directory with components `pre` at level `lvl`.
pub open spec fn corr(
    ls: Seq<NavigationGuideLine>,
    lvl: nat,
    pre: Seq<Seq<char>>,
    seg: Seq<(Seq<Seq<char>>, bool)>,
) -> bool {
    &&& well_nested(ls, lvl)
    &&& flatten(ls).len() == seg.len()
    &&& forall|i: int|
        0 <= i < seg.len() ==> (#[trigger] flatten(ls)[i]).path == entry_name(seg[i])
            && flatten(ls)[i].indent_level as int == entry_depth(seg[i]) && flatten(ls)[i].kind == line_kind(seg[i].1)
    &&& pre.len() == lvl
    &&& forall|i: int| 0 <= i < seg.len() ==> (#[trigger] seg[i]).0.len() > lvl && seg[i].0.take(lvl as int) == pre
    &&& on_path(seg)
}

/// The kind a listing reports for a generated entry.
pub open spec fn entry_kind(is_dir: bool) -> Result<SupportedEntryKind, UnsupportedEntryKind> {
    if is_dir {
        Ok(SupportedEntryKind::Directory)
    } else {
        Ok(SupportedEntryKind::RegularFile)
    }
}

/// The names of a listing can all be shown in a guide: UTF-8 without
/// control characters, and, in the root, neither rooted nor drive-prefixed.
pub open spec fn names_representable(
    es: Seq<(Seq<u8>, Result<SupportedEntryKind, UnsupportedEntryKind>)>,
    at_root: bool,
) -> bool {
    forall|k: int|
        0 <= k < es.len() ==> {
            let n = decode_utf8((#[trigger] es[k]).0);
            &&& valid_utf8(es[k].0)
            &&& !has_forbidden_control(n)
            &&& !(at_root && ((n.len() > 0 && n[0] == '\\') || spec_has_windows_drive_prefix(n)))
        }
}

proof fn lemma_representable_scan(
    es: Seq<(Seq<u8>, Result<SupportedEntryKind, UnsupportedEntryKind>)>,
    line: usize,
    mentioned: Seq<Seq<char>>,
    at_root: bool,
)
    requires
        names_representable(es, at_root),
    ensures
        scan_entries(es, line, mentioned, at_root) is Ok,
    decreases es.len(),
{
    if es.len() > 0 {
        let d = es.drop_last();
        assert forall|k: int| 0 <= k < d.len() implies #[trigger] d[k] == es[k] by {}
        lemma_representable_scan(d, line, mentioned, at_root);
        assert(es.last() == es[es.len() - 1]);
    }
}

/// Every entry is listed, with its kind, in the first listing of its
/// directory, whose names can all be shown in a guide.
pub open spec fn listed(snap: Seq<(Seq<char>, ListingView)>, seg: Seq<(Seq<Seq<char>>, bool)>) -> bool {
    forall|i: int|
        0 <= i < seg.len() ==> (lookup(snap, joined((#[trigger] seg[i]).0.drop_last()), 0) matches Some(
            ListingView::Entries(l),
        ) && find_entry(l, entry_name(seg[i]), 0) == Some(entry_kind(seg[i].1)) && names_representable(
            l,
            joined(seg[i].0.drop_last()).len() == 0,
        ))
}

#[verifier::rlimit(40)]
proof fn lemma_corr_at(ls: Seq<NavigationGuideLine>, lvl: nat, pre: Seq<Seq<char>>, seg: Seq<(Seq<Seq<char>>, bool)>, k: int)
    requires
        corr(ls, lvl, pre, seg),
        0 <= k < ls.len(),
    ensures
        ({
            let m = flatten(ls.take(k)).len() as int;
            let x = ls[k];
            let ch = x.item.spec_children();
            let n = flatten(ch).len() as int;
            &&& m + 1 + n <= seg.len()
            &&& seg[m].0 == pre.push(x.item.spec_path())
            &&& x.item.spec_path() == entry_name(seg[m])
            &&& x.item.kind() == line_kind(seg[m].1)
            &&& x.indent_level == lvl
            &&& (x.item.kind() == LineKind::Directory ==> corr(ch, lvl + 1, seg[m].0, seg.subrange(m + 1, m + 1 + n)))
            &&& (x.item.kind() != LineKind::Directory ==> n == 0)
        }),
{
    let m = flatten(ls.take(k)).len() as int;
    let x = ls[k];
    let ch = x.item.spec_children();
    let fc = flatten(ch);
    let n = fc.len() as int;
    lemma_flatten_at(ls, k);
    lemma_well_nested_at(ls, lvl, k);
    let f = flatten(ls);
    assert(f[m] == x.flat());
    let e = seg[m];
    assert(x.item.spec_path() == entry_name(e));
    assert(entry_depth(e) == lvl);
    assert(e.0 =~= pre.push(x.item.spec_path())) by {
        assert(e.0.len() == lvl + 1);
        assert(e.0.take(lvl as int) == pre);
        assert forall|q: int| 0 <= q < e.0.len() implies e.0[q] == pre.push(x.item.spec_path())[q] by {
            if q < lvl {
                assert(e.0.take(lvl as int)[q] == e.0[q]);
            }
        }
    }
    if x.item.kind() == LineKind::Directory {
        let sc = seg.subrange(m + 1, m + 1 + n);
        lemma_flatten_levels(ch, lvl + 1);
        assert forall|i: int| 0 <= i < sc.len() implies (#[trigger] flatten(ch)[i]).path == entry_name(sc[i])
            && flatten(ch)[i].indent_level as int == entry_depth(sc[i]) && flatten(ch)[i].kind == line_kind(sc[i].1) by {
            assert(f[m + 1 + i] == fc[i]);
            assert(sc[i] == seg[m + 1 + i]);
        }
        assert forall|q: int| m < q <= m + n implies (#[trigger] seg[q]).0.len() > lvl + 1 by {
            assert(f[q] == fc[q - m - 1]);
            assert(fc[q - m - 1].indent_level >= lvl + 1);
        }
        assert forall|i: int| 0 <= i < sc.len() implies (#[trigger] sc[i]).0.len() > lvl + 1 && sc[i].0.take(
            lvl + 1 as int,
        ) == e.0 by {
            assert(sc[i] == seg[m + 1 + i]);
            lemma_on_path_prefix(seg, m, m + 1 + i, lvl + 1);
        }
        assert(on_path(sc)) by {
            assert forall|i: int| 1 <= i < sc.len() implies entry_depth(#[trigger] sc[i]) <= sc[i - 1].0.len()
                && sc[i].0.drop_last() == sc[i - 1].0.take(entry_depth(sc[i]) as int) by {
                assert(sc[i] == seg[m + 1 + i] && sc[i - 1] == seg[m + i]);
            }
        }
    } else {
        assert(fc =~= Seq::<FlatLine>::empty()) by {
            match x.item {
                FilesystemItem::Directory { children, .. } => {},
                _ => {},
            }
        }
    }
}

proof fn lemma_listed_sub(snap: Seq<(Seq<char>, ListingView)>, seg: Seq<(Seq<Seq<char>>, bool)>, a: int, b: int)
    requires
        listed(snap, seg),
        0 <= a <= b <= seg.len(),
    ensures
        listed(snap, seg.subrange(a, b)),
{
    assert forall|i: int| 0 <= i < b - a implies (lookup(snap, joined((#[trigger] seg.subrange(a, b)[i]).0.drop_last()), 0)
        matches Some(ListingView::Entries(l)) && find_entry(l, entry_name(seg.subrange(a, b)[i]), 0) == Some(
        entry_kind(seg.subrange(a, b)[i].1),
    ) && names_representable(l, joined(seg.subrange(a, b)[i].0.drop_last()).len() == 0)) by {
        assert(seg.subrange(a, b)[i] == seg[a + i]);
    }
}

/// Every line of a tree of generated lines is found, with its kind, in the
/// listing of its directory.
proof fn lemma_verify_items(
    snap: Seq<(Seq<char>, ListingView)>,
    res: spec_fn(Seq<char>, Seq<char>) -> bool,
    ls: Seq<NavigationGuideLine>,
    lvl: nat,
    pre: Seq<Seq<char>>,
    seg: Seq<(Seq<Seq<char>>, bool)>,
    k: int,
)
    requires
        corr(ls, lvl, pre, seg),
        listed(snap, seg),
        lines_ok(flatten(ls)),
        forall|i: int| 0 <= i < seg.len() ==> !entry_name(#[trigger] seg[i]).contains('/'),
        0 <= k,
    ensures
        verify_items(snap, res, ls, joined(pre), lvl == 0, k) == Ok::<(), AppErrorView>(()),
    decreases ls, ls.len() - k,
{
    if k < ls.len() {
        let x = ls[k];
        let m = flatten(ls.take(k)).len() as int;
        let ch = x.item.spec_children();
        let n = flatten(ch).len() as int;
        lemma_corr_at(ls, lvl, pre, seg, k);
        lemma_lines_ok_parts(ls, k);
        let e = seg[m];
        assert(e.0.drop_last() =~= pre);
        let sc = seg.subrange(m + 1, m + 1 + n);
        lemma_listed_sub(snap, seg, m + 1, m + 1 + n);
        assert forall|i: int| 0 <= i < sc.len() implies !entry_name(#[trigger] sc[i]).contains('/') by {
            assert(sc[i] == seg[m + 1 + i]);
        }
        lemma_verify_item(snap, res, x, lvl, pre, e, sc);
        lemma_verify_items(snap, res, ls, lvl, pre, seg, k + 1);
    }
}

proof fn lemma_verify_item(
    snap: Seq<(Seq<char>, ListingView)>,
    res: spec_fn(Seq<char>, Seq<char>) -> bool,
    x: NavigationGuideLine,
    lvl: nat,
    pre: Seq<Seq<char>>,
    e: (Seq<Seq<char>>, bool),
    sc: Seq<(Seq<Seq<char>>, bool)>,
)
    requires
        e.0 == pre.push(x.item.spec_path()),
        x.item.spec_path() == entry_name(e),
        !entry_name(e).contains('/'),
        forall|i: int| 0 <= i < sc.len() ==> !entry_name(#[trigger] sc[i]).contains('/'),
        x.item.kind() == line_kind(e.1),
        line_ok(x.flat()),
        lines_ok(flatten(x.item.spec_children())),
        (lookup(snap, joined(pre), 0) matches Some(ListingView::Entries(l)) && find_entry(l, entry_name(e), 0) == Some(
            entry_kind(e.1),
        ) && names_representable(l, joined(pre).len() == 0)),
        x.item.kind() == LineKind::Directory ==> corr(x.item.spec_children(), lvl + 1, e.0, sc),
        listed(snap, sc),
    ensures
        verify_item(snap, res, x, joined(pre)) == Ok::<(), AppErrorView>(()),
    decreases x, 1int,
{
    let name = x.item.spec_path();
    let dir = joined(pre);
    let full = join_path(dir, name);
    lemma_split_plain_on(name, '/');
    assert(spec_split(name, '/') =~= seq![name]);
    match lookup(snap, dir, 0) {
        Some(ListingView::Entries(l)) => {
            lemma_representable_scan(l, x.line_number, seq![], dir.len() == 0);
        },
        _ => {},
    }
    assert(walk(snap, res, x, seq![name], 1, join_path(dir, name), full) == Ok::<(), AppErrorView>(()));
    assert(walk(snap, res, x, seq![name], 0, dir, full) == Ok::<(), AppErrorView>(()));
    assert(e.0.drop_last() =~= pre);
    assert(joined(e.0) == full);
    match x.item {
        FilesystemItem::Directory { children, .. } => {
            assert(children@ == x.item.spec_children());
            lemma_verify_items(snap, res, children@, lvl + 1, e.0, sc, 0);
        },
        _ => {},
    }
}

/// A guide generated from a traversal passes verification against every
/// snapshot that lists each traversed entry, with its kind, in the listing
/// of its directory, when every name of those listings can be shown in a
/// guide, whatever names the host resolves: what `dump` writes, `verify`
/// accepts.
pub proof fn law_generated_guide_verifies(
    indent: usize,
    max_depth: Option<usize>,
    root: Seq<char>,
    es: Seq<(Seq<Seq<char>>, bool)>,
    text: Seq<char>,
    snap: Seq<(Seq<char>, ListingView)>,
    res: spec_fn(Seq<char>, Seq<char>) -> bool,
)
    requires
        spec_dump(indent, max_depth, root, es) == Ok::<Seq<char>, AppErrorView>(text),
        traversal_ordered(es),
        on_path(es),
        forall|i: int|
            0 <= i < es.len() ==> plain_components((#[trigger] es[i]).0) && !is_dot_component(entry_name(es[i]))
                && entry_depth(es[i]) <= MAX_LOGICAL_DEPTH,
        forall|i: int, j: int| 0 <= i < j < es.len() ==> (#[trigger] es[i]).0 != (#[trigger] es[j]).0,
        es.len() + 2 <= usize::MAX,
        listed(snap, es),
    ensures
        forall|t: Seq<NavigationGuideLine>|
            flatten(t) == generated_lines(es, 2) && well_nested(t, 0) ==> spec_verify(t, snap, res) == Ok::<
                (),
                AppErrorView,
            >(()),
{
    law_generated_guide_passes_check(indent, max_depth, root, es, text);
    law_generated_guide_reads_back(indent, max_depth, root, es, text);
    lemma_render_terminated(es, indent as nat);
    let gl = generated_lines(es, 2);
    assert forall|i: int| 0 <= i < es.len() implies !entry_name(#[trigger] es[i]).contains('/') by {
        let c = es[i].0;
        assert(plain_components(c));
        assert(c[c.len() - 1] == entry_name(es[i]));
    }
    assert forall|i: int| 0 <= i < gl.len() implies line_ok(#[trigger] gl[i]) by {
        let e = es[i];
        let c = e.0;
        assert(c[c.len() - 1] == entry_name(e));
        assert(!has_forbidden_control(entry_name(e))) by {
            assert(spec_serialize_component(entry_name(e)) is Some);
        }
        lemma_generated_line_ok(e, 2 + i);
    }
    assert forall|t: Seq<NavigationGuideLine>|
        flatten(t) == gl && well_nested(t, 0) implies spec_verify(t, snap, res) == Ok::<(), AppErrorView>(()) by {
        assert(spec_validate(t) is None);
        let pre = Seq::<Seq<char>>::empty();
        assert forall|i: int| 0 <= i < es.len() implies (#[trigger] es[i]).0.len() > 0 && es[i].0.take(0) == pre by {
            assert(es[i].0.take(0) =~= pre);
        }
        assert forall|i: int| 0 <= i < es.len() implies (#[trigger] flatten(t)[i]).path == entry_name(es[i])
            && flatten(t)[i].indent_level as int == entry_depth(es[i]) && flatten(t)[i].kind == line_kind(es[i].1) by {
            assert(flatten(t)[i] == gl[i]);
        }
        assert(corr(t, 0, pre, es));
        assert(joined(pre) =~= Seq::<char>::empty());
        lemma_verify_items(snap, res, t, 0, pre, es, 0);
    }
}

// ---------------------------------------------------------------------------
// The guide generated from the walk of a root

/// Whether component path `a` comes strictly before `b` in walk order,
/// comparing from component `m` on: a path comes before the paths below
/// it, and siblings in the order of their names.
pub open spec fn path_before(a: Seq<Seq<char>>, b: Seq<Seq<char>>, m: int) -> bool
    decreases a.len() - m,
{
    if m < 0 || m >= a.len() {
        m < b.len()
    } else if m >= b.len() {
        false
    } else if a[m] != b[m] {
        chars_before(a[m], b[m])
    } else {
        path_before(a, b, m + 1)
    }
}

proof fn lemma_chars_irreflexive(a: Seq<char>, i: int)
    requires
        0 <= i,
    ensures
        !chars_before_from(a, a, i),
    decreases a.len() - i,
{
    if i < a.len() {
        lemma_chars_irreflexive(a, i + 1);
    }
}

proof fn lemma_chars_transitive(a: Seq<char>, b: Seq<char>, c: Seq<char>, i: int)
    requires
        0 <= i,
        chars_before_from(a, b, i),
        chars_before_from(b, c, i),
    ensures
        chars_before_from(a, c, i),
    decreases a.len() - i,
{
    if i < a.len() && i < b.len() && i < c.len() && a[i] == b[i] && b[i] == c[i] {
        lemma_chars_transitive(a, b, c, i + 1);
    }
}

proof fn lemma_path_irreflexive(a: Seq<Seq<char>>, m: int)
    requires
        0 <= m,
    ensures
        !path_before(a, a, m),
    decreases a.len() - m,
{
    if m < a.len() {
        lemma_path_irreflexive(a, m + 1);
    }
}

proof fn lemma_path_transitive(a: Seq<Seq<char>>, b: Seq<Seq<char>>, c: Seq<Seq<char>>, m: int)
    requires
        0 <= m,
        path_before(a, b, m),
        path_before(b, c, m),
    ensures
        path_before(a, c, m),
    decreases a.len() - m,
{
    if m < a.len() && m < b.len() && m < c.len() {
        if a[m] == b[m] && b[m] == c[m] {
            lemma_path_transitive(a, b, c, m + 1);
        } else if a[m] != b[m] && b[m] != c[m] {
            lemma_chars_transitive(a[m], b[m], c[m], 0);
            if a[m] == c[m] {
                lemma_chars_irreflexive(a[m], 0);
            }
        }
    }
}

/// Paths that agree on components `m..k` compare as they do from `k` on.
proof fn lemma_path_common(a: Seq<Seq<char>>, b: Seq<Seq<char>>, m: int, k: int)
    requires
        0 <= m <= k <= a.len(),
        k <= b.len(),
        forall|q: int| m <= q < k ==> a[q] == b[q],
        path_before(a, b, k),
    ensures
        path_before(a, b, m),
    decreases k - m,
{
    if m < k {
        lemma_path_common(a, b, m + 1, k);
    }
}

proof fn lemma_step_before(p: (Seq<Seq<char>>, bool), e: (Seq<Seq<char>>, bool))
    requires
        pair_in_walk(p, e),
        e.0.len() > 0,
    ensures
        path_before(p.0, e.0, 0),
{
    let d = e.0.len() as int;
    let a = p.0;
    let b = e.0;
    assert forall|q: int| 0 <= q < d - 1 implies a[q] == b[q] by {
        assert(b.drop_last()[q] == a.take(d - 1)[q]);
    }
    if d <= a.len() {
        assert(b.last() == b[d - 1]);
        if a[d - 1] == b[d - 1] {
            lemma_chars_irreflexive(a[d - 1], 0);
        }
        lemma_path_common(a, b, 0, d - 1);
    } else {
        lemma_path_common(a, b, 0, d - 1);
    }
}

/// In an ordered depth-first walk every entry comes before every later one.
proof fn lemma_walk_ordered(es: Seq<(Seq<Seq<char>>, bool)>, i: int, j: int)
    requires
        walk_shaped(es),
        0 <= i < j < es.len(),
    ensures
        path_before(es[i].0, es[j].0, 0),
    decreases j - i,
{
    assert(pair_in_walk(es[j - 1], es[j]));
    assert(es[j].0.len() > 0);
    lemma_step_before(es[j - 1], es[j]);
    if i < j - 1 {
        lemma_walk_ordered(es, i, j - 1);
        lemma_path_transitive(es[i].0, es[j - 1].0, es[j].0, 0);
    }
}

/// The included entries of a walk are no more than the walked ones, and
/// none lies below the traversal limit.
proof fn lemma_select_bounds(
    ex: Option<Seq<PatternView>>,
    limit: TraversalLimit,
    ws: Seq<(Seq<Seq<u8>>, Result<SupportedEntryKind, UnsupportedEntryKind>)>,
)
    requires
        select(ex, limit, ws) is Ok,
        forall|i: int| 0 <= i < ws.len() ==> (#[trigger] ws[i]).0.len() <= usize::MAX,
    ensures
        select(ex, limit, ws)->Ok_0.len() <= ws.len(),
        forall|i: int|
            0 <= i < select(ex, limit, ws)->Ok_0.len() ==> (#[trigger] select(ex, limit, ws)->Ok_0[i]).0.len()
                <= limit.maximum_entry_depth,
    decreases ws.len(),
{
    if ws.len() > 0 {
        let d = ws.drop_last();
        assert forall|i: int| 0 <= i < d.len() implies (#[trigger] d[i]).0.len() <= usize::MAX by {
            assert(d[i] == ws[i]);
        }
        lemma_select_bounds(ex, limit, d);
        assert(ws.last() == ws[ws.len() - 1]);
    }
}

/// A guide generated from the walk of a root reads back to the included
/// entries of the walk, passes the syntax check, and verifies against every
/// snapshot that lists those entries, with their kinds, in listings whose
/// names can all be shown in a guide, whatever names the host resolves.
pub proof fn law_walk_guide_round_trips(
    exclude: Option<Seq<PatternView>>,
    indent: usize,
    max_depth: Option<usize>,
    root: Seq<char>,
    ws: Seq<(Seq<Seq<u8>>, Result<SupportedEntryKind, UnsupportedEntryKind>)>,
    text: Seq<char>,
    snap: Seq<(Seq<char>, ListingView)>,
    res: spec_fn(Seq<char>, Seq<char>) -> bool,
)
    requires
        spec_generate(exclude, indent, max_depth, root, ws) == Ok::<Seq<char>, AppErrorView>(text),
        ws.len() + 2 <= usize::MAX,
        forall|i: int| 0 <= i < ws.len() ==> (#[trigger] ws[i]).0.len() <= usize::MAX,
    ensures
        ({
            let es = decoded_entries(select(exclude, spec_limit(indent, max_depth)->Ok_0, ws)->Ok_0);
            &&& spec_parse(wrap_guide(text)) == Ok::<GuideSpec, SyntaxErrorView>(
                GuideSpec { lines: generated_lines(es, 2), prologue: None, epilogue: None, ignore: false },
            )
            &&& forall|t: Seq<NavigationGuideLine>|
                flatten(t) == generated_lines(es, 2) && well_nested(t, 0) ==> spec_validate(t) is None
            &&& listed(snap, es) ==> forall|t: Seq<NavigationGuideLine>|
                flatten(t) == generated_lines(es, 2) && well_nested(t, 0) ==> spec_verify(t, snap, res) == Ok::<
                    (),
                    AppErrorView,
                >(())
        }),
{
    let limit = spec_limit(indent, max_depth)->Ok_0;
    let sel = select(exclude, limit, ws)->Ok_0;
    let es = decoded_entries(sel);
    lemma_select_bounds(exclude, limit, ws);
    assert(walk_shaped(es));
    assert(limit.maximum_entry_depth <= MAX_LOGICAL_DEPTH + 1);
    assert forall|i: int| 0 <= i < es.len() implies (#[trigger] es[i]).0.len() == sel[i].0.len() && es[i].1 == sel[i].1 by {}
    assert(traversal_ordered(es)) by {
        assert forall|i: int| 1 <= i < es.len() implies entry_depth(#[trigger] es[i]) <= entry_depth(es[i - 1]) + 1
            && (entry_depth(es[i]) == entry_depth(es[i - 1]) + 1 ==> es[i - 1].1) by {
            assert(pair_in_walk(es[i - 1], es[i]));
        }
    }
    assert(on_path(es)) by {
        assert forall|i: int| 1 <= i < es.len() implies entry_depth(#[trigger] es[i]) <= es[i - 1].0.len()
            && es[i].0.drop_last() == es[i - 1].0.take(entry_depth(es[i]) as int) by {
            assert(pair_in_walk(es[i - 1], es[i]));
        }
    }
    assert forall|i: int| 0 <= i < es.len() implies plain_components((#[trigger] es[i]).0) && !is_dot_component(
        entry_name(es[i]),
    ) && entry_depth(es[i]) <= MAX_LOGICAL_DEPTH by {
        let c = es[i].0;
        assert forall|m: int| 0 <= m < c.len() implies (#[trigger] c[m]).len() > 0 && !c[m].contains('/') by {
            assert(plain_entry_name(es[i].0[m]));
        }
        assert(plain_entry_name(es[i].0[c.len() - 1]));
        assert(sel[i].0.len() <= limit.maximum_entry_depth);
    }
    assert forall|i: int, j: int| 0 <= i < j < es.len() implies (#[trigger] es[i]).0 != (#[trigger] es[j]).0 by {
        lemma_walk_ordered(es, i, j);
        if es[i].0 == es[j].0 {
            lemma_path_irreflexive(es[i].0, 0);
        }
    }
    law_generated_guide_passes_check(indent, max_depth, root, es, text);
    if listed(snap, es) {
        law_generated_guide_verifies(indent, max_depth, root, es, text, snap, res);
    }
}

} // verus!
