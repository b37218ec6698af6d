//! The shared exclusion dialect: case-sensitive glob patterns over
//! root-relative, slash-separated paths, used by generation and discovery.
//!
//! A pattern without `/` is a basename pattern and excludes a path when any
//! of its components matches. A pattern with `/` is matched against the whole
//! root-relative component list, where a complete `**` component matches zero
//! or more components. Within a component `*` matches any run of characters,
//! `?` exactly one character, and `[...]`/`[!...]` a (negated) class of
//! characters or ascending ranges; a backslash escapes `\ * ? [ ]` (and, in a
//! class, `\ ] -`).

use vstd::prelude::*;
use crate::errors::AppError;
use crate::path_codec::{bounded_chars, render_bytes_component, render_utf8_chars, spec_bounded, spec_render_bytes, spec_render_utf8};
use crate::text::{chars_of, push_all, push_str, spec_split, split_on, utf8_to_str};
use vstd::utf8::{decode_utf8, valid_utf8};

verus! {

/// Longest rendered pattern shown in a diagnostic.
pub const MAX_PATTERN_DIAGNOSTIC_CHARS: usize = 320;

/// One character-level token of a component pattern.
#[derive(Debug, Clone, Copy, PartialEq, Eq, Structural)]
pub enum TokenKind {
    Literal,
    ZeroOrMore,
    Any,
    Class,
}

/// A character class: a list of inclusive ranges, possibly negated.
pub struct CharacterClass {
    negated: bool,
    ranges: Vec<(char, char)>,
}

pub struct SegmentToken {
    kind: TokenKind,
    literal: char,
    class: CharacterClass,
}

/// The pattern of one path component.
pub struct SegmentPattern {
    tokens: Vec<SegmentToken>,
}

pub struct PathComponentPattern {
    recursive: bool,
    segment: SegmentPattern,
}

pub struct CompiledPattern {
    basename: bool,
    components: Vec<PathComponentPattern>,
}

/// A compiled union of exclusion patterns.
pub struct ExclusionMatcher {
    patterns: Vec<CompiledPattern>,
}

/// The mathematical content of a token.
pub enum TokenView {
    Literal(char),
    ZeroOrMore,
    Any,
    Class { negated: bool, ranges: Seq<(char, char)> },
}

pub enum ComponentView {
    Recursive,
    Segment(Seq<TokenView>),
}

pub enum PatternView {
    Basename(Seq<TokenView>),
    RootRelative(Seq<ComponentView>),
}

impl SegmentToken {
    pub closed spec fn view(&self) -> TokenView {
        match self.kind {
            TokenKind::Literal => TokenView::Literal(self.literal),
            TokenKind::ZeroOrMore => TokenView::ZeroOrMore,
            TokenKind::Any => TokenView::Any,
            TokenKind::Class => TokenView::Class {
                negated: self.class.negated,
                ranges: self.class.ranges@,
            },
        }
    }
}

impl SegmentPattern {
    pub closed spec fn view(&self) -> Seq<TokenView> {
        self.tokens@.map_values(|t: SegmentToken| t.view())
    }
}

impl PathComponentPattern {
    pub closed spec fn view(&self) -> ComponentView {
        if self.recursive {
            ComponentView::Recursive
        } else {
            ComponentView::Segment(self.segment.view())
        }
    }
}

impl CompiledPattern {
    pub closed spec fn view(&self) -> PatternView {
        if self.basename {
            PatternView::Basename(self.components@[0].segment.view())
        } else {
            PatternView::RootRelative(self.components@.map_values(|c: PathComponentPattern| c.view()))
        }
    }

    pub closed spec fn wf(&self) -> bool {
        self.basename ==> self.components@.len() == 1
    }
}

impl ExclusionMatcher {
    pub closed spec fn view(&self) -> Seq<PatternView> {
        self.patterns@.map_values(|p: CompiledPattern| p.view())
    }

    pub closed spec fn wf(&self) -> bool {
        forall|i: int| 0 <= i < self.patterns@.len() ==> (#[trigger] self.patterns@[i]).wf()
    }
}

// ---------------------------------------------------------------------------
// Matching semantics

pub open spec fn in_ranges(ranges: Seq<(char, char)>, c: char) -> bool {
    exists|i: int| 0 <= i < ranges.len() && ranges[i].0 <= c && c <= #[trigger] ranges[i].1
}

/// Whether a single token consumes exactly the character `c`.
pub open spec fn token_accepts(t: TokenView, c: char) -> bool {
    match t {
        TokenView::Literal(l) => c == l,
        TokenView::Any => true,
        TokenView::Class { negated, ranges } => in_ranges(ranges, c) != negated,
        TokenView::ZeroOrMore => true,
    }
}

/// Whether the tokens match the whole of `s`.
pub open spec fn tokens_match(t: Seq<TokenView>, s: Seq<char>) -> bool
    decreases t.len() + s.len(),
{
    if t.len() == 0 {
        s.len() == 0
    } else {
        match t.last() {
            TokenView::ZeroOrMore => tokens_match(t.drop_last(), s) || (s.len() > 0
                && tokens_match(t, s.drop_last())),
            other => s.len() > 0 && token_accepts(other, s.last()) && tokens_match(
                t.drop_last(),
                s.drop_last(),
            ),
        }
    }
}

pub open spec fn component_accepts(p: ComponentView, c: Seq<char>) -> bool {
    match p {
        ComponentView::Recursive => true,
        ComponentView::Segment(t) => tokens_match(t, c),
    }
}

/// Whether the component patterns match the whole component list.
pub open spec fn components_match(p: Seq<ComponentView>, cs: Seq<Seq<char>>) -> bool
    decreases p.len() + cs.len(),
{
    if p.len() == 0 {
        cs.len() == 0
    } else {
        match p.last() {
            ComponentView::Recursive => components_match(p.drop_last(), cs) || (cs.len() > 0
                && components_match(p, cs.drop_last())),
            other => cs.len() > 0 && component_accepts(other, cs.last()) && components_match(
                p.drop_last(),
                cs.drop_last(),
            ),
        }
    }
}

/// Whether one compiled pattern excludes the root-relative component list.
pub open spec fn pattern_matches(p: PatternView, cs: Seq<Seq<char>>) -> bool {
    match p {
        PatternView::Basename(t) => exists|j: int| 0 <= j < cs.len() && tokens_match(t, #[trigger] cs[j]),
        PatternView::RootRelative(c) => components_match(c, cs),
    }
}

/// Whether any pattern of the union excludes the component list.
pub open spec fn union_matches(ps: Seq<PatternView>, cs: Seq<Seq<char>>) -> bool {
    exists|i: int| 0 <= i < ps.len() && pattern_matches(#[trigger] ps[i], cs)
}

fn class_matches(class: &CharacterClass, value: char) -> (r: bool)
    ensures
        r == (in_ranges(class.ranges@, value) != class.negated),
{
    let mut i: usize = 0;
    let mut contained = false;
    while i < class.ranges.len()
        invariant
            i <= class.ranges@.len(),
            contained == exists|j: int|
                0 <= j < i && class.ranges@[j].0 <= value && value <= #[trigger] class.ranges@[j].1,
        decreases class.ranges@.len() - i,
    {
        let (start, end) = class.ranges[i];
        if start <= value && value <= end {
            contained = true;
        }
        i = i + 1;
    }
    contained != class.negated
}

fn token_accepts_exec(token: &SegmentToken, c: char) -> (r: bool)
    ensures
        r == token_accepts(token.view(), c),
{
    match token.kind {
        TokenKind::Literal => c == token.literal,
        TokenKind::Any => true,
        TokenKind::Class => class_matches(&token.class, c),
        TokenKind::ZeroOrMore => true,
    }
}

proof fn lemma_tokens_step_star(t: Seq<TokenView>, s: Seq<char>, p: int, k: int)
    requires
        0 <= p < t.len(),
        0 <= k <= s.len(),
        t[p] == TokenView::ZeroOrMore,
    ensures
        tokens_match(t.take(p + 1), s.take(k)) == (tokens_match(t.take(p), s.take(k)) || (k > 0
            && tokens_match(t.take(p + 1), s.take(k - 1)))),
{
    assert(t.take(p + 1).drop_last() == t.take(p));
    assert(t.take(p + 1).last() == t[p]);
    if k > 0 {
        assert(s.take(k).drop_last() == s.take(k - 1));
    }
}

proof fn lemma_tokens_step_single(t: Seq<TokenView>, s: Seq<char>, p: int, k: int)
    requires
        0 <= p < t.len(),
        0 <= k <= s.len(),
        !(t[p] is ZeroOrMore),
    ensures
        tokens_match(t.take(p + 1), s.take(k)) == (k > 0 && token_accepts(t[p], s[k - 1])
            && tokens_match(t.take(p), s.take(k - 1))),
{
    assert(t.take(p + 1).drop_last() == t.take(p));
    assert(t.take(p + 1).last() == t[p]);
    if k > 0 {
        assert(s.take(k).drop_last() == s.take(k - 1));
        assert(s.take(k).last() == s[k - 1]);
    }
}

impl SegmentPattern {
    /// Whether the pattern matches the whole component.
    fn is_match(&self, characters: &[char]) -> (r: bool)
        ensures
            r == tokens_match(self.view(), characters@),
    {
        let n = characters.len();
        let ghost t = self.view();
        let ghost s = characters@;
        let mut matched: Vec<bool> = Vec::new();
        matched.push(true);
        let mut j: usize = 0;
        while j < n
            invariant
                n == s.len(),
                j <= n,
                matched@.len() == j + 1,
                forall|m: int| 0 <= m <= j ==> #[trigger] matched@[m] == (m == 0),
            decreases n - j,
        {
            matched.push(false);
            j = j + 1;
        }
        proof {
            assert forall|m: int| 0 <= m <= n implies #[trigger] matched@[m] == tokens_match(
                t.take(0),
                s.take(m),
            ) by {
                assert(t.take(0).len() == 0);
            }
        }
        let mut p: usize = 0;
        while p < self.tokens.len()
            invariant
                n == s.len(),
                s == characters@,
                t == self.view(),
                t.len() == self.tokens@.len(),
                p <= t.len(),
                matched@.len() == n + 1,
                forall|m: int| 0 <= m <= n ==> #[trigger] matched@[m] == tokens_match(t.take(p as int), s.take(m)),
            decreases t.len() - p,
        {
            let token = &self.tokens[p];
            let mut next: Vec<bool> = Vec::new();
            if token.kind == TokenKind::ZeroOrMore {
                next.push(matched[0]);
                proof {
                    lemma_tokens_step_star(t, s, p as int, 0);
                }
                let mut j: usize = 0;
                while j < n
                    invariant
                        n == s.len(),
                        s == characters@,
                        t == self.view(),
                        p < t.len(),
                        t[p as int] == TokenView::ZeroOrMore,
                        j <= n,
                        matched@.len() == n + 1,
                        next@.len() == j + 1,
                        forall|m: int| 0 <= m <= n ==> #[trigger] matched@[m] == tokens_match(t.take(p as int), s.take(m)),
                        forall|m: int| 0 <= m <= j ==> #[trigger] next@[m] == tokens_match(t.take(p + 1), s.take(m)),
                    decreases n - j,
                {
                    proof {
                        lemma_tokens_step_star(t, s, p as int, j + 1);
                    }
                    let value = matched[j + 1] || next[j];
                    next.push(value);
                    j = j + 1;
                }
            } else {
                next.push(false);
                proof {
                    lemma_tokens_step_single(t, s, p as int, 0);
                }
                let mut j: usize = 0;
                while j < n
                    invariant
                        n == s.len(),
                        s == characters@,
                        t == self.view(),
                        p < t.len(),
                        p < self.tokens@.len(),
                        !(t[p as int] is ZeroOrMore),
                        t[p as int] == self.tokens@[p as int].view(),
                        j <= n,
                        matched@.len() == n + 1,
                        next@.len() == j + 1,
                        forall|m: int| 0 <= m <= n ==> #[trigger] matched@[m] == tokens_match(t.take(p as int), s.take(m)),
                        forall|m: int| 0 <= m <= j ==> #[trigger] next@[m] == tokens_match(t.take(p + 1), s.take(m)),
                    decreases n - j,
                {
                    proof {
                        lemma_tokens_step_single(t, s, p as int, j + 1);
                    }
                    let value = matched[j] && token_accepts_exec(&self.tokens[p], characters[j]);
                    next.push(value);
                    j = j + 1;
                }
            }
            matched = next;
            p = p + 1;
        }
        proof {
            assert(t.take(t.len() as int) == t);
            assert(s.take(n as int) == s);
        }
        matched[n]
    }
}


proof fn lemma_components_step_recursive(p: Seq<ComponentView>, cs: Seq<Seq<char>>, q: int, k: int)
    requires
        0 <= q < p.len(),
        0 <= k <= cs.len(),
        p[q] == ComponentView::Recursive,
    ensures
        components_match(p.take(q + 1), cs.take(k)) == (components_match(p.take(q), cs.take(k))
            || (k > 0 && components_match(p.take(q + 1), cs.take(k - 1)))),
{
    assert(p.take(q + 1).drop_last() == p.take(q));
    assert(p.take(q + 1).last() == p[q]);
    if k > 0 {
        assert(cs.take(k).drop_last() == cs.take(k - 1));
    }
}

proof fn lemma_components_step_segment(p: Seq<ComponentView>, cs: Seq<Seq<char>>, q: int, k: int)
    requires
        0 <= q < p.len(),
        0 <= k <= cs.len(),
        p[q] is Segment,
    ensures
        components_match(p.take(q + 1), cs.take(k)) == (k > 0 && component_accepts(p[q], cs[k - 1])
            && components_match(p.take(q), cs.take(k - 1))),
{
    assert(p.take(q + 1).drop_last() == p.take(q));
    assert(p.take(q + 1).last() == p[q]);
    if k > 0 {
        assert(cs.take(k).drop_last() == cs.take(k - 1));
        assert(cs.take(k).last() == cs[k - 1]);
    }
}

/// The character sequences of a list of components.
pub open spec fn component_views(cs: Seq<Vec<char>>) -> Seq<Seq<char>> {
    cs.map_values(|c: Vec<char>| c@)
}

fn path_pattern_matches(pattern: &Vec<PathComponentPattern>, components: &[Vec<char>]) -> (r: bool)
    ensures
        r == components_match(
            pattern@.map_values(|c: PathComponentPattern| c.view()),
            component_views(components@),
        ),
{
    let n = components.len();
    let ghost p = pattern@.map_values(|c: PathComponentPattern| c.view());
    let ghost cs = component_views(components@);
    let mut matched: Vec<bool> = Vec::new();
    matched.push(true);
    let mut j: usize = 0;
    while j < n
        invariant
            n == cs.len(),
            j <= n,
            matched@.len() == j + 1,
            forall|m: int| 0 <= m <= j ==> #[trigger] matched@[m] == (m == 0),
        decreases n - j,
    {
        matched.push(false);
        j = j + 1;
    }
    proof {
        assert forall|m: int| 0 <= m <= n implies #[trigger] matched@[m] == components_match(
            p.take(0),
            cs.take(m),
        ) by {
            assert(p.take(0).len() == 0);
        }
    }
    let mut q: usize = 0;
    while q < pattern.len()
        invariant
            n == cs.len(),
            cs == component_views(components@),
            p == pattern@.map_values(|c: PathComponentPattern| c.view()),
            q <= p.len(),
            matched@.len() == n + 1,
            forall|m: int| 0 <= m <= n ==> #[trigger] matched@[m] == components_match(p.take(q as int), cs.take(m)),
        decreases p.len() - q,
    {
        let mut next: Vec<bool> = Vec::new();
        if pattern[q].recursive {
            next.push(matched[0]);
            proof {
                lemma_components_step_recursive(p, cs, q as int, 0);
            }
            let mut j: usize = 0;
            while j < n
                invariant
                    n == cs.len(),
                    p == pattern@.map_values(|c: PathComponentPattern| c.view()),
                    q < p.len(),
                    p[q as int] == ComponentView::Recursive,
                    j <= n,
                    matched@.len() == n + 1,
                    next@.len() == j + 1,
                    forall|m: int| 0 <= m <= n ==> #[trigger] matched@[m] == components_match(p.take(q as int), cs.take(m)),
                    forall|m: int| 0 <= m <= j ==> #[trigger] next@[m] == components_match(p.take(q + 1), cs.take(m)),
                decreases n - j,
            {
                proof {
                    lemma_components_step_recursive(p, cs, q as int, j + 1);
                }
                let value = matched[j + 1] || next[j];
                next.push(value);
                j = j + 1;
            }
        } else {
            next.push(false);
            proof {
                lemma_components_step_segment(p, cs, q as int, 0);
            }
            let mut j: usize = 0;
            while j < n
                invariant
                    n == cs.len(),
                    n == components@.len(),
                    cs == component_views(components@),
                    p == pattern@.map_values(|c: PathComponentPattern| c.view()),
                    q < p.len(),
                    q < pattern@.len(),
                    !pattern@[q as int].recursive,
                    p[q as int] == ComponentView::Segment(pattern@[q as int].segment.view()),
                    j <= n,
                    matched@.len() == n + 1,
                    next@.len() == j + 1,
                    forall|m: int| 0 <= m <= n ==> #[trigger] matched@[m] == components_match(p.take(q as int), cs.take(m)),
                    forall|m: int| 0 <= m <= j ==> #[trigger] next@[m] == components_match(p.take(q + 1), cs.take(m)),
                decreases n - j,
            {
                proof {
                    lemma_components_step_segment(p, cs, q as int, j + 1);
                }
                let value = matched[j] && pattern[q].segment.is_match(components[j].as_slice());
                next.push(value);
                j = j + 1;
            }
        }
        matched = next;
        q = q + 1;
    }
    proof {
        assert(p.take(p.len() as int) == p);
        assert(cs.take(n as int) == cs);
    }
    matched[n]
}

impl ExclusionMatcher {
    /// Whether some pattern of the union excludes the root-relative path with
    /// the given components (an empty path is never excluded).
    pub fn matches_components(&self, components: &[Vec<char>]) -> (r: bool)
        requires
            self.wf(),
        ensures
            r == union_matches(self.view(), component_views(components@)),
    {
        let ghost cs = component_views(components@);
        let mut i: usize = 0;
        while i < self.patterns.len()
            invariant
                self.wf(),
                cs == component_views(components@),
                i <= self.patterns@.len(),
                forall|k: int| 0 <= k < i ==> !pattern_matches(#[trigger] self.view()[k], cs),
            decreases self.patterns@.len() - i,
        {
            let pattern = &self.patterns[i];
            assert(self.view()[i as int] == pattern.view());
            assert(pattern.wf());
            let hit = if pattern.basename {
                let segment = &pattern.components[0].segment;
                let mut found = false;
                let mut j: usize = 0;
                while j < components.len()
                    invariant
                        cs == component_views(components@),
                        j <= components@.len(),
                        found == exists|m: int| 0 <= m < j && tokens_match(segment.view(), #[trigger] cs[m]),
                    decreases components@.len() - j,
                {
                    assert(cs[j as int] == components@[j as int]@);
                    if segment.is_match(components[j].as_slice()) {
                        found = true;
                    }
                    j = j + 1;
                }
                found
            } else {
                path_pattern_matches(&pattern.components, components)
            };
            if hit {
                return true;
            }
            i = i + 1;
        }
        false
    }
}


// ---------------------------------------------------------------------------
// Compilation

/// Why a pattern was rejected.
#[derive(Debug, Clone, Copy, PartialEq, Eq, Structural)]
pub enum Reason {
    EmptyPattern,
    BadSeparator,
    DotComponent,
    InnerGlobstar,
    TrailingEscape,
    BadEscape,
    UnescapedClose,
    SlashInComponent,
    UnterminatedClass,
    EmptyClass,
    MissingRangeEnd,
    DescendingRange,
    SlashInClass,
    UnescapedDash,
    DanglingClassEscape,
    BadClassEscape,
    UnescapedClassClose,
}

pub open spec fn reason_text(r: Reason) -> Seq<char> {
    match r {
        Reason::EmptyPattern => "the pattern cannot be empty"@,
        Reason::BadSeparator => "leading, trailing, and repeated `/` separators are not allowed"@,
        Reason::DotComponent => "`.` and `..` path components are not allowed"@,
        Reason::InnerGlobstar => "`**` is recursive only as a complete path component"@,
        Reason::TrailingEscape => "a trailing `\\` escape is not allowed"@,
        Reason::BadEscape => "a backslash may escape only `\\`, `*`, `?`, `[`, or `]`"@,
        Reason::UnescapedClose => "`]` must be escaped outside a character class"@,
        Reason::SlashInComponent => "`/` is only a path-component separator"@,
        Reason::UnterminatedClass => "unterminated character class"@,
        Reason::EmptyClass => "character classes cannot be empty"@,
        Reason::MissingRangeEnd => "a character-class range requires an endpoint"@,
        Reason::DescendingRange => "character-class ranges must ascend by Unicode scalar value"@,
        Reason::SlashInClass => "`/` cannot be matched by a character class"@,
        Reason::UnescapedDash => "a literal `-` in a character class must be escaped"@,
        Reason::DanglingClassEscape => "a dangling character-class escape is not allowed"@,
        Reason::BadClassEscape => "a character-class backslash may escape only `\\`, `]`, or `-`"@,
        Reason::UnescapedClassClose => "a literal `]` in a character class must be escaped"@,
    }
}

fn reason_string(r: Reason) -> (s: String)
    ensures
        s@ == reason_text(r),
{
    match r {
        Reason::EmptyPattern => String::from_str("the pattern cannot be empty"),
        Reason::BadSeparator => String::from_str("leading, trailing, and repeated `/` separators are not allowed"),
        Reason::DotComponent => String::from_str("`.` and `..` path components are not allowed"),
        Reason::InnerGlobstar => String::from_str("`**` is recursive only as a complete path component"),
        Reason::TrailingEscape => String::from_str("a trailing `\\` escape is not allowed"),
        Reason::BadEscape => String::from_str("a backslash may escape only `\\`, `*`, `?`, `[`, or `]`"),
        Reason::UnescapedClose => String::from_str("`]` must be escaped outside a character class"),
        Reason::SlashInComponent => String::from_str("`/` is only a path-component separator"),
        Reason::UnterminatedClass => String::from_str("unterminated character class"),
        Reason::EmptyClass => String::from_str("character classes cannot be empty"),
        Reason::MissingRangeEnd => String::from_str("a character-class range requires an endpoint"),
        Reason::DescendingRange => String::from_str("character-class ranges must ascend by Unicode scalar value"),
        Reason::SlashInClass => String::from_str("`/` cannot be matched by a character class"),
        Reason::UnescapedDash => String::from_str("a literal `-` in a character class must be escaped"),
        Reason::DanglingClassEscape => String::from_str("a dangling character-class escape is not allowed"),
        Reason::BadClassEscape => String::from_str("a character-class backslash may escape only `\\`, `]`, or `-`"),
        Reason::UnescapedClassClose => String::from_str("a literal `]` in a character class must be escaped"),
    }
}

/// The number of pattern characters that spell one class member at `k`.
pub open spec fn class_char_width(s: Seq<char>, k: int) -> int {
    if s[k] == '\\' {
        2
    } else {
        1
    }
}

/// The class member spelled at `k` (which must be inside `s`).
pub open spec fn class_char(s: Seq<char>, k: int) -> Result<char, Reason> {
    let c = s[k];
    if c == '/' {
        Err(Reason::SlashInClass)
    } else if c == '-' {
        Err(Reason::UnescapedDash)
    } else if c == '\\' {
        if k + 1 >= s.len() {
            Err(Reason::DanglingClassEscape)
        } else if s[k + 1] == '\\' || s[k + 1] == ']' || s[k + 1] == '-' {
            Ok(s[k + 1])
        } else {
            Err(Reason::BadClassEscape)
        }
    } else if c == ']' {
        Err(Reason::UnescapedClassClose)
    } else {
        Ok(c)
    }
}

/// The rest of a character class from `k`: its token and the index after `]`.
pub open spec fn class_items(s: Seq<char>, k: int, negated: bool, ranges: Seq<(char, char)>) -> Result<
    (TokenView, int),
    Reason,
>
    decreases s.len() - k,
{
    if k < 0 || k >= s.len() {
        Err(Reason::UnterminatedClass)
    } else if s[k] == ']' {
        if ranges.len() == 0 {
            Err(Reason::EmptyClass)
        } else {
            Ok((TokenView::Class { negated, ranges }, k + 1))
        }
    } else {
        match class_char(s, k) {
            Err(e) => Err(e),
            Ok(start) => {
                let k1 = k + class_char_width(s, k);
                if k1 < s.len() && s[k1] == '-' {
                    if k1 + 1 >= s.len() || s[k1 + 1] == ']' {
                        Err(Reason::MissingRangeEnd)
                    } else {
                        match class_char(s, k1 + 1) {
                            Err(e) => Err(e),
                            Ok(end) => if start > end {
                                Err(Reason::DescendingRange)
                            } else {
                                class_items(
                                    s,
                                    k1 + 1 + class_char_width(s, k1 + 1),
                                    negated,
                                    ranges.push((start, end)),
                                )
                            },
                        }
                    }
                } else {
                    class_items(s, k1, negated, ranges.push((start, start)))
                }
            },
        }
    }
}

/// What a class read on from `k` with the members `acc` already read gives,
/// in terms of the same class read from `k` with none: the members already
/// read stay, ahead of those read later.
pub open spec fn class_with_members(
    s: Seq<char>,
    k: int,
    negated: bool,
    acc: Seq<(char, char)>,
) -> Result<(TokenView, int), Reason> {
    if 0 <= k < s.len() && s[k] == ']' && acc.len() > 0 {
        Ok((TokenView::Class { negated, ranges: acc }, k + 1))
    } else {
        match class_items(s, k, negated, seq![]) {
            Ok((TokenView::Class { negated: n, ranges }, e)) => Ok((TokenView::Class { negated: n, ranges: acc + ranges }, e)),
            other => other,
        }
    }
}

/// Reading a class never drops a member: every character and range written
/// in it is kept, in the order written.
pub proof fn law_class_members_are_kept(s: Seq<char>, k: int, negated: bool, acc: Seq<(char, char)>)
    ensures
        class_items(s, k, negated, acc) == class_with_members(s, k, negated, acc),
        class_items(s, k, negated, seq![]) matches Ok((t, e)) ==> t matches TokenView::Class { negated: n, .. }
            && n == negated,
{
    lemma_class_members_kept(s, k, negated, acc);
    lemma_class_members_kept(s, k, negated, seq![]);
}

proof fn lemma_class_members_kept(s: Seq<char>, k: int, negated: bool, acc: Seq<(char, char)>)
    ensures
        class_items(s, k, negated, acc) == class_with_members(s, k, negated, acc),
        class_items(s, k, negated, acc) matches Ok((t, e)) ==> t matches TokenView::Class { negated: n, .. }
            && n == negated,
    decreases s.len() - k,
{
    if k < 0 || k >= s.len() {
    } else if s[k] == ']' {
        if acc.len() == 0 {
        } else {
        }
    } else {
        match class_char(s, k) {
            Err(_) => {},
            Ok(start) => {
                let k1 = k + class_char_width(s, k);
                let next = if k1 < s.len() && s[k1] == '-' {
                    if k1 + 1 >= s.len() || s[k1 + 1] == ']' {
                        None
                    } else {
                        match class_char(s, k1 + 1) {
                            Err(_) => None,
                            Ok(end) => if start > end {
                                None
                            } else {
                                Some((k1 + 1 + class_char_width(s, k1 + 1), (start, end)))
                            },
                        }
                    }
                } else {
                    Some((k1, (start, start)))
                };
                match next {
                    None => {},
                    Some((k2, r)) => {
                        assert(class_items(s, k, negated, acc) == class_items(s, k2, negated, acc.push(r)));
                        assert(class_items(s, k, negated, seq![]) == class_items(s, k2, negated, seq![].push(r)));
                        lemma_class_members_kept(s, k2, negated, acc.push(r));
                        lemma_class_members_kept(s, k2, negated, seq![].push(r));
                        lemma_class_members_kept(s, k2, negated, seq![]);
                        assert(seq![].push(r) =~= seq![r]);
                        assert(acc + seq![r] =~= acc.push(r));
                        match class_items(s, k2, negated, seq![]) {
                            Ok((TokenView::Class { negated: n, ranges }, e)) => {
                                assert(acc.push(r) + ranges =~= acc + (seq![r] + ranges));
                            },
                            _ => {},
                        }
                    },
                }
            },
        }
    }
}

/// A class of one range `x-y` holds exactly the characters from `x` to `y`.
pub proof fn law_class_range_member(s: Seq<char>, k: int, negated: bool, c: char)
    requires
        0 <= k,
        k + 3 < s.len(),
        s[k + 1] == '-',
        s[k + 3] == ']',
        s[k] != '/' && s[k] != '-' && s[k] != '\\' && s[k] != ']',
        s[k + 2] != '/' && s[k + 2] != '-' && s[k + 2] != '\\' && s[k + 2] != ']',
        s[k] <= s[k + 2],
    ensures
        class_items(s, k, negated, seq![]) == Ok::<(TokenView, int), Reason>(
            (TokenView::Class { negated, ranges: seq![(s[k], s[k + 2])] }, k + 4),
        ),
        in_ranges(seq![(s[k], s[k + 2])], c) <==> s[k] <= c <= s[k + 2],
{
    let r = seq![(s[k], s[k + 2])];
    assert(seq![].push((s[k], s[k + 2])) =~= r);
    assert(class_char(s, k) == Ok::<char, Reason>(s[k]));
    assert(class_char_width(s, k) == 1);
    assert(class_char(s, k + 2) == Ok::<char, Reason>(s[k + 2]));
    assert(class_char_width(s, k + 2) == 1);
    assert(class_items(s, k + 3, negated, r) == Ok::<(TokenView, int), Reason>(
        (TokenView::Class { negated, ranges: r }, k + 4),
    ));
    if s[k] <= c && c <= s[k + 2] {
        assert(r[0] == (s[k], s[k + 2]));
        assert(0 <= 0 < r.len() && r[0].0 <= c && c <= r[0].1);
    }
    if in_ranges(r, c) {
        let i = choose|i: int| 0 <= i < r.len() && r[i].0 <= c && c <= #[trigger] r[i].1;
        assert(i == 0);
    }
}

/// A class of one character `x` holds exactly `x`.
pub proof fn law_class_single_member(s: Seq<char>, k: int, negated: bool, c: char)
    requires
        0 <= k,
        k + 1 < s.len(),
        s[k + 1] == ']',
        s[k] != '/' && s[k] != '-' && s[k] != '\\' && s[k] != ']',
    ensures
        class_items(s, k, negated, seq![]) == Ok::<(TokenView, int), Reason>(
            (TokenView::Class { negated, ranges: seq![(s[k], s[k])] }, k + 2),
        ),
        in_ranges(seq![(s[k], s[k])], c) <==> c == s[k],
{
    let r = seq![(s[k], s[k])];
    assert(seq![].push((s[k], s[k])) =~= r);
    assert(class_char(s, k) == Ok::<char, Reason>(s[k]));
    assert(class_char_width(s, k) == 1);
    assert(class_items(s, k + 1, negated, r) == Ok::<(TokenView, int), Reason>(
        (TokenView::Class { negated, ranges: r }, k + 2),
    ));
    if c == s[k] {
        assert(r[0] == (s[k], s[k]));
        assert(0 <= 0 < r.len() && r[0].0 <= c && c <= r[0].1);
    }
    if in_ranges(r, c) {
        let i = choose|i: int| 0 <= i < r.len() && r[i].0 <= c && c <= #[trigger] r[i].1;
        assert(i == 0);
    }
}

/// A character class whose `[` stands just before index `i`.
pub open spec fn class_from(s: Seq<char>, i: int) -> Result<(TokenView, int), Reason> {
    if 0 <= i < s.len() && s[i] == '!' {
        class_items(s, i + 1, true, seq![])
    } else {
        class_items(s, i, false, seq![])
    }
}

pub open spec fn prepend_token(t: TokenView, r: Result<Seq<TokenView>, Reason>) -> Result<
    Seq<TokenView>,
    Reason,
> {
    match r {
        Ok(rest) => Ok(seq![t] + rest),
        Err(e) => Err(e),
    }
}

/// The tokens of the component pattern `s` from index `i`.
pub open spec fn segment_from(s: Seq<char>, i: int, prev_star: bool) -> Result<Seq<TokenView>, Reason>
    decreases s.len() - i,
{
    if i < 0 || i >= s.len() {
        Ok(seq![])
    } else {
        let c = s[i];
        if c == '*' {
            if prev_star {
                Err(Reason::InnerGlobstar)
            } else {
                prepend_token(TokenView::ZeroOrMore, segment_from(s, i + 1, true))
            }
        } else if c == '?' {
            prepend_token(TokenView::Any, segment_from(s, i + 1, false))
        } else if c == '[' {
            match class_from(s, i + 1) {
                Err(e) => Err(e),
                Ok((class, j)) => if i < j <= s.len() {
                    prepend_token(class, segment_from(s, j, false))
                } else {
                    Err(Reason::UnterminatedClass)
                },
            }
        } else if c == '\\' {
            if i + 1 >= s.len() {
                Err(Reason::TrailingEscape)
            } else {
                let e = s[i + 1];
                if e == '\\' || e == '*' || e == '?' || e == '[' || e == ']' {
                    prepend_token(TokenView::Literal(e), segment_from(s, i + 2, false))
                } else {
                    Err(Reason::BadEscape)
                }
            }
        } else if c == ']' {
            Err(Reason::UnescapedClose)
        } else if c == '/' {
            Err(Reason::SlashInComponent)
        } else {
            prepend_token(TokenView::Literal(c), segment_from(s, i + 1, false))
        }
    }
}

/// The component pattern compiled from one slash-free component.
pub open spec fn spec_compile_segment(s: Seq<char>) -> Result<Seq<TokenView>, Reason> {
    segment_from(s, 0, false)
}

fn class_char_exec(s: &[char], k: usize) -> (r: Result<char, Reason>)
    requires
        k < s@.len(),
    ensures
        r == class_char(s@, k as int),
{
    let c = s[k];
    if c == '/' {
        Err(Reason::SlashInClass)
    } else if c == '-' {
        Err(Reason::UnescapedDash)
    } else if c == '\\' {
        if k + 1 >= s.len() {
            Err(Reason::DanglingClassEscape)
        } else if s[k + 1] == '\\' || s[k + 1] == ']' || s[k + 1] == '-' {
            Ok(s[k + 1])
        } else {
            Err(Reason::BadClassEscape)
        }
    } else if c == ']' {
        Err(Reason::UnescapedClassClose)
    } else {
        Ok(c)
    }
}

pub closed spec fn class_view(c: CharacterClass) -> TokenView {
    TokenView::Class { negated: c.negated, ranges: c.ranges@ }
}

fn parse_class(s: &[char], i: usize) -> (r: Result<(CharacterClass, usize), Reason>)
    requires
        i <= s@.len(),
    ensures
        match r {
            Ok((c, j)) => class_from(s@, i as int) == Ok::<(TokenView, int), Reason>((class_view(c), j as int)) && i < j <= s@.len(),
            Err(e) => class_from(s@, i as int) == Err::<(TokenView, int), Reason>(e),
        },
{
    let negated = i < s.len() && s[i] == '!';
    let mut k: usize = if negated {
        i + 1
    } else {
        i
    };
    let mut ranges: Vec<(char, char)> = Vec::new();
    loop
        invariant
            i <= k <= s@.len(),
            negated ==> k >= i + 1,
            class_from(s@, i as int) == class_items(s@, k as int, negated, ranges@),
        decreases s@.len() - k,
    {
        if k >= s.len() {
            return Err(Reason::UnterminatedClass);
        }
        if s[k] == ']' {
            if ranges.len() == 0 {
                return Err(Reason::EmptyClass);
            }
            let class = CharacterClass { negated, ranges };
            return Ok((class, k + 1));
        }
        let start = match class_char_exec(s, k) {
            Err(e) => {
                return Err(e);
            },
            Ok(c) => c,
        };
        let k1 = if s[k] == '\\' {
            k + 2
        } else {
            k + 1
        };
        if k1 < s.len() && s[k1] == '-' {
            if k1 + 1 >= s.len() || s[k1 + 1] == ']' {
                return Err(Reason::MissingRangeEnd);
            }
            let end = match class_char_exec(s, k1 + 1) {
                Err(e) => {
                    return Err(e);
                },
                Ok(c) => c,
            };
            if start > end {
                return Err(Reason::DescendingRange);
            }
            ranges.push((start, end));
            k = if s[k1 + 1] == '\\' {
                k1 + 3
            } else {
                k1 + 2
            };
        } else {
            ranges.push((start, start));
            k = k1;
        }
    }
}

fn literal_token(c: char) -> (t: SegmentToken)
    ensures
        t.view() == TokenView::Literal(c),
{
    SegmentToken { kind: TokenKind::Literal, literal: c, class: CharacterClass { negated: false, ranges: Vec::new() } }
}

fn plain_token(kind: TokenKind) -> (t: SegmentToken)
    requires
        kind == TokenKind::ZeroOrMore || kind == TokenKind::Any,
    ensures
        kind == TokenKind::ZeroOrMore ==> t.view() == TokenView::ZeroOrMore,
        kind == TokenKind::Any ==> t.view() == TokenView::Any,
{
    SegmentToken { kind, literal: ' ', class: CharacterClass { negated: false, ranges: Vec::new() } }
}

pub open spec fn with_prefix(acc: Seq<TokenView>, r: Result<Seq<TokenView>, Reason>) -> Result<
    Seq<TokenView>,
    Reason,
> {
    match r {
        Ok(rest) => Ok(acc + rest),
        Err(e) => Err(e),
    }
}

proof fn lemma_with_prefix_push(acc: Seq<TokenView>, t: TokenView, r: Result<Seq<TokenView>, Reason>)
    ensures
        with_prefix(acc, prepend_token(t, r)) == with_prefix(acc.push(t), r),
{
    match r {
        Ok(rest) => {
            assert(acc + (seq![t] + rest) == acc.push(t) + rest);
        },
        Err(e) => {},
    }
}

fn compile_segment(s: &[char]) -> (r: Result<SegmentPattern, Reason>)
    ensures
        match r {
            Ok(p) => spec_compile_segment(s@) == Ok::<Seq<TokenView>, Reason>(p.view()),
            Err(e) => spec_compile_segment(s@) == Err::<Seq<TokenView>, Reason>(e),
        },
{
    let mut tokens: Vec<SegmentToken> = Vec::new();
    let mut i: usize = 0;
    let mut prev_star = false;
    loop
        invariant
            i <= s@.len(),
            spec_compile_segment(s@) == with_prefix(
                tokens@.map_values(|t: SegmentToken| t.view()),
                segment_from(s@, i as int, prev_star),
            ),
        decreases s@.len() - i,
    {
        let ghost acc = tokens@.map_values(|t: SegmentToken| t.view());
        if i >= s.len() {
            proof {
                assert(acc + seq![] == acc);
            }
            return Ok(SegmentPattern { tokens });
        }
        let c = s[i];
        if c == '*' {
            if prev_star {
                return Err(Reason::InnerGlobstar);
            }
            let t = plain_token(TokenKind::ZeroOrMore);
            proof {
                lemma_with_prefix_push(acc, t.view(), segment_from(s@, i + 1, true));
            }
            tokens.push(t);
            assert(tokens@.map_values(|t: SegmentToken| t.view()) == acc.push(TokenView::ZeroOrMore));
            prev_star = true;
            i = i + 1;
        } else if c == '?' {
            let t = plain_token(TokenKind::Any);
            proof {
                lemma_with_prefix_push(acc, t.view(), segment_from(s@, i + 1, false));
            }
            tokens.push(t);
            assert(tokens@.map_values(|t: SegmentToken| t.view()) == acc.push(TokenView::Any));
            prev_star = false;
            i = i + 1;
        } else if c == '[' {
            match parse_class(s, i + 1) {
                Err(e) => {
                    return Err(e);
                },
                Ok((class, j)) => {
                    let ghost cv = class_view(class);
                    let t = SegmentToken { kind: TokenKind::Class, literal: ' ', class };
                    assert(t.view() == cv);
                    proof {
                        lemma_with_prefix_push(acc, cv, segment_from(s@, j as int, false));
                    }
                    tokens.push(t);
                    assert(tokens@.map_values(|t: SegmentToken| t.view()) == acc.push(cv));
                    prev_star = false;
                    i = j;
                },
            }
        } else if c == '\\' {
            if i + 1 >= s.len() {
                return Err(Reason::TrailingEscape);
            }
            let e = s[i + 1];
            if e == '\\' || e == '*' || e == '?' || e == '[' || e == ']' {
                let t = literal_token(e);
                proof {
                    lemma_with_prefix_push(acc, t.view(), segment_from(s@, i + 2, false));
                }
                tokens.push(t);
                assert(tokens@.map_values(|t: SegmentToken| t.view()) == acc.push(TokenView::Literal(e)));
                prev_star = false;
                i = i + 2;
            } else {
                return Err(Reason::BadEscape);
            }
        } else if c == ']' {
            return Err(Reason::UnescapedClose);
        } else if c == '/' {
            return Err(Reason::SlashInComponent);
        } else {
            let t = literal_token(c);
            proof {
                lemma_with_prefix_push(acc, t.view(), segment_from(s@, i + 1, false));
            }
            tokens.push(t);
            assert(tokens@.map_values(|t: SegmentToken| t.view()) == acc.push(TokenView::Literal(c)));
            prev_star = false;
            i = i + 1;
        }
    }
}


pub open spec fn is_dot_component(c: Seq<char>) -> bool {
    c == seq!['.'] || c == seq!['.', '.']
}

pub open spec fn is_globstar(c: Seq<char>) -> bool {
    c == seq!['*', '*']
}

pub open spec fn compile_component(c: Seq<char>) -> Result<ComponentView, Reason> {
    if c.len() == 0 {
        Err(Reason::BadSeparator)
    } else if is_dot_component(c) {
        Err(Reason::DotComponent)
    } else if is_globstar(c) {
        Ok(ComponentView::Recursive)
    } else {
        match spec_compile_segment(c) {
            Ok(t) => Ok(ComponentView::Segment(t)),
            Err(e) => Err(e),
        }
    }
}

/// The component patterns of a split pattern; the first failing component decides.
pub open spec fn compile_components(cs: Seq<Seq<char>>) -> Result<Seq<ComponentView>, Reason>
    decreases cs.len(),
{
    if cs.len() == 0 {
        Ok(seq![])
    } else {
        match compile_components(cs.drop_last()) {
            Err(e) => Err(e),
            Ok(done) => match compile_component(cs.last()) {
                Ok(c) => Ok(done.push(c)),
                Err(e) => Err(e),
            },
        }
    }
}

/// The compiled form of one exclusion pattern.
pub open spec fn spec_compile_pattern(p: Seq<char>) -> Result<PatternView, Reason> {
    if p.len() == 0 {
        Err(Reason::EmptyPattern)
    } else {
        let cs = spec_split(p, '/');
        match compile_components(cs) {
            Err(e) => Err(e),
            Ok(comps) => if cs.len() == 1 {
                match comps[0] {
                    ComponentView::Recursive => Ok(PatternView::RootRelative(seq![ComponentView::Recursive])),
                    ComponentView::Segment(t) => Ok(PatternView::Basename(t)),
                }
            } else {
                Ok(PatternView::RootRelative(comps))
            },
        }
    }
}

fn compile_pattern(pattern: &[char]) -> (r: Result<CompiledPattern, Reason>)
    ensures
        match r {
            Ok(p) => p.wf() && spec_compile_pattern(pattern@) == Ok::<PatternView, Reason>(p.view()),
            Err(e) => spec_compile_pattern(pattern@) == Err::<PatternView, Reason>(e),
        },
{
    if pattern.len() == 0 {
        return Err(Reason::EmptyPattern);
    }
    let pieces = split_on(pattern, '/');
    let ghost cs = spec_split(pattern@, '/');
    let mut components: Vec<PathComponentPattern> = Vec::new();
    let mut i: usize = 0;
    assert(cs.take(0) =~= Seq::<Seq<char>>::empty());
    assert(components@.map_values(|c: PathComponentPattern| c.view()) =~= Seq::<ComponentView>::empty());
    while i < pieces.len()
        invariant
            i <= pieces@.len(),
            pattern@.len() > 0,
            components@.len() == i,
            pieces@.len() == cs.len(),
            cs == spec_split(pattern@, '/'),
            forall|k: int| 0 <= k < pieces@.len() ==> #[trigger] pieces@[k]@ == cs[k],
            compile_components(cs.take(i as int)) == Ok::<Seq<ComponentView>, Reason>(
                components@.map_values(|c: PathComponentPattern| c.view()),
            ),
        decreases pieces@.len() - i,
    {
        let ghost done = components@.map_values(|c: PathComponentPattern| c.view());
        assert(cs.take(i + 1).drop_last() == cs.take(i as int));
        assert(cs.take(i + 1).last() == cs[i as int]);
        let piece = &pieces[i];
        let n = piece.len();
        if n == 0 {
            proof {
                assert(cs[i as int].len() == 0);
                assert(compile_component(cs[i as int]) == Err::<ComponentView, Reason>(Reason::BadSeparator));
                lemma_compile_components_prefix_err(cs, i as int, Reason::BadSeparator);
            }
            return Err(Reason::BadSeparator);
        }
        if (n == 1 && piece[0] == '.') || (n == 2 && piece[0] == '.' && piece[1] == '.') {
            proof {
                if n == 1 {
                    assert(piece@ =~= seq!['.']);
                } else {
                    assert(piece@ =~= seq!['.', '.']);
                }
                assert(is_dot_component(cs[i as int]));
                lemma_compile_components_prefix_err(cs, i as int, Reason::DotComponent);
            }
            return Err(Reason::DotComponent);
        }
        proof {
            if is_dot_component(cs[i as int]) {
                assert(cs[i as int].len() == 1 ==> cs[i as int][0] == '.');
            }
        }
        if n == 2 && piece[0] == '*' && piece[1] == '*' {
            assert(piece@ =~= seq!['*', '*']);
            assert(is_globstar(cs[i as int]));
            let c = PathComponentPattern { recursive: true, segment: SegmentPattern { tokens: Vec::new() } };
            components.push(c);
            assert(components@.map_values(|c: PathComponentPattern| c.view()) == done.push(ComponentView::Recursive));
        } else {
            proof {
                if is_globstar(cs[i as int]) {
                    assert(piece@[0] == '*' && piece@[1] == '*');
                }
            }
            match compile_segment(piece.as_slice()) {
                Err(e) => {
                    proof {
                        lemma_compile_components_prefix_err(cs, i as int, e);
                    }
                    return Err(e);
                },
                Ok(segment) => {
                    let ghost sv = segment.view();
                    let c = PathComponentPattern { recursive: false, segment };
                    components.push(c);
                    assert(components@.map_values(|c: PathComponentPattern| c.view()) == done.push(ComponentView::Segment(sv)));
                },
            }
        }
        i = i + 1;
    }
    assert(cs.take(cs.len() as int) == cs);
    let ghost comps = components@.map_values(|c: PathComponentPattern| c.view());
    if pieces.len() == 1 {
        if components[0].recursive {
            let p = CompiledPattern { basename: false, components };
            assert(p.view() == PatternView::RootRelative(seq![ComponentView::Recursive]));
            Ok(p)
        } else {
            let p = CompiledPattern { basename: true, components };
            Ok(p)
        }
    } else {
        Ok(CompiledPattern { basename: false, components })
    }
}

proof fn lemma_compile_components_prefix_err(cs: Seq<Seq<char>>, i: int, e: Reason)
    requires
        0 <= i < cs.len(),
        compile_components(cs.take(i)) is Ok,
        compile_component(cs[i]) == Err::<ComponentView, Reason>(e),
    ensures
        compile_components(cs) == Err::<Seq<ComponentView>, Reason>(e),
    decreases cs.len() - i,
{
    assert(cs.take(i + 1).drop_last() == cs.take(i));
    assert(cs.take(i + 1).last() == cs[i]);
    lemma_compile_components_err_extends(cs, i + 1, e);
}

proof fn lemma_compile_components_err_extends(cs: Seq<Seq<char>>, j: int, e: Reason)
    requires
        0 <= j <= cs.len(),
        compile_components(cs.take(j)) == Err::<Seq<ComponentView>, Reason>(e),
    ensures
        compile_components(cs) == Err::<Seq<ComponentView>, Reason>(e),
    decreases cs.len() - j,
{
    if j == cs.len() {
        assert(cs.take(j) == cs);
    } else {
        assert(cs.take(j + 1).drop_last() == cs.take(j));
        lemma_compile_components_err_extends(cs, j + 1, e);
    }
}

/// The bounded, reversible rendering of a pattern used in diagnostics.
pub open spec fn spec_render_pattern(p: Seq<char>) -> Seq<char> {
    spec_bounded(spec_render_utf8(p), MAX_PATTERN_DIAGNOSTIC_CHARS as nat)
}

pub open spec fn pattern_error_message(p: Seq<char>, r: Reason) -> Seq<char> {
    "invalid glob pattern "@ + spec_render_pattern(p) + ": "@ + reason_text(r)
}

/// The compiled union, or the diagnostic of the first rejected pattern.
pub open spec fn spec_compile_all(ps: Seq<Seq<char>>) -> Result<Seq<PatternView>, Seq<char>>
    decreases ps.len(),
{
    if ps.len() == 0 {
        Ok(seq![])
    } else {
        match spec_compile_all(ps.drop_last()) {
            Err(m) => Err(m),
            Ok(done) => match spec_compile_pattern(ps.last()) {
                Ok(p) => Ok(done.push(p)),
                Err(r) => Err(pattern_error_message(ps.last(), r)),
            },
        }
    }
}

pub open spec fn string_views(ps: Seq<String>) -> Seq<Seq<char>> {
    ps.map_values(|p: String| p@)
}

proof fn lemma_compile_all_err_extends(ps: Seq<Seq<char>>, j: int, m: Seq<char>)
    requires
        0 <= j <= ps.len(),
        spec_compile_all(ps.take(j)) == Err::<Seq<PatternView>, Seq<char>>(m),
    ensures
        spec_compile_all(ps) == Err::<Seq<PatternView>, Seq<char>>(m),
    decreases ps.len() - j,
{
    if j == ps.len() {
        assert(ps.take(j) == ps);
    } else {
        assert(ps.take(j + 1).drop_last() == ps.take(j));
        lemma_compile_all_err_extends(ps, j + 1, m);
    }
}

impl ExclusionMatcher {
    /// An empty union that excludes nothing.
    pub fn empty() -> (m: Self)
        ensures
            m.wf(),
            m.view() == Seq::<PatternView>::empty(),
    {
        let m = ExclusionMatcher { patterns: Vec::new() };
        assert(m.view() =~= Seq::<PatternView>::empty());
        m
    }

    /// Compiles every pattern of the union; the first invalid pattern
    /// rejects the whole union with a bounded, control-free diagnostic.
    pub fn compile(patterns: &[String]) -> (r: Result<Self, AppError>)
        ensures
            match r {
                Ok(m) => m.wf() && spec_compile_all(string_views(patterns@)) == Ok::<Seq<PatternView>, Seq<char>>(m.view()),
                Err(e) => e matches AppError::Other(msg) && spec_compile_all(string_views(patterns@))
                    == Err::<Seq<PatternView>, Seq<char>>(msg@),
            },
    {
        let ghost ps = string_views(patterns@);
        let mut compiled: Vec<CompiledPattern> = Vec::new();
        let mut i: usize = 0;
        assert(ps.take(0) =~= Seq::<Seq<char>>::empty());
        assert(compiled@.map_values(|p: CompiledPattern| p.view()) =~= Seq::<PatternView>::empty());
        while i < patterns.len()
            invariant
                i <= patterns@.len(),
                ps == string_views(patterns@),
                forall|k: int| 0 <= k < compiled@.len() ==> (#[trigger] compiled@[k]).wf(),
                spec_compile_all(ps.take(i as int)) == Ok::<Seq<PatternView>, Seq<char>>(
                    compiled@.map_values(|p: CompiledPattern| p.view()),
                ),
            decreases patterns@.len() - i,
        {
            let ghost done = compiled@.map_values(|p: CompiledPattern| p.view());
            assert(ps.take(i + 1).drop_last() == ps.take(i as int));
            assert(ps.take(i + 1).last() == patterns@[i as int]@);
            let chars = chars_of(patterns[i].as_str());
            match compile_pattern(chars.as_slice()) {
                Ok(p) => {
                    let ghost pv = p.view();
                    compiled.push(p);
                    assert(compiled@.map_values(|p: CompiledPattern| p.view()) == done.push(pv));
                },
                Err(reason) => {
                    let mut message = String::new();
                    push_str(&mut message, "invalid glob pattern ");
                    let rendered = render_utf8_chars(chars.as_slice());
                    let rendered_chars = chars_of(rendered.as_str());
                    let bounded = bounded_chars(rendered_chars.as_slice(), MAX_PATTERN_DIAGNOSTIC_CHARS);
                    push_str(&mut message, bounded.as_str());
                    push_str(&mut message, ": ");
                    let why = reason_string(reason);
                    push_str(&mut message, why.as_str());
                    proof {
                        lemma_compile_all_err_extends(ps, i + 1, message@);
                    }
                    return Err(AppError::Other(message));
                },
            }
            i = i + 1;
        }
        assert(ps.take(ps.len() as int) == ps);
        Ok(ExclusionMatcher { patterns: compiled })
    }
}


pub open spec fn non_utf8_entry_message(name: Seq<u8>) -> Seq<char> {
    "non-UTF-8 filesystem entry "@ + spec_render_bytes(name)
        + " cannot be evaluated by the exclusion matcher"@
}

/// The index of the first name that is not UTF-8, if any.
pub open spec fn first_non_utf8(names: Seq<Seq<u8>>, i: int) -> int
    decreases names.len() - i,
{
    if i >= names.len() || !valid_utf8(names[i]) {
        i
    } else {
        first_non_utf8(names, i + 1)
    }
}

pub open spec fn byte_views(names: Seq<Vec<u8>>) -> Seq<Seq<u8>> {
    names.map_values(|n: Vec<u8>| n@)
}

pub open spec fn decoded_names(names: Seq<Seq<u8>>) -> Seq<Seq<char>> {
    names.map_values(|n: Seq<u8>| decode_utf8(n))
}

impl ExclusionMatcher {
    /// Whether the root-relative path whose components have the given raw
    /// names is excluded. Names are matched as text, so a non-UTF-8 name is
    /// an error; an empty path is never excluded.
    pub fn is_match(&self, components: &[Vec<u8>]) -> (r: Result<bool, AppError>)
        requires
            self.wf(),
        ensures
            ({
                let names = byte_views(components@);
                let k = first_non_utf8(names, 0);
                if k < names.len() {
                    r matches Err(AppError::Other(m)) && m@ == non_utf8_entry_message(names[k])
                } else {
                    r == Ok::<bool, AppError>(names.len() > 0 && union_matches(self.view(), decoded_names(names)))
                }
            }),
    {
        let ghost names = byte_views(components@);
        let mut decoded: Vec<Vec<char>> = Vec::new();
        let mut i: usize = 0;
        while i < components.len()
            invariant
                names == byte_views(components@),
                i <= components@.len(),
                decoded@.len() == i,
                first_non_utf8(names, 0) == first_non_utf8(names, i as int),
                forall|k: int| 0 <= k < i ==> #[trigger] decoded@[k]@ == decode_utf8(names[k]),
            decreases components@.len() - i,
        {
            assert(names[i as int] == components@[i as int]@);
            match utf8_to_str(components[i].as_slice()) {
                Some(text) => {
                    decoded.push(chars_of(text));
                },
                None => {
                    let rendered = render_bytes_component(components[i].as_slice());
                    let mut m = String::new();
                    push_str(&mut m, "non-UTF-8 filesystem entry ");
                    push_str(&mut m, rendered.as_str());
                    push_str(&mut m, " cannot be evaluated by the exclusion matcher");
                    return Err(AppError::Other(m));
                },
            }
            i = i + 1;
        }
        if decoded.len() == 0 {
            return Ok(false);
        }
        let hit = self.matches_components(decoded.as_slice());
        assert(component_views(decoded@) =~= decoded_names(names));
        Ok(hit)
    }
}


/// A set of exclusion patterns compiles exactly when every pattern does,
/// one invalid pattern rejecting the whole set; a compiled set excludes a
/// path exactly when one of its patterns, compiled on its own, matches it.
pub proof fn law_patterns_form_a_union(patterns: Seq<Seq<char>>, cs: Seq<Seq<char>>)
    ensures
        spec_compile_all(patterns) is Ok <==> forall|i: int|
            0 <= i < patterns.len() ==> (#[trigger] spec_compile_pattern(patterns[i])) is Ok,
        spec_compile_all(patterns) matches Ok(ps) ==> ps.len() == patterns.len() && (forall|i: int|
            0 <= i < patterns.len() ==> spec_compile_pattern(patterns[i]) == Ok::<PatternView, Reason>(#[trigger] ps[i])) && (
        union_matches(ps, cs) <==> exists|i: int|
            0 <= i < patterns.len() && pattern_matches(
                #[trigger] spec_compile_pattern(patterns[i])->Ok_0,
                cs,
            )),
    decreases patterns.len(),
{
    if patterns.len() > 0 {
        let d = patterns.drop_last();
        law_patterns_form_a_union(d, cs);
        let last = patterns.len() - 1;
        assert forall|i: int| 0 <= i < d.len() implies d[i] == patterns[i] by {}
        if spec_compile_all(patterns) is Ok {
            let ps = spec_compile_all(patterns)->Ok_0;
            let done = spec_compile_all(d)->Ok_0;
            assert(ps == done.push(spec_compile_pattern(patterns[last])->Ok_0));
            assert forall|i: int| 0 <= i < patterns.len() implies spec_compile_pattern(patterns[i]) == Ok::<PatternView, Reason>(#[trigger] ps[i]) by {
                if i < last {
                    assert(spec_compile_pattern(d[i]) == Ok::<PatternView, Reason>(done[i]));
                }
            }
            if union_matches(ps, cs) {
                let j = choose|j: int| 0 <= j < ps.len() && pattern_matches(#[trigger] ps[j], cs);
                assert(spec_compile_pattern(patterns[j])->Ok_0 == ps[j]);
            }
            if exists|i: int| 0 <= i < patterns.len() && pattern_matches(#[trigger] spec_compile_pattern(patterns[i])->Ok_0, cs) {
                let j = choose|j: int| 0 <= j < patterns.len() && pattern_matches(#[trigger] spec_compile_pattern(patterns[j])->Ok_0, cs);
                assert(spec_compile_pattern(patterns[j])->Ok_0 == ps[j]);
            }
        } else {
            if forall|i: int| 0 <= i < patterns.len() ==> (#[trigger] spec_compile_pattern(patterns[i])) is Ok {
                assert forall|i: int| 0 <= i < d.len() implies (#[trigger] spec_compile_pattern(d[i])) is Ok by {
                    assert(spec_compile_pattern(patterns[i]) is Ok);
                }
                assert(spec_compile_pattern(patterns[last]) is Ok);
            }
        }
        if forall|i: int| 0 <= i < patterns.len() ==> (#[trigger] spec_compile_pattern(patterns[i])) is Ok {
            assert forall|i: int| 0 <= i < d.len() implies (#[trigger] spec_compile_pattern(d[i])) is Ok by {
                assert(spec_compile_pattern(patterns[i]) is Ok);
            }
            assert(spec_compile_pattern(patterns[last]) is Ok);
        }
        if spec_compile_all(patterns) is Ok {
            assert forall|i: int| 0 <= i < patterns.len() implies (#[trigger] spec_compile_pattern(patterns[i])) is Ok by {
                if i < last {
                    assert(spec_compile_pattern(d[i]) is Ok);
                }
            }
        }
    }
}

} // verus!
