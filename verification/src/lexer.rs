//! The lexer of one guide list item: the text after `- ` becomes a path
//! template (an optional choice block between a prefix and a suffix) and an
//! optional comment.
//!
//! Grammar, in words:
//! - unescaped U+0020 at either end of the path is padding; a `#` outside
//!   quotes starts the comment;
//! - a backslash escapes exactly one of `#` `[` `]` `,` `"` space `\`;
//! - a component may be written inside double quotes, which protect every
//!   character but `/` (not allowed) and allow the same escapes; the closing
//!   quote is followed by `/`, padding, a comment, or the end;
//! - at most one `[a, b, ...]` choice block; alternatives are trimmed of
//!   unescaped spaces, may be quoted, and are separated by `,`;
//! - an unescaped `]` or `,` outside a choice block is an error.

use vstd::prelude::*;

verus! {

/// Characters that a backslash may escape.
pub open spec fn is_escapable(c: char) -> bool {
    c == '#' || c == '[' || c == ']' || c == ',' || c == '"' || c == ' ' || c == '\\'
}

/// The largest number of alternatives in one choice block.
pub const MAX_CHOICE_ALTERNATIVES: usize = 256;

#[derive(Debug, Clone, Copy, PartialEq, Eq, Structural)]
pub enum LexMode {
    Bare,
    Quoted,
    AfterQuote,
    Alt,
    AltQuoted,
    AltAfterQuote,
    Comment,
}

/// Why an item text is malformed.
#[derive(Debug, Clone, Copy, PartialEq, Eq, Structural)]
pub enum LexFailure {
    UnknownEscape,
    IncompleteEscape,
    BadQuote,
    SlashInQuotes,
    JunkAfterQuote,
    UnterminatedQuote,
    MultipleBlocks,
    UnmatchedClose,
    BareComma,
    NestedBlock,
    UnterminatedBlock,
    TooManyChoices,
    EmptyChoiceBlock,
}

/// The lexer state after a prefix of the item text.
pub struct LexState {
    pub failed: Option<LexFailure>,
    pub mode: LexMode,
    pub esc: bool,
    pub pend: nat,
    pub started: bool,
    pub comp_start: bool,
    pub block: nat,
    pub prefix: Seq<(char, bool)>,
    pub suffix: Seq<(char, bool)>,
    pub alts: Seq<Seq<char>>,
    pub cur: Seq<char>,
    pub alt_started: bool,
    pub comment: Seq<char>,
}

pub open spec fn lex_init() -> LexState {
    LexState {
        failed: None,
        mode: LexMode::Bare,
        esc: false,
        pend: 0,
        started: false,
        comp_start: true,
        block: 0,
        prefix: seq![],
        suffix: seq![],
        alts: seq![],
        cur: seq![],
        alt_started: false,
        comment: seq![],
    }
}

pub open spec fn fail(st: LexState, f: LexFailure) -> LexState {
    LexState { failed: Some(f), ..st }
}

/// `n` unprotected spaces.
pub open spec fn spaces(n: nat) -> Seq<(char, bool)> {
    Seq::new(n, |i: int| (' ', false))
}

/// Appends a character to the prefix (before any block) or the suffix.
pub open spec fn emit(st: LexState, c: char, protected: bool) -> LexState {
    if st.block == 0 {
        LexState { prefix: st.prefix.push((c, protected)), ..st }
    } else {
        LexState { suffix: st.suffix.push((c, protected)), ..st }
    }
}

/// Emits the buffered interior spaces.
pub open spec fn flush(st: LexState) -> LexState {
    if st.block == 0 {
        LexState { prefix: st.prefix + spaces(st.pend), pend: 0, ..st }
    } else {
        LexState { suffix: st.suffix + spaces(st.pend), pend: 0, ..st }
    }
}

pub open spec fn alt_flush(st: LexState) -> LexState {
    LexState { cur: st.cur + Seq::new(st.pend, |i: int| ' '), pend: 0, ..st }
}

pub open spec fn end_alt(st: LexState) -> LexState {
    LexState { alts: st.alts.push(st.cur), cur: seq![], pend: 0, alt_started: false, ..st }
}

pub open spec fn close_block(st: LexState) -> LexState {
    let e = end_alt(st);
    LexState { block: 2, mode: LexMode::Bare, comp_start: false, started: true, ..e }
}

/// One step of the item lexer.
pub open spec fn lex_step(st: LexState, c: char) -> LexState {
    if st.failed is Some {
        st
    } else {
        match st.mode {
            LexMode::Bare => if st.esc {
                if is_escapable(c) {
                    let f = flush(LexState { esc: false, ..st });
                    LexState { started: true, comp_start: false, ..emit(f, c, false) }
                } else {
                    fail(st, LexFailure::UnknownEscape)
                }
            } else if c == '\\' {
                LexState { esc: true, ..st }
            } else if c == ' ' {
                if st.started {
                    LexState { pend: st.pend + 1, ..st }
                } else {
                    st
                }
            } else if c == '#' {
                LexState { mode: LexMode::Comment, pend: 0, ..st }
            } else if c == '"' {
                if st.comp_start && st.pend == 0 {
                    LexState { mode: LexMode::Quoted, started: true, comp_start: false, ..st }
                } else {
                    fail(st, LexFailure::BadQuote)
                }
            } else if c == '[' {
                if st.block != 0 {
                    fail(st, LexFailure::MultipleBlocks)
                } else {
                    let f = flush(st);
                    LexState {
                        block: 1,
                        mode: LexMode::Alt,
                        started: true,
                        comp_start: false,
                        cur: seq![],
                        alt_started: false,
                        ..f
                    }
                }
            } else if c == ']' {
                fail(st, LexFailure::UnmatchedClose)
            } else if c == ',' {
                fail(st, LexFailure::BareComma)
            } else if c == '/' {
                let f = flush(st);
                LexState { started: true, comp_start: true, ..emit(f, c, false) }
            } else {
                let f = flush(st);
                LexState { started: true, comp_start: false, ..emit(f, c, false) }
            },
            LexMode::Quoted => if st.esc {
                if is_escapable(c) {
                    emit(LexState { esc: false, ..st }, c, true)
                } else {
                    fail(st, LexFailure::UnknownEscape)
                }
            } else if c == '\\' {
                LexState { esc: true, ..st }
            } else if c == '"' {
                LexState { mode: LexMode::AfterQuote, ..st }
            } else if c == '/' {
                fail(st, LexFailure::SlashInQuotes)
            } else {
                emit(st, c, true)
            },
            LexMode::AfterQuote => if c == '/' && st.pend == 0 {
                LexState { mode: LexMode::Bare, comp_start: true, ..emit(st, c, false) }
            } else if c == ' ' {
                LexState { pend: st.pend + 1, ..st }
            } else if c == '#' {
                LexState { mode: LexMode::Comment, pend: 0, ..st }
            } else {
                fail(st, LexFailure::JunkAfterQuote)
            },
            LexMode::Alt => if st.esc {
                if is_escapable(c) {
                    let f = alt_flush(LexState { esc: false, ..st });
                    LexState { cur: f.cur.push(c), alt_started: true, ..f }
                } else {
                    fail(st, LexFailure::UnknownEscape)
                }
            } else if c == '\\' {
                LexState { esc: true, ..st }
            } else if c == ' ' {
                if st.alt_started {
                    LexState { pend: st.pend + 1, ..st }
                } else {
                    st
                }
            } else if c == ',' {
                end_alt(st)
            } else if c == ']' {
                close_block(st)
            } else if c == '"' {
                if !st.alt_started {
                    LexState { mode: LexMode::AltQuoted, alt_started: true, ..st }
                } else {
                    fail(st, LexFailure::BadQuote)
                }
            } else if c == '[' {
                fail(st, LexFailure::NestedBlock)
            } else if c == '#' {
                fail(st, LexFailure::UnterminatedBlock)
            } else {
                let f = alt_flush(st);
                LexState { cur: f.cur.push(c), alt_started: true, ..f }
            },
            LexMode::AltQuoted => if st.esc {
                if is_escapable(c) {
                    LexState { esc: false, cur: st.cur.push(c), ..st }
                } else {
                    fail(st, LexFailure::UnknownEscape)
                }
            } else if c == '\\' {
                LexState { esc: true, ..st }
            } else if c == '"' {
                LexState { mode: LexMode::AltAfterQuote, ..st }
            } else if c == '/' {
                fail(st, LexFailure::SlashInQuotes)
            } else {
                LexState { cur: st.cur.push(c), ..st }
            },
            LexMode::AltAfterQuote => if c == ' ' {
                st
            } else if c == ',' {
                LexState { mode: LexMode::Alt, ..end_alt(st) }
            } else if c == ']' {
                close_block(st)
            } else {
                fail(st, LexFailure::JunkAfterQuote)
            },
            LexMode::Comment => LexState { comment: st.comment.push(c), ..st },
        }
    }
}

/// The lexer state after reading all of `s`.
pub open spec fn lex_run(s: Seq<char>) -> LexState
    decreases s.len(),
{
    if s.len() == 0 {
        lex_init()
    } else {
        lex_step(lex_run(s.drop_last()), s.last())
    }
}

/// A lexed item: path template and optional comment.
pub struct Template {
    pub prefix: Seq<(char, bool)>,
    pub alternatives: Option<Seq<Seq<char>>>,
    pub suffix: Seq<(char, bool)>,
    pub comment: Option<Seq<char>>,
}

pub open spec fn all_empty(alts: Seq<Seq<char>>) -> bool {
    forall|i: int| 0 <= i < alts.len() ==> #[trigger] alts[i].len() == 0
}

/// The template of a complete item text, or why it is malformed.
pub open spec fn lex_finish(st: LexState) -> Result<Template, LexFailure> {
    if st.failed is Some {
        Err(st.failed->0)
    } else if st.esc {
        Err(LexFailure::IncompleteEscape)
    } else if st.mode == LexMode::Quoted || st.mode == LexMode::AltQuoted {
        Err(LexFailure::UnterminatedQuote)
    } else if st.mode == LexMode::Alt || st.mode == LexMode::AltAfterQuote {
        Err(LexFailure::UnterminatedBlock)
    } else if st.block == 2 && st.alts.len() > MAX_CHOICE_ALTERNATIVES {
        Err(LexFailure::TooManyChoices)
    } else if st.block == 2 && all_empty(st.alts) {
        Err(LexFailure::EmptyChoiceBlock)
    } else {
        Ok(
            Template {
                prefix: st.prefix,
                alternatives: if st.block == 2 {
                    Some(st.alts)
                } else {
                    None
                },
                suffix: st.suffix,
                comment: if st.mode == LexMode::Comment {
                    Some(st.comment)
                } else {
                    None
                },
            },
        )
    }
}

pub open spec fn spec_lex(s: Seq<char>) -> Result<Template, LexFailure> {
    lex_finish(lex_run(s))
}


/// The executable lexer state.
pub struct Lexer {
    failed: Option<LexFailure>,
    mode: LexMode,
    esc: bool,
    pend: usize,
    started: bool,
    comp_start: bool,
    block: u8,
    prefix: Vec<(char, bool)>,
    suffix: Vec<(char, bool)>,
    alts: Vec<Vec<char>>,
    cur: Vec<char>,
    alt_started: bool,
    comment: Vec<char>,
}

pub open spec fn seq_views(v: Seq<Vec<char>>) -> Seq<Seq<char>> {
    v.map_values(|a: Vec<char>| a@)
}

impl Lexer {
    pub closed spec fn view(&self) -> LexState {
        LexState {
            failed: self.failed,
            mode: self.mode,
            esc: self.esc,
            pend: self.pend as nat,
            started: self.started,
            comp_start: self.comp_start,
            block: self.block as nat,
            prefix: self.prefix@,
            suffix: self.suffix@,
            alts: seq_views(self.alts@),
            cur: self.cur@,
            alt_started: self.alt_started,
            comment: self.comment@,
        }
    }

    pub closed spec fn pending(&self) -> nat {
        self.pend as nat
    }

    fn new() -> (l: Self)
        ensures
            l.view() == lex_init(),
            l.pending() == 0,
    {
        let l = Lexer {
            failed: None,
            mode: LexMode::Bare,
            esc: false,
            pend: 0,
            started: false,
            comp_start: true,
            block: 0,
            prefix: Vec::new(),
            suffix: Vec::new(),
            alts: Vec::new(),
            cur: Vec::new(),
            alt_started: false,
            comment: Vec::new(),
        };
        assert(seq_views(l.alts@) =~= Seq::<Seq<char>>::empty());
        l
    }

    fn emit(&mut self, c: char, protected: bool)
        requires
            old(self).block <= 2,
        ensures
            final(self).view() == emit(old(self).view(), c, protected),
            final(self).pend == old(self).pend,
            final(self).block == old(self).block,
    {
        if self.block == 0 {
            self.prefix.push((c, protected));
        } else {
            self.suffix.push((c, protected));
        }
    }

    fn flush(&mut self)
        ensures
            final(self).view() == flush(old(self).view()),
            final(self).pend == 0,
            final(self).block == old(self).block,
    {
        let n = self.pend;
        let mut k: usize = 0;
        let ghost base = if self.block == 0 {
            self.prefix@
        } else {
            self.suffix@
        };
        while k < n
            invariant
                k <= n,
                self.block == old(self).block,
                self.pend == n,
                n == old(self).pend,
                self.block == 0 ==> self.prefix@ == base + spaces(k as nat) && self.suffix@ == old(self).suffix@,
                self.block != 0 ==> self.suffix@ == base + spaces(k as nat) && self.prefix@ == old(self).prefix@,
                base == (if old(self).block == 0 { old(self).prefix@ } else { old(self).suffix@ }),
                self.alts@ == old(self).alts@,
                self.cur@ == old(self).cur@,
                self.comment@ == old(self).comment@,
                self.failed == old(self).failed,
                self.mode == old(self).mode,
                self.esc == old(self).esc,
                self.started == old(self).started,
                self.comp_start == old(self).comp_start,
                self.alt_started == old(self).alt_started,
            decreases n - k,
        {
            if self.block == 0 {
                self.prefix.push((' ', false));
            } else {
                self.suffix.push((' ', false));
            }
            k = k + 1;
            assert(spaces(k as nat) =~= spaces((k - 1) as nat).push((' ', false)));
        }
        self.pend = 0;
    }

    fn alt_flush(&mut self)
        ensures
            final(self).view() == alt_flush(old(self).view()),
            final(self).pend == 0,
            final(self).block == old(self).block,
    {
        let n = self.pend;
        let mut k: usize = 0;
        while k < n
            invariant
                k <= n,
                n == old(self).pend,
                self.pend == n,
                self.block == old(self).block,
                self.cur@ == old(self).cur@ + Seq::new(k as nat, |i: int| ' '),
                self.prefix@ == old(self).prefix@,
                self.suffix@ == old(self).suffix@,
                self.alts@ == old(self).alts@,
                self.comment@ == old(self).comment@,
                self.failed == old(self).failed,
                self.mode == old(self).mode,
                self.esc == old(self).esc,
                self.started == old(self).started,
                self.comp_start == old(self).comp_start,
                self.alt_started == old(self).alt_started,
            decreases n - k,
        {
            self.cur.push(' ');
            k = k + 1;
            assert(Seq::new(k as nat, |i: int| ' ') =~= Seq::new((k - 1) as nat, |i: int| ' ').push(' '));
        }
        self.pend = 0;
    }

    fn end_alt(&mut self)
        ensures
            final(self).view() == end_alt(old(self).view()),
            final(self).pend == 0,
            final(self).block == old(self).block,
    {
        let mut cur: Vec<char> = Vec::new();
        std::mem::swap(&mut cur, &mut self.cur);
        self.alts.push(cur);
        self.pend = 0;
        self.alt_started = false;
        proof {
            assert(seq_views(self.alts@) =~= seq_views(old(self).alts@).push(old(self).cur@));
        }
    }

    fn close_block(&mut self)
        ensures
            final(self).view() == close_block(old(self).view()),
            final(self).pend == 0,
            final(self).block == 2,
    {
        self.end_alt();
        self.block = 2;
        self.mode = LexMode::Bare;
        self.comp_start = false;
        self.started = true;
    }

    fn fail(&mut self, f: LexFailure)
        ensures
            final(self).view() == fail(old(self).view(), f),
            final(self).pend == old(self).pend,
            final(self).block == old(self).block,
    {
        self.failed = Some(f);
    }

    /// Reads one character.
    fn step(&mut self, c: char)
        requires
            old(self).pend < usize::MAX,
            old(self).block <= 2,
        ensures
            final(self).view() == lex_step(old(self).view(), c),
            final(self).pend <= old(self).pend + 1,
            final(self).block <= 2,
    {
        if self.failed.is_some() {
            return;
        }
        match self.mode {
            LexMode::Bare => {
                if self.esc {
                    if is_escapable_exec(c) {
                        self.esc = false;
                        self.flush();
                        self.emit(c, false);
                        self.started = true;
                        self.comp_start = false;
                    } else {
                        self.fail(LexFailure::UnknownEscape);
                    }
                } else if c == '\\' {
                    self.esc = true;
                } else if c == ' ' {
                    if self.started {
                        self.pend = self.pend + 1;
                    }
                } else if c == '#' {
                    self.mode = LexMode::Comment;
                    self.pend = 0;
                } else if c == '"' {
                    if self.comp_start && self.pend == 0 {
                        self.mode = LexMode::Quoted;
                        self.started = true;
                        self.comp_start = false;
                    } else {
                        self.fail(LexFailure::BadQuote);
                    }
                } else if c == '[' {
                    if self.block != 0 {
                        self.fail(LexFailure::MultipleBlocks);
                    } else {
                        self.flush();
                        self.block = 1;
                        self.mode = LexMode::Alt;
                        self.started = true;
                        self.comp_start = false;
                        self.cur = Vec::new();
                        self.alt_started = false;
                    }
                } else if c == ']' {
                    self.fail(LexFailure::UnmatchedClose);
                } else if c == ',' {
                    self.fail(LexFailure::BareComma);
                } else if c == '/' {
                    self.flush();
                    self.emit(c, false);
                    self.started = true;
                    self.comp_start = true;
                } else {
                    self.flush();
                    self.emit(c, false);
                    self.started = true;
                    self.comp_start = false;
                }
            },
            LexMode::Quoted => {
                if self.esc {
                    if is_escapable_exec(c) {
                        self.esc = false;
                        self.emit(c, true);
                    } else {
                        self.fail(LexFailure::UnknownEscape);
                    }
                } else if c == '\\' {
                    self.esc = true;
                } else if c == '"' {
                    self.mode = LexMode::AfterQuote;
                } else if c == '/' {
                    self.fail(LexFailure::SlashInQuotes);
                } else {
                    self.emit(c, true);
                }
            },
            LexMode::AfterQuote => {
                if c == '/' && self.pend == 0 {
                    self.emit(c, false);
                    self.mode = LexMode::Bare;
                    self.comp_start = true;
                } else if c == ' ' {
                    self.pend = self.pend + 1;
                } else if c == '#' {
                    self.mode = LexMode::Comment;
                    self.pend = 0;
                } else {
                    self.fail(LexFailure::JunkAfterQuote);
                }
            },
            LexMode::Alt => {
                if self.esc {
                    if is_escapable_exec(c) {
                        self.esc = false;
                        self.alt_flush();
                        self.cur.push(c);
                        self.alt_started = true;
                    } else {
                        self.fail(LexFailure::UnknownEscape);
                    }
                } else if c == '\\' {
                    self.esc = true;
                } else if c == ' ' {
                    if self.alt_started {
                        self.pend = self.pend + 1;
                    }
                } else if c == ',' {
                    self.end_alt();
                } else if c == ']' {
                    self.close_block();
                } else if c == '"' {
                    if !self.alt_started {
                        self.mode = LexMode::AltQuoted;
                        self.alt_started = true;
                    } else {
                        self.fail(LexFailure::BadQuote);
                    }
                } else if c == '[' {
                    self.fail(LexFailure::NestedBlock);
                } else if c == '#' {
                    self.fail(LexFailure::UnterminatedBlock);
                } else {
                    self.alt_flush();
                    self.cur.push(c);
                    self.alt_started = true;
                }
            },
            LexMode::AltQuoted => {
                if self.esc {
                    if is_escapable_exec(c) {
                        self.esc = false;
                        self.cur.push(c);
                    } else {
                        self.fail(LexFailure::UnknownEscape);
                    }
                } else if c == '\\' {
                    self.esc = true;
                } else if c == '"' {
                    self.mode = LexMode::AltAfterQuote;
                } else if c == '/' {
                    self.fail(LexFailure::SlashInQuotes);
                } else {
                    self.cur.push(c);
                }
            },
            LexMode::AltAfterQuote => {
                if c == ' ' {
                } else if c == ',' {
                    self.end_alt();
                    self.mode = LexMode::Alt;
                } else if c == ']' {
                    self.close_block();
                } else {
                    self.fail(LexFailure::JunkAfterQuote);
                }
            },
            LexMode::Comment => {
                self.comment.push(c);
            },
        }
    }
}

pub fn is_escapable_exec(c: char) -> (r: bool)
    ensures
        r == is_escapable(c),
{
    c == '#' || c == '[' || c == ']' || c == ',' || c == '"' || c == ' ' || c == '\\'
}


/// The executable form of a lexed item.
pub struct TemplateExec {
    pub prefix: Vec<(char, bool)>,
    pub alternatives: Option<Vec<Vec<char>>>,
    pub suffix: Vec<(char, bool)>,
    pub comment: Option<Vec<char>>,
}

impl TemplateExec {
    pub open spec fn view(&self) -> Template {
        Template {
            prefix: self.prefix@,
            alternatives: match self.alternatives {
                Some(a) => Some(seq_views(a@)),
                None => None,
            },
            suffix: self.suffix@,
            comment: match self.comment {
                Some(c) => Some(c@),
                None => None,
            },
        }
    }
}

/// Lexes one item text (the part of a list line after `- `).
pub fn lex(text: &[char]) -> (r: Result<TemplateExec, LexFailure>)
    ensures
        match r {
            Ok(t) => spec_lex(text@) == Ok::<Template, LexFailure>(t.view()),
            Err(f) => spec_lex(text@) == Err::<Template, LexFailure>(f),
        },
{
    let mut lexer = Lexer::new();
    let mut i: usize = 0;
    while i < text.len()
        invariant
            i <= text@.len(),
            lexer.view() == lex_run(text@.take(i as int)),
            lexer.pend <= i,
            lexer.block <= 2,
        decreases text@.len() - i,
    {
        assert(text@.take(i + 1).drop_last() == text@.take(i as int));
        assert(text@.take(i + 1).last() == text@[i as int]);
        lexer.step(text[i]);
        i = i + 1;
    }
    assert(text@.take(text@.len() as int) == text@);
    if let Some(f) = lexer.failed {
        return Err(f);
    }
    if lexer.esc {
        return Err(LexFailure::IncompleteEscape);
    }
    if lexer.mode == LexMode::Quoted || lexer.mode == LexMode::AltQuoted {
        return Err(LexFailure::UnterminatedQuote);
    }
    if lexer.mode == LexMode::Alt || lexer.mode == LexMode::AltAfterQuote {
        return Err(LexFailure::UnterminatedBlock);
    }
    if lexer.block == 2 {
        if lexer.alts.len() > MAX_CHOICE_ALTERNATIVES {
            return Err(LexFailure::TooManyChoices);
        }
        let mut k: usize = 0;
        let mut empty = true;
        while k < lexer.alts.len()
            invariant
                k <= lexer.alts@.len(),
                empty == forall|m: int| 0 <= m < k ==> #[trigger] lexer.alts@[m]@.len() == 0,
            decreases lexer.alts@.len() - k,
        {
            if lexer.alts[k].len() != 0 {
                empty = false;
            }
            k = k + 1;
        }
        proof {
            let v = lexer.view();
            assert(v.alts == seq_views(lexer.alts@));
            if empty {
                assert forall|m: int| 0 <= m < v.alts.len() implies #[trigger] v.alts[m].len() == 0 by {
                    assert(v.alts[m] == lexer.alts@[m]@);
                }
            } else {
                let m = choose|m: int| 0 <= m < lexer.alts@.len() && lexer.alts@[m]@.len() != 0;
                assert(v.alts[m] == lexer.alts@[m]@);
            }
        }
        if empty {
            return Err(LexFailure::EmptyChoiceBlock);
        }
    }
    let comment = if lexer.mode == LexMode::Comment {
        Some(lexer.comment)
    } else {
        None
    };
    let alternatives = if lexer.block == 2 {
        Some(lexer.alts)
    } else {
        None
    };
    Ok(TemplateExec { prefix: lexer.prefix, alternatives, suffix: lexer.suffix, comment })
}

} // verus!
