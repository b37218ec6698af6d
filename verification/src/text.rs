//! Character classes, string conversions and text rendering shared by the
//! guide reader, validator, exclusion matcher and generator.

use vstd::prelude::*;
use vstd::std_specs::iter::IteratorSpec;
use vstd::utf8::{decode_utf8, valid_utf8};

verus! {

/// `String::push` appends one character.
pub assume_specification[ String::push ](string: &mut String, ch: char)
    ensures
        final(string)@ == old(string)@.push(ch),
;

/// Calls `std::str::from_utf8`; it succeeds exactly on well-formed UTF-8 and
/// then yields the decoded characters (as the standard library documents).
#[verifier::external_body]
pub(crate) fn utf8_to_str(bytes: &[u8]) -> (res: Option<&str>)
    ensures
        res is Some <==> valid_utf8(bytes@),
        res matches Some(s) ==> s@ == decode_utf8(bytes@),
{
    std::str::from_utf8(bytes).ok()
}

/// The characters of a string slice, in order.
pub fn chars_of(s: &str) -> (v: Vec<char>)
    ensures
        v@ == s@,
{
    let mut v: Vec<char> = Vec::new();
    let mut it = s.chars();
    let ghost full = s@;
    assert(it.remaining() == full);
    loop
        invariant
            it.obeys_prophetic_iter_laws(),
            it.decrease() is Some,
            v@ + it.remaining() == full,
        ensures
            v@ == full,
        decreases it.decrease()->0,
    {
        match it.next() {
            Some(c) => {
                v.push(c);
            },
            None => {
                break ;
            },
        }
    }
    v
}

/// A string holding exactly the given characters.
pub fn string_of(chars: &[char]) -> (s: String)
    ensures
        s@ == chars@,
{
    let mut s = String::new();
    let mut i: usize = 0;
    while i < chars.len()
        invariant
            i <= chars@.len(),
            s@ == chars@.take(i as int),
        decreases chars@.len() - i,
    {
        s.push(chars[i]);
        i = i + 1;
        assert(chars@.take(i as int) == chars@.take((i - 1) as int).push(chars@[i - 1]));
    }
    assert(chars@.take(chars@.len() as int) == chars@);
    s
}

/// Appends every character of `tail` to `s`.
pub fn push_all(s: &mut String, tail: &[char])
    ensures
        final(s)@ == old(s)@ + tail@,
{
    let mut i: usize = 0;
    while i < tail.len()
        invariant
            i <= tail@.len(),
            s@ == old(s)@ + tail@.take(i as int),
        decreases tail@.len() - i,
    {
        s.push(tail[i]);
        i = i + 1;
        assert(tail@.take(i as int) == tail@.take((i - 1) as int).push(tail@[i - 1]));
    }
    assert(tail@.take(tail@.len() as int) == tail@);
}

/// Unicode `White_Space`: the characters that `char::is_whitespace`,
/// `str::trim` and the regular-expression class `\s` treat as blanks.
pub open spec fn is_white_space(c: char) -> bool {
    ||| ('\t' <= c && c <= '\r')
    ||| c == ' '
    ||| c == '\u{85}'
    ||| c == '\u{a0}'
    ||| c == '\u{1680}'
    ||| ('\u{2000}' <= c && c <= '\u{200a}')
    ||| c == '\u{2028}'
    ||| c == '\u{2029}'
    ||| c == '\u{202f}'
    ||| c == '\u{205f}'
    ||| c == '\u{3000}'
}

pub fn white_space(c: char) -> (r: bool)
    ensures
        r == is_white_space(c),
{
    ('\t' <= c && c <= '\r') || c == ' ' || c == '\u{85}' || c == '\u{a0}' || c == '\u{1680}'
        || ('\u{2000}' <= c && c <= '\u{200a}') || c == '\u{2028}' || c == '\u{2029}' || c
        == '\u{202f}' || c == '\u{205f}' || c == '\u{3000}'
}

/// Whether every character of `s` is white space (the `str::trim().is_empty()` test).
pub open spec fn is_blank(s: Seq<char>) -> bool {
    forall|i: int| 0 <= i < s.len() ==> is_white_space(#[trigger] s[i])
}

pub fn blank(s: &[char]) -> (r: bool)
    ensures
        r == is_blank(s@),
{
    let mut i: usize = 0;
    while i < s.len()
        invariant
            i <= s@.len(),
            forall|j: int| 0 <= j < i ==> is_white_space(#[trigger] s@[j]),
        decreases s@.len() - i,
    {
        if !white_space(s[i]) {
            return false;
        }
        i = i + 1;
    }
    true
}

/// C0 controls and DEL: the characters that no guide path may contain.
pub open spec fn is_forbidden_control(c: char) -> bool {
    c <= '\u{1f}' || c == '\u{7f}'
}

pub open spec fn has_forbidden_control(s: Seq<char>) -> bool {
    exists|i: int| 0 <= i < s.len() && is_forbidden_control(#[trigger] s[i])
}

pub fn forbidden_control(c: char) -> (r: bool)
    ensures
        r == is_forbidden_control(c),
{
    c <= '\u{1f}' || c == '\u{7f}'
}

pub fn chars_contain_forbidden_control(s: &[char]) -> (r: bool)
    ensures
        r == has_forbidden_control(s@),
{
    let mut i: usize = 0;
    while i < s.len()
        invariant
            i <= s@.len(),
            forall|j: int| 0 <= j < i ==> !is_forbidden_control(#[trigger] s@[j]),
        decreases s@.len() - i,
    {
        if forbidden_control(s[i]) {
            return true;
        }
        i = i + 1;
    }
    false
}

/// Whether `value` holds a C0 control character or DEL.
pub fn contains_forbidden_control(value: &str) -> (r: bool)
    ensures
        r == has_forbidden_control(value@),
{
    let chars = chars_of(value);
    chars_contain_forbidden_control(chars.as_slice())
}

pub open spec fn is_ascii_alphabetic(c: char) -> bool {
    ('a' <= c && c <= 'z') || ('A' <= c && c <= 'Z')
}

/// A leading `X:` spelling, which Windows reads as a drive prefix.
pub open spec fn spec_has_windows_drive_prefix(s: Seq<char>) -> bool {
    s.len() >= 2 && is_ascii_alphabetic(s[0]) && s[1] == ':'
}

pub fn chars_have_windows_drive_prefix(s: &[char]) -> (r: bool)
    ensures
        r == spec_has_windows_drive_prefix(s@),
{
    s.len() >= 2 && (('a' <= s[0] && s[0] <= 'z') || ('A' <= s[0] && s[0] <= 'Z')) && s[1] == ':'
}

/// Whether a path component begins with a Windows drive prefix such as `C:`.
pub fn has_windows_drive_prefix(component: &str) -> (r: bool)
    ensures
        r == spec_has_windows_drive_prefix(component@),
{
    let chars = chars_of(component);
    chars_have_windows_drive_prefix(chars.as_slice())
}

/// The uppercase hexadecimal digit for `d < 16`.
pub open spec fn hex_digit(d: nat) -> char {
    if d < 10 {
        ((d + 48) as u8) as char
    } else {
        ((d + 55) as u8) as char
    }
}

pub open spec fn decimal_digit(d: nat) -> char {
    ((d % 10 + 48) as u8) as char
}

/// The decimal spelling of `n` without leading zeros.
pub open spec fn spec_decimal(n: nat) -> Seq<char>
    decreases n,
{
    if n < 10 {
        seq![decimal_digit(n)]
    } else {
        spec_decimal(n / 10).push(decimal_digit(n % 10))
    }
}

/// `width` uppercase hexadecimal digits of `n`, most significant first.
pub open spec fn spec_hex(n: nat, width: nat) -> Seq<char>
    decreases width,
{
    if width == 0 {
        seq![]
    } else {
        spec_hex(n / 16, (width - 1) as nat).push(hex_digit(n % 16))
    }
}

fn hex_char(d: u32) -> (c: char)
    requires
        d < 16,
    ensures
        c == hex_digit(d as nat),
{
    if d < 10 {
        ((d + 48) as u8) as char
    } else {
        ((d + 55) as u8) as char
    }
}

/// Appends `width` uppercase hexadecimal digits of `n`.
pub fn push_hex(s: &mut String, n: u32, width: u32)
    requires
        width <= 8,
    ensures
        final(s)@ == old(s)@ + spec_hex(n as nat, width as nat),
    decreases width,
{
    if width > 0 {
        push_hex(s, n / 16, width - 1);
        s.push(hex_char(n % 16));
    }
}

/// Appends the decimal spelling of `n`.
pub fn push_decimal(s: &mut String, n: usize)
    ensures
        final(s)@ == old(s)@ + spec_decimal(n as nat),
    decreases n,
{
    if n >= 10 {
        push_decimal(s, n / 10);
    }
    s.push(((n % 10 + 48) as u8) as char);
}

/// The decimal spelling of `n`.
pub fn decimal(n: usize) -> (s: String)
    ensures
        s@ == spec_decimal(n as nat),
{
    let mut s = String::new();
    push_decimal(&mut s, n);
    s
}

/// Appends a string slice.
pub fn push_str(s: &mut String, tail: &str)
    ensures
        final(s)@ == old(s)@ + tail@,
{
    s.append(tail);
}

} // verus!

verus! {

/// `s` without its leading characters that satisfy `p`.
pub open spec fn trim_start_by(s: Seq<char>, p: spec_fn(char) -> bool) -> Seq<char>
    decreases s.len(),
{
    if s.len() > 0 && p(s[0]) {
        trim_start_by(s.drop_first(), p)
    } else {
        s
    }
}

/// `s` without its trailing characters that satisfy `p`.
pub open spec fn trim_end_by(s: Seq<char>, p: spec_fn(char) -> bool) -> Seq<char>
    decreases s.len(),
{
    if s.len() > 0 && p(s.last()) {
        trim_end_by(s.drop_last(), p)
    } else {
        s
    }
}

/// `str::trim`: both ends stripped of Unicode white space.
pub open spec fn spec_trim(s: Seq<char>) -> Seq<char> {
    trim_end_by(trim_start_by(s, |c: char| is_white_space(c)), |c: char| is_white_space(c))
}

/// The index of the first character of `s` that fails `p`, scanning from `i`.
pub open spec fn first_failing(s: Seq<char>, p: spec_fn(char) -> bool, i: int) -> int
    decreases s.len() - i,
{
    if i < s.len() && p(s[i]) {
        first_failing(s, p, i + 1)
    } else {
        i
    }
}

pub proof fn lemma_trim_start_skip(s: Seq<char>, p: spec_fn(char) -> bool, i: int)
    requires
        0 <= i <= s.len(),
    ensures
        trim_start_by(s.skip(i), p) == s.skip(first_failing(s, p, i)),
    decreases s.len() - i,
{
    if i < s.len() && p(s[i]) {
        assert(s.skip(i).drop_first() == s.skip(i + 1));
        lemma_trim_start_skip(s, p, i + 1);
    }
}

/// `str::trim` on a character slice.
pub fn trim_white(s: &[char]) -> (r: Vec<char>)
    ensures
        r@ == spec_trim(s@),
{
    let ghost p = |c: char| is_white_space(c);
    let mut i: usize = 0;
    while i < s.len() && white_space(s[i])
        invariant
            i <= s@.len(),
            p == (|c: char| is_white_space(c)),
            first_failing(s@, p, 0) == first_failing(s@, p, i as int),
        decreases s@.len() - i,
    {
        assert(p(s@[i as int]));
        assert(first_failing(s@, p, i as int) == first_failing(s@, p, i + 1));
        i = i + 1;
    }
    proof {
        lemma_trim_start_skip(s@, p, 0);
        assert(s@.skip(0) == s@);
        assert(first_failing(s@, p, i as int) == i);
    }
    let mut j: usize = s.len();
    while j > i && white_space(s[j - 1])
        invariant
            i <= j <= s@.len(),
            p == (|c: char| is_white_space(c)),
            trim_end_by(s@.subrange(i as int, s@.len() as int), p) == trim_end_by(
                s@.subrange(i as int, j as int),
                p,
            ),
        decreases j,
    {
        assert(p(s@[j - 1]));
        assert(s@.subrange(i as int, j as int).last() == s@[j - 1]);
        assert(s@.subrange(i as int, j as int).drop_last() == s@.subrange(
            i as int,
            j - 1 as int,
        ));
        j = j - 1;
    }
    subrange(s, i, j)
}

/// `str::trim_end`: trailing Unicode white space stripped.
pub open spec fn spec_trim_end(s: Seq<char>) -> Seq<char> {
    trim_end_by(s, |c: char| is_white_space(c))
}

/// `str::trim_end` on a character slice.
pub fn trim_end_white(s: &[char]) -> (r: Vec<char>)
    ensures
        r@ == spec_trim_end(s@),
{
    let ghost p = |c: char| is_white_space(c);
    let mut j: usize = s.len();
    assert(s@.subrange(0, s@.len() as int) == s@);
    while j > 0 && white_space(s[j - 1])
        invariant
            j <= s@.len(),
            p == (|c: char| is_white_space(c)),
            trim_end_by(s@, p) == trim_end_by(s@.subrange(0, j as int), p),
        decreases j,
    {
        assert(p(s@[j - 1]));
        assert(s@.subrange(0, j as int).last() == s@[j - 1]);
        assert(s@.subrange(0, j as int).drop_last() == s@.subrange(0, j - 1 as int));
        j = j - 1;
    }
    subrange(s, 0, j)
}

/// A copy of `s[i..j]`.
pub fn subrange(s: &[char], i: usize, j: usize) -> (r: Vec<char>)
    requires
        i <= j <= s@.len(),
    ensures
        r@ == s@.subrange(i as int, j as int),
{
    let mut r: Vec<char> = Vec::new();
    let mut k = i;
    while k < j
        invariant
            i <= k <= j <= s@.len(),
            r@ == s@.subrange(i as int, k as int),
        decreases j - k,
    {
        r.push(s[k]);
        k = k + 1;
    }
    r
}

} // verus!

verus! {

/// A line without the `\r` that preceded its `\n` terminator.
pub open spec fn strip_cr(l: Seq<char>) -> Seq<char> {
    if l.len() > 0 && l.last() == '\r' {
        l.drop_last()
    } else {
        l
    }
}

/// Completed lines and the pending partial line after reading `s`.
pub open spec fn split_state(s: Seq<char>) -> (Seq<Seq<char>>, Seq<char>)
    decreases s.len(),
{
    if s.len() == 0 {
        (seq![], seq![])
    } else {
        let st = split_state(s.drop_last());
        if s.last() == '\n' {
            (st.0.push(strip_cr(st.1)), seq![])
        } else {
            (st.0, st.1.push(s.last()))
        }
    }
}

/// `str::lines`: pieces ending at `\n` (a `\r` before the `\n` is dropped); a
/// final piece without terminator is kept unless it is empty.
pub open spec fn spec_lines(s: Seq<char>) -> Seq<Seq<char>> {
    let st = split_state(s);
    if st.1.len() > 0 {
        st.0.push(st.1)
    } else {
        st.0
    }
}

/// The lines of a document, as `str::lines` splits them.
pub fn document_lines(s: &[char]) -> (lines: Vec<Vec<char>>)
    ensures
        lines@.len() == spec_lines(s@).len(),
        forall|k: int| 0 <= k < lines@.len() ==> #[trigger] lines@[k]@ == spec_lines(s@)[k],
{
    let mut done: Vec<Vec<char>> = Vec::new();
    let mut cur: Vec<char> = Vec::new();
    let mut i: usize = 0;
    while i < s.len()
        invariant
            i <= s@.len(),
            split_state(s@.take(i as int)).0.len() == done@.len(),
            forall|k: int|
                0 <= k < done@.len() ==> #[trigger] done@[k]@ == split_state(
                    s@.take(i as int),
                ).0[k],
            split_state(s@.take(i as int)).1 == cur@,
        decreases s@.len() - i,
    {
        assert(s@.take(i + 1).drop_last() == s@.take(i as int));
        assert(s@.take(i + 1).last() == s@[i as int]);
        if s[i] == '\n' {
            let n = cur.len();
            if n > 0 && cur[n - 1] == '\r' {
                cur.pop();
                assert(cur@ == strip_cr(split_state(s@.take(i as int)).1));
            }
            done.push(cur);
            cur = Vec::new();
        } else {
            cur.push(s[i]);
        }
        i = i + 1;
    }
    assert(s@.take(s@.len() as int) == s@);
    if cur.len() > 0 {
        done.push(cur);
    }
    done
}

} // verus!

verus! {

/// Completed pieces and the pending piece after splitting `s` at `sep`.
pub open spec fn split_state_on(s: Seq<char>, sep: char) -> (Seq<Seq<char>>, Seq<char>)
    decreases s.len(),
{
    if s.len() == 0 {
        (seq![], seq![])
    } else {
        let st = split_state_on(s.drop_last(), sep);
        if s.last() == sep {
            (st.0.push(st.1), seq![])
        } else {
            (st.0, st.1.push(s.last()))
        }
    }
}

/// `str::split(sep)`: the maximal pieces between separators, including empty ones.
pub open spec fn spec_split(s: Seq<char>, sep: char) -> Seq<Seq<char>> {
    let st = split_state_on(s, sep);
    st.0.push(st.1)
}

/// The pieces of `s` between occurrences of `sep`.
pub fn split_on(s: &[char], sep: char) -> (pieces: Vec<Vec<char>>)
    ensures
        pieces@.len() == spec_split(s@, sep).len(),
        forall|k: int| 0 <= k < pieces@.len() ==> #[trigger] pieces@[k]@ == spec_split(s@, sep)[k],
{
    let mut done: Vec<Vec<char>> = Vec::new();
    let mut cur: Vec<char> = Vec::new();
    let mut i: usize = 0;
    while i < s.len()
        invariant
            i <= s@.len(),
            split_state_on(s@.take(i as int), sep).0.len() == done@.len(),
            forall|k: int|
                0 <= k < done@.len() ==> #[trigger] done@[k]@ == split_state_on(
                    s@.take(i as int),
                    sep,
                ).0[k],
            split_state_on(s@.take(i as int), sep).1 == cur@,
        decreases s@.len() - i,
    {
        assert(s@.take(i + 1).drop_last() == s@.take(i as int));
        assert(s@.take(i + 1).last() == s@[i as int]);
        if s[i] == sep {
            done.push(cur);
            cur = Vec::new();
        } else {
            cur.push(s[i]);
        }
        i = i + 1;
    }
    assert(s@.take(s@.len() as int) == s@);
    done.push(cur);
    done
}

} // verus!
