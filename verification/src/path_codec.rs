//! Canonical guide spellings of filesystem names and the reversible quoted
//! rendering used in diagnostics.

use vstd::prelude::*;
use vstd::utf8::{decode_utf8, valid_utf8};
use crate::text::{
    chars_contain_forbidden_control, chars_of, forbidden_control, has_forbidden_control,
    is_forbidden_control, push_hex, spec_hex, string_of, utf8_to_str,
};

verus! {

/// Concatenation of `f` applied to each character, in order.
pub open spec fn concat_map(v: Seq<char>, f: spec_fn(char) -> Seq<char>) -> Seq<char>
    decreases v.len(),
{
    if v.len() == 0 {
        seq![]
    } else {
        concat_map(v.drop_last(), f) + f(v.last())
    }
}

pub proof fn lemma_concat_map_step(v: Seq<char>, i: int, f: spec_fn(char) -> Seq<char>)
    requires
        0 <= i < v.len(),
    ensures
        concat_map(v.take(i + 1), f) == concat_map(v.take(i), f) + f(v[i]),
{
    assert(v.take(i + 1).drop_last() == v.take(i));
}

/// Characters that carry guide syntax and therefore require a quoted spelling.
pub open spec fn is_syntax_char(c: char) -> bool {
    c == '#' || c == '\\' || c == '[' || c == ']' || c == ',' || c == '"'
}

pub open spec fn is_ellipsis(v: Seq<char>) -> bool {
    v == seq!['.', '.', '.']
}

pub open spec fn needs_quotes(v: Seq<char>) -> bool {
    ||| is_ellipsis(v)
    ||| (v.len() > 0 && v[0] == ' ')
    ||| (v.len() > 0 && v.last() == ' ')
    ||| exists|i: int| 0 <= i < v.len() && is_syntax_char(#[trigger] v[i])
}

/// Inside quotes, `"` and `\` are written with a preceding backslash.
pub open spec fn quoted_char(c: char) -> Seq<char> {
    if c == '"' || c == '\\' {
        seq!['\\', c]
    } else {
        seq![c]
    }
}

pub open spec fn quoted_spelling(v: Seq<char>) -> Seq<char> {
    seq!['"'] + concat_map(v, |c: char| quoted_char(c)) + seq!['"']
}

/// The canonical guide spelling of one filesystem name, or `None` when the
/// name cannot be written in a guide (empty, or holding a C0 control or DEL).
pub open spec fn spec_serialize_component(v: Seq<char>) -> Option<Seq<char>> {
    if v.len() == 0 || has_forbidden_control(v) {
        None
    } else if !needs_quotes(v) {
        Some(v)
    } else {
        Some(quoted_spelling(v))
    }
}

pub fn syntax_char(c: char) -> (r: bool)
    ensures
        r == is_syntax_char(c),
{
    c == '#' || c == '\\' || c == '[' || c == ']' || c == ',' || c == '"'
}

fn chars_need_quotes(v: &[char]) -> (r: bool)
    ensures
        r == needs_quotes(v@),
{
    let n = v.len();
    if n == 3 && v[0] == '.' && v[1] == '.' && v[2] == '.' {
        assert(v@ == seq!['.', '.', '.']);
        return true;
    }
    if n > 0 && (v[0] == ' ' || v[n - 1] == ' ') {
        return true;
    }
    let mut i: usize = 0;
    while i < n
        invariant
            n == v@.len(),
            i <= n,
            forall|j: int| 0 <= j < i ==> !is_syntax_char(#[trigger] v@[j]),
        decreases n - i,
    {
        if syntax_char(v[i]) {
            return true;
        }
        i = i + 1;
    }
    proof {
        if v@ == seq!['.', '.', '.'] {
            assert(v@.len() == 3 && v@[0] == '.' && v@[1] == '.' && v@[2] == '.');
        }
    }
    false
}

pub fn serialize_chars(v: &[char]) -> (r: Option<String>)
    ensures
        r matches Some(s) ==> spec_serialize_component(v@) == Some(s@),
        r is None ==> spec_serialize_component(v@) is None,
{
    if v.len() == 0 || chars_contain_forbidden_control(v) {
        return None;
    }
    if !chars_need_quotes(v) {
        return Some(string_of(v));
    }
    let mut s = String::new();
    s.push('"');
    let mut i: usize = 0;
    while i < v.len()
        invariant
            i <= v@.len(),
            s@ == seq!['"'] + concat_map(v@.take(i as int), |c: char| quoted_char(c)),
        decreases v@.len() - i,
    {
        proof {
            lemma_concat_map_step(v@, i as int, |c: char| quoted_char(c));
        }
        if v[i] == '"' || v[i] == '\\' {
            s.push('\\');
        }
        s.push(v[i]);
        i = i + 1;
    }
    s.push('"');
    assert(v@.take(v@.len() as int) == v@);
    Some(s)
}

/// The canonical guide spelling of one filesystem name: the name itself when
/// it carries no guide syntax, otherwise a double-quoted spelling in which
/// `"` and `\` are escaped; `None` for an empty or control-bearing name.
pub fn serialize_component(value: &str) -> (r: Option<String>)
    ensures
        r matches Some(s) ==> spec_serialize_component(value@) == Some(s@),
        r is None ==> spec_serialize_component(value@) is None,
{
    let chars = chars_of(value);
    serialize_chars(chars.as_slice())
}

/// The diagnostic spelling of one character inside a rendered name.
pub open spec fn rendered_char(c: char) -> Seq<char> {
    if c == '"' {
        seq!['\\', '"']
    } else if c == '\\' {
        seq!['\\', '\\']
    } else if c == '\0' {
        seq!['\\', '0']
    } else if c == '\t' {
        seq!['\\', 't']
    } else if c == '\n' {
        seq!['\\', 'n']
    } else if c == '\r' {
        seq!['\\', 'r']
    } else if is_forbidden_control(c) {
        seq!['\\', 'u', '{'] + spec_hex((c as u32) as nat, 4) + seq!['}']
    } else {
        seq![c]
    }
}

/// A double-quoted, control-free, reversible rendering of a name.
pub open spec fn spec_render_utf8(v: Seq<char>) -> Seq<char> {
    seq!['"'] + concat_map(v, |c: char| rendered_char(c)) + seq!['"']
}

fn push_rendered_char(s: &mut String, c: char)
    ensures
        final(s)@ == old(s)@ + rendered_char(c),
{
    if c == '"' {
        s.push('\\');
        s.push('"');
    } else if c == '\\' {
        s.push('\\');
        s.push('\\');
    } else if c == '\0' {
        s.push('\\');
        s.push('0');
    } else if c == '\t' {
        s.push('\\');
        s.push('t');
    } else if c == '\n' {
        s.push('\\');
        s.push('n');
    } else if c == '\r' {
        s.push('\\');
        s.push('r');
    } else if forbidden_control(c) {
        s.push('\\');
        s.push('u');
        s.push('{');
        push_hex(s, c as u32, 4);
        s.push('}');
    } else {
        s.push(c);
    }
}

pub fn render_utf8_chars(v: &[char]) -> (s: String)
    ensures
        s@ == spec_render_utf8(v@),
{
    let mut s = String::new();
    s.push('"');
    let mut i: usize = 0;
    while i < v.len()
        invariant
            i <= v@.len(),
            s@ == seq!['"'] + concat_map(v@.take(i as int), |c: char| rendered_char(c)),
        decreases v@.len() - i,
    {
        proof {
            lemma_concat_map_step(v@, i as int, |c: char| rendered_char(c));
        }
        push_rendered_char(&mut s, v[i]);
        i = i + 1;
    }
    s.push('"');
    assert(v@.take(v@.len() as int) == v@);
    s
}

/// Renders a name inside double quotes, escaping quotes, backslashes and
/// every C0 control or DEL so that the diagnostic is one line and reversible.
pub fn render_utf8_component(value: &str) -> (s: String)
    ensures
        s@ == spec_render_utf8(value@),
{
    let chars = chars_of(value);
    render_utf8_chars(chars.as_slice())
}

/// Concatenation of the `\xHH` escapes of each byte.
pub open spec fn byte_escapes(b: Seq<u8>) -> Seq<char>
    decreases b.len(),
{
    if b.len() == 0 {
        seq![]
    } else {
        byte_escapes(b.drop_last()) + seq!['\\', 'x'] + spec_hex(b.last() as nat, 2)
    }
}

/// The diagnostic rendering of a raw filesystem name: its UTF-8 rendering when
/// the bytes are UTF-8, otherwise every byte as an uppercase `\xHH` escape.
pub open spec fn spec_render_bytes(b: Seq<u8>) -> Seq<char> {
    if valid_utf8(b) {
        spec_render_utf8(decode_utf8(b))
    } else {
        seq!['"'] + byte_escapes(b) + seq!['"']
    }
}

/// Renders a raw (possibly non-UTF-8) filesystem name without loss.
pub fn render_bytes_component(bytes: &[u8]) -> (s: String)
    ensures
        s@ == spec_render_bytes(bytes@),
{
    match utf8_to_str(bytes) {
        Some(text) => render_utf8_component(text),
        None => {
            let mut s = String::new();
            s.push('"');
            let mut i: usize = 0;
            while i < bytes.len()
                invariant
                    i <= bytes@.len(),
                    s@ == seq!['"'] + byte_escapes(bytes@.take(i as int)),
                decreases bytes@.len() - i,
            {
                assert(bytes@.take(i + 1).drop_last() == bytes@.take(i as int));
                s.push('\\');
                s.push('x');
                push_hex(&mut s, bytes[i] as u32, 2);
                i = i + 1;
            }
            s.push('"');
            assert(bytes@.take(bytes@.len() as int) == bytes@);
            s
        },
    }
}

/// At most `max` characters of `s`, followed by `…` when characters were cut.
pub open spec fn spec_bounded(s: Seq<char>, max: nat) -> Seq<char> {
    if s.len() > max {
        s.take(max as int).push('…')
    } else {
        s
    }
}

pub fn bounded_chars(s: &[char], max: usize) -> (r: String)
    ensures
        r@ == spec_bounded(s@, max as nat),
{
    if s.len() > max {
        let mut r = string_of(&s[0..max]);
        assert(s@.subrange(0, max as int) == s@.take(max as int));
        r.push('…');
        r
    } else {
        string_of(s)
    }
}

/// Bounds a rendered diagnostic to `max` characters plus an ellipsis.
pub fn bounded_text(rendered: &str, max: usize) -> (r: String)
    ensures
        r@ == spec_bounded(rendered@, max as nat),
{
    let chars = chars_of(rendered);
    bounded_chars(chars.as_slice(), max)
}

} // verus!
