//! Selecting a guide file: the failures of naming, locating and opening one,
//! and which path spellings may be displayed as they are.

use vstd::prelude::*;
use crate::errors::AppError;
use crate::text::{chars_of, push_str};

verus! {

/// Diagnostics show at most this many characters of a rendered path.
pub const MAX_DIAGNOSTIC_CHARS: usize = 320;

/// `char::is_control`: the C0 controls, DEL and the C1 controls.
pub open spec fn is_control(c: char) -> bool {
    (c as u32) < 0x20 || (0x7f <= (c as u32) && (c as u32) <= 0x9f)
}

/// A spelling without control characters, shown as it is.
pub open spec fn displayable(s: Seq<char>) -> bool {
    forall|i: int| 0 <= i < s.len() ==> !is_control(#[trigger] s[i])
}

/// Whether a path spelled as `text` may be shown as it is; any other path
/// is shown in its escaped debug form.
pub fn displayable_path_text(text: &str) -> (r: bool)
    ensures
        r == displayable(text@),
{
    let chars = chars_of(text);
    let mut i: usize = 0;
    while i < chars.len()
        invariant
            i <= chars@.len(),
            chars@ == text@,
            forall|j: int| 0 <= j < i ==> !is_control(#[trigger] chars@[j]),
        decreases chars@.len() - i,
    {
        let code = chars[i] as u32;
        if code < 0x20 || (0x7f <= code && code <= 0x9f) {
            assert(is_control(chars@[i as int]));
            return false;
        }
        i = i + 1;
    }
    true
}

/// Why a guide could not be selected or read. Paths and names are held in
/// their rendered, displayable form.
#[derive(Debug, PartialEq, Eq)]
pub enum GuideInputError {
    InvalidName { name: String, reason: String },
    InvalidPath { path: String, reason: String },
    InvalidAnchor { path: String, reason: String },
    UnsafePath { path: String, reason: String },
    Io { path: String, operation: String, kind: String },
}

impl GuideInputError {
    pub open spec fn spec_message(self) -> Seq<char> {
        match self {
            GuideInputError::InvalidName { name, reason } => "invalid implicit guide name "@ + name@ + ": "@
                + reason@,
            GuideInputError::InvalidPath { path, reason } => "invalid explicit guide path "@ + path@ + ": "@
                + reason@,
            GuideInputError::InvalidAnchor { path, reason } => "invalid guide trust anchor "@ + path@
                + ": "@ + reason@,
            GuideInputError::UnsafePath { path, reason } => "unsafe guide path "@ + path@ + ": "@ + reason@,
            GuideInputError::Io { path, operation, kind } => "could not "@ + operation@ + " guide path "@
                + path@ + " ("@ + kind@ + ")"@,
        }
    }

    /// The diagnostic text of the error.
    pub fn message(&self) -> (s: String)
        ensures
            s@ == self.spec_message(),
    {
        let mut s = String::new();
        match self {
            GuideInputError::InvalidName { name, reason } => {
                push_str(&mut s, "invalid implicit guide name ");
                push_str(&mut s, name.as_str());
                push_str(&mut s, ": ");
                push_str(&mut s, reason.as_str());
            },
            GuideInputError::InvalidPath { path, reason } => {
                push_str(&mut s, "invalid explicit guide path ");
                push_str(&mut s, path.as_str());
                push_str(&mut s, ": ");
                push_str(&mut s, reason.as_str());
            },
            GuideInputError::InvalidAnchor { path, reason } => {
                push_str(&mut s, "invalid guide trust anchor ");
                push_str(&mut s, path.as_str());
                push_str(&mut s, ": ");
                push_str(&mut s, reason.as_str());
            },
            GuideInputError::UnsafePath { path, reason } => {
                push_str(&mut s, "unsafe guide path ");
                push_str(&mut s, path.as_str());
                push_str(&mut s, ": ");
                push_str(&mut s, reason.as_str());
            },
            GuideInputError::Io { path, operation, kind } => {
                push_str(&mut s, "could not ");
                push_str(&mut s, operation.as_str());
                push_str(&mut s, " guide path ");
                push_str(&mut s, path.as_str());
                push_str(&mut s, " (");
                push_str(&mut s, kind.as_str());
                push_str(&mut s, ")");
            },
        }
        s
    }
}

/// The application error that carries a guide-input failure.
pub fn map_guide_input_error(error: &GuideInputError) -> (e: AppError)
    ensures
        e matches AppError::Other(m) && m@ == error.spec_message(),
{
    AppError::Other(error.message())
}

/// An explicit guide path must not be empty; `rendered` is its displayed form.
pub fn validate_explicit_path(path: &[u8], rendered: &str) -> (r: Result<(), GuideInputError>)
    ensures
        path@.len() > 0 ==> r is Ok,
        path@.len() == 0 ==> (r matches Err(GuideInputError::InvalidPath { path: p, reason: q }) && p@
            == rendered@ && q@ == "the path is empty"@),
{
    if path.len() == 0 {
        Err(GuideInputError::InvalidPath { path: rendered.to_owned(), reason: "the path is empty".to_owned() })
    } else {
        Ok(())
    }
}

} // verus!
