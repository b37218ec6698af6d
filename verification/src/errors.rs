//! Error types and their diagnostic texts.

use vstd::prelude::*;
use crate::text::{
    document_lines, push_decimal, push_str, spec_decimal, spec_lines, spec_trim, trim_white,
    push_all, chars_of,
};

verus! {

/// Syntax errors in navigation guide format
#[derive(Debug, PartialEq, Eq)]
pub enum SyntaxError {
    /// Missing opening sentinel marker
    MissingOpeningMarker { line: usize },
    /// Missing closing sentinel marker
    MissingClosingMarker { line: usize },
    /// Multiple guide blocks found
    MultipleGuideBlocks { line: usize },
    /// Empty guide block
    EmptyGuideBlock,
    /// Invalid list format
    InvalidListFormat { line: usize },
    /// Directory missing trailing slash
    DirectoryMissingSlash { line: usize, path: String },
    /// Invalid special directory
    InvalidSpecialDirectory { line: usize, path: String },
    /// Inconsistent indentation
    InconsistentIndentation { line: usize, expected: usize, found: usize },
    /// Invalid indentation level
    InvalidIndentationLevel { line: usize },
    /// Blank line in guide block
    BlankLineInGuide { line: usize },
    /// Invalid path format
    InvalidPathFormat { line: usize, path: String },
    /// Invalid comment format
    InvalidCommentFormat { line: usize },
    /// Malformed choice block
    InvalidWildcardSyntax { line: usize, path: String, message: String },
    /// Two placeholders listed next to each other
    AdjacentPlaceholders { line: usize },
    /// A placeholder with listed children
    PlaceholderWithChildren { line: usize },
}

/// Semantic errors when verifying against filesystem
#[derive(Debug, PartialEq, Eq)]
pub enum SemanticError {
    /// File or directory not found
    ItemNotFound { line: usize, item_type: String, path: String, full_path: String },
    /// Type mismatch (file vs directory)
    TypeMismatch { line: usize, expected: String, found: String, path: String },
    /// Invalid nesting - item not actually child of parent
    InvalidNesting { line: usize, child: String, parent: String },
    /// Permission denied accessing item
    PermissionDenied { line: usize, path: String },
    /// A placeholder without a comment whose directory lists nothing unmentioned
    PlaceholderNoUnmentionedItems { line: usize, parent: String },
    /// A directory entry whose name is not UTF-8 (rendered byte by byte)
    NonUtf8Path { line: usize, path: String },
}

/// Top-level application error type
#[derive(Debug, PartialEq, Eq)]
pub enum AppError {
    /// Syntax error in the navigation guide
    Syntax(SyntaxError),
    /// Semantic error when verifying against filesystem
    Semantic(SemanticError),
    /// Other errors
    Other(String),
}

pub open spec fn line_prefix(line: usize) -> Seq<char> {
    "line "@ + spec_decimal(line as nat) + ": "@
}

fn push_line_prefix(s: &mut String, line: usize)
    ensures
        final(s)@ == old(s)@ + line_prefix(line),
{
    push_str(s, "line ");
    push_decimal(s, line);
    push_str(s, ": ");
}

impl SyntaxError {
    pub open spec fn spec_line_number(self) -> Option<usize> {
        match self {
            SyntaxError::MissingOpeningMarker { line } => Some(line),
            SyntaxError::MissingClosingMarker { line } => Some(line),
            SyntaxError::MultipleGuideBlocks { line } => Some(line),
            SyntaxError::EmptyGuideBlock => None,
            SyntaxError::InvalidListFormat { line } => Some(line),
            SyntaxError::DirectoryMissingSlash { line, .. } => Some(line),
            SyntaxError::InvalidSpecialDirectory { line, .. } => Some(line),
            SyntaxError::InconsistentIndentation { line, .. } => Some(line),
            SyntaxError::InvalidIndentationLevel { line } => Some(line),
            SyntaxError::BlankLineInGuide { line } => Some(line),
            SyntaxError::InvalidPathFormat { line, .. } => Some(line),
            SyntaxError::InvalidCommentFormat { line } => Some(line),
            SyntaxError::InvalidWildcardSyntax { line, .. } => Some(line),
            SyntaxError::AdjacentPlaceholders { line } => Some(line),
            SyntaxError::PlaceholderWithChildren { line } => Some(line),
        }
    }

    /// Get the line number associated with this error, if any
    pub fn line_number(&self) -> (r: Option<usize>)
        ensures
            r == self.spec_line_number(),
    {
        match self {
            SyntaxError::MissingOpeningMarker { line } => Some(*line),
            SyntaxError::MissingClosingMarker { line } => Some(*line),
            SyntaxError::MultipleGuideBlocks { line } => Some(*line),
            SyntaxError::EmptyGuideBlock => None,
            SyntaxError::InvalidListFormat { line } => Some(*line),
            SyntaxError::DirectoryMissingSlash { line, .. } => Some(*line),
            SyntaxError::InvalidSpecialDirectory { line, .. } => Some(*line),
            SyntaxError::InconsistentIndentation { line, .. } => Some(*line),
            SyntaxError::InvalidIndentationLevel { line } => Some(*line),
            SyntaxError::BlankLineInGuide { line } => Some(*line),
            SyntaxError::InvalidPathFormat { line, .. } => Some(*line),
            SyntaxError::InvalidCommentFormat { line } => Some(*line),
            SyntaxError::InvalidWildcardSyntax { line, .. } => Some(*line),
            SyntaxError::AdjacentPlaceholders { line } => Some(*line),
            SyntaxError::PlaceholderWithChildren { line } => Some(*line),
        }
    }

    /// The diagnostic text of the error.
    pub open spec fn spec_message(self) -> Seq<char> {
        match self {
            SyntaxError::MissingOpeningMarker { line } => line_prefix(line)
                + "missing opening <agentic-navigation-guide> marker"@,
            SyntaxError::MissingClosingMarker { line } => line_prefix(line)
                + "missing closing </agentic-navigation-guide> marker"@,
            SyntaxError::MultipleGuideBlocks { line } => line_prefix(line)
                + "multiple <agentic-navigation-guide> blocks found"@,
            SyntaxError::EmptyGuideBlock => "empty navigation guide block"@,
            SyntaxError::InvalidListFormat { line } => line_prefix(line)
                + "invalid list format - must start with '-'"@,
            SyntaxError::DirectoryMissingSlash { line, path } => line_prefix(line) + "directory '"@
                + path@ + "' must end with '/'"@,
            SyntaxError::InvalidSpecialDirectory { line, path } => line_prefix(line)
                + "invalid special directory '"@ + path@ + "' (. and .. are not allowed)"@,
            SyntaxError::InconsistentIndentation { line, expected, found } => line_prefix(line)
                + "inconsistent indentation - expected "@ + spec_decimal(expected as nat)
                + " spaces, found "@ + spec_decimal(found as nat),
            SyntaxError::InvalidIndentationLevel { line } => line_prefix(line)
                + "invalid indentation level - must be a multiple of the indent size"@,
            SyntaxError::BlankLineInGuide { line } => line_prefix(line)
                + "blank lines are not allowed within the guide block"@,
            SyntaxError::InvalidPathFormat { line, path } => line_prefix(line)
                + "invalid path format '"@ + path@ + "'"@,
            SyntaxError::InvalidCommentFormat { line } => line_prefix(line)
                + "invalid comment format - comments must be separated by '#'"@,
            SyntaxError::InvalidWildcardSyntax { line, path, message } => line_prefix(line)
                + "invalid wildcard syntax in '"@ + path@ + "': "@ + message@,
            SyntaxError::AdjacentPlaceholders { line } => line_prefix(line)
                + "adjacent placeholders are not allowed"@,
            SyntaxError::PlaceholderWithChildren { line } => line_prefix(line)
                + "placeholders cannot have children"@,
        }
    }

    /// The diagnostic text of the error.
    pub fn message(&self) -> (s: String)
        ensures
            s@ == self.spec_message(),
    {
        let mut s = String::new();
        match self {
            SyntaxError::MissingOpeningMarker { line } => {
                push_line_prefix(&mut s, *line);
                push_str(&mut s, "missing opening <agentic-navigation-guide> marker");
            },
            SyntaxError::MissingClosingMarker { line } => {
                push_line_prefix(&mut s, *line);
                push_str(&mut s, "missing closing </agentic-navigation-guide> marker");
            },
            SyntaxError::MultipleGuideBlocks { line } => {
                push_line_prefix(&mut s, *line);
                push_str(&mut s, "multiple <agentic-navigation-guide> blocks found");
            },
            SyntaxError::EmptyGuideBlock => {
                push_str(&mut s, "empty navigation guide block");
            },
            SyntaxError::InvalidListFormat { line } => {
                push_line_prefix(&mut s, *line);
                push_str(&mut s, "invalid list format - must start with '-'");
            },
            SyntaxError::DirectoryMissingSlash { line, path } => {
                push_line_prefix(&mut s, *line);
                push_str(&mut s, "directory '");
                push_str(&mut s, path.as_str());
                push_str(&mut s, "' must end with '/'");
            },
            SyntaxError::InvalidSpecialDirectory { line, path } => {
                push_line_prefix(&mut s, *line);
                push_str(&mut s, "invalid special directory '");
                push_str(&mut s, path.as_str());
                push_str(&mut s, "' (. and .. are not allowed)");
            },
            SyntaxError::InconsistentIndentation { line, expected, found } => {
                push_line_prefix(&mut s, *line);
                push_str(&mut s, "inconsistent indentation - expected ");
                push_decimal(&mut s, *expected);
                push_str(&mut s, " spaces, found ");
                push_decimal(&mut s, *found);
            },
            SyntaxError::InvalidIndentationLevel { line } => {
                push_line_prefix(&mut s, *line);
                push_str(&mut s, "invalid indentation level - must be a multiple of the indent size");
            },
            SyntaxError::BlankLineInGuide { line } => {
                push_line_prefix(&mut s, *line);
                push_str(&mut s, "blank lines are not allowed within the guide block");
            },
            SyntaxError::InvalidPathFormat { line, path } => {
                push_line_prefix(&mut s, *line);
                push_str(&mut s, "invalid path format '");
                push_str(&mut s, path.as_str());
                push_str(&mut s, "'");
            },
            SyntaxError::InvalidCommentFormat { line } => {
                push_line_prefix(&mut s, *line);
                push_str(&mut s, "invalid comment format - comments must be separated by '#'");
            },
            SyntaxError::InvalidWildcardSyntax { line, path, message } => {
                push_line_prefix(&mut s, *line);
                push_str(&mut s, "invalid wildcard syntax in '");
                push_str(&mut s, path.as_str());
                push_str(&mut s, "': ");
                push_str(&mut s, message.as_str());
            },
            SyntaxError::AdjacentPlaceholders { line } => {
                push_line_prefix(&mut s, *line);
                push_str(&mut s, "adjacent placeholders are not allowed");
            },
            SyntaxError::PlaceholderWithChildren { line } => {
                push_line_prefix(&mut s, *line);
                push_str(&mut s, "placeholders cannot have children");
            },
        }
        s
    }
}

impl SemanticError {
    pub open spec fn spec_line_number(self) -> usize {
        match self {
            SemanticError::ItemNotFound { line, .. } => line,
            SemanticError::TypeMismatch { line, .. } => line,
            SemanticError::InvalidNesting { line, .. } => line,
            SemanticError::PermissionDenied { line, .. } => line,
            SemanticError::PlaceholderNoUnmentionedItems { line, .. } => line,
            SemanticError::NonUtf8Path { line, .. } => line,
        }
    }

    /// Get the line number associated with this error
    pub fn line_number(&self) -> (r: usize)
        ensures
            r == self.spec_line_number(),
    {
        match self {
            SemanticError::ItemNotFound { line, .. } => *line,
            SemanticError::TypeMismatch { line, .. } => *line,
            SemanticError::InvalidNesting { line, .. } => *line,
            SemanticError::PermissionDenied { line, .. } => *line,
            SemanticError::PlaceholderNoUnmentionedItems { line, .. } => *line,
            SemanticError::NonUtf8Path { line, .. } => *line,
        }
    }

    /// The diagnostic text of the error.
    pub open spec fn spec_message(self) -> Seq<char> {
        match self {
            SemanticError::ItemNotFound { line, item_type, path, full_path } => line_prefix(line)
                + item_type@ + " '"@ + path@ + "' not found at "@ + full_path@,
            SemanticError::TypeMismatch { line, expected, found, path } => line_prefix(line)
                + "expected "@ + expected@ + " but found "@ + found@ + " at '"@ + path@ + "'"@,
            SemanticError::InvalidNesting { line, child, parent } => line_prefix(line) + "'"@
                + child@ + "' is not a child of '"@ + parent@ + "'"@,
            SemanticError::PermissionDenied { line, path } => line_prefix(line)
                + "permission denied accessing '"@ + path@ + "'"@,
            SemanticError::PlaceholderNoUnmentionedItems { line, parent } => line_prefix(line)
                + "placeholder in '"@ + parent@
                + "' has no unlisted entries and no descriptive comment"@,
            SemanticError::NonUtf8Path { line, path } => line_prefix(line)
                + "unsupported non-UTF-8 filesystem name "@ + path@,
        }
    }

    /// The diagnostic text of the error.
    pub fn message(&self) -> (s: String)
        ensures
            s@ == self.spec_message(),
    {
        let mut s = String::new();
        match self {
            SemanticError::ItemNotFound { line, item_type, path, full_path } => {
                push_line_prefix(&mut s, *line);
                push_str(&mut s, item_type.as_str());
                push_str(&mut s, " '");
                push_str(&mut s, path.as_str());
                push_str(&mut s, "' not found at ");
                push_str(&mut s, full_path.as_str());
            },
            SemanticError::TypeMismatch { line, expected, found, path } => {
                push_line_prefix(&mut s, *line);
                push_str(&mut s, "expected ");
                push_str(&mut s, expected.as_str());
                push_str(&mut s, " but found ");
                push_str(&mut s, found.as_str());
                push_str(&mut s, " at '");
                push_str(&mut s, path.as_str());
                push_str(&mut s, "'");
            },
            SemanticError::InvalidNesting { line, child, parent } => {
                push_line_prefix(&mut s, *line);
                push_str(&mut s, "'");
                push_str(&mut s, child.as_str());
                push_str(&mut s, "' is not a child of '");
                push_str(&mut s, parent.as_str());
                push_str(&mut s, "'");
            },
            SemanticError::PermissionDenied { line, path } => {
                push_line_prefix(&mut s, *line);
                push_str(&mut s, "permission denied accessing '");
                push_str(&mut s, path.as_str());
                push_str(&mut s, "'");
            },
            SemanticError::PlaceholderNoUnmentionedItems { line, parent } => {
                push_line_prefix(&mut s, *line);
                push_str(&mut s, "placeholder in '");
                push_str(&mut s, parent.as_str());
                push_str(&mut s, "' has no unlisted entries and no descriptive comment");
            },
            SemanticError::NonUtf8Path { line, path } => {
                push_line_prefix(&mut s, *line);
                push_str(&mut s, "unsupported non-UTF-8 filesystem name ");
                push_str(&mut s, path.as_str());
            },
        }
        s
    }
}

impl AppError {
    /// The diagnostic text of the error.
    pub open spec fn spec_message(self) -> Seq<char> {
        match self {
            AppError::Syntax(e) => "syntax error: "@ + e.spec_message(),
            AppError::Semantic(e) => "semantic error: "@ + e.spec_message(),
            AppError::Other(m) => m@,
        }
    }

    /// The diagnostic text of the error.
    pub fn message(&self) -> (s: String)
        ensures
            s@ == self.spec_message(),
    {
        match self {
            AppError::Syntax(e) => {
                let mut s = String::new();
                push_str(&mut s, "syntax error: ");
                let m = e.message();
                push_str(&mut s, m.as_str());
                s
            },
            AppError::Semantic(e) => {
                let mut s = String::new();
                push_str(&mut s, "semantic error: ");
                let m = e.message();
                push_str(&mut s, m.as_str());
                s
            },
            AppError::Other(m) => m.clone(),
        }
    }
}

/// Format errors for display with optional context
pub struct ErrorFormatter;

/// The message followed, when the content has that line, by the trimmed line.
pub open spec fn spec_with_line_context(
    message: Seq<char>,
    line_num: usize,
    content: Option<Seq<char>>,
) -> Seq<char> {
    let index = if line_num == 0 {
        0
    } else {
        line_num - 1
    };
    match content {
        Some(c) => if index < spec_lines(c).len() {
            message + "\n    "@ + spec_trim(spec_lines(c)[index])
        } else {
            message
        },
        None => message,
    }
}

pub open spec fn spec_format_with_context(error: AppError, content: Option<Seq<char>>) -> Seq<
    char,
> {
    match error {
        AppError::Syntax(e) => match e.spec_line_number() {
            Some(line) => spec_with_line_context(e.spec_message(), line, content),
            None => e.spec_message(),
        },
        AppError::Semantic(e) => spec_with_line_context(
            e.spec_message(),
            e.spec_line_number(),
            content,
        ),
        _ => error.spec_message(),
    }
}

impl ErrorFormatter {
    /// Format an error with line context if available
    pub fn format_with_context(error: &AppError, file_content: Option<&str>) -> (s: String)
        ensures
            s@ == spec_format_with_context(
                *error,
                match file_content {
                    Some(c) => Some(c@),
                    None => None,
                },
            ),
    {
        match error {
            AppError::Syntax(e) => {
                match e.line_number() {
                    Some(line_num) => Self::format_with_line_context(
                        e.message(),
                        line_num,
                        file_content,
                    ),
                    None => e.message(),
                }
            },
            AppError::Semantic(e) => Self::format_with_line_context(
                e.message(),
                e.line_number(),
                file_content,
            ),
            _ => error.message(),
        }
    }

    fn format_with_line_context(error_msg: String, line_num: usize, file_content: Option<&str>) -> (s:
        String)
        ensures
            s@ == spec_with_line_context(
                error_msg@,
                line_num,
                match file_content {
                    Some(c) => Some(c@),
                    None => None,
                },
            ),
    {
        match file_content {
            Some(content) => {
                let chars = chars_of(content);
                let lines = document_lines(chars.as_slice());
                let index = if line_num == 0 {
                    0
                } else {
                    line_num - 1
                };
                if index < lines.len() {
                    let mut s = error_msg;
                    push_str(&mut s, "\n    ");
                    let trimmed = trim_white(lines[index].as_slice());
                    push_all(&mut s, trimmed.as_slice());
                    s
                } else {
                    error_msg
                }
            },
            None => error_msg,
        }
    }
}


/// The mathematical content of a syntax error.
pub enum SyntaxErrorView {
    MissingOpeningMarker { line: usize },
    MissingClosingMarker { line: usize },
    MultipleGuideBlocks { line: usize },
    EmptyGuideBlock,
    InvalidListFormat { line: usize },
    DirectoryMissingSlash { line: usize, path: Seq<char> },
    InvalidSpecialDirectory { line: usize, path: Seq<char> },
    InconsistentIndentation { line: usize, expected: usize, found: usize },
    InvalidIndentationLevel { line: usize },
    BlankLineInGuide { line: usize },
    InvalidPathFormat { line: usize, path: Seq<char> },
    InvalidCommentFormat { line: usize },
    InvalidWildcardSyntax { line: usize, path: Seq<char>, message: Seq<char> },
    AdjacentPlaceholders { line: usize },
    PlaceholderWithChildren { line: usize },
}

impl SyntaxError {
    pub open spec fn view(self) -> SyntaxErrorView {
        match self {
            SyntaxError::MissingOpeningMarker { line } => SyntaxErrorView::MissingOpeningMarker { line },
            SyntaxError::MissingClosingMarker { line } => SyntaxErrorView::MissingClosingMarker { line },
            SyntaxError::MultipleGuideBlocks { line } => SyntaxErrorView::MultipleGuideBlocks { line },
            SyntaxError::EmptyGuideBlock => SyntaxErrorView::EmptyGuideBlock,
            SyntaxError::InvalidListFormat { line } => SyntaxErrorView::InvalidListFormat { line },
            SyntaxError::DirectoryMissingSlash { line, path } => SyntaxErrorView::DirectoryMissingSlash { line, path: path@ },
            SyntaxError::InvalidSpecialDirectory { line, path } => SyntaxErrorView::InvalidSpecialDirectory { line, path: path@ },
            SyntaxError::InconsistentIndentation { line, expected, found } => SyntaxErrorView::InconsistentIndentation { line, expected, found },
            SyntaxError::InvalidIndentationLevel { line } => SyntaxErrorView::InvalidIndentationLevel { line },
            SyntaxError::BlankLineInGuide { line } => SyntaxErrorView::BlankLineInGuide { line },
            SyntaxError::InvalidPathFormat { line, path } => SyntaxErrorView::InvalidPathFormat { line, path: path@ },
            SyntaxError::InvalidCommentFormat { line } => SyntaxErrorView::InvalidCommentFormat { line },
            SyntaxError::InvalidWildcardSyntax { line, path, message } => SyntaxErrorView::InvalidWildcardSyntax { line, path: path@, message: message@ },
            SyntaxError::AdjacentPlaceholders { line } => SyntaxErrorView::AdjacentPlaceholders { line },
            SyntaxError::PlaceholderWithChildren { line } => SyntaxErrorView::PlaceholderWithChildren { line },
        }
    }
}


/// The mathematical content of a semantic error.
pub enum SemanticErrorView {
    ItemNotFound { line: usize, item_type: Seq<char>, path: Seq<char>, full_path: Seq<char> },
    TypeMismatch { line: usize, expected: Seq<char>, found: Seq<char>, path: Seq<char> },
    InvalidNesting { line: usize, child: Seq<char>, parent: Seq<char> },
    PermissionDenied { line: usize, path: Seq<char> },
    PlaceholderNoUnmentionedItems { line: usize, parent: Seq<char> },
    NonUtf8Path { line: usize, path: Seq<char> },
}

impl SemanticError {
    pub open spec fn view(self) -> SemanticErrorView {
        match self {
            SemanticError::ItemNotFound { line, item_type, path, full_path } => SemanticErrorView::ItemNotFound {
                line,
                item_type: item_type@,
                path: path@,
                full_path: full_path@,
            },
            SemanticError::TypeMismatch { line, expected, found, path } => SemanticErrorView::TypeMismatch {
                line,
                expected: expected@,
                found: found@,
                path: path@,
            },
            SemanticError::InvalidNesting { line, child, parent } => SemanticErrorView::InvalidNesting {
                line,
                child: child@,
                parent: parent@,
            },
            SemanticError::PermissionDenied { line, path } => SemanticErrorView::PermissionDenied { line, path: path@ },
            SemanticError::PlaceholderNoUnmentionedItems { line, parent } => SemanticErrorView::PlaceholderNoUnmentionedItems {
                line,
                parent: parent@,
            },
            SemanticError::NonUtf8Path { line, path } => SemanticErrorView::NonUtf8Path { line, path: path@ },
        }
    }
}

/// The mathematical content of an application error.
pub enum AppErrorView {
    Syntax(SyntaxErrorView),
    Semantic(SemanticErrorView),
    Other(Seq<char>),
}

impl AppError {
    pub open spec fn view(self) -> AppErrorView {
        match self {
            AppError::Syntax(e) => AppErrorView::Syntax(e.view()),
            AppError::Semantic(e) => AppErrorView::Semantic(e.view()),
            AppError::Other(m) => AppErrorView::Other(m@),
        }
    }
}

} // verus!
