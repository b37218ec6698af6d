//! Core data types: the parsed guide tree and the run configuration.

use vstd::prelude::*;

verus! {

/// `std::path::PathBuf` is carried through the configuration unchanged.
#[verifier::external_type_specification]
#[verifier::external_body]
pub struct ExPathBuf(std::path::PathBuf);

/// One listed filesystem entry of a guide.
#[derive(Debug, PartialEq, Eq)]
pub enum FilesystemItem {
    /// A regular file
    File {
        /// The file path relative to its parent
        path: String,
        /// Optional comment describing the file
        comment: Option<String>,
    },
    /// A directory
    Directory {
        /// The directory path relative to its parent
        path: String,
        /// Optional comment describing the directory
        comment: Option<String>,
        /// Child items within this directory
        children: Vec<NavigationGuideLine>,
    },
    /// A placeholder representing one or more unlisted items
    Placeholder {
        /// Optional comment describing what the placeholder represents
        comment: Option<String>,
    },
}

/// Represents a single line in the navigation guide
#[derive(Debug, PartialEq, Eq)]
pub struct NavigationGuideLine {
    /// The line number in the original document
    pub line_number: usize,
    /// The logical indentation level
    pub indent_level: usize,
    /// The filesystem item this line represents
    pub item: FilesystemItem,
}

/// Represents a complete navigation guide
#[derive(Debug, PartialEq, Eq)]
pub struct NavigationGuide {
    /// The root items in the guide
    pub items: Vec<NavigationGuideLine>,
    /// The original prologue content (before the guide block)
    pub prologue: Option<String>,
    /// The original epilogue content (after the guide block)
    pub epilogue: Option<String>,
    /// Whether this guide should be ignored during verification
    pub ignore: bool,
}

/// The kind of a listed entry.
#[derive(Debug, Clone, Copy, PartialEq, Eq, Structural)]
pub enum LineKind {
    File,
    Directory,
    Placeholder,
}

pub open spec fn opt_view(o: Option<String>) -> Option<Seq<char>> {
    match o {
        Some(s) => Some(s@),
        None => None,
    }
}

/// The three-character path that stands for a placeholder.
pub open spec fn placeholder_path() -> Seq<char> {
    seq!['.', '.', '.']
}

impl FilesystemItem {
    pub open spec fn kind(self) -> LineKind {
        match self {
            FilesystemItem::File { .. } => LineKind::File,
            FilesystemItem::Directory { .. } => LineKind::Directory,
            FilesystemItem::Placeholder { .. } => LineKind::Placeholder,
        }
    }

    pub open spec fn spec_path(self) -> Seq<char> {
        match self {
            FilesystemItem::File { path, .. } => path@,
            FilesystemItem::Directory { path, .. } => path@,
            FilesystemItem::Placeholder { .. } => placeholder_path(),
        }
    }

    pub open spec fn spec_comment(self) -> Option<Seq<char>> {
        match self {
            FilesystemItem::File { comment, .. } => opt_view(comment),
            FilesystemItem::Directory { comment, .. } => opt_view(comment),
            FilesystemItem::Placeholder { comment } => opt_view(comment),
        }
    }

    pub open spec fn spec_children(self) -> Seq<NavigationGuideLine> {
        match self {
            FilesystemItem::Directory { children, .. } => children@,
            _ => seq![],
        }
    }
}

/// A line of the guide with its hierarchy flattened away.
pub struct FlatLine {
    pub line_number: usize,
    pub indent_level: usize,
    pub kind: LineKind,
    pub path: Seq<char>,
    pub comment: Option<Seq<char>>,
}

impl NavigationGuideLine {
    pub open spec fn flat(self) -> FlatLine {
        FlatLine {
            line_number: self.line_number,
            indent_level: self.indent_level,
            kind: self.item.kind(),
            path: self.item.spec_path(),
            comment: self.item.spec_comment(),
        }
    }

    /// Get the path of the filesystem item
    pub fn path(&self) -> (r: &str)
        ensures
            r@ == self.item.spec_path(),
    {
        match &self.item {
            FilesystemItem::File { path, .. } => path.as_str(),
            FilesystemItem::Directory { path, .. } => path.as_str(),
            FilesystemItem::Placeholder { .. } => {
                let r = "...";
                proof {
                    reveal_strlit("...");
                }
                assert(r@ == placeholder_path());
                r
            },
        }
    }

    /// Get the comment of the filesystem item
    pub fn comment(&self) -> (r: Option<&str>)
        ensures
            r matches Some(c) ==> self.item.spec_comment() == Some(c@),
            r is None ==> self.item.spec_comment() is None,
    {
        let comment = match &self.item {
            FilesystemItem::File { comment, .. } => comment,
            FilesystemItem::Directory { comment, .. } => comment,
            FilesystemItem::Placeholder { comment } => comment,
        };
        match comment {
            Some(c) => Some(c.as_str()),
            None => None,
        }
    }

    /// Check if this item is a directory
    pub fn is_directory(&self) -> (r: bool)
        ensures
            r == (self.item.kind() == LineKind::Directory),
    {
        match self.item {
            FilesystemItem::Directory { .. } => true,
            _ => false,
        }
    }

    /// Check if this item is a placeholder
    pub fn is_placeholder(&self) -> (r: bool)
        ensures
            r == (self.item.kind() == LineKind::Placeholder),
    {
        match self.item {
            FilesystemItem::Placeholder { .. } => true,
            _ => false,
        }
    }

    /// Get the children of a directory item
    pub fn children(&self) -> (r: Option<&[NavigationGuideLine]>)
        ensures
            r matches Some(c) ==> self.item.kind() == LineKind::Directory && c@
                == self.item.spec_children(),
            r is None ==> self.item.kind() != LineKind::Directory,
    {
        match &self.item {
            FilesystemItem::Directory { children, .. } => Some(children.as_slice()),
            _ => None,
        }
    }
}

/// The lines of a guide tree in document (pre-)order, hierarchy removed.
pub open spec fn flatten(lines: Seq<NavigationGuideLine>) -> Seq<FlatLine>
    decreases lines,
{
    if lines.len() == 0 {
        seq![]
    } else {
        let last = lines[lines.len() - 1];
        let below = match last.item {
            FilesystemItem::Directory { children, .. } => flatten(children@),
            _ => seq![],
        };
        flatten(lines.drop_last()) + seq![last.flat()] + below
    }
}

impl NavigationGuide {
    /// Create a new empty navigation guide
    pub fn new() -> (g: Self)
        ensures
            g.items@.len() == 0,
            g.prologue is None,
            g.epilogue is None,
            !g.ignore,
    {
        Self { items: Vec::new(), prologue: None, epilogue: None, ignore: false }
    }
}

impl Default for NavigationGuide {
    fn default() -> (g: Self)
        ensures
            g.items@.len() == 0,
            g.prologue is None,
            g.epilogue is None,
            !g.ignore,
    {
        Self::new()
    }
}

/// Execution mode for the CLI tool
#[derive(Debug, Clone, Copy, PartialEq, Eq, Structural)]
pub enum ExecutionMode {
    /// Default execution mode
    Default,
    /// Running as a post-tool-use hook
    PostToolUse,
    /// Running as a pre-commit hook
    PreCommitHook,
    /// Running as a GitHub Actions check
    GitHubActions,
}

impl Default for ExecutionMode {
    fn default() -> (m: Self)
        ensures
            m == ExecutionMode::Default,
    {
        ExecutionMode::Default
    }
}

/// Log level for output verbosity
#[derive(Debug, Clone, Copy, PartialEq, Eq, Structural)]
pub enum LogLevel {
    /// Minimal output
    Quiet,
    /// Normal output
    Default,
    /// Verbose output
    Verbose,
}

impl Default for LogLevel {
    fn default() -> (l: Self)
        ensures
            l == LogLevel::Default,
    {
        LogLevel::Default
    }
}

/// Configuration for the CLI tool
#[derive(Debug, Clone)]
pub struct Config {
    /// The execution mode
    pub execution_mode: ExecutionMode,
    /// The log level
    pub log_level: LogLevel,
    /// The root directory for operations
    pub root_path: Option<std::path::PathBuf>,
    /// The path to the navigation guide file
    pub guide_path: Option<std::path::PathBuf>,
    /// The original guide path as provided by the user (for error messages)
    pub original_guide_path: Option<String>,
    /// The original root path as provided by the user (for error messages)
    pub original_root_path: Option<String>,
}

impl Default for Config {
    fn default() -> (c: Self)
        ensures
            c.execution_mode == ExecutionMode::Default,
            c.log_level == LogLevel::Default,
            c.root_path is None,
            c.guide_path is None,
            c.original_guide_path is None,
            c.original_root_path is None,
    {
        Config {
            execution_mode: ExecutionMode::Default,
            log_level: LogLevel::Default,
            root_path: None,
            guide_path: None,
            original_guide_path: None,
            original_root_path: None,
        }
    }
}

} // verus!
