//! Reading, checking and generating navigation guides: Markdown documents
//! whose `<agentic-navigation-guide>` block lists the files and directories
//! of a repository.

use vstd::prelude::*;

pub mod text;
pub mod path_codec;
pub mod types;
pub mod errors;
pub mod exclusion;
pub mod lexer;
pub mod parser;
pub mod validator;
pub mod entry_type;
pub mod guide_check;
pub mod dumper;
pub mod cli;
pub mod recursive;
pub mod commands;
pub mod guide_input;
pub mod output;
pub mod round_trip;

use crate::errors::{AppError, SyntaxErrorView};
use crate::parser::{GuideSpec, Parser, spec_parse, well_nested};
use crate::types::{NavigationGuide, flatten, opt_view};
use crate::validator::{Validator, spec_validate};
use crate::guide_check::{DirListing, Verifier, resolver, snapshot_view, spec_verify};
use crate::errors::AppErrorView;
use crate::dumper::{Dumper, WalkedEntry, spec_generate, walked_view};
use crate::exclusion::{spec_compile_all, string_views};

verus! {

/// Parse a navigation guide from markdown content
pub fn parse_navigation_guide(content: &str) -> (r: Result<NavigationGuide, AppError>)
    ensures
        match r {
            Ok(g) => spec_parse(content@) == Ok::<GuideSpec, SyntaxErrorView>(
                GuideSpec {
                    lines: flatten(g.items@),
                    prologue: opt_view(g.prologue),
                    epilogue: opt_view(g.epilogue),
                    ignore: g.ignore,
                },
            ) && well_nested(g.items@, 0),
            Err(AppError::Syntax(e)) => spec_parse(content@) == Err::<GuideSpec, SyntaxErrorView>(e.view()),
            Err(_) => false,
        },
{
    Parser::new().parse(content)
}

/// Check if a navigation guide has valid syntax
pub fn check_syntax(guide: &NavigationGuide) -> (r: Result<(), AppError>)
    ensures
        match r {
            Ok(()) => spec_validate(guide.items@) is None,
            Err(AppError::Syntax(e)) => spec_validate(guide.items@) == Some(e.view()),
            Err(_) => false,
        },
{
    Validator::new().validate_syntax(guide)
}

/// Verify a navigation guide against the listings of its directories below `root_path`
pub fn verify_guide(guide: &NavigationGuide, root_path: std::path::PathBuf, listings: &[DirListing]) -> (r: Result<
    (),
    AppError,
>)
    ensures
        match r {
            Ok(()) => spec_verify(guide.items@, snapshot_view(listings@), resolver(listings@)) is Ok,
            Err(e) => spec_verify(guide.items@, snapshot_view(listings@), resolver(listings@)) == Err::<(), AppErrorView>(e.view()),
        },
{
    Verifier::new(root_path).verify(guide, listings)
}

/// Dump a directory structure as a navigation guide: the exclusion
/// patterns are compiled first; then, from the entries met by the walk of
/// the root, the excluded and uninspected ones are left out, the included
/// ones are checked (depth limit, names, kinds, walk order) and rendered.
pub fn dump_directory(
    root_path: std::path::PathBuf,
    rendered_root: &str,
    walked: &[WalkedEntry],
    max_depth: Option<usize>,
    exclude_patterns: &[String],
    indent_size: usize,
) -> (r: Result<String, AppError>)
    ensures
        match spec_compile_all(string_views(exclude_patterns@)) {
            Err(m) => exclude_patterns@.len() > 0 && (r matches Err(AppError::Other(x)) && x@ == m),
            Ok(ps) => {
                let exclude = if exclude_patterns@.len() == 0 {
                    None
                } else {
                    Some(ps)
                };
                match r {
                    Ok(s) => spec_generate(exclude, indent_size, max_depth, rendered_root@, walked_view(walked@))
                        == Ok::<Seq<char>, AppErrorView>(s@),
                    Err(e) => spec_generate(exclude, indent_size, max_depth, rendered_root@, walked_view(walked@))
                        == Err::<Seq<char>, AppErrorView>(e.view()),
                }
            },
        },
{
    let dumper = Dumper::new(root_path).with_max_depth(max_depth).with_exclude_patterns(exclude_patterns)?.with_indent_size(
        indent_size,
    );
    dumper.generate(rendered_root, walked)
}

} // verus!
