//! The exclusion dialect as generation and discovery apply it, over small
//! in-memory trees walked the way the command-line program walks a disk.

use agentic_navigation_guide::dumper::{Dumper, WalkedEntry};
use agentic_navigation_guide::dump_directory;
use agentic_navigation_guide::entry_type::SupportedEntryKind;
use agentic_navigation_guide::exclusion::ExclusionMatcher;
use agentic_navigation_guide::parser::Parser;
use agentic_navigation_guide::recursive::{child_action, discovery_setup, ChildAction};
use agentic_navigation_guide::types::NavigationGuideLine;
use std::collections::{BTreeMap, BTreeSet};
use std::path::PathBuf;

const GUIDE_NAME: &str = "AGENTIC_NAVIGATION_GUIDE.md";

/// A directory tree: each directory's children by name, with whether each is
/// a directory. The root is the empty path.
struct Tree {
    children: BTreeMap<Vec<String>, BTreeMap<String, bool>>,
}

impl Tree {
    fn new() -> Tree {
        let mut children = BTreeMap::new();
        children.insert(Vec::new(), BTreeMap::new());
        Tree { children }
    }

    fn add(&mut self, path: &str, is_dir: bool) {
        let parts: Vec<String> = path.split('/').map(|p| p.to_string()).collect();
        let mut parent: Vec<String> = Vec::new();
        for (i, part) in parts.iter().enumerate() {
            let last = i + 1 == parts.len();
            let dir = !last || is_dir;
            self.children
                .entry(parent.clone())
                .or_default()
                .entry(part.clone())
                .and_modify(|d| *d = *d || dir)
                .or_insert(dir);
            parent.push(part.clone());
            if dir {
                self.children.entry(parent.clone()).or_default();
            }
        }
    }

    fn with_files(paths: &[&str]) -> Tree {
        let mut tree = Tree::new();
        for path in paths {
            tree.add(path, false);
        }
        tree
    }

    fn sorted_children(&self, dir: &[String]) -> Vec<(String, bool)> {
        let mut names: Vec<(String, bool)> = self
            .children
            .get(dir)
            .map(|c| c.iter().map(|(n, d)| (n.clone(), *d)).collect())
            .unwrap_or_default();
        names.sort_by(|a, b| a.0.as_bytes().cmp(b.0.as_bytes()));
        names
    }
}

fn strings(values: &[&str]) -> Vec<String> {
    values.iter().map(|v| v.to_string()).collect()
}

fn expected_paths(values: &[&str]) -> BTreeSet<String> {
    values.iter().map(|v| v.to_string()).collect()
}

/// Every entry of the tree in walk order, excluded ones included: the
/// library itself leaves out what the exclusions hide.
fn walk_all(tree: &Tree, relative: &[String], entries: &mut Vec<WalkedEntry>) {
    for (name, is_dir) in tree.sorted_children(relative) {
        let mut components = relative.to_vec();
        components.push(name);
        entries.push(WalkedEntry {
            components: components.iter().map(|c| c.as_bytes().to_vec()).collect(),
            kind: Ok(if is_dir {
                SupportedEntryKind::Directory
            } else {
                SupportedEntryKind::RegularFile
            }),
        });
        if is_dir {
            walk_all(tree, &components, entries);
        }
    }
}

fn flatten_paths(lines: &[NavigationGuideLine], parent: &str, paths: &mut BTreeSet<String>) {
    for line in lines {
        let path = if parent.is_empty() {
            line.path().to_string()
        } else {
            format!("{parent}/{}", line.path())
        };
        paths.insert(path.clone());
        if let Some(children) = line.children() {
            flatten_paths(children, &path, paths);
        }
    }
}

fn dump_paths(tree: &Tree, patterns: &[&str]) -> BTreeSet<String> {
    let mut entries = Vec::new();
    walk_all(tree, &[], &mut entries);
    let body = dump_directory(PathBuf::from("root"), "root", &entries, None, &strings(patterns), 2)
        .expect("generate fixture");
    let source = format!("<agentic-navigation-guide>\n{body}</agentic-navigation-guide>");
    let guide = Parser::new().parse(&source).expect("parse generated guide");
    let mut paths = BTreeSet::new();
    flatten_paths(&guide.items, "", &mut paths);
    paths
}

fn discover(tree: &Tree, matcher: &ExclusionMatcher) -> BTreeSet<String> {
    let mut found = BTreeSet::new();
    let mut pending: Vec<Vec<String>> = vec![Vec::new()];
    while let Some(relative) = pending.pop() {
        for (name, is_dir) in tree.sorted_children(&relative) {
            let mut components = relative.clone();
            components.push(name.clone());
            let raw: Vec<Vec<u8>> = components.iter().map(|c| c.as_bytes().to_vec()).collect();
            if matcher.is_match(&raw).expect("names are text") {
                continue;
            }
            match child_action(name.as_bytes(), GUIDE_NAME, false, is_dir) {
                ChildAction::Guide => {
                    found.insert(components.join("/"));
                }
                ChildAction::Descend => pending.push(components),
                ChildAction::Skip | ChildAction::CheckLink => {}
            }
        }
    }
    found
}

fn discovered_paths(tree: &Tree, patterns: &[&str]) -> BTreeSet<String> {
    let matcher =
        discovery_setup(GUIDE_NAME, GUIDE_NAME, &strings(patterns)).expect("discover guides");
    discover(tree, &matcher)
}

fn with_guides(directories: &[&str]) -> Tree {
    let mut tree = Tree::new();
    for directory in directories {
        tree.add(&format!("{directory}/keep.txt"), false);
        tree.add(&format!("{directory}/{GUIDE_NAME}"), false);
    }
    tree
}

#[test]
fn issue_44_basename_and_root_relative_patterns_are_distinct() {
    let tree = Tree::with_files(&[
        "target/root.txt",
        "project/target/nested.txt",
        "project/keep.txt",
        "targets/keep.txt",
        "other/project/target/keep.txt",
    ]);

    assert_eq!(
        dump_paths(&tree, &["target"]),
        expected_paths(&[
            "other",
            "other/project",
            "project",
            "project/keep.txt",
            "targets",
            "targets/keep.txt",
        ]),
        "a no-slash pattern must match basenames at every depth"
    );

    assert_eq!(
        dump_paths(&tree, &["project/target"]),
        expected_paths(&[
            "other",
            "other/project",
            "other/project/target",
            "other/project/target/keep.txt",
            "project",
            "project/keep.txt",
            "target",
            "target/root.txt",
            "targets",
            "targets/keep.txt",
        ]),
        "a slash pattern must match only the complete root-relative path"
    );
}

#[test]
fn issue_44_globstar_spans_complete_components_and_star_does_not() {
    let tree = Tree::with_files(&[
        "projects/target/zero.txt",
        "projects/a/target/one.txt",
        "projects/a/b/target/many.txt",
        "projects/a/b/not-target/keep.txt",
    ]);

    assert_eq!(
        dump_paths(&tree, &["projects/*/target"]),
        expected_paths(&[
            "projects",
            "projects/a",
            "projects/a/b",
            "projects/a/b/not-target",
            "projects/a/b/not-target/keep.txt",
            "projects/a/b/target",
            "projects/a/b/target/many.txt",
            "projects/target",
            "projects/target/zero.txt",
        ]),
        "`*` must consume exactly one path component in this slash pattern"
    );

    assert_eq!(
        dump_paths(&tree, &["projects/**/target"]),
        expected_paths(&[
            "projects",
            "projects/a",
            "projects/a/b",
            "projects/a/b/not-target",
            "projects/a/b/not-target/keep.txt",
        ]),
        "a complete `**` component must consume zero or many path components"
    );
}

#[test]
fn issue_44_tokens_are_unicode_scalar_based_and_patterns_form_a_union() {
    let tree = Tree::with_files(&[
        "nested/é.tmp",
        "nested/ab.tmp",
        "nested/b.log",
        "nested/d.log",
        "nested/cache.bin",
        "nested/keep.txt",
    ]);

    assert_eq!(
        dump_paths(&tree, &["?.tmp", "[a-c].log", "cache.*"]),
        expected_paths(&["nested", "nested/ab.tmp", "nested/d.log", "nested/keep.txt"]),
        "`?`, classes, and every member of a pattern union must use the shared dialect"
    );
}

#[test]
fn issue_44_contract_literals_are_not_gitignore_or_globset_extensions() {
    let tree = Tree::with_files(&["{one,two}", "one", "two", "!target", "target"]);

    assert_eq!(
        dump_paths(&tree, &["{one,two}", "!target"]),
        expected_paths(&["one", "target", "two"]),
        "braces and a leading `!` are literals, not alternation or re-inclusion"
    );
}

#[test]
fn issue_44_invalid_patterns_reject_before_root_traversal() {
    let invalid_patterns = [
        "", "/a", "a/", "a//b", ".", "..", "a/./b", "a/../b", "***", "a/**b", "a/b**", "a/***/b",
        "[]", "[!]", "[", "[z-a]", "\\", "\\q",
    ];

    for pattern in invalid_patterns {
        let error = match Dumper::new(PathBuf::from("missing-root"))
            .with_exclude_patterns(&[pattern.to_string()])
        {
            Ok(_) => panic!("invalid exclusion pattern {pattern:?} was accepted"),
            Err(error) => error,
        };
        assert!(
            error.message().contains("invalid glob pattern"),
            "{pattern:?} produced a non-actionable diagnostic: {}",
            error.message()
        );
    }

    let error = match discovery_setup(GUIDE_NAME, GUIDE_NAME, &["a/**b".to_string()]) {
        Ok(_) => panic!("invalid recursive pattern must win over missing-root traversal"),
        Err(error) => error,
    };
    assert!(
        error.message().contains("invalid glob pattern"),
        "recursive discovery did not report the matcher error first: {}",
        error.message()
    );

    assert!(
        Dumper::new(PathBuf::from("root"))
            .with_exclude_patterns(&["keep.txt".to_string(), "a/**b".to_string()])
            .is_err(),
        "one invalid member must reject the complete union"
    );
}

#[test]
fn issue_44_recursive_verify_covers_root_relative_globstar_and_union_patterns() {
    let tree = with_guides(&[
        "target",
        "project/target",
        "other/project/target",
        "project/src",
        "projects/target",
        "projects/a/b/target",
    ]);

    let cases: &[(&[&str], &[&str])] = &[
        (
            &["project/target"],
            &[
                "other/project/target/AGENTIC_NAVIGATION_GUIDE.md",
                "project/src/AGENTIC_NAVIGATION_GUIDE.md",
                "projects/a/b/target/AGENTIC_NAVIGATION_GUIDE.md",
                "projects/target/AGENTIC_NAVIGATION_GUIDE.md",
                "target/AGENTIC_NAVIGATION_GUIDE.md",
            ],
        ),
        (
            &["projects/**/target"],
            &[
                "other/project/target/AGENTIC_NAVIGATION_GUIDE.md",
                "project/src/AGENTIC_NAVIGATION_GUIDE.md",
                "project/target/AGENTIC_NAVIGATION_GUIDE.md",
                "target/AGENTIC_NAVIGATION_GUIDE.md",
            ],
        ),
        (&["target", "project/src"], &[]),
    ];

    for (patterns, expected) in cases {
        assert_eq!(
            discovered_paths(&tree, patterns),
            expected_paths(expected),
            "recursive discovery differed for {patterns:?}"
        );
    }
}
