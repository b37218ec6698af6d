use agentic_navigation_guide::entry_type::{SupportedEntryKind, UnsupportedEntryKind};
use agentic_navigation_guide::errors::{AppError, SemanticError, SyntaxError};
use agentic_navigation_guide::guide_check::{DirEntry, DirListing, Listing, Verifier};
use agentic_navigation_guide::parser::Parser;
use agentic_navigation_guide::types::{FilesystemItem, NavigationGuide, NavigationGuideLine};
use std::path::PathBuf;

fn file(name: &str) -> DirEntry {
    DirEntry {
        name: name.as_bytes().to_vec(),
        kind: Ok(SupportedEntryKind::RegularFile),
    }
}

fn dir(name: &str) -> DirEntry {
    DirEntry {
        name: name.as_bytes().to_vec(),
        kind: Ok(SupportedEntryKind::Directory),
    }
}

fn listing(directory: &str, entries: Vec<DirEntry>) -> DirListing {
    DirListing {
        resolved: Vec::new(),
        directory: directory.to_string(),
        listing: Listing::Entries(entries),
    }
}

fn checker() -> Verifier {
    Verifier::new(PathBuf::from("root"))
}

fn guide(source: &str) -> NavigationGuide {
    Parser::new().parse(source).expect("test guide parses")
}

#[test]
fn test_verify_missing_file() {
    let guide = NavigationGuide {
        items: vec![NavigationGuideLine {
            line_number: 1,
            indent_level: 0,
            item: FilesystemItem::File {
                path: "missing.txt".to_string(),
                comment: None,
            },
        }],
        prologue: None,
        epilogue: None,
        ignore: false,
    };

    let result = checker().verify(&guide, &[listing("", vec![])]);
    assert!(matches!(
        result,
        Err(AppError::Semantic(SemanticError::ItemNotFound { .. }))
    ));
}

#[test]
fn listed_tree_verifies() {
    let g = guide("<agentic-navigation-guide>\n- src/\n  - main.rs\n- Cargo.toml\n</agentic-navigation-guide>");
    let listings = vec![
        listing("", vec![dir("src"), file("Cargo.toml")]),
        listing("src", vec![file("main.rs")]),
    ];
    assert!(checker().verify(&g, &listings).is_ok());
}

#[test]
fn a_parent_traversal_spelling_is_a_syntax_error() {
    let guide = NavigationGuide {
        items: vec![NavigationGuideLine {
            line_number: 1,
            indent_level: 0,
            item: FilesystemItem::File {
                path: "../outside.txt".to_string(),
                comment: None,
            },
        }],
        prologue: None,
        epilogue: None,
        ignore: false,
    };
    let result = checker().verify(&guide, &[listing("", vec![])]);
    assert!(matches!(
        result,
        Err(AppError::Syntax(SyntaxError::InvalidSpecialDirectory { .. }))
    ));
}

#[test]
fn a_file_listed_as_a_directory_is_a_type_mismatch() {
    let g = guide("<agentic-navigation-guide>\n- notes/\n</agentic-navigation-guide>");
    let result = checker().verify(&g, &[listing("", vec![file("notes")])]);
    match result {
        Err(AppError::Semantic(SemanticError::TypeMismatch {
            line,
            expected,
            found,
            path,
        })) => {
            assert_eq!(line, 2);
            assert_eq!(expected, "directory");
            assert_eq!(found, "file");
            assert_eq!(path, "notes");
        }
        other => panic!("unexpected outcome {other:?}"),
    }
}

#[test]
fn an_unsupported_entry_is_described() {
    let g = guide("<agentic-navigation-guide>\n- link.txt\n</agentic-navigation-guide>");
    let entry = DirEntry {
        name: b"link.txt".to_vec(),
        kind: Err(UnsupportedEntryKind::SymbolicLink),
    };
    let result = checker().verify(&g, &[listing("", vec![entry])]);
    match result {
        Err(AppError::Semantic(SemanticError::TypeMismatch { found, .. })) => {
            assert_eq!(found, "symbolic link");
        }
        other => panic!("unexpected outcome {other:?}"),
    }
}

#[test]
fn names_match_exactly_without_case_folding() {
    let g = guide("<agentic-navigation-guide>\n- README.md\n</agentic-navigation-guide>");
    let result = checker().verify(&g, &[listing("", vec![file("readme.md")])]);
    match result {
        Err(AppError::Semantic(SemanticError::ItemNotFound {
            line,
            item_type,
            path,
            full_path,
        })) => {
            assert_eq!(line, 2);
            assert_eq!(item_type, "file");
            assert_eq!(path, "README.md");
            assert_eq!(full_path, "README.md");
        }
        other => panic!("unexpected outcome {other:?}"),
    }
}

#[test]
fn issue_50_flat_path_mentions_its_first_component() {
    let g = guide("<agentic-navigation-guide>\n- src/main.rs\n- ...\n</agentic-navigation-guide>");
    let listings = vec![listing("", vec![dir("src")]), listing("src", vec![file("main.rs")])];
    let result = checker().verify(&g, &listings);
    assert!(matches!(
        result,
        Err(AppError::Semantic(SemanticError::PlaceholderNoUnmentionedItems { line: 3, .. }))
    ));
}

#[test]
fn placeholder_with_unmentioned_items_passes() {
    let g = guide("<agentic-navigation-guide>\n- main.rs\n- ...\n</agentic-navigation-guide>");
    let listings = vec![listing("", vec![file("main.rs"), file("naïve-文件.rs")])];
    assert!(checker().verify(&g, &listings).is_ok());
}

#[test]
fn placeholder_comments_must_say_something() {
    let described = guide("<agentic-navigation-guide>\n- main.rs\n- ... # future modules\n</agentic-navigation-guide>");
    let listings = vec![listing("", vec![file("main.rs")])];
    assert!(checker().verify(&described, &listings).is_ok());

    let mut blank = described;
    if let FilesystemItem::Placeholder { comment } = &mut blank.items[1].item {
        *comment = Some("   ".to_string());
    }
    let result = checker().verify(&blank, &listings);
    match result {
        Err(AppError::Semantic(SemanticError::PlaceholderNoUnmentionedItems { line, parent })) => {
            assert_eq!(line, 3);
            assert_eq!(parent, ".");
        }
        other => panic!("unexpected outcome {other:?}"),
    }
}

#[test]
fn test_placeholder_rejects_non_utf8_items() {
    let g = guide("<agentic-navigation-guide>\n- main.rs\n- ...\n</agentic-navigation-guide>");
    let listings = vec![listing(
        "",
        vec![
            file("main.rs"),
            DirEntry {
                name: b"bad-\xFF-file".to_vec(),
                kind: Ok(SupportedEntryKind::RegularFile),
            },
        ],
    )];
    let error = checker()
        .verify(&g, &listings)
        .expect_err("placeholder enumeration must reject a non-UTF-8 name");
    assert!(matches!(
        &error,
        AppError::Semantic(SemanticError::NonUtf8Path { .. })
    ));
    let diagnostic = error.message();
    assert!(
        diagnostic.contains("\"\\x62\\x61\\x64\\x2D\\xFF\\x2D\\x66\\x69\\x6C\\x65\""),
        "diagnostic did not preserve every raw byte: {diagnostic}"
    );
    assert!(!diagnostic.contains('\u{fffd}'));
}

#[test]
fn permission_denied_names_the_item() {
    let g = guide("<agentic-navigation-guide>\n- src/main.rs\n</agentic-navigation-guide>");
    let listings = vec![
        listing("", vec![dir("src")]),
        DirListing {
            resolved: Vec::new(),
            directory: "src".to_string(),
            listing: Listing::PermissionDenied,
        },
    ];
    let result = checker().verify(&g, &listings);
    assert!(matches!(
        result,
        Err(AppError::Semantic(SemanticError::PermissionDenied { line: 2, .. }))
    ));
}

#[test]
fn directories_to_read_follow_the_guide() {
    let g = guide("<agentic-navigation-guide>\n- src/\n  - main.rs\n  - ...\n</agentic-navigation-guide>");
    assert_eq!(
        Verifier::directories_to_read(&g),
        vec!["".to_string(), "".to_string(), "src".to_string(), "src".to_string()]
    );
}

fn resolving(directory: &str, entries: Vec<DirEntry>, resolved: &[&str]) -> DirListing {
    DirListing {
        directory: directory.to_string(),
        listing: Listing::Entries(entries),
        resolved: resolved.iter().map(|name| name.to_string()).collect(),
    }
}

fn assert_exact_identity_mismatch(error: &AppError, line: usize, requested: &str) {
    let diagnostic = error.message();
    assert!(matches!(error, AppError::Other(_)), "unexpected error {error:?}");
    assert!(diagnostic.contains(&format!("line {line}:")), "{diagnostic}");
    assert!(diagnostic.contains("exact filesystem name"), "{diagnostic}");
    assert!(diagnostic.contains(requested), "{diagnostic}");
}

#[test]
fn issue_50_case_identity_is_exact_or_capability_is_explicit() {
    let g = guide("<agentic-navigation-guide>\n- README.md\n- ...\n</agentic-navigation-guide>");
    // A host that resolves the alias: the listed spelling must still be exact.
    let aliasing = vec![resolving("", vec![file("Readme.md")], &["README.md"])];
    let error = checker()
        .verify(&g, &aliasing)
        .expect_err("a host alias must not satisfy exact filesystem identity");
    assert_exact_identity_mismatch(&error, 2, "README.md");

    // A host with distinct names: both spellings are real entries.
    let distinct = vec![resolving("", vec![file("Readme.md"), file("README.md")], &["README.md"])];
    let actual = guide("<agentic-navigation-guide>\n- Readme.md\n- ...\n</agentic-navigation-guide>");
    assert!(checker().verify(&actual, &distinct).is_ok());
    let both = guide(
        "<agentic-navigation-guide>\n- Readme.md\n- README.md\n- ...\n</agentic-navigation-guide>",
    );
    assert!(matches!(
        checker().verify(&both, &distinct),
        Err(AppError::Semantic(SemanticError::PlaceholderNoUnmentionedItems { line: 4, .. }))
    ));
}

#[test]
fn issue_50_case_identity_is_exact_in_later_components() {
    let g = guide("<agentic-navigation-guide>\n- src/main.rs\n</agentic-navigation-guide>");
    let listings = vec![
        listing("", vec![dir("src")]),
        resolving("src", vec![file("Main.rs")], &["main.rs"]),
    ];
    let error = checker()
        .verify(&g, &listings)
        .expect_err("a later host-alias component must not verify");
    assert_exact_identity_mismatch(&error, 2, "main.rs");
}

#[test]
fn an_unresolved_missing_name_is_not_found() {
    let g = guide("<agentic-navigation-guide>\n- README.md\n</agentic-navigation-guide>");
    let listings = vec![resolving("", vec![file("Readme.md")], &[])];
    assert!(matches!(
        checker().verify(&g, &listings),
        Err(AppError::Semantic(SemanticError::ItemNotFound { line: 2, .. }))
    ));
}

#[test]
fn issue_50_unlisted_non_utf8_name_rejects_without_a_placeholder() {
    let g = guide("<agentic-navigation-guide>\n- listed.txt\n</agentic-navigation-guide>");
    let listings = vec![listing(
        "",
        vec![
            file("listed.txt"),
            DirEntry {
                name: b"bad-\xFF-name".to_vec(),
                kind: Ok(SupportedEntryKind::RegularFile),
            },
        ],
    )];
    let error = checker()
        .verify(&g, &listings)
        .expect_err("every visited parent snapshot must reject an undecodable sibling");
    assert!(matches!(
        error,
        AppError::Semantic(SemanticError::NonUtf8Path { line: 2, .. })
    ));
    let diagnostic = error.message();
    assert!(diagnostic.contains("\"\\x62\\x61\\x64\\x2D\\xFF\\x2D\\x6E\\x61\\x6D\\x65\""), "{diagnostic}");
    assert!(!diagnostic.contains('\u{fffd}'));
}

#[test]
fn issue_50_unlisted_control_name_rejects_without_a_placeholder() {
    let control_name = "bad\nname.txt";
    let g = guide("<agentic-navigation-guide>\n- listed.txt\n</agentic-navigation-guide>");
    let listings = vec![listing("", vec![file("listed.txt"), file(control_name)])];
    let error = checker()
        .verify(&g, &listings)
        .expect_err("every visited parent snapshot must reject a control-bearing sibling");
    let diagnostic = error.message();
    assert!(diagnostic.contains("line 2:"), "{diagnostic}");
    assert!(diagnostic.contains("\"bad\\nname.txt\""), "{diagnostic}");
    assert!(!diagnostic.contains(control_name));
    assert!(!diagnostic.contains('\u{fffd}'));
}
