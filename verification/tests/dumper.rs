use agentic_navigation_guide::dump_directory;
use agentic_navigation_guide::dumper::{entry_texts, Dumper, GeneratedEntry, GenerationFailure, TraversalLimit, WalkedEntry};
use agentic_navigation_guide::errors::AppError;
use agentic_navigation_guide::entry_type::{
    classify_observation, EntryTypeObservation, SupportedEntryKind, UnsupportedEntryKind,
};
use agentic_navigation_guide::guide_check::{DirEntry, DirListing, Listing, Verifier};
use agentic_navigation_guide::parser::Parser;
use agentic_navigation_guide::validator::Validator;
use std::path::PathBuf;

fn entry(components: &[&str], is_dir: bool) -> GeneratedEntry {
    GeneratedEntry {
        components: components.iter().map(|c| c.to_string()).collect(),
        is_dir,
    }
}

fn dumper() -> Dumper {
    Dumper::new(PathBuf::from("root"))
}

#[test]
fn generated_list_uses_indentation_and_canonical_names() {
    let entries = vec![
        entry(&["src"], true),
        entry(&["src", "main.rs"], false),
        entry(&["src", "report#draft"], false),
        entry(&["Cargo.toml"], false),
    ];
    let text = dumper().dump("root", &entries).expect("representable entries");
    assert_eq!(
        text,
        "- src/\n  - main.rs\n  - \"report#draft\"\n- Cargo.toml\n"
    );
}

#[test]
fn wrapped_generation_reads_back_as_the_same_tree() {
    let entries = vec![
        entry(&["docs"], true),
        entry(&["docs", "[draft]"], false),
        entry(&["notes.txt"], false),
    ];
    let text = dumper()
        .with_indent_size(4)
        .dump_with_wrapper("root", &entries)
        .expect("representable entries");
    assert_eq!(
        text,
        "<agentic-navigation-guide>\n- docs/\n    - \"[draft]\"\n- notes.txt\n</agentic-navigation-guide>"
    );
    let guide = Parser::new().parse(&text).expect("generated guide parses");
    assert_eq!(guide.items.len(), 2);
    assert_eq!(guide.items[0].path(), "docs");
    assert_eq!(guide.items[0].children().unwrap()[0].path(), "[draft]");
    assert_eq!(guide.items[1].path(), "notes.txt");
}

#[test]
fn empty_generation_is_rejected() {
    let error = dumper().dump("\"root\"", &[]).expect_err("no entries");
    assert_eq!(
        error.message(),
        "generation root \"root\" has no included, representable entries after depth and exclusion rules"
    );
}

#[test]
fn configuration_bounds_are_checked() {
    let error = dumper()
        .with_indent_size(0)
        .validate_configuration()
        .expect_err("indent 0");
    assert_eq!(
        error.message(),
        "indent size 0 is outside the supported range 1 through 16"
    );
    let error = dumper()
        .with_max_depth(Some(257))
        .validate_configuration()
        .expect_err("depth 257");
    assert_eq!(
        error.message(),
        "maximum depth 257 is outside the supported range 0 through 256"
    );
    assert_eq!(
        dumper().with_max_depth(Some(0)).validate_configuration().ok(),
        Some(TraversalLimit {
            maximum_entry_depth: 1,
            reject_beyond_limit: false
        })
    );
    assert_eq!(
        dumper().validate_configuration().ok(),
        Some(TraversalLimit {
            maximum_entry_depth: 257,
            reject_beyond_limit: true
        })
    );
}

#[test]
fn traversal_decisions_follow_exclusion_depth_and_names() {
    let d = dumper()
        .with_exclude_patterns(&["target".to_string()])
        .expect("valid pattern");
    let limit = d.validate_configuration().expect("valid configuration");
    assert_eq!(d.admit_entry(&[b"target".to_vec()], 1, limit).ok(), Some(false));
    assert_eq!(d.admit_entry(&[b"src".to_vec()], 1, limit).ok(), Some(true));
    let error = d
        .admit_entry(&[b"C:drive".to_vec()], 1, limit)
        .expect_err("drive prefix at the root");
    assert_eq!(
        error.message(),
        "unsupported rooted or drive-prefixed filesystem name \"C:drive\""
    );
    assert_eq!(
        d.admit_entry(&[b"src".to_vec(), b"C:drive".to_vec()], 2, limit).ok(),
        Some(true)
    );
    let shallow = TraversalLimit {
        maximum_entry_depth: 1,
        reject_beyond_limit: false,
    };
    assert!(Dumper::should_descend(true, 0, shallow));
    assert!(!Dumper::should_descend(true, 1, shallow));
    assert!(!Dumper::should_descend(false, 0, shallow));
    assert!(dumper().with_exclude_patterns(&["a/**b".to_string()]).is_err());
}

#[test]
fn unsupported_names_fail_generation() {
    let error = dumper()
        .dump("root", &[entry(&["tab\tname"], false)])
        .expect_err("control character");
    assert_eq!(
        error.message(),
        "unsupported control-bearing filesystem name \"tab\\tname\""
    );
}

#[test]
fn entry_kinds_classify_without_following_links() {
    let file = EntryTypeObservation {
        is_regular_file: true,
        ..EntryTypeObservation::default()
    };
    assert_eq!(classify_observation(file), Ok(SupportedEntryKind::RegularFile));
    let link = EntryTypeObservation {
        is_regular_file: true,
        is_symbolic_link: true,
        ..EntryTypeObservation::default()
    };
    assert_eq!(classify_observation(link), Err(UnsupportedEntryKind::SymbolicLink));
    let both = EntryTypeObservation {
        is_regular_file: true,
        is_directory: true,
        ..EntryTypeObservation::default()
    };
    assert_eq!(classify_observation(both), Err(UnsupportedEntryKind::Unknown));
    assert_eq!(
        UnsupportedEntryKind::WindowsReparsePoint { tag: Some(0xA000_000C) }.description(),
        "Windows reparse point (tag 0xA000000C)"
    );
}

#[test]
fn generation_failures_render_the_names_involved() {
    let root_missing = GenerationFailure::RootAccess {
        root: b"repo".to_vec(),
        operation: "resolve the generation root".to_string(),
        kind: "NotFound".to_string(),
    };
    assert_eq!(
        root_missing.into_error(),
        AppError::Other("could not resolve the generation root \"repo\" (NotFound)".to_string())
    );
    assert_eq!(
        GenerationFailure::RootNotDirectory { root: b"file.txt".to_vec() }.into_error(),
        AppError::Other("generation root \"file.txt\" must resolve to a directory".to_string())
    );
    assert_eq!(
        GenerationFailure::Unenumerable {
            root: b"repo".to_vec(),
            directory: vec![],
            kind: "PermissionDenied".to_string(),
        }
        .into_error(),
        AppError::Other(
            "could not read the generation root directory \"repo\" (PermissionDenied)".to_string()
        )
    );
    assert_eq!(
        GenerationFailure::Unenumerable {
            root: b"repo".to_vec(),
            directory: vec![b"src".to_vec(), b"locked".to_vec()],
            kind: "PermissionDenied".to_string(),
        }
        .into_error(),
        AppError::Other(
            "could not enumerate included directory \"src\"/\"locked\" (PermissionDenied)".to_string()
        )
    );
    assert_eq!(
        GenerationFailure::Unclassifiable {
            entry: vec![b"bad\xff".to_vec()],
            kind: "Other".to_string(),
        }
        .into_error(),
        AppError::Other(
            "could not classify included filesystem entry \"\\x62\\x61\\x64\\xFF\" without following it (Other)"
                .to_string()
        )
    );
}

#[test]
fn generated_guides_read_back_line_by_line() {
    let entries = vec![
        entry(&["..."], true),
        entry(&["...", " edge "], true),
        entry(&["...", " edge ", "a#b"], false),
        entry(&["...", "x"], false),
        entry(&["quote\"d"], false),
    ];
    let text = dumper()
        .with_indent_size(1)
        .dump_with_wrapper("root", &entries)
        .expect("representable entries");
    let guide = Parser::new().parse(&text).expect("generated guide parses");
    assert!(!guide.ignore);
    assert!(guide.prologue.is_none() && guide.epilogue.is_none());
    let top = &guide.items;
    assert_eq!(top.len(), 2);
    assert_eq!((top[0].path(), top[0].line_number, top[0].is_directory()), ("...", 2, true));
    assert_eq!((top[1].path(), top[1].line_number, top[1].is_directory()), ("quote\"d", 6, false));
    let below = top[0].children().expect("a directory");
    assert_eq!((below[0].path(), below[0].line_number, below[0].indent_level), (" edge ", 3, 1));
    assert_eq!((below[1].path(), below[1].line_number), ("x", 5));
    let deepest = below[0].children().expect("a directory");
    assert_eq!(
        (deepest[0].path(), deepest[0].line_number, deepest[0].indent_level),
        ("a#b", 4, 2)
    );
}

fn listed(name: &str, is_dir: bool) -> DirEntry {
    DirEntry {
        name: name.as_bytes().to_vec(),
        kind: Ok(if is_dir {
            SupportedEntryKind::Directory
        } else {
            SupportedEntryKind::RegularFile
        }),
    }
}

#[test]
fn generated_guides_verify_against_their_listings() {
    let entries = vec![
        entry(&["src"], true),
        entry(&["src", "lib.rs"], false),
        entry(&["src", "nested"], true),
        entry(&["src", "nested", "deep.txt"], false),
        entry(&["README.md"], false),
    ];
    let text = dumper()
        .dump_with_wrapper("root", &entries)
        .expect("representable entries");
    let guide = Parser::new().parse(&text).expect("generated guide parses");
    let listings = generated_listings(true);
    let verifier = Verifier::new(PathBuf::from("root"));
    assert!(verifier.verify(&guide, &listings).is_ok());
    let missing = generated_listings(false);
    assert!(verifier.verify(&guide, &missing).is_err());
}

fn generated_listings(with_nested: bool) -> Vec<DirListing> {
    let mut listings = vec![
        DirListing {
            resolved: Vec::new(),
            directory: String::new(),
            listing: Listing::Entries(vec![listed("src", true), listed("README.md", false)]),
        },
        DirListing {
            resolved: Vec::new(),
            directory: "src".to_string(),
            listing: Listing::Entries(vec![listed("lib.rs", false), listed("nested", true)]),
        },
    ];
    if with_nested {
        listings.push(DirListing {
            resolved: Vec::new(),
            directory: "src/nested".to_string(),
            listing: Listing::Entries(vec![listed("deep.txt", false)]),
        });
    }
    listings
}

#[test]
fn siblings_come_out_in_ascending_byte_order() {
    let names = vec![
        b"second.txt".to_vec(),
        b"directory".to_vec(),
        b"first.txt".to_vec(),
        b"B".to_vec(),
        b"\xC3\xA9".to_vec(),
        b"a".to_vec(),
    ];
    assert_eq!(
        Dumper::order_siblings(names),
        vec![
            b"B".to_vec(),
            b"a".to_vec(),
            b"directory".to_vec(),
            b"first.txt".to_vec(),
            b"second.txt".to_vec(),
            b"\xC3\xA9".to_vec(),
        ]
    );
    assert_eq!(Dumper::order_siblings(Vec::new()), Vec::<Vec<u8>>::new());
}

#[test]
fn non_utf8_included_names_are_shown_byte_by_byte() {
    let texts = entry_texts(&[b"src".to_vec(), b"main.rs".to_vec()]).expect("UTF-8 names");
    assert_eq!(texts, vec!["src".to_string(), "main.rs".to_string()]);
    let error = entry_texts(&[b"src".to_vec(), b"bad-\xFF".to_vec()]).expect_err("not UTF-8");
    let message = error.message();
    assert_eq!(
        message,
        "unsupported non-UTF-8 filesystem name \"\\x62\\x61\\x64\\x2D\\xFF\""
    );
    assert!(!message.contains('\u{fffd}'));
}

fn walked(components: &[&[u8]], kind: Result<SupportedEntryKind, UnsupportedEntryKind>) -> WalkedEntry {
    WalkedEntry {
        components: components.iter().map(|c| c.to_vec()).collect(),
        kind,
    }
}

fn walked_dir(components: &[&[u8]]) -> WalkedEntry {
    walked(components, Ok(SupportedEntryKind::Directory))
}

fn walked_file(components: &[&[u8]]) -> WalkedEntry {
    walked(components, Ok(SupportedEntryKind::RegularFile))
}

#[test]
fn issue_43_valid_numeric_boundaries_generate_checkable_guides() {
    let walk = vec![walked_dir(&[b"nested"]), walked_file(&[b"nested", b"file.txt"])];
    assert_eq!(
        dump_directory(PathBuf::from("root"), "root", &walk, Some(0), &[], 2),
        Ok("- nested/\n".to_string())
    );
    assert_eq!(
        dump_directory(PathBuf::from("root"), "root", &walk, Some(1), &[], 2),
        Ok("- nested/\n  - file.txt\n".to_string())
    );
    assert_eq!(
        dump_directory(PathBuf::from("root"), "root", &walk, None, &[], 4),
        Ok("- nested/\n    - file.txt\n".to_string())
    );
    let listings = vec![
        DirListing {
            resolved: Vec::new(),
            directory: String::new(),
            listing: Listing::Entries(vec![listed("nested", true)]),
        },
        DirListing {
            resolved: Vec::new(),
            directory: "nested".to_string(),
            listing: Listing::Entries(vec![listed("file.txt", false)]),
        },
    ];
    for indent in [1, 16] {
        let source = Dumper::new(PathBuf::from("root"))
            .with_indent_size(indent)
            .generate_with_wrapper("root", &walk)
            .unwrap_or_else(|error| panic!("valid indent {indent} failed: {}", error.message()));
        let guide = Parser::new().parse(&source).expect("parseable");
        assert!(Validator::new().validate_syntax(&guide).is_ok());
        assert!(Verifier::new(PathBuf::from("root")).verify(&guide, &listings).is_ok());
    }
    for depth in [0, 2, 256] {
        let source = Dumper::new(PathBuf::from("root"))
            .with_max_depth(Some(depth))
            .generate_with_wrapper("root", &walk)
            .unwrap_or_else(|error| panic!("valid depth {depth} failed: {}", error.message()));
        let guide = Parser::new().parse(&source).expect("parseable");
        assert!(Validator::new().validate_syntax(&guide).is_ok());
    }
}

#[test]
fn generation_refuses_entries_beyond_logical_depth_without_an_explicit_limit() {
    let mut walk = Vec::new();
    let names: Vec<Vec<u8>> = (0..258).map(|i| format!("d{i}").into_bytes()).collect();
    for depth in 1..=258 {
        let components: Vec<&[u8]> = names[..depth].iter().map(|n| n.as_slice()).collect();
        walk.push(walked_dir(&components));
    }
    let error = dump_directory(PathBuf::from("root"), "root", &walk, None, &[], 1)
        .expect_err("an entry beyond depth 256 is refused");
    assert_eq!(
        error.message(),
        "generation without an explicit depth encountered an included entry beyond maximum logical depth 256"
    );
    let limited = dump_directory(PathBuf::from("root"), "root", &walk, Some(256), &[], 1)
        .expect("an explicit limit cuts the walk");
    assert_eq!(limited.lines().count(), 257);
}

#[test]
fn issue_42_regular_file_directory_and_hard_link_controls_remain_supported() {
    let walk = vec![
        walked_dir(&[b"directory"]),
        walked_file(&[b"first.txt"]),
        walked_file(&[b"second.txt"]),
    ];
    assert_eq!(
        dump_directory(PathBuf::from("root"), "root", &walk, None, &[], 2),
        Ok("- directory/\n- first.txt\n- second.txt\n".to_string())
    );
}

#[test]
fn generation_refuses_entries_out_of_walk_order() {
    let unordered = vec![walked_file(&[b"second.txt"]), walked_file(&[b"first.txt"])];
    let error = dump_directory(PathBuf::from("root"), "root", &unordered, None, &[], 2)
        .expect_err("siblings must ascend");
    assert_eq!(
        error.message(),
        "the entries of the generation root are not an ordered depth-first walk"
    );
    let orphan = vec![walked_file(&[b"a"]), walked_file(&[b"b", b"c"])];
    assert!(dump_directory(PathBuf::from("root"), "root", &orphan, None, &[], 2).is_err());
}

#[test]
fn excluded_entries_and_their_contents_are_left_out() {
    let walk = vec![
        walked_dir(&[b"project"]),
        walked_file(&[b"project", b"keep.txt"]),
        walked_dir(&[b"project", b"target"]),
        walked_file(&[b"project", b"target", b"nested.txt"]),
        walked_dir(&[b"target"]),
        walked_file(&[b"target", b"root.txt"]),
    ];
    assert_eq!(
        dump_directory(PathBuf::from("root"), "root", &walk, None, &["target".to_string()], 2),
        Ok("- project/\n  - keep.txt\n".to_string())
    );
    assert_eq!(
        dump_directory(PathBuf::from("root"), "root", &walk, None, &["project/target".to_string()], 2),
        Ok("- project/\n  - keep.txt\n- target/\n  - root.txt\n".to_string())
    );
}

#[test]
fn issue_42_link_rejection_does_not_disclose_targets() {
    let walk = vec![walked(&[b"link"], Err(UnsupportedEntryKind::SymbolicLink))];
    let error = dump_directory(PathBuf::from("root"), "root", &walk, None, &[], 2)
        .expect_err("a link is refused");
    let message = error.message();
    assert!(message.contains("symbolic link"), "{message}");
    assert!(message.contains("link"), "{message}");

    let control = vec![walked_file(&[b"bad\nname.txt"])];
    let message = dump_directory(PathBuf::from("root"), "root", &control, None, &[], 2)
        .expect_err("a control name is refused")
        .message();
    assert!(message.contains("\"bad\\nname.txt\""), "{message}");
    assert!(!message.contains("bad\nname.txt"));

    let non_utf8 = vec![walked_file(&[b"bad-\xFF"])];
    let message = dump_directory(PathBuf::from("root"), "root", &non_utf8, None, &[], 2)
        .expect_err("a non-UTF-8 name is refused")
        .message();
    assert!(message.contains("\"\\x62\\x61\\x64\\x2D\\xFF\""), "{message}");
    assert!(!message.contains('\u{fffd}'));
}

#[test]
fn issue_41_supported_filesystem_names_round_trip_canonically() {
    let names = [" leading.txt", "Foo[bar].txt", "report#draft"];
    let walk: Vec<WalkedEntry> = names.iter().map(|n| walked_file(&[n.as_bytes()])).collect();
    let body = dump_directory(PathBuf::from("root"), "root", &walk, None, &[], 2)
        .expect("quotable names generate");
    let guide = Parser::new()
        .parse(&format!("<agentic-navigation-guide>\n{body}</agentic-navigation-guide>"))
        .expect("generated guide parses");
    let paths: Vec<&str> = guide.items.iter().map(|item| item.path()).collect();
    assert_eq!(paths, names.to_vec());
    assert!(Validator::new().validate_syntax(&guide).is_ok());
    let listings = vec![DirListing {
        resolved: Vec::new(),
        directory: String::new(),
        listing: Listing::Entries(names.iter().map(|n| listed(n, false)).collect()),
    }];
    assert!(Verifier::new(PathBuf::from("root")).verify(&guide, &listings).is_ok());
}
