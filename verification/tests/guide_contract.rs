use agentic_navigation_guide::parser::Parser;
use agentic_navigation_guide::types::{FilesystemItem, NavigationGuideLine};
use agentic_navigation_guide::validator::Validator;

#[derive(Clone, Copy, Debug, PartialEq, Eq)]
enum ItemKind {
    File,
    Directory,
    Placeholder,
}

#[derive(Clone, Copy, Debug, PartialEq, Eq)]
struct ExpectedItem {
    kind: ItemKind,
    path: &'static str,
}

#[derive(Clone, Copy, Debug, PartialEq, Eq)]
enum ExpectedResult {
    Reject,
    Accept {
        ignore: bool,
        items: Option<&'static [ExpectedItem]>,
    },
}

#[derive(Clone, Copy, Debug)]
struct ContractCase {
    id: &'static str,
    source: &'static str,
    normative: ExpectedResult,
}

#[derive(Debug, PartialEq, Eq)]
struct ObservedItem {
    kind: ItemKind,
    path: String,
}

#[derive(Debug, PartialEq, Eq)]
enum ObservedResult {
    Reject,
    Accept {
        ignore: bool,
        items: Vec<ObservedItem>,
    },
}

/// Document rows of the guide grammar, one per contract case.
fn fixture(id: &str) -> ContractCase {
    match id {
        "marker-bare" => ContractCase {
            id: "marker-bare",
            source: "<agentic-navigation-guide>\n- Cargo.toml\n</agentic-navigation-guide>\n",
            normative: ExpectedResult::Accept { ignore: false, items: Some(&[ExpectedItem { kind: ItemKind::File, path: "Cargo.toml" }]) },
        },
        "body-extra-list-space" => ContractCase {
            id: "body-extra-list-space",
            source: "<agentic-navigation-guide>\n-  extra.txt\n</agentic-navigation-guide>",
            normative: ExpectedResult::Accept { ignore: false, items: Some(&[ExpectedItem { kind: ItemKind::File, path: "extra.txt" }]) },
        },
        "body-tab-after-dash" => ContractCase {
            id: "body-tab-after-dash",
            source: "<agentic-navigation-guide>\n-\ttab.txt\n</agentic-navigation-guide>",
            normative: ExpectedResult::Reject,
        },
        "path-repeated-trailing-separator" => ContractCase {
            id: "path-repeated-trailing-separator",
            source: "<agentic-navigation-guide>\n- dir//\n</agentic-navigation-guide>",
            normative: ExpectedResult::Reject,
        },
        "path-windows-prefix" => ContractCase {
            id: "path-windows-prefix",
            source: "<agentic-navigation-guide>\n- C:file.txt\n</agentic-navigation-guide>",
            normative: ExpectedResult::Reject,
        },
        "path-unmatched-closing-bracket" => ContractCase {
            id: "path-unmatched-closing-bracket",
            source: "<agentic-navigation-guide>\n- name].txt\n</agentic-navigation-guide>",
            normative: ExpectedResult::Reject,
        },
        "path-duplicate-decoded" => ContractCase {
            id: "path-duplicate-decoded",
            source: "<agentic-navigation-guide>\n- a\\#b\n- \"a#b\"\n</agentic-navigation-guide>",
            normative: ExpectedResult::Reject,
        },
        "choice-quoted-whitespace" => ContractCase {
            id: "choice-quoted-whitespace",
            source: "<agentic-navigation-guide>\n- x[\" a \", b]y\n</agentic-navigation-guide>",
            normative: ExpectedResult::Accept { ignore: false, items: Some(&[ExpectedItem { kind: ItemKind::File, path: "x a y" }, ExpectedItem { kind: ItemKind::File, path: "xby" }]) },
        },
        "choice-single-alternative" => ContractCase {
            id: "choice-single-alternative",
            source: "<agentic-navigation-guide>\n- file[.rs]\n</agentic-navigation-guide>",
            normative: ExpectedResult::Accept { ignore: false, items: Some(&[ExpectedItem { kind: ItemKind::File, path: "file.rs" }]) },
        },
        "choice-duplicate-expansion" => ContractCase {
            id: "choice-duplicate-expansion",
            source: "<agentic-navigation-guide>\n- file[a, a]\n</agentic-navigation-guide>",
            normative: ExpectedResult::Reject,
        },
        "choice-directory-result" => ContractCase {
            id: "choice-directory-result",
            source: "<agentic-navigation-guide>\n- [src, docs]/\n</agentic-navigation-guide>",
            normative: ExpectedResult::Accept { ignore: false, items: Some(&[ExpectedItem { kind: ItemKind::Directory, path: "src" }, ExpectedItem { kind: ItemKind::Directory, path: "docs" }]) },
        },
        "choice-different-parents" => ContractCase {
            id: "choice-different-parents",
            source: "<agentic-navigation-guide>\n- [src, docs]/mod.rs\n</agentic-navigation-guide>",
            normative: ExpectedResult::Accept { ignore: false, items: Some(&[ExpectedItem { kind: ItemKind::File, path: "src/mod.rs" }, ExpectedItem { kind: ItemKind::File, path: "docs/mod.rs" }]) },
        },
        "path-quoted-sensitive" => ContractCase {
            id: "path-quoted-sensitive",
            source: "<agentic-navigation-guide>\n- \"report#draft[1], v2\"\n</agentic-navigation-guide>",
            normative: ExpectedResult::Accept { ignore: false, items: Some(&[ExpectedItem { kind: ItemKind::File, path: "report#draft[1], v2" }]) },
        },
        "path-quoted-ellipsis" => ContractCase {
            id: "path-quoted-ellipsis",
            source: "<agentic-navigation-guide>\n- \"...\"\n</agentic-navigation-guide>",
            normative: ExpectedResult::Accept { ignore: false, items: Some(&[ExpectedItem { kind: ItemKind::File, path: "..." }]) },
        },
        "path-bare-nested-ellipsis" => ContractCase {
            id: "path-bare-nested-ellipsis",
            source: "<agentic-navigation-guide>\n- src/.../x\n</agentic-navigation-guide>",
            normative: ExpectedResult::Reject,
        },
        "path-quoted-nested-ellipsis" => ContractCase {
            id: "path-quoted-nested-ellipsis",
            source: "<agentic-navigation-guide>\n- src/\"...\"/x\n</agentic-navigation-guide>",
            normative: ExpectedResult::Accept { ignore: false, items: Some(&[ExpectedItem { kind: ItemKind::File, path: "src/.../x" }]) },
        },
        "path-quoted-directory" => ContractCase {
            id: "path-quoted-directory",
            source: "<agentic-navigation-guide>\n- \"my dir\"/\n</agentic-navigation-guide>",
            normative: ExpectedResult::Accept { ignore: false, items: Some(&[ExpectedItem { kind: ItemKind::Directory, path: "my dir" }]) },
        },
        "path-quoted-trailing-separator" => ContractCase {
            id: "path-quoted-trailing-separator",
            source: "<agentic-navigation-guide>\n- \"dir/\"\n</agentic-navigation-guide>",
            normative: ExpectedResult::Reject,
        },
        "path-unknown-escape" => ContractCase {
            id: "path-unknown-escape",
            source: "<agentic-navigation-guide>\n- bad\\q\n</agentic-navigation-guide>",
            normative: ExpectedResult::Reject,
        },
        "path-empty-quoted" => ContractCase {
            id: "path-empty-quoted",
            source: "<agentic-navigation-guide>\n- \"\"\n</agentic-navigation-guide>",
            normative: ExpectedResult::Reject,
        },
        "path-comment-escaped-hash" => ContractCase {
            id: "path-comment-escaped-hash",
            source: "<agentic-navigation-guide>\n- docs/issue\\#123.md # ticket #123\n</agentic-navigation-guide>",
            normative: ExpectedResult::Accept { ignore: false, items: Some(&[ExpectedItem { kind: ItemKind::File, path: "docs/issue#123.md" }]) },
        },
        "choice-escaped-hash-comment" => ContractCase {
            id: "choice-escaped-hash-comment",
            source: "<agentic-navigation-guide>\n- x[a\\#b, c]y # inherited\n</agentic-navigation-guide>",
            normative: ExpectedResult::Accept { ignore: false, items: Some(&[ExpectedItem { kind: ItemKind::File, path: "xa#by" }, ExpectedItem { kind: ItemKind::File, path: "xcy" }]) },
        },
        "placeholder-forms" => ContractCase {
            id: "placeholder-forms",
            source: "<agentic-navigation-guide>\n- src/\n  - ...\n  - main.rs\n  - ... # future modules\n</agentic-navigation-guide>",
            normative: ExpectedResult::Accept { ignore: false, items: None },
        },
        _ => panic!("missing contract fixture '{id}'"),
    }
}

fn observe(source: &str) -> ObservedResult {
    let guide = match Parser::new().parse(source) {
        Ok(guide) => guide,
        Err(_) => return ObservedResult::Reject,
    };

    if !guide.ignore && Validator::new().validate_syntax(&guide).is_err() {
        return ObservedResult::Reject;
    }

    let mut items = Vec::new();
    flatten_items(&guide.items, "", &mut items);

    ObservedResult::Accept {
        ignore: guide.ignore,
        items,
    }
}

fn flatten_items(
    source: &[NavigationGuideLine],
    parent: &str,
    output: &mut Vec<ObservedItem>,
) {
    for line in source {
        match &line.item {
            FilesystemItem::File { path, .. } => output.push(ObservedItem {
                kind: ItemKind::File,
                path: join_path(parent, path),
            }),
            FilesystemItem::Directory { path, children, .. } => {
                let full_path = join_path(parent, path);
                output.push(ObservedItem {
                    kind: ItemKind::Directory,
                    path: full_path.clone(),
                });
                flatten_items(children, &full_path, output);
            }
            FilesystemItem::Placeholder { .. } => output.push(ObservedItem {
                kind: ItemKind::Placeholder,
                path: join_path(parent, "..."),
            }),
        }
    }
}

fn join_path(parent: &str, child: &str) -> String {
    if parent.is_empty() {
        child.to_string()
    } else {
        format!("{parent}/{child}")
    }
}

fn matches_expected(observed: &ObservedResult, expected: ExpectedResult) -> bool {
    match (observed, expected) {
        (ObservedResult::Reject, ExpectedResult::Reject) => true,
        (
            ObservedResult::Accept { ignore, .. },
            ExpectedResult::Accept {
                ignore: expected_ignore,
                items: None,
            },
        ) => *ignore == expected_ignore,
        (
            ObservedResult::Accept { ignore, items },
            ExpectedResult::Accept {
                ignore: expected_ignore,
                items: Some(expected_items),
            },
        ) => {
            *ignore == expected_ignore
                && items.len() == expected_items.len()
                && items.iter().zip(expected_items).all(|(actual, expected)| {
                    actual.kind == expected.kind && actual.path == expected.path
                })
        }
        _ => false,
    }
}

fn assert_exact_nested_tree(observed: &ObservedResult, deepest_depth: usize) {
    let ObservedResult::Accept {
        ignore: false,
        items,
    } = observed
    else {
        panic!("logical depth {deepest_depth} did not produce an active guide: {observed:?}");
    };

    assert_eq!(
        items.len(),
        deepest_depth + 1,
        "logical depth {deepest_depth} was truncated or duplicated"
    );
    let mut expected_path = String::new();
    for (depth, item) in items.iter().enumerate() {
        if depth > 0 {
            expected_path.push('/');
        }
        expected_path.push_str("directory");
        assert_eq!(
            item,
            &ObservedItem {
                kind: ItemKind::Directory,
                path: expected_path.clone(),
            },
            "logical depth {deepest_depth} changed at entry depth {depth}"
        );
    }
}

fn assert_exact_choice_expansion(observed: &ObservedResult, alternatives: usize) {
    let ObservedResult::Accept {
        ignore: false,
        items,
    } = observed
    else {
        panic!("{alternatives} alternatives did not produce an active guide: {observed:?}");
    };

    assert_eq!(
        items.len(),
        alternatives,
        "{alternatives} alternatives were truncated or duplicated"
    );
    for (index, item) in items.iter().enumerate() {
        assert_eq!(
            item,
            &ObservedItem {
                kind: ItemKind::File,
                path: format!("filechoice{index}.txt"),
            },
            "{alternatives}-alternative expansion changed at index {index}"
        );
    }
}

fn nested_directory_source(deepest_depth: usize) -> String {
    let mut source = String::from("<agentic-navigation-guide>\n");
    for depth in 0..=deepest_depth {
        source.push_str(&" ".repeat(depth));
        source.push_str("- directory/\n");
    }
    source.push_str("</agentic-navigation-guide>");
    source
}

fn choice_count_source(alternatives: usize) -> String {
    let choices = (0..alternatives)
        .map(|index| format!("choice{index}"))
        .collect::<Vec<_>>()
        .join(",");
    format!("<agentic-navigation-guide>\n- file[{choices}].txt\n</agentic-navigation-guide>")
}

fn comment_snapshot(source: &str) -> Vec<(String, Option<String>)> {
    let guide = Parser::new()
        .parse(source)
        .unwrap_or_else(|error| panic!("comment fixture did not parse: {}", error.message()));
    Validator::new()
        .validate_syntax(&guide)
        .unwrap_or_else(|error| panic!("comment fixture did not validate: {}", error.message()));

    let mut comments = Vec::new();
    flatten_comments(&guide.items, "", &mut comments);
    comments
}

fn flatten_comments(
    source: &[NavigationGuideLine],
    parent: &str,
    output: &mut Vec<(String, Option<String>)>,
) {
    for line in source {
        let path = join_path(parent, line.path());
        output.push((path.clone(), line.comment().map(str::to_string)));
        if let Some(children) = line.children() {
            flatten_comments(children, &path, output);
        }
    }
}

#[test]
fn comments_and_choice_comment_inheritance_are_executable() {
    let path_case = fixture("path-comment-escaped-hash");
    assert_eq!(
        comment_snapshot(path_case.source),
        vec![(
            "docs/issue#123.md".to_string(),
            Some("ticket #123".to_string())
        )]
    );

    let choice_case = fixture("choice-escaped-hash-comment");
    assert_eq!(
        comment_snapshot(choice_case.source),
        vec![
            ("xa#by".to_string(), Some("inherited".to_string())),
            ("xcy".to_string(), Some("inherited".to_string())),
        ]
    );

    let placeholder_case = fixture("placeholder-forms");
    assert_eq!(
        comment_snapshot(placeholder_case.source),
        vec![
            ("src".to_string(), None),
            ("src/...".to_string(), None),
            ("src/main.rs".to_string(), None),
            ("src/...".to_string(), Some("future modules".to_string())),
        ]
    );
}

#[test]
fn issue_40_owned_contract_rows_are_executable() {
    const IDS: [&str; 11] = [
        "body-extra-list-space",
        "body-tab-after-dash",
        "path-repeated-trailing-separator",
        "path-windows-prefix",
        "path-unmatched-closing-bracket",
        "path-duplicate-decoded",
        "choice-quoted-whitespace",
        "choice-single-alternative",
        "choice-duplicate-expansion",
        "choice-directory-result",
        "choice-different-parents",
    ];

    let mismatches = IDS
        .iter()
        .filter_map(|id| {
            let case = fixture(id);
            let observed = observe(case.source);
            (!matches_expected(&observed, case.normative))
                .then(|| format!("{id}: expected {:?}, observed {observed:?}", case.normative))
        })
        .collect::<Vec<_>>();

    assert!(
        mismatches.is_empty(),
        "issue #40 contract mismatches:\n{}",
        mismatches.join("\n")
    );
}

#[test]
fn issue_40_path_normalization_boundaries_are_executable() {
    for source in [
        "<agentic-navigation-guide>\n- \tfoo.txt\n</agentic-navigation-guide>",
        "<agentic-navigation-guide>\n- foo//\n</agentic-navigation-guide>",
        "<agentic-navigation-guide>\n- foo///\n</agentic-navigation-guide>",
        "<agentic-navigation-guide>\n- C:relative\n</agentic-navigation-guide>",
        "<agentic-navigation-guide>\n- C:/absolute\n</agentic-navigation-guide>",
        "<agentic-navigation-guide>\n- \\\\root\n</agentic-navigation-guide>",
        "<agentic-navigation-guide>\n- bad]name.txt\n</agentic-navigation-guide>",
    ] {
        assert_eq!(observe(source), ObservedResult::Reject, "{source}");
    }

    assert_eq!(
        observe("<agentic-navigation-guide>\n- foo/\n</agentic-navigation-guide>"),
        ObservedResult::Accept {
            ignore: false,
            items: vec![ObservedItem {
                kind: ItemKind::Directory,
                path: "foo".to_string(),
            }],
        }
    );
    assert_eq!(
        observe("<agentic-navigation-guide>\n- dir/C:notes\n</agentic-navigation-guide>"),
        ObservedResult::Accept {
            ignore: false,
            items: vec![ObservedItem {
                kind: ItemKind::File,
                path: "dir/C:notes".to_string(),
            }],
        }
    );
    assert_eq!(
        observe("<agentic-navigation-guide>\n- dir\\\\..\\\\name\n</agentic-navigation-guide>"),
        ObservedResult::Accept {
            ignore: false,
            items: vec![ObservedItem {
                kind: ItemKind::File,
                path: "dir\\..\\name".to_string(),
            }],
        },
        "decoded backslashes are literal because slash is the only logical separator"
    );
}

#[test]
fn issue_40_choice_token_preservation_is_executable() {
    let quoted = fixture("choice-quoted-whitespace");
    assert!(
        matches_expected(&observe(quoted.source), quoted.normative),
        "quoted edge whitespace must survive decoding"
    );

    assert_eq!(
        observe("<agentic-navigation-guide>\n- x[foo bar, baz]y\n</agentic-navigation-guide>"),
        ObservedResult::Accept {
            ignore: false,
            items: vec![
                ObservedItem {
                    kind: ItemKind::File,
                    path: "xfoo bary".to_string(),
                },
                ObservedItem {
                    kind: ItemKind::File,
                    path: "xbazy".to_string(),
                },
            ],
        },
        "unquoted interior spaces are path data, not layout"
    );
    assert_eq!(
        observe("<agentic-navigation-guide>\n- x[\\ foo\\ , bar]y\n</agentic-navigation-guide>"),
        ObservedResult::Accept {
            ignore: false,
            items: vec![
                ObservedItem {
                    kind: ItemKind::File,
                    path: "x foo y".to_string(),
                },
                ObservedItem {
                    kind: ItemKind::File,
                    path: "xbary".to_string(),
                },
            ],
        },
        "escaped edge spaces are path data"
    );
    assert_eq!(
        observe("<agentic-navigation-guide>\n- x[ \"a, [b]\" , c ]y\n</agentic-navigation-guide>"),
        ObservedResult::Accept {
            ignore: false,
            items: vec![
                ObservedItem {
                    kind: ItemKind::File,
                    path: "xa, [b]y".to_string(),
                },
                ObservedItem {
                    kind: ItemKind::File,
                    path: "xcy".to_string(),
                },
            ],
        }
    );
    assert_eq!(
        observe("<agentic-navigation-guide>\n- src[/main, /lib].rs\n</agentic-navigation-guide>"),
        ObservedResult::Accept {
            ignore: false,
            items: vec![
                ObservedItem {
                    kind: ItemKind::File,
                    path: "src/main.rs".to_string(),
                },
                ObservedItem {
                    kind: ItemKind::File,
                    path: "src/lib.rs".to_string(),
                },
            ],
        },
        "slash-containing choices may expand to siblings under one parent"
    );

    for source in [
        "<agentic-navigation-guide>\n- [..., name]\n</agentic-navigation-guide>",
        "<agentic-navigation-guide>\n- src/[..., name]\n</agentic-navigation-guide>",
        "<agentic-navigation-guide>\n- data[\\,comma, \",comma\"].txt\n</agentic-navigation-guide>",
        "<agentic-navigation-guide>\n- x[\"a\"junk, b]y\n</agentic-navigation-guide>",
        "<agentic-navigation-guide>\n- x[a\tb, c]y\n</agentic-navigation-guide>",
        "<agentic-navigation-guide>\n- x[\"a\u{7f}b\", c]y\n</agentic-navigation-guide>",
    ] {
        assert_eq!(observe(source), ObservedResult::Reject, "{source}");
    }
}

#[test]
fn issue_40_duplicate_full_paths_are_executable() {
    for source in [
        "<agentic-navigation-guide>\n- same.txt\n- same.txt\n</agentic-navigation-guide>",
        "<agentic-navigation-guide>\n- src/main.rs\n- src/\n  - main.rs\n</agentic-navigation-guide>",
        "<agentic-navigation-guide>\n- File[.h, .rs]\n- File.rs\n</agentic-navigation-guide>",
    ] {
        assert_eq!(observe(source), ObservedResult::Reject, "{source}");
    }

    assert!(matches!(
        observe(
            "<agentic-navigation-guide>\n- first/\n  - same.txt\n- second/\n  - same.txt\n- café\n- cafe\u{301}\n</agentic-navigation-guide>"
        ),
        ObservedResult::Accept { .. }
    ));
}

#[test]
fn issue_41_owned_contract_rows_are_executable() {
    const IDS: [&str; 8] = [
        "path-quoted-sensitive",
        "path-quoted-ellipsis",
        "path-bare-nested-ellipsis",
        "path-quoted-nested-ellipsis",
        "path-quoted-directory",
        "path-quoted-trailing-separator",
        "path-unknown-escape",
        "path-empty-quoted",
    ];

    let mismatches = IDS
        .iter()
        .filter_map(|id| {
            let case = fixture(id);
            let observed = observe(case.source);
            (!matches_expected(&observed, case.normative))
                .then(|| format!("{id}: expected {:?}, observed {observed:?}", case.normative))
        })
        .collect::<Vec<_>>();

    assert!(
        mismatches.is_empty(),
        "issue #41 contract mismatches:\n{}",
        mismatches.join("\n")
    );
}

#[test]
fn issue_41_path_lexer_boundaries_are_executable() {
    assert_eq!(
        observe(
            "<agentic-navigation-guide>\n- \" report#draft[final], \\\"copy\\\" \\\\ \" # note\n</agentic-navigation-guide>"
        ),
        ObservedResult::Accept {
            ignore: false,
            items: vec![ObservedItem {
                kind: ItemKind::File,
                path: " report#draft[final], \"copy\" \\ ".to_string(),
            }],
        }
    );
    assert_eq!(
        observe(
            "<agentic-navigation-guide>\n- bare\\#hash\\[x\\]\\,quote\\\"space\\ name\\\\tail\n</agentic-navigation-guide>"
        ),
        ObservedResult::Accept {
            ignore: false,
            items: vec![ObservedItem {
                kind: ItemKind::File,
                path: "bare#hash[x],quote\"space name\\tail".to_string(),
            }],
        }
    );
    assert_eq!(
        observe("<agentic-navigation-guide>\n- \u{a0}edge\u{a0}\n</agentic-navigation-guide>"),
        ObservedResult::Accept {
            ignore: false,
            items: vec![ObservedItem {
                kind: ItemKind::File,
                path: "\u{a0}edge\u{a0}".to_string(),
            }],
        },
        "only unescaped U+0020 is line padding; Unicode whitespace is path data"
    );
    assert_eq!(
        observe("<agentic-navigation-guide>\n- c1-\u{85}-name\n</agentic-navigation-guide>"),
        ObservedResult::Accept {
            ignore: false,
            items: vec![ObservedItem {
                kind: ItemKind::File,
                path: "c1-\u{85}-name".to_string(),
            }],
        },
        "the forbidden set is C0 plus DEL, not every Unicode control property"
    );
    assert!(matches!(
        observe(
            "<agentic-navigation-guide>\n- parent/\n  - [C:alpha, C:beta]\n</agentic-navigation-guide>"
        ),
        ObservedResult::Accept { .. }
    ));

    for source in [
        "<agentic-navigation-guide>\n- \"unterminated\n</agentic-navigation-guide>",
        "<agentic-navigation-guide>\n- \"bad\\q\"\n</agentic-navigation-guide>",
        "<agentic-navigation-guide>\n- \"name\"junk\n</agentic-navigation-guide>",
        "<agentic-navigation-guide>\n- bad\"quote\n</agentic-navigation-guide>",
        "<agentic-navigation-guide>\n- bad\\q\n</agentic-navigation-guide>",
        "<agentic-navigation-guide>\n- src/.../file\n</agentic-navigation-guide>",
        "<agentic-navigation-guide>\n- tab\tname\n</agentic-navigation-guide>",
        "<agentic-navigation-guide>\n- \"tab\tname\"\n</agentic-navigation-guide>",
        "<agentic-navigation-guide>\n- nul\0name\n</agentic-navigation-guide>",
        "<agentic-navigation-guide>\n- esc\u{1b}name\n</agentic-navigation-guide>",
        "<agentic-navigation-guide>\n- del\u{7f}name\n</agentic-navigation-guide>",
        "<agentic-navigation-guide>\n- \\ leading\n</agentic-navigation-guide>",
        "<agentic-navigation-guide>\n- trailing\\ \n</agentic-navigation-guide>",
        "<agentic-navigation-guide>\n- \"\"\n</agentic-navigation-guide>",
        "<agentic-navigation-guide>\n- \"src/\"\n</agentic-navigation-guide>",
        "<agentic-navigation-guide>\n- [\" edge \",plain]\n</agentic-navigation-guide>",
        "<agentic-navigation-guide>\n- [\\ edge\\ ,plain]\n</agentic-navigation-guide>",
        "<agentic-navigation-guide>\n- [C:alpha, C:beta]\n</agentic-navigation-guide>",
    ] {
        assert_eq!(observe(source), ObservedResult::Reject, "{source}");
    }
}

#[test]
fn generated_depth_boundary_is_executable() {
    const MAX_LOGICAL_DEPTH: usize = 256;

    let at_limit = nested_directory_source(MAX_LOGICAL_DEPTH);
    assert_exact_nested_tree(&observe(&at_limit), MAX_LOGICAL_DEPTH);

    let over_limit = nested_directory_source(MAX_LOGICAL_DEPTH + 1);
    assert!(
        matches!(observe(&over_limit), ObservedResult::Reject),
        "logical depth above {MAX_LOGICAL_DEPTH} must be rejected"
    );
}

#[test]
fn generated_choice_count_boundary_is_executable() {
    const MAX_CHOICE_ALTERNATIVES: usize = 256;

    let at_limit = choice_count_source(MAX_CHOICE_ALTERNATIVES);
    assert_exact_choice_expansion(&observe(&at_limit), MAX_CHOICE_ALTERNATIVES);

    let over_limit = choice_count_source(MAX_CHOICE_ALTERNATIVES + 1);
    assert!(
        matches!(observe(&over_limit), ObservedResult::Reject),
        "more than {MAX_CHOICE_ALTERNATIVES} alternatives must be rejected"
    );
}

#[test]
fn marker_line_endings_are_platform_independent() {
    let source = fixture("marker-bare").source;
    let crlf = source.replace('\n', "\r\n");

    assert_eq!(observe(source), observe(&crlf));
}

#[test]
fn marker_outer_horizontal_whitespace_is_insignificant() {
    let source = "\t<agentic-navigation-guide>\t\n- Cargo.toml\n\t</agentic-navigation-guide>\t";

    assert!(matches!(observe(source), ObservedResult::Accept { .. }));
}

#[test]
fn byte_order_mark_is_not_silently_discarded() {
    let source = "\u{feff}<agentic-navigation-guide>\n- Cargo.toml\n</agentic-navigation-guide>";

    assert_eq!(observe(source), ObservedResult::Reject);
}
