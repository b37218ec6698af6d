use agentic_navigation_guide::errors::{AppError, SyntaxError};
use agentic_navigation_guide::types::{FilesystemItem, NavigationGuide, NavigationGuideLine};
use agentic_navigation_guide::validator::Validator;
use agentic_navigation_guide::parser::Parser;
#[test]
fn test_validate_empty_guide() {
    let guide = NavigationGuide::new();
    let validator = Validator::new();
    let result = validator.validate_syntax(&guide);
    assert!(matches!(
        result,
        Err(AppError::Syntax(
            SyntaxError::EmptyGuideBlock
        ))
    ));
}

#[test]
fn test_validate_allows_utf8_and_unrestricted_characters() {
    let mut guide = NavigationGuide::new();
    guide.items.push(NavigationGuideLine {
        line_number: 1,
        indent_level: 0,
        item: FilesystemItem::File {
            path: "目录/résumé|draft(1).txt".to_string(),
            comment: None,
        },
    });

    let validator = Validator::new();
    let result = validator.validate_syntax(&guide);
    assert!(result.is_ok());
}

#[test]
fn test_validate_double_slashes() {
    let mut guide = NavigationGuide::new();
    guide.items.push(NavigationGuideLine {
        line_number: 1,
        indent_level: 0,
        item: FilesystemItem::File {
            path: "path//with//double//slashes.txt".to_string(),
            comment: None,
        },
    });

    let validator = Validator::new();
    let result = validator.validate_syntax(&guide);
    assert!(matches!(
        result,
        Err(AppError::Syntax(
            SyntaxError::InvalidPathFormat { .. }
        ))
    ));
}

#[test]
fn test_validate_rejects_dot_components() {
    let mut guide = NavigationGuide::new();
    guide.items.push(NavigationGuideLine {
        line_number: 1,
        indent_level: 0,
        item: FilesystemItem::File {
            path: "src/./main.rs".to_string(),
            comment: None,
        },
    });

    let validator = Validator::new();
    let result = validator.validate_syntax(&guide);
    assert!(matches!(
        result,
        Err(AppError::Syntax(
            SyntaxError::InvalidSpecialDirectory { .. }
        ))
    ));
}

#[test]
fn test_validate_rejects_parent_components() {
    let mut guide = NavigationGuide::new();
    guide.items.push(NavigationGuideLine {
        line_number: 1,
        indent_level: 0,
        item: FilesystemItem::File {
            path: "src/../main.rs".to_string(),
            comment: None,
        },
    });

    let validator = Validator::new();
    let result = validator.validate_syntax(&guide);
    assert!(matches!(
        result,
        Err(AppError::Syntax(
            SyntaxError::InvalidSpecialDirectory { .. }
        ))
    ));
}

#[test]
fn test_validate_allows_dot_text_with_literal_backslashes() {
    let mut guide = NavigationGuide::new();
    guide.items.push(NavigationGuideLine {
        line_number: 1,
        indent_level: 0,
        item: FilesystemItem::File {
            path: "src\\.\\main.rs".to_string(),
            comment: None,
        },
    });

    let validator = Validator::new();
    let result = validator.validate_syntax(&guide);
    assert!(result.is_ok());
}

#[test]
fn test_validate_allows_parent_text_with_literal_backslashes() {
    let mut guide = NavigationGuide::new();
    guide.items.push(NavigationGuideLine {
        line_number: 1,
        indent_level: 0,
        item: FilesystemItem::File {
            path: "src\\..\\main.rs".to_string(),
            comment: None,
        },
    });

    let validator = Validator::new();
    let result = validator.validate_syntax(&guide);
    assert!(result.is_ok());
}

#[test]
fn test_validate_adjacent_placeholders() {
    let mut guide = NavigationGuide::new();
    guide.items.push(NavigationGuideLine {
        line_number: 1,
        indent_level: 0,
        item: FilesystemItem::Directory {
            path: "src".to_string(),
            comment: None,
            children: vec![
                NavigationGuideLine {
                    line_number: 2,
                    indent_level: 1,
                    item: FilesystemItem::Placeholder {
                        comment: Some("first placeholder".to_string()),
                    },
                },
                NavigationGuideLine {
                    line_number: 3,
                    indent_level: 1,
                    item: FilesystemItem::Placeholder {
                        comment: Some("second placeholder".to_string()),
                    },
                },
            ],
        },
    });

    let validator = Validator::new();
    let result = validator.validate_syntax(&guide);
    assert!(matches!(
        result,
        Err(AppError::Syntax(
            SyntaxError::AdjacentPlaceholders { line: 3 }
        ))
    ));
}

#[test]
fn test_validate_non_adjacent_placeholders() {
    let mut guide = NavigationGuide::new();
    guide.items.push(NavigationGuideLine {
        line_number: 1,
        indent_level: 0,
        item: FilesystemItem::Directory {
            path: "src".to_string(),
            comment: None,
            children: vec![
                NavigationGuideLine {
                    line_number: 2,
                    indent_level: 1,
                    item: FilesystemItem::Placeholder {
                        comment: Some("first placeholder".to_string()),
                    },
                },
                NavigationGuideLine {
                    line_number: 3,
                    indent_level: 1,
                    item: FilesystemItem::File {
                        path: "main.rs".to_string(),
                        comment: None,
                    },
                },
                NavigationGuideLine {
                    line_number: 4,
                    indent_level: 1,
                    item: FilesystemItem::Placeholder {
                        comment: Some("second placeholder".to_string()),
                    },
                },
            ],
        },
    });

    let validator = Validator::new();
    let result = validator.validate_syntax(&guide);
    assert!(result.is_ok());
}

#[test]
fn line_endings_do_not_change_the_check() {
    for source in [
        "<agentic-navigation-guide>\n- src/\n  - main.rs\n- ...\n- ...\n</agentic-navigation-guide>",
        "<agentic-navigation-guide>\n- a.txt\n- a.txt\n</agentic-navigation-guide>",
        "<agentic-navigation-guide>\n- src/\n   - main.rs\n  - lib.rs\n</agentic-navigation-guide>",
        "<agentic-navigation-guide>\n- src/\n    - main.rs\n  - lib.rs\n</agentic-navigation-guide>",
        "<agentic-navigation-guide>\n- src/\n  - main.rs\n- Cargo.toml\n</agentic-navigation-guide>",
    ] {
        let crlf = source.replace('\n', "\r\n");
        let observe = |text: &str| match Parser::new().parse(text) {
            Ok(guide) => Validator::new().validate_syntax(&guide),
            Err(error) => Err(error),
        };
        let lf = observe(source);
        let cr = observe(&crlf);
        assert_eq!(lf, cr, "the check differed for {source:?}");
    }
}
