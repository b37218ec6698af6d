use agentic_navigation_guide::errors::{AppError, SyntaxError};
use agentic_navigation_guide::parser::Parser;
#[test]
fn test_parse_minimal_guide() {
    let content = r#"<agentic-navigation-guide>
- src/
  - main.rs
- Cargo.toml
</agentic-navigation-guide>"#;

    let parser = Parser::new();
    let guide = parser.parse(content).unwrap();
    assert_eq!(guide.items.len(), 2); // src/ and Cargo.toml at root level

    // Check that src/ contains main.rs as a child
    let src_item = &guide.items[0];
    assert!(src_item.is_directory());
    assert_eq!(src_item.path(), "src");

    if let Some(children) = src_item.children() {
        assert_eq!(children.len(), 1);
        assert_eq!(children[0].path(), "main.rs");
    } else {
        panic!("src/ should have children");
    }
}

#[test]
fn test_missing_opening_marker() {
    let content = r#"- src/
</agentic-navigation-guide>"#;

    let parser = Parser::new();
    let result = parser.parse(content);
    assert!(matches!(
        result,
        Err(AppError::Syntax(
            SyntaxError::MissingOpeningMarker { .. }
        ))
    ));
}

#[test]
fn test_multiple_guide_blocks_second_block_after_first_close() {
    let content = r#"<agentic-navigation-guide>
- src/
</agentic-navigation-guide>

<agentic-navigation-guide>
- docs/
</agentic-navigation-guide>"#;

    let parser = Parser::new();
    let result = parser.parse(content);

    assert!(matches!(
        result,
        Err(AppError::Syntax(
            SyntaxError::MultipleGuideBlocks { line: 5 }
        ))
    ));
}

#[test]
fn test_multiple_guide_blocks_second_opening_before_first_close() {
    let content = r#"<agentic-navigation-guide>
- src/
<agentic-navigation-guide>
- docs/
</agentic-navigation-guide>"#;

    let parser = Parser::new();
    let result = parser.parse(content);

    assert!(matches!(
        result,
        Err(AppError::Syntax(
            SyntaxError::MultipleGuideBlocks { line: 3 }
        ))
    ));
}

#[test]
fn test_multiple_guide_blocks_extra_closing_marker() {
    let content = r#"<agentic-navigation-guide>
- src/
</agentic-navigation-guide>
</agentic-navigation-guide>"#;

    let parser = Parser::new();
    let result = parser.parse(content);

    assert!(matches!(
        result,
        Err(AppError::Syntax(
            SyntaxError::MultipleGuideBlocks { line: 4 }
        ))
    ));
}

#[test]
fn test_parse_with_comments() {
    let content = r#"<agentic-navigation-guide>
- src/ # source code
- Cargo.toml # project manifest
</agentic-navigation-guide>"#;

    let parser = Parser::new();
    let guide = parser.parse(content).unwrap();
    assert_eq!(guide.items.len(), 2);
    assert_eq!(guide.items[0].comment(), Some("source code"));
    assert_eq!(guide.items[1].comment(), Some("project manifest"));
}

#[test]
fn test_parse_with_escaped_hash_in_path() {
    let content = r#"<agentic-navigation-guide>
- docs/issue\#123.md # ticket
</agentic-navigation-guide>"#;

    let parser = Parser::new();
    let guide = parser.parse(content).unwrap();

    assert_eq!(guide.items.len(), 1);
    assert_eq!(guide.items[0].path(), "docs/issue#123.md");
    assert_eq!(guide.items[0].comment(), Some("ticket"));
}

#[test]
fn test_parse_comment_uses_first_unescaped_hash() {
    let content = r#"<agentic-navigation-guide>
- docs/issue\#123.md#ticket
</agentic-navigation-guide>"#;

    let parser = Parser::new();
    let guide = parser.parse(content).unwrap();

    assert_eq!(guide.items.len(), 1);
    assert_eq!(guide.items[0].path(), "docs/issue#123.md");
    assert_eq!(guide.items[0].comment(), Some("ticket"));
}

#[test]
fn test_trailing_whitespace_allowed() {
    let content = r#"<agentic-navigation-guide>
- foo.rs  
- bar.rs          
- baz/     
  - qux.rs      
</agentic-navigation-guide>"#;

    let parser = Parser::new();
    let guide = parser.parse(content).unwrap();
    assert_eq!(guide.items.len(), 3);
    assert_eq!(guide.items[0].path(), "foo.rs");
    assert_eq!(guide.items[1].path(), "bar.rs");
    assert_eq!(guide.items[2].path(), "baz");

    if let Some(children) = guide.items[2].children() {
        assert_eq!(children.len(), 1);
        assert_eq!(children[0].path(), "qux.rs");
    } else {
        panic!("baz/ should have children");
    }
}

#[test]
fn test_parse_placeholder() {
    let content = r#"<agentic-navigation-guide>
- src/
  - main.rs
  - ... # other source files
- docs/
  - README.md
  - ...
</agentic-navigation-guide>"#;

    let parser = Parser::new();
    let guide = parser.parse(content).unwrap();
    assert_eq!(guide.items.len(), 2); // src/ and docs/ at root level

    // Check src/ contains main.rs and a placeholder
    let src_item = &guide.items[0];
    if let Some(children) = src_item.children() {
        assert_eq!(children.len(), 2);
        assert_eq!(children[0].path(), "main.rs");
        assert!(children[1].is_placeholder());
        assert_eq!(children[1].comment(), Some("other source files"));
    } else {
        panic!("src/ should have children");
    }

    // Check docs/ contains README.md and a placeholder
    let docs_item = &guide.items[1];
    if let Some(children) = docs_item.children() {
        assert_eq!(children.len(), 2);
        assert_eq!(children[0].path(), "README.md");
        assert!(children[1].is_placeholder());
        assert_eq!(children[1].comment(), None);
    } else {
        panic!("docs/ should have children");
    }
}

#[test]
fn test_parse_ignore_attribute_unquoted() {
    let content = r#"<agentic-navigation-guide ignore=true>
- src/
  - main.rs
- Cargo.toml
</agentic-navigation-guide>"#;

    let parser = Parser::new();
    let guide = parser.parse(content).unwrap();
    assert!(guide.ignore);
    assert_eq!(guide.items.len(), 2);
}

#[test]
fn test_parse_ignore_attribute_quoted() {
    let content = r#"<agentic-navigation-guide ignore="true">
- src/
  - main.rs
- Cargo.toml
</agentic-navigation-guide>"#;

    let parser = Parser::new();
    let guide = parser.parse(content).unwrap();
    assert!(guide.ignore);
    assert_eq!(guide.items.len(), 2);
}

#[test]
fn test_parse_without_ignore_attribute() {
    let content = r#"<agentic-navigation-guide>
- src/
  - main.rs
- Cargo.toml
</agentic-navigation-guide>"#;

    let parser = Parser::new();
    let guide = parser.parse(content).unwrap();
    assert!(!guide.ignore);
    assert_eq!(guide.items.len(), 2);
}

#[test]
fn test_parse_ignore_attribute_with_spaces() {
    let content = r#"<agentic-navigation-guide  ignore=true  >
- src/
  - main.rs
</agentic-navigation-guide>"#;

    let parser = Parser::new();
    let guide = parser.parse(content).unwrap();
    assert!(guide.ignore);
    assert_eq!(guide.items.len(), 1);
}

#[test]
fn test_parse_wildcard_expands_multiple_files() {
    let content = r#"<agentic-navigation-guide>
- FooCoordinator[.h, .cpp] # Coordinates foo interactions
</agentic-navigation-guide>"#;

    let parser = Parser::new();
    let guide = parser.parse(content).unwrap();

    assert_eq!(guide.items.len(), 2);
    assert_eq!(guide.items[0].path(), "FooCoordinator.h");
    assert_eq!(guide.items[1].path(), "FooCoordinator.cpp");
    assert_eq!(
        guide.items[0].comment(),
        Some("Coordinates foo interactions")
    );
    assert_eq!(
        guide.items[1].comment(),
        Some("Coordinates foo interactions")
    );
}

#[test]
fn test_parse_wildcard_with_empty_choice_and_whitespace() {
    let content = r#"<agentic-navigation-guide>
- Config[, .local].json
</agentic-navigation-guide>"#;

    let parser = Parser::new();
    let guide = parser.parse(content).unwrap();

    assert_eq!(guide.items.len(), 2);
    assert_eq!(guide.items[0].path(), "Config.json");
    assert_eq!(guide.items[1].path(), "Config.local.json");
}

#[test]
fn test_parse_wildcard_with_escapes_and_quotes() {
    let content = r#"<agentic-navigation-guide>
- data["with , comma", \,space, "literal []"] # variations
</agentic-navigation-guide>"#;

    let parser = Parser::new();
    let guide = parser.parse(content).unwrap();

    assert_eq!(guide.items.len(), 3);
    // Note: Quote characters are not included in output, and whitespace outside
    // quotes is trimmed. Inside quotes, content (including commas and spaces) is preserved.
    // - "with , comma" → with , comma (quotes removed, content preserved)
    // - \,space → ,space (escape processed, whitespace outside quotes trimmed)
    // - "literal []" → literal [] (quotes removed, brackets preserved)
    assert_eq!(guide.items[0].path(), "datawith , comma");
    assert_eq!(guide.items[1].path(), "data,space");
    assert_eq!(guide.items[2].path(), "dataliteral []");
}

#[test]
fn test_parse_wildcard_literal_brackets_without_expansion() {
    let content = r#"<agentic-navigation-guide>
- Foo\[bar\].txt
</agentic-navigation-guide>"#;

    let parser = Parser::new();
    let guide = parser.parse(content).unwrap();

    assert_eq!(guide.items.len(), 1);
    assert_eq!(guide.items[0].path(), "Foo[bar].txt");
}

#[test]
fn test_parse_wildcard_multiple_blocks_error() {
    let content = r#"<agentic-navigation-guide>
- Foo[.h][.cpp]
</agentic-navigation-guide>"#;

    let parser = Parser::new();
    let result = parser.parse(content);

    assert!(matches!(
        result,
        Err(AppError::Syntax(
            SyntaxError::InvalidWildcardSyntax { .. }
        ))
    ));
}

#[test]
fn test_parse_wildcard_with_escaped_quotes_in_quoted_strings() {
    let content = r#"<agentic-navigation-guide>
- file[\"test\\\"quote\"].txt
</agentic-navigation-guide>"#;

    let parser = Parser::new();
    let guide = parser.parse(content).unwrap();

    assert_eq!(guide.items.len(), 1);
    assert_eq!(guide.items[0].path(), r#"file"test\"quote".txt"#);
}

#[test]
fn test_parse_wildcard_empty_choice_block_error() {
    let content = r#"<agentic-navigation-guide>
- Foo[]
</agentic-navigation-guide>"#;

    let parser = Parser::new();
    let result = parser.parse(content);

    assert!(matches!(
        result,
        Err(AppError::Syntax(
            SyntaxError::InvalidWildcardSyntax { .. }
        ))
    ));

    if let Err(AppError::Syntax(SyntaxError::InvalidWildcardSyntax {
        message,
        ..
    })) = result
    {
        assert_eq!(message, "choice block cannot be empty");
    }
}

#[test]
fn test_parse_wildcard_whitespace_only_choice_block_error() {
    let content = r#"<agentic-navigation-guide>
- Foo[   ,  ,   ]
</agentic-navigation-guide>"#;

    let parser = Parser::new();
    let result = parser.parse(content);

    assert!(matches!(
        result,
        Err(AppError::Syntax(
            SyntaxError::InvalidWildcardSyntax { .. }
        ))
    ));

    if let Err(AppError::Syntax(SyntaxError::InvalidWildcardSyntax {
        message,
        ..
    })) = result
    {
        assert_eq!(message, "choice block cannot be empty");
    }
}

#[test]
fn test_parse_wildcard_complex_nested_escapes() {
    // Test escaped quotes with actual quoted string to preserve spaces
    let content = r#"<agentic-navigation-guide>
- file["a \"b\" c"].txt
</agentic-navigation-guide>"#;

    let parser = Parser::new();
    let guide = parser.parse(content).unwrap();

    assert_eq!(guide.items.len(), 1);
    // Note: Escaped quotes inside a quoted string are processed
    assert_eq!(guide.items[0].path(), r#"filea "b" c.txt"#);
}

#[test]
fn test_expand_wildcard_with_escapes_and_quotes() {
    let content = "<agentic-navigation-guide>\n- data[\"with , comma\", \\,space, \"literal []\"]\n</agentic-navigation-guide>";
    let guide = Parser::new().parse(content).expect("choice line parses");
    let expanded: Vec<String> = guide.items.iter().map(|item| item.path().to_string()).collect();

    assert_eq!(
        expanded,
        vec![
            "datawith , comma".to_string(),
            "data,space".to_string(),
            "dataliteral []".to_string(),
        ]
    );
}

#[test]
fn test_parse_choice_block_with_quotes() {
    // The alternatives of the block, read through a whole list line: quoted
    // alternatives keep their commas and brackets, an escaped comma is literal.
    let content = "<agentic-navigation-guide>\n- path[\"with , comma\", \\,space, \"literal []\"]\n</agentic-navigation-guide>";
    let guide = Parser::new().parse(content).expect("choice line parses");
    let parsed: Vec<String> = guide.items.iter().map(|item| item.path().to_string()).collect();

    assert_eq!(parsed, vec!["pathwith , comma", "path,space", "pathliteral []"]);
}

#[test]
fn test_split_path_comment_ignores_escaped_hashes() {
    let with_comment = Parser::new()
        .parse("<agentic-navigation-guide>\n- docs/issue\\#123.md#ticket\n</agentic-navigation-guide>")
        .expect("escaped hash parses");
    assert_eq!(with_comment.items[0].path(), "docs/issue#123.md");
    assert_eq!(with_comment.items[0].comment(), Some("ticket"));

    let without_comment = Parser::new()
        .parse("<agentic-navigation-guide>\n- docs/issue\\#123.md\n</agentic-navigation-guide>")
        .expect("escaped hash parses");
    assert_eq!(without_comment.items[0].path(), "docs/issue#123.md");
    assert_eq!(without_comment.items[0].comment(), None);
}

#[test]
fn a_trailing_backslash_after_a_choice_block_is_a_wildcard_error() {
    let result = Parser::new()
        .parse("<agentic-navigation-guide>\n- file[a,b]\\\n</agentic-navigation-guide>");
    match result {
        Err(AppError::Syntax(SyntaxError::InvalidWildcardSyntax { line, message, .. })) => {
            assert_eq!(line, 2);
            assert_eq!(message, "incomplete escape sequence");
        }
        other => panic!("unexpected outcome {other:?}"),
    }
}
