use agentic_navigation_guide::errors::AppError;
use agentic_navigation_guide::guide_input::{
    displayable_path_text, map_guide_input_error, validate_explicit_path, GuideInputError,
};
use agentic_navigation_guide::output::{
    classify_existing, parent_mode_allows_creation, validate_output_spelling, DeliveryStage,
    ExistingKind,
};

#[test]
fn control_characters_make_a_spelling_undisplayable() {
    assert!(displayable_path_text("docs/GUIDE.md"));
    assert!(displayable_path_text("naïve ✓.md"));
    assert!(!displayable_path_text("bad\nname"));
    assert!(!displayable_path_text("del\u{7f}"));
    assert!(!displayable_path_text("c1\u{85}"));
    assert!(displayable_path_text("\u{a0}"));
    assert!(displayable_path_text(""));
}

#[test]
fn guide_input_errors_render_their_reason() {
    assert_eq!(
        GuideInputError::InvalidName {
            name: "\"a/b\"".to_string(),
            reason: "directory separators are not allowed".to_string()
        }
        .message(),
        "invalid implicit guide name \"a/b\": directory separators are not allowed"
    );
    assert_eq!(
        GuideInputError::UnsafePath {
            path: "GUIDE.md".to_string(),
            reason: "the final guide entry is a link or reparse point".to_string()
        }
        .message(),
        "unsafe guide path GUIDE.md: the final guide entry is a link or reparse point"
    );
    assert_eq!(
        GuideInputError::InvalidAnchor {
            path: "repo".to_string(),
            reason: "the selected anchor is not a directory".to_string()
        }
        .message(),
        "invalid guide trust anchor repo: the selected anchor is not a directory"
    );
    let io = GuideInputError::Io {
        path: "GUIDE.md".to_string(),
        operation: "open".to_string(),
        kind: "PermissionDenied".to_string(),
    };
    assert_eq!(io.message(), "could not open guide path GUIDE.md (PermissionDenied)");
    assert_eq!(
        map_guide_input_error(&io),
        AppError::Other("could not open guide path GUIDE.md (PermissionDenied)".to_string())
    );
}

#[test]
fn an_explicit_guide_path_must_not_be_empty() {
    assert!(validate_explicit_path(b"GUIDE.md", "GUIDE.md").is_ok());
    let error = validate_explicit_path(b"", "").expect_err("empty path");
    assert_eq!(error.message(), "invalid explicit guide path : the path is empty");
}

#[test]
fn output_spelling_must_name_an_ordinary_file() {
    assert_eq!(validate_output_spelling(b"GUIDE.md"), Ok(()));
    assert_eq!(validate_output_spelling(b"docs/GUIDE.md"), Ok(()));
    assert_eq!(validate_output_spelling(b"/tmp/.hidden"), Ok(()));
    assert_eq!(validate_output_spelling(b"a/..b"), Ok(()));
    assert_eq!(
        validate_output_spelling(b""),
        Err("the path is empty".to_string())
    );
    assert_eq!(
        validate_output_spelling(b"docs/"),
        Err("the path ends with a directory separator".to_string())
    );
    for spelling in [&b"."[..], b"..", b"docs/.", b"docs/..", b"/.."] {
        assert_eq!(
            validate_output_spelling(spelling),
            Err("the path must end in an ordinary file name".to_string())
        );
    }
}

#[test]
fn existing_destinations_are_described() {
    assert_eq!(classify_existing(true, true, false), None);
    assert_eq!(
        classify_existing(false, true, false),
        Some(ExistingKind::RegularFile)
    );
    assert_eq!(
        classify_existing(false, false, true),
        Some(ExistingKind::Directory)
    );
    assert_eq!(
        classify_existing(false, false, false),
        Some(ExistingKind::SpecialEntry)
    );
    assert_eq!(ExistingKind::RegularFile.description(), "a regular file");
    assert_eq!(ExistingKind::Directory.description(), "a directory");
    assert_eq!(
        ExistingKind::SpecialEntry.description(),
        "a special filesystem entry"
    );
    assert_eq!(
        ExistingKind::UnknownEntry.description(),
        "an existing filesystem entry"
    );
    assert_eq!(
        DeliveryStage::ValidateCreatedHandle.description(),
        "created-handle validation"
    );
    assert_eq!(DeliveryStage::Write.description(), "write");
    assert_eq!(DeliveryStage::Flush.description(), "userspace flush");
    assert_eq!(
        DeliveryStage::SynchronizeData.description(),
        "data synchronization"
    );
    assert_eq!(
        DeliveryStage::ValidateCompletedHandle.description(),
        "completed-handle validation"
    );
}

#[test]
fn a_parent_needs_write_and_search_bits() {
    assert!(parent_mode_allows_creation(0o755));
    assert!(parent_mode_allows_creation(0o300));
    assert!(!parent_mode_allows_creation(0o555));
    assert!(!parent_mode_allows_creation(0o666));
    assert!(!parent_mode_allows_creation(0o040755 & 0o444));
}
