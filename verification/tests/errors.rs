use bookmark::error::BookmarkError;

#[test]
fn not_found_message() {
    let error = BookmarkError::NotFound {
        name: "test4".to_string(),
    };
    assert_eq!(error.message(), "test4 is not found.");
}

#[test]
fn duplicate_name_message() {
    let error = BookmarkError::DuplicateName {
        name: "test3".to_string(),
        path: "/tmp/test3".to_string(),
    };
    assert_eq!(
        error.message(),
        "test3 is already registered. (test3 = /tmp/test3)"
    );
}

#[test]
fn invalid_path_message() {
    let error = BookmarkError::InvalidPath {
        name: "x".to_string(),
        path: "/no/such/dir".to_string(),
    };
    assert_eq!(error.message(), "x (/no/such/dir) is invalid directory path");
}

#[test]
fn io_and_decode_messages_are_their_reasons() {
    let io = BookmarkError::Io {
        reason: "Permission denied (os error 13)".to_string(),
    };
    assert_eq!(io.message(), "Permission denied (os error 13)");
    let decode = BookmarkError::Decode {
        reason: "EOF while parsing a list at line 1 column 1".to_string(),
    };
    assert_eq!(decode.message(), "EOF while parsing a list at line 1 column 1");
}

#[test]
fn messages_of_empty_texts() {
    let error = BookmarkError::NotFound {
        name: String::new(),
    };
    assert_eq!(error.message(), " is not found.");
    let error = BookmarkError::DuplicateName {
        name: String::new(),
        path: String::new(),
    };
    assert_eq!(error.message(), " is already registered. ( = )");
}
