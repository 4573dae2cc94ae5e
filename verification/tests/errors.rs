use pdf_engine::error::{json_error, AppError};

#[test]
fn error_messages_name_their_cause() {
    assert_eq!(
        AppError::MissingField("template".to_string()).message(),
        "Missing required field: template"
    );
    assert_eq!(
        AppError::Template("syntax error".to_string()).message(),
        "Template rendering failed: syntax error"
    );
    assert_eq!(AppError::Io("broken pipe".to_string()).message(), "I/O error: broken pipe");
    assert_eq!(AppError::Storage("denied".to_string()).message(), "Storage error: denied");
    assert_eq!(AppError::PrinceStatus("crash".to_string()).message(), "Prince failed: crash");
    assert_eq!(AppError::Timeout(45).message(), "Operation timed out after 45s");
    assert_eq!(AppError::Join("panicked".to_string()).message(), "Internal Task Error: panicked");
    assert_eq!(AppError::Unauthorized.message(), "Unauthorized");
}

#[test]
fn missing_template_is_answered_with_400() {
    let res = AppError::MissingField("template".to_string()).into_response();
    assert_eq!(res.status, 400);
    assert_eq!(res.body, "Missing template");
    assert!(!res.is_json);
}

#[test]
fn template_error_is_answered_with_400_and_its_message() {
    let res = AppError::Template("bad \"tag\"".to_string()).into_response();
    assert_eq!(res.status, 400);
    assert_eq!(res.body, "{\"error\":\"Template rendering failed: bad \\\"tag\\\"\"}");
    assert!(res.is_json);
}

#[test]
fn timeout_is_answered_with_408() {
    let res = AppError::Timeout(45).into_response();
    assert_eq!(res.status, 408);
    assert_eq!(res.body, "{\"error\":\"Operation timed out after 45s\"}");
}

#[test]
fn server_side_errors_hide_their_details() {
    for e in [
        AppError::Io("disk on fire".to_string()),
        AppError::Storage("bucket gone".to_string()),
        AppError::PrinceStatus("segfault".to_string()),
        AppError::Join("panicked".to_string()),
        AppError::Unauthorized,
    ] {
        let res = e.into_response();
        assert_eq!(res.status, 500);
        assert_eq!(res.body, "{\"error\":\"Internal server error\"}");
        assert!(res.is_json);
    }
}

#[test]
fn json_error_escapes_the_message() {
    assert_eq!(json_error(&"a\nb\\c".to_string()), "{\"error\":\"a\\nb\\\\c\"}");
}
