use pdf_engine::error::AppError;
use pdf_engine::handlers::{content_disposition, is_header_safe, safe_filename, storage_key, PdfForm};

fn s(x: &str) -> Option<String> {
    Some(x.to_string())
}

#[test]
fn empty_form_has_defaults() {
    let f = PdfForm::new();
    assert_eq!(f.template, None);
    assert_eq!(f.data, "null");
    assert_eq!(f.width, "8.5in");
    assert_eq!(f.height, "11in");
    assert_eq!(f.filename, "document.pdf");
    assert_eq!(f.password, None);
}

#[test]
fn to_bytes_form_is_read_into_a_request() {
    let mut f = PdfForm::new();
    f.accept_field("template", s("<h1>Test PDF</h1>")).unwrap();
    f.accept_field("filename", s("my_test.pdf")).unwrap();
    f.accept_field("width", s("8in")).unwrap();
    f.accept_field("height", s("10in")).unwrap();
    let req = f.finish().unwrap();
    assert_eq!(req.template, "<h1>Test PDF</h1>");
    assert_eq!(req.filename, "my_test.pdf");
    assert_eq!(req.width, "8in");
    assert_eq!(req.height, "10in");
    assert_eq!(req.data, "null");
    assert_eq!(req.password, None);
    assert!(content_disposition(&req.filename).contains("my_test.pdf"));
}

#[test]
fn to_s3_form_keeps_json_data() {
    let mut f = PdfForm::new();
    f.accept_field("template", s("<h1>S3 Test</h1>")).unwrap();
    f.accept_field("data", s("{\"name\": \"Gemini\"}")).unwrap();
    let req = f.finish().unwrap();
    assert_eq!(req.data, "{\"name\": \"Gemini\"}");
    let key = storage_key(Some(1_700_000_000_000_000_000), &req.filename);
    assert!(key.starts_with("pdfs/"));
    assert!(key.ends_with("document.pdf"));
}

#[test]
fn form_without_template_is_refused() {
    let mut f = PdfForm::new();
    f.accept_field("width", s("10in")).unwrap();
    let err = f.finish().unwrap_err();
    assert_eq!(err, AppError::MissingField("template".to_string()));
    let res = err.into_response();
    assert_eq!(res.status, 400);
    assert_eq!(res.body, "Missing template");
}

#[test]
fn unreadable_template_stops_the_form() {
    let mut f = PdfForm::new();
    f.accept_field("width", s("5in")).unwrap();
    let before = f.clone();
    let err = f.accept_field("template", None).unwrap_err();
    assert_eq!(err, AppError::MissingField("template".to_string()));
    assert_eq!(f, before);
}

#[test]
fn data_that_is_not_json_counts_as_null() {
    let mut f = PdfForm::new();
    f.accept_field("data", s("{\"a\": 1}")).unwrap();
    assert_eq!(f.data, "{\"a\": 1}");
    f.accept_field("data", s("{not json")).unwrap();
    assert_eq!(f.data, "null");
}

#[test]
fn unreadable_fields_change_nothing() {
    let mut f = PdfForm::new();
    let before = f.clone();
    for name in ["data", "width", "height", "filename", "password", "other"] {
        f.accept_field(name, None).unwrap();
    }
    assert_eq!(f, before);
}

#[test]
fn unknown_fields_are_ignored() {
    let mut f = PdfForm::new();
    let before = f.clone();
    f.accept_field("orientation", s("landscape")).unwrap();
    f.accept_field("", s("x")).unwrap();
    assert_eq!(f, before);
}

#[test]
fn empty_password_is_ignored_and_does_not_clear() {
    let mut f = PdfForm::new();
    f.accept_field("password", s("")).unwrap();
    assert_eq!(f.password, None);
    f.accept_field("password", s("hunter2")).unwrap();
    f.accept_field("password", s("")).unwrap();
    assert_eq!(f.password, s("hunter2"));
}

#[test]
fn later_fields_replace_earlier_ones() {
    let mut f = PdfForm::new();
    f.accept_field("template", s("first")).unwrap();
    f.accept_field("width", s("1in")).unwrap();
    f.accept_field("width", s("2in")).unwrap();
    f.accept_field("template", s("second")).unwrap();
    let req = f.finish().unwrap();
    assert_eq!(req.width, "2in");
    assert_eq!(req.template, "second");
}

#[test]
fn template_stays_once_read() {
    let mut f = PdfForm::new();
    f.accept_field("template", s("t")).unwrap();
    for name in ["data", "width", "height", "filename", "password", "x"] {
        f.accept_field(name, s("v")).unwrap();
    }
    assert!(f.finish().is_ok());
}

#[test]
fn storage_keys_are_numbered_by_time_and_end_with_the_name() {
    assert_eq!(storage_key(Some(1234567890), "doc.pdf"), "pdfs/1234567890-doc.pdf");
    assert_eq!(storage_key(None, "document.pdf"), "pdfs/0-document.pdf");
    assert_eq!(storage_key(Some(0), "a"), "pdfs/0-a");
    assert_eq!(storage_key(Some(-42), "x.pdf"), "pdfs/-42-x.pdf");
    assert_eq!(storage_key(Some(i64::MIN), "m.pdf"), "pdfs/-9223372036854775808-m.pdf");
    assert_eq!(storage_key(Some(i64::MAX), ""), "pdfs/9223372036854775807-");
}

#[test]
fn header_safety_of_file_names() {
    assert!(is_header_safe("my report.pdf"));
    assert!(is_header_safe("tab\there.pdf"));
    assert!(is_header_safe("café €.pdf"));
    assert!(!is_header_safe("bad\nname.pdf"));
    assert!(!is_header_safe("nul\u{0}.pdf"));
    assert!(!is_header_safe("del\u{7f}.pdf"));
    assert!(is_header_safe(""));
}

#[test]
fn quotes_are_taken_out_of_file_names() {
    assert_eq!(safe_filename("my \"best\" file.pdf"), "my best file.pdf");
    assert_eq!(safe_filename("plain.pdf"), "plain.pdf");
    assert_eq!(safe_filename("\"\""), "");
    assert_eq!(
        content_disposition("a\"b.pdf"),
        "attachment; filename=\"ab.pdf\""
    );
}
