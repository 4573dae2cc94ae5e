use pdf_engine::models::user::CreateUserPayload;
use pdf_engine::services::user::{create_user, get_all_users};
use pdf_engine::state::AppState;
use pdf_engine::storage::{media_payload, PRESIGN_SECS, STORAGE_TIMEOUT_SECS};

#[test]
fn users_are_numbered_from_one_in_order() {
    let mut state = AppState::new();
    assert!(get_all_users(&state).is_empty());
    let a = create_user(&mut state, CreateUserPayload { username: "alice".to_string() });
    let b = create_user(&mut state, CreateUserPayload { username: "bob".to_string() });
    assert_eq!(a.id, 1);
    assert_eq!(a.username, "alice");
    assert_eq!(b.id, 2);
    assert_eq!(b.username, "bob");
    assert_eq!(state.user_count(), 2);
}

#[test]
fn listing_gives_back_what_was_registered() {
    let mut state = AppState::new();
    let a = create_user(&mut state, CreateUserPayload { username: "alice".to_string() });
    let before = get_all_users(&state);
    let b = create_user(&mut state, CreateUserPayload { username: "alice".to_string() });
    let after = get_all_users(&state);
    assert_eq!(before, vec![a.clone()]);
    assert_eq!(after, vec![a, b.clone()]);
    assert_ne!(after[0].id, after[1].id);
    assert_eq!(b.id, 2);
}

#[test]
fn media_payload_describes_the_stored_file() {
    let p = media_payload(
        "pdfs/123.pdf".to_string(),
        2048,
        "https://example.com/signed".to_string(),
        "bucket".to_string(),
    );
    assert_eq!(p.file_name, "123.pdf");
    assert_eq!(p.file_size, 2048);
    assert_eq!(p.file_type, "application/pdf");
    assert_eq!(p.storage_key, "pdfs/123.pdf");
    assert_eq!(p.url, "https://example.com/signed");
    assert_eq!(p.bucket_name, "bucket");
    assert_eq!(p.status, "success");
    assert_eq!(p.progress, 100);
}

#[test]
fn file_name_is_the_last_path_segment() {
    let name = |k: &str| media_payload(k.to_string(), 0, String::new(), String::new()).file_name;
    assert_eq!(name("doc.pdf"), "doc.pdf");
    assert_eq!(name("a/b/c.pdf"), "c.pdf");
    assert_eq!(name("dir/"), "");
    assert_eq!(name(""), "");
}

#[test]
fn storage_limits() {
    assert_eq!(STORAGE_TIMEOUT_SECS, 45);
    assert_eq!(PRESIGN_SECS, 3600);
}
