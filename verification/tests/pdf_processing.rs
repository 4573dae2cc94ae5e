use lopdf::{Dictionary, Document, Object, Stream, StringFormat};
use pdf_engine::error::AppError;
use pdf_engine::helpers::remove_first_page;
use pdf_engine::pdf::process_prince_output;
use pdf_engine::utils::remove_first_page_logic;

fn make_pdf(pages: usize) -> Vec<u8> {
    make_pdf_with_count(pages, pages as i64)
}

fn make_pdf_with_count(pages: usize, count: i64) -> Vec<u8> {
    make_pdf_with(pages, count, true)
}

fn make_pdf_with(pages: usize, count: i64, with_id: bool) -> Vec<u8> {
    let mut doc = Document::with_version("1.5");
    let pages_id = doc.new_object_id();
    let mut kids = Vec::new();
    for i in 0..pages {
        let text = format!("BT 72 720 Td (Page {}) Tj ET", i + 1);
        let content_id = doc.add_object(Stream::new(Dictionary::new(), text.into_bytes()));
        let mut page = Dictionary::new();
        page.set("Type", Object::Name(b"Page".to_vec()));
        page.set("Parent", Object::Reference(pages_id));
        page.set("Contents", Object::Reference(content_id));
        page.set(
            "MediaBox",
            Object::Array(vec![
                Object::Integer(0),
                Object::Integer(0),
                Object::Integer(612),
                Object::Integer(792),
            ]),
        );
        kids.push(Object::Reference(doc.add_object(page)));
    }
    let mut tree = Dictionary::new();
    tree.set("Type", Object::Name(b"Pages".to_vec()));
    tree.set("Count", Object::Integer(count));
    tree.set("Kids", Object::Array(kids));
    doc.objects.insert(pages_id, Object::Dictionary(tree));
    let mut catalog = Dictionary::new();
    catalog.set("Type", Object::Name(b"Catalog".to_vec()));
    catalog.set("Pages", Object::Reference(pages_id));
    let catalog_id = doc.add_object(catalog);
    doc.trailer.set("Root", Object::Reference(catalog_id));
    if with_id {
        let id = Object::String(b"0123456789abcdef".to_vec(), StringFormat::Hexadecimal);
        doc.trailer.set("ID", Object::Array(vec![id.clone(), id]));
    }
    let mut out = Vec::new();
    doc.save_to(&mut out).unwrap();
    out
}

fn page_count(bytes: &[u8]) -> usize {
    Document::load_mem(bytes).unwrap().get_pages().len()
}

#[test]
fn failed_render_is_refused() {
    let res = process_prince_output(false, make_pdf(2), None);
    assert_eq!(res, Err(AppError::PrinceStatus("Prince failed to render".to_string())));
}

#[test]
fn garbage_output_is_refused() {
    match process_prince_output(true, b"not a pdf".to_vec(), None) {
        Err(AppError::PrinceStatus(_)) => {}
        other => panic!("unexpected {:?}", other.map(|b| b.len())),
    }
}

#[test]
fn spacer_page_is_removed_from_a_longer_document() {
    let out = process_prince_output(true, make_pdf(3), None).unwrap();
    assert!(out.starts_with(b"%PDF"));
    assert_eq!(page_count(&out), 2);
}

#[test]
fn single_page_document_is_kept_whole() {
    let out = process_prince_output(true, make_pdf(1), None).unwrap();
    assert_eq!(page_count(&out), 1);
}

#[test]
fn password_encrypts_the_output() {
    let out = process_prince_output(true, make_pdf(2), Some("hunter2".to_string())).unwrap();
    assert!(out.starts_with(b"%PDF"));
    let text = String::from_utf8_lossy(&out);
    assert!(text.contains("/Encrypt"));
    let plain = process_prince_output(true, make_pdf(2), None).unwrap();
    assert!(!String::from_utf8_lossy(&plain).contains("/Encrypt"));
}

#[test]
fn first_page_is_removed() {
    let out = remove_first_page(make_pdf(3)).unwrap();
    assert_eq!(page_count(&out), 2);
    let out = remove_first_page_logic(make_pdf(2)).unwrap();
    assert_eq!(page_count(&out), 1);
}

#[test]
fn unreadable_input_names_the_loading_step() {
    assert!(remove_first_page(b"garbage".to_vec()).is_err());
    match remove_first_page_logic(b"garbage".to_vec()) {
        Err(AppError::PrinceStatus(msg)) => assert!(msg.starts_with("PDF Load: ")),
        other => panic!("unexpected {:?}", other.map(|b| b.len())),
    }
}

fn tree_count(bytes: &[u8]) -> i64 {
    let doc = Document::load_mem(bytes).unwrap();
    let root = doc.catalog().unwrap().get(b"Pages").unwrap().as_reference().unwrap();
    doc.get_dictionary(root).unwrap().get(b"Count").unwrap().as_i64().unwrap()
}

#[test]
fn page_counts_above_the_removed_page_drop_by_one() {
    let out = process_prince_output(true, make_pdf(3), None).unwrap();
    assert_eq!(tree_count(&out), 2);
}

#[test]
fn only_page_is_removed_by_first_page_removal() {
    let out = remove_first_page(make_pdf(1)).unwrap();
    assert_eq!(page_count(&out), 0);
    assert_eq!(tree_count(&out), 0);
}

#[test]
fn absurd_page_counts_do_not_break_processing() {
    let out = process_prince_output(true, make_pdf_with_count(2, i64::MAX), None).unwrap();
    assert_eq!(page_count(&out), 1);
    assert_eq!(tree_count(&out), i64::MAX - 1);
    let out = remove_first_page_logic(make_pdf_with_count(2, i64::MIN)).unwrap();
    assert_eq!(page_count(&out), 1);
    assert_eq!(tree_count(&out), i64::MAX);
}

#[test]
fn password_without_file_id_is_refused() {
    match process_prince_output(true, make_pdf_with(2, 2, false), Some("hunter2".to_string())) {
        Err(AppError::PrinceStatus(_)) => {}
        other => panic!("unexpected {:?}", other.map(|b| b.len())),
    }
    let out = process_prince_output(true, make_pdf_with(2, 2, false), None).unwrap();
    assert_eq!(page_count(&out), 1);
}

#[test]
fn password_output_is_v2_with_128_bit_keys_and_opens_with_the_password() {
    let out = process_prince_output(true, make_pdf(3), Some("hunter2".to_string())).unwrap();
    let mut doc = Document::load_mem(&out).unwrap();
    assert!(doc.is_encrypted());
    let dict = doc.get_encrypted().unwrap().clone();
    assert_eq!(dict.get(b"V").unwrap().as_i64().unwrap(), 2);
    assert_eq!(dict.get(b"Length").unwrap().as_i64().unwrap(), 128);
    assert!(doc.decrypt("wrong").is_err());
    let opened = Document::load_mem_with_password(&out, "hunter2").unwrap();
    assert_eq!(opened.get_pages().len(), 2);
}
