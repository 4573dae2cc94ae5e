use vstd::prelude::*;

use crate::document::{
    load_pdf, page_one_removed, pdf_loaded_from, pdf_loads, pdf_pruned, pdf_saved, prune_objects,
    remove_page_one,
    save_document,
};
use crate::text::owned;

verus! {

broadcast use vstd::string::group_string_axioms;

/// A block as large as a page that ends with a page break.
pub open spec fn blank_page_block() -> Seq<char> {
    "
    <div style=\"
        width: 100%;
        height: 100%;
        page-break-after: always;
    \"></div>
    "@
}

/// `html` with a blank page in front of it.
pub fn prepend_blank_page_html(html: &str) -> (res: String)
    ensures
        res@ == blank_page_block() + html@,
{
    owned("
    <div style=\"
        width: 100%;
        height: 100%;
        page-break-after: always;
    \"></div>
    ").concat(html)
}

/// The PDF written for a document with its page 1 deleted and its unused
/// objects dropped; `None` when writing fails.
pub open spec fn without_first_page(doc: lopdf::Document) -> Option<Seq<u8>> {
    pdf_saved(pdf_pruned(page_one_removed(doc)))
}

/// Reads `input_bytes` as a PDF, removes its first page and the objects left
/// unused, and writes it out again; a failure gives the message of the error.
/// The outcome is stated over the documents that reading may give.
pub fn remove_first_page(input_bytes: Vec<u8>) -> (res: Result<Vec<u8>, String>)
    ensures
        !pdf_loads(input_bytes@) ==> res is Err,
        res matches Ok(out) ==> exists|doc: lopdf::Document|
            pdf_loaded_from(doc, input_bytes@) && without_first_page(doc) == Some(out@),
        res is Err ==> !pdf_loads(input_bytes@) || exists|doc: lopdf::Document|
            pdf_loaded_from(doc, input_bytes@) && without_first_page(doc) is None,
{
    let mut doc = match load_pdf(input_bytes) {
        Ok(doc) => doc,
        Err(e) => {
            return Err(e.to_string());
        },
    };
    let ghost loaded = doc;
    remove_page_one(&mut doc);
    prune_objects(&mut doc);
    match save_document(&mut doc) {
        Ok(bytes) => {
            assert(pdf_loaded_from(loaded, input_bytes@) && without_first_page(loaded) == Some(bytes@));
            Ok(bytes)
        },
        Err(e) => {
            assert(pdf_loaded_from(loaded, input_bytes@) && without_first_page(loaded) is None);
            Err(e.to_string())
        },
    }
}

} // verus!
