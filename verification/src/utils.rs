use vstd::prelude::*;

use crate::document::{load_pdf, pdf_loaded_from, pdf_loads, prune_objects, remove_page_one, save_document};
use crate::helpers::without_first_page;
use crate::json::parses_as_json;
use crate::template::{data_for, minijinja_render, render_with_minijinja};
use crate::error::AppError;
use crate::text::{chars_of, contains, contains_exec, owned, starts_with, starts_with_exec};

verus! {

broadcast use vstd::string::group_string_axioms;

/// How many renderings may run at once.
pub const PRINCE_CONCURRENCY: usize = 8;

/// A block as large as a page that ends with a page break; the renderer marks
/// that page, and it is removed from the finished PDF.
pub open spec fn watermark_page() -> Seq<char> {
    "<div style=\"width: 100%; height: 100%; page-break-after: always;\"></div>"@
}

/// `html` with the page that takes the renderer's mark in front of it.
pub fn prepend_blank_page(html: &str) -> (res: String)
    ensures
        res@ == watermark_page() + html@,
{
    owned("<div style=\"width: 100%; height: 100%; page-break-after: always;\"></div>").concat(html)
}

/// The storage endpoint with a scheme: one that does not begin with `http`
/// gets `http://` when it names the local machine and `https://` otherwise.
pub open spec fn endpoint_with_scheme(endpoint: Seq<char>) -> Seq<char> {
    if starts_with(endpoint, "http"@) {
        endpoint
    } else if contains(endpoint, "127.0.0.1"@) || contains(endpoint, "localhost"@) {
        "http://"@ + endpoint
    } else {
        "https://"@ + endpoint
    }
}

/// Gives the storage endpoint a scheme when it has none.
pub fn resolve_endpoint(endpoint: &str) -> (res: String)
    ensures
        res@ == endpoint_with_scheme(endpoint@),
{
    let cs = chars_of(endpoint);
    if starts_with_exec(&cs, &chars_of("http")) {
        owned(endpoint)
    } else if contains_exec(&cs, &chars_of("127.0.0.1")) || contains_exec(&cs, &chars_of("localhost")) {
        owned("http://").concat(endpoint)
    } else {
        owned("https://").concat(endpoint)
    }
}

/// An endpoint with a scheme begins with `http`.
pub proof fn law_endpoint_with_scheme_starts_with_http(endpoint: Seq<char>)
    ensures
        starts_with(endpoint_with_scheme(endpoint), "http"@),
{
    reveal_strlit("http");
    reveal_strlit("http://");
    reveal_strlit("https://");
    let r = endpoint_with_scheme(endpoint);
    if !starts_with(endpoint, "http"@) {
        assert(r.subrange(0, 4) =~= "http"@);
    }
}

/// Renders `template_str` with the JSON data `data` (`null` when it is not
/// JSON), without escaping; a template that fails gives `AppError::Template`.
pub fn render_template(template_str: &str, data: &str) -> (res: Result<String, AppError>)
    ensures
        match minijinja_render(template_str@, data_for(data@), false) {
            Some(r) => res matches Ok(s) && s@ == r,
            None => res matches Err(AppError::Template(_)),
        },
{
    let data_json = if parses_as_json(data) {
        Some(data)
    } else {
        None
    };
    match render_with_minijinja(template_str, data_json, false) {
        Ok(rendered) => Ok(rendered),
        Err(e) => Err(AppError::Template(e.to_string())),
    }
}

/// The page rule given to the renderer.
pub open spec fn page_css(width: Seq<char>, height: Seq<char>) -> Seq<char> {
    "@page { size: "@ + width + " "@ + height + "; margin: 0; }"@
}

/// The arguments of the renderer: HTML on standard input, PDF on standard
/// output, no network, no chatter, and the page rule as style sheet.
pub fn prince_command_args(width: &str, height: &str) -> (res: Vec<String>)
    ensures
        res@.len() == 7,
        res@[0]@ == "-"@,
        res@[1]@ == "-o"@,
        res@[2]@ == "-"@,
        res@[3]@ == "--no-network"@,
        res@[4]@ == "--silent"@,
        res@[5]@ == "--style"@,
        res@[6]@ == "data:text/css,"@ + page_css(width@, height@),
{
    let css = owned("@page { size: ").concat(width).concat(" ").concat(height).concat(
        "; margin: 0; }",
    );
    let mut args: Vec<String> = Vec::new();
    args.push(owned("-"));
    args.push(owned("-o"));
    args.push(owned("-"));
    args.push(owned("--no-network"));
    args.push(owned("--silent"));
    args.push(owned("--style"));
    args.push(owned("data:text/css,").concat(css.as_str()));
    args
}

/// Reads `input` as a PDF, removes page 1 (the marked page) and the objects
/// left unused, and writes it out again.  A failure gives
/// `AppError::PrinceStatus` with `PDF Load: ` or `PDF Save: ` before the
/// message.
pub fn remove_first_page_logic(input: Vec<u8>) -> (res: Result<Vec<u8>, AppError>)
    ensures
        !pdf_loads(input@) ==> (res matches Err(AppError::PrinceStatus(m)) && "PDF Load: "@.is_prefix_of(m@)),
        res matches Ok(out) ==> exists|doc: lopdf::Document|
            pdf_loaded_from(doc, input@) && without_first_page(doc) == Some(out@),
        pdf_loads(input@) && res is Err ==> (res matches Err(AppError::PrinceStatus(m)) && "PDF Save: "@.is_prefix_of(m@)),
        pdf_loads(input@) && res is Err ==> exists|doc: lopdf::Document|
            pdf_loaded_from(doc, input@) && without_first_page(doc) is None,
        res matches Err(e) ==> e is PrinceStatus,
{
    let mut doc = match load_pdf(input) {
        Ok(doc) => doc,
        Err(e) => {
            return Err(AppError::PrinceStatus(owned("PDF Load: ").concat(e.to_string().as_str())));
        },
    };
    let ghost loaded = doc;
    remove_page_one(&mut doc);
    prune_objects(&mut doc);
    match save_document(&mut doc) {
        Ok(bytes) => {
            assert(pdf_loaded_from(loaded, input@) && without_first_page(loaded) == Some(bytes@));
            Ok(bytes)
        },
        Err(e) => {
            assert(pdf_loaded_from(loaded, input@) && without_first_page(loaded) is None);
            Err(AppError::PrinceStatus(owned("PDF Save: ").concat(e.to_string().as_str())))
        },
    }
}

} // verus!
