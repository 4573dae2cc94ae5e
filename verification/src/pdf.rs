use vstd::prelude::*;

use crate::document::{
    all_permissions, encrypt_document, encryption_v2, load_pdf, page_count, page_one_removed,
    pdf_all_permissions, pdf_encrypt, pdf_encrypted, pdf_has_file_id, pdf_loaded_from, pdf_loads,
    pdf_object_ids, pdf_page_ids, pdf_pruned, pdf_saved, pdf_v2_state, prune_objects,
    remove_page_one, save_document,
};
use crate::error::AppError;
use crate::json::parses_as_json;
use crate::template::{data_for, minijinja_render, render_with_minijinja};
use crate::text::{
    all_ascii, chars_of, contains, contains_exec, count_matches, law_insert_after_undone,
    law_insertion_counted, law_insertion_removed, law_replace_absent, law_replace_present,
    law_xml_safe_is_ascii, matches_at, owned, push_str, replace_all, replace_all_exec, starts_with,
    string_of, xml_safe, xml_safe_exec,
};

verus! {

broadcast use vstd::string::group_string_axioms;

// ---------------------------------------------------------------------------
// The spacer page.
// ---------------------------------------------------------------------------

/// An empty block that ends the first page; the renderer marks that page, and
/// it is removed from the finished PDF.
pub open spec fn spacer_page() -> Seq<char> {
    "<div style=\"page-break-after: always; visibility: hidden; height: 0;\"></div>"@
}

/// The document handed to the renderer: the spacer page goes right after each
/// `<body>` tag when the HTML has a body element, and otherwise before the
/// HTML, which is wrapped in a `pdf-root` block.
pub open spec fn with_spacer_page(html: Seq<char>) -> Seq<char> {
    if contains(html, "<body"@) {
        replace_all(html, "<body>"@, "<body>"@ + spacer_page())
    } else {
        spacer_page() + "<div class=\"pdf-root\">"@ + html + "</div>"@
    }
}

/// Puts the spacer page in front of the content of `html`.
pub fn wrap_and_prepend_blank_page(html: &str) -> (res: String)
    ensures
        res@ == with_spacer_page(html@),
{
    let spacer = "<div style=\"page-break-after: always; visibility: hidden; height: 0;\"></div>";
    let cs = chars_of(html);
    if contains_exec(&cs, &chars_of("<body")) {
        let from = chars_of("<body>");
        proof {
            reveal_strlit("<body>");
        }
        let mut to: Vec<char> = Vec::new();
        push_str(&mut to, "<body>");
        push_str(&mut to, spacer);
        let out = replace_all_exec(&cs, &from, &to);
        string_of(&out)
    } else {
        owned(spacer).concat("<div class=\"pdf-root\">").concat(html).concat("</div>")
    }
}

/// Without a body element, the HTML comes after the spacer page.
pub proof fn law_spacer_leads_without_body(html: Seq<char>)
    requires
        !contains(html, "<body"@),
    ensures
        starts_with(with_spacer_page(html), spacer_page()),
{
    let r = with_spacer_page(html);
    assert(r.subrange(0, spacer_page().len() as int) =~= spacer_page());
}

/// With a `<body>` tag, the spacer page stands right after it.
pub proof fn law_spacer_follows_body_tag(html: Seq<char>)
    requires
        contains(html, "<body>"@),
    ensures
        contains(with_spacer_page(html), "<body>"@ + spacer_page()),
{
    reveal_strlit("<body>");
    reveal_strlit("<body");
    let i = choose|i: int| matches_at(html, "<body>"@, i);
    assert(html.subrange(i, i + 5) =~= "<body"@) by {
        assert(html.subrange(i, i + 5) =~= html.subrange(i, i + 6).subrange(0, 5));
    }
    assert(matches_at(html, "<body"@, i));
    law_replace_present(html, "<body>"@, "<body>"@ + spacer_page());
}

/// The spacer page can be taken out again: replacing `<body>` followed by
/// the spacer page with `<body>` gives back the HTML, whatever it holds.
pub proof fn law_spacer_round_trip(html: Seq<char>)
    requires
        contains(html, "<body"@),
    ensures
        replace_all(with_spacer_page(html), "<body>"@ + spacer_page(), "<body>"@) == html,
{
    reveal_strlit("<body>");
    let tag = "<body>"@;
    assert(!tag.skip(1).contains(tag[0])) by {
        assert(tag.skip(1) =~= seq!['b', 'o', 'd', 'y', '>']);
    }
    law_insert_after_undone(html, tag, spacer_page());
}

/// No character `a` stands right before a character `b` in `s` from index
/// `k` on.
spec fn no_pair_from(s: Seq<char>, a: char, b: char, k: nat) -> bool
    decreases s.len() - k,
{
    if k + 1 >= s.len() {
        true
    } else {
        !(s[k as int] == a && s[k + 1int] == b) && no_pair_from(s, a, b, (k + 1) as nat)
    }
}

proof fn lemma_no_pair_from(s: Seq<char>, a: char, b: char, k: nat, i: int)
    requires
        no_pair_from(s, a, b, k),
        k <= i,
        i + 1 < s.len(),
    ensures
        !(s[i] == a && s[i + 1] == b),
    decreases i - k,
{
    if k < i {
        lemma_no_pair_from(s, a, b, (k + 1) as nat, i);
    }
}

/// The spacer page holds no `<body>` tag.
proof fn lemma_spacer_has_no_body_tag()
    ensures
        !contains(spacer_page(), "<body>"@),
{
    reveal_strlit("<body>");
    reveal_strlit("<div style=\"page-break-after: always; visibility: hidden; height: 0;\"></div>");
    assert(no_pair_from(spacer_page(), '<', 'b', 0)) by {
        reveal_with_fuel(no_pair_from, 80);
    }
    if contains(spacer_page(), "<body>"@) {
        let i = choose|i: int| matches_at(spacer_page(), "<body>"@, i);
        assert(spacer_page()[i] == '<') by {
            assert(spacer_page().subrange(i, i + 6)[0] == "<body>"@[0]);
        }
        assert(spacer_page()[i + 1] == 'b') by {
            assert(spacer_page().subrange(i, i + 6)[1] == "<body>"@[1]);
        }
        lemma_no_pair_from(spacer_page(), '<', 'b', 0, i);
    }
}

/// When the HTML has a body element and held no copy of the spacer page
/// itself, the spacer page is taken out again by deleting every copy of it,
/// and it stands in the result once for each `<body>` tag.
pub proof fn law_spacer_removed(html: Seq<char>)
    requires
        contains(html, "<body"@),
        !contains(html, spacer_page()),
    ensures
        replace_all(with_spacer_page(html), spacer_page(), Seq::empty()) == html,
        count_matches(with_spacer_page(html), spacer_page()) == count_matches(html, "<body>"@),
{
    reveal_strlit("<body>");
    reveal_strlit("<div style=\"page-break-after: always; visibility: hidden; height: 0;\"></div>");
    let tag = "<body>"@;
    let sp = spacer_page();
    lemma_spacer_has_no_body_tag();
    assert forall|i: int| 0 <= i < tag.len() implies !matches_at(tag + sp, sp, i) by {
        if matches_at(tag + sp, sp, i) {
            assert((tag + sp).subrange(i, i + sp.len())[0] == sp[0]);
            assert((tag + sp).subrange(i, i + sp.len())[1] == sp[1]);
        }
    }
    law_insertion_removed(html, tag, sp);
    law_insertion_counted(html, tag, sp);
}

/// A body tag that carries attributes (`<body class=...>`) is not matched:
/// the HTML is then handed on without a spacer page.
pub proof fn law_body_with_attributes_kept(html: Seq<char>)
    requires
        contains(html, "<body"@),
        !contains(html, "<body>"@),
    ensures
        with_spacer_page(html) == html,
{
    reveal_strlit("<body>");
    law_replace_absent(html, "<body>"@, "<body>"@ + spacer_page());
}

// ---------------------------------------------------------------------------
// Template rendering.
// ---------------------------------------------------------------------------

/// `rendered` with each character outside ASCII written as `&#N;`, `N` its
/// code point in decimal, so that the renderer reads it whatever its encoding.
pub fn xml_safe_text(rendered: &str) -> (res: String)
    ensures
        res@ == xml_safe(rendered@),
{
    let cs = chars_of(rendered);
    let out = xml_safe_exec(&cs);
    string_of(&out)
}

/// Renders `template_str` with the JSON data `data` (`null` when it is not
/// JSON), escaping for HTML, and makes the result XML-safe; a template that
/// fails gives `AppError::Template`.
pub fn render_template(template_str: &str, data: &str) -> (res: Result<String, AppError>)
    ensures
        match minijinja_render(template_str@, data_for(data@), true) {
            Some(r) => res matches Ok(s) && s@ == xml_safe(r),
            None => res matches Err(AppError::Template(_)),
        },
{
    let data_json = if parses_as_json(data) {
        Some(data)
    } else {
        None
    };
    match render_with_minijinja(template_str, data_json, true) {
        Ok(rendered) => Ok(xml_safe_text(rendered.as_str())),
        Err(e) => Err(AppError::Template(e.to_string())),
    }
}

/// What is handed to the renderer is pure ASCII, whatever the template and
/// its data hold.
pub proof fn law_rendered_html_is_ascii(template: Seq<char>, data: Seq<char>)
    requires
        minijinja_render(template, data_for(data), true) is Some,
    ensures
        all_ascii(xml_safe(minijinja_render(template, data_for(data), true)->0)),
{
    law_xml_safe_is_ascii(minijinja_render(template, data_for(data), true)->0);
}

// ---------------------------------------------------------------------------
// The renderer's command line.
// ---------------------------------------------------------------------------

/// The style sheet given to the renderer: the page size and no margin, and
/// fonts that cover Latin, CJK and emoji.
pub open spec fn prince_style(width: Seq<char>, height: Seq<char>) -> Seq<char> {
    "data:text/css,@page { size: "@ + width + " "@ + height
        + "; margin: 0; } body { font-family: 'Noto Sans', 'Noto Sans CJK SC', 'Noto Color Emoji', sans-serif; }"@
}

/// The style sheet argument for pages of `w` by `h`.
pub fn prince_style_arg(w: &str, h: &str) -> (res: String)
    ensures
        res@ == prince_style(w@, h@),
{
    owned("data:text/css,@page { size: ").concat(w).concat(" ").concat(h).concat(
        "; margin: 0; } body { font-family: 'Noto Sans', 'Noto Sans CJK SC', 'Noto Color Emoji', sans-serif; }",
    )
}

/// The arguments of the renderer: no network, no scripts, no chatter, the
/// style sheet, HTML on standard input and PDF on standard output.
pub fn prince_args(w: &str, h: &str) -> (res: Vec<String>)
    ensures
        res@.len() == 8,
        res@[0]@ == "--no-network"@,
        res@[1]@ == "--no-javascript"@,
        res@[2]@ == "--silent"@,
        res@[3]@ == "--style"@,
        res@[4]@ == prince_style(w@, h@),
        res@[5]@ == "-"@,
        res@[6]@ == "-o"@,
        res@[7]@ == "-"@,
{
    let mut args: Vec<String> = Vec::new();
    args.push(owned("--no-network"));
    args.push(owned("--no-javascript"));
    args.push(owned("--silent"));
    args.push(owned("--style"));
    args.push(prince_style_arg(w, h));
    args.push(owned("-"));
    args.push(owned("-o"));
    args.push(owned("-"));
    args
}

// ---------------------------------------------------------------------------
// Post-processing of the rendered PDF.
// ---------------------------------------------------------------------------

/// The document with the spacer page removed: page 1 goes when there is more
/// than one page; a document of one page or none stays as it is.
pub open spec fn spacer_stripped(doc: lopdf::Document) -> lopdf::Document {
    if pdf_page_ids(doc).len() > 1 {
        page_one_removed(doc)
    } else {
        doc
    }
}

/// Removes the spacer page: page 1 goes when the document has more than one
/// page, and a document of one page or none is left as it is.
pub fn strip_spacer_page(doc: &mut lopdf::Document)
    ensures
        *final(doc) == spacer_stripped(*old(doc)),
        pdf_page_ids(*old(doc)).len() > 1 ==> pdf_object_ids(*final(doc)) == pdf_object_ids(
            *old(doc),
        ).remove(pdf_page_ids(*old(doc))[0]),
{
    if page_count(doc) > 1 {
        remove_page_one(doc);
    }
}

/// `state` encrypts for `password` as the service does: `EncryptionVersion::V2`
/// with `password` as both owner and user password, 128-bit keys and every
/// permission.
pub open spec fn encryption_for(state: lopdf::EncryptionState, perms: lopdf::Permissions, password: Seq<
    char,
>) -> bool {
    pdf_all_permissions(perms) && pdf_v2_state(state, password, password, 128, perms)
}

/// Encrypts the document with `password` as owner and user password, 128-bit
/// keys and every permission (`EncryptionVersion::V2`) when one is given.  It
/// fails when the document has no file identifier or `lopdf` cannot encrypt
/// it with the state drawn; on success the document is what `lopdf` makes of
/// it with that state and reads as encrypted.  A document without password
/// is left as it is.
pub fn protect_with_password(doc: &mut lopdf::Document, password: &Option<String>) -> (res: Result<
    (),
    AppError,
>)
    ensures
        password is None ==> res is Ok && *final(doc) == *old(doc),
        password matches Some(p) ==> (res is Ok ==> exists|state: lopdf::EncryptionState, perms: lopdf::Permissions|
            encryption_for(state, perms, p@) && pdf_encrypt(*old(doc), state) == Some(*final(doc))),
        password matches Some(p) ==> (res is Err ==> !pdf_has_file_id(*old(doc)) || exists|
            state: lopdf::EncryptionState,
            perms: lopdf::Permissions,
        | encryption_for(state, perms, p@) && pdf_encrypt(*old(doc), state) is None),
        password is Some && !pdf_has_file_id(*old(doc)) ==> res is Err,
        password is Some && res is Ok ==> pdf_object_ids(*old(doc)).subset_of(
            pdf_object_ids(*final(doc)),
        ),
        password is Some && res is Ok ==> pdf_encrypted(*final(doc)),
        password is Some && pdf_encrypted(*old(doc)) ==> res is Err,
        res matches Err(e) ==> e is PrinceStatus,
{
    match password {
        Some(p) => {
            let perms = all_permissions();
            let state = match encryption_v2(doc, p.as_str(), p.as_str(), 128, perms) {
                Ok(state) => state,
                Err(e) => {
                    return Err(AppError::PrinceStatus(e.to_string()));
                },
            };
            assert(encryption_for(state, perms, p@));
            match encrypt_document(doc, &state) {
                Ok(()) => Ok(()),
                Err(e) => Err(AppError::PrinceStatus(e.to_string())),
            }
        },
        None => Ok(()),
    }
}

/// The document that is saved, before any password: the spacer page removed
/// and the unused objects dropped.
pub open spec fn cleaned(doc: lopdf::Document) -> lopdf::Document {
    pdf_pruned(spacer_stripped(doc))
}

/// Turns what the renderer wrote into the PDF that is handed out: a failed
/// run is refused, the bytes are read as a PDF, the spacer page is removed
/// when there is more than one page, unused objects are dropped, the password
/// (if any) is applied, and the document is written out again.  Every failure
/// is an `AppError::PrinceStatus`.  The outcome is stated over the documents
/// that reading may give.
pub fn process_prince_output(success: bool, raw: Vec<u8>, password: Option<String>) -> (res: Result<
    Vec<u8>,
    AppError,
>)
    ensures
        !success ==> (res matches Err(AppError::PrinceStatus(m)) && m@ == "Prince failed to render"@),
        success && !pdf_loads(raw@) ==> res matches Err(AppError::PrinceStatus(_)),
        password is None ==> (res matches Ok(out) ==> exists|doc: lopdf::Document|
            pdf_loaded_from(doc, raw@) && pdf_saved(cleaned(doc)) == Some(out@)),
        success && password is None ==> (res is Err ==> !pdf_loads(raw@) || exists|doc: lopdf::Document|
            pdf_loaded_from(doc, raw@) && pdf_saved(cleaned(doc)) is None),
        password matches Some(p) ==> (res matches Ok(out) ==> exists|
            doc: lopdf::Document,
            state: lopdf::EncryptionState,
            perms: lopdf::Permissions,
        |
            {
                &&& pdf_loaded_from(doc, raw@)
                &&& encryption_for(state, perms, p@)
                &&& pdf_encrypt(cleaned(doc), state) is Some
                &&& pdf_saved(pdf_encrypt(cleaned(doc), state)->0) == Some(out@)
            }),
        success ==> (password matches Some(p) ==> (res is Err ==> !pdf_loads(raw@) || exists|
            doc: lopdf::Document,
        |
            {
                &&& pdf_loaded_from(doc, raw@)
                &&& (!pdf_has_file_id(cleaned(doc)) || exists|
                    state: lopdf::EncryptionState,
                    perms: lopdf::Permissions,
                |
                    {
                        &&& encryption_for(state, perms, p@)
                        &&& (pdf_encrypt(cleaned(doc), state) is None || pdf_saved(
                            pdf_encrypt(cleaned(doc), state)->0,
                        ) is None)
                    })
            })),
        res is Ok ==> success,
        res matches Err(e) ==> e is PrinceStatus,
{
    if !success {
        return Err(AppError::PrinceStatus(owned("Prince failed to render")));
    }
    let mut doc = match load_pdf(raw) {
        Ok(doc) => doc,
        Err(e) => {
            return Err(AppError::PrinceStatus(e.to_string()));
        },
    };
    let ghost loaded = doc;
    strip_spacer_page(&mut doc);
    prune_objects(&mut doc);
    let ghost clean = doc;
    assert(clean == cleaned(loaded));
    match protect_with_password(&mut doc, &password) {
        Ok(()) => {},
        Err(e) => {
            proof {
                let p = password->0;
                if pdf_has_file_id(clean) {
                    let (state, perms) = choose|
                        state: lopdf::EncryptionState,
                        perms: lopdf::Permissions,
                    | encryption_for(state, perms, p@) && pdf_encrypt(clean, state) is None;
                    assert(encryption_for(state, perms, p@) && pdf_encrypt(cleaned(loaded), state) is None);
                }
                assert(pdf_loaded_from(loaded, raw@));
            }
            return Err(e);
        },
    }
    let ghost handed = doc;
    match save_document(&mut doc) {
        Ok(bytes) => {
            proof {
                if password is Some {
                    let p = password->0;
                    let (state, perms) = choose|
                        state: lopdf::EncryptionState,
                        perms: lopdf::Permissions,
                    | encryption_for(state, perms, p@) && pdf_encrypt(clean, state) == Some(handed);
                    assert(pdf_loaded_from(loaded, raw@) && encryption_for(state, perms, p@)
                        && pdf_encrypt(cleaned(loaded), state) is Some && pdf_saved(
                        pdf_encrypt(cleaned(loaded), state)->0,
                    ) == Some(bytes@));
                } else {
                    assert(pdf_loaded_from(loaded, raw@) && pdf_saved(cleaned(loaded)) == Some(
                        bytes@,
                    ));
                }
            }
            Ok(bytes)
        },
        Err(e) => {
            proof {
                if password is Some {
                    let p = password->0;
                    let (state, perms) = choose|
                        state: lopdf::EncryptionState,
                        perms: lopdf::Permissions,
                    | encryption_for(state, perms, p@) && pdf_encrypt(clean, state) == Some(handed);
                    assert(encryption_for(state, perms, p@) && pdf_saved(
                        pdf_encrypt(cleaned(loaded), state)->0,
                    ) is None);
                }
                assert(pdf_loaded_from(loaded, raw@));
            }
            Err(AppError::PrinceStatus(e.to_string()))
        },
    }
}

} // verus!
