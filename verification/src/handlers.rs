use vstd::prelude::*;

use crate::error::AppError;
use crate::json::{json_parses, parses_as_json};
use crate::models::PdfRequest;
use crate::text::{
    chars_of, owned, push_signed_decimal, push_str, same_text, signed_decimal, starts_with,
    string_of, without_char, without_char_exec,
};

verus! {

broadcast use vstd::string::group_string_axioms;

// ---------------------------------------------------------------------------
// Reading the form of a PDF request, one field at a time.
// ---------------------------------------------------------------------------

/// The form of a PDF request as read so far.
#[derive(Debug, Clone, PartialEq, Eq)]
pub struct PdfForm {
    /// The template, once a `template` field was read.
    pub template: Option<String>,
    /// The data as JSON text.
    pub data: String,
    /// The page width.
    pub width: String,
    /// The page height.
    pub height: String,
    /// The name of the PDF.
    pub filename: String,
    /// The password, once a `password` field with some text was read.
    pub password: Option<String>,
}

/// A form read so far, as texts.
pub struct PdfFormView {
    pub template: Option<Seq<char>>,
    pub data: Seq<char>,
    pub width: Seq<char>,
    pub height: Seq<char>,
    pub filename: Seq<char>,
    pub password: Option<Seq<char>>,
}

/// An optional text, as its characters.
pub open spec fn opt_text(o: Option<String>) -> Option<Seq<char>> {
    match o {
        Some(s) => Some(s@),
        None => None,
    }
}

impl View for PdfForm {
    type V = PdfFormView;

    open spec fn view(&self) -> PdfFormView {
        PdfFormView {
            template: opt_text(self.template),
            data: self.data@,
            width: self.width@,
            height: self.height@,
            filename: self.filename@,
            password: opt_text(self.password),
        }
    }
}

/// The form before any field is read: no template, `null` data, a US Letter
/// page, the name `document.pdf` and no password.
pub open spec fn empty_form() -> PdfFormView {
    PdfFormView {
        template: None,
        data: "null"@,
        width: "8.5in"@,
        height: "11in"@,
        filename: "document.pdf"@,
        password: None,
    }
}

/// Whether a field is taken: only a `template` field whose text cannot be
/// read stops the reading.
pub open spec fn field_accepted(name: Seq<char>, text: Option<Seq<char>>) -> bool {
    !(name == "template"@ && text is None)
}

/// The form after the field `name`, whose text is `text` (`None` when it could
/// not be read), is taken.  The text of a known field replaces what the form
/// held; data that is not JSON counts as `null`; an empty password is ignored;
/// unknown fields and unreadable texts change nothing.
pub open spec fn form_step(v: PdfFormView, name: Seq<char>, text: Option<Seq<char>>) -> PdfFormView {
    match text {
        Some(t) => if name == "template"@ {
            PdfFormView { template: Some(t), ..v }
        } else if name == "data"@ {
            PdfFormView { data: if json_parses(t) { t } else { "null"@ }, ..v }
        } else if name == "width"@ {
            PdfFormView { width: t, ..v }
        } else if name == "height"@ {
            PdfFormView { height: t, ..v }
        } else if name == "filename"@ {
            PdfFormView { filename: t, ..v }
        } else if name == "password"@ && t.len() > 0 {
            PdfFormView { password: Some(t), ..v }
        } else {
            v
        },
        None => v,
    }
}

/// The form after a run of fields, or `None` when one of them stops the
/// reading.
pub open spec fn read_fields(v: PdfFormView, fields: Seq<(Seq<char>, Option<Seq<char>>)>) -> Option<
    PdfFormView,
>
    decreases fields.len(),
{
    if fields.len() == 0 {
        Some(v)
    } else {
        match read_fields(v, fields.drop_last()) {
            Some(w) => if field_accepted(fields.last().0, fields.last().1) {
                Some(form_step(w, fields.last().0, fields.last().1))
            } else {
                None
            },
            None => None,
        }
    }
}

impl PdfForm {
    /// The form before any field is read.
    pub fn new() -> (res: PdfForm)
        ensures
            res@ == empty_form(),
    {
        PdfForm {
            template: None,
            data: owned("null"),
            width: owned("8.5in"),
            height: owned("11in"),
            filename: owned("document.pdf"),
            password: None,
        }
    }

    /// Takes the field `name` whose text is `text` (`None` when it could not be
    /// read).  A `template` field without text fails with the missing
    /// template; the form is then left as it was.
    pub fn accept_field(&mut self, name: &str, text: Option<String>) -> (res: Result<(), AppError>)
        ensures
            res is Ok == field_accepted(name@, opt_text(text)),
            res is Ok ==> final(self)@ == form_step(old(self)@, name@, opt_text(text)),
            res is Err ==> final(self)@ == old(self)@,
            res matches Err(e) ==> (e matches AppError::MissingField(f) && f@ == "template"@),
    {
        proof {
            reveal_strlit("template");
            reveal_strlit("data");
            reveal_strlit("width");
            reveal_strlit("height");
            reveal_strlit("filename");
            reveal_strlit("password");
        }
        if same_text(name, "template") {
            match text {
                Some(t) => {
                    self.template = Some(t);
                    Ok(())
                },
                None => Err(AppError::MissingField(owned("template"))),
            }
        } else {
            match text {
                Some(t) => {
                    if same_text(name, "data") {
                        if parses_as_json(t.as_str()) {
                            self.data = t;
                        } else {
                            self.data = owned("null");
                        }
                    } else if same_text(name, "width") {
                        self.width = t;
                    } else if same_text(name, "height") {
                        self.height = t;
                    } else if same_text(name, "filename") {
                        self.filename = t;
                    } else if same_text(name, "password") {
                        if t.as_str().unicode_len() > 0 {
                            self.password = Some(t);
                        }
                    }
                    Ok(())
                },
                None => Ok(()),
            }
        }
    }

    /// The request that the form describes; a form without template fails
    /// with the missing template.
    pub fn finish(self) -> (res: Result<PdfRequest, AppError>)
        ensures
            self.template is None ==> (res matches Err(AppError::MissingField(f)) && f@
                == "template"@),
            self.template is Some ==> res is Ok,
            res matches Ok(r) ==> {
                &&& self.template == Some(r.template)
                &&& r.data == self.data
                &&& r.width == self.width
                &&& r.height == self.height
                &&& r.filename == self.filename
                &&& r.password == self.password
            },
    {
        match self.template {
            Some(template) => Ok(
                PdfRequest {
                    template,
                    data: self.data,
                    width: self.width,
                    height: self.height,
                    filename: self.filename,
                    password: self.password,
                },
            ),
            None => Err(AppError::MissingField(owned("template"))),
        }
    }
}

/// Once a template was read, it stays: later fields may replace it but never
/// take it away.
pub proof fn law_template_stays(
    v: PdfFormView,
    fields: Seq<(Seq<char>, Option<Seq<char>>)>,
    more: Seq<(Seq<char>, Option<Seq<char>>)>,
)
    requires
        read_fields(v, fields) matches Some(w) && w.template is Some,
        read_fields(v, fields + more) is Some,
    ensures
        read_fields(v, fields + more)->0.template is Some,
    decreases more.len(),
{
    if more.len() == 0 {
        assert(fields + more =~= fields);
    } else {
        assert((fields + more).drop_last() =~= fields + more.drop_last());
        law_template_stays(v, fields, more.drop_last());
    }
}

/// A form from which a readable `template` field was read is accepted, with
/// that field's text (or a later template's) as template.
pub proof fn law_template_field_accepts(
    fields: Seq<(Seq<char>, Option<Seq<char>>)>,
    i: int,
)
    requires
        0 <= i < fields.len(),
        fields[i].0 == "template"@,
        fields[i].1 is Some,
        read_fields(empty_form(), fields) is Some,
    ensures
        read_fields(empty_form(), fields)->0.template is Some,
{
    let prefix = fields.take(i + 1);
    lemma_read_prefix(empty_form(), fields, i + 1);
    assert(prefix.drop_last() =~= fields.take(i));
    assert(prefix.last() == fields[i]);
    assert(fields =~= prefix + fields.skip(i + 1));
    law_template_stays(empty_form(), prefix, fields.skip(i + 1));
}

/// The text of the last field called `name` whose text could be read, if
/// there is one.
pub open spec fn last_field(fields: Seq<(Seq<char>, Option<Seq<char>>)>, name: Seq<char>) -> Option<
    Seq<char>,
>
    decreases fields.len(),
{
    if fields.len() == 0 {
        None
    } else if fields.last().0 == name && fields.last().1 is Some {
        fields.last().1
    } else {
        last_field(fields.drop_last(), name)
    }
}

/// The text of the last field called `name` whose text could be read and is
/// not empty, if there is one.
pub open spec fn last_nonempty_field(fields: Seq<(Seq<char>, Option<Seq<char>>)>, name: Seq<char>) -> Option<
    Seq<char>,
>
    decreases fields.len(),
{
    if fields.len() == 0 {
        None
    } else if fields.last().0 == name && (fields.last().1 matches Some(t) && t.len() > 0) {
        fields.last().1
    } else {
        last_nonempty_field(fields.drop_last(), name)
    }
}

/// The names of the form's fields differ from one another.
proof fn lemma_field_names_distinct()
    ensures
        "template"@ != "data"@,
        "template"@ != "width"@,
        "template"@ != "height"@,
        "template"@ != "filename"@,
        "template"@ != "password"@,
        "data"@ != "width"@,
        "data"@ != "height"@,
        "data"@ != "filename"@,
        "data"@ != "password"@,
        "width"@ != "height"@,
        "width"@ != "filename"@,
        "width"@ != "password"@,
        "height"@ != "filename"@,
        "height"@ != "password"@,
        "filename"@ != "password"@,
{
    reveal_strlit("template");
    reveal_strlit("data");
    reveal_strlit("width");
    reveal_strlit("height");
    reveal_strlit("filename");
    reveal_strlit("password");
    assert("template"@[0] != "filename"@[0]);
    assert("template"@[0] != "password"@[0]);
    assert("filename"@[0] != "password"@[0]);
    assert("template"@.len() != "data"@.len());
    assert("template"@.len() != "width"@.len());
    assert("template"@.len() != "height"@.len());
    assert("data"@.len() != "width"@.len());
    assert("data"@.len() != "height"@.len());
    assert("data"@.len() != "filename"@.len());
    assert("data"@.len() != "password"@.len());
    assert("width"@.len() != "height"@.len());
    assert("width"@.len() != "filename"@.len());
    assert("width"@.len() != "password"@.len());
    assert("height"@.len() != "filename"@.len());
    assert("height"@.len() != "password"@.len());
}

/// Each part of the read form comes from the last field of its own name,
/// wherever the other fields stand: the template, width, height and file
/// name are the texts of the last readable fields of those names, the data
/// is the text of the last readable `data` field when it is JSON and `null`
/// when it is not, and the password is the last non-empty one; a part
/// without such a field keeps what the form held before.
pub proof fn law_each_part_from_its_last_field(v: PdfFormView, fields: Seq<(Seq<char>, Option<Seq<char>>)>)
    ensures
        read_fields(v, fields) matches Some(w) ==> w.template == match last_field(fields, "template"@) {
            Some(t) => Some(t),
            None => v.template,
        },
        read_fields(v, fields) matches Some(w) ==> w.data == match last_field(fields, "data"@) {
            Some(t) => if json_parses(t) {
                t
            } else {
                "null"@
            },
            None => v.data,
        },
        read_fields(v, fields) matches Some(w) ==> w.width == match last_field(fields, "width"@) {
            Some(t) => t,
            None => v.width,
        },
        read_fields(v, fields) matches Some(w) ==> w.height == match last_field(fields, "height"@) {
            Some(t) => t,
            None => v.height,
        },
        read_fields(v, fields) matches Some(w) ==> w.filename == match last_field(fields, "filename"@) {
            Some(t) => t,
            None => v.filename,
        },
        read_fields(v, fields) matches Some(w) ==> w.password == match last_nonempty_field(
            fields,
            "password"@,
        ) {
            Some(t) => Some(t),
            None => v.password,
        },
    decreases fields.len(),
{
    reveal_strlit("template");
    reveal_strlit("data");
    reveal_strlit("width");
    reveal_strlit("height");
    reveal_strlit("filename");
    reveal_strlit("password");
    lemma_field_names_distinct();
    if fields.len() > 0 {
        let init = fields.drop_last();
        law_each_part_from_its_last_field(v, init);
        let (name, text) = fields.last();
        if let Some(w0) = read_fields(v, init) {
            if field_accepted(name, text) {
                let w = form_step(w0, name, text);
                assert(read_fields(v, fields) == Some(w));
                assert(name != "template"@ ==> last_field(fields, "template"@) == last_field(init, "template"@));
                assert(name != "data"@ ==> last_field(fields, "data"@) == last_field(init, "data"@));
                assert(name != "width"@ ==> last_field(fields, "width"@) == last_field(init, "width"@));
                assert(name != "height"@ ==> last_field(fields, "height"@) == last_field(init, "height"@));
                assert(name != "filename"@ ==> last_field(fields, "filename"@) == last_field(init, "filename"@));
                assert(name != "password"@ ==> last_nonempty_field(fields, "password"@)
                    == last_nonempty_field(init, "password"@));
                if text is None {
                    assert(w == w0);
                }
            }
        }
    }
}

/// Fields of different names may trade places: reading one and then the
/// other gives the same form as reading them the other way round.
pub proof fn law_fields_of_different_names_commute(
    v: PdfFormView,
    a: Seq<char>,
    x: Option<Seq<char>>,
    b: Seq<char>,
    y: Option<Seq<char>>,
)
    requires
        a != b,
    ensures
        form_step(form_step(v, a, x), b, y) == form_step(form_step(v, b, y), a, x),
{
}

/// Whether a field name is one that the form reads.
pub open spec fn known_field(name: Seq<char>) -> bool {
    name == "template"@ || name == "data"@ || name == "width"@ || name == "height"@ || name
        == "filename"@ || name == "password"@
}

/// A field with a name that the form does not read changes nothing, wherever
/// it stands among the fields: the form read through is the same, or the
/// reading stops the same way.
pub proof fn law_unknown_field_ignored(
    v: PdfFormView,
    fields: Seq<(Seq<char>, Option<Seq<char>>)>,
    i: int,
    name: Seq<char>,
    text: Option<Seq<char>>,
)
    requires
        0 <= i <= fields.len(),
        !known_field(name),
    ensures
        read_fields(v, fields.insert(i, (name, text))) == read_fields(v, fields),
    decreases fields.len(),
{
    let more = fields.insert(i, (name, text));
    if i == fields.len() {
        assert(more.drop_last() =~= fields);
        assert(more.last() == (name, text));
        assert(name != "template"@);
        if let Some(w) = read_fields(v, fields) {
            assert(form_step(w, name, text) == w);
        }
    } else {
        assert(more.drop_last() =~= fields.drop_last().insert(i, (name, text)));
        assert(more.last() == fields.last());
        law_unknown_field_ignored(v, fields.drop_last(), i, name, text);
    }
}

/// The fields of a run whose names the form reads, in order.
pub open spec fn known_fields(fields: Seq<(Seq<char>, Option<Seq<char>>)>) -> Seq<
    (Seq<char>, Option<Seq<char>>),
>
    decreases fields.len(),
{
    if fields.len() == 0 {
        fields
    } else if known_field(fields.last().0) {
        known_fields(fields.drop_last()).push(fields.last())
    } else {
        known_fields(fields.drop_last())
    }
}

/// Only the fields with names that the form reads count: a run of fields
/// reads as the run of its known fields does.
pub proof fn law_only_known_fields_count(v: PdfFormView, fields: Seq<(Seq<char>, Option<Seq<char>>)>)
    ensures
        read_fields(v, fields) == read_fields(v, known_fields(fields)),
    decreases fields.len(),
{
    if fields.len() > 0 {
        law_only_known_fields_count(v, fields.drop_last());
        let last = fields.last();
        if known_field(last.0) {
            let k = known_fields(fields);
            assert(k.drop_last() =~= known_fields(fields.drop_last()));
            assert(k.last() == last);
        } else {
            assert(last.0 != "template"@);
            if let Some(w) = read_fields(v, fields.drop_last()) {
                assert(form_step(w, last.0, last.1) == w);
            }
        }
    }
}

/// Fields with names that the form does not read may stand anywhere and in
/// any number: two runs with the same known fields, in the same order, read
/// alike (the same form, or the reading stops the same way).
pub proof fn law_unknown_fields_ignored(
    v: PdfFormView,
    fields: Seq<(Seq<char>, Option<Seq<char>>)>,
    more: Seq<(Seq<char>, Option<Seq<char>>)>,
)
    requires
        known_fields(more) == known_fields(fields),
    ensures
        read_fields(v, more) == read_fields(v, fields),
{
    law_only_known_fields_count(v, fields);
    law_only_known_fields_count(v, more);
}

/// A run of fields that is read through was read through at every prefix.
proof fn lemma_read_prefix(v: PdfFormView, fields: Seq<(Seq<char>, Option<Seq<char>>)>, n: int)
    requires
        0 <= n <= fields.len(),
        read_fields(v, fields) is Some,
    ensures
        read_fields(v, fields.take(n)) is Some,
    decreases fields.len(),
{
    if n < fields.len() {
        lemma_read_prefix(v, fields.drop_last(), n);
        assert(fields.drop_last().take(n) =~= fields.take(n));
    } else {
        assert(fields.take(n) =~= fields);
    }
}

// ---------------------------------------------------------------------------
// Naming what is handed out.
// ---------------------------------------------------------------------------

/// The storage key of a PDF named `filename` and rendered at `nanos`
/// nanoseconds since the epoch (0 when the clock is out of range): under
/// `pdfs/`, the time, a dash, and the file name as suffix.
pub open spec fn storage_key_for(nanos: Option<i64>, filename: Seq<char>) -> Seq<char> {
    "pdfs/"@ + signed_decimal(
        match nanos {
            Some(n) => n as int,
            None => 0,
        },
    ) + "-"@ + filename
}

/// Every storage key lies under `pdfs/` and ends with the file name.
pub proof fn law_storage_key_shape(nanos: Option<i64>, filename: Seq<char>)
    ensures
        starts_with(storage_key_for(nanos, filename), "pdfs/"@),
        storage_key_for(nanos, filename).len() >= filename.len(),
        storage_key_for(nanos, filename).skip(
            storage_key_for(nanos, filename).len() - filename.len(),
        ) == filename,
{
    reveal_strlit("pdfs/");
    let k = storage_key_for(nanos, filename);
    assert(k.subrange(0, 5) =~= "pdfs/"@);
    assert(k.skip(k.len() - filename.len()) =~= filename);
}

/// The storage key under `pdfs/` for the PDF `filename` rendered at `nanos`.
pub fn storage_key(nanos: Option<i64>, filename: &str) -> (res: String)
    ensures
        res@ == storage_key_for(nanos, filename@),
{
    let n: i64 = match nanos {
        Some(n) => n,
        None => 0,
    };
    let mut out: Vec<char> = Vec::new();
    push_str(&mut out, "pdfs/");
    push_signed_decimal(&mut out, n);
    push_str(&mut out, "-");
    push_str(&mut out, filename);
    string_of(&out)
}

/// The file name with its double quotes taken out, so that it can stand
/// between quotes in a header.
pub fn safe_filename(filename: &str) -> (res: String)
    ensures
        res@ == without_char(filename@, '"'),
{
    let cs = without_char_exec(&chars_of(filename), '"');
    string_of(&cs)
}

/// A character that may stand in an HTTP header value: a visible or
/// non-ASCII character, a space or a tab (no other control character).
pub open spec fn header_char(c: char) -> bool {
    ((c as u32) >= 32 && (c as u32) != 127) || c == '\t'
}

/// Every character of `s` may stand in an HTTP header value.
pub open spec fn header_safe(s: Seq<char>) -> bool {
    forall|i: int| 0 <= i < s.len() ==> header_char(#[trigger] s[i])
}

/// Whether every character of `text` may stand in an HTTP header value.
pub fn is_header_safe(text: &str) -> (res: bool)
    ensures
        res == header_safe(text@),
{
    let cs = chars_of(text);
    let mut i: usize = 0;
    while i < cs.len()
        invariant
            i <= cs.len(),
            cs@ == text@,
            forall|k: int| 0 <= k < i ==> header_char(#[trigger] cs@[k]),
        decreases cs.len() - i,
    {
        let code: u32 = cs[i] as u32;
        if !((code >= 32 && code != 127) || cs[i] == '\t') {
            assert(!header_char(cs@[i as int]));
            return false;
        }
        i = i + 1;
    }
    true
}

/// The `Content-Disposition` header that hands the PDF out as an attachment
/// named `filename`; a name with a control character (other than a tab)
/// cannot stand in a header and is not admitted.
pub fn content_disposition(filename: &str) -> (res: String)
    requires
        header_safe(filename@),
    ensures
        res@ == "attachment; filename=\""@ + without_char(filename@, '"') + "\""@,
        header_safe(res@),
{
    proof {
        reveal_strlit("attachment; filename=\"");
        reveal_strlit("\"");
        lemma_without_char_header_safe(filename@);
    }
    let res = owned("attachment; filename=\"").concat(safe_filename(filename).as_str()).concat("\"");
    assert forall|i: int| 0 <= i < res@.len() implies header_char(#[trigger] res@[i]) by {
        let head = "attachment; filename=\""@;
        let mid = without_char(filename@, '"');
        if head.len() <= i < head.len() + mid.len() {
            assert(res@[i] == mid[i - head.len()]);
        }
    }
    res
}

/// Taking characters out keeps a text fit for a header.
proof fn lemma_without_char_header_safe(s: Seq<char>)
    requires
        header_safe(s),
    ensures
        header_safe(without_char(s, '"')),
    decreases s.len(),
{
    if s.len() > 0 {
        assert(header_safe(s.drop_last()));
        lemma_without_char_header_safe(s.drop_last());
        assert(header_char(s[s.len() - 1]));
        let prev = without_char(s.drop_last(), '"');
        assert forall|i: int| 0 <= i < without_char(s, '"').len() implies header_char(
            #[trigger] without_char(s, '"')[i],
        ) by {
            if i < prev.len() {
                assert(without_char(s, '"')[i] == prev[i]);
            }
        }
    }
}

/// A safe file name holds no double quote.
pub proof fn law_safe_filename_has_no_quote(filename: Seq<char>)
    ensures
        !without_char(filename, '"').contains('"'),
    decreases filename.len(),
{
    if filename.len() > 0 {
        law_safe_filename_has_no_quote(filename.drop_last());
        let prev = without_char(filename.drop_last(), '"');
        assert forall|i: int| 0 <= i < without_char(filename, '"').len() implies without_char(
            filename,
            '"',
        )[i] != '"' by {
            if filename.last() != '"' && i < prev.len() {
                assert(without_char(filename, '"')[i] == prev[i]);
            }
        }
    }
}

/// A file name without double quotes is kept as it is.
pub proof fn law_safe_filename_keeps_plain_names(filename: Seq<char>)
    requires
        !filename.contains('"'),
    ensures
        without_char(filename, '"') == filename,
    decreases filename.len(),
{
    if filename.len() > 0 {
        assert(!filename.drop_last().contains('"')) by {
            if filename.drop_last().contains('"') {
                let k = choose|k: int| 0 <= k < filename.drop_last().len() && filename.drop_last()[k] == '"';
                assert(filename[k] == '"');
            }
        }
        law_safe_filename_keeps_plain_names(filename.drop_last());
        assert(filename.last() != '"') by {
            assert(filename[filename.len() - 1] == filename.last());
        }
        assert(filename.drop_last().push(filename.last()) =~= filename);
    }
}

} // verus!
