use vstd::prelude::*;

use crate::json::json_parses;

verus! {

/// An error of the `minijinja` crate.
#[verifier::external_type_specification]
#[verifier::external_body]
pub struct ExTemplateError(minijinja::Error);

/// What `minijinja` renders from `template` with the data `data_json` (JSON
/// text, or `None` for `null`), escaping for HTML when `escape_html` holds
/// and not at all otherwise; `None` when the template does not compile or
/// render.
pub uninterp spec fn minijinja_render(
    template: Seq<char>,
    data_json: Option<Seq<char>>,
    escape_html: bool,
) -> Option<Seq<char>>;

/// Compiles `template` with `minijinja::Environment::template_from_str` in a
/// fresh environment whose auto-escape callback answers `AutoEscape::Html`
/// or `AutoEscape::None` as `escape_html` says, and renders it with
/// `Template::render`, the data being `data_json` read by `serde_json` and
/// passed through `minijinja::Value::from_serialize` (`Value::Null` for
/// `None`).  The contract claims that the outcome is `minijinja_render` of the
/// arguments; the error's content is left unsaid.
#[verifier::external_body]
pub(crate) fn render_with_minijinja(template: &str, data_json: Option<&str>, escape_html: bool) -> (res:
    Result<String, minijinja::Error>)
    requires
        data_json matches Some(text) ==> json_parses(text@),
    ensures
        match res {
            Ok(s) => minijinja_render(template@, opt_str(data_json), escape_html) == Some(s@),
            Err(_) => minijinja_render(template@, opt_str(data_json), escape_html) is None,
        },
{
    let data: serde_json::Value = match data_json {
        Some(text) => serde_json::from_str(text).unwrap_or_default(),
        None => serde_json::Value::Null,
    };
    let escape = if escape_html { minijinja::AutoEscape::Html } else { minijinja::AutoEscape::None };
    let mut env = minijinja::Environment::new();
    env.set_auto_escape_callback(move |_| escape);
    let compiled = env.template_from_str(template)?;
    compiled.render(minijinja::Value::from_serialize(&data))
}

/// An optional text, as its characters.
pub open spec fn opt_str(o: Option<&str>) -> Option<Seq<char>> {
    match o {
        Some(s) => Some(s@),
        None => None,
    }
}

/// The data handed to the template engine for the JSON text `data`: the text
/// itself when it is JSON, else `null`.
pub open spec fn data_for(data: Seq<char>) -> Option<Seq<char>> {
    if json_parses(data) {
        Some(data)
    } else {
        None
    }
}

} // verus!
