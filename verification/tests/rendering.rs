use pdf_engine::error::AppError;
use pdf_engine::helpers::prepend_blank_page_html;
use pdf_engine::pdf::{prince_args, prince_style_arg, render_template, wrap_and_prepend_blank_page, xml_safe_text};
use pdf_engine::utils::{prepend_blank_page, prince_command_args, render_template as render_plain};

const SPACER: &str =
    "<div style=\"page-break-after: always; visibility: hidden; height: 0;\"></div>";

#[test]
fn spacer_follows_each_body_tag() {
    let html = "<html><body><p>Hi</p></body></html>";
    assert_eq!(
        wrap_and_prepend_blank_page(html),
        format!("<html><body>{}<p>Hi</p></body></html>", SPACER)
    );
}

#[test]
fn html_without_body_is_wrapped() {
    assert_eq!(
        wrap_and_prepend_blank_page("<h1>Invoice</h1>"),
        format!("{}<div class=\"pdf-root\"><h1>Invoice</h1></div>", SPACER)
    );
    assert_eq!(
        wrap_and_prepend_blank_page(""),
        format!("{}<div class=\"pdf-root\"></div>", SPACER)
    );
}

#[test]
fn body_tag_with_attributes_is_left_alone() {
    let html = "<body class=\"x\"><p>Hi</p></body>";
    assert_eq!(wrap_and_prepend_blank_page(html), html);
}

#[test]
fn blank_pages_go_in_front() {
    assert_eq!(
        prepend_blank_page("<p>x</p>"),
        "<div style=\"width: 100%; height: 100%; page-break-after: always;\"></div><p>x</p>"
    );
    let expected = "\n    <div style=\"\n        width: 100%;\n        height: 100%;\n        page-break-after: always;\n    \"></div>\n    <p>x</p>";
    assert_eq!(prepend_blank_page_html("<p>x</p>"), expected);
}

#[test]
fn non_ascii_becomes_character_references() {
    assert_eq!(xml_safe_text("₱ € ¥ | 你好"), "&#8369; &#8364; &#165; | &#20320;&#22909;");
    assert_eq!(xml_safe_text("🚀"), "&#128640;");
    assert_eq!(xml_safe_text("plain <ascii> & text"), "plain <ascii> & text");
    assert_eq!(xml_safe_text(""), "");
}

#[test]
fn template_is_rendered_with_data() {
    assert_eq!(
        render_template("<h1>Welcome {{ name }}</h1>", "{\"name\": \"Zalven\"}").unwrap(),
        "<h1>Welcome Zalven</h1>"
    );
}

#[test]
fn rendered_data_is_html_escaped_and_ascii() {
    assert_eq!(
        render_template("<p>{{ v }}</p>", "{\"v\": \"<b>café</b>\"}").unwrap(),
        "<p>&lt;b&gt;caf&#233;&lt;&#x2f;b&gt;</p>"
    );
}

#[test]
fn data_that_is_not_json_renders_as_null() {
    assert_eq!(render_template("Hello {{ name }}!", "not json").unwrap(), "Hello !");
    assert_eq!(render_template("Hello {{ name }}!", "null").unwrap(), "Hello !");
}

#[test]
fn broken_template_is_a_template_error() {
    match render_template("{{ name", "null") {
        Err(AppError::Template(msg)) => assert!(!msg.is_empty()),
        other => panic!("unexpected {:?}", other),
    }
    match render_plain("{% if %}", "null") {
        Err(AppError::Template(_)) => {}
        other => panic!("unexpected {:?}", other),
    }
}

#[test]
fn plain_rendering_does_not_escape() {
    assert_eq!(
        render_plain("Hello {{ name }}", "{\"name\": \"<b>Alice</b>\"}").unwrap(),
        "Hello <b>Alice</b>"
    );
}

#[test]
fn prince_gets_page_size_and_fonts() {
    assert_eq!(
        prince_style_arg("8in", "10in"),
        "data:text/css,@page { size: 8in 10in; margin: 0; } body { font-family: 'Noto Sans', 'Noto Sans CJK SC', 'Noto Color Emoji', sans-serif; }"
    );
    let args = prince_args("5in", "5in");
    assert_eq!(args.len(), 8);
    assert_eq!(&args[..4], &["--no-network", "--no-javascript", "--silent", "--style"]);
    assert_eq!(args[4], prince_style_arg("5in", "5in"));
    assert_eq!(&args[5..], &["-", "-o", "-"]);
}

#[test]
fn prince_command_args_carry_the_page_rule() {
    let args = prince_command_args("210mm", "297mm");
    assert_eq!(
        args,
        vec![
            "-",
            "-o",
            "-",
            "--no-network",
            "--silent",
            "--style",
            "data:text/css,@page { size: 210mm 297mm; margin: 0; }"
        ]
    );
}

#[test]
fn deleting_the_spacer_gives_back_the_html() {
    let html = "<html><body><p>a</p></body><body>b</body></html>";
    let wrapped = wrap_and_prepend_blank_page(html);
    assert_eq!(wrapped.replace(SPACER, ""), html);
    assert_eq!(wrapped.matches(SPACER).count(), html.matches("<body>").count());
}
