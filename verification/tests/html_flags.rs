use hoedown::renderer::html::{Flags, Html, ESCAPE, HARD_WRAP, SKIP_HTML, USE_XHTML};
use hoedown::{Markdown, Renderer};

fn html_test(flag: u32, left: &str, right: &str) {
    let doc = Markdown::new(left);
    let mut html_renderer = Html::new(Flags::of(flag), 0);

    let output = html_renderer.render(&doc);

    assert_eq!(output.to_str().unwrap(), right);
}

#[test]
fn test_skip_html() {
    html_test(SKIP_HTML, "It <blink>must be</blink> allergies.", "<p>It must be allergies.</p>\n");
}

#[test]
fn test_escaping() {
    html_test(
        ESCAPE,
        "JavaScript is pure <strong style=\"color: red;\">evil</strong>.",
        "<p>JavaScript is pure &lt;strong style=&quot;color: red;&quot;&gt;evil&lt;/strong&gt;.</p>\n",
    );
}

#[test]
fn html_flags_test_hard_wrap() {
    html_test(HARD_WRAP, "One.\nAt.\nA.\nTime.", "<p>One.<br>\nAt.<br>\nA.<br>\nTime.</p>\n");
}

#[test]
fn test_xhtml() {
    html_test(USE_XHTML, "![spacer](spacer.gif)", "<p><img src=\"spacer.gif\" alt=\"spacer\"/></p>\n");
}
