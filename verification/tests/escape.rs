use hoedown::escape::{escape_href, escape_html};
use hoedown::Buffer;

fn html(input: &[u8]) -> Vec<u8> {
    let mut ob = Buffer::new(64);
    escape_html(&mut ob, input);
    ob.as_slice().to_vec()
}

fn href(input: &[u8]) -> Vec<u8> {
    let mut ob = Buffer::new(64);
    escape_href(&mut ob, input);
    ob.as_slice().to_vec()
}

#[test]
fn html_escapes_the_five_unsafe_characters() {
    assert_eq!(html(b"<a href=\"x\">'&'</a>"), b"&lt;a href=&quot;x&quot;&gt;&#39;&amp;&#39;&lt;/a&gt;");
}

#[test]
fn html_leaves_other_bytes() {
    assert_eq!(html(b"plain text / 100% \xe2\x98\x83"), b"plain text / 100% \xe2\x98\x83");
    assert_eq!(html(b""), b"");
}

#[test]
fn html_escape_appends() {
    let mut ob = Buffer::from("x");
    escape_html(&mut ob, b"<");
    assert_eq!(ob.as_slice(), b"x&lt;");
}

#[test]
fn href_keeps_safe_bytes() {
    assert_eq!(
        href(b"http://a.b/c-d_e?f=g;h#i!$%()*+,@:Z9"),
        b"http://a.b/c-d_e?f=g;h#i!$%()*+,@:Z9"
    );
}

#[test]
fn href_escapes_the_rest() {
    assert_eq!(href(b"a b"), b"a%20b");
    assert_eq!(href(b"a&b"), b"a&amp;b");
    assert_eq!(href(b"it's"), b"it&#x27;s");
    assert_eq!(href(b"<\">[\\]^`{|}~"), b"%3C%22%3E%5B%5C%5D%5E%60%7B%7C%7D%7E");
    assert_eq!(href(b"\x00\x1f\x7f\xff"), b"%00%1F%7F%FF");
}
