use hoedown::renderer::html::smartypants;
use hoedown::Buffer;

fn smart(input: &str) -> String {
    let content = Buffer::from(input);
    let mut output = Buffer::new(64);
    smartypants(&content, &mut output);
    String::from(output.to_str().unwrap())
}

#[test]
fn text_without_triggers_is_copied() {
    assert_eq!(smart("Hello world, how are you?"), "Hello world, how are you?");
    assert_eq!(smart(""), "");
}

#[test]
fn smartypants_appends_to_the_output() {
    let content = Buffer::from("a--b");
    let mut output = Buffer::from(">");
    smartypants(&content, &mut output);
    assert_eq!(output.to_str().unwrap(), ">a&ndash;b");
}

#[test]
fn single_quotes() {
    assert_eq!(smart("'word'"), "&lsquo;word&rsquo;");
    assert_eq!(smart("you're I'm don't we'll they've he'd"),
        "you&rsquo;re I&rsquo;m don&rsquo;t we&rsquo;ll they&rsquo;ve he&rsquo;d");
    assert_eq!(smart("''twice''"), "&ldquo;twice&rdquo;");
    assert_eq!(smart("a&#39;s"), "a&rsquo;s");
}

#[test]
fn double_quotes_and_backticks() {
    assert_eq!(smart("say \"hi\" now"), "say &ldquo;hi&rdquo; now");
    assert_eq!(smart("&quot;q&quot;"), "&ldquo;q&rdquo;");
    assert_eq!(smart("``q''"), "&ldquo;q&rdquo;");
    assert_eq!(smart("a\"b"), "a&quot;b");
}

#[test]
fn symbols() {
    assert_eq!(smart("(c) (C) (r) (tm) (x)"), "&copy; &copy; &reg; &trade; (x)");
    assert_eq!(smart("a - b -- c --- d"), "a - b &ndash; c &mdash; d");
    assert_eq!(smart("wait... and . . . go."), "wait&hellip; and &hellip; go.");
    assert_eq!(smart("1/2 1/4 3/4 1/4th 3/4ths 11/2 1/3"),
        "&frac12; &frac14; &frac34; &frac14;th &frac34;ths 11/2 1/3");
}

#[test]
fn tags_comments_and_code_are_left_alone() {
    assert_eq!(smart("<a href=\"x--y\">'a'</a>"), "<a href=\"x--y\">&lsquo;a&rsquo;</a>");
    assert_eq!(smart("<!-- a -- 'b' --> -- "), "<!-- a -- 'b' --> &ndash; ");
    assert_eq!(smart("<code>a -- 'b'</code> -- "), "<code>a -- 'b'</code> &ndash; ");
    assert_eq!(smart("<pre>\"x\"</pre>\"y\""), "<pre>\"x\"</pre>&ldquo;y&rdquo;");
}

#[test]
fn backslash_escapes() {
    assert_eq!(smart("\\\"a\\\" \\-- \\... \\\\ \\x"), "\"a\" -- ... \\ \\x");
    assert_eq!(smart("end\\"), "end");
}

#[test]
fn smartypants_is_applied_once() {
    let once = smart("\\\"hi\\\"");
    assert_eq!(once, "\"hi\"");
    let twice = smart(&once);
    assert_eq!(twice, "&ldquo;hi&rdquo;");
    assert_ne!(once, twice);
}
