use hoedown::renderer::html::{Flags, Html};
use hoedown::{Extension, Markdown, Renderer};

fn extensions_test(extension: u32, left: &str, right: &str) {
    let doc = Markdown::new(left).extensions(Extension::of(extension));
    let mut renderer = Html::new(Flags::empty(), 0);

    assert_eq!(renderer.render(&doc).to_str().unwrap(), right);
}

#[test]
fn extensions_test_hard_wrap() {
    extensions_test(
        hoedown::AUTOLINK,
        "https://github.com/",
        "<p><a href=\"https://github.com/\">https://github.com/</a></p>\n",
    );
}

#[test]
fn test_fenced_code() {
    extensions_test(
        hoedown::FENCED_CODE,
        "```\n$ :(){ :|:& };:\n```",
        "<pre><code>$ :(){ :|:&amp; };:\n</code></pre>\n",
    );
}

#[test]
fn test_fenced_code_lang() {
    extensions_test(
        hoedown::FENCED_CODE,
        "```bash\n$ :(){ :|:& };:\n```",
        "<pre><code class=\"language-bash\">$ :(){ :|:&amp; };:\n</code></pre>\n",
    );
}

#[test]
fn extensions_test_footnotes() {
    extensions_test(
        hoedown::FOOTNOTES,
        "What you looking at? [^1]\n\n[^1]: Yeah, I\'m talking to you pal.",
        "<p>What you looking at? <sup id=\"fnref1\"><a href=\"#fn1\" rel=\"footnote\">1</a></sup></p>

<div class=\"footnotes\">
<hr>
<ol>

<li id=\"fn1\">
<p>Yeah, I&#39;m talking to you pal.&nbsp;<a href=\"#fnref1\" rev=\"footnote\">&#8617;</a></p>
</li>

</ol>
</div>\n",
    );
}

#[test]
fn extensions_test_highlight() {
    extensions_test(hoedown::HIGHLIGHT, "I\'m ==special==.", "<p>I&#39;m <mark>special</mark>.</p>\n");
}

#[test]
fn test_no_indented_code() {
    extensions_test(
        hoedown::DISABLE_INDENTED_CODE,
        "    $ :(){ :|:& };:",
        "<p>$ :(){ :|:&amp; };:</p>\n",
    );
}

#[test]
fn test_no_intra_emphasis() {
    extensions_test(
        hoedown::NO_INTRA_EMPHASIS,
        "Sorry,_my_space_key_is_broken.",
        "<p>Sorry,_my_space_key_is_broken.</p>\n",
    );
}

#[test]
fn test_quote() {
    extensions_test(
        hoedown::QUOTE,
        r#""Air quotes are obnoxious.""#,
        "<p><q>Air quotes are obnoxious.</q></p>\n",
    );
}

#[test]
fn test_space_headers() {
    extensions_test(
        hoedown::SPACE_HEADERS,
        "#Are you listening to me?!",
        "<p>#Are you listening to me?!</p>\n",
    );
}

#[test]
fn extensions_test_strikethrough() {
    extensions_test(
        hoedown::STRIKETHROUGH,
        "I\'m ~~running~~ out of ideas.",
        "<p>I&#39;m <del>running</del> out of ideas.</p>\n",
    );
}

#[test]
fn extensions_test_superscript() {
    extensions_test(hoedown::SUPERSCRIPT, "^bro", "<p><sup>bro</sup></p>\n");
}

#[test]
fn test_tables() {
    extensions_test(
        hoedown::TABLES,
        "|  1  |  2  |  3  |
| --- | --- | --- |
|  X  |  X  |  O  |
|  O  |  O  |  X  |
|  X  |  O  |  X  |
",
        "<table>
<thead>
<tr>
<th>1</th>
<th>2</th>
<th>3</th>
</tr>
</thead>

<tbody>
<tr>
<td>X</td>
<td>X</td>
<td>O</td>
</tr>
<tr>
<td>O</td>
<td>O</td>
<td>X</td>
</tr>
<tr>
<td>X</td>
<td>O</td>
<td>X</td>
</tr>
</tbody>
</table>\n",
    );
}

#[test]
fn extensions_test_underline() {
    extensions_test(hoedown::UNDERLINE, "What do you _mean_?", "<p>What do you <u>mean</u>?</p>\n");
}
