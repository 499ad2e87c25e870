use hoedown::renderer::html::{self, Flags, Html};
use hoedown::{Buffer, Extension, Markdown, Render};

fn render(ext: u32, flags: u32, input: &str) -> String {
    let doc = Markdown::new(input).extensions(Extension::of(ext));
    let mut r = Html::new(Flags::of(flags), 0);
    String::from(r.render(&doc).to_str().unwrap())
}

#[test]
fn atx_headers() {
    assert_eq!(render(0, 0, "# One\n\n###### Six ######\n\n####### Seven\n"),
        "<h1>One</h1>\n\n<h6>Six</h6>\n\n<h6># Seven</h6>\n");
    assert_eq!(render(0, 0, "#\n"), "");
}

#[test]
fn setext_headers() {
    assert_eq!(render(0, 0, "Title\n=====\n"), "<h1>Title</h1>\n");
    assert_eq!(render(0, 0, "some text\nTitle\n---\nmore\n"),
        "<p>some text</p>\n\n<h2>Title</h2>\n\n<p>more</p>\n");
}

#[test]
fn headers_with_anchors() {
    let doc = Markdown::new("# a\n\n## b\n\n### c\n");
    let mut r = Html::new(Flags::empty(), 2);
    assert_eq!(r.render(&doc).to_str().unwrap(),
        "<h1 id=\"toc_0\">a</h1>\n\n<h2 id=\"toc_1\">b</h2>\n\n<h3>c</h3>\n");
}

#[test]
fn horizontal_rules() {
    assert_eq!(render(0, 0, "***\n\n- - -\n\n___\n"), "<hr>\n\n<hr>\n\n<hr>\n");
    assert_eq!(render(0, html::USE_XHTML, "---\n"), "<hr/>\n");
    assert_eq!(render(0, 0, "**\n"), "<p>**</p>\n");
    assert_eq!(render(0, 0, "* * -\n"), "<ul>\n<li>* -</li>\n</ul>\n");
}

#[test]
fn block_quotes() {
    assert_eq!(render(0, 0, "> a\n> b\n"), "<blockquote>\n<p>a\nb</p>\n</blockquote>\n");
    assert_eq!(render(0, 0, "> a\nlazy\n\nout\n"),
        "<blockquote>\n<p>a\nlazy</p>\n</blockquote>\n\n<p>out</p>\n");
    assert_eq!(render(0, 0, "> > deep\n"),
        "<blockquote>\n<blockquote>\n<p>deep</p>\n</blockquote>\n</blockquote>\n");
}

#[test]
fn tight_and_loose_lists() {
    assert_eq!(render(0, 0, "- a\n- b\n"), "<ul>\n<li>a</li>\n<li>b</li>\n</ul>\n");
    assert_eq!(render(0, 0, "- a\n\n- b\n"),
        "<ul>\n<li><p>a</p></li>\n<li><p>b</p></li>\n</ul>\n");
    assert_eq!(render(0, 0, "1. a\n2. b\n"), "<ol>\n<li>a</li>\n<li>b</li>\n</ol>\n");
}

#[test]
fn nested_lists() {
    assert_eq!(render(0, 0, "- a\n    - b\n    - c\n- d\n"),
        "<ul>\n<li>a\n\n<ul>\n<li>b</li>\n<li>c</li>\n</ul></li>\n<li>d</li>\n</ul>\n");
}

#[test]
fn a_list_of_another_kind_after_a_blank_line_is_a_new_list() {
    assert_eq!(render(0, 0, "- a\n\n1. b\n"),
        "<ul>\n<li><p>a</p></li>\n</ul>\n\n<ol>\n<li>b</li>\n</ol>\n");
}

#[test]
fn indented_code() {
    assert_eq!(render(0, 0, "    a < b\n\n    c\n\ntext\n"),
        "<pre><code>a &lt; b\n\nc\n</code></pre>\n\n<p>text</p>\n");
}

#[test]
fn fenced_code_needs_the_extension() {
    assert_eq!(render(0, 0, "```\ncode\n```\n"), "<p><code>\ncode\n</code></p>\n");
    assert_eq!(render(hoedown::FENCED_CODE, 0, "~~~ rust\nfn f() {}\n~~~\nafter\n"),
        "<pre><code class=\"language-rust\">fn f() {}\n</code></pre>\n\n<p>after</p>\n");
    assert_eq!(render(hoedown::FENCED_CODE, 0, "```\nno end\n"),
        "<pre><code>no end\n</code></pre>\n");
}

#[test]
fn raw_html_blocks() {
    assert_eq!(render(0, 0, "<div>\n*raw*\n</div>\n\ntext\n"), "<div>\n*raw*\n</div>\n\n<p>text</p>\n");
    assert_eq!(render(0, 0, "<!-- note -->\n\ntext\n"), "<!-- note -->\n\n<p>text</p>\n");
    assert_eq!(render(0, 0, "<hr />\n\ntext\n"), "<hr />\n\n<p>text</p>\n");
    assert_eq!(render(0, html::SKIP_HTML, "<div>\nraw\n</div>\n\ntext\n"), "<p>text</p>\n");
    assert_eq!(render(0, html::ESCAPE, "<div>\nraw\n</div>\n\ntext\n"),
        "&lt;div&gt;\nraw\n&lt;/div&gt;\n\n<p>text</p>\n");
}

#[test]
fn emphasis() {
    assert_eq!(render(0, 0, "*a* _b_ **c** __d__ ***e*** ___f___"),
        "<p><em>a</em> <em>b</em> <strong>c</strong> <strong>d</strong> \
         <strong><em>e</em></strong> <strong><em>f</em></strong></p>\n");
    assert_eq!(render(0, 0, "a * b * c"), "<p>a * b * c</p>\n");
    assert_eq!(render(0, 0, "snake_case_name"), "<p>snake<em>case</em>name</p>\n");
    assert_eq!(render(0, 0, "**a *b* c**"), "<p><strong>a <em>b</em> c</strong></p>\n");
    assert_eq!(render(0, 0, "*a **b** c*"), "<p>*a <strong>b</strong> c*</p>\n");
}

#[test]
fn code_spans() {
    assert_eq!(render(0, 0, "`a < b` and `` c ` d `` and `open"),
        "<p><code>a &lt; b</code> and <code>c ` d</code> and `open</p>\n");
    assert_eq!(render(0, 0, "`*a*`"), "<p><code>*a*</code></p>\n");
}

#[test]
fn inline_links() {
    assert_eq!(render(0, 0, "[t](http://x.y \"T\") [u](<a b>) [v]()"),
        "<p><a href=\"http://x.y\" title=\"T\">t</a> <a href=\"a%20b\">u</a> \
         <a href=\"\">v</a></p>\n");
    assert_eq!(render(0, 0, "[a *b*](c&d)"), "<p><a href=\"c&amp;d\">a <em>b</em></a></p>\n");
}

#[test]
fn reference_links() {
    assert_eq!(render(0, 0, "[Foo][bar] [Bar][] [bar]\n\n[BAR]: http://x.y 'T'\n"),
        "<p><a href=\"http://x.y\" title=\"T\">Foo</a> <a href=\"http://x.y\" title=\"T\">Bar</a> \
         <a href=\"http://x.y\" title=\"T\">bar</a></p>\n");
    assert_eq!(render(0, 0, "[Foo][nope] and [nope]"), "<p>[Foo][nope] and [nope]</p>\n");
}

#[test]
fn the_last_definition_of_a_label_wins() {
    assert_eq!(render(0, 0, "[a]\n\n[a]: one\n[A]: two\n"), "<p><a href=\"two\">a</a></p>\n");
}

#[test]
fn images() {
    assert_eq!(render(0, 0, "![alt *x*](i.png \"T\")"),
        "<p><img src=\"i.png\" alt=\"alt *x*\" title=\"T\"></p>\n");
    assert_eq!(render(0, 0, "![a][r]\n\n[r]: i.png\n"), "<p><img src=\"i.png\" alt=\"a\"></p>\n");
    assert_eq!(render(0, 0, "![a]()"), "<p>![a]()</p>\n");
}

#[test]
fn bracketed_addresses() {
    assert_eq!(render(0, 0, "<http://a.b/c?d=e&f> <me@x.yz> <b> </b>"),
        "<p><a href=\"http://a.b/c?d=e&amp;f\">http://a.b/c?d=e&amp;f</a> \
         <a href=\"mailto:me@x.yz\">me@x.yz</a> <b> </b></p>\n");
}

#[test]
fn autolinks_need_the_extension() {
    assert_eq!(render(0, 0, "see http://a.b/c now"), "<p>see http://a.b/c now</p>\n");
    assert_eq!(render(hoedown::AUTOLINK, 0, "see http://a.b/c, www.d.e. and f@g.hi now"),
        "<p>see <a href=\"http://a.b/c\">http://a.b/c</a>, \
         <a href=\"http://www.d.e\">www.d.e</a>. and \
         <a href=\"mailto:f@g.hi\">f@g.hi</a> now</p>\n");
    assert_eq!(render(hoedown::AUTOLINK, 0, "[www.a.b](c)"), "<p><a href=\"c\">www.a.b</a></p>\n");
}

#[test]
fn escapes_and_entities() {
    assert_eq!(render(0, 0, "\\*a\\* \\\\ \\q &amp; &#60; & < >"),
        "<p>*a* \\ \\q &amp; &#60; &amp; &lt; &gt;</p>\n");
}

#[test]
fn line_breaks() {
    assert_eq!(render(0, 0, "a  \nb\nc"), "<p>a<br>\nb\nc</p>\n");
    assert_eq!(render(0, html::USE_XHTML, "a   \nb"), "<p>a<br/>\nb</p>\n");
    assert_eq!(render(0, html::HARD_WRAP, "a\nb\n"), "<p>a<br>\nb</p>\n");
}

#[test]
fn extension_spans() {
    assert_eq!(render(hoedown::STRIKETHROUGH, 0, "~~a~~ ~b~"), "<p><del>a</del> ~b~</p>\n");
    assert_eq!(render(hoedown::HIGHLIGHT, 0, "==a== =b="), "<p><mark>a</mark> =b=</p>\n");
    assert_eq!(render(hoedown::SUPERSCRIPT, 0, "2^10 x^(a b) y"),
        "<p>2<sup>10</sup> x<sup>a b</sup> y</p>\n");
    assert_eq!(render(hoedown::UNDERLINE, 0, "_a_ *b*"), "<p><u>a</u> <em>b</em></p>\n");
    assert_eq!(render(hoedown::QUOTE, 0, "say \"hi *x*\""), "<p>say <q>hi <em>x</em></q></p>\n");
    assert_eq!(render(hoedown::NO_INTRA_EMPHASIS, 0, "a_b_c _d_"), "<p>a_b_c <em>d</em></p>\n");
}

#[test]
fn math() {
    assert_eq!(render(hoedown::MATH, 0, "a $$x<y$$ b $z$\n\n$$w$$\n"),
        "<p>a \\(x&lt;y\\) b $z$</p>\n\n<p>\\[w\\]</p>\n");
    assert_eq!(render(hoedown::MATH | hoedown::MATH_EXPLICIT, 0, "a $x$ $$y$$"),
        "<p>a \\(x\\) \\[y\\]</p>\n");
    assert_eq!(render(hoedown::MATH, 0, "a \\\\(x\\\\) b"), "<p>a \\(x\\) b</p>\n");
}

#[test]
fn tables_with_alignment() {
    assert_eq!(render(hoedown::TABLES, 0, "a | b | c\n:-- | :-: | --:\n1 | 2\n"),
        "<table>\n<thead>\n<tr>\n<th style=\"text-align: left\">a</th>\n\
         <th style=\"text-align: center\">b</th>\n<th style=\"text-align: right\">c</th>\n</tr>\n\
         </thead>\n\n<tbody>\n<tr>\n<td style=\"text-align: left\">1</td>\n\
         <td style=\"text-align: center\">2</td>\n<td style=\"text-align: right\"></td>\n</tr>\n\
         </tbody>\n</table>\n");
    assert_eq!(render(0, 0, "a | b\n--- | ---\n1 | 2\n"), "<p>a | b\n--- | ---\n1 | 2</p>\n");
}

#[test]
fn footnotes_come_in_the_order_of_first_reference() {
    assert_eq!(render(hoedown::FOOTNOTES, 0, "A[^b] B[^a] C[^b]\n\n[^a]: first\n[^b]: second\n"),
        "<p>A<sup id=\"fnref1\"><a href=\"#fn1\" rel=\"footnote\">1</a></sup> \
         B<sup id=\"fnref2\"><a href=\"#fn2\" rel=\"footnote\">2</a></sup> C[^b]</p>\n\n\
         <div class=\"footnotes\">\n<hr>\n<ol>\n\n<li id=\"fn1\">\n\
         <p>second&nbsp;<a href=\"#fnref1\" rev=\"footnote\">&#8617;</a></p>\n</li>\n\n\
         <li id=\"fn2\">\n<p>first&nbsp;<a href=\"#fnref2\" rev=\"footnote\">&#8617;</a></p>\n\
         </li>\n\n</ol>\n</div>\n");
    assert_eq!(render(hoedown::FOOTNOTES, 0, "A[^x]\n"), "<p>A[^x]</p>\n");
    assert_eq!(render(0, 0, "A[^a]\n\n[^a]: first\n"), "<p>A<a href=\"first\">^a</a></p>\n");
}

#[test]
fn tabs_and_line_ends() {
    assert_eq!(render(0, 0, "\tcode\r\n\r\na\tb\rc"), "<pre><code>code\n</code></pre>\n\n<p>a   b\nc</p>\n");
    assert_eq!(render(0, 0, "\u{feff}# t"), "<h1>t</h1>\n");
}

#[test]
fn nesting_beyond_the_limit_is_not_scanned() {
    let doc = Markdown::new("> > text *a*\n").max_nesting(1);
    let mut r = Html::new(Flags::empty(), 0);
    assert_eq!(r.render(&doc).to_str().unwrap(), "<blockquote>\n<blockquote>\n</blockquote>\n</blockquote>\n");
    let doc = Markdown::new("text *a*\n").max_nesting(0);
    assert_eq!(r.render(&doc).to_str().unwrap(), "");
    let doc = Markdown::new("text **a *b* c**\n").max_nesting(2);
    assert_eq!(r.render(&doc).to_str().unwrap(), "<p>text <strong>a *b* c</strong></p>\n");
    let doc = Markdown::new("text **a *b* c**\n").max_nesting(1);
    assert_eq!(r.render(&doc).to_str().unwrap(), "<p>text **a *b* c**</p>\n");
    let doc = Markdown::new("text **a *b* c**\n").max_nesting(3);
    assert_eq!(r.render(&doc).to_str().unwrap(), "<p>text <strong>a <em>b</em> c</strong></p>\n");
}

#[test]
fn empty_input() {
    assert_eq!(render(0, 0, ""), "");
    assert_eq!(render(0, 0, "\n\n  \n"), "");
    assert_eq!(render(hoedown::FOOTNOTES, 0, ""), "");
}

#[test]
fn render_into_a_buffer_that_holds_something() {
    let doc = Markdown::new("a");
    let mut r = Html::new(Flags::empty(), 0);
    let mut out = Buffer::from("x");
    r.render_to(&doc, &mut out);
    assert_eq!(out.to_str().unwrap(), "x\n<p>a</p>\n");
    let mut out = Buffer::from("x");
    r.render_inline_to(&doc, &mut out);
    assert_eq!(out.to_str().unwrap(), "xa");
}

#[test]
fn callbacks_can_be_called_directly() {
    let input = Buffer::from("EMPHASIZE");
    let mut output = Buffer::new(64);
    let mut r = Html::new(Flags::empty(), 0);
    assert!(r.emphasis(&mut output, &input));
    assert_eq!(output.to_str().unwrap(), "<em>EMPHASIZE</em>");
    let empty = Buffer::new(64);
    assert!(!r.emphasis(&mut output, &empty));
    assert!(!r.image(&mut output, &empty, &input, &input));
    assert_eq!(output.to_str().unwrap(), "<em>EMPHASIZE</em>");
    r.header(&mut output, &input, -3);
    assert_eq!(output.to_str().unwrap(), "<em>EMPHASIZE</em>\n<h-3 id=\"toc_0\">EMPHASIZE</h-3>\n");
}

#[test]
fn table_of_contents_levels() {
    let doc = Markdown::new("## a\n\n#### b\n\n# c\n\n### d\n");
    let mut toc = Html::toc(3);
    assert_eq!(toc.render(&doc).to_str().unwrap(),
        "<ul>\n<li>\n<a href=\"#toc_0\">a</a>\n</li>\n<li>\n\
         <a href=\"#toc_1\">c</a>\n<ul>\n<li>\n<a href=\"#toc_2\">d</a>\n</li>\n</ul>\n\
         </li>\n</ul>\n");
    let again = Markdown::new("# x\n");
    assert_eq!(toc.render(&again).to_str().unwrap(),
        "<ul>\n<li>\n<a href=\"#toc_0\">x</a>\n</li>\n</ul>\n");
}

#[test]
fn table_of_contents_of_inline_content_and_formatting() {
    let doc = Markdown::new("# a *b* `c` [d](e) <i>\n\ntext\n");
    let mut toc = Html::toc(6);
    assert_eq!(toc.render(&doc).to_str().unwrap(),
        "<ul>\n<li>\n<a href=\"#toc_0\">a <em>b</em> <code>c</code> d <i></a>\n</li>\n</ul>\n");
}

fn count(text: &str, tag: &str) -> usize {
    text.matches(tag).count()
}

#[test]
fn table_of_contents_is_balanced() {
    let inputs = [
        "### a\n\n# b\n",
        "## a\n\n#### b\n\n# c\n\n### d\n",
        "###### a\n\n##### b\n\n#### c\n\n### d\n\n## e\n\n# f\n",
        "# a\n\n###### b\n\n## c\n\n###### d\n\n# e\n",
        "no header\n",
        "",
    ];
    for input in inputs {
        for nesting in [0, 1, 3, 6] {
            let mut toc = Html::toc(nesting);
            let out = String::from(toc.render(&Markdown::new(input)).to_str().unwrap());
            assert_eq!(count(&out, "<ul>"), count(&out, "</ul>"));
            assert_eq!(count(&out, "<li>"), count(&out, "</li>"));
        }
    }
    let mut toc = Html::toc(6);
    assert_eq!(toc.render(&Markdown::new("### a\n\n# b\n")).to_str().unwrap(),
        "<ul>\n<li>\n<a href=\"#toc_0\">a</a>\n</li>\n<li>\n<a href=\"#toc_1\">b</a>\n\
         </li>\n</ul>\n");
    assert_eq!(toc.render(&Markdown::new("no header\n")).to_str().unwrap(), "");
}

#[test]
fn a_backslash_escapes_ascii_punctuation() {
    let doc = Markdown::new("a\\,b\\;c\\?d\\@e\\/f\\%g\\#h\\*i\\_j\\~k\\.l\\!m");
    let mut r = Html::new(Flags::empty(), 0);
    assert_eq!(r.render(&doc).to_str().unwrap(), "<p>a,b;c?d@e/f%g#h*i_j~k.l!m</p>\n");
    let quotes = Markdown::new("it\\'s \\\"so\\\" \\<b\\> \\&");
    assert_eq!(r.render(&quotes).to_str().unwrap(),
        "<p>it&#39;s &quot;so&quot; &lt;b&gt; &amp;</p>\n");
}

#[test]
fn a_backslash_before_another_byte_stays() {
    let doc = Markdown::new("a\\b \\1 \\ c\\");
    let mut r = Html::new(Flags::empty(), 0);
    assert_eq!(r.render(&doc).to_str().unwrap(), "<p>a\\b \\1 \\ c\\</p>\n");
}
