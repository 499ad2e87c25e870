use hoedown::document::Document;
use hoedown::renderer::list::List;
use hoedown::renderer::AutoLink;
use hoedown::tree::{Block, Span, SpanKind};
use hoedown::{Buffer, Extension, Markdown, Render, Renderer, Trace};

struct Silent;

impl Render for Silent {}

struct Inline;

impl Render for Inline {
    fn paragraph(&mut self, ob: &mut Buffer, content: &Buffer) {
        ob.put(b"[");
        ob.pipe(content);
        ob.put(b"]");
    }

    fn header(&mut self, ob: &mut Buffer, content: &Buffer, _level: i32) {
        ob.put(b"{");
        ob.pipe(content);
        ob.put(b"}");
    }
}

struct Calls {
    log: Vec<String>,
}

impl Render for Calls {
    fn paragraph(&mut self, ob: &mut Buffer, content: &Buffer) {
        self.log.push(format!("paragraph({})", content.to_str().unwrap()));
        ob.pipe(content);
    }

    fn list(&mut self, ob: &mut Buffer, content: &Buffer, flags: List) {
        self.log.push(format!("list({})", flags.bits()));
        ob.pipe(content);
    }

    fn list_item(&mut self, ob: &mut Buffer, content: &Buffer, flags: List) {
        self.log.push(format!("list_item({:?},{})", content.to_str().unwrap(), flags.bits()));
        ob.pipe(content);
    }

    fn emphasis(&mut self, ob: &mut Buffer, content: &Buffer) -> bool {
        self.log.push(format!("emphasis({})", content.to_str().unwrap()));
        ob.pipe(content);
        true
    }

    fn normal_text(&mut self, ob: &mut Buffer, text: &Buffer) {
        self.log.push(format!("normal_text({:?})", text.to_str().unwrap()));
        ob.pipe(text);
    }

    fn autolink(&mut self, ob: &mut Buffer, link: &Buffer, kind: AutoLink) -> bool {
        self.log.push(format!("autolink({},{:?})", link.to_str().unwrap(), kind));
        ob.pipe(link);
        true
    }

    fn before_render(&mut self, _ob: &mut Buffer, inline_render: bool) {
        self.log.push(format!("before_render({})", inline_render));
    }

    fn after_render(&mut self, _ob: &mut Buffer, inline_render: bool) {
        self.log.push(format!("after_render({})", inline_render));
    }
}

fn with<R: Render>(mut r: R, ext: u32, input: &str) -> String {
    let doc = Markdown::new(input).extensions(Extension::of(ext));
    String::from(r.render(&doc).to_str().unwrap())
}

#[test]
fn blocks_without_a_handler_are_dropped() {
    assert_eq!(with(Silent, 0, "# h\n\ntext *a*\n\n- l\n\n> q\n\n    c\n\n---\n"), "");
}

#[test]
fn spans_without_a_handler_go_out_as_markdown() {
    assert_eq!(
        with(Inline, hoedown::STRIKETHROUGH | hoedown::AUTOLINK,
            "a *b* **c** `d` [e](f \"g\") ![h](i) <j> ~~k~~ http://l.mn  \nx &amp; y"),
        "[a *b* **c** `d` [e](f \"g\") ![h](i) <j> ~~k~~ http://l.mn\nx &amp; y]"
    );
}

#[test]
fn render_inline_looks_for_no_block() {
    let doc = Markdown::new("# not a header\n\n- not a list");
    let mut r = Inline;
    assert_eq!(r.render_inline(&doc).to_str().unwrap(), "# not a header\n\n- not a list");
    assert_eq!(r.render(&doc).to_str().unwrap(), "{not a header}");
}

#[test]
fn render_to_appends() {
    let doc = Markdown::new("a");
    let mut r = Inline;
    let mut out = Buffer::from(">");
    r.render_to(&doc, &mut out);
    r.render_inline_to(&doc, &mut out);
    assert_eq!(out.to_str().unwrap(), ">[a]a");
}

#[test]
fn trace_marks_the_blocks() {
    assert_eq!(with(Trace, 0, "text\n"), "MISSING PARAGRAPH HANDLER\n");
    assert_eq!(with(Trace, 0, "# h\n\n---\n"), "MISSING HEADER HANDLER\nMISSING HORIZONTAL_RULE HANDLER\n");
    assert_eq!(with(Trace, 0, "- a\n"), "MISSING LIST HANDLER\n");
    assert_eq!(with(Trace, hoedown::TABLES, "a|b\n-|-\n"), "MISSING PARAGRAPH HANDLER\n");
    assert_eq!(with(Trace, hoedown::TABLES, "a|b\n---|---\n"), "MISSING TABLE HANDLER\n");
}

#[test]
fn callbacks_run_in_document_order() {
    let mut r = Calls { log: Vec::new() };
    let doc = Markdown::new("a *b*\n\n- c\n- d\n");
    let out = r.render(&doc);
    assert_eq!(out.to_str().unwrap(), "a bc\nd\n");
    assert_eq!(r.log, vec![
        "before_render(false)",
        "normal_text(\"a \")",
        "normal_text(\"b\")",
        "emphasis(b)",
        "paragraph(a b)",
        "normal_text(\"c\")",
        "normal_text(\"\\n\")",
        "list_item(\"c\\n\",0)",
        "normal_text(\"d\")",
        "normal_text(\"\\n\")",
        "list_item(\"d\\n\",0)",
        "list(0)",
        "after_render(false)",
    ]);
}

#[test]
fn inline_render_says_so() {
    let mut r = Calls { log: Vec::new() };
    let doc = Markdown::new("x");
    r.render_inline(&doc);
    assert_eq!(r.log, vec!["before_render(true)", "normal_text(\"x\")", "after_render(true)"]);
}

#[test]
fn an_address_takes_its_scheme_off_the_text_before_it() {
    let mut r = Calls { log: Vec::new() };
    let doc = Markdown::new("go http://a.bc").extensions(Extension::of(hoedown::AUTOLINK));
    let out = r.render(&doc);
    assert_eq!(out.to_str().unwrap(), "go http://a.bc");
    assert_eq!(r.log[1], "normal_text(\"go \")");
    assert_eq!(r.log[2], "autolink(http://a.bc,Normal)");
}

#[test]
fn parse_gives_the_constructs() {
    let doc = Document::new(Extension::empty(), 16);
    let tree = doc.parse(b"# h\n\na *b*\n");
    assert_eq!(tree.blocks.len(), 2);
    assert_eq!(tree.footnotes.len(), 0);
    match &tree.blocks[0] {
        Block::Header { content, level } => {
            assert_eq!(*level, 1);
            assert_eq!(content.len(), 1);
            assert!(matches!(&content[0], Span::Text { text } if text == b"h"));
        }
        _ => panic!("no header"),
    }
    match &tree.blocks[1] {
        Block::Paragraph { content } => {
            assert_eq!(content.len(), 2);
            assert!(matches!(&content[0], Span::Text { text } if text == b"a "));
            match &content[1] {
                Span::Wrapped { kind, content, source } => {
                    assert_eq!(*kind, SpanKind::Emphasis);
                    assert_eq!(source, b"*b*");
                    assert!(matches!(&content[0], Span::Text { text } if text == b"b"));
                }
                _ => panic!("no emphasis"),
            }
        }
        _ => panic!("no paragraph"),
    }
    let spans = doc.parse_inline(b"# h");
    assert_eq!(spans.len(), 1);
    assert!(matches!(&spans[0], Span::Text { text } if text == b"# h"));
}

#[test]
fn markdown_builders() {
    let m = Markdown::new("abc");
    assert_eq!(m.contents.as_slice(), b"abc");
    assert!(m.extensions.is_empty());
    assert_eq!(m.max_nesting, 16);
    let m = m.extensions(Extension::of(hoedown::MATH)).max_nesting(3);
    assert_eq!(m.contents.as_slice(), b"abc");
    assert_eq!(m.extensions.bits(), hoedown::MATH);
    assert_eq!(m.max_nesting, 3);
    let n = Markdown::from(Buffer::from("x"));
    assert_eq!(n.contents.as_slice(), b"x");
    assert_eq!(n.max_nesting, 16);
    let o = Markdown::from(&b"\xff"[..]);
    assert_eq!(o.contents.as_slice(), b"\xff");
    assert!(o.extensions.is_empty());
}

struct Defaults;

impl Render for Defaults {}

#[test]
fn default_span_callbacks_handle_nothing() {
    let content = Buffer::from("content");
    let mut ob = Buffer::from("before");
    let mut r = Defaults;
    assert!(!r.emphasis(&mut ob, &content));
    assert!(!r.double_emphasis(&mut ob, &content));
    assert!(!r.triple_emphasis(&mut ob, &content));
    assert!(!r.underline(&mut ob, &content));
    assert!(!r.highlight(&mut ob, &content));
    assert!(!r.strikethrough(&mut ob, &content));
    assert!(!r.superscript(&mut ob, &content));
    assert!(!r.quote_span(&mut ob, &content));
    assert!(!r.code_span(&mut ob, &content));
    assert!(!r.html_span(&mut ob, &content));
    assert!(!r.line_break(&mut ob));
    assert!(!r.autolink(&mut ob, &content, AutoLink::Normal));
    assert!(!r.image(&mut ob, &content, &content, &content));
    assert!(!r.link(&mut ob, &content, &content, &content));
    assert!(!r.footnote_reference(&mut ob, 1));
    assert!(!r.math(&mut ob, &content, 0));
    assert_eq!(ob.to_str().unwrap(), "before");
}

#[test]
fn default_text_callbacks_copy_the_text() {
    let mut ob = Buffer::from("before ");
    let mut r = Defaults;
    r.normal_text(&mut ob, &Buffer::from("text "));
    r.entity(&mut ob, &Buffer::from("&amp;"));
    assert_eq!(ob.to_str().unwrap(), "before text &amp;");
}

#[test]
fn verbatim_spans_go_out_as_they_are() {
    let spans = vec![
        Span::Verbatim { text: b"*".to_vec() },
        Span::Verbatim { text: b"".to_vec() },
        Span::Verbatim { text: b"<b>".to_vec() },
    ];
    let mut ob = Buffer::from("before ");
    hoedown::replay::render_spans(&mut Trace, &mut ob, &spans);
    assert_eq!(ob.to_str().unwrap(), "before *<b>");
    hoedown::replay::render_span(&mut Trace, &mut ob, &spans[0]);
    assert_eq!(ob.to_str().unwrap(), "before *<b>*");
}

#[test]
fn nothing_is_replayed_without_content() {
    let mut ob = Buffer::from("before");
    hoedown::replay::render_spans(&mut Trace, &mut ob, &Vec::new());
    hoedown::replay::render_blocks(&mut Trace, &mut ob, &Vec::new());
    hoedown::replay::render_rows(&mut Trace, &mut ob, &Vec::new());
    hoedown::replay::render_footnotes(&mut Trace, &mut ob, &Vec::new());
    assert_eq!(ob.to_str().unwrap(), "before");
}

#[test]
fn unhandled_spans_fall_back_to_their_markdown() {
    let doc = Markdown::new("*a* **b** `c` [d](e) ![f](g) <h>")
        .extensions(Extension::of(hoedown::AUTOLINK));
    let mut r = Defaults;
    assert_eq!(
        r.render_inline(&doc).to_str().unwrap(),
        "*a* **b** `c` [d](e) ![f](g) <h>"
    );
}

#[test]
fn default_block_callbacks_write_nothing() {
    let content = Buffer::from("content");
    let mut ob = Buffer::from("before");
    let mut r = Defaults;
    r.code_block(&mut ob, &content, &content);
    r.quote_block(&mut ob, &content);
    r.header(&mut ob, &content, 1);
    r.horizontal_rule(&mut ob);
    r.list(&mut ob, &content, List::empty());
    r.list_item(&mut ob, &content, List::empty());
    r.paragraph(&mut ob, &content);
    r.table(&mut ob, &content);
    r.table_header(&mut ob, &content);
    r.table_body(&mut ob, &content);
    r.table_row(&mut ob, &content);
    r.table_cell(&mut ob, &content, hoedown::renderer::TableFlags::of(0, false));
    r.footnotes(&mut ob, &content);
    r.footnote_definition(&mut ob, &content, 1);
    r.html_block(&mut ob, &content);
    r.before_render(&mut ob, false);
    r.after_render(&mut ob, false);
    assert_eq!(ob.to_str().unwrap(), "before");
    assert_eq!(r.render(&Markdown::new("# a\n\ntext\n\n- item\n")).to_str().unwrap(), "");
}

#[test]
fn a_cloned_document_renders_alike() {
    let doc = Markdown::new("some _emphasis_").extensions(Extension::of(hoedown::UNDERLINE));
    let copy = doc.clone();
    let mut r = hoedown::Html::new(hoedown::renderer::html::Flags::empty(), 0);
    let first = String::from(r.render(&doc).to_str().unwrap());
    assert_eq!(r.render(&copy).to_str().unwrap(), first);
    assert_eq!(first, "<p>some <u>emphasis</u></p>\n");
}
