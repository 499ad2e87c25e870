//! What the HTML renderer makes of a parsed document.

use vstd::prelude::*;
use vstd::string::StringSliceAdditionalSpecFns;
use crate::buffer::Buffer;
use crate::document::{spec_document, spec_document_inline, Document};
use crate::escape::html_escaped;
use crate::markdown::Markdown;
use crate::renderer::html::{opened, tagged, Html, HtmlState};
use crate::renderer::list::ORDERED;
use crate::renderer::Render;
use crate::replay::buffer_of;
use crate::tree::{
    block_model, blocks_model, cells_model, footnotes_model, rows_model, span_model, spans_model,
    Block, BlockModel, Cell, CellModel, Footnote, FootnoteModel, Row, RowModel, Span, SpanKind,
    SpanModel, TreeModel,
};

verus! {

/// The tag that opens a span of the given kind.
pub open spec fn open_tag(kind: SpanKind) -> Seq<u8> {
    match kind {
        SpanKind::Emphasis => "<em>".spec_bytes(),
        SpanKind::DoubleEmphasis => "<strong>".spec_bytes(),
        SpanKind::TripleEmphasis => "<strong><em>".spec_bytes(),
        SpanKind::Underline => "<u>".spec_bytes(),
        SpanKind::Highlight => "<mark>".spec_bytes(),
        SpanKind::Strikethrough => "<del>".spec_bytes(),
        SpanKind::Superscript => "<sup>".spec_bytes(),
        SpanKind::Quote => "<q>".spec_bytes(),
    }
}

/// The tag that closes a span of the given kind.
pub open spec fn close_tag(kind: SpanKind) -> Seq<u8> {
    match kind {
        SpanKind::Emphasis => "</em>".spec_bytes(),
        SpanKind::DoubleEmphasis => "</strong>".spec_bytes(),
        SpanKind::TripleEmphasis => "</em></strong>".spec_bytes(),
        SpanKind::Underline => "</u>".spec_bytes(),
        SpanKind::Highlight => "</mark>".spec_bytes(),
        SpanKind::Strikethrough => "</del>".spec_bytes(),
        SpanKind::Superscript => "</sup>".spec_bytes(),
        SpanKind::Quote => "</q>".spec_bytes(),
    }
}

/// What the HTML renderer makes of a span: `ob` with the span after it.
/// A span that the renderer does not handle goes out as it stands in the
/// markdown.
pub open spec fn html_span(h: HtmlState, ob: Seq<u8>, s: SpanModel) -> Seq<u8>
    decreases s, 0nat,
{
    match s {
        SpanModel::Text { text } => ob + html_escaped(text),
        SpanModel::Verbatim { text } => ob + text,
        SpanModel::Entity { text } => ob + text,
        SpanModel::Wrapped { kind, content, source } => {
            let c = html_spans(h, Seq::empty(), content);
            if c.len() > 0 {
                ob + (open_tag(kind) + c + close_tag(kind))
            } else {
                ob + source
            }
        },
        SpanModel::CodeSpan { text, source } => ob + "<code>".spec_bytes() + html_escaped(text)
            + "</code>".spec_bytes(),
        SpanModel::Math { text, display, source } => if h.toc {
            ob + source
        } else {
            h.math(ob, text, if display {
                1
            } else {
                0
            })
        },
        SpanModel::HtmlSpan { text } => if h.toc {
            ob + text
        } else {
            h.html_span(ob, text)
        },
        SpanModel::LineBreak { source } => if h.toc {
            ob + source
        } else {
            ob + h.br()
        },
        SpanModel::Link { content, link, title, source } => h.link(
            ob,
            html_spans(h, Seq::empty(), content),
            link,
            title,
        ),
        SpanModel::Image { link, title, alt, source } => if h.toc || link.len() == 0 {
            ob + source
        } else {
            h.image(ob, link, title, alt)
        },
        SpanModel::Auto { link, kind, source } => if h.toc || link.len() == 0 {
            ob + source
        } else {
            h.autolink(ob, link, kind)
        },
        SpanModel::FootnoteRef { num, source } => if h.toc {
            ob + source
        } else {
            h.footnote_reference(ob, num)
        },
    }
}

/// What the HTML renderer makes of spans: `ob` with the spans after it.
pub open spec fn html_spans(h: HtmlState, ob: Seq<u8>, v: Seq<SpanModel>) -> Seq<u8>
    decreases v, 1nat,
{
    if v.len() == 0 {
        ob
    } else {
        html_span(h, html_spans(h, ob, v.drop_last()), v.last())
    }
}

/// What the HTML renderer makes of the cells of a table row.
pub open spec fn html_cells(h: HtmlState, ob: Seq<u8>, v: Seq<CellModel>) -> Seq<u8>
    decreases v.len(),
{
    if v.len() == 0 {
        ob
    } else {
        h.table_cell(
            html_cells(h, ob, v.drop_last()),
            html_spans(h, Seq::empty(), v.last().content),
            v.last().flags,
        )
    }
}

/// What the HTML renderer makes of the rows of a table.
pub open spec fn html_rows(h: HtmlState, ob: Seq<u8>, v: Seq<RowModel>) -> Seq<u8>
    decreases v.len(),
{
    if v.len() == 0 {
        ob
    } else {
        let before = html_rows(h, ob, v.drop_last());
        let row = html_cells(h, Seq::empty(), v.last().cells);
        if h.toc {
            before
        } else {
            before + tagged("<tr>\n", row, "</tr>\n")
        }
    }
}

/// What the HTML renderer makes of a block: its state after the block,
/// and `ob` with the block after it.
pub open spec fn html_block(h: HtmlState, ob: Seq<u8>, b: BlockModel) -> (HtmlState, Seq<u8>)
    decreases b, 0nat,
{
    match b {
        BlockModel::Paragraph { content } => (
            h,
            h.paragraph(ob, html_spans(h, Seq::empty(), content)),
        ),
        BlockModel::Header { content, level } => h.header(
            ob,
            html_spans(h, Seq::empty(), content),
            level,
        ),
        BlockModel::HorizontalRule => (
            h,
            if h.toc {
                ob
            } else {
                opened(ob) + h.hr()
            },
        ),
        BlockModel::QuoteBlock { content } => {
            let r = html_blocks(h, Seq::empty(), content);
            (r.0, r.0.block(ob, "<blockquote>\n", r.1, "</blockquote>\n"))
        },
        BlockModel::CodeBlock { text, lang } => (h, h.code_block(ob, text, lang)),
        BlockModel::HtmlBlock { text } => (h, h.html_block(ob, text)),
        BlockModel::List { items, flags } => {
            let r = html_blocks(h, Seq::empty(), items);
            (
                r.0,
                if flags.on(ORDERED) {
                    r.0.block(ob, "<ol>\n", r.1, "</ol>\n")
                } else {
                    r.0.block(ob, "<ul>\n", r.1, "</ul>\n")
                },
            )
        },
        BlockModel::ListItem { spans, blocks, flags } => {
            let r = html_blocks(h, html_spans(h, Seq::empty(), spans), blocks);
            (r.0, r.0.list_item(ob, r.1))
        },
        BlockModel::Table { header, body } => {
            let head = h.block(
                Seq::empty(),
                "<thead>\n",
                html_rows(h, Seq::empty(), header),
                "</thead>\n",
            );
            let work = h.block(head, "<tbody>\n", html_rows(h, Seq::empty(), body), "</tbody>\n");
            (h, h.block(ob, "<table>\n", work, "</table>\n"))
        },
    }
}

/// What the HTML renderer makes of blocks.
pub open spec fn html_blocks(h: HtmlState, ob: Seq<u8>, v: Seq<BlockModel>) -> (HtmlState, Seq<u8>)
    decreases v, 1nat,
{
    if v.len() == 0 {
        (h, ob)
    } else {
        let r = html_blocks(h, ob, v.drop_last());
        html_block(r.0, r.1, v.last())
    }
}

/// What the HTML renderer makes of footnote definitions.
pub open spec fn html_notes(h: HtmlState, ob: Seq<u8>, v: Seq<FootnoteModel>) -> (HtmlState, Seq<u8>)
    decreases v.len(),
{
    if v.len() == 0 {
        (h, ob)
    } else {
        let r = html_notes(h, ob, v.drop_last());
        let c = html_blocks(r.0, Seq::empty(), v.last().content);
        (c.0, c.0.footnote_definition(r.1, c.1, v.last().num))
    }
}

/// What the HTML renderer makes of the footnotes of a document.
pub open spec fn html_footnotes(h: HtmlState, ob: Seq<u8>, v: Seq<FootnoteModel>) -> (
    HtmlState,
    Seq<u8>,
) {
    let r = html_notes(h, Seq::empty(), v);
    if v.len() == 0 {
        (h, ob)
    } else {
        (r.0, r.0.footnotes(ob, r.1))
    }
}

/// What the HTML renderer makes of a document: the blocks, the footnotes,
/// and what the end of a render gives.
pub open spec fn html_document(h: HtmlState, ob: Seq<u8>, tree: TreeModel) -> (HtmlState, Seq<u8>) {
    let b = html_blocks(h, ob, tree.blocks);
    let f = html_footnotes(b.0, b.1, tree.footnotes);
    f.0.after_render(f.1, false)
}

/// What the HTML renderer makes of inline content.
pub open spec fn html_inline(h: HtmlState, ob: Seq<u8>, spans: Seq<SpanModel>) -> (HtmlState, Seq<u8>) {
    h.after_render(html_spans(h, ob, spans), true)
}

/// Renders a span with the HTML renderer.
pub fn render_html_span(h: &mut Html, ob: &mut Buffer, span: &Span)
    ensures
        final(h)@ == old(h)@,
        final(ob)@ == html_span(old(h)@, old(ob)@, span_model(*span)),
        final(ob).spec_unit() == old(ob).spec_unit(),
        old(ob).wf() ==> final(ob).wf(),
    decreases span, 0nat,
{
    match span {
        Span::Text { text } => {
            let t = buffer_of(text);
            h.normal_text(ob, &t);
        },
        Span::Verbatim { text } => {
            ob.put(text.as_slice());
        },
        Span::Entity { text } => {
            let t = buffer_of(text);
            h.entity(ob, &t);
        },
        Span::Wrapped { kind, content, source } => {
            let mut work = Buffer::new(64);
            render_html_spans(h, &mut work, content);
            let handled: bool = match kind {
                SpanKind::Emphasis => h.emphasis(ob, &work),
                SpanKind::DoubleEmphasis => h.double_emphasis(ob, &work),
                SpanKind::TripleEmphasis => h.triple_emphasis(ob, &work),
                SpanKind::Underline => h.underline(ob, &work),
                SpanKind::Highlight => h.highlight(ob, &work),
                SpanKind::Strikethrough => h.strikethrough(ob, &work),
                SpanKind::Superscript => h.superscript(ob, &work),
                SpanKind::Quote => h.quote_span(ob, &work),
            };
            if !handled {
                ob.put(source.as_slice());
            }
        },
        Span::CodeSpan { text, source } => {
            let t = buffer_of(text);
            if !h.code_span(ob, &t) {
                ob.put(source.as_slice());
            }
        },
        Span::Math { text, display, source } => {
            let t = buffer_of(text);
            let mode: i32 = if *display {
                1
            } else {
                0
            };
            if !h.math(ob, &t, mode) {
                ob.put(source.as_slice());
            }
        },
        Span::HtmlSpan { text } => {
            let t = buffer_of(text);
            if !h.html_span(ob, &t) {
                ob.put(text.as_slice());
            }
        },
        Span::LineBreak { source } => {
            if !h.line_break(ob) {
                ob.put(source.as_slice());
            }
        },
        Span::Link { content, link, title, source } => {
            let mut work = Buffer::new(64);
            render_html_spans(h, &mut work, content);
            let l = buffer_of(link);
            let t = buffer_of(title);
            if !h.link(ob, &work, &l, &t) {
                ob.put(source.as_slice());
            }
        },
        Span::Image { link, title, alt, source } => {
            let l = buffer_of(link);
            let t = buffer_of(title);
            let a = buffer_of(alt);
            if !h.image(ob, &l, &t, &a) {
                ob.put(source.as_slice());
            }
        },
        Span::Auto { link, kind, source } => {
            let l = buffer_of(link);
            if !h.autolink(ob, &l, *kind) {
                ob.put(source.as_slice());
            }
        },
        Span::FootnoteRef { num, source } => {
            if !h.footnote_reference(ob, *num) {
                ob.put(source.as_slice());
            }
        },
    }
}

/// Renders spans with the HTML renderer.
pub fn render_html_spans(h: &mut Html, ob: &mut Buffer, spans: &Vec<Span>)
    ensures
        final(h)@ == old(h)@,
        final(ob)@ == html_spans(old(h)@, old(ob)@, spans_model(spans@)),
        final(ob).spec_unit() == old(ob).spec_unit(),
        old(ob).wf() ==> final(ob).wf(),
    decreases spans, 1nat,
{
    let mut i: usize = 0;
    assert(spans@.subrange(0, 0) =~= Seq::<Span>::empty());
    while i < spans.len()
        invariant
            ob.spec_unit() == old(ob).spec_unit(),
            old(ob).wf() ==> ob.wf(),
            i <= spans.len(),
            h@ == old(h)@,
            ob@ == html_spans(old(h)@, old(ob)@, spans_model(spans@.subrange(0, i as int))),
        decreases spans.len() - i,
    {
        proof {
            let next = spans@.subrange(0, i + 1);
            assert(next.drop_last() =~= spans@.subrange(0, i as int));
            assert(next.last() == spans@[i as int]);
            assert(spans_model(next).drop_last() =~= spans_model(spans@.subrange(0, i as int)));
        }
        render_html_span(h, ob, &spans[i]);
        i += 1;
    }
    assert(spans@.subrange(0, spans@.len() as int) =~= spans@);
}


/// Renders the rows of a table with the HTML renderer.
pub fn render_html_rows(h: &mut Html, ob: &mut Buffer, rows: &Vec<Row>)
    ensures
        final(h)@ == old(h)@,
        final(ob)@ == html_rows(old(h)@, old(ob)@, rows_model(rows@)),
        final(ob).spec_unit() == old(ob).spec_unit(),
        old(ob).wf() ==> final(ob).wf(),
{
    let mut i: usize = 0;
    assert(rows@.subrange(0, 0) =~= Seq::<Row>::empty());
    while i < rows.len()
        invariant
            ob.spec_unit() == old(ob).spec_unit(),
            old(ob).wf() ==> ob.wf(),
            i <= rows.len(),
            h@ == old(h)@,
            ob@ == html_rows(old(h)@, old(ob)@, rows_model(rows@.subrange(0, i as int))),
        decreases rows.len() - i,
    {
        let row = &rows[i];
        let mut row_work = Buffer::new(64);
        let mut k: usize = 0;
        assert(row.cells@.subrange(0, 0) =~= Seq::<Cell>::empty());
        while k < row.cells.len()
            invariant
                ob.spec_unit() == old(ob).spec_unit(),
                old(ob).wf() ==> ob.wf(),
                k <= row.cells.len(),
                h@ == old(h)@,
                row_work@ == html_cells(
                    old(h)@,
                    Seq::empty(),
                    cells_model(row.cells@.subrange(0, k as int)),
                ),
            decreases row.cells.len() - k,
        {
            proof {
                let next = row.cells@.subrange(0, k + 1);
                assert(next.drop_last() =~= row.cells@.subrange(0, k as int));
                assert(next.last() == row.cells@[k as int]);
                assert(cells_model(next).drop_last() =~= cells_model(
                    row.cells@.subrange(0, k as int),
                ));
            }
            let cell = &row.cells[k];
            let mut cell_work = Buffer::new(64);
            render_html_spans(h, &mut cell_work, &cell.content);
            h.table_cell(&mut row_work, &cell_work, cell.flags);
            k += 1;
        }
        proof {
            assert(row.cells@.subrange(0, row.cells@.len() as int) =~= row.cells@);
            let next = rows@.subrange(0, i + 1);
            assert(next.drop_last() =~= rows@.subrange(0, i as int));
            assert(next.last() == rows@[i as int]);
            assert(rows_model(next).drop_last() =~= rows_model(rows@.subrange(0, i as int)));
        }
        h.table_row(ob, &row_work);
        i += 1;
    }
    assert(rows@.subrange(0, rows@.len() as int) =~= rows@);
}

/// Renders a block with the HTML renderer.
pub fn render_html_block(h: &mut Html, ob: &mut Buffer, block: &Block)
    ensures
        (final(h)@, final(ob)@) == html_block(old(h)@, old(ob)@, block_model(*block)),
        final(ob).spec_unit() == old(ob).spec_unit(),
        old(ob).wf() ==> final(ob).wf(),
    decreases block, 0nat,
{
    match block {
        Block::Paragraph { content } => {
            let mut work = Buffer::new(64);
            render_html_spans(h, &mut work, content);
            h.paragraph(ob, &work);
        },
        Block::Header { content, level } => {
            let mut work = Buffer::new(64);
            render_html_spans(h, &mut work, content);
            h.header(ob, &work, *level);
        },
        Block::HorizontalRule => {
            h.horizontal_rule(ob);
        },
        Block::QuoteBlock { content } => {
            let mut work = Buffer::new(64);
            render_html_blocks(h, &mut work, content);
            h.quote_block(ob, &work);
        },
        Block::CodeBlock { text, lang } => {
            let t = buffer_of(text);
            let l = buffer_of(lang);
            h.code_block(ob, &t, &l);
        },
        Block::HtmlBlock { text } => {
            let t = buffer_of(text);
            h.html_block(ob, &t);
        },
        Block::List { items, flags } => {
            let mut work = Buffer::new(64);
            render_html_blocks(h, &mut work, items);
            h.list(ob, &work, *flags);
        },
        Block::ListItem { spans, blocks, flags } => {
            let mut work = Buffer::new(64);
            render_html_spans(h, &mut work, spans);
            render_html_blocks(h, &mut work, blocks);
            h.list_item(ob, &work, *flags);
        },
        Block::Table { header, body } => {
            let mut work = Buffer::new(64);
            let mut header_work = Buffer::new(64);
            render_html_rows(h, &mut header_work, header);
            let mut body_work = Buffer::new(64);
            render_html_rows(h, &mut body_work, body);
            h.table_header(&mut work, &header_work);
            h.table_body(&mut work, &body_work);
            h.table(ob, &work);
        },
    }
}

/// Renders blocks with the HTML renderer.
pub fn render_html_blocks(h: &mut Html, ob: &mut Buffer, blocks: &Vec<Block>)
    ensures
        (final(h)@, final(ob)@) == html_blocks(old(h)@, old(ob)@, blocks_model(blocks@)),
        final(ob).spec_unit() == old(ob).spec_unit(),
        old(ob).wf() ==> final(ob).wf(),
    decreases blocks, 1nat,
{
    let mut i: usize = 0;
    assert(blocks@.subrange(0, 0) =~= Seq::<Block>::empty());
    while i < blocks.len()
        invariant
            ob.spec_unit() == old(ob).spec_unit(),
            old(ob).wf() ==> ob.wf(),
            i <= blocks.len(),
            (h@, ob@) == html_blocks(
                old(h)@,
                old(ob)@,
                blocks_model(blocks@.subrange(0, i as int)),
            ),
        decreases blocks.len() - i,
    {
        proof {
            let next = blocks@.subrange(0, i + 1);
            assert(next.drop_last() =~= blocks@.subrange(0, i as int));
            assert(next.last() == blocks@[i as int]);
            assert(blocks_model(next).drop_last() =~= blocks_model(
                blocks@.subrange(0, i as int),
            ));
        }
        render_html_block(h, ob, &blocks[i]);
        i += 1;
    }
    assert(blocks@.subrange(0, blocks@.len() as int) =~= blocks@);
}

/// Renders the footnotes of a document with the HTML renderer.
pub fn render_html_footnotes(h: &mut Html, ob: &mut Buffer, notes: &Vec<Footnote>)
    ensures
        (final(h)@, final(ob)@) == html_footnotes(old(h)@, old(ob)@, footnotes_model(notes@)),
        final(ob).spec_unit() == old(ob).spec_unit(),
        old(ob).wf() ==> final(ob).wf(),
{
    if notes.len() == 0 {
        assert(footnotes_model(notes@) =~= Seq::<FootnoteModel>::empty());
        return ;
    }
    let mut work = Buffer::new(64);
    let mut i: usize = 0;
    assert(notes@.subrange(0, 0) =~= Seq::<Footnote>::empty());
    while i < notes.len()
        invariant
            ob.spec_unit() == old(ob).spec_unit(),
            old(ob).wf() ==> ob.wf(),
            i <= notes.len(),
            *ob == *old(ob),
            (h@, work@) == html_notes(
                old(h)@,
                Seq::empty(),
                footnotes_model(notes@.subrange(0, i as int)),
            ),
        decreases notes.len() - i,
    {
        proof {
            let next = notes@.subrange(0, i + 1);
            assert(next.drop_last() =~= notes@.subrange(0, i as int));
            assert(next.last() == notes@[i as int]);
            assert(footnotes_model(next).drop_last() =~= footnotes_model(
                notes@.subrange(0, i as int),
            ));
        }
        let mut def_work = Buffer::new(64);
        render_html_blocks(h, &mut def_work, &notes[i].content);
        h.footnote_definition(&mut work, &def_work, notes[i].num);
        i += 1;
    }
    assert(notes@.subrange(0, notes@.len() as int) =~= notes@);
    assert(footnotes_model(notes@).len() > 0);
    h.footnotes(ob, &work);
}

impl Html {
    /// Renders the document into the given buffer: the blocks of the
    /// document, its footnotes, and what the end of a render gives.
    pub fn render_to(&mut self, input: &Markdown, output: &mut Buffer)
        ensures
            (final(self)@, final(output)@) == html_document(
                old(self)@,
                old(output)@,
                spec_document(input.extensions, input.max_nesting, input.contents@),
            ),
            final(output).spec_unit() == old(output).spec_unit(),
            old(output).wf() ==> final(output).wf(),
    {
        let doc = Document::new(input.extensions, input.max_nesting);
        let tree = doc.parse(input.contents.as_slice());
        self.before_render(output, false);
        render_html_blocks(self, output, &tree.blocks);
        render_html_footnotes(self, output, &tree.footnotes);
        self.after_render(output, false);
    }

    /// Renders the document to a buffer that is returned.
    pub fn render(&mut self, input: &Markdown) -> (output: Buffer)
        ensures
            (final(self)@, output@) == html_document(
                old(self)@,
                Seq::empty(),
                spec_document(input.extensions, input.max_nesting, input.contents@),
            ),
            output.spec_unit() == 64,
            output.wf(),
    {
        let mut output = Buffer::new(64);
        self.render_to(input, &mut output);
        output
    }

    /// Renders the document as inline content into the given buffer.
    pub fn render_inline_to(&mut self, input: &Markdown, output: &mut Buffer)
        ensures
            (final(self)@, final(output)@) == html_inline(
                old(self)@,
                old(output)@,
                spec_document_inline(input.extensions, input.max_nesting, input.contents@),
            ),
            final(output).spec_unit() == old(output).spec_unit(),
            old(output).wf() ==> final(output).wf(),
    {
        let doc = Document::new(input.extensions, input.max_nesting);
        let spans = doc.parse_inline(input.contents.as_slice());
        self.before_render(output, true);
        render_html_spans(self, output, &spans);
        self.after_render(output, true);
    }

    /// Renders the document as inline content to a buffer that is returned.
    pub fn render_inline(&mut self, input: &Markdown) -> (output: Buffer)
        ensures
            (final(self)@, output@) == html_inline(
                old(self)@,
                Seq::empty(),
                spec_document_inline(input.extensions, input.max_nesting, input.contents@),
            ),
            output.spec_unit() == 64,
            output.wf(),
    {
        let mut output = Buffer::new(64);
        self.render_inline_to(input, &mut output);
        output
    }
}

} // verus!
