//! What the scanners recognise: the constructs of a document, in document
//! order, each with the content that its renderer callback will be given.

use vstd::prelude::*;
use crate::renderer::list::List;
use crate::renderer::{AutoLink, TableFlags};

verus! {

/// The span-level constructs that wrap inline content.
#[derive(Clone, Copy, Debug, PartialEq, Eq, Structural)]
pub enum SpanKind {
    Emphasis,
    DoubleEmphasis,
    TripleEmphasis,
    Underline,
    Highlight,
    Strikethrough,
    Superscript,
    Quote,
}

/// A recognised inline construct.
///
/// `source` holds the markdown bytes that the construct was recognised in;
/// they are written out unchanged when the renderer does not handle it.
#[allow(inconsistent_fields)]
pub enum Span {
    /// A run of plain text.
    Text { text: Vec<u8> },
    /// Bytes that go to the output as they are, past the renderer.
    Verbatim { text: Vec<u8> },
    /// An HTML entity, such as `&amp;`.
    Entity { text: Vec<u8> },
    /// Emphasis and its relatives.
    Wrapped { kind: SpanKind, content: Vec<Span>, source: Vec<u8> },
    /// A code span.
    CodeSpan { text: Vec<u8>, source: Vec<u8> },
    /// A math span.
    Math { text: Vec<u8>, display: bool, source: Vec<u8> },
    /// A raw HTML tag.
    HtmlSpan { text: Vec<u8> },
    /// A hard line break.
    LineBreak { source: Vec<u8> },
    /// A link.
    Link { content: Vec<Span>, link: Vec<u8>, title: Vec<u8>, source: Vec<u8> },
    /// An image.
    Image { link: Vec<u8>, title: Vec<u8>, alt: Vec<u8>, source: Vec<u8> },
    /// A bare or bracketed URL or email address.
    Auto { link: Vec<u8>, kind: AutoLink, source: Vec<u8> },
    /// A reference to a footnote, by its number.
    FootnoteRef { num: u32, source: Vec<u8> },
}

/// A table cell.
pub struct Cell {
    pub content: Vec<Span>,
    pub flags: TableFlags,
}

/// A table row.
pub struct Row {
    pub cells: Vec<Cell>,
}

/// A recognised block-level construct.
#[allow(inconsistent_fields)]
pub enum Block {
    Paragraph { content: Vec<Span> },
    Header { content: Vec<Span>, level: i32 },
    HorizontalRule,
    QuoteBlock { content: Vec<Block> },
    CodeBlock { text: Vec<u8>, lang: Vec<u8> },
    HtmlBlock { text: Vec<u8> },
    List { items: Vec<Block>, flags: List },
    /// A list item: leading inline content, then nested blocks.
    ListItem { spans: Vec<Span>, blocks: Vec<Block>, flags: List },
    Table { header: Vec<Row>, body: Vec<Row> },
}

/// A footnote definition that the document refers to.
pub struct Footnote {
    pub num: u32,
    pub content: Vec<Block>,
}

/// A parsed document.
pub struct Tree {
    pub blocks: Vec<Block>,
    /// The footnotes in the order of their first reference.
    pub footnotes: Vec<Footnote>,
}


/// What a span is, as a mathematical value.
#[allow(inconsistent_fields)]
pub ghost enum SpanModel {
    Text { text: Seq<u8> },
    Verbatim { text: Seq<u8> },
    Entity { text: Seq<u8> },
    Wrapped { kind: SpanKind, content: Seq<SpanModel>, source: Seq<u8> },
    CodeSpan { text: Seq<u8>, source: Seq<u8> },
    Math { text: Seq<u8>, display: bool, source: Seq<u8> },
    HtmlSpan { text: Seq<u8> },
    LineBreak { source: Seq<u8> },
    Link { content: Seq<SpanModel>, link: Seq<u8>, title: Seq<u8>, source: Seq<u8> },
    Image { link: Seq<u8>, title: Seq<u8>, alt: Seq<u8>, source: Seq<u8> },
    Auto { link: Seq<u8>, kind: AutoLink, source: Seq<u8> },
    FootnoteRef { num: u32, source: Seq<u8> },
}

/// What a span is, as a mathematical value.
pub open spec fn span_model(s: Span) -> SpanModel
    decreases s, 0nat,
{
    match s {
        Span::Text { text } => SpanModel::Text { text: text@ },
        Span::Verbatim { text } => SpanModel::Verbatim { text: text@ },
        Span::Entity { text } => SpanModel::Entity { text: text@ },
        Span::Wrapped { kind, content, source } => SpanModel::Wrapped {
            kind,
            content: spans_model(content@),
            source: source@,
        },
        Span::CodeSpan { text, source } => SpanModel::CodeSpan { text: text@, source: source@ },
        Span::Math { text, display, source } => SpanModel::Math {
            text: text@,
            display,
            source: source@,
        },
        Span::HtmlSpan { text } => SpanModel::HtmlSpan { text: text@ },
        Span::LineBreak { source } => SpanModel::LineBreak { source: source@ },
        Span::Link { content, link, title, source } => SpanModel::Link {
            content: spans_model(content@),
            link: link@,
            title: title@,
            source: source@,
        },
        Span::Image { link, title, alt, source } => SpanModel::Image {
            link: link@,
            title: title@,
            alt: alt@,
            source: source@,
        },
        Span::Auto { link, kind, source } => SpanModel::Auto { link: link@, kind, source: source@ },
        Span::FootnoteRef { num, source } => SpanModel::FootnoteRef { num, source: source@ },
    }
}

/// What a sequence of spans is, as a mathematical value.
pub open spec fn spans_model(v: Seq<Span>) -> Seq<SpanModel>
    decreases v, 1nat,
{
    if v.len() == 0 {
        Seq::empty()
    } else {
        spans_model(v.drop_last()).push(span_model(v.last()))
    }
}


/// A table cell as a mathematical value.
pub ghost struct CellModel {
    pub content: Seq<SpanModel>,
    pub flags: TableFlags,
}

/// A table row as a mathematical value.
pub ghost struct RowModel {
    pub cells: Seq<CellModel>,
}

/// What a block is, as a mathematical value.
#[allow(inconsistent_fields)]
pub ghost enum BlockModel {
    Paragraph { content: Seq<SpanModel> },
    Header { content: Seq<SpanModel>, level: i32 },
    HorizontalRule,
    QuoteBlock { content: Seq<BlockModel> },
    CodeBlock { text: Seq<u8>, lang: Seq<u8> },
    HtmlBlock { text: Seq<u8> },
    List { items: Seq<BlockModel>, flags: List },
    ListItem { spans: Seq<SpanModel>, blocks: Seq<BlockModel>, flags: List },
    Table { header: Seq<RowModel>, body: Seq<RowModel> },
}

/// A footnote as a mathematical value.
pub ghost struct FootnoteModel {
    pub num: u32,
    pub content: Seq<BlockModel>,
}

/// A parsed document as a mathematical value.
pub ghost struct TreeModel {
    pub blocks: Seq<BlockModel>,
    pub footnotes: Seq<FootnoteModel>,
}

/// What a table cell is, as a mathematical value.
pub open spec fn cell_model(c: Cell) -> CellModel {
    CellModel { content: spans_model(c.content@), flags: c.flags }
}

/// What a sequence of table cells is, as a mathematical value.
pub open spec fn cells_model(v: Seq<Cell>) -> Seq<CellModel>
    decreases v.len(),
{
    if v.len() == 0 {
        Seq::empty()
    } else {
        cells_model(v.drop_last()).push(cell_model(v.last()))
    }
}

/// What a table row is, as a mathematical value.
pub open spec fn row_model(r: Row) -> RowModel {
    RowModel { cells: cells_model(r.cells@) }
}

/// What a sequence of table rows is, as a mathematical value.
pub open spec fn rows_model(v: Seq<Row>) -> Seq<RowModel>
    decreases v.len(),
{
    if v.len() == 0 {
        Seq::empty()
    } else {
        rows_model(v.drop_last()).push(row_model(v.last()))
    }
}

/// What a block is, as a mathematical value.
pub open spec fn block_model(b: Block) -> BlockModel
    decreases b, 0nat,
{
    match b {
        Block::Paragraph { content } => BlockModel::Paragraph { content: spans_model(content@) },
        Block::Header { content, level } => BlockModel::Header {
            content: spans_model(content@),
            level,
        },
        Block::HorizontalRule => BlockModel::HorizontalRule,
        Block::QuoteBlock { content } => BlockModel::QuoteBlock { content: blocks_model(content@) },
        Block::CodeBlock { text, lang } => BlockModel::CodeBlock { text: text@, lang: lang@ },
        Block::HtmlBlock { text } => BlockModel::HtmlBlock { text: text@ },
        Block::List { items, flags } => BlockModel::List { items: blocks_model(items@), flags },
        Block::ListItem { spans, blocks, flags } => BlockModel::ListItem {
            spans: spans_model(spans@),
            blocks: blocks_model(blocks@),
            flags,
        },
        Block::Table { header, body } => BlockModel::Table {
            header: rows_model(header@),
            body: rows_model(body@),
        },
    }
}

/// What a sequence of blocks is, as a mathematical value.
pub open spec fn blocks_model(v: Seq<Block>) -> Seq<BlockModel>
    decreases v, 1nat,
{
    if v.len() == 0 {
        Seq::empty()
    } else {
        blocks_model(v.drop_last()).push(block_model(v.last()))
    }
}

/// What a footnote is, as a mathematical value.
pub open spec fn footnote_model(f: Footnote) -> FootnoteModel {
    FootnoteModel { num: f.num, content: blocks_model(f.content@) }
}

/// What a sequence of footnotes is, as a mathematical value.
pub open spec fn footnotes_model(v: Seq<Footnote>) -> Seq<FootnoteModel>
    decreases v.len(),
{
    if v.len() == 0 {
        Seq::empty()
    } else {
        footnotes_model(v.drop_last()).push(footnote_model(v.last()))
    }
}

impl View for Tree {
    type V = TreeModel;

    open spec fn view(&self) -> TreeModel {
        TreeModel { blocks: blocks_model(self.blocks@), footnotes: footnotes_model(self.footnotes@) }
    }
}

/// The model of a sequence with one more block is the model of the
/// sequence with the model of the block.
pub proof fn lemma_blocks_push(v: Seq<Block>, b: Block)
    ensures
        blocks_model(v.push(b)) == blocks_model(v).push(block_model(b)),
{
    assert(v.push(b).drop_last() =~= v);
}

/// Appends a block to `out`.
pub fn push_block(out: &mut Vec<Block>, b: Block)
    ensures
        final(out)@ == old(out)@.push(b),
        blocks_model(final(out)@) == blocks_model(old(out)@).push(block_model(b)),
{
    proof {
        lemma_blocks_push(out@, b);
    }
    out.push(b);
}

/// Appends a row to `out`.
pub fn push_row(out: &mut Vec<Row>, r: Row)
    ensures
        final(out)@ == old(out)@.push(r),
        rows_model(final(out)@) == rows_model(old(out)@).push(row_model(r)),
{
    proof {
        assert(out@.push(r).drop_last() =~= out@);
    }
    out.push(r);
}

/// Appends a cell to `out`.
pub fn push_cell(out: &mut Vec<Cell>, c: Cell)
    ensures
        final(out)@ == old(out)@.push(c),
        cells_model(final(out)@) == cells_model(old(out)@).push(cell_model(c)),
{
    proof {
        assert(out@.push(c).drop_last() =~= out@);
    }
    out.push(c);
}

/// Appends a footnote to `out`.
pub fn push_footnote(out: &mut Vec<Footnote>, f: Footnote)
    ensures
        final(out)@ == old(out)@.push(f),
        footnotes_model(final(out)@) == footnotes_model(old(out)@).push(footnote_model(f)),
{
    proof {
        assert(out@.push(f).drop_last() =~= out@);
    }
    out.push(f);
}

} // verus!
