//! Render behaviour and the stock renderers.

use vstd::prelude::*;
use crate::buffer::Buffer;
use crate::document::{spec_document, spec_document_inline, Document};
use crate::replay::{fresh, render_blocks, render_footnotes, render_spans};
use crate::tree::{spans_model, Span, Tree};
use crate::markdown::Markdown;

pub mod balance;
pub mod html;
pub mod htmldoc;
pub mod list;
pub mod trace;
pub mod wrapper;

verus! {

/// The alignment of a table column.
#[derive(Debug, Clone, Copy, PartialEq, Eq, Structural)]
pub enum Table {
    Left,
    Right,
    Center,
    Mask,
    Header,
}

/// The type of an autolink candidate.
#[derive(Debug, Clone, Copy, PartialEq, Eq, Structural)]
pub enum AutoLink {
    Normal,
    Email,
}

/// What a table cell callback is told of its cell: the alignment of the
/// column, if the separator row gave one, and whether the cell belongs to
/// the header row.
#[derive(Debug, Clone, Copy, PartialEq, Eq, Structural)]
pub struct TableFlags {
    pub bits: u32,
}

/// The column is left-aligned.
pub const TABLE_ALIGN_LEFT: u32 = 1;

/// The column is right-aligned.
pub const TABLE_ALIGN_RIGHT: u32 = 2;

/// The column is centered.
pub const TABLE_ALIGN_CENTER: u32 = 3;

/// The bits that hold the alignment.
pub const TABLE_ALIGNMASK: u32 = 3;

/// The cell belongs to the header row.
pub const TABLE_HEADER: u32 = 4;

impl TableFlags {
    /// The flags with the given alignment bits and header mark.
    pub fn of(align: u32, header: bool) -> (f: TableFlags)
        ensures
            f.bits == (align & TABLE_ALIGNMASK) | (if header { TABLE_HEADER } else { 0 }),
    {
        TableFlags { bits: (align & TABLE_ALIGNMASK) | (if header { TABLE_HEADER } else { 0 }) }
    }

    /// The alignment of the cell's column.
    pub open spec fn spec_align(&self) -> Option<Table> {
        if self.bits & TABLE_ALIGNMASK == TABLE_ALIGN_CENTER {
            Some(Table::Center)
        } else if self.bits & TABLE_ALIGNMASK == TABLE_ALIGN_LEFT {
            Some(Table::Left)
        } else if self.bits & TABLE_ALIGNMASK == TABLE_ALIGN_RIGHT {
            Some(Table::Right)
        } else {
            None
        }
    }

    /// The alignment of the cell's column, if the separator row gave one.
    pub fn align(&self) -> (a: Option<Table>)
        ensures
            a == self.spec_align(),
    {
        let a: u32 = self.bits & TABLE_ALIGNMASK;
        if a == TABLE_ALIGN_CENTER {
            Some(Table::Center)
        } else if a == TABLE_ALIGN_LEFT {
            Some(Table::Left)
        } else if a == TABLE_ALIGN_RIGHT {
            Some(Table::Right)
        } else {
            None
        }
    }

    /// Whether the cell belongs to the header row.
    pub fn is_header(&self) -> (r: bool)
        ensures
            r == (self.bits & TABLE_HEADER != 0),
    {
        self.bits & TABLE_HEADER != 0
    }
}


/// Render behaviour: one callback for each markdown construct.
///
/// Every callback has a default, so that a renderer implements only what
/// it is interested in:
///
/// | Type  | Default                          |
/// | :---- | :------------------------------- |
/// | block | the block is dropped             |
/// | span  | the markdown goes out unchanged  |
/// | rest  | the content goes out unchanged   |
///
/// A block callback is given the rendered content of the block; a span
/// callback says whether it has handled the span.
pub trait Render: Sized {
    /// Runs when a code block is encountered.  `lang` is empty for an
    /// indented code block and for a fence that names no language.
    fn code_block(&mut self, output: &mut Buffer, text: &Buffer, lang: &Buffer)
        default_ensures
            *final(self) == *old(self),
            *final(output) == *old(output),
    {
    }

    /// Runs when a block quote is encountered.
    fn quote_block(&mut self, output: &mut Buffer, content: &Buffer)
        default_ensures
            *final(self) == *old(self),
            *final(output) == *old(output),
    {
    }

    /// Runs when a header is encountered.
    fn header(&mut self, output: &mut Buffer, content: &Buffer, level: i32)
        default_ensures
            *final(self) == *old(self),
            *final(output) == *old(output),
    {
    }

    /// Runs when a horizontal rule is encountered.
    fn horizontal_rule(&mut self, output: &mut Buffer)
        default_ensures
            *final(self) == *old(self),
            *final(output) == *old(output),
    {
    }

    /// Runs when a list is encountered.
    fn list(&mut self, output: &mut Buffer, content: &Buffer, flags: list::List)
        default_ensures
            *final(self) == *old(self),
            *final(output) == *old(output),
    {
    }

    /// Runs when a list item is encountered.
    fn list_item(&mut self, output: &mut Buffer, content: &Buffer, flags: list::List)
        default_ensures
            *final(self) == *old(self),
            *final(output) == *old(output),
    {
    }

    /// Runs when a paragraph is encountered.
    fn paragraph(&mut self, output: &mut Buffer, content: &Buffer)
        default_ensures
            *final(self) == *old(self),
            *final(output) == *old(output),
    {
    }

    /// Runs when a table is encountered.
    fn table(&mut self, output: &mut Buffer, content: &Buffer)
        default_ensures
            *final(self) == *old(self),
            *final(output) == *old(output),
    {
    }

    /// Runs when the header of a table is encountered.
    fn table_header(&mut self, output: &mut Buffer, content: &Buffer)
        default_ensures
            *final(self) == *old(self),
            *final(output) == *old(output),
    {
    }

    /// Runs when the body of a table is encountered.
    fn table_body(&mut self, output: &mut Buffer, content: &Buffer)
        default_ensures
            *final(self) == *old(self),
            *final(output) == *old(output),
    {
    }

    /// Runs when a table row is encountered.
    fn table_row(&mut self, output: &mut Buffer, content: &Buffer)
        default_ensures
            *final(self) == *old(self),
            *final(output) == *old(output),
    {
    }

    /// Runs when a table cell is encountered.
    fn table_cell(&mut self, output: &mut Buffer, content: &Buffer, flags: TableFlags)
        default_ensures
            *final(self) == *old(self),
            *final(output) == *old(output),
    {
    }

    /// Runs when the footnotes of a document are encountered.
    fn footnotes(&mut self, output: &mut Buffer, content: &Buffer)
        default_ensures
            *final(self) == *old(self),
            *final(output) == *old(output),
    {
    }

    /// Runs when a footnote definition is encountered.
    fn footnote_definition(&mut self, output: &mut Buffer, content: &Buffer, num: u32)
        default_ensures
            *final(self) == *old(self),
            *final(output) == *old(output),
    {
    }

    /// Runs when a raw HTML block is encountered.
    fn html_block(&mut self, output: &mut Buffer, text: &Buffer)
        default_ensures
            *final(self) == *old(self),
            *final(output) == *old(output),
    {
    }

    /// Runs when an autolink candidate is encountered.
    fn autolink(&mut self, output: &mut Buffer, link: &Buffer, link_type: AutoLink) -> (handled: bool)
        default_ensures
            !handled,
            *final(self) == *old(self),
            *final(output) == *old(output),
    {
        false
    }

    /// Runs when a code span is encountered.
    fn code_span(&mut self, output: &mut Buffer, text: &Buffer) -> (handled: bool)
        default_ensures
            !handled,
            *final(self) == *old(self),
            *final(output) == *old(output),
    {
        false
    }

    /// Runs when double emphasis is encountered, e.g. `**strong**`.
    fn double_emphasis(&mut self, output: &mut Buffer, content: &Buffer) -> (handled: bool)
        default_ensures
            !handled,
            *final(self) == *old(self),
            *final(output) == *old(output),
    {
        false
    }

    /// Runs when emphasis is encountered.
    fn emphasis(&mut self, output: &mut Buffer, content: &Buffer) -> (handled: bool)
        default_ensures
            !handled,
            *final(self) == *old(self),
            *final(output) == *old(output),
    {
        false
    }

    /// Runs when underline is encountered.
    fn underline(&mut self, output: &mut Buffer, content: &Buffer) -> (handled: bool)
        default_ensures
            !handled,
            *final(self) == *old(self),
            *final(output) == *old(output),
    {
        false
    }

    /// Runs when highlight is encountered.
    fn highlight(&mut self, output: &mut Buffer, content: &Buffer) -> (handled: bool)
        default_ensures
            !handled,
            *final(self) == *old(self),
            *final(output) == *old(output),
    {
        false
    }

    /// Runs when a quote is encountered.
    fn quote_span(&mut self, output: &mut Buffer, content: &Buffer) -> (handled: bool)
        default_ensures
            !handled,
            *final(self) == *old(self),
            *final(output) == *old(output),
    {
        false
    }

    /// Runs when an image is encountered, e.g. `![alt](link title)`.
    fn image(&mut self, output: &mut Buffer, link: &Buffer, title: &Buffer, alt: &Buffer) -> (handled:
        bool)
        default_ensures
            !handled,
            *final(self) == *old(self),
            *final(output) == *old(output),
    {
        false
    }

    /// Runs when a line break is encountered.
    fn line_break(&mut self, output: &mut Buffer) -> (handled: bool)
        default_ensures
            !handled,
            *final(self) == *old(self),
            *final(output) == *old(output),
    {
        false
    }

    /// Runs when a link is encountered, e.g. `[content](link title)`.
    fn link(&mut self, output: &mut Buffer, content: &Buffer, link: &Buffer, title: &Buffer) -> (handled:
        bool)
        default_ensures
            !handled,
            *final(self) == *old(self),
            *final(output) == *old(output),
    {
        false
    }

    /// Runs when triple emphasis is encountered, e.g. `***strong***`.
    fn triple_emphasis(&mut self, output: &mut Buffer, content: &Buffer) -> (handled: bool)
        default_ensures
            !handled,
            *final(self) == *old(self),
            *final(output) == *old(output),
    {
        false
    }

    /// Runs when strikethrough is encountered.
    fn strikethrough(&mut self, output: &mut Buffer, content: &Buffer) -> (handled: bool)
        default_ensures
            !handled,
            *final(self) == *old(self),
            *final(output) == *old(output),
    {
        false
    }

    /// Runs when superscript is encountered.
    fn superscript(&mut self, output: &mut Buffer, content: &Buffer) -> (handled: bool)
        default_ensures
            !handled,
            *final(self) == *old(self),
            *final(output) == *old(output),
    {
        false
    }

    /// Runs when a footnote reference is encountered.
    fn footnote_reference(&mut self, output: &mut Buffer, num: u32) -> (handled: bool)
        default_ensures
            !handled,
            *final(self) == *old(self),
            *final(output) == *old(output),
    {
        false
    }

    /// Runs when math is encountered.
    fn math(&mut self, output: &mut Buffer, text: &Buffer, displaymode: i32) -> (handled: bool)
        default_ensures
            !handled,
            *final(self) == *old(self),
            *final(output) == *old(output),
    {
        false
    }

    /// Runs when a raw HTML tag is encountered.
    fn html_span(&mut self, output: &mut Buffer, text: &Buffer) -> (handled: bool)
        default_ensures
            !handled,
            *final(self) == *old(self),
            *final(output) == *old(output),
    {
        false
    }

    /// Runs when an HTML entity is encountered.
    fn entity(&mut self, output: &mut Buffer, text: &Buffer)
        default_ensures
            *final(self) == *old(self),
            final(output)@ == old(output)@ + text@,
            final(output).spec_unit() == old(output).spec_unit(),
            old(output).wf() ==> final(output).wf(),
    {
        output.pipe(text);
    }

    /// Runs when plain text is encountered.
    fn normal_text(&mut self, output: &mut Buffer, text: &Buffer)
        default_ensures
            *final(self) == *old(self),
            final(output)@ == old(output)@ + text@,
            final(output).spec_unit() == old(output).spec_unit(),
            old(output).wf() ==> final(output).wf(),
    {
        output.pipe(text);
    }

    /// Runs before the document is processed.
    fn before_render(&mut self, output: &mut Buffer, inline_render: bool)
        default_ensures
            *final(self) == *old(self),
            *final(output) == *old(output),
    {
    }

    /// Runs after the document has been processed.
    fn after_render(&mut self, output: &mut Buffer, inline_render: bool)
        default_ensures
            *final(self) == *old(self),
            *final(output) == *old(output),
    {
    }
}


/// Rendering of whole documents, for every renderer.
///
/// A render parses the document and hands what it finds to the
/// renderer: `before_render` first, then the blocks in document order and
/// the footnotes (for an inline render: the spans), then `after_render`.
/// Rendering to a buffer that is returned is rendering into a new buffer.
pub trait Renderer: Render {
    /// Renders the document to a buffer that is returned.
    fn render(&mut self, input: &Markdown) -> (output: Buffer)
        ensures
            exists|
                tree: Tree,
                a: &mut Self,
                b: &mut Buffer,
                c: &mut Self,
                d: &mut Buffer,
                e: &mut Self,
                f: &mut Buffer,
                g: &mut Self,
                h: &mut Buffer,
            |
                tree@ == spec_document(input.extensions, input.max_nesting, input.contents@) && *a == *old(self) && fresh(*b)
                    && #[trigger] call_ensures(Self::before_render, (a, b, false), ()) && *c == *final(a)
                    && *d == *final(b) && #[trigger] call_ensures(
                    render_blocks::<Self>,
                    (c, d, &tree.blocks),
                    (),
                ) && *e == *final(c) && *f == *final(d) && #[trigger] call_ensures(
                    render_footnotes::<Self>,
                    (e, f, &tree.footnotes),
                    (),
                ) && *g == *final(e) && *h == *final(f) && *final(g) == *final(self) && *final(h) == output
                    && #[trigger] call_ensures(Self::after_render, (g, h, false), ()),
    ;

    /// Renders the document into the given buffer.
    fn render_to(&mut self, input: &Markdown, output: &mut Buffer)
        ensures
            exists|
                tree: Tree,
                a: &mut Self,
                b: &mut Buffer,
                c: &mut Self,
                d: &mut Buffer,
                e: &mut Self,
                f: &mut Buffer,
                g: &mut Self,
                h: &mut Buffer,
            |
                tree@ == spec_document(input.extensions, input.max_nesting, input.contents@) && *a == *old(self) && *b == *old(output)
                    && #[trigger] call_ensures(Self::before_render, (a, b, false), ()) && *c == *final(a)
                    && *d == *final(b) && #[trigger] call_ensures(
                    render_blocks::<Self>,
                    (c, d, &tree.blocks),
                    (),
                ) && *e == *final(c) && *f == *final(d) && #[trigger] call_ensures(
                    render_footnotes::<Self>,
                    (e, f, &tree.footnotes),
                    (),
                ) && *g == *final(e) && *h == *final(f) && *final(g) == *final(self) && *final(h) == *final(output)
                    && #[trigger] call_ensures(Self::after_render, (g, h, false), ()),
    ;

    /// Renders the document as inline content to a buffer that is returned.
    fn render_inline(&mut self, input: &Markdown) -> (output: Buffer)
        ensures
            exists|
                spans: Vec<Span>,
                a: &mut Self,
                b: &mut Buffer,
                c: &mut Self,
                d: &mut Buffer,
                g: &mut Self,
                h: &mut Buffer,
            |
                spans_model(spans@) == spec_document_inline(input.extensions, input.max_nesting, input.contents@) && *a == *old(self)
                    && fresh(*b) && #[trigger] call_ensures(Self::before_render, (a, b, true), ())
                    && *c == *final(a) && *d == *final(b) && #[trigger] call_ensures(
                    render_spans::<Self>,
                    (c, d, &spans),
                    (),
                ) && *g == *final(c) && *h == *final(d) && *final(g) == *final(self) && *final(h) == output
                    && #[trigger] call_ensures(Self::after_render, (g, h, true), ()),
    ;

    /// Renders the document as inline content into the given buffer.
    fn render_inline_to(&mut self, input: &Markdown, output: &mut Buffer)
        ensures
            exists|
                spans: Vec<Span>,
                a: &mut Self,
                b: &mut Buffer,
                c: &mut Self,
                d: &mut Buffer,
                g: &mut Self,
                h: &mut Buffer,
            |
                spans_model(spans@) == spec_document_inline(input.extensions, input.max_nesting, input.contents@) && *a == *old(self)
                    && *b == *old(output) && #[trigger] call_ensures(Self::before_render, (a, b, true), ())
                    && *c == *final(a) && *d == *final(b) && #[trigger] call_ensures(
                    render_spans::<Self>,
                    (c, d, &spans),
                    (),
                ) && *g == *final(c) && *h == *final(d) && *final(g) == *final(self) && *final(h) == *final(output)
                    && #[trigger] call_ensures(Self::after_render, (g, h, true), ()),
    ;
}

impl<R: Render> Renderer for R {
    fn render(&mut self, input: &Markdown) -> (output: Buffer) {
        let mut output = Buffer::new(64);
        let doc = Document::new(input.extensions, input.max_nesting);
        doc.render(self, input.contents.as_slice(), &mut output);
        output
    }

    fn render_to(&mut self, input: &Markdown, output: &mut Buffer) {
        let doc = Document::new(input.extensions, input.max_nesting);
        doc.render(self, input.contents.as_slice(), output);
    }

    fn render_inline(&mut self, input: &Markdown) -> (output: Buffer) {
        let mut output = Buffer::new(64);
        let doc = Document::new(input.extensions, input.max_nesting);
        doc.render_inline(self, input.contents.as_slice(), &mut output);
        output
    }

    fn render_inline_to(&mut self, input: &Markdown, output: &mut Buffer) {
        let doc = Document::new(input.extensions, input.max_nesting);
        doc.render_inline(self, input.contents.as_slice(), output);
    }
}

} // verus!
