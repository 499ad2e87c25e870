//! The document driver: two passes over the input, the first of which
//! collects definitions, the second of which scans blocks and spans.

use vstd::prelude::*;
use crate::block::{parse_block, spec_block, Parsed};
use crate::buffer::Buffer;
use crate::chars::{skip, skipped, Class};
use crate::extensions;
use crate::extensions::Extension;
use crate::inline::{parse_inline, restored, spec_inline};
use crate::parser::{FootnoteDef, LinkRef, NoteModel, Parser, RefModel, State};
use crate::refs::{
    expand_tabs, is_footnote, is_ref, spec_is_eol, spec_is_footnote, spec_is_ref, tabs_expanded,
};
use crate::renderer::Render;
use crate::replay::{render_blocks, render_footnotes, render_spans};
use crate::tree::{
    blocks_model, footnotes_model, push_footnote, spans_model, Block, BlockModel, Footnote,
    FootnoteModel, Span, SpanModel, Tree, TreeModel,
};

verus! {

/// Document parser: an extension set and the maximum nesting depth.
#[derive(Clone, Copy, Debug)]
pub struct Document {
    pub extensions: Extension,
    pub max_nesting: usize,
}

/// `text` with one line feed for each of the line ends that stand at `i`,
/// and the position after them: a line feed, a carriage return, or a
/// carriage return and a line feed, each is one line end.
pub open spec fn newlines_copied(data: Seq<u8>, i: int, text: Seq<u8>) -> (int, Seq<u8>)
    decreases data.len() - i,
{
    if 0 <= i < data.len() && spec_is_eol(data[i]) {
        newlines_copied(data, i + 1, if data[i] == 0x0a || (data.len() - i > 1 && data[i + 1]
            != 0x0a) {
            text.push(0x0a)
        } else {
            text
        })
    } else {
        (i, text)
    }
}

/// Copies the newlines at `i` to `text`, one line feed for each line end,
/// and returns the position after them.
fn copy_newlines(text: &mut Vec<u8>, data: &[u8], i: usize) -> (r: usize)
    requires
        i <= data.len(),
    ensures
        (r as int, final(text)@) == newlines_copied(data@, i as int, old(text)@),
        i <= r <= data.len(),
        i < data.len() && spec_is_eol(data@[i as int]) ==> i < r,
{
    let size: usize = data.len();
    let mut e: usize = i;
    while e < size && (data[e] == 0x0a || data[e] == 0x0d)
        invariant
            i <= e <= size,
            size == data.len(),
            i < data.len() && spec_is_eol(data@[i as int]) && e == i ==> e < size && spec_is_eol(
                data@[e as int],
            ),
            newlines_copied(data@, i as int, old(text)@) == newlines_copied(
                data@,
                e as int,
                text@,
            ),
        decreases size - e,
    {
        if data[e] == 0x0a || (size - e > 1 && data[e + 1] != 0x0a) {
            text.push(0x0a);
        }
        e += 1;
    }
    e
}

/// What the first pass over a document gives: its text, and the link and
/// footnote definitions that were taken out of it.
pub ghost struct Prepared {
    pub text: Seq<u8>,
    pub refs: Seq<RefModel>,
    pub footnotes: Seq<NoteModel>,
}

/// The first pass over the lines of `data` from `beg` on, added to `acc`:
/// a footnote definition, where footnotes are enabled, and a link
/// definition are taken out; each other line is copied with its tabs
/// expanded and one line feed for each of the line ends after it.
pub open spec fn pass_lines(footnotes_enabled: bool, data: Seq<u8>, beg: int, acc: Prepared) -> Prepared
    decreases data.len() - beg,
{
    let size = data.len() as int;
    let note = if footnotes_enabled {
        spec_is_footnote(data, beg, size)
    } else {
        None
    };
    let link = spec_is_ref(data, beg, size);
    let e = skipped(data, beg, size, Class::NotEol);
    let line = if e > beg {
        acc.text + tabs_expanded(data.subrange(beg, e), 0, 0)
    } else {
        acc.text
    };
    let nl = newlines_copied(data, e, line);
    if beg < 0 || beg >= size {
        acc
    } else if note is Some {
        if note->0.last <= beg || note->0.last > size {
            acc
        } else {
            pass_lines(
                footnotes_enabled,
                data,
                note->0.last,
                Prepared { footnotes: acc.footnotes.push(note->0.def), ..acc },
            )
        }
    } else if link is Some {
        if link->0.last <= beg || link->0.last > size {
            acc
        } else {
            pass_lines(
                footnotes_enabled,
                data,
                link->0.last,
                Prepared { refs: acc.refs.push(link->0.def), ..acc },
            )
        }
    } else if nl.0 <= beg || nl.0 > size {
        acc
    } else {
        pass_lines(footnotes_enabled, data, nl.0, Prepared { text: nl.1, ..acc })
    }
}

/// What the first pass of a full render gives for `data`.  A byte order
/// mark at the start of `data` is skipped.
pub open spec fn spec_first_pass(ext: Extension, data: Seq<u8>) -> Prepared {
    pass_lines(
        ext.on(extensions::FOOTNOTES),
        data,
        if data.len() >= 3 && data[0] == 0xef && data[1] == 0xbb && data[2] == 0xbf {
            3
        } else {
            0
        },
        Prepared { text: Seq::empty(), refs: Seq::empty(), footnotes: Seq::empty() },
    )
}

/// The state with the given definitions.
pub open spec fn with_defs(st: State, pre: Prepared) -> State {
    State { refs: pre.refs, footnotes: pre.footnotes, ..st }
}

/// Adds a link definition to the state.
fn add_ref(p: &mut Parser, def: LinkRef)
    ensures
        final(p)@ == (State { refs: old(p)@.refs.push(def@), ..old(p)@ }),
{
    p.refs.push(def);
    assert(p@.refs =~= old(p)@.refs.push(def@));
}

/// Adds a footnote definition to the state.
fn add_footnote(p: &mut Parser, def: FootnoteDef)
    ensures
        final(p)@ == (State { footnotes: old(p)@.footnotes.push(def@), ..old(p)@ }),
{
    p.footnotes.push(def);
    assert(p@.footnotes =~= old(p)@.footnotes.push(def@));
}

/// The first pass of a full render: the text of `data` without its link
/// and footnote definitions, which go to `p`, with tabs expanded and one
/// line feed for each line end.
pub fn first_pass(p: &mut Parser, data: &[u8]) -> (text: Vec<u8>)
    requires
        old(p)@.refs.len() == 0,
        old(p)@.footnotes.len() == 0,
    ensures
        final(p)@ == with_defs(old(p)@, spec_first_pass(old(p)@.ext, data@)),
        text@ == spec_first_pass(old(p)@.ext, data@).text,
{
    let size: usize = data.len();
    let mut text: Vec<u8> = Vec::new();
    let footnotes_enabled: bool = p.on(extensions::FOOTNOTES);
    let mut beg: usize = 0;
    if size >= 3 && data[0] == 0xef && data[1] == 0xbb && data[2] == 0xbf {
        beg = 3;
    }
    assert(p@.refs =~= Seq::empty());
    assert(p@.footnotes =~= Seq::empty());
    while beg < size
        invariant
            beg <= size,
            size == data.len(),
            footnotes_enabled == old(p)@.ext.on(extensions::FOOTNOTES),
            p@ == with_defs(
                old(p)@,
                Prepared { text: text@, refs: p@.refs, footnotes: p@.footnotes },
            ),
            pass_lines(
                footnotes_enabled,
                data@,
                beg as int,
                Prepared { text: text@, refs: p@.refs, footnotes: p@.footnotes },
            ) == spec_first_pass(old(p)@.ext, data@),
        decreases size - beg,
    {
        if footnotes_enabled {
            match is_footnote(data, beg, size) {
                Some(f) => {
                    add_footnote(p, f.def);
                    beg = f.last;
                    continue ;
                },
                None => {},
            }
        }
        match is_ref(data, beg, size) {
            Some(f) => {
                add_ref(p, f.def);
                beg = f.last;
            },
            None => {
                let e: usize = skip(data, beg, size, Class::NotEol);
                if e > beg {
                    expand_tabs(&mut text, vstd::slice::slice_subrange(data, beg, e));
                }
                beg = copy_newlines(&mut text, data, e);
            },
        }
    }
    text
}

/// The first pass over the lines of `data` from `i` on for an inline
/// render, added to `text`: each line with its tabs expanded, and one
/// line feed for each of the line ends after it.
pub open spec fn inline_lines(data: Seq<u8>, i: int, text: Seq<u8>) -> Seq<u8>
    decreases data.len() - i,
{
    let size = data.len() as int;
    let e = skipped(data, i, size, Class::NotEol);
    let line = text + tabs_expanded(data.subrange(i, e), 0, 0);
    let nl = newlines_copied(data, e, line);
    if i < 0 || i > size {
        text
    } else if e >= size || nl.0 <= i || nl.0 > size {
        line
    } else {
        inline_lines(data, nl.0, nl.1)
    }
}

/// The first pass of an inline render: the text of `data` with tabs
/// expanded and one line feed for each line end.
pub fn first_pass_inline(data: &[u8]) -> (text: Vec<u8>)
    ensures
        text@ == inline_lines(data@, 0, Seq::empty()),
{
    let size: usize = data.len();
    let mut text: Vec<u8> = Vec::new();
    let mut i: usize = 0;
    loop
        invariant_except_break
            inline_lines(data@, i as int, text@) == inline_lines(data@, 0, Seq::empty()),
        invariant
            i <= size,
            size == data.len(),
        ensures
            text@ == inline_lines(data@, 0, Seq::empty()),
        decreases size - i,
    {
        let e: usize = skip(data, i, size, Class::NotEol);
        expand_tabs(&mut text, vstd::slice::slice_subrange(data, i, e));
        if e >= size {
            break ;
        }
        i = copy_newlines(&mut text, data, e);
    }
    text
}

/// The footnotes that the document refers to from the `k`th on, added to
/// `notes`: each in the order of first reference, with its number and its
/// text scanned as blocks with one more block and one more span in
/// progress.  `total` is the number of footnote definitions.
pub open spec fn footnote_list(st: State, k: int, total: int, notes: Seq<FootnoteModel>) -> (
    State,
    Seq<FootnoteModel>,
)
    decreases total - k,
{
    let idx = st.used[k] as int;
    let contents = st.footnotes[idx].contents;
    let inner = spec_block(
        st.enter_block().enter_span(),
        Seq::empty(),
        contents,
        0,
        contents.len() as int,
    );
    if k < 0 || k >= total || k >= st.used.len() || k >= 0x7fff_ffff {
        (st, notes)
    } else if idx < st.footnotes.len() {
        footnote_list(
            restored(inner.st, st),
            k + 1,
            total,
            notes.push(FootnoteModel { num: (k + 1) as u32, content: inner.out }),
        )
    } else {
        footnote_list(
            st,
            k + 1,
            total,
            notes.push(FootnoteModel { num: (k + 1) as u32, content: Seq::empty() }),
        )
    }
}

/// The contents of the footnote definition with index `idx`.
fn note_contents(p: &Parser, idx: usize) -> (c: Vec<u8>)
    requires
        idx < p@.footnotes.len(),
    ensures
        c@ == p@.footnotes[idx as int].contents,
{
    let src = p.footnotes[idx].contents.as_slice();
    crate::chars::copy_range(src, 0, src.len())
}

/// The footnotes that the document refers to, in the order of their first
/// reference, each with its text scanned as blocks.
pub fn parse_footnote_list(p: &mut Parser) -> (notes: Vec<Footnote>)
    ensures
        (final(p)@, footnotes_model(notes@)) == footnote_list(
            old(p)@,
            0,
            old(p)@.footnotes.len() as int,
            Seq::empty(),
        ),
{
    let mut notes: Vec<Footnote> = Vec::new();
    assert(footnotes_model(notes@) =~= Seq::<FootnoteModel>::empty());
    let total: usize = p.footnotes.len();
    let mut k: usize = 0;
    while k < total && k < p.used.len() && k < 0x7fff_ffff
        invariant
            total == old(p)@.footnotes.len(),
            footnote_list(p@, k as int, total as int, footnotes_model(notes@)) == footnote_list(
                old(p)@,
                0,
                total as int,
                Seq::empty(),
            ),
        decreases total - k,
    {
        let idx: usize = p.used[k];
        let mut content: Vec<Block> = Vec::new();
        assert(blocks_model(content@) =~= Seq::<BlockModel>::empty());
        if idx < p.footnotes.len() {
            let contents: Vec<u8> = note_contents(p, idx);
            let span_saved: usize = p.span_depth;
            let block_saved: usize = p.block_depth;
            p.enter_block();
            p.enter_span();
            parse_block(p, &mut content, contents.as_slice(), 0, contents.len());
            p.set_depth(span_saved, block_saved);
        }
        push_footnote(&mut notes, Footnote { num: (k + 1) as u32, content });
        k += 1;
    }
    notes
}

/// The state at the start of the second pass over a document.
pub open spec fn start_state(ext: Extension, max_nesting: usize, pre: Prepared) -> State {
    State {
        ext,
        max_nesting,
        refs: pre.refs,
        footnotes: pre.footnotes,
        used: Seq::empty(),
        span_depth: 0,
        block_depth: 0,
        in_link_body: false,
    }
}

/// What a whole document is parsed to.
///
/// The first pass takes the link and footnote definitions out of the
/// input.  The second pass scans the blocks of what is left, to which a
/// line feed is added where no line end ends it.  Where footnotes are
/// enabled, the footnotes that the document refers to follow.
#[verifier::opaque]
pub open spec fn spec_document(ext: Extension, max_nesting: usize, input: Seq<u8>) -> TreeModel {
    let pre = spec_first_pass(ext, input);
    let st = start_state(ext, max_nesting, pre);
    let text = if pre.text.len() > 0 && !spec_is_eol(pre.text.last()) {
        pre.text.push(0x0a)
    } else {
        pre.text
    };
    let blocks = if pre.text.len() > 0 {
        spec_block(st, Seq::empty(), text, 0, text.len() as int)
    } else {
        Parsed { st, out: Seq::empty(), n: 0 }
    };
    TreeModel {
        blocks: blocks.out,
        footnotes: if ext.on(extensions::FOOTNOTES) {
            footnote_list(blocks.st, 0, blocks.st.footnotes.len() as int, Seq::empty()).1
        } else {
            Seq::empty()
        },
    }
}

/// What inline content is parsed to: no definition is taken out and no
/// block is looked for.
pub open spec fn spec_document_inline(ext: Extension, max_nesting: usize, input: Seq<u8>) -> Seq<
    SpanModel,
> {
    let text = inline_lines(input, 0, Seq::empty());
    spec_inline(
        start_state(
            ext,
            max_nesting,
            Prepared { text: Seq::empty(), refs: Seq::empty(), footnotes: Seq::empty() },
        ),
        Seq::empty(),
        text,
        0,
        text.len() as int,
    ).out
}

impl Document {
    /// A parser for documents with the given extensions.  `max_nesting` is
    /// the maximum depth of nested constructs that is scanned.
    pub fn new(extensions: Extension, max_nesting: usize) -> (d: Document)
        ensures
            d.extensions == extensions,
            d.max_nesting == max_nesting,
    {
        Document { extensions, max_nesting }
    }

    /// Parses `input` as a whole document.
    pub fn parse(&self, input: &[u8]) -> (tree: Tree)
        ensures
            tree@ == spec_document(self.extensions, self.max_nesting, input@),
    {
        reveal(spec_document);
        let mut p = Parser::new(self.extensions, self.max_nesting);
        let mut text: Vec<u8> = first_pass(&mut p, input);
        let ghost pre = spec_first_pass(self.extensions, input@);
        assert(p@ == start_state(self.extensions, self.max_nesting, pre));
        assert(text@ == pre.text);
        let mut blocks: Vec<Block> = Vec::new();
        assert(blocks_model(blocks@) =~= Seq::<BlockModel>::empty());
        if text.len() > 0 {
            let last: u8 = text[text.len() - 1];
            if last != 0x0a && last != 0x0d {
                text.push(0x0a);
            }
            parse_block(&mut p, &mut blocks, text.as_slice(), 0, text.len());
        }
        let footnotes: Vec<Footnote> = if self.extensions.enabled(extensions::FOOTNOTES) {
            parse_footnote_list(&mut p)
        } else {
            let none: Vec<Footnote> = Vec::new();
            assert(footnotes_model(none@) =~= Seq::<FootnoteModel>::empty());
            none
        };
        Tree { blocks, footnotes }
    }

    /// Parses `input` as inline content: no block is looked for.
    pub fn parse_inline(&self, input: &[u8]) -> (spans: Vec<Span>)
        ensures
            spans_model(spans@) == spec_document_inline(
                self.extensions,
                self.max_nesting,
                input@,
            ),
    {
        let mut p = Parser::new(self.extensions, self.max_nesting);
        let text: Vec<u8> = first_pass_inline(input);
        let mut spans: Vec<Span> = Vec::new();
        assert(spans_model(spans@) =~= Seq::<SpanModel>::empty());
        parse_inline(&mut p, &mut spans, text.as_slice(), 0, text.len());
        spans
    }

    /// Renders `input` as a whole document into `output`: the renderer's
    /// `before_render` runs first, on the renderer and the output as they
    /// came in; then the blocks that `input` parses to are rendered in
    /// document order, then its footnotes; `after_render` runs last and
    /// leaves the renderer and the output as they are returned.
    pub fn render<R: Render>(&self, renderer: &mut R, input: &[u8], output: &mut Buffer)
        ensures
            exists|
                tree: Tree,
                a: &mut R,
                b: &mut Buffer,
                c: &mut R,
                d: &mut Buffer,
                e: &mut R,
                f: &mut Buffer,
                g: &mut R,
                h: &mut Buffer,
            |
                tree@ == spec_document(self.extensions, self.max_nesting, input@) && *a == *old(renderer) && *b == *old(output)
                    && #[trigger] call_ensures(R::before_render, (a, b, false), ()) && *c == *final(a)
                    && *d == *final(b) && #[trigger] call_ensures(
                    render_blocks::<R>,
                    (c, d, &tree.blocks),
                    (),
                ) && *e == *final(c) && *f == *final(d) && #[trigger] call_ensures(
                    render_footnotes::<R>,
                    (e, f, &tree.footnotes),
                    (),
                ) && *g == *final(e) && *h == *final(f) && *final(g) == *final(renderer) && *final(h) == *final(output)
                    && #[trigger] call_ensures(R::after_render, (g, h, false), ()),
    {
        let tree = self.parse(input);
        renderer.before_render(output, false);
        render_blocks(renderer, output, &tree.blocks);
        render_footnotes(renderer, output, &tree.footnotes);
        renderer.after_render(output, false);
    }

    /// Renders `input` as inline content into `output`: `before_render`
    /// runs first, then the spans that `input` parses to are rendered in
    /// order, and `after_render` runs last.  No block is handed over.
    pub fn render_inline<R: Render>(&self, renderer: &mut R, input: &[u8], output: &mut Buffer)
        ensures
            exists|
                spans: Vec<Span>,
                a: &mut R,
                b: &mut Buffer,
                c: &mut R,
                d: &mut Buffer,
                g: &mut R,
                h: &mut Buffer,
            |
                spans_model(spans@) == spec_document_inline(self.extensions, self.max_nesting, input@) && *a == *old(renderer)
                    && *b == *old(output) && #[trigger] call_ensures(R::before_render, (a, b, true), ())
                    && *c == *final(a) && *d == *final(b) && #[trigger] call_ensures(
                    render_spans::<R>,
                    (c, d, &spans),
                    (),
                ) && *g == *final(c) && *h == *final(d) && *final(g) == *final(renderer) && *final(h) == *final(output)
                    && #[trigger] call_ensures(R::after_render, (g, h, true), ()),
    {
        let spans = self.parse_inline(input);
        renderer.before_render(output, true);
        render_spans(renderer, output, &spans);
        renderer.after_render(output, true);
    }
}

} // verus!
