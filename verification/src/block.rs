//! The block scanner: paragraphs, headers, block quotes, lists, code
//! blocks, raw HTML blocks, horizontal rules and tables.
//!
//! Each parser looks at the bytes of `data` from `beg` up to `end`, appends
//! the blocks that it recognises to `out`, and returns how many bytes it has
//! taken.

use vstd::prelude::*;
use crate::chars::{copy_range, lemma_skipped, skip, skip_back, skipped, skipped_back, Class};
use crate::extensions;
use crate::html_blocks::{htmlblock_len, spec_htmlblock_len};
use crate::inline::{parse_inline, restored, spec_inline};
use crate::lines::{
    atx_level, indent3, is_atxheader, is_blank, is_codefence, is_headerline, is_hrule,
    lemma_next_line, line_end, next_line, parse_codefence, prefix_code, prefix_oli, prefix_quote,
    prefix_uli, spec_atx_level, spec_indent3, spec_is_atxheader, spec_is_blank,
    spec_is_codefence, spec_is_headerline, spec_is_hrule, spec_line_end, spec_next_line,
    spec_parse_codefence, spec_prefix_code, spec_prefix_oli, spec_prefix_quote, spec_prefix_uli,
};
use crate::parser::{Parser, State};
use crate::renderer::list::{List, BLOCK, ORDERED};
use crate::renderer::{TableFlags, TABLE_ALIGN_LEFT, TABLE_ALIGN_RIGHT};
use crate::autolink::count_of;
use crate::scan::{find_emph_char, spec_find_emph};
use crate::tree::{
    blocks_model, cells_model, push_block, push_cell, push_row, rows_model, spans_model, Block,
    BlockModel, Cell, CellModel, Row, RowModel, Span, SpanModel,
};

verus! {

/// What a block parser did: the state and the blocks as they stand after
/// it, and how many bytes it has taken.
pub ghost struct Parsed {
    pub st: State,
    pub out: Seq<BlockModel>,
    pub n: int,
}

/// Inline content with the state as it stands after the scan of it.
pub ghost struct Content {
    pub st: State,
    pub spans: Seq<SpanModel>,
}

/// The inline content from `beg` up to `end`, scanned with one more span
/// (or, where `block` is set, block) counted as work in progress.
pub open spec fn content_of(st: State, data: Seq<u8>, beg: int, end: int, block: bool) -> Content {
    let inner = spec_inline(if block {
        st.enter_block()
    } else {
        st.enter_span()
    }, Seq::empty(), data, beg, end);
    Content { st: restored(inner.st, st), spans: inner.out }
}

/// The inline content from `beg` up to `end`, scanned with one more span
/// (or, where `block` is set, block) counted as work in progress.
pub fn inline_content(p: &mut Parser, data: &[u8], beg: usize, end: usize, block: bool) -> (content:
    Vec<Span>)
    requires
        beg <= end <= data.len(),
    ensures
        (Content { st: final(p)@, spans: spans_model(content@) }) == content_of(
            old(p)@,
            data@,
            beg as int,
            end as int,
            block,
        ),
{
    let span_saved: usize = p.span_depth;
    let block_saved: usize = p.block_depth;
    if block {
        p.enter_block();
    } else {
        p.enter_span();
    }
    let mut content: Vec<Span> = Vec::new();
    parse_inline(p, &mut content, data, beg, end);
    p.set_depth(span_saved, block_saved);
    content
}

/// An ATX header at `beg`: one to six `#`, spaces, and the title up to the
/// end of the line, without the `#` and the spaces that end it.  The line
/// is taken without its newline; a line without a title gives no block.
#[verifier::opaque]
pub open spec fn spec_atxheader(st: State, out: Seq<BlockModel>, data: Seq<u8>, beg: int, end: int) -> Parsed {
    let level = spec_atx_level(data, beg, end);
    let i = skipped(data, beg + level, end, Class::Is(0x20));
    let le = spec_line_end(data, i, end);
    let e1 = skipped_back(data, beg, le, Class::Is(0x23));
    let e2 = skipped_back(data, beg, e1, Class::Is(0x20));
    let c = content_of(st, data, i, e2, false);
    if e2 > i {
        Parsed {
            st: c.st,
            out: out.push(BlockModel::Header { content: c.spans, level: level as i32 }),
            n: le - beg,
        }
    } else {
        Parsed { st, out, n: le - beg }
    }
}

/// An ATX header: one to six `#`, the title, and closing `#` that are
/// dropped.  Takes the line without its newline.
pub fn parse_atxheader(p: &mut Parser, out: &mut Vec<Block>, data: &[u8], beg: usize, end: usize) -> (n:
    usize)
    requires
        beg < end <= data.len(),
        data@[beg as int] == 0x23,
    ensures
        1 <= n <= end - beg,
        (Parsed { st: final(p)@, out: blocks_model(final(out)@), n: n as int }) == spec_atxheader(
            old(p)@,
            blocks_model(old(out)@),
            data@,
            beg as int,
            end as int,
        ),
{
    reveal(spec_atxheader);
    let level: usize = atx_level(data, beg, end);
    let i: usize = skip(data, beg + level, end, Class::Is(0x20));
    let le: usize = line_end(data, i, end);
    let e1: usize = skip_back(data, beg, le, Class::Is(0x23));
    let e2: usize = skip_back(data, beg, e1, Class::Is(0x20));
    if e2 > i {
        let content = inline_content(p, data, i, e2, false);
        push_block(out, Block::Header { content, level: level as i32 });
    }
    le - beg
}

/// Where a paragraph that goes on at `beg + i` ends.
pub ghost struct ParaEnd {
    /// Where the text of the paragraph ends, counted from `beg`.
    pub i: int,
    /// How many bytes the paragraph takes.
    pub e: int,
    /// The level of the setext header that the last line is, or zero.
    pub level: i32,
}

/// Where the paragraph that goes on at `beg + i` ends: at a blank line,
/// which it takes; at the underline of a setext header, which it takes;
/// or before a line that is an ATX header, a horizontal rule or a quote.
pub open spec fn para_scan(space_headers: bool, data: Seq<u8>, beg: int, end: int, i: int) -> ParaEnd
    decreases end - beg - i,
{
    let e = spec_next_line(data, beg + i, end) - beg;
    let level = spec_is_headerline(data, beg + i, end);
    if i < 0 || beg + i >= end {
        ParaEnd { i, e: i, level: 0 }
    } else if spec_is_blank(data, beg + i, end) {
        ParaEnd { i, e, level: 0 }
    } else if level != 0 {
        ParaEnd { i, e, level }
    } else if spec_is_atxheader(space_headers, data, beg + i, end) || spec_is_hrule(
        data,
        beg + i,
        end,
    ) || spec_prefix_quote(data, beg + i, end) != 0 {
        ParaEnd { i, e: i, level: 0 }
    } else {
        proof {
            lemma_next_line(data, beg + i, end);
        }
        para_scan(space_headers, data, beg, end, e)
    }
}

/// A paragraph at `beg`: the lines up to where it ends, without the
/// newlines at their end.  Where a setext underline ends it, its last
/// line is a header, and the lines before that, if there are any, a
/// paragraph.
#[verifier::opaque]
pub open spec fn spec_paragraph(st: State, out: Seq<BlockModel>, data: Seq<u8>, beg: int, end: int) -> Parsed {
    let pe = para_scan(st.ext.on(extensions::SPACE_HEADERS), data, beg, end, 0);
    let work = skipped_back(data, beg, beg + pe.i, Class::Is(0x0a));
    let last = skipped_back(data, beg + 1, work, Class::Not(0x0a));
    let before = skipped_back(data, beg, last - 1, Class::Is(0x0a));
    let para = content_of(st, data, beg, work, true);
    let first = content_of(st, data, beg, before, true);
    if pe.level == 0 {
        Parsed { st: para.st, out: out.push(BlockModel::Paragraph { content: para.spans }), n: pe.e }
    } else if work > beg && before > beg {
        let head = content_of(first.st, data, last, work, false);
        Parsed {
            st: head.st,
            out: out.push(BlockModel::Paragraph { content: first.spans }).push(
                BlockModel::Header { content: head.spans, level: pe.level },
            ),
            n: pe.e,
        }
    } else {
        let head = content_of(st, data, beg, work, false);
        Parsed {
            st: head.st,
            out: out.push(BlockModel::Header { content: head.spans, level: pe.level }),
            n: pe.e,
        }
    }
}

/// A paragraph: the lines up to a blank line or to a line that starts
/// another block.
pub fn parse_paragraph(p: &mut Parser, out: &mut Vec<Block>, data: &[u8], beg: usize, end: usize) -> (n:
    usize)
    requires
        beg <= end <= data.len(),
    ensures
        n <= end - beg,
        (Parsed { st: final(p)@, out: blocks_model(final(out)@), n: n as int }) == spec_paragraph(
            old(p)@,
            blocks_model(old(out)@),
            data@,
            beg as int,
            end as int,
        ),
{
    reveal(spec_paragraph);
    let size: usize = end - beg;
    let space_headers: bool = p.on(extensions::SPACE_HEADERS);
    let mut i: usize = 0;
    let mut e: usize = 0;
    let mut level: i32 = 0;
    while i < size
        invariant_except_break
            i == e,
            level == 0,
            para_scan(space_headers, data@, beg as int, end as int, 0) == para_scan(
                space_headers,
                data@,
                beg as int,
                end as int,
                i as int,
            ),
        invariant
            i <= size,
            e <= size,
            size == end - beg,
            end <= data.len(),
            0 <= level <= 2,
        ensures
            i <= size,
            e <= size,
            (ParaEnd { i: i as int, e: e as int, level }) == para_scan(
                space_headers,
                data@,
                beg as int,
                end as int,
                0,
            ),
        decreases size - i,
    {
        e = next_line(data, beg + i, end) - beg;
        if is_blank(data, beg + i, end) {
            break ;
        }
        level = is_headerline(data, beg + i, end);
        if level != 0 {
            break ;
        }
        if is_atxheader(space_headers, data, beg + i, end) || is_hrule(data, beg + i, end)
            || prefix_quote(data, beg + i, end) != 0 {
            e = i;
            break ;
        }
        i = e;
    }
    let work: usize = skip_back(data, beg, beg + i, Class::Is(0x0a));
    if level == 0 {
        let content = inline_content(p, data, beg, work, true);
        push_block(out, Block::Paragraph { content });
    } else {
        let mut head_beg: usize = beg;
        if work > beg {
            let last: usize = skip_back(data, beg + 1, work, Class::Not(0x0a));
            let before: usize = skip_back(data, beg, last - 1, Class::Is(0x0a));
            if before > beg {
                let content = inline_content(p, data, beg, before, true);
                push_block(out, Block::Paragraph { content });
                head_beg = last;
            }
        }
        let content = inline_content(p, data, head_beg, work, false);
        push_block(out, Block::Header { content, level });
    }
    e
}

/// Where the text of a fenced code block that goes on at `beg + i` ends,
/// and with it the block: before, and at the end of, the line that holds
/// nothing but a fence like the one that opens the block; at the end of
/// the text where there is none.
pub open spec fn fence_scan(data: Seq<u8>, beg: int, end: int, i: int, first: crate::lines::Fence) -> (
    int,
    int,
)
    decreases end - beg - i,
{
    let le = spec_line_end(data, beg + i, end) - beg;
    let f = spec_is_codefence(data, beg + i, beg + le);
    if i < 0 || beg + i >= end {
        (end - beg, end - beg)
    } else if first.len == f.len && first.width == f.width && first.chr == f.chr && spec_is_blank(
        data,
        beg + i + first.len,
        beg + le,
    ) {
        (i, le)
    } else {
        proof {
            lemma_skipped(data, beg + i, end, Class::Not(0x0a));
        }
        fence_scan(data, beg, end, if le < end - beg {
            le + 1
        } else {
            end - beg
        }, first)
    }
}

/// A fenced code block at `beg`: a line with a fence and an optional
/// language, and the lines up to a closing fence as they are.
#[verifier::opaque]
pub open spec fn spec_fencedcode(out: Seq<BlockModel>, data: Seq<u8>, beg: int, end: int) -> (
    Seq<BlockModel>,
    int,
) {
    let le = spec_line_end(data, beg, end);
    let first = spec_parse_codefence(data, beg, le);
    let text_start = if le < end {
        le + 1 - beg
    } else {
        le - beg
    };
    let r = fence_scan(data, beg, end, text_start, first.fence);
    if first.fence.len == 0 {
        (out, 0)
    } else {
        (
            out.push(
                BlockModel::CodeBlock {
                    text: data.subrange(beg + text_start, beg + r.0),
                    lang: data.subrange(beg + first.lang_beg, beg + first.lang_end),
                },
            ),
            r.1,
        )
    }
}

/// A fenced code block: an opening fence with an optional language, the
/// lines up to a closing fence of the same width, or up to the end.
pub fn parse_fencedcode(out: &mut Vec<Block>, data: &[u8], beg: usize, end: usize) -> (n: usize)
    requires
        beg <= end <= data.len(),
    ensures
        n <= end - beg,
        n == 0 ==> *final(out) == *old(out),
        (blocks_model(final(out)@), n as int) == spec_fencedcode(
            blocks_model(old(out)@),
            data@,
            beg as int,
            end as int,
        ),
{
    reveal(spec_fencedcode);
    let size: usize = end - beg;
    let le: usize = line_end(data, beg, end);
    let first = parse_codefence(data, beg, le);
    if first.fence.len == 0 {
        return 0;
    }
    let text_start: usize = if le < end {
        le + 1 - beg
    } else {
        le - beg
    };
    let mut i: usize = text_start;
    let mut line_start: usize = i;
    while i < size
        invariant_except_break
            line_start == i,
            fence_scan(data@, beg as int, end as int, text_start as int, first.fence)
                == fence_scan(data@, beg as int, end as int, i as int, first.fence),
        invariant
            text_start <= line_start <= i <= size,
            size == end - beg,
            end <= data.len(),
        ensures
            text_start <= line_start <= i <= size,
            (line_start as int, i as int) == fence_scan(
                data@,
                beg as int,
                end as int,
                text_start as int,
                first.fence,
            ),
        decreases size - i,
    {
        let le2: usize = line_end(data, beg + i, end) - beg;
        let f = is_codefence(data, beg + i, beg + le2);
        if first.fence.len == f.len && first.fence.width == f.width && first.fence.chr == f.chr
            && is_blank(data, beg + i + first.fence.len, beg + le2) {
            line_start = i;
            i = le2;
            break ;
        }
        i = if le2 < size {
            le2 + 1
        } else {
            size
        };
        line_start = i;
    }
    push_block(
        out,
        Block::CodeBlock {
            text: copy_range(data, beg + text_start, beg + line_start),
            lang: copy_range(data, beg + first.lang_beg, beg + first.lang_end),
        },
    );
    i
}

/// The lines of an indented code block that goes on at `beg + b`, added
/// to `work` without their indentation, and where the block ends: before
/// the first line that is neither indented by four spaces nor blank.  A
/// blank line gives a newline.
pub open spec fn code_lines(data: Seq<u8>, beg: int, end: int, b: int, work: Seq<u8>) -> (int, Seq<u8>)
    decreases end - beg - b,
{
    let e = spec_next_line(data, beg + b, end) - beg;
    let pre = spec_prefix_code(data, beg + b, beg + e);
    let b2 = b + pre;
    if b < 0 || beg + b >= end {
        (b, work)
    } else if pre == 0 && !spec_is_blank(data, beg + b, beg + e) {
        (b, work)
    } else {
        proof {
            lemma_next_line(data, beg + b, end);
        }
        code_lines(data, beg, end, e, if b2 >= e {
            work
        } else if spec_is_blank(data, beg + b2, beg + e) {
            work.push(0x0a)
        } else {
            work + data.subrange(beg + b2, beg + e)
        })
    }
}

/// An indented code block at `beg`: its lines without their indentation,
/// and one newline in place of those at its end.
#[verifier::opaque]
pub open spec fn spec_blockcode(out: Seq<BlockModel>, data: Seq<u8>, beg: int, end: int) -> (
    Seq<BlockModel>,
    int,
) {
    let r = code_lines(data, beg, end, 0, Seq::empty());
    let keep = skipped_back(r.1, 0, r.1.len() as int, Class::Is(0x0a));
    (
        out.push(
            BlockModel::CodeBlock { text: r.1.subrange(0, keep).push(0x0a), lang: Seq::empty() },
        ),
        r.0,
    )
}

/// An indented code block: the lines that start with four spaces, and the
/// blank lines between them.
pub fn parse_blockcode(out: &mut Vec<Block>, data: &[u8], beg: usize, end: usize) -> (n: usize)
    requires
        beg <= end <= data.len(),
    ensures
        n <= end - beg,
        (blocks_model(final(out)@), n as int) == spec_blockcode(
            blocks_model(old(out)@),
            data@,
            beg as int,
            end as int,
        ),
{
    reveal(spec_blockcode);
    let size: usize = end - beg;
    let mut work: Vec<u8> = Vec::new();
    let mut b: usize = 0;
    while b < size
        invariant
            b <= size,
            size == end - beg,
            end <= data.len(),
            code_lines(data@, beg as int, end as int, 0, Seq::empty()) == code_lines(
                data@,
                beg as int,
                end as int,
                b as int,
                work@,
            ),
        ensures
            b <= size,
            (b as int, work@) == code_lines(data@, beg as int, end as int, 0, Seq::empty()),
        decreases size - b,
    {
        let e: usize = next_line(data, beg + b, end) - beg;
        let pre: usize = prefix_code(data, beg + b, beg + e);
        if pre == 0 && !is_blank(data, beg + b, beg + e) {
            break ;
        }
        let b2: usize = b + pre;
        let ghost before = work@;
        if b2 < e {
            if is_blank(data, beg + b2, beg + e) {
                work.push(0x0a);
            } else {
                work.extend_from_slice(vstd::slice::slice_subrange(data, beg + b2, beg + e));
                assert(work@ =~= before + data@.subrange(beg + b2, beg + e));
            }
        }
        b = e;
    }
    let keep: usize = skip_back(work.as_slice(), 0, work.len(), Class::Is(0x0a));
    work.truncate(keep);
    work.push(0x0a);
    push_block(out, Block::CodeBlock { text: work, lang: Vec::new() });
    b
}

/// A raw HTML block at `beg`, where one starts there.
#[verifier::opaque]
pub open spec fn spec_htmlblock(out: Seq<BlockModel>, data: Seq<u8>, beg: int, end: int) -> (
    Seq<BlockModel>,
    int,
) {
    let n = spec_htmlblock_len(data, beg, end);
    if n != 0 {
        (out.push(BlockModel::HtmlBlock { text: data.subrange(beg, beg + n) }), n)
    } else {
        (out, 0)
    }
}

/// A raw HTML block.
pub fn parse_htmlblock(out: &mut Vec<Block>, data: &[u8], beg: usize, end: usize) -> (n: usize)
    requires
        beg <= end <= data.len(),
    ensures
        n <= end - beg,
        n == 0 ==> *final(out) == *old(out),
        (blocks_model(final(out)@), n as int) == spec_htmlblock(
            blocks_model(old(out)@),
            data@,
            beg as int,
            end as int,
        ),
{
    reveal(spec_htmlblock);
    let n: usize = htmlblock_len(data, beg, end);
    if n != 0 {
        push_block(out, Block::HtmlBlock { text: copy_range(data, beg, beg + n) });
    }
    n
}


/// The flags of a table cell in a column with the alignment bits `align`.
pub open spec fn cell_flags(align: u32, header: bool) -> TableFlags {
    TableFlags {
        bits: (align & crate::renderer::TABLE_ALIGNMASK) | (if header {
            crate::renderer::TABLE_HEADER
        } else {
            0
        }),
    }
}

/// The cells of a table row from `beg + i` on, added to `cells`: each
/// runs up to the next `|` that stands outside of code spans and links,
/// without the spacing around it, and is scanned as inline content.
pub open spec fn row_cells(
    st: State,
    data: Seq<u8>,
    beg: int,
    end: int,
    i: int,
    col_data: Seq<u32>,
    header: bool,
    cells: Seq<CellModel>,
) -> (State, Seq<CellModel>)
    decreases col_data.len() - cells.len(),
{
    let size = end - beg;
    let cell_start = skipped(data, beg + i, end, Class::Spacing) - beg;
    let f = spec_find_emph(data, beg + cell_start, end, 0x7c, 0);
    let len = if f == 0 && cell_start < size && data[beg + cell_start] != 0x7c {
        size - cell_start
    } else {
        f
    };
    let i2 = cell_start + len;
    let cell_end = skipped_back(data, beg + cell_start, beg + i2, Class::Spacing) - beg;
    let c = content_of(st, data, beg + cell_start, beg + cell_end, false);
    if cells.len() >= col_data.len() || i < 0 || i >= size {
        (st, cells)
    } else {
        row_cells(c.st, data, beg, end, if i2 < size {
            i2 + 1
        } else {
            size
        }, col_data, header, cells.push(
            CellModel {
                content: c.spans,
                flags: cell_flags(col_data[cells.len() as int], header),
            },
        ))
    }
}

/// `cells` with an empty cell for each column that it lacks.
pub open spec fn padded(col_data: Seq<u32>, header: bool, cells: Seq<CellModel>) -> Seq<CellModel>
    decreases col_data.len() - cells.len(),
{
    if cells.len() >= col_data.len() {
        cells
    } else {
        padded(
            col_data,
            header,
            cells.push(
                CellModel {
                    content: Seq::empty(),
                    flags: cell_flags(col_data[cells.len() as int], header),
                },
            ),
        )
    }
}

/// One row of a table: a cell for each column.
pub open spec fn spec_table_row(
    st: State,
    data: Seq<u8>,
    beg: int,
    end: int,
    col_data: Seq<u32>,
    header: bool,
) -> (State, RowModel) {
    let r = row_cells(st.enter_span(), data, beg, end, if beg < end && data[beg] == 0x7c {
        1
    } else {
        0
    }, col_data, header, Seq::empty());
    (restored(r.0, st), RowModel { cells: padded(col_data, header, r.1) })
}

/// One row of a table: `columns` cells, split at the `|` that stand
/// outside of code spans and links.  Cells that the row lacks are empty.
pub fn parse_table_row(
    p: &mut Parser,
    data: &[u8],
    beg: usize,
    end: usize,
    col_data: &Vec<u32>,
    header: bool,
) -> (row: Row)
    requires
        beg <= end <= data.len(),
    ensures
        (final(p)@, crate::tree::row_model(row)) == spec_table_row(
            old(p)@,
            data@,
            beg as int,
            end as int,
            col_data@,
            header,
        ),
{
    let size: usize = end - beg;
    let columns: usize = col_data.len();
    let span_saved: usize = p.span_depth;
    let block_saved: usize = p.block_depth;
    p.enter_span();
    let mut cells: Vec<Cell> = Vec::new();
    let mut i: usize = 0;
    if i < size && data[beg + i] == 0x7c {
        i += 1;
    }
    let ghost i0 = i;
    let ghost st1 = p@;
    assert(cells_model(cells@) =~= Seq::<CellModel>::empty());
    while cells.len() < columns && i < size
        invariant
            cells@.len() <= columns,
            columns == col_data@.len(),
            i <= size,
            size == end - beg,
            end <= data.len(),
            cells_model(cells@).len() == cells@.len(),
            row_cells(
                p@,
                data@,
                beg as int,
                end as int,
                i as int,
                col_data@,
                header,
                cells_model(cells@),
            ) == row_cells(
                st1,
                data@,
                beg as int,
                end as int,
                i0 as int,
                col_data@,
                header,
                Seq::empty(),
            ),
        decreases columns - cells@.len(),
    {
        let cell_start: usize = skip(data, beg + i, end, Class::Spacing) - beg;
        let mut len: usize = find_emph_char(data, beg + cell_start, end, 0x7c);
        if len == 0 && cell_start < size && data[beg + cell_start] != 0x7c {
            len = size - cell_start;
        }
        let i2: usize = cell_start + len;
        let cell_end: usize = skip_back(data, beg + cell_start, beg + i2, Class::Spacing) - beg;
        let content = inline_content(p, data, beg + cell_start, beg + cell_end, false);
        let flags = TableFlags::of(col_data[cells.len()], header);
        push_cell(&mut cells, Cell { content, flags });
        i = if i2 < size {
            i2 + 1
        } else {
            size
        };
    }
    while cells.len() < columns
        invariant
            cells@.len() <= columns,
            columns == col_data@.len(),
            cells_model(cells@).len() == cells@.len(),
            padded(col_data@, header, cells_model(cells@)) == padded(
                col_data@,
                header,
                row_cells(
                    st1,
                    data@,
                    beg as int,
                    end as int,
                    i0 as int,
                    col_data@,
                    header,
                    Seq::empty(),
                ).1,
            ),
        decreases columns - cells@.len(),
    {
        let flags = TableFlags::of(col_data[cells.len()], header);
        let empty: Vec<Span> = Vec::new();
        assert(spans_model(empty@) =~= Seq::<SpanModel>::empty());
        push_cell(&mut cells, Cell { content: empty, flags });
    }
    p.set_depth(span_saved, block_saved);
    Row { cells }
}

/// What the first two lines of a table give, as a mathematical value.
pub ghost struct TableHeadModel {
    pub len: int,
    pub col_data: Seq<u32>,
    pub header_end: int,
}

/// What the first two lines of a table give: how many bytes they take
/// (zero where they start no table), the alignment of each column, and
/// where the header row ends.
pub struct TableHead {
    pub len: usize,
    pub col_data: Vec<u32>,
    pub header_end: usize,
}

impl View for TableHead {
    type V = TableHeadModel;

    open spec fn view(&self) -> TableHeadModel {
        TableHeadModel {
            len: self.len as int,
            col_data: self.col_data@,
            header_end: self.header_end as int,
        }
    }
}

/// No table.
pub open spec fn no_table() -> TableHeadModel {
    TableHeadModel { len: 0, col_data: Seq::empty(), header_end: 0 }
}

/// The alignment bits that the separator row of a table gives from
/// `beg + i` on, written to `cols` from column `col` on, and the column
/// at which the row ends: each column holds three or more of `-` and `:`,
/// a `:` at its start aligns it left, a `:` at its end aligns it right,
/// and a `|` or a `+` ends it.
pub open spec fn under_scan(
    data: Seq<u8>,
    beg: int,
    ue: int,
    i: int,
    col: int,
    cols: Seq<u32>,
) -> (int, Seq<u32>)
    decreases cols.len() - col,
{
    let a = skipped(data, beg + i, beg + ue, Class::Is(0x20)) - beg;
    let left = a < ue && data[beg + a] == 0x3a;
    let a1 = if left {
        a + 1
    } else {
        a
    };
    let b = skipped(data, beg + a1, beg + ue, Class::Is(0x2d)) - beg;
    let right = b < ue && data[beg + b] == 0x3a;
    let b1 = if right {
        b + 1
    } else {
        b
    };
    let c = skipped(data, beg + b1, beg + ue, Class::Is(0x20)) - beg;
    let dashes = (a1 - a) + (b - a1) + (b1 - b);
    let flags: u32 = (if left {
        TABLE_ALIGN_LEFT
    } else {
        0u32
    }) | (if right {
        TABLE_ALIGN_RIGHT
    } else {
        0u32
    });
    let cols2 = cols.update(col, flags);
    if col < 0 || col >= cols.len() || i >= ue {
        (col, cols)
    } else if (c < ue && data[beg + c] != 0x7c && data[beg + c] != 0x2b) || dashes < 3 {
        (col, cols2)
    } else {
        under_scan(data, beg, ue, if c < ue {
            c + 1
        } else {
            ue
        }, col + 1, cols2)
    }
}

/// What the header row and the separator row of a table give.  The header
/// row holds a `|`; the separator row gives a column for each cell of the
/// header row.
pub open spec fn spec_table_header(data: Seq<u8>, beg: int, end: int) -> TableHeadModel {
    let size = end - beg;
    let le = spec_line_end(data, beg, end) - beg;
    let pipes = count_of(data, beg, beg + le, 0x7c);
    let header_end = skipped_back(data, beg, beg + le, Class::Spacing) - beg;
    let minus = (if data[beg] == 0x7c {
        1int
    } else {
        0int
    }) + (if header_end > 0 && data[beg + header_end - 1] == 0x7c {
        1int
    } else {
        0int
    });
    let columns = pipes - minus + 1;
    let i1 = if le + 1 < size && data[beg + le + 1] == 0x7c {
        le + 2
    } else {
        le + 1
    };
    let under_end = spec_line_end(data, beg + i1, end) - beg;
    let r = under_scan(data, beg, under_end, i1, 0, Seq::new(columns as nat, |k: int| 0u32));
    if le >= size || pipes == 0 || pipes < minus || r.0 < columns {
        no_table()
    } else {
        TableHeadModel {
            len: if under_end < size {
                under_end + 1
            } else {
                under_end
            },
            col_data: r.1,
            header_end,
        }
    }
}

/// Reads the header row and the separator row of a table.
pub fn parse_table_header(data: &[u8], beg: usize, end: usize) -> (h: TableHead)
    requires
        beg <= end <= data.len(),
    ensures
        h@ == spec_table_header(data@, beg as int, end as int),
        h.len <= end - beg,
        h.header_end <= end - beg,
        h.len > 0 ==> h.len >= 2,
{
    let size: usize = end - beg;
    let le: usize = line_end(data, beg, end) - beg;
    let mut pipes: usize = 0;
    let mut k: usize = 0;
    while k < le
        invariant
            k <= le <= size,
            pipes <= k,
            size == end - beg,
            end <= data.len(),
            pipes == count_of(data@, beg as int, beg + k, 0x7c),
        decreases le - k,
    {
        if data[beg + k] == 0x7c {
            pipes += 1;
        }
        k += 1;
    }
    if le >= size || pipes == 0 {
        return TableHead { len: 0, col_data: Vec::new(), header_end: 0 };
    }
    let header_end: usize = skip_back(data, beg, beg + le, Class::Spacing) - beg;
    let mut minus: usize = 0;
    if data[beg] == 0x7c {
        minus += 1;
    }
    if header_end > 0 && data[beg + header_end - 1] == 0x7c {
        minus += 1;
    }
    if pipes < minus {
        return TableHead { len: 0, col_data: Vec::new(), header_end: 0 };
    }
    let columns: usize = pipes - minus + 1;
    let mut col_data: Vec<u32> = Vec::new();
    let mut z: usize = 0;
    while z < columns
        invariant
            z <= columns,
            col_data@.len() == z,
            forall|j: int| 0 <= j < z ==> col_data@[j] == 0u32,
        decreases columns - z,
    {
        col_data.push(0);
        z += 1;
    }
    assert(col_data@ =~= Seq::new(columns as nat, |k: int| 0u32));
    let i1: usize = if le + 1 < size && data[beg + le + 1] == 0x7c {
        le + 2
    } else {
        le + 1
    };
    let under_end: usize = line_end(data, beg + i1, end) - beg;
    let mut i: usize = i1;
    let mut col: usize = 0;
    let ghost cols0 = col_data@;
    while col < columns && i < under_end
        invariant_except_break
            under_scan(data@, beg as int, under_end as int, i1 as int, 0, cols0) == under_scan(
                data@,
                beg as int,
                under_end as int,
                i as int,
                col as int,
                col_data@,
            ),
        invariant
            col <= columns,
            col_data@.len() == columns,
            i1 <= i <= under_end <= size,
            size == end - beg,
            end <= data.len(),
        ensures
            col <= columns,
            col_data@.len() == columns,
            (col as int, col_data@) == under_scan(
                data@,
                beg as int,
                under_end as int,
                i1 as int,
                0,
                cols0,
            ),
        decreases columns - col,
    {
        let a: usize = skip(data, beg + i, beg + under_end, Class::Is(0x20)) - beg;
        let left: bool = a < under_end && data[beg + a] == 0x3a;
        let a1: usize = if left {
            a + 1
        } else {
            a
        };
        let b: usize = skip(data, beg + a1, beg + under_end, Class::Is(0x2d)) - beg;
        let right: bool = b < under_end && data[beg + b] == 0x3a;
        let b1: usize = if right {
            b + 1
        } else {
            b
        };
        let c: usize = skip(data, beg + b1, beg + under_end, Class::Is(0x20)) - beg;
        let dashes: usize = (a1 - a) + (b - a1) + (b1 - b);
        let flags: u32 = (if left {
            TABLE_ALIGN_LEFT
        } else {
            0u32
        }) | (if right {
            TABLE_ALIGN_RIGHT
        } else {
            0u32
        });
        col_data.set(col, flags);
        if (c < under_end && data[beg + c] != 0x7c && data[beg + c] != 0x2b) || dashes < 3 {
            break ;
        }
        i = if c < under_end {
            c + 1
        } else {
            under_end
        };
        col += 1;
    }
    if col < columns {
        return TableHead { len: 0, col_data: Vec::new(), header_end: 0 };
    }
    let len: usize = if under_end < size {
        under_end + 1
    } else {
        under_end
    };
    TableHead { len, col_data, header_end }
}

/// The body rows of a table from `beg + i` on, added to `rows`, and where
/// the table ends: before the first line without a `|`, and before a last
/// line that no newline ends.
pub open spec fn body_rows(
    st: State,
    data: Seq<u8>,
    beg: int,
    end: int,
    i: int,
    col_data: Seq<u32>,
    rows: Seq<RowModel>,
) -> (State, Seq<RowModel>, int)
    decreases end - beg - i,
{
    let size = end - beg;
    let le = spec_line_end(data, beg + i, end) - beg;
    let pipes = count_of(data, beg + i, beg + le, 0x7c);
    let r = spec_table_row(st, data, beg + i, beg + le, col_data, false);
    if i < 0 || i >= size || pipes == 0 || le >= size {
        (st, rows, i)
    } else {
        proof {
            lemma_skipped(data, beg + i, end, Class::Not(0x0a));
        }
        body_rows(r.0, data, beg, end, le + 1, col_data, rows.push(r.1))
    }
}

/// A table at `beg`: a header row, a separator row that gives the
/// alignment of the columns, and body rows.
#[verifier::opaque]
pub open spec fn spec_table(st: State, out: Seq<BlockModel>, data: Seq<u8>, beg: int, end: int) -> Parsed {
    let head = spec_table_header(data, beg, end);
    let h = spec_table_row(
        st.enter_block().enter_span().enter_block(),
        data,
        beg,
        beg + head.header_end,
        head.col_data,
        true,
    );
    let b = body_rows(h.0, data, beg, end, head.len, head.col_data, Seq::empty());
    if head.len == 0 {
        Parsed { st, out, n: 0 }
    } else {
        Parsed {
            st: restored(b.0, st),
            out: out.push(BlockModel::Table { header: seq![h.1], body: b.1 }),
            n: b.2,
        }
    }
}

/// A table: a header row, a separator row that gives the alignment of the
/// columns, and body rows up to the first line without a `|`.
pub fn parse_table(p: &mut Parser, out: &mut Vec<Block>, data: &[u8], beg: usize, end: usize) -> (n:
    usize)
    requires
        beg <= end <= data.len(),
    ensures
        n <= end - beg,
        n == 0 ==> *final(out) == *old(out) && *final(p) == *old(p),
        (Parsed { st: final(p)@, out: blocks_model(final(out)@), n: n as int }) == spec_table(
            old(p)@,
            blocks_model(old(out)@),
            data@,
            beg as int,
            end as int,
        ),
{
    reveal(spec_table);
    let size: usize = end - beg;
    let head = parse_table_header(data, beg, end);
    if head.len == 0 {
        return 0;
    }
    let span_saved: usize = p.span_depth;
    let block_saved: usize = p.block_depth;
    p.enter_block();
    p.enter_span();
    p.enter_block();
    let mut header: Vec<Row> = Vec::new();
    let first = parse_table_row(p, data, beg, beg + head.header_end, &head.col_data, true);
    assert(rows_model(header@) =~= Seq::<RowModel>::empty());
    push_row(&mut header, first);
    assert(rows_model(header@) =~= seq![crate::tree::row_model(first)]);
    let ghost st1 = p@;
    let mut body: Vec<Row> = Vec::new();
    assert(rows_model(body@) =~= Seq::<RowModel>::empty());
    let mut i: usize = head.len;
    while i < size
        invariant
            2 <= head.len <= i,
            i <= size,
            size == end - beg,
            end <= data.len(),
            body_rows(st1, data@, beg as int, end as int, head.len as int, head.col_data@, Seq::empty())
                == body_rows(
                p@,
                data@,
                beg as int,
                end as int,
                i as int,
                head.col_data@,
                rows_model(body@),
            ),
        ensures
            2 <= i <= size,
            (p@, rows_model(body@), i as int) == body_rows(
                st1,
                data@,
                beg as int,
                end as int,
                head.len as int,
                head.col_data@,
                Seq::empty(),
            ),
        decreases size - i,
    {
        let le: usize = line_end(data, beg + i, end) - beg;
        let mut pipes: usize = 0;
        let mut k: usize = i;
        while k < le
            invariant
                i <= k <= le <= size,
                pipes <= k - i,
                size == end - beg,
                end <= data.len(),
                pipes == count_of(data@, beg + i, beg + k, 0x7c),
            decreases le - k,
        {
            if data[beg + k] == 0x7c {
                pipes += 1;
            }
            k += 1;
        }
        if pipes == 0 || le >= size {
            break ;
        }
        let row = parse_table_row(p, data, beg + i, beg + le, &head.col_data, false);
        push_row(&mut body, row);
        i = le + 1;
    }
    p.set_depth(span_saved, block_saved);
    push_block(out, Block::Table { header, body });
    i
}


/// The internal mark that a list ends with the item just read.
pub const LI_END: u32 = 8;

/// The lines of a block quote that goes on at `beg + b`, added to `work`
/// without their quote prefix, and where the quote ends: after a blank
/// line that neither a quoted line nor another blank line follows.
pub open spec fn quote_lines(data: Seq<u8>, beg: int, end: int, b: int, work: Seq<u8>) -> (int, Seq<u8>)
    decreases end - beg - b,
{
    let size = end - beg;
    let e = spec_next_line(data, beg + b, end) - beg;
    let pre = spec_prefix_quote(data, beg + b, beg + e);
    let b2 = b + pre;
    if b < 0 || b >= size {
        (b, work)
    } else if pre == 0 && spec_is_blank(data, beg + b, beg + e) && (e >= size || (spec_prefix_quote(
        data,
        beg + e,
        end,
    ) == 0 && !spec_is_blank(data, beg + e, end))) {
        (e, work)
    } else {
        proof {
            lemma_next_line(data, beg + b, end);
        }
        quote_lines(data, beg, end, e, if b2 < e {
            work + data.subrange(beg + b2, beg + e)
        } else {
            work
        })
    }
}

/// How the scan of the lines of a list item stands.
pub ghost struct ItemScan {
    /// Where the scan stands, counted from the start of the item.
    pub b: int,
    /// The text of the item so far, without markers and indentation.
    pub work: Seq<u8>,
    /// Whether the line before was blank.
    pub in_empty: bool,
    /// Whether a blank line stands within the item.
    pub has_inside_empty: bool,
    /// Whether the scan stands within a fenced code block.
    pub in_fence: bool,
    /// Where in `work` the first nested list starts, or zero.
    pub sublist: int,
    /// The flags of the list.
    pub flags: u32,
}

/// The number of spaces that the line from `from` up to `to` starts with,
/// four at most.
pub open spec fn indent4(data: Seq<u8>, from: int, to: int) -> int {
    skipped(data, from, if to - from > 4 {
        from + 4
    } else {
        to
    }, Class::Is(0x20)) - from
}

/// One line of a list item, at `beg + s.b`: how the scan stands after it,
/// and whether the item ends before it.  The item ends before a line
/// that starts an item that is not indented more than the item itself,
/// and before an unindented line after a blank line.  A line that starts
/// an item that is indented more starts a nested list.  The item ends
/// the list where, after a blank line, an item of another kind or an
/// unindented line follows.
pub open spec fn item_step(fenced: bool, orgpre: int, data: Seq<u8>, beg: int, end: int, s: ItemScan) -> (
    ItemScan,
    bool,
) {
    let b = s.b;
    let e = spec_next_line(data, beg + b, end) - beg;
    let i = indent4(data, beg + b, beg + e);
    let from = beg + b + i;
    let in_fence = if fenced && spec_is_codefence(data, from, beg + e).len != 0 {
        !s.in_fence
    } else {
        s.in_fence
    };
    let uli = if in_fence {
        0
    } else {
        spec_prefix_uli(data, from, beg + e)
    };
    let oli = if in_fence {
        0
    } else {
        spec_prefix_oli(data, from, beg + e)
    };
    let new_item = (uli != 0 && !spec_is_hrule(data, from, beg + e)) || oli != 0;
    let inside = s.has_inside_empty || (new_item && s.in_empty);
    let other = s.in_empty && ((s.flags & ORDERED != 0 && uli != 0) || (s.flags & ORDERED == 0
        && oli != 0));
    let work = (if s.in_empty {
        s.work.push(0x0a)
    } else {
        s.work
    }) + data.subrange(from, beg + e);
    if spec_is_blank(data, beg + b, beg + e) {
        (ItemScan { b: e, in_empty: true, ..s }, false)
    } else if new_item && i <= orgpre {
        (
            ItemScan {
                has_inside_empty: inside,
                in_fence,
                flags: if other {
                    s.flags | LI_END
                } else {
                    s.flags
                },
                ..s
            },
            true,
        )
    } else if !new_item && s.in_empty && i == 0 {
        (ItemScan { in_fence, flags: s.flags | LI_END, ..s }, true)
    } else {
        (
            ItemScan {
                b: e,
                work,
                in_empty: false,
                has_inside_empty: inside || s.in_empty,
                in_fence,
                sublist: if new_item && s.sublist == 0 {
                    s.work.len() as int
                } else {
                    s.sublist
                },
                flags: s.flags,
            },
            false,
        )
    }
}

/// The lines of a list item from `beg + s.b` on, up to where the item ends.
pub open spec fn item_lines(fenced: bool, orgpre: int, data: Seq<u8>, beg: int, end: int, s: ItemScan) -> ItemScan
    decreases end - beg - s.b,
{
    let r = item_step(fenced, orgpre, data, beg, end, s);
    if s.b < 0 || s.b >= end - beg {
        s
    } else if r.1 || r.0.b <= s.b {
        r.0
    } else {
        item_lines(fenced, orgpre, data, beg, end, r.0)
    }
}

/// What a list item parser did: what a block parser does, and the flags
/// of the list as they stand after the item.
pub ghost struct ItemModel {
    pub st: State,
    pub out: Seq<BlockModel>,
    pub n: int,
    pub flags: u32,
}

/// What `parse_listitem` gives back: how many bytes the item took, and
/// the flags of the list as they stand after it.
pub struct Item {
    pub len: usize,
    pub flags: u32,
}

/// The blocks from `beg` up to `end`.  Nothing where the nesting is
/// beyond the limit.
pub open spec fn spec_block(st: State, out: Seq<BlockModel>, data: Seq<u8>, beg: int, end: int) -> Parsed
    decreases end - beg, 5nat, 0int,
{
    if st.too_deep() || beg > end {
        Parsed { st, out, n: 0 }
    } else {
        block_loop(st, out, data, beg, end, beg)
    }
}

/// The blocks from `b` up to `end`, where the scan of the blocks from
/// `beg` on has come to `b`.
pub open spec fn block_loop(st: State, out: Seq<BlockModel>, data: Seq<u8>, beg: int, end: int, b: int) -> Parsed
    decreases end - beg, 4nat, end - b,
{
    if b < beg || b >= end {
        Parsed { st, out, n: 0 }
    } else {
        let r = one_block(st, out, data, b, end);
        if r.n <= 0 || r.n > end - b {
            Parsed { st: r.st, out: r.out, n: 0 }
        } else {
            block_loop(r.st, r.out, data, beg, end, b + r.n)
        }
    }
}

/// A parse that has left the state as it was.
pub open spec fn plain(st: State, r: (Seq<BlockModel>, int)) -> Parsed {
    Parsed { st, out: r.0, n: r.1 }
}

/// The block that starts at `b`.  The first of these that fits: an ATX
/// header, a raw HTML block, a blank line, a horizontal rule, a fenced
/// code block, a table, a block quote, an indented code block, a list, a
/// paragraph.
pub open spec fn one_block(st: State, out: Seq<BlockModel>, data: Seq<u8>, b: int, end: int) -> Parsed
    decreases end - b, 3nat, 0int,
{
    let html = if data[b] == 0x3c {
        spec_htmlblock(out, data, b, end)
    } else {
        (out, 0int)
    };
    let fence = if st.ext.on(extensions::FENCED_CODE) {
        spec_fencedcode(out, data, b, end)
    } else {
        (out, 0int)
    };
    let table = if st.ext.on(extensions::TABLES) {
        spec_table(st, out, data, b, end)
    } else {
        Parsed { st, out, n: 0 }
    };
    if b >= end {
        Parsed { st, out, n: 0 }
    } else if spec_is_atxheader(st.ext.on(extensions::SPACE_HEADERS), data, b, end) {
        spec_atxheader(st, out, data, b, end)
    } else if html.1 != 0 {
        plain(st, html)
    } else if spec_is_blank(data, b, end) {
        Parsed { st, out, n: spec_next_line(data, b, end) - b }
    } else if spec_is_hrule(data, b, end) {
        Parsed { st, out: out.push(BlockModel::HorizontalRule), n: spec_next_line(data, b, end) - b }
    } else if fence.1 != 0 {
        plain(st, fence)
    } else if table.n != 0 {
        table
    } else {
        text_block(st, out, data, b, end)
    }
}

/// A block quote at `beg`: its lines without their quote prefix, scanned
/// as blocks of their own with one more block in progress.
pub open spec fn spec_blockquote(st: State, out: Seq<BlockModel>, data: Seq<u8>, beg: int, end: int) -> Parsed
    decreases end - beg, 2nat, 0int,
{
    let r = quote_lines(data, beg, end, 0, Seq::empty());
    if r.1.len() < end - beg {
        let inner = spec_block(st.enter_block(), Seq::empty(), r.1, 0, r.1.len() as int);
        Parsed {
            st: restored(inner.st, st),
            out: out.push(BlockModel::QuoteBlock { content: inner.out }),
            n: r.0,
        }
    } else {
        Parsed { st, out: out.push(BlockModel::QuoteBlock { content: Seq::empty() }), n: r.0 }
    }
}

/// A list at `beg`: its items, with one more block in progress, up to an
/// item that ends the list.
pub open spec fn spec_list(
    st: State,
    out: Seq<BlockModel>,
    data: Seq<u8>,
    beg: int,
    end: int,
    flags: u32,
) -> Parsed
    decreases end - beg, 2nat, 0int,
{
    let r = list_items(st.enter_block(), Seq::empty(), data, beg, end, 0, flags);
    Parsed {
        st: restored(r.st, st),
        out: out.push(BlockModel::List { items: r.out, flags: List { bits: r.flags & 3 } }),
        n: r.n,
    }
}

/// The items of a list from `beg + i` on, added to `items`, and where the
/// list ends.
pub open spec fn list_items(
    st: State,
    items: Seq<BlockModel>,
    data: Seq<u8>,
    beg: int,
    end: int,
    i: int,
    flags: u32,
) -> ItemModel
    decreases end - beg, 1nat, end - beg - i,
{
    if i < 0 || i >= end - beg {
        ItemModel { st, out: items, n: i, flags }
    } else {
        let r = spec_listitem(st, items, data, beg + i, end, flags);
        if r.n <= 0 || r.n > end - beg - i || r.flags & LI_END != 0 {
            ItemModel { st: r.st, out: r.out, n: i + r.n, flags: r.flags }
        } else {
            list_items(r.st, r.out, data, beg, end, i + r.n, r.flags)
        }
    }
}

/// The length of the list marker that the line at `beg` starts with, or zero.
pub open spec fn item_marker(data: Seq<u8>, beg: int, end: int) -> int {
    if spec_prefix_uli(data, beg, end) != 0 {
        spec_prefix_uli(data, beg, end)
    } else {
        spec_prefix_oli(data, beg, end)
    }
}

/// The text of the list item at `beg`, and where it ends: the text after
/// its marker and the lines that continue it, without their indentation.
#[verifier::opaque]
pub open spec fn item_text(fenced: bool, data: Seq<u8>, beg: int, end: int, flags: u32) -> ItemScan {
    let b0 = item_marker(data, beg, end);
    let e0 = spec_next_line(data, beg + b0 - 1, end) - beg;
    item_lines(
        fenced,
        spec_indent3(data, beg, end),
        data,
        beg,
        end,
        ItemScan {
            b: e0,
            work: data.subrange(beg + b0, beg + e0),
            in_empty: false,
            has_inside_empty: false,
            in_fence: false,
            sublist: 0,
            flags,
        },
    )
}

/// The flags of a list after an item: the item holds blocks where a blank
/// line stands within it.
pub open spec fn item_flags(s: ItemScan) -> u32 {
    if s.has_inside_empty {
        s.flags | BLOCK
    } else {
        s.flags
    }
}

/// A list item at `beg`.  Where a blank line stands within the item, or
/// stood within an item before it, its text is scanned as blocks; else
/// as inline content up to the first nested list, which is scanned as
/// blocks.  The scan counts two more spans in progress.
pub open spec fn spec_listitem(
    st: State,
    out: Seq<BlockModel>,
    data: Seq<u8>,
    beg: int,
    end: int,
    flags: u32,
) -> ItemModel
    decreases end - beg, 0nat, 0int,
{
    let s = item_text(st.ext.on(extensions::FENCED_CODE), data, beg, end, flags);
    let flags2 = item_flags(s);
    if item_marker(data, beg, end) == 0 {
        ItemModel { st, out, n: 0, flags }
    } else if s.work.len() >= end - beg {
        ItemModel { st, out, n: 0, flags }
    } else {
        let c = item_content(st.enter_span().enter_span(), s.work, s.sublist, flags2 & BLOCK != 0);
        ItemModel {
            st: restored(c.0, st),
            out: out.push(
                BlockModel::ListItem { spans: c.1, blocks: c.2, flags: List { bits: flags2 & 3 } },
            ),
            n: s.b,
            flags: flags2,
        }
    }
}

/// Scans the blocks from `beg` up to `end` and appends them to `out`.
/// Nothing is scanned where the nesting is beyond the limit.
pub fn parse_block(p: &mut Parser, out: &mut Vec<Block>, data: &[u8], beg: usize, end: usize)
    requires
        beg <= end <= data.len(),
    ensures
        (Parsed { st: final(p)@, out: blocks_model(final(out)@), n: 0 }) == spec_block(
            old(p)@,
            blocks_model(old(out)@),
            data@,
            beg as int,
            end as int,
        ),
    decreases end - beg, 5nat,
{
    if p.too_deep() {
        return ;
    }
    let mut b: usize = beg;
    while b < end
        invariant_except_break
            block_loop(p@, blocks_model(out@), data@, beg as int, end as int, b as int)
                == spec_block(old(p)@, blocks_model(old(out)@), data@, beg as int, end as int),
        invariant
            beg <= b <= end <= data.len(),
        ensures
            (Parsed { st: p@, out: blocks_model(out@), n: 0 }) == spec_block(
                old(p)@,
                blocks_model(old(out)@),
                data@,
                beg as int,
                end as int,
            ),
        decreases end - b,
    {
        let n: usize = parse_one(p, out, data, b, end);
        if n == 0 {
            break ;
        }
        b += n;
    }
}

/// Scans the block that starts at `b` and appends it to `out`.
pub fn parse_one(p: &mut Parser, out: &mut Vec<Block>, data: &[u8], b: usize, end: usize) -> (n:
    usize)
    requires
        b < end <= data.len(),
    ensures
        n <= end - b,
        (Parsed { st: final(p)@, out: blocks_model(final(out)@), n: n as int }) == one_block(
            old(p)@,
            blocks_model(old(out)@),
            data@,
            b as int,
            end as int,
        ),
    decreases end - b, 4nat,
{
    if is_atxheader(p.on(extensions::SPACE_HEADERS), data, b, end) {
        return parse_atxheader(p, out, data, b, end);
    }
    if data[b] == 0x3c {
        let n: usize = parse_htmlblock(out, data, b, end);
        if n != 0 {
            return n;
        }
    }
    if is_blank(data, b, end) {
        return next_line(data, b, end) - b;
    }
    if is_hrule(data, b, end) {
        push_block(out, Block::HorizontalRule);
        return next_line(data, b, end) - b;
    }
    if p.on(extensions::FENCED_CODE) {
        let n: usize = parse_fencedcode(out, data, b, end);
        if n != 0 {
            return n;
        }
    }
    if p.on(extensions::TABLES) {
        let n: usize = parse_table(p, out, data, b, end);
        if n != 0 {
            return n;
        }
    }
    parse_text(p, out, data, b, end)
}

/// The block that starts at `b` where it is no header, raw HTML, blank
/// line, rule, fenced code or table: a block quote, an indented code
/// block, a list or a paragraph.
pub open spec fn text_block(st: State, out: Seq<BlockModel>, data: Seq<u8>, b: int, end: int) -> Parsed
    decreases end - b, 2nat, 1int,
{
    if spec_prefix_quote(data, b, end) != 0 {
        spec_blockquote(st, out, data, b, end)
    } else if !st.ext.on(extensions::DISABLE_INDENTED_CODE) && spec_prefix_code(data, b, end) != 0 {
        plain(st, spec_blockcode(out, data, b, end))
    } else if spec_prefix_uli(data, b, end) != 0 {
        spec_list(st, out, data, b, end, 0)
    } else if spec_prefix_oli(data, b, end) != 0 {
        spec_list(st, out, data, b, end, ORDERED)
    } else {
        spec_paragraph(st, out, data, b, end)
    }
}

/// Scans the block quote, indented code block, list or paragraph that
/// starts at `b`.
pub fn parse_text(p: &mut Parser, out: &mut Vec<Block>, data: &[u8], b: usize, end: usize) -> (n:
    usize)
    requires
        b <= end <= data.len(),
    ensures
        n <= end - b,
        (Parsed { st: final(p)@, out: blocks_model(final(out)@), n: n as int }) == text_block(
            old(p)@,
            blocks_model(old(out)@),
            data@,
            b as int,
            end as int,
        ),
    decreases end - b, 3nat,
{
    if prefix_quote(data, b, end) != 0 {
        parse_blockquote(p, out, data, b, end)
    } else if !p.on(extensions::DISABLE_INDENTED_CODE) && prefix_code(data, b, end) != 0 {
        parse_blockcode(out, data, b, end)
    } else if prefix_uli(data, b, end) != 0 {
        parse_list(p, out, data, b, end, 0)
    } else if prefix_oli(data, b, end) != 0 {
        parse_list(p, out, data, b, end, ORDERED)
    } else {
        parse_paragraph(p, out, data, b, end)
    }
}

/// A block quote: the lines that carry the quote prefix, and the lines
/// that continue them, scanned as blocks of their own without the prefix.
pub fn parse_blockquote(p: &mut Parser, out: &mut Vec<Block>, data: &[u8], beg: usize, end: usize) -> (n:
    usize)
    requires
        beg <= end <= data.len(),
    ensures
        n <= end - beg,
        (Parsed { st: final(p)@, out: blocks_model(final(out)@), n: n as int }) == spec_blockquote(
            old(p)@,
            blocks_model(old(out)@),
            data@,
            beg as int,
            end as int,
        ),
    decreases end - beg, 2nat,
{
    let size: usize = end - beg;
    let mut work: Vec<u8> = Vec::new();
    let mut b: usize = 0;
    let mut e: usize = 0;
    while b < size
        invariant_except_break
            b == e,
            quote_lines(data@, beg as int, end as int, 0, Seq::empty()) == quote_lines(
                data@,
                beg as int,
                end as int,
                b as int,
                work@,
            ),
        invariant
            b <= size,
            e <= size,
            size == end - beg,
            end <= data.len(),
        ensures
            e <= size,
            (e as int, work@) == quote_lines(data@, beg as int, end as int, 0, Seq::empty()),
        decreases size - b,
    {
        e = next_line(data, beg + b, end) - beg;
        let pre: usize = prefix_quote(data, beg + b, beg + e);
        if pre == 0 && is_blank(data, beg + b, beg + e) && (e >= size || (prefix_quote(
            data,
            beg + e,
            end,
        ) == 0 && !is_blank(data, beg + e, end))) {
            break ;
        }
        let b2: usize = b + pre;
        let ghost before = work@;
        if b2 < e {
            work.extend_from_slice(vstd::slice::slice_subrange(data, beg + b2, beg + e));
            assert(work@ =~= before + data@.subrange(beg + b2, beg + e));
        }
        b = e;
    }
    let mut content: Vec<Block> = Vec::new();
    assert(blocks_model(content@) =~= Seq::<BlockModel>::empty());
    if work.len() < size {
        let span_saved: usize = p.span_depth;
        let block_saved: usize = p.block_depth;
        p.enter_block();
        parse_block(p, &mut content, work.as_slice(), 0, work.len());
        p.set_depth(span_saved, block_saved);
    }
    push_block(out, Block::QuoteBlock { content });
    e
}

/// A list: items of one kind up to an item that ends it.
#[verifier::rlimit(50)]
pub fn parse_list(
    p: &mut Parser,
    out: &mut Vec<Block>,
    data: &[u8],
    beg: usize,
    end: usize,
    flags: u32,
) -> (n: usize)
    requires
        beg <= end <= data.len(),
    ensures
        n <= end - beg,
        (Parsed { st: final(p)@, out: blocks_model(final(out)@), n: n as int }) == spec_list(
            old(p)@,
            blocks_model(old(out)@),
            data@,
            beg as int,
            end as int,
            flags,
        ),
    decreases end - beg, 2nat,
{
    let size: usize = end - beg;
    let span_saved: usize = p.span_depth;
    let block_saved: usize = p.block_depth;
    p.enter_block();
    let ghost st1 = p@;
    let mut items: Vec<Block> = Vec::new();
    assert(blocks_model(items@) =~= Seq::<BlockModel>::empty());
    let mut cur: u32 = flags;
    let mut i: usize = 0;
    while i < size
        invariant_except_break
            list_items(
                p@,
                blocks_model(items@),
                data@,
                beg as int,
                end as int,
                i as int,
                cur,
            ) == list_items(st1, Seq::empty(), data@, beg as int, end as int, 0, flags),
        invariant
            i <= size,
            size == end - beg,
            end <= data.len(),
        ensures
            i <= size,
            (ItemModel { st: p@, out: blocks_model(items@), n: i as int, flags: cur })
                == list_items(st1, Seq::empty(), data@, beg as int, end as int, 0, flags),
        decreases size - i,
    {
        let item = parse_listitem(p, &mut items, data, beg + i, end, cur);
        cur = item.flags;
        i += item.len;
        if item.len == 0 || cur & LI_END != 0 {
            break ;
        }
    }
    p.set_depth(span_saved, block_saved);
    push_block(out, Block::List { items, flags: List::of(cur) });
    i
}

/// How the scan of the lines of a list item stands.
pub struct ItemState {
    pub b: usize,
    pub work: Vec<u8>,
    pub in_empty: bool,
    pub has_inside_empty: bool,
    pub in_fence: bool,
    pub sublist: usize,
    pub flags: u32,
}

impl View for ItemState {
    type V = ItemScan;

    open spec fn view(&self) -> ItemScan {
        ItemScan {
            b: self.b as int,
            work: self.work@,
            in_empty: self.in_empty,
            has_inside_empty: self.has_inside_empty,
            in_fence: self.in_fence,
            sublist: self.sublist as int,
            flags: self.flags,
        }
    }
}

/// Reads one line of a list item, at `beg + s.b`.  Returns how the scan
/// stands after it, and whether the item ends before it.
#[verifier::rlimit(50)]
pub fn read_item_line(fenced: bool, orgpre: usize, data: &[u8], beg: usize, end: usize, s: ItemState) -> (r:
    (ItemState, bool))
    requires
        beg <= end <= data.len(),
        s.b < end - beg,
        s.sublist <= s.work@.len(),
        s.work@.len() + 2 + (if s.in_empty {
            1int
        } else {
            0int
        }) <= s.b,
    ensures
        (r.0@, r.1) == item_step(fenced, orgpre as int, data@, beg as int, end as int, s@),
        r.0.b <= end - beg,
        !r.1 ==> s.b < r.0.b,
        r.0.sublist <= r.0.work@.len(),
        r.0.work@.len() + 2 + (if r.0.in_empty {
            1int
        } else {
            0int
        }) <= r.0.b,
{
    let b: usize = s.b;
    let e: usize = next_line(data, beg + b, end) - beg;
    if is_blank(data, beg + b, beg + e) {
        return (
            ItemState {
                b: e,
                work: s.work,
                in_empty: true,
                has_inside_empty: s.has_inside_empty,
                in_fence: s.in_fence,
                sublist: s.sublist,
                flags: s.flags,
            },
            false,
        );
    }
    let stop: usize = if e - b > 4 {
        beg + b + 4
    } else {
        beg + e
    };
    let i: usize = skip(data, beg + b, stop, Class::Is(0x20)) - (beg + b);
    let from: usize = beg + b + i;
    let in_fence: bool = if fenced && is_codefence(data, from, beg + e).len != 0 {
        !s.in_fence
    } else {
        s.in_fence
    };
    let uli: usize = if in_fence {
        0
    } else {
        prefix_uli(data, from, beg + e)
    };
    let oli: usize = if in_fence {
        0
    } else {
        prefix_oli(data, from, beg + e)
    };
    let new_item: bool = (uli != 0 && !is_hrule(data, from, beg + e)) || oli != 0;
    let inside: bool = s.has_inside_empty || (new_item && s.in_empty);
    if new_item && i <= orgpre {
        let other: bool = s.in_empty && ((s.flags & ORDERED != 0 && uli != 0) || (s.flags
            & ORDERED == 0 && oli != 0));
        let flags: u32 = if other {
            s.flags | LI_END
        } else {
            s.flags
        };
        return (
            ItemState {
                b: s.b,
                work: s.work,
                in_empty: s.in_empty,
                has_inside_empty: inside,
                in_fence,
                sublist: s.sublist,
                flags,
            },
            true,
        );
    }
    if !new_item && s.in_empty && i == 0 {
        return (
            ItemState {
                b: s.b,
                work: s.work,
                in_empty: s.in_empty,
                has_inside_empty: s.has_inside_empty,
                in_fence,
                sublist: s.sublist,
                flags: s.flags | LI_END,
            },
            true,
        );
    }
    let sublist: usize = if new_item && s.sublist == 0 {
        s.work.len()
    } else {
        s.sublist
    };
    let was_empty: bool = s.in_empty;
    let flags: u32 = s.flags;
    let mut work: Vec<u8> = s.work;
    let ghost before = work@;
    if was_empty {
        work.push(0x0a);
    }
    work.extend_from_slice(vstd::slice::slice_subrange(data, from, beg + e));
    assert(work@ =~= (if was_empty {
        before.push(0x0a)
    } else {
        before
    }) + data@.subrange(from as int, beg + e));
    (
        ItemState {
            b: e,
            work,
            in_empty: false,
            has_inside_empty: inside || was_empty,
            in_fence,
            sublist,
            flags,
        },
        false,
    )
}

/// Reads the lines of a list item from where the scan `s` stands.
pub fn read_item_lines(fenced: bool, orgpre: usize, data: &[u8], beg: usize, end: usize, s: ItemState) -> (r:
    ItemState)
    requires
        beg <= end <= data.len(),
        s.b <= end - beg,
        s.sublist <= s.work@.len(),
        s.work@.len() + 2 + (if s.in_empty {
            1int
        } else {
            0int
        }) <= s.b,
    ensures
        r@ == item_lines(fenced, orgpre as int, data@, beg as int, end as int, s@),
        r.b <= end - beg,
        r.sublist <= r.work@.len(),
        r.work@.len() + 2 <= r.b,
{
    let size: usize = end - beg;
    let mut s = s;
    let ghost s0 = s@;
    while s.b < size
        invariant_except_break
            item_lines(fenced, orgpre as int, data@, beg as int, end as int, s@) == item_lines(
                fenced,
                orgpre as int,
                data@,
                beg as int,
                end as int,
                s0,
            ),
        invariant
            s.b <= size,
            size == end - beg,
            end <= data.len(),
            s.sublist <= s.work@.len(),
            s.work@.len() + 2 + (if s.in_empty {
                1int
            } else {
                0int
            }) <= s.b,
        ensures
            s.b <= size,
            s.sublist <= s.work@.len(),
            s.work@.len() + 2 <= s.b,
            s@ == item_lines(fenced, orgpre as int, data@, beg as int, end as int, s0),
        decreases size - s.b,
    {
        let r = read_item_line(fenced, orgpre, data, beg, end, s);
        s = r.0;
        if r.1 {
            break ;
        }
    }
    s
}

/// The content of a list item whose text is `work`: where `block` is
/// set, blocks; else inline content up to the nested list at `sublist`,
/// which is scanned as blocks.
pub open spec fn item_content(st: State, work: Seq<u8>, sublist: int, block: bool) -> (
    State,
    Seq<SpanModel>,
    Seq<BlockModel>,
)
    decreases work.len(), 6nat, 0int,
{
    let len = work.len() as int;
    let cut = 0 < sublist < len;
    let first = if cut {
        sublist
    } else {
        len
    };
    if block {
        let a = spec_block(st, Seq::empty(), work, 0, first);
        let all = if cut {
            spec_block(a.st, a.out, work, sublist, len)
        } else {
            a
        };
        (all.st, Seq::empty(), all.out)
    } else {
        let sp = spec_inline(st, Seq::empty(), work, 0, first);
        let bl = if cut {
            spec_block(sp.st, Seq::empty(), work, sublist, len)
        } else {
            Parsed { st: sp.st, out: Seq::empty(), n: 0 }
        };
        (bl.st, sp.out, bl.out)
    }
}

/// Scans the content of a list item whose text is `work`.
pub fn parse_item_content(p: &mut Parser, work: &[u8], sublist: usize, block: bool) -> (r: (
    Vec<Span>,
    Vec<Block>,
))
    ensures
        (final(p)@, spans_model(r.0@), blocks_model(r.1@)) == item_content(
            old(p)@,
            work@,
            sublist as int,
            block,
        ),
    decreases work.len(), 6nat,
{
    let len: usize = work.len();
    let cut: bool = 0 < sublist && sublist < len;
    let first: usize = if cut {
        sublist
    } else {
        len
    };
    let mut spans: Vec<Span> = Vec::new();
    let mut blocks: Vec<Block> = Vec::new();
    assert(spans_model(spans@) =~= Seq::<SpanModel>::empty());
    assert(blocks_model(blocks@) =~= Seq::<BlockModel>::empty());
    if block {
        parse_block(p, &mut blocks, work, 0, first);
        if cut {
            parse_block(p, &mut blocks, work, sublist, len);
        }
    } else {
        parse_inline(p, &mut spans, work, 0, first);
        if cut {
            parse_block(p, &mut blocks, work, sublist, len);
        }
    }
    (spans, blocks)
}

/// Reads the text of the list item at `beg`, whose marker has `b0` bytes.
pub fn read_item(fenced: bool, data: &[u8], beg: usize, end: usize, flags: u32, b0: usize) -> (s:
    ItemState)
    requires
        beg <= end <= data.len(),
        2 <= b0 <= end - beg,
        b0 == item_marker(data@, beg as int, end as int),
    ensures
        s@ == item_text(fenced, data@, beg as int, end as int, flags),
        s.b <= end - beg,
        s.sublist <= s.work@.len(),
        s.work@.len() + 2 <= s.b,
{
    reveal(item_text);
    let orgpre: usize = indent3(data, beg, end);
    let e0: usize = next_line(data, beg + b0 - 1, end) - beg;
    read_item_lines(
        fenced,
        orgpre,
        data,
        beg,
        end,
        ItemState {
            b: e0,
            work: copy_range(data, beg + b0, beg + e0),
            in_empty: false,
            has_inside_empty: false,
            in_fence: false,
            sublist: 0,
            flags,
        },
    )
}

/// The length of the list marker that the line at `beg` starts with, or zero.
pub fn marker(data: &[u8], beg: usize, end: usize) -> (b0: usize)
    requires
        beg <= end <= data.len(),
    ensures
        b0 == item_marker(data@, beg as int, end as int),
        b0 == 0 || 2 <= b0 <= end - beg,
{
    let uli: usize = prefix_uli(data, beg, end);
    if uli != 0 {
        uli
    } else {
        prefix_oli(data, beg, end)
    }
}

/// A list item: the text after the marker, the lines that continue it
/// without their indentation, and the lists nested in it.
pub fn parse_listitem(
    p: &mut Parser,
    out: &mut Vec<Block>,
    data: &[u8],
    beg: usize,
    end: usize,
    flags: u32,
) -> (item: Item)
    requires
        beg <= end <= data.len(),
    ensures
        item.len <= end - beg,
        (ItemModel {
            st: final(p)@,
            out: blocks_model(final(out)@),
            n: item.len as int,
            flags: item.flags,
        }) == spec_listitem(
            old(p)@,
            blocks_model(old(out)@),
            data@,
            beg as int,
            end as int,
            flags,
        ),
    decreases end - beg, 1nat,
{
    let b0: usize = marker(data, beg, end);
    if b0 == 0 {
        return Item { len: 0, flags };
    }
    let s = read_item(p.on(extensions::FENCED_CODE), data, beg, end, flags, b0);
    let flags2: u32 = if s.has_inside_empty {
        s.flags | BLOCK
    } else {
        s.flags
    };
    let span_saved: usize = p.span_depth;
    let block_saved: usize = p.block_depth;
    p.enter_span();
    p.enter_span();
    let c = parse_item_content(p, s.work.as_slice(), s.sublist, flags2 & BLOCK != 0);
    p.set_depth(span_saved, block_saved);
    push_block(out, Block::ListItem { spans: c.0, blocks: c.1, flags: List::of(flags2) });
    Item { len: s.b, flags: flags2 }
}

} // verus!
