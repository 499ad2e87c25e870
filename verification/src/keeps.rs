//! What a parse leaves of its state: everything but the list of the
//! footnotes that have been referred to.

use vstd::prelude::*;
use crate::block::{
    block_loop, body_rows, cell_flags, content_of, item_content, item_flags, item_marker,
    item_text, list_items, one_block, quote_lines, row_cells, spec_atxheader, spec_block,
    spec_blockquote, spec_list, spec_listitem, spec_paragraph, spec_table, spec_table_header,
    spec_table_row, text_block,
};
use crate::chars::{skipped, skipped_back, Class};
use crate::extensions;
use crate::inline::{
    emph1_loop, inline_loop, inline_target, next_active, quote_close, reference_target,
    spec_action, spec_dispatch, spec_emph1, spec_emph2, spec_emph3, spec_emphasis, spec_image,
    spec_inline, spec_link, spec_quote, spec_superscript, wrapped, Action,
};
use crate::lines::{
    spec_atx_level, spec_line_end, spec_prefix_oli, spec_prefix_quote, spec_prefix_uli,
};
use crate::parser::State;
use crate::scan::spec_find_emph;
use crate::tree::{BlockModel, CellModel, RowModel, SpanKind, SpanModel};

verus! {

/// Whether two states differ in nothing but the footnotes that have been
/// referred to.
pub open spec fn same_but_used(a: State, b: State) -> bool {
    a == (State { used: a.used, ..b })
}

/// Counting work in progress changes nothing else.
pub proof fn lemma_enter_spans_keeps(st: State, k: int)
    ensures
        st.enter_spans(k) == (State { span_depth: st.enter_spans(k).span_depth, ..st }),
    decreases k,
{
    if k > 0 {
        lemma_enter_spans_keeps(st, k - 1);
    }
}

/// The scan of inline content leaves the state as it was, but for the
/// footnotes that have been referred to.
pub proof fn lemma_inline_keeps(st: State, out: Seq<SpanModel>, data: Seq<u8>, beg: int, end: int)
    ensures
        same_but_used(spec_inline(st, out, data, beg, end).st, st),
    decreases end - beg, 9nat, 0int,
{
    if !(st.too_deep() || beg > end) {
        lemma_inline_loop_keeps(st, out, data, beg, end, beg, beg, beg);
    }
}

/// The scan of inline content from where it stands leaves the state.
pub proof fn lemma_inline_loop_keeps(
    st: State,
    out: Seq<SpanModel>,
    data: Seq<u8>,
    beg: int,
    end: int,
    i: int,
    e: int,
    consumed: int,
)
    ensures
        same_but_used(inline_loop(st, out, data, beg, end, i, e, consumed).st, st),
    decreases end - beg, 8nat, end - e,
{
    if (beg <= consumed <= i <= e <= end) && i < end {
        crate::inline::lemma_next_active(st.ext, data, e, end);
        let a = next_active(st.ext, data, e, end);
        let out2 = out.push(SpanModel::Text { text: data.subrange(i, a) });
        if a < end {
            lemma_dispatch_keeps(st, out2, data, a, end, a - consumed);
            let r = spec_dispatch(st, out2, data, a, end, a - consumed);
            if r.n <= 0 || r.n > end - a {
                lemma_inline_loop_keeps(r.st, r.out, data, beg, end, a, a + 1, consumed);
            } else {
                lemma_inline_loop_keeps(r.st, r.out, data, beg, end, a + r.n, a + r.n, a + r.n);
            }
        }
    }
}

/// The recogniser of a trigger byte leaves the state.
pub proof fn lemma_dispatch_keeps(
    st: State,
    out: Seq<SpanModel>,
    data: Seq<u8>,
    pos: int,
    end: int,
    offset: int,
)
    ensures
        same_but_used(spec_dispatch(st, out, data, pos, end, offset).st, st),
    decreases end - pos, 7nat, 1int,
{
    match spec_action(st.ext, data[pos]) {
        Action::Emphasis => {
            lemma_emphasis_keeps(st, out, data, pos, end, offset);
        },
        Action::Link => {
            lemma_link_keeps(st, out, data, pos, end, offset);
        },
        Action::Image => {
            lemma_image_keeps(st, out, data, pos, end, offset);
        },
        Action::Superscript => {
            lemma_superscript_keeps(st, out, data, pos, end);
        },
        Action::Quote => {
            lemma_quote_keeps(st, out, data, pos, end);
        },
        _ => {},
    }
}

/// A span that wraps inline content leaves the state.
pub proof fn lemma_wrapped_keeps(
    st: State,
    out: Seq<SpanModel>,
    data: Seq<u8>,
    kind: SpanKind,
    from: int,
    to: int,
    src: int,
    stop: int,
)
    ensures
        same_but_used(wrapped(st, out, data, kind, from, to, src, stop).st, st),
    decreases to - from, 10nat, 0int,
{
    if from <= to {
        lemma_inline_keeps(st.enter_span(), Seq::empty(), data, from, to);
    }
}

/// Single emphasis leaves the state.
pub proof fn lemma_emph1_keeps(
    st: State,
    out: Seq<SpanModel>,
    data: Seq<u8>,
    base: int,
    end: int,
    c: u8,
    src: int,
    i: int,
)
    ensures
        same_but_used(emph1_loop(st, out, data, base, end, c, src, i).st, st),
    decreases end - base + 1, 1nat, end - base - i,
{
    let size = end - base;
    let len = spec_find_emph(data, base + i, end, c, 0);
    let j = i + len;
    if !(i < 0 || i >= size || len <= 0 || j >= size) {
        lemma_wrapped_keeps(st, out, data, SpanKind::Underline, base, base + j, src, base + j + 1);
        lemma_wrapped_keeps(st, out, data, SpanKind::Emphasis, base, base + j, src, base + j + 1);
        lemma_emph1_keeps(st, out, data, base, end, c, src, j);
    }
}

/// Double emphasis leaves the state.
pub proof fn lemma_emph2_keeps(
    st: State,
    out: Seq<SpanModel>,
    data: Seq<u8>,
    base: int,
    end: int,
    c: u8,
    src: int,
    i: int,
)
    ensures
        same_but_used(spec_emph2(st, out, data, base, end, c, src, i).st, st),
    decreases end - base + 2, 1nat, end - base - i,
{
    let size = end - base;
    let len = spec_find_emph(data, base + i, end, c, 0);
    let j = i + len;
    if !(i < 0 || i >= size || len <= 0 || j >= size) {
        lemma_wrapped_keeps(
            st,
            out,
            data,
            SpanKind::Strikethrough,
            base,
            base + j,
            src,
            base + j + 2,
        );
        lemma_wrapped_keeps(st, out, data, SpanKind::Highlight, base, base + j, src, base + j + 2);
        lemma_wrapped_keeps(
            st,
            out,
            data,
            SpanKind::DoubleEmphasis,
            base,
            base + j,
            src,
            base + j + 2,
        );
        lemma_emph2_keeps(st, out, data, base, end, c, src, j + 1);
    }
}

/// Triple emphasis leaves the state.
pub proof fn lemma_emph3_keeps(
    st: State,
    out: Seq<SpanModel>,
    data: Seq<u8>,
    base: int,
    end: int,
    c: u8,
    src: int,
    i: int,
)
    ensures
        same_but_used(spec_emph3(st, out, data, base, end, c, src, i).st, st),
    decreases end - base + 3, 3nat, end - base - i,
{
    let size = end - base;
    let len = spec_find_emph(data, base + i, end, c, 0);
    let j = i + len;
    if !(i < 0 || i >= size || len <= 0 || j >= size || base < 2) {
        lemma_emph3_keeps(st, out, data, base, end, c, src, j);
        lemma_wrapped_keeps(
            st,
            out,
            data,
            SpanKind::TripleEmphasis,
            base,
            base + j,
            src,
            base + j + 3,
        );
        lemma_emph1_keeps(st, out, data, base - 2, end, c, src, if end - (base - 2) > 1 && data[base
            - 2] == c && data[base - 2 + 1] == c {
            1
        } else {
            0
        });
        assert(same_but_used(spec_emph1(st, out, data, base - 2, end, c, src).st, st));
        lemma_emph2_keeps(st, out, data, base - 1, end, c, src, 0);
    }
}

/// Emphasis leaves the state.
pub proof fn lemma_emphasis_keeps(
    st: State,
    out: Seq<SpanModel>,
    data: Seq<u8>,
    pos: int,
    end: int,
    offset: int,
)
    ensures
        same_but_used(spec_emphasis(st, out, data, pos, end, offset).st, st),
    decreases end - pos, 7nat, 0int,
{
    let c = data[pos];
    lemma_emph1_keeps(st, out, data, pos + 1, end, c, pos, if end - (pos + 1) > 1 && data[pos + 1]
        == c && data[pos + 1 + 1] == c {
        1
    } else {
        0
    });
    lemma_emph2_keeps(st, out, data, pos + 2, end, c, pos, 0);
    lemma_emph3_keeps(st, out, data, pos + 3, end, c, pos, 0);
}

/// A quote leaves the state.
pub proof fn lemma_quote_keeps(st: State, out: Seq<SpanModel>, data: Seq<u8>, pos: int, end: int)
    ensures
        same_but_used(spec_quote(st, out, data, pos, end).st, st),
    decreases end - pos, 7nat, 0int,
{
    let nq = skipped(data, pos, end, Class::Is(0x22)) - pos;
    let e = quote_close(data, pos, end, nq, nq);
    let f_begin = skipped(data, pos + nq, pos + e, Class::Is(0x20)) - pos;
    let f_end = skipped_back(data, pos + nq, pos + e - nq, Class::Is(0x20)) - pos;
    if !(nq <= 0 || e <= 0 || e > end - pos) && f_begin < f_end {
        crate::chars::lemma_skipped(data, pos + nq, pos + e, Class::Is(0x20));
        crate::chars::lemma_skipped_back(data, pos + nq, pos + e - nq, Class::Is(0x20));
        lemma_wrapped_keeps(
            st,
            out,
            data,
            SpanKind::Quote,
            pos + f_begin,
            pos + f_end,
            pos,
            pos + e,
        );
    }
}

/// Superscript leaves the state.
pub proof fn lemma_superscript_keeps(st: State, out: Seq<SpanModel>, data: Seq<u8>, pos: int, end: int)
    ensures
        same_but_used(spec_superscript(st, out, data, pos, end).st, st),
    decreases end - pos, 7nat, 0int,
{
    let size = end - pos;
    let paren = data[pos + 1] == 0x28;
    let sup_start = if paren {
        2int
    } else {
        1int
    };
    let sup_len = if paren {
        spec_find_emph(data, pos + 2, end, 0x29, 0) + 2
    } else {
        skipped(data, pos + 1, end, Class::NotSpacing) - pos
    };
    let n = if paren {
        sup_len + 1
    } else {
        sup_len
    };
    if !(size < 2 || (paren && sup_len == size) || sup_len > size || n > size) && sup_len
        - sup_start > 0 {
        lemma_wrapped_keeps(
            st,
            out,
            data,
            SpanKind::Superscript,
            pos + sup_start,
            pos + sup_len,
            pos,
            pos + n,
        );
    }
}

/// An image leaves the state.
pub proof fn lemma_image_keeps(
    st: State,
    out: Seq<SpanModel>,
    data: Seq<u8>,
    pos: int,
    end: int,
    offset: int,
)
    ensures
        same_but_used(spec_image(st, out, data, pos, end, offset).st, st),
    decreases end - pos, 7nat, 0int,
{
    if !(end - pos < 2 || data[pos + 1] != 0x5b) {
        lemma_link_keeps(st, out, data, pos + 1, end, offset + 1);
    }
}

/// A link leaves the state, but that a footnote reference adds its
/// footnote to those that have been referred to.
pub proof fn lemma_link_keeps(
    st: State,
    out: Seq<SpanModel>,
    data: Seq<u8>,
    pos: int,
    end: int,
    offset: int,
)
    ensures
        same_but_used(spec_link(st, out, data, pos, end, offset).st, st),
    decreases end - pos, 6nat, 0int,
{
    let size = end - pos;
    let txt_e = 1 + spec_find_emph(data, pos + 1, end, 0x5d, 0);
    let i1 = txt_e + 1;
    let i2 = skipped(data, pos + i1, end, Class::Spacing) - pos;
    let target = if i2 < size && data[pos + i2] == 0x28 {
        inline_target(data, pos, end, i2)
    } else {
        reference_target(st, data, pos, end, i2, txt_e)
    };
    if txt_e < size && txt_e > 1 {
        lemma_enter_spans_keeps(st, target.bufs + 1);
        let inner_st = State { in_link_body: true, ..st.enter_spans(target.bufs + 1) };
        lemma_inline_keeps(inner_st, Seq::empty(), data, pos + 1, pos + txt_e);
    }
}

/// Inline content leaves the state.
pub proof fn lemma_content_keeps(st: State, data: Seq<u8>, beg: int, end: int, block: bool)
    ensures
        same_but_used(content_of(st, data, beg, end, block).st, st),
{
    lemma_inline_keeps(if block {
        st.enter_block()
    } else {
        st.enter_span()
    }, Seq::empty(), data, beg, end);
}

/// The cells of a table row leave the state.
pub proof fn lemma_row_cells_keeps(
    st: State,
    data: Seq<u8>,
    beg: int,
    end: int,
    i: int,
    col_data: Seq<u32>,
    header: bool,
    cells: Seq<CellModel>,
)
    ensures
        same_but_used(row_cells(st, data, beg, end, i, col_data, header, cells).0, st),
    decreases col_data.len() - cells.len(),
{
    let size = end - beg;
    if !(cells.len() >= col_data.len() || i < 0 || i >= size) {
        let cell_start = skipped(data, beg + i, end, Class::Spacing) - beg;
        let f = spec_find_emph(data, beg + cell_start, end, 0x7c, 0);
        let len = if f == 0 && cell_start < size && data[beg + cell_start] != 0x7c {
            size - cell_start
        } else {
            f
        };
        let i2 = cell_start + len;
        let cell_end = skipped_back(data, beg + cell_start, beg + i2, Class::Spacing) - beg;
        lemma_content_keeps(st, data, beg + cell_start, beg + cell_end, false);
        let c = content_of(st, data, beg + cell_start, beg + cell_end, false);
        lemma_row_cells_keeps(c.st, data, beg, end, if i2 < size {
            i2 + 1
        } else {
            size
        }, col_data, header, cells.push(
            CellModel {
                content: c.spans,
                flags: cell_flags(col_data[cells.len() as int], header),
            },
        ));
    }
}

/// A table row leaves the state.
pub proof fn lemma_table_row_keeps(
    st: State,
    data: Seq<u8>,
    beg: int,
    end: int,
    col_data: Seq<u32>,
    header: bool,
)
    ensures
        same_but_used(spec_table_row(st, data, beg, end, col_data, header).0, st),
{
    lemma_row_cells_keeps(st.enter_span(), data, beg, end, if beg < end && data[beg] == 0x7c {
        1
    } else {
        0
    }, col_data, header, Seq::empty());
}

/// The body rows of a table leave the state.
pub proof fn lemma_body_rows_keeps(
    st: State,
    data: Seq<u8>,
    beg: int,
    end: int,
    i: int,
    col_data: Seq<u32>,
    rows: Seq<RowModel>,
)
    ensures
        same_but_used(body_rows(st, data, beg, end, i, col_data, rows).0, st),
    decreases end - beg - i,
{
    let size = end - beg;
    let le = spec_line_end(data, beg + i, end) - beg;
    let pipes = crate::autolink::count_of(data, beg + i, beg + le, 0x7c);
    if !(i < 0 || i >= size || pipes == 0 || le >= size) {
        crate::chars::lemma_skipped(data, beg + i, end, Class::Not(0x0a));
        lemma_table_row_keeps(st, data, beg + i, beg + le, col_data, false);
        let r = spec_table_row(st, data, beg + i, beg + le, col_data, false);
        lemma_body_rows_keeps(r.0, data, beg, end, le + 1, col_data, rows.push(r.1));
    }
}

/// The blocks that scan no blocks within them leave the state.
pub proof fn lemma_leaf_blocks_keep(st: State, out: Seq<BlockModel>, data: Seq<u8>, beg: int, end: int)
    ensures
        same_but_used(spec_atxheader(st, out, data, beg, end).st, st),
        same_but_used(spec_paragraph(st, out, data, beg, end).st, st),
        same_but_used(spec_table(st, out, data, beg, end).st, st),
{
    reveal(spec_atxheader);
    reveal(spec_paragraph);
    reveal(spec_table);
    let level = spec_atx_level(data, beg, end);
    let i = skipped(data, beg + level, end, Class::Is(0x20));
    let le = spec_line_end(data, i, end);
    let e1 = skipped_back(data, beg, le, Class::Is(0x23));
    let e2 = skipped_back(data, beg, e1, Class::Is(0x20));
    lemma_content_keeps(st, data, i, e2, false);
    let pe = crate::block::para_scan(st.ext.on(extensions::SPACE_HEADERS), data, beg, end, 0);
    let work = skipped_back(data, beg, beg + pe.i, Class::Is(0x0a));
    let last = skipped_back(data, beg + 1, work, Class::Not(0x0a));
    let before = skipped_back(data, beg, last - 1, Class::Is(0x0a));
    lemma_content_keeps(st, data, beg, work, true);
    lemma_content_keeps(st, data, beg, before, true);
    let first = content_of(st, data, beg, before, true);
    lemma_content_keeps(first.st, data, last, work, false);
    lemma_content_keeps(st, data, beg, work, false);
    let head = spec_table_header(data, beg, end);
    let st1 = st.enter_block().enter_span().enter_block();
    lemma_table_row_keeps(st1, data, beg, beg + head.header_end, head.col_data, true);
    let h = spec_table_row(st1, data, beg, beg + head.header_end, head.col_data, true);
    lemma_body_rows_keeps(h.0, data, beg, end, head.len, head.col_data, Seq::empty());
}

/// The scan of blocks leaves the state as it was, but for the footnotes
/// that have been referred to.
pub proof fn lemma_block_keeps(st: State, out: Seq<BlockModel>, data: Seq<u8>, beg: int, end: int)
    ensures
        same_but_used(spec_block(st, out, data, beg, end).st, st),
    decreases end - beg, 5nat, 0int,
{
    if !(st.too_deep() || beg > end) {
        lemma_block_loop_keeps(st, out, data, beg, end, beg);
    }
}

/// The scan of blocks from where it stands leaves the state.
pub proof fn lemma_block_loop_keeps(
    st: State,
    out: Seq<BlockModel>,
    data: Seq<u8>,
    beg: int,
    end: int,
    b: int,
)
    ensures
        same_but_used(block_loop(st, out, data, beg, end, b).st, st),
    decreases end - beg, 4nat, end - b,
{
    if !(b < beg || b >= end) {
        lemma_one_block_keeps(st, out, data, b, end);
        let r = one_block(st, out, data, b, end);
        if !(r.n <= 0 || r.n > end - b) {
            lemma_block_loop_keeps(r.st, r.out, data, beg, end, b + r.n);
        }
    }
}

/// The block that starts at a position leaves the state.
pub proof fn lemma_one_block_keeps(st: State, out: Seq<BlockModel>, data: Seq<u8>, b: int, end: int)
    ensures
        same_but_used(one_block(st, out, data, b, end).st, st),
    decreases end - b, 3nat, 0int,
{
    lemma_leaf_blocks_keep(st, out, data, b, end);
    lemma_text_block_keeps(st, out, data, b, end);
}

/// A block quote, an indented code block, a list or a paragraph leaves
/// the state.
pub proof fn lemma_text_block_keeps(st: State, out: Seq<BlockModel>, data: Seq<u8>, b: int, end: int)
    ensures
        same_but_used(text_block(st, out, data, b, end).st, st),
    decreases end - b, 2nat, 1int,
{
    lemma_leaf_blocks_keep(st, out, data, b, end);
    if spec_prefix_quote(data, b, end) != 0 {
        lemma_blockquote_keeps(st, out, data, b, end);
    } else if spec_prefix_uli(data, b, end) != 0 {
        lemma_list_keeps(st, out, data, b, end, 0);
    } else if spec_prefix_oli(data, b, end) != 0 {
        lemma_list_keeps(st, out, data, b, end, crate::renderer::list::ORDERED);
    }
}

/// A block quote leaves the state.
pub proof fn lemma_blockquote_keeps(st: State, out: Seq<BlockModel>, data: Seq<u8>, beg: int, end: int)
    ensures
        same_but_used(spec_blockquote(st, out, data, beg, end).st, st),
    decreases end - beg, 2nat, 0int,
{
    let r = quote_lines(data, beg, end, 0, Seq::empty());
    if r.1.len() < end - beg {
        lemma_block_keeps(st.enter_block(), Seq::empty(), r.1, 0, r.1.len() as int);
    }
}

/// A list leaves the state.
pub proof fn lemma_list_keeps(
    st: State,
    out: Seq<BlockModel>,
    data: Seq<u8>,
    beg: int,
    end: int,
    flags: u32,
)
    ensures
        same_but_used(spec_list(st, out, data, beg, end, flags).st, st),
    decreases end - beg, 2nat, 0int,
{
    lemma_list_items_keeps(st.enter_block(), Seq::empty(), data, beg, end, 0, flags);
}

/// The items of a list leave the state.
pub proof fn lemma_list_items_keeps(
    st: State,
    items: Seq<BlockModel>,
    data: Seq<u8>,
    beg: int,
    end: int,
    i: int,
    flags: u32,
)
    ensures
        same_but_used(list_items(st, items, data, beg, end, i, flags).st, st),
    decreases end - beg, 1nat, end - beg - i,
{
    if !(i < 0 || i >= end - beg) {
        lemma_listitem_keeps(st, items, data, beg + i, end, flags);
        let r = spec_listitem(st, items, data, beg + i, end, flags);
        if !(r.n <= 0 || r.n > end - beg - i || r.flags & crate::block::LI_END != 0) {
            lemma_list_items_keeps(r.st, r.out, data, beg, end, i + r.n, r.flags);
        }
    }
}

/// A list item leaves the state.
pub proof fn lemma_listitem_keeps(
    st: State,
    out: Seq<BlockModel>,
    data: Seq<u8>,
    beg: int,
    end: int,
    flags: u32,
)
    ensures
        same_but_used(spec_listitem(st, out, data, beg, end, flags).st, st),
    decreases end - beg, 0nat, 0int,
{
    let s = item_text(st.ext.on(extensions::FENCED_CODE), data, beg, end, flags);
    let flags2 = item_flags(s);
    if item_marker(data, beg, end) != 0 && s.work.len() < end - beg {
        lemma_item_content_keeps(
            st.enter_span().enter_span(),
            s.work,
            s.sublist,
            flags2 & crate::renderer::list::BLOCK != 0,
        );
    }
}

/// The content of a list item leaves the state.
pub proof fn lemma_item_content_keeps(st: State, work: Seq<u8>, sublist: int, block: bool)
    ensures
        same_but_used(item_content(st, work, sublist, block).0, st),
    decreases work.len(), 6nat, 0int,
{
    let len = work.len() as int;
    let cut = 0 < sublist < len;
    let first = if cut {
        sublist
    } else {
        len
    };
    if block {
        lemma_block_keeps(st, Seq::empty(), work, 0, first);
        let a = spec_block(st, Seq::empty(), work, 0, first);
        if cut {
            lemma_block_keeps(a.st, a.out, work, sublist, len);
        }
    } else {
        lemma_inline_keeps(st, Seq::empty(), work, 0, first);
        let sp = spec_inline(st, Seq::empty(), work, 0, first);
        if cut {
            lemma_block_keeps(sp.st, Seq::empty(), work, sublist, len);
        }
    }
}

} // verus!
