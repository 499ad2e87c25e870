//! An extension changes nothing in a document that does not use its syntax.
//!
//! Each extension has bytes that its syntax needs.  The parse of a
//! document in which none of these bytes stands is the same with and
//! without the extension.

use vstd::prelude::*;
use crate::extensions;
use crate::extensions::Extension;
use crate::autolink::count_of;
use crate::block::{
    block_loop, body_rows, cell_flags, content_of, indent4, item_content, item_flags, item_lines,
    item_marker, item_step, item_text, list_items, one_block, para_scan, quote_lines, row_cells,
    spec_atxheader, spec_block, spec_blockquote, spec_fencedcode, spec_list, spec_listitem,
    spec_paragraph, spec_table, spec_table_header, spec_table_row, text_block, Content, ItemModel,
    ItemScan, Parsed,
};
use crate::chars::{
    is_alnum, is_spacing, lemma_skipped, lemma_skipped_back, skipped, skipped_back, Class,
};
use crate::document::{
    footnote_list, inline_lines, newlines_copied, pass_lines, spec_document,
    spec_document_inline, spec_first_pass, start_state, Prepared,
};
use crate::keeps::lemma_block_keeps;
use crate::laws::lemma_count_none;
use crate::refs::{
    after_eol, note_lines, spaces, spec_def_indent, spec_is_footnote, spec_is_ref, tabs_expanded,
};
use crate::tree::FootnoteModel;
use crate::lines::{
    lemma_next_line, spec_atx_level, spec_indent3, spec_is_blank, spec_is_codefence, spec_line_end,
    spec_next_line, spec_parse_codefence, spec_prefix_code, spec_prefix_oli, spec_prefix_quote,
    spec_prefix_uli,
};
use crate::tree::{BlockModel, CellModel, RowModel};
use crate::inline::{
    emph1_loop, inline_loop, inline_target, lemma_next_active, next_active, quote_close,
    reference_target, restored, spec_action, spec_autolink, spec_autolink_www, spec_char_math,
    spec_dispatch, spec_emph1, spec_emph2, spec_emph3, spec_emphasis, spec_escape, spec_image,
    spec_inline, spec_link, spec_math, spec_quote, spec_superscript, wrapped, Action, Scan,
};
use crate::parser::State;
use crate::renderer::AutoLink;
use crate::renderer::html::HtmlState;
use crate::renderer::htmldoc::{html_document, html_inline};
use crate::scan::{respaced, spec_find_emph};
use crate::tree::{SpanKind, SpanModel};

verus! {

/// Whether `bit` is the bit of an extension.
pub open spec fn is_extension_bit(bit: u32) -> bool {
    bit == extensions::TABLES || bit == extensions::FENCED_CODE || bit == extensions::FOOTNOTES
        || bit == extensions::AUTOLINK || bit == extensions::STRIKETHROUGH || bit
        == extensions::UNDERLINE || bit == extensions::HIGHLIGHT || bit == extensions::QUOTE || bit
        == extensions::SUPERSCRIPT || bit == extensions::MATH || bit
        == extensions::NO_INTRA_EMPHASIS || bit == extensions::SPACE_HEADERS || bit
        == extensions::MATH_EXPLICIT || bit == extensions::DISABLE_INDENTED_CODE
}

/// Whether the syntax of the extension with the given bit needs byte `c`:
/// `|` for tables; `~` and the backtick for fenced code; `^` for footnotes
/// and for superscript; `:`, `@` and `w` for autolinks; `~` for
/// strikethrough; `_` for underline; `=` for highlight; `"` for quotes;
/// `$` and the backslash for math; `*`, `_`, `~` and `=` for emphasis
/// within words; `#` for headers that need a space; the space and the tab
/// for indented code.
pub open spec fn uses_syntax(bit: u32, c: u8) -> bool {
    if bit == extensions::TABLES {
        c == 0x7c
    } else if bit == extensions::FENCED_CODE {
        c == 0x7e || c == 0x60
    } else if bit == extensions::FOOTNOTES || bit == extensions::SUPERSCRIPT {
        c == 0x5e
    } else if bit == extensions::AUTOLINK {
        c == 0x3a || c == 0x40 || c == 0x77
    } else if bit == extensions::STRIKETHROUGH {
        c == 0x7e
    } else if bit == extensions::UNDERLINE {
        c == 0x5f
    } else if bit == extensions::HIGHLIGHT {
        c == 0x3d
    } else if bit == extensions::QUOTE {
        c == 0x22
    } else if bit == extensions::MATH || bit == extensions::MATH_EXPLICIT {
        c == 0x24 || c == 0x5c
    } else if bit == extensions::NO_INTRA_EMPHASIS {
        c == 0x2a || c == 0x5f || c == 0x7e || c == 0x3d
    } else if bit == extensions::SPACE_HEADERS {
        c == 0x23
    } else {
        c == 0x20 || c == 0x09
    }
}

/// Whether no byte of `data` is needed by the syntax of the extension
/// with the given bit.
pub open spec fn free_of(data: Seq<u8>, bit: u32) -> bool {
    forall|k: int| 0 <= k < data.len() ==> !uses_syntax(bit, #[trigger] data[k])
}

/// The extensions `ext` and the one with the given bit.
pub open spec fn and_bit(ext: Extension, bit: u32) -> Extension {
    Extension { bits: ext.bits | bit }
}

/// The state with one more extension enabled.
pub open spec fn more(st: State, bit: u32) -> State {
    State { ext: and_bit(st.ext, bit), ..st }
}

/// Enabling an extension enables no other.
pub proof fn lemma_other_bit(ext: Extension, bit: u32, other: u32)
    requires
        is_extension_bit(bit),
        is_extension_bit(other),
    ensures
        bit != other ==> and_bit(ext, bit).on(other) == ext.on(other),
{
    assert(forall|x: u32, y: u32, z: u32|
        (y == 0x1 || y == 0x2 || y == 0x4 || y == 0x8 || y == 0x10 || y == 0x20 || y == 0x40 || y
            == 0x80 || y == 0x100 || y == 0x200 || y == 0x800 || y == 0x1000 || y == 0x2000 || y
            == 0x4000) && (z == 0x1 || z == 0x2 || z == 0x4 || z == 0x8 || z == 0x10 || z == 0x20
            || z == 0x40 || z == 0x80 || z == 0x100 || z == 0x200 || z == 0x800 || z == 0x1000
            || z == 0x2000 || z == 0x4000) && y != z ==> (((x | y) & z != 0) == (x & z != 0)))
        by (bit_vector);
}

/// Enabling an extension changes what the scanner does at no byte that
/// its syntax does not need.
pub proof fn lemma_action_same(ext: Extension, bit: u32, c: u8)
    requires
        is_extension_bit(bit),
        !uses_syntax(bit, c),
    ensures
        spec_action(and_bit(ext, bit), c) == spec_action(ext, c),
{
    lemma_other_bit(ext, bit, extensions::STRIKETHROUGH);
    lemma_other_bit(ext, bit, extensions::HIGHLIGHT);
    lemma_other_bit(ext, bit, extensions::AUTOLINK);
    lemma_other_bit(ext, bit, extensions::SUPERSCRIPT);
    lemma_other_bit(ext, bit, extensions::QUOTE);
    lemma_other_bit(ext, bit, extensions::MATH);
}


/// With one more extension the scan for the next trigger byte stops where
/// it stops without, in text that does not use the syntax of the extension.
pub proof fn lemma_next_active_same(ext: Extension, bit: u32, data: Seq<u8>, e: int, end: int)
    requires
        is_extension_bit(bit),
        free_of(data, bit),
        0 <= e <= end <= data.len(),
    ensures
        next_active(and_bit(ext, bit), data, e, end) == next_active(ext, data, e, end),
    decreases end - e,
{
    if e < end {
        lemma_action_same(ext, bit, data[e]);
        if spec_action(ext, data[e]) == Action::Nothing {
            lemma_next_active_same(ext, bit, data, e + 1, end);
        }
    }
}

/// An extension changes no link definition that the state holds.
pub proof fn lemma_last_ref_same(st: State, bit: u32, label: Seq<u8>, n: int)
    ensures
        more(st, bit).last_ref(label, n) == st.last_ref(label, n),
    decreases n,
{
    if n > 0 {
        lemma_last_ref_same(st, bit, label, n - 1);
    }
}

/// An extension changes no footnote definition that the state holds.
pub proof fn lemma_first_note_same(st: State, bit: u32, label: Seq<u8>, i: int)
    ensures
        more(st, bit).first_note(label, i) == st.first_note(label, i),
    decreases st.footnotes.len() - i,
{
    if 0 <= i < st.footnotes.len() {
        lemma_first_note_same(st, bit, label, i + 1);
    }
}

/// Counting work in progress and enabling an extension can be done in
/// either order.
pub proof fn lemma_enter_spans_more(st: State, bit: u32, k: int)
    ensures
        more(st, bit).enter_spans(k) == more(st.enter_spans(k), bit),
    decreases k,
{
    if k > 0 {
        lemma_enter_spans_more(st, bit, k - 1);
    }
}

/// A scan with one more extension enabled in its state.
pub open spec fn more_scan(r: Scan, bit: u32) -> Scan {
    Scan { st: more(r.st, bit), ..r }
}

/// An extension changes the target of no reference link.
pub proof fn lemma_reference_target_same(
    st: State,
    bit: u32,
    data: Seq<u8>,
    pos: int,
    end: int,
    i: int,
    txt_e: int,
)
    ensures
        reference_target(more(st, bit), data, pos, end, i, txt_e) == reference_target(
            st,
            data,
            pos,
            end,
            i,
            txt_e,
        ),
{
    reveal(reference_target);
    let size = end - pos;
    let explicit = i < size && data[pos + i] == 0x5b;
    let e = skipped(data, pos + i + 1, end, Class::Not(0x5d)) - pos;
    let text = respaced(data, pos + 1, pos + txt_e, pos + 1);
    let id = if explicit && e > i + 1 {
        data.subrange(pos + i + 1, pos + e)
    } else {
        text
    };
    lemma_last_ref_same(st, bit, id, st.refs.len() as int);
}

/// Math is the same with one more extension that is not about math.
pub proof fn lemma_math_same(
    st: State,
    bit: u32,
    out: Seq<SpanModel>,
    data: Seq<u8>,
    pos: int,
    end: int,
    offset: int,
    close: Seq<u8>,
    displaymode: bool,
)
    requires
        is_extension_bit(bit),
        bit != extensions::MATH_EXPLICIT,
    ensures
        spec_math(more(st, bit), out, data, pos, end, offset, close, displaymode) == spec_math(
            st,
            out,
            data,
            pos,
            end,
            offset,
            close,
            displaymode,
        ),
{
    reveal(spec_math);
    lemma_other_bit(st.ext, bit, extensions::MATH_EXPLICIT);
}

/// What the recognisers that scan no inline content do is the same with
/// one more extension, in text that does not use the syntax of the
/// extension.
pub proof fn lemma_simple_same(
    st: State,
    bit: u32,
    out: Seq<SpanModel>,
    data: Seq<u8>,
    pos: int,
    end: int,
    offset: int,
)
    requires
        is_extension_bit(bit),
        free_of(data, bit),
        0 <= pos < end <= data.len(),
    ensures
        spec_autolink_www(more(st, bit), out, data, pos, end, offset) == spec_autolink_www(
            st,
            out,
            data,
            pos,
            end,
            offset,
        ),
        spec_autolink(more(st, bit), out, data, pos, end, offset, AutoLink::Normal)
            == spec_autolink(st, out, data, pos, end, offset, AutoLink::Normal),
        spec_autolink(more(st, bit), out, data, pos, end, offset, AutoLink::Email)
            == spec_autolink(st, out, data, pos, end, offset, AutoLink::Email),
        data[pos] == 0x5c ==> spec_escape(more(st, bit), out, data, pos, end, offset)
            == spec_escape(st, out, data, pos, end, offset),
        data[pos] == 0x24 ==> spec_char_math(more(st, bit), out, data, pos, end, offset)
            == spec_char_math(st, out, data, pos, end, offset),
{
    reveal(spec_autolink_www);
    reveal(spec_autolink);
    if data[pos] == 0x5c {
        assert(!uses_syntax(bit, data[pos]));
        reveal(spec_escape);
        lemma_other_bit(st.ext, bit, extensions::MATH);
        let bracket = data[pos + 2] == 0x5b;
        lemma_math_same(
            st,
            bit,
            out,
            data,
            pos,
            end,
            offset,
            crate::inline::math_closer(bracket),
            bracket,
        );
    }
    if data[pos] == 0x24 {
        assert(!uses_syntax(bit, data[pos]));
        lemma_other_bit(st.ext, bit, extensions::MATH_EXPLICIT);
        lemma_math_same(st, bit, out, data, pos, end, offset, seq![0x24u8, 0x24u8], true);
        lemma_math_same(st, bit, out, data, pos, end, offset, seq![0x24u8], false);
    }
}

/// The scan of inline content is the same with one more extension, in
/// text that does not use the syntax of the extension.
pub proof fn lemma_inline_same(
    st: State,
    bit: u32,
    out: Seq<SpanModel>,
    data: Seq<u8>,
    beg: int,
    end: int,
)
    requires
        is_extension_bit(bit),
        free_of(data, bit),
        0 <= beg,
        end <= data.len(),
    ensures
        spec_inline(more(st, bit), out, data, beg, end) == more_scan(
            spec_inline(st, out, data, beg, end),
            bit,
        ),
    decreases end - beg, 9nat, 0int,
{
    if !(st.too_deep() || beg > end) {
        lemma_inline_loop_same(st, bit, out, data, beg, end, beg, beg, beg);
    }
}

/// The scan of inline content from where it stands is the same with one
/// more extension.
pub proof fn lemma_inline_loop_same(
    st: State,
    bit: u32,
    out: Seq<SpanModel>,
    data: Seq<u8>,
    beg: int,
    end: int,
    i: int,
    e: int,
    consumed: int,
)
    requires
        is_extension_bit(bit),
        free_of(data, bit),
        0 <= beg,
        end <= data.len(),
    ensures
        inline_loop(more(st, bit), out, data, beg, end, i, e, consumed) == more_scan(
            inline_loop(st, out, data, beg, end, i, e, consumed),
            bit,
        ),
    decreases end - beg, 8nat, end - e,
{
    if (beg <= consumed <= i <= e <= end) && i < end {
        lemma_next_active_same(st.ext, bit, data, e, end);
        lemma_next_active(st.ext, data, e, end);
        let a = next_active(st.ext, data, e, end);
        let out2 = out.push(SpanModel::Text { text: data.subrange(i, a) });
        if a < end {
            lemma_dispatch_same(st, bit, out2, data, a, end, a - consumed);
            let r = spec_dispatch(st, out2, data, a, end, a - consumed);
            if r.n <= 0 || r.n > end - a {
                lemma_inline_loop_same(r.st, bit, r.out, data, beg, end, a, a + 1, consumed);
            } else {
                lemma_inline_loop_same(
                    r.st,
                    bit,
                    r.out,
                    data,
                    beg,
                    end,
                    a + r.n,
                    a + r.n,
                    a + r.n,
                );
            }
        }
    }
}

/// What the recogniser of a trigger byte does is the same with one more
/// extension.
pub proof fn lemma_dispatch_same(
    st: State,
    bit: u32,
    out: Seq<SpanModel>,
    data: Seq<u8>,
    pos: int,
    end: int,
    offset: int,
)
    requires
        is_extension_bit(bit),
        free_of(data, bit),
        0 <= pos < end <= data.len(),
    ensures
        spec_dispatch(more(st, bit), out, data, pos, end, offset) == more_scan(
            spec_dispatch(st, out, data, pos, end, offset),
            bit,
        ),
    decreases end - pos, 7nat, 1int,
{
    lemma_action_same(st.ext, bit, data[pos]);
    lemma_simple_same(st, bit, out, data, pos, end, offset);
    match spec_action(st.ext, data[pos]) {
        Action::Emphasis => {
            if bit == extensions::NO_INTRA_EMPHASIS {
                assert(uses_syntax(bit, data[pos]));
            } else {
                lemma_emphasis_same(st, bit, out, data, pos, end, offset);
            }
        },
        Action::Link => {
            lemma_link_same(st, bit, out, data, pos, end, offset);
        },
        Action::Image => {
            lemma_image_same(st, bit, out, data, pos, end, offset);
        },
        Action::Superscript => {
            lemma_superscript_same(st, bit, out, data, pos, end);
        },
        Action::Quote => {
            lemma_quote_same(st, bit, out, data, pos, end);
        },
        _ => {},
    }
}

/// A span that wraps inline content is the same with one more extension.
pub proof fn lemma_wrapped_same(
    st: State,
    bit: u32,
    out: Seq<SpanModel>,
    data: Seq<u8>,
    kind: SpanKind,
    from: int,
    to: int,
    src: int,
    stop: int,
)
    requires
        is_extension_bit(bit),
        free_of(data, bit),
        0 <= from,
        to <= data.len(),
    ensures
        wrapped(more(st, bit), out, data, kind, from, to, src, stop) == more_scan(
            wrapped(st, out, data, kind, from, to, src, stop),
            bit,
        ),
    decreases to - from, 10nat, 0int,
{
    if from <= to {
        lemma_inline_same(st.enter_span(), bit, Seq::empty(), data, from, to);
        assert(more(st, bit).enter_span() == more(st.enter_span(), bit));
    }
}

/// Single emphasis is the same with one more extension.
pub proof fn lemma_emph1_same(
    st: State,
    bit: u32,
    out: Seq<SpanModel>,
    data: Seq<u8>,
    base: int,
    end: int,
    c: u8,
    src: int,
    i: int,
)
    requires
        is_extension_bit(bit),
        free_of(data, bit),
        0 <= base,
        end <= data.len(),
        !uses_syntax(bit, c),
        bit != extensions::NO_INTRA_EMPHASIS,
    ensures
        emph1_loop(more(st, bit), out, data, base, end, c, src, i) == more_scan(
            emph1_loop(st, out, data, base, end, c, src, i),
            bit,
        ),
    decreases end - base + 1, 1nat, end - base - i,
{
    let size = end - base;
    let len = spec_find_emph(data, base + i, end, c, 0);
    let j = i + len;
    lemma_other_bit(st.ext, bit, extensions::NO_INTRA_EMPHASIS);
    lemma_other_bit(st.ext, bit, extensions::UNDERLINE);
    if !(i < 0 || i >= size || len <= 0 || j >= size) {
        if data[base + j] == c && !is_spacing(data[base + j - 1]) && !(st.ext.on(
            extensions::NO_INTRA_EMPHASIS,
        ) && j + 1 < size && is_alnum(data[base + j + 1])) {
            let kind = if st.ext.on(extensions::UNDERLINE) && c == 0x5f {
                SpanKind::Underline
            } else {
                SpanKind::Emphasis
            };
            lemma_wrapped_same(st, bit, out, data, kind, base, base + j, src, base + j + 1);
        } else {
            lemma_emph1_same(st, bit, out, data, base, end, c, src, j);
        }
    }
}


/// Double emphasis is the same with one more extension.
pub proof fn lemma_emph2_same(
    st: State,
    bit: u32,
    out: Seq<SpanModel>,
    data: Seq<u8>,
    base: int,
    end: int,
    c: u8,
    src: int,
    i: int,
)
    requires
        is_extension_bit(bit),
        free_of(data, bit),
        0 <= base,
        end <= data.len(),
    ensures
        spec_emph2(more(st, bit), out, data, base, end, c, src, i) == more_scan(
            spec_emph2(st, out, data, base, end, c, src, i),
            bit,
        ),
    decreases end - base + 2, 1nat, end - base - i,
{
    let size = end - base;
    let len = spec_find_emph(data, base + i, end, c, 0);
    let j = i + len;
    if !(i < 0 || i >= size || len <= 0 || j >= size) {
        if j + 1 < size && data[base + j] == c && data[base + j + 1] == c && j > 0 && !is_spacing(
            data[base + j - 1],
        ) {
            let kind = if c == 0x7e {
                SpanKind::Strikethrough
            } else if c == 0x3d {
                SpanKind::Highlight
            } else {
                SpanKind::DoubleEmphasis
            };
            lemma_wrapped_same(st, bit, out, data, kind, base, base + j, src, base + j + 2);
        } else {
            lemma_emph2_same(st, bit, out, data, base, end, c, src, j + 1);
        }
    }
}

/// Triple emphasis is the same with one more extension.
pub proof fn lemma_emph3_same(
    st: State,
    bit: u32,
    out: Seq<SpanModel>,
    data: Seq<u8>,
    base: int,
    end: int,
    c: u8,
    src: int,
    i: int,
)
    requires
        is_extension_bit(bit),
        free_of(data, bit),
        0 <= base,
        end <= data.len(),
        !uses_syntax(bit, c),
        bit != extensions::NO_INTRA_EMPHASIS,
    ensures
        spec_emph3(more(st, bit), out, data, base, end, c, src, i) == more_scan(
            spec_emph3(st, out, data, base, end, c, src, i),
            bit,
        ),
    decreases end - base + 3, 3nat, end - base - i,
{
    let size = end - base;
    let len = spec_find_emph(data, base + i, end, c, 0);
    let j = i + len;
    if !(i < 0 || i >= size || len <= 0 || j >= size || base < 2) {
        if data[base + j] != c || is_spacing(data[base + j - 1]) {
            lemma_emph3_same(st, bit, out, data, base, end, c, src, j);
        } else if j + 2 < size && data[base + j + 1] == c && data[base + j + 2] == c {
            lemma_wrapped_same(
                st,
                bit,
                out,
                data,
                SpanKind::TripleEmphasis,
                base,
                base + j,
                src,
                base + j + 3,
            );
        } else if j + 1 < size && data[base + j + 1] == c {
            lemma_emph1_same(st, bit, out, data, base - 2, end, c, src, if end - (base - 2) > 1
                && data[base - 2] == c && data[base - 2 + 1] == c {
                1
            } else {
                0
            });
            assert(spec_emph1(more(st, bit), out, data, base - 2, end, c, src) == more_scan(
                spec_emph1(st, out, data, base - 2, end, c, src),
                bit,
            ));
        } else {
            lemma_emph2_same(st, bit, out, data, base - 1, end, c, src, 0);
            assert(spec_emph2(more(st, bit), out, data, base - 1, end, c, src, 0) == more_scan(
                spec_emph2(st, out, data, base - 1, end, c, src, 0),
                bit,
            ));
        }
    }
}

/// Emphasis is the same with one more extension.
pub proof fn lemma_emphasis_same(
    st: State,
    bit: u32,
    out: Seq<SpanModel>,
    data: Seq<u8>,
    pos: int,
    end: int,
    offset: int,
)
    requires
        is_extension_bit(bit),
        free_of(data, bit),
        0 <= pos < end <= data.len(),
        bit != extensions::NO_INTRA_EMPHASIS,
    ensures
        spec_emphasis(more(st, bit), out, data, pos, end, offset) == more_scan(
            spec_emphasis(st, out, data, pos, end, offset),
            bit,
        ),
    decreases end - pos, 7nat, 0int,
{
    let size = end - pos;
    let c = data[pos];
    assert(!uses_syntax(bit, c));
    lemma_other_bit(st.ext, bit, extensions::NO_INTRA_EMPHASIS);
    if size > 2 && data[pos + 1] != c {
        lemma_emph1_same(st, bit, out, data, pos + 1, end, c, pos, if end - (pos + 1) > 1
            && data[pos + 1] == c && data[pos + 1 + 1] == c {
            1
        } else {
            0
        });
    } else if size > 3 && data[pos + 1] == c && data[pos + 2] != c {
        lemma_emph2_same(st, bit, out, data, pos + 2, end, c, pos, 0);
    } else if size > 4 && data[pos + 1] == c && data[pos + 2] == c && data[pos + 3] != c {
        lemma_emph3_same(st, bit, out, data, pos + 3, end, c, pos, 0);
    }
}

/// A quote is the same with one more extension.
pub proof fn lemma_quote_same(
    st: State,
    bit: u32,
    out: Seq<SpanModel>,
    data: Seq<u8>,
    pos: int,
    end: int,
)
    requires
        is_extension_bit(bit),
        free_of(data, bit),
        0 <= pos < end <= data.len(),
    ensures
        spec_quote(more(st, bit), out, data, pos, end) == more_scan(
            spec_quote(st, out, data, pos, end),
            bit,
        ),
    decreases end - pos, 7nat, 0int,
{
    let nq = skipped(data, pos, end, Class::Is(0x22)) - pos;
    let e = quote_close(data, pos, end, nq, nq);
    let f_begin = skipped(data, pos + nq, pos + e, Class::Is(0x20)) - pos;
    let f_end = skipped_back(data, pos + nq, pos + e - nq, Class::Is(0x20)) - pos;
    if !(nq <= 0 || e <= 0 || e > end - pos) && f_begin < f_end {
        lemma_skipped(data, pos + nq, pos + e, Class::Is(0x20));
        lemma_skipped_back(data, pos + nq, pos + e - nq, Class::Is(0x20));
        lemma_wrapped_same(
            st,
            bit,
            out,
            data,
            SpanKind::Quote,
            pos + f_begin,
            pos + f_end,
            pos,
            pos + e,
        );
    }
}

/// Superscript is the same with one more extension.
pub proof fn lemma_superscript_same(
    st: State,
    bit: u32,
    out: Seq<SpanModel>,
    data: Seq<u8>,
    pos: int,
    end: int,
)
    requires
        is_extension_bit(bit),
        free_of(data, bit),
        0 <= pos < end <= data.len(),
    ensures
        spec_superscript(more(st, bit), out, data, pos, end) == more_scan(
            spec_superscript(st, out, data, pos, end),
            bit,
        ),
    decreases end - pos, 7nat, 0int,
{
    let size = end - pos;
    let paren = data[pos + 1] == 0x28;
    let sup_start = if paren {
        2int
    } else {
        1int
    };
    let sup_len = if paren {
        spec_find_emph(data, pos + 2, end, 0x29, 0) + 2
    } else {
        skipped(data, pos + 1, end, Class::NotSpacing) - pos
    };
    let n = if paren {
        sup_len + 1
    } else {
        sup_len
    };
    if !(size < 2 || (paren && sup_len == size) || sup_len > size || n > size) && sup_len
        - sup_start > 0 {
        lemma_wrapped_same(
            st,
            bit,
            out,
            data,
            SpanKind::Superscript,
            pos + sup_start,
            pos + sup_len,
            pos,
            pos + n,
        );
    }
}

/// An image is the same with one more extension.
pub proof fn lemma_image_same(
    st: State,
    bit: u32,
    out: Seq<SpanModel>,
    data: Seq<u8>,
    pos: int,
    end: int,
    offset: int,
)
    requires
        is_extension_bit(bit),
        free_of(data, bit),
        0 <= pos < end <= data.len(),
    ensures
        spec_image(more(st, bit), out, data, pos, end, offset) == more_scan(
            spec_image(st, out, data, pos, end, offset),
            bit,
        ),
    decreases end - pos, 7nat, 0int,
{
    if !(end - pos < 2 || data[pos + 1] != 0x5b) {
        lemma_link_same(st, bit, out, data, pos + 1, end, offset + 1);
    }
}

/// A link is the same with one more extension.
pub proof fn lemma_link_same(
    st: State,
    bit: u32,
    out: Seq<SpanModel>,
    data: Seq<u8>,
    pos: int,
    end: int,
    offset: int,
)
    requires
        is_extension_bit(bit),
        free_of(data, bit),
        0 <= pos < end <= data.len(),
    ensures
        spec_link(more(st, bit), out, data, pos, end, offset) == more_scan(
            spec_link(st, out, data, pos, end, offset),
            bit,
        ),
    decreases end - pos, 6nat, 0int,
{
    let size = end - pos;
    let txt_e = 1 + spec_find_emph(data, pos + 1, end, 0x5d, 0);
    let i1 = txt_e + 1;
    let i2 = skipped(data, pos + i1, end, Class::Spacing) - pos;
    lemma_other_bit(st.ext, bit, extensions::FOOTNOTES);
    if size > 1 {
        assert(!uses_syntax(bit, data[pos + 1]));
    }
    lemma_first_note_same(st, bit, data.subrange(pos + 2, pos + txt_e), 0);
    lemma_reference_target_same(st, bit, data, pos, end, i2, txt_e);
    let target = if i2 < size && data[pos + i2] == 0x28 {
        inline_target(data, pos, end, i2)
    } else {
        reference_target(st, data, pos, end, i2, txt_e)
    };
    if txt_e < size && txt_e > 1 {
        lemma_enter_spans_more(st, bit, target.bufs + 1);
        let inner_st = State { in_link_body: true, ..st.enter_spans(target.bufs + 1) };
        lemma_inline_same(inner_st, bit, Seq::empty(), data, pos + 1, pos + txt_e);
        assert(more(inner_st, bit) == (State {
            in_link_body: true,
            ..more(st, bit).enter_spans(target.bufs + 1)
        }));
    }
}


/// A parse with one more extension enabled in its state.
pub open spec fn more_parsed(r: Parsed, bit: u32) -> Parsed {
    Parsed { st: more(r.st, bit), ..r }
}

/// A list item with one more extension enabled in its state.
pub open spec fn more_item(r: ItemModel, bit: u32) -> ItemModel {
    ItemModel { st: more(r.st, bit), ..r }
}

/// Inline content is the same with one more extension.
pub proof fn lemma_content_same(st: State, bit: u32, data: Seq<u8>, beg: int, end: int, block: bool)
    requires
        is_extension_bit(bit),
        free_of(data, bit),
        0 <= beg,
        end <= data.len(),
    ensures
        content_of(more(st, bit), data, beg, end, block) == (Content {
            st: more(content_of(st, data, beg, end, block).st, bit),
            spans: content_of(st, data, beg, end, block).spans,
        }),
{
    let inner = if block {
        st.enter_block()
    } else {
        st.enter_span()
    };
    lemma_inline_same(inner, bit, Seq::empty(), data, beg, end);
    assert(more(inner, bit) == if block {
        more(st, bit).enter_block()
    } else {
        more(st, bit).enter_span()
    });
}

/// An ATX header is the same with one more extension.
pub proof fn lemma_atxheader_same(st: State, bit: u32, out: Seq<BlockModel>, data: Seq<u8>, beg: int, end: int)
    requires
        is_extension_bit(bit),
        free_of(data, bit),
        0 <= beg <= end <= data.len(),
    ensures
        spec_atxheader(more(st, bit), out, data, beg, end) == more_parsed(
            spec_atxheader(st, out, data, beg, end),
            bit,
        ),
{
    reveal(spec_atxheader);
    let level = spec_atx_level(data, beg, end);
    lemma_skipped(data, beg, if end - beg > 6 {
        beg + 6
    } else {
        end
    }, Class::Is(0x23));
    let i = skipped(data, beg + level, end, Class::Is(0x20));
    lemma_skipped(data, beg + level, end, Class::Is(0x20));
    let le = spec_line_end(data, i, end);
    lemma_skipped(data, i, end, Class::Not(0x0a));
    let e1 = skipped_back(data, beg, le, Class::Is(0x23));
    lemma_skipped_back(data, beg, le, Class::Is(0x23));
    let e2 = skipped_back(data, beg, e1, Class::Is(0x20));
    lemma_skipped_back(data, beg, e1, Class::Is(0x20));
    lemma_content_same(st, bit, data, i, e2, false);
}

/// Where a paragraph ends does not depend on whether headers need a
/// space, in text without `#`.
pub proof fn lemma_para_scan_same(data: Seq<u8>, beg: int, end: int, i: int)
    requires
        free_of(data, extensions::SPACE_HEADERS),
        0 <= beg <= end <= data.len(),
        0 <= i,
    ensures
        para_scan(true, data, beg, end, i) == para_scan(false, data, beg, end, i),
    decreases end - beg - i,
{
    if beg + i < end {
        assert(!uses_syntax(extensions::SPACE_HEADERS, data[beg + i]));
        let e = spec_next_line(data, beg + i, end) - beg;
        lemma_next_line(data, beg + i, end);
        lemma_para_scan_same(data, beg, end, e);
    }
}

/// A paragraph is the same with one more extension.
pub proof fn lemma_paragraph_same(st: State, bit: u32, out: Seq<BlockModel>, data: Seq<u8>, beg: int, end: int)
    requires
        is_extension_bit(bit),
        free_of(data, bit),
        0 <= beg <= end <= data.len(),
    ensures
        spec_paragraph(more(st, bit), out, data, beg, end) == more_parsed(
            spec_paragraph(st, out, data, beg, end),
            bit,
        ),
{
    reveal(spec_paragraph);
    lemma_other_bit(st.ext, bit, extensions::SPACE_HEADERS);
    if bit == extensions::SPACE_HEADERS {
        lemma_para_scan_same(data, beg, end, 0);
    }
    let pe = para_scan(st.ext.on(extensions::SPACE_HEADERS), data, beg, end, 0);
    lemma_para_scan_bounds(st.ext.on(extensions::SPACE_HEADERS), data, beg, end, 0);
    let work = skipped_back(data, beg, beg + pe.i, Class::Is(0x0a));
    lemma_skipped_back(data, beg, beg + pe.i, Class::Is(0x0a));
    let last = skipped_back(data, beg + 1, work, Class::Not(0x0a));
    let before = skipped_back(data, beg, last - 1, Class::Is(0x0a));
    lemma_content_same(st, bit, data, beg, work, true);
    if work > beg {
        lemma_skipped_back(data, beg + 1, work, Class::Not(0x0a));
        if last - 1 >= beg {
            lemma_skipped_back(data, beg, last - 1, Class::Is(0x0a));
        }
    }
    lemma_content_same(st, bit, data, beg, before, true);
    let first = content_of(st, data, beg, before, true);
    lemma_content_same(first.st, bit, data, last, work, false);
    lemma_content_same(st, bit, data, beg, work, false);
}

/// A paragraph ends within the text.
pub proof fn lemma_para_scan_bounds(sh: bool, data: Seq<u8>, beg: int, end: int, i: int)
    requires
        0 <= beg <= end <= data.len(),
        0 <= i <= end - beg,
    ensures
        0 <= para_scan(sh, data, beg, end, i).i <= end - beg,
    decreases end - beg - i,
{
    if beg + i < end {
        let e = spec_next_line(data, beg + i, end) - beg;
        lemma_next_line(data, beg + i, end);
        lemma_para_scan_bounds(sh, data, beg, end, e);
    }
}

/// The cells of a table row are the same with one more extension.
pub proof fn lemma_row_cells_same(
    st: State,
    bit: u32,
    data: Seq<u8>,
    beg: int,
    end: int,
    i: int,
    col_data: Seq<u32>,
    header: bool,
    cells: Seq<CellModel>,
)
    requires
        is_extension_bit(bit),
        free_of(data, bit),
        0 <= beg <= end <= data.len(),
    ensures
        row_cells(more(st, bit), data, beg, end, i, col_data, header, cells) == (
            more(row_cells(st, data, beg, end, i, col_data, header, cells).0, bit),
            row_cells(st, data, beg, end, i, col_data, header, cells).1,
        ),
    decreases col_data.len() - cells.len(),
{
    let size = end - beg;
    if !(cells.len() >= col_data.len() || i < 0 || i >= size) {
        let cell_start = skipped(data, beg + i, end, Class::Spacing) - beg;
        lemma_skipped(data, beg + i, end, Class::Spacing);
        let f = spec_find_emph(data, beg + cell_start, end, 0x7c, 0);
        let len = if f == 0 && cell_start < size && data[beg + cell_start] != 0x7c {
            size - cell_start
        } else {
            f
        };
        let i2 = cell_start + len;
        crate::scan::lemma_find_emph_bound(data, beg + cell_start, end, 0x7c, 0);
        let cell_end = skipped_back(data, beg + cell_start, beg + i2, Class::Spacing) - beg;
        lemma_skipped_back(data, beg + cell_start, beg + i2, Class::Spacing);
        lemma_content_same(st, bit, data, beg + cell_start, beg + cell_end, false);
        let c = content_of(st, data, beg + cell_start, beg + cell_end, false);
        lemma_row_cells_same(c.st, bit, data, beg, end, if i2 < size {
            i2 + 1
        } else {
            size
        }, col_data, header, cells.push(
            CellModel {
                content: c.spans,
                flags: cell_flags(col_data[cells.len() as int], header),
            },
        ));
    }
}


/// A table row is the same with one more extension.
pub proof fn lemma_table_row_same(
    st: State,
    bit: u32,
    data: Seq<u8>,
    beg: int,
    end: int,
    col_data: Seq<u32>,
    header: bool,
)
    requires
        is_extension_bit(bit),
        free_of(data, bit),
        0 <= beg <= end <= data.len(),
    ensures
        spec_table_row(more(st, bit), data, beg, end, col_data, header) == (
            more(spec_table_row(st, data, beg, end, col_data, header).0, bit),
            spec_table_row(st, data, beg, end, col_data, header).1,
        ),
{
    lemma_row_cells_same(st.enter_span(), bit, data, beg, end, if beg < end && data[beg] == 0x7c {
        1
    } else {
        0
    }, col_data, header, Seq::empty());
    assert(more(st, bit).enter_span() == more(st.enter_span(), bit));
}

/// The body rows of a table are the same with one more extension.
pub proof fn lemma_body_rows_same(
    st: State,
    bit: u32,
    data: Seq<u8>,
    beg: int,
    end: int,
    i: int,
    col_data: Seq<u32>,
    rows: Seq<RowModel>,
)
    requires
        is_extension_bit(bit),
        free_of(data, bit),
        0 <= beg <= end <= data.len(),
    ensures
        body_rows(more(st, bit), data, beg, end, i, col_data, rows).0 == more(
            body_rows(st, data, beg, end, i, col_data, rows).0,
            bit,
        ),
        body_rows(more(st, bit), data, beg, end, i, col_data, rows).1 == body_rows(
            st,
            data,
            beg,
            end,
            i,
            col_data,
            rows,
        ).1,
        body_rows(more(st, bit), data, beg, end, i, col_data, rows).2 == body_rows(
            st,
            data,
            beg,
            end,
            i,
            col_data,
            rows,
        ).2,
    decreases end - beg - i,
{
    let size = end - beg;
    let le = spec_line_end(data, beg + i, end) - beg;
    let pipes = count_of(data, beg + i, beg + le, 0x7c);
    if !(i < 0 || i >= size || pipes == 0 || le >= size) {
        lemma_skipped(data, beg + i, end, Class::Not(0x0a));
        lemma_table_row_same(st, bit, data, beg + i, beg + le, col_data, false);
        let r = spec_table_row(st, data, beg + i, beg + le, col_data, false);
        lemma_body_rows_same(r.0, bit, data, beg, end, le + 1, col_data, rows.push(r.1));
    }
}

/// No table starts in text without `|`.
pub proof fn lemma_no_table(st: State, out: Seq<BlockModel>, data: Seq<u8>, beg: int, end: int)
    requires
        free_of(data, extensions::TABLES),
        0 <= beg <= end <= data.len(),
    ensures
        spec_table(st, out, data, beg, end) == (Parsed { st, out, n: 0 }),
{
    reveal(spec_table);
    let le = spec_line_end(data, beg, end) - beg;
    lemma_skipped(data, beg, end, Class::Not(0x0a));
    assert forall|k: int| beg <= k < beg + le implies #[trigger] data[k] != 0x7c by {
        assert(!uses_syntax(extensions::TABLES, data[k]));
    }
    lemma_count_none(data, beg, beg + le, 0x7c);
    assert(spec_table_header(data, beg, end).len == 0);
}

/// A table is the same with one more extension.
pub proof fn lemma_table_same(st: State, bit: u32, out: Seq<BlockModel>, data: Seq<u8>, beg: int, end: int)
    requires
        is_extension_bit(bit),
        free_of(data, bit),
        0 <= beg <= end <= data.len(),
    ensures
        spec_table(more(st, bit), out, data, beg, end) == more_parsed(
            spec_table(st, out, data, beg, end),
            bit,
        ),
{
    reveal(spec_table);
    let head = spec_table_header(data, beg, end);
    if head.len != 0 {
        let st1 = st.enter_block().enter_span().enter_block();
        assert(more(st, bit).enter_block().enter_span().enter_block() == more(st1, bit));
        let le = spec_line_end(data, beg, end) - beg;
        lemma_skipped(data, beg, end, Class::Not(0x0a));
        lemma_skipped_back(data, beg, beg + le, Class::Spacing);
        lemma_table_row_same(st1, bit, data, beg, beg + head.header_end, head.col_data, true);
        let h = spec_table_row(st1, data, beg, beg + head.header_end, head.col_data, true);
        lemma_body_rows_same(h.0, bit, data, beg, end, head.len, head.col_data, Seq::empty());
    }
}

/// No fenced code block starts in text without `~` and backticks.
pub proof fn lemma_no_fence(out: Seq<BlockModel>, data: Seq<u8>, beg: int, end: int)
    requires
        free_of(data, extensions::FENCED_CODE),
        0 <= beg <= end <= data.len(),
    ensures
        spec_fencedcode(out, data, beg, end) == (out, 0int),
{
    reveal(spec_fencedcode);
    let le = spec_line_end(data, beg, end);
    lemma_skipped(data, beg, end, Class::Not(0x0a));
    lemma_no_codefence(data, beg, le);
    assert(spec_parse_codefence(data, beg, le).fence.len == 0);
}

/// No line is a code fence in text without `~` and backticks.
pub proof fn lemma_no_codefence(data: Seq<u8>, beg: int, end: int)
    requires
        free_of(data, extensions::FENCED_CODE),
        0 <= beg <= end <= data.len(),
    ensures
        spec_is_codefence(data, beg, end).len == 0,
{
    let i = spec_indent3(data, beg, end);
    lemma_skipped(data, beg, end, Class::Is(0x20));
    if !(end - beg < 3 || i + 2 >= end - beg) {
        assert(!uses_syntax(extensions::FENCED_CODE, data[beg + i]));
    }
}

/// The text of a block quote holds no byte that the lines it comes from
/// do not hold.
pub proof fn lemma_quote_lines_free(data: Seq<u8>, beg: int, end: int, b: int, work: Seq<u8>, bit: u32)
    requires
        free_of(data, bit),
        free_of(work, bit),
        0 <= beg <= end <= data.len(),
        0 <= b,
    ensures
        free_of(quote_lines(data, beg, end, b, work).1, bit),
    decreases end - beg - b,
{
    let size = end - beg;
    let e = spec_next_line(data, beg + b, end) - beg;
    let pre = spec_prefix_quote(data, beg + b, beg + e);
    let b2 = b + pre;
    if !(b < 0 || b >= size) && !(pre == 0 && spec_is_blank(data, beg + b, beg + e) && (e >= size
        || (spec_prefix_quote(data, beg + e, end) == 0 && !spec_is_blank(data, beg + e, end)))) {
        lemma_next_line(data, beg + b, end);
        let next = if b2 < e {
            work + data.subrange(beg + b2, beg + e)
        } else {
            work
        };
        if b2 < e {
            lemma_skipped(data, beg + b, beg + e, Class::Is(0x20));
            assert forall|k: int| 0 <= k < next.len() implies !uses_syntax(
                bit,
                #[trigger] next[k],
            ) by {
                if k < work.len() {
                    assert(next[k] == work[k]);
                } else {
                    assert(next[k] == data[beg + b2 + (k - work.len())]);
                }
            }
        }
        lemma_quote_lines_free(data, beg, end, e, next, bit);
    }
}

/// No byte that the syntax of an extension needs is a line feed.
pub proof fn lemma_line_feed_free(bit: u32)
    ensures
        !uses_syntax(bit, 0x0a),
{
}

/// One line of a list item is the same whether fenced code is enabled
/// or not, in text without `~` and backticks; and the text of the item
/// holds no byte that the lines it comes from do not hold.
pub proof fn lemma_item_step(
    fenced: bool,
    orgpre: int,
    data: Seq<u8>,
    beg: int,
    end: int,
    s: ItemScan,
    bit: u32,
)
    requires
        free_of(data, bit),
        free_of(s.work, bit),
        0 <= beg <= end <= data.len(),
        0 <= s.b < end - beg,
    ensures
        free_of(item_step(fenced, orgpre, data, beg, end, s).0.work, bit),
        bit == extensions::FENCED_CODE ==> item_step(true, orgpre, data, beg, end, s) == item_step(
            false,
            orgpre,
            data,
            beg,
            end,
            s,
        ),
{
    let b = s.b;
    let e = spec_next_line(data, beg + b, end) - beg;
    lemma_next_line(data, beg + b, end);
    let i = indent4(data, beg + b, beg + e);
    lemma_skipped(data, beg + b, if beg + e - (beg + b) > 4 {
        beg + b + 4
    } else {
        beg + e
    }, Class::Is(0x20));
    let from = beg + b + i;
    if bit == extensions::FENCED_CODE {
        lemma_no_codefence(data, from, beg + e);
    }
    let work = (if s.in_empty {
        s.work.push(0x0a)
    } else {
        s.work
    }) + data.subrange(from, beg + e);
    lemma_line_feed_free(bit);
    assert forall|k: int| 0 <= k < work.len() implies !uses_syntax(bit, #[trigger] work[k]) by {
        let base = if s.in_empty {
            s.work.push(0x0a)
        } else {
            s.work
        };
        if k < s.work.len() {
            assert(work[k] == s.work[k]);
        } else if k < base.len() {
            assert(work[k] == 0x0a);
        } else {
            assert(work[k] == data[from + (k - base.len())]);
        }
    }
}

/// The lines of a list item are the same whether fenced code is enabled
/// or not, in text without `~` and backticks; and the text of the item
/// holds no byte that the lines it comes from do not hold.
pub proof fn lemma_item_lines(
    fenced: bool,
    orgpre: int,
    data: Seq<u8>,
    beg: int,
    end: int,
    s: ItemScan,
    bit: u32,
)
    requires
        free_of(data, bit),
        free_of(s.work, bit),
        0 <= beg <= end <= data.len(),
        0 <= s.b,
    ensures
        free_of(item_lines(fenced, orgpre, data, beg, end, s).work, bit),
        bit == extensions::FENCED_CODE ==> item_lines(true, orgpre, data, beg, end, s)
            == item_lines(false, orgpre, data, beg, end, s),
    decreases end - beg - s.b,
{
    if !(s.b < 0 || s.b >= end - beg) {
        lemma_item_step(fenced, orgpre, data, beg, end, s, bit);
        lemma_item_step(true, orgpre, data, beg, end, s, bit);
        lemma_item_step(false, orgpre, data, beg, end, s, bit);
        let r = item_step(fenced, orgpre, data, beg, end, s);
        if !(r.1 || r.0.b <= s.b) {
            lemma_item_lines(fenced, orgpre, data, beg, end, r.0, bit);
            lemma_item_lines(true, orgpre, data, beg, end, r.0, bit);
            lemma_item_lines(false, orgpre, data, beg, end, r.0, bit);
        }
    }
}

/// The text of a list item is the same with one more extension, and
/// holds no byte that the lines it comes from do not hold.
pub proof fn lemma_item_text(st: State, bit: u32, data: Seq<u8>, beg: int, end: int, flags: u32)
    requires
        is_extension_bit(bit),
        free_of(data, bit),
        0 <= beg <= end <= data.len(),
        item_marker(data, beg, end) != 0,
    ensures
        item_text(more(st, bit).ext.on(extensions::FENCED_CODE), data, beg, end, flags)
            == item_text(st.ext.on(extensions::FENCED_CODE), data, beg, end, flags),
        free_of(item_text(st.ext.on(extensions::FENCED_CODE), data, beg, end, flags).work, bit),
{
    reveal(item_text);
    lemma_other_bit(st.ext, bit, extensions::FENCED_CODE);
    let b0 = item_marker(data, beg, end);
    lemma_marker_bounds(data, beg, end);
    let e0 = spec_next_line(data, beg + b0 - 1, end) - beg;
    lemma_next_line(data, beg + b0 - 1, end);
    let s = ItemScan {
        b: e0,
        work: data.subrange(beg + b0, beg + e0),
        in_empty: false,
        has_inside_empty: false,
        in_fence: false,
        sublist: 0,
        flags,
    };
    assert forall|k: int| 0 <= k < s.work.len() implies !uses_syntax(bit, #[trigger] s.work[k]) by {
        assert(s.work[k] == data[beg + b0 + k]);
    }
    let orgpre = spec_indent3(data, beg, end);
    lemma_item_lines(st.ext.on(extensions::FENCED_CODE), orgpre, data, beg, end, s, bit);
    lemma_item_lines(true, orgpre, data, beg, end, s, bit);
}

/// A list marker stands within its line.
pub proof fn lemma_marker_bounds(data: Seq<u8>, beg: int, end: int)
    requires
        0 <= beg <= end <= data.len(),
    ensures
        item_marker(data, beg, end) == 0 || 2 <= item_marker(data, beg, end) <= end - beg,
{
    lemma_skipped(data, beg, end, Class::Is(0x20));
    let i = spec_indent3(data, beg, end);
    lemma_skipped(data, beg + i, end, Class::Digit);
}


/// The scan of blocks is the same with one more extension, in text that
/// does not use the syntax of the extension.
pub proof fn lemma_block_same(st: State, bit: u32, out: Seq<BlockModel>, data: Seq<u8>, beg: int, end: int)
    requires
        is_extension_bit(bit),
        free_of(data, bit),
        0 <= beg,
        end <= data.len(),
    ensures
        spec_block(more(st, bit), out, data, beg, end) == more_parsed(
            spec_block(st, out, data, beg, end),
            bit,
        ),
    decreases end - beg, 5nat, 0int,
{
    if !(st.too_deep() || beg > end) {
        lemma_block_loop_same(st, bit, out, data, beg, end, beg);
    }
}

/// The scan of blocks from where it stands is the same with one more
/// extension.
pub proof fn lemma_block_loop_same(
    st: State,
    bit: u32,
    out: Seq<BlockModel>,
    data: Seq<u8>,
    beg: int,
    end: int,
    b: int,
)
    requires
        is_extension_bit(bit),
        free_of(data, bit),
        0 <= beg,
        end <= data.len(),
    ensures
        block_loop(more(st, bit), out, data, beg, end, b) == more_parsed(
            block_loop(st, out, data, beg, end, b),
            bit,
        ),
    decreases end - beg, 4nat, end - b,
{
    if !(b < beg || b >= end) {
        lemma_one_block_same(st, bit, out, data, b, end);
        let r = one_block(st, out, data, b, end);
        if !(r.n <= 0 || r.n > end - b) {
            lemma_block_loop_same(r.st, bit, r.out, data, beg, end, b + r.n);
        }
    }
}

/// The block that starts at a position is the same with one more extension.
pub proof fn lemma_one_block_same(st: State, bit: u32, out: Seq<BlockModel>, data: Seq<u8>, b: int, end: int)
    requires
        is_extension_bit(bit),
        free_of(data, bit),
        0 <= b < end <= data.len(),
    ensures
        one_block(more(st, bit), out, data, b, end) == more_parsed(
            one_block(st, out, data, b, end),
            bit,
        ),
    decreases end - b, 3nat, 0int,
{
    lemma_other_bit(st.ext, bit, extensions::SPACE_HEADERS);
    lemma_other_bit(st.ext, bit, extensions::FENCED_CODE);
    lemma_other_bit(st.ext, bit, extensions::TABLES);
    assert(!uses_syntax(bit, data[b]));
    if bit == extensions::FENCED_CODE {
        lemma_no_fence(out, data, b, end);
    }
    if bit == extensions::TABLES {
        lemma_no_table(st, out, data, b, end);
        lemma_no_table(more(st, bit), out, data, b, end);
    }
    lemma_atxheader_same(st, bit, out, data, b, end);
    lemma_table_same(st, bit, out, data, b, end);
    lemma_text_block_same(st, bit, out, data, b, end);
}

/// A block quote, an indented code block, a list or a paragraph is the
/// same with one more extension.
pub proof fn lemma_text_block_same(
    st: State,
    bit: u32,
    out: Seq<BlockModel>,
    data: Seq<u8>,
    b: int,
    end: int,
)
    requires
        is_extension_bit(bit),
        free_of(data, bit),
        0 <= b < end <= data.len(),
    ensures
        text_block(more(st, bit), out, data, b, end) == more_parsed(
            text_block(st, out, data, b, end),
            bit,
        ),
    decreases end - b, 2nat, 1int,
{
    lemma_other_bit(st.ext, bit, extensions::DISABLE_INDENTED_CODE);
    assert(!uses_syntax(bit, data[b]));
    if spec_prefix_code(data, b, end) != 0 {
        assert(data[b] == 0x20);
    }
    if spec_prefix_quote(data, b, end) != 0 {
        lemma_blockquote_same(st, bit, out, data, b, end);
    } else if spec_prefix_uli(data, b, end) != 0 {
        lemma_list_same(st, bit, out, data, b, end, 0);
    } else if spec_prefix_oli(data, b, end) != 0 {
        lemma_list_same(st, bit, out, data, b, end, crate::renderer::list::ORDERED);
    } else {
        lemma_paragraph_same(st, bit, out, data, b, end);
    }
}

/// A block quote is the same with one more extension.
pub proof fn lemma_blockquote_same(
    st: State,
    bit: u32,
    out: Seq<BlockModel>,
    data: Seq<u8>,
    beg: int,
    end: int,
)
    requires
        is_extension_bit(bit),
        free_of(data, bit),
        0 <= beg <= end <= data.len(),
    ensures
        spec_blockquote(more(st, bit), out, data, beg, end) == more_parsed(
            spec_blockquote(st, out, data, beg, end),
            bit,
        ),
    decreases end - beg, 2nat, 0int,
{
    let r = quote_lines(data, beg, end, 0, Seq::empty());
    lemma_quote_lines_free(data, beg, end, 0, Seq::empty(), bit);
    if r.1.len() < end - beg {
        lemma_block_same(st.enter_block(), bit, Seq::empty(), r.1, 0, r.1.len() as int);
        assert(more(st, bit).enter_block() == more(st.enter_block(), bit));
    }
}

/// A list is the same with one more extension.
pub proof fn lemma_list_same(
    st: State,
    bit: u32,
    out: Seq<BlockModel>,
    data: Seq<u8>,
    beg: int,
    end: int,
    flags: u32,
)
    requires
        is_extension_bit(bit),
        free_of(data, bit),
        0 <= beg <= end <= data.len(),
    ensures
        spec_list(more(st, bit), out, data, beg, end, flags) == more_parsed(
            spec_list(st, out, data, beg, end, flags),
            bit,
        ),
    decreases end - beg, 2nat, 0int,
{
    lemma_list_items_same(st.enter_block(), bit, Seq::empty(), data, beg, end, 0, flags);
    assert(more(st, bit).enter_block() == more(st.enter_block(), bit));
}

/// The items of a list are the same with one more extension.
pub proof fn lemma_list_items_same(
    st: State,
    bit: u32,
    items: Seq<BlockModel>,
    data: Seq<u8>,
    beg: int,
    end: int,
    i: int,
    flags: u32,
)
    requires
        is_extension_bit(bit),
        free_of(data, bit),
        0 <= beg <= end <= data.len(),
    ensures
        list_items(more(st, bit), items, data, beg, end, i, flags) == more_item(
            list_items(st, items, data, beg, end, i, flags),
            bit,
        ),
    decreases end - beg, 1nat, end - beg - i,
{
    if !(i < 0 || i >= end - beg) {
        lemma_listitem_same(st, bit, items, data, beg + i, end, flags);
        let r = spec_listitem(st, items, data, beg + i, end, flags);
        if !(r.n <= 0 || r.n > end - beg - i || r.flags & crate::block::LI_END != 0) {
            lemma_list_items_same(r.st, bit, r.out, data, beg, end, i + r.n, r.flags);
        }
    }
}

/// A list item is the same with one more extension.
pub proof fn lemma_listitem_same(
    st: State,
    bit: u32,
    out: Seq<BlockModel>,
    data: Seq<u8>,
    beg: int,
    end: int,
    flags: u32,
)
    requires
        is_extension_bit(bit),
        free_of(data, bit),
        0 <= beg <= end <= data.len(),
    ensures
        spec_listitem(more(st, bit), out, data, beg, end, flags) == more_item(
            spec_listitem(st, out, data, beg, end, flags),
            bit,
        ),
    decreases end - beg, 0nat, 0int,
{
    if item_marker(data, beg, end) != 0 {
        lemma_item_text(st, bit, data, beg, end, flags);
        let s = item_text(st.ext.on(extensions::FENCED_CODE), data, beg, end, flags);
        let flags2 = item_flags(s);
        if s.work.len() < end - beg {
            let st1 = st.enter_span().enter_span();
            assert(more(st, bit).enter_span().enter_span() == more(st1, bit));
            lemma_item_content_same(
                st1,
                bit,
                s.work,
                s.sublist,
                flags2 & crate::renderer::list::BLOCK != 0,
            );
        }
    }
}

/// The content of a list item is the same with one more extension.
pub proof fn lemma_item_content_same(st: State, bit: u32, work: Seq<u8>, sublist: int, block: bool)
    requires
        is_extension_bit(bit),
        free_of(work, bit),
    ensures
        item_content(more(st, bit), work, sublist, block) == (
            more(item_content(st, work, sublist, block).0, bit),
            item_content(st, work, sublist, block).1,
            item_content(st, work, sublist, block).2,
        ),
    decreases work.len(), 6nat, 0int,
{
    let len = work.len() as int;
    let cut = 0 < sublist < len;
    let first = if cut {
        sublist
    } else {
        len
    };
    if block {
        lemma_block_same(st, bit, Seq::empty(), work, 0, first);
        let a = spec_block(st, Seq::empty(), work, 0, first);
        if cut {
            lemma_block_same(a.st, bit, a.out, work, sublist, len);
        }
    } else {
        lemma_inline_same(st, bit, Seq::empty(), work, 0, first);
        let sp = spec_inline(st, Seq::empty(), work, 0, first);
        if cut {
            lemma_block_same(sp.st, bit, Seq::empty(), work, sublist, len);
        }
    }
}


/// Text with its tabs expanded holds no byte that the syntax of an
/// extension needs where the text holds none.
pub proof fn lemma_tabs_free(line: Seq<u8>, i: int, tab: int, bit: u32)
    requires
        free_of(line, bit),
        0 <= i,
    ensures
        free_of(tabs_expanded(line, i, tab), bit),
    decreases line.len() - i,
{
    if i < line.len() {
        assert(!uses_syntax(bit, line[i]));
        let next_tab = if line[i] & 0xc0 != 0x80 {
            (tab + 1) % 4
        } else {
            tab
        };
        if line[i] == 0x09 {
            lemma_tabs_free(line, i + 1, 0, bit);
            let rest = tabs_expanded(line, i + 1, 0);
            let all = spaces(4 - tab) + rest;
            assert forall|k: int| 0 <= k < all.len() implies !uses_syntax(bit, #[trigger] all[k]) by {
                if k < spaces(4 - tab).len() {
                    assert(all[k] == 0x20);
                } else {
                    assert(all[k] == rest[k - spaces(4 - tab).len()]);
                }
            }
        } else {
            lemma_tabs_free(line, i + 1, next_tab, bit);
            let rest = tabs_expanded(line, i + 1, next_tab);
            let all = seq![line[i]] + rest;
            assert forall|k: int| 0 <= k < all.len() implies !uses_syntax(bit, #[trigger] all[k]) by {
                if k >= 1 {
                    assert(all[k] == rest[k - 1]);
                }
            }
        }
    }
}

/// Text with line feeds after it holds no byte that the syntax of an
/// extension needs where the text holds none.
pub proof fn lemma_newlines_free(data: Seq<u8>, i: int, text: Seq<u8>, bit: u32)
    requires
        free_of(text, bit),
    ensures
        free_of(newlines_copied(data, i, text).1, bit),
        i <= newlines_copied(data, i, text).0,
        0 <= i <= data.len() ==> newlines_copied(data, i, text).0 <= data.len(),
    decreases data.len() - i,
{
    if 0 <= i < data.len() && crate::refs::spec_is_eol(data[i]) {
        let next = if data[i] == 0x0a || (data.len() - i > 1 && data[i + 1] != 0x0a) {
            text.push(0x0a)
        } else {
            text
        };
        lemma_newlines_free(data, i + 1, next, bit);
    }
}

/// The text of a footnote definition holds no byte that the syntax of an
/// extension needs where the document holds none.
pub proof fn lemma_note_lines_free(
    data: Seq<u8>,
    end: int,
    first: int,
    start: int,
    in_empty: bool,
    contents: Seq<u8>,
    bit: u32,
)
    requires
        free_of(data, bit),
        free_of(contents, bit),
        0 <= start,
        end <= data.len(),
    ensures
        free_of(note_lines(data, end, first, start, in_empty, contents).1, bit),
    decreases end - start,
{
    if !(start < 0 || start >= end) {
        let i = skipped(data, start, end, Class::NotEol);
        lemma_skipped(data, start, end, Class::NotEol);
        let stop = if end - start > 4 {
            start + 4
        } else {
            end
        };
        let ind = skipped(data, start, stop, Class::Is(0x20)) - start;
        lemma_skipped(data, start, stop, Class::Is(0x20));
        let next = after_eol(data, i, end);
        let a = if ind != 0 && in_empty {
            contents.push(0x0a)
        } else {
            contents
        };
        let b = if start + ind < i {
            data.subrange(start + ind, i)
        } else {
            Seq::empty()
        };
        let c = if i < end {
            seq![0x0au8]
        } else {
            Seq::empty()
        };
        let line = a + b + c;
        assert forall|k: int| 0 <= k < line.len() implies !uses_syntax(bit, #[trigger] line[k]) by {
            if k < contents.len() {
                assert(line[k] == contents[k]);
            } else if k < a.len() {
                assert(line[k] == 0x0a);
            } else if k < a.len() + b.len() {
                assert(line[k] == data[start + ind + (k - a.len())]);
            } else {
                assert(line[k] == 0x0a);
            }
        }
        if spec_is_blank(data, start, i) {
            if i < end {
                lemma_note_lines_free(data, end, first, next, true, contents, bit);
            }
        } else if !(ind == 0 && !(start == first && data[start] == 0x09)) && i < end {
            lemma_note_lines_free(data, end, first, next, false, line, bit);
        }
    }
}

/// Whether the text and the footnote definitions that a first pass has
/// gathered hold no byte that the syntax of an extension needs.
pub open spec fn prepared_free(acc: Prepared, bit: u32) -> bool {
    &&& free_of(acc.text, bit)
    &&& forall|k: int| 0 <= k < acc.footnotes.len() ==> free_of(
        (#[trigger] acc.footnotes[k]).contents,
        bit,
    )
}

/// No footnote definition stands in text without `^`.
pub proof fn lemma_no_footnote(data: Seq<u8>, beg: int, end: int)
    requires
        free_of(data, extensions::FOOTNOTES),
        0 <= beg <= end <= data.len(),
    ensures
        spec_is_footnote(data, beg, end) is None,
{
    let i0 = spec_def_indent(data, beg, end);
    lemma_skipped(data, beg, beg + 4, Class::Is(0x20));
    if i0 >= 0 && i0 + 1 < end {
        assert(!uses_syntax(extensions::FOOTNOTES, data[i0 + 1]));
    }
}

/// The first pass is the same with one more extension, in a document that
/// does not use the syntax of the extension; and what it gathers holds
/// no byte that the syntax needs.
pub proof fn lemma_pass_lines_same(fe: bool, data: Seq<u8>, beg: int, acc: Prepared, bit: u32)
    requires
        is_extension_bit(bit),
        free_of(data, bit),
        prepared_free(acc, bit),
        0 <= beg,
    ensures
        prepared_free(pass_lines(fe, data, beg, acc), bit),
        bit == extensions::FOOTNOTES ==> pass_lines(true, data, beg, acc) == pass_lines(
            false,
            data,
            beg,
            acc,
        ),
    decreases data.len() - beg,
{
    let size = data.len() as int;
    if beg < size {
        if bit == extensions::FOOTNOTES {
            lemma_no_footnote(data, beg, size);
        }
        let note = if fe {
            spec_is_footnote(data, beg, size)
        } else {
            None
        };
        let link = spec_is_ref(data, beg, size);
        let e = skipped(data, beg, size, Class::NotEol);
        lemma_skipped(data, beg, size, Class::NotEol);
        let piece = data.subrange(beg, e);
        assert forall|k: int| 0 <= k < piece.len() implies !uses_syntax(bit, #[trigger] piece[k]) by {
            assert(piece[k] == data[beg + k]);
        }
        lemma_tabs_free(piece, 0, 0, bit);
        let expanded = tabs_expanded(piece, 0, 0);
        let line = if e > beg {
            acc.text + expanded
        } else {
            acc.text
        };
        assert forall|k: int| 0 <= k < line.len() implies !uses_syntax(bit, #[trigger] line[k]) by {
            if k < acc.text.len() {
                assert(line[k] == acc.text[k]);
            } else {
                assert(line[k] == expanded[k - acc.text.len()]);
            }
        }
        lemma_newlines_free(data, e, line, bit);
        let nl = newlines_copied(data, e, line);
        if note is Some {
            if !(note->0.last <= beg || note->0.last > size) {
                lemma_found_note_free(data, beg, size, bit);
                let next = Prepared { footnotes: acc.footnotes.push(note->0.def), ..acc };
                assert forall|k: int| 0 <= k < next.footnotes.len() implies free_of(
                    (#[trigger] next.footnotes[k]).contents,
                    bit,
                ) by {
                    if k < acc.footnotes.len() {
                        assert(next.footnotes[k] == acc.footnotes[k]);
                    }
                }
                lemma_pass_lines_same(fe, data, note->0.last, next, bit);
            }
        } else if link is Some {
            if !(link->0.last <= beg || link->0.last > size) {
                let next = Prepared { refs: acc.refs.push(link->0.def), ..acc };
                lemma_pass_lines_same(fe, data, link->0.last, next, bit);
                lemma_pass_lines_same(true, data, link->0.last, next, bit);
            }
        } else if !(nl.0 <= beg || nl.0 > size) {
            let next = Prepared { text: nl.1, ..acc };
            lemma_pass_lines_same(fe, data, nl.0, next, bit);
            lemma_pass_lines_same(true, data, nl.0, next, bit);
        }
    }
}

/// The text of the footnote definition at a position holds no byte that
/// the syntax of an extension needs where the document holds none.
pub proof fn lemma_found_note_free(data: Seq<u8>, beg: int, end: int, bit: u32)
    requires
        free_of(data, bit),
        0 <= beg <= end <= data.len(),
        spec_is_footnote(data, beg, end) is Some,
    ensures
        free_of(spec_is_footnote(data, beg, end)->0.def.contents, bit),
{
    let i0 = spec_def_indent(data, beg, end);
    lemma_skipped(data, beg, beg + 4, Class::Is(0x20));
    let id_offset = i0 + 2;
    let id_end = skipped(data, id_offset, end, Class::NoneOf(0x0a, 0x0d, 0x5d));
    let c = id_end + 1;
    if id_offset <= end {
        lemma_skipped(data, id_offset, end, Class::NoneOf(0x0a, 0x0d, 0x5d));
    }
    lemma_note_lines_free(data, end, c + 1, c + 1, false, Seq::empty(), bit);
}

/// The footnotes of a document are the same with one more extension,
/// where no footnote definition uses the syntax of the extension.
pub proof fn lemma_footnote_list_same(st: State, bit: u32, k: int, total: int, notes: Seq<FootnoteModel>)
    requires
        is_extension_bit(bit),
        forall|j: int| 0 <= j < st.footnotes.len() ==> free_of(
            (#[trigger] st.footnotes[j]).contents,
            bit,
        ),
    ensures
        footnote_list(more(st, bit), k, total, notes).1 == footnote_list(st, k, total, notes).1,
    decreases total - k,
{
    if !(k < 0 || k >= total || k >= st.used.len() || k >= 0x7fff_ffff) {
        let idx = st.used[k] as int;
        if idx < st.footnotes.len() {
            let contents = st.footnotes[idx].contents;
            let inner_st = st.enter_block().enter_span();
            assert(more(st, bit).enter_block().enter_span() == more(inner_st, bit));
            lemma_block_same(inner_st, bit, Seq::empty(), contents, 0, contents.len() as int);
            lemma_block_keeps(inner_st, Seq::empty(), contents, 0, contents.len() as int);
            let inner = spec_block(inner_st, Seq::empty(), contents, 0, contents.len() as int);
            let next = restored(inner.st, st);
            assert(next.footnotes == st.footnotes);
            assert(restored(more(inner.st, bit), more(st, bit)) == more(next, bit));
            lemma_footnote_list_same(
                next,
                bit,
                k + 1,
                total,
                notes.push(FootnoteModel { num: (k + 1) as u32, content: inner.out }),
            );
        } else {
            lemma_footnote_list_same(
                st,
                bit,
                k + 1,
                total,
                notes.push(FootnoteModel { num: (k + 1) as u32, content: Seq::empty() }),
            );
        }
    }
}

/// Enabling an extension changes nothing in the parse of a document that
/// does not use the syntax of the extension: of a document in which none
/// of the bytes stands that the syntax needs.
pub proof fn law_extension_without_its_syntax(
    ext: Extension,
    bit: u32,
    max_nesting: usize,
    input: Seq<u8>,
)
    requires
        is_extension_bit(bit),
        free_of(input, bit),
    ensures
        spec_document(and_bit(ext, bit), max_nesting, input) == spec_document(
            ext,
            max_nesting,
            input,
        ),
{
    reveal(spec_document);
    let more_ext = and_bit(ext, bit);
    lemma_other_bit(ext, bit, extensions::FOOTNOTES);
    let start = if input.len() >= 3 && input[0] == 0xef && input[1] == 0xbb && input[2] == 0xbf {
        3int
    } else {
        0int
    };
    let empty = Prepared { text: Seq::empty(), refs: Seq::empty(), footnotes: Seq::empty() };
    lemma_pass_lines_same(ext.on(extensions::FOOTNOTES), input, start, empty, bit);
    lemma_pass_lines_same(true, input, start, empty, bit);
    let pre = spec_first_pass(ext, input);
    assert(spec_first_pass(more_ext, input) == pre);
    let st = start_state(ext, max_nesting, pre);
    assert(start_state(more_ext, max_nesting, pre) == more(st, bit));
    let text = if pre.text.len() > 0 && !crate::refs::spec_is_eol(pre.text.last()) {
        pre.text.push(0x0a)
    } else {
        pre.text
    };
    assert forall|k: int| 0 <= k < text.len() implies !uses_syntax(bit, #[trigger] text[k]) by {
        if k < pre.text.len() {
            assert(text[k] == pre.text[k]);
        }
    }
    lemma_block_same(st, bit, Seq::empty(), text, 0, text.len() as int);
    lemma_block_keeps(st, Seq::empty(), text, 0, text.len() as int);
    let blocks = if pre.text.len() > 0 {
        spec_block(st, Seq::empty(), text, 0, text.len() as int)
    } else {
        Parsed { st, out: Seq::empty(), n: 0 }
    };
    assert(blocks.st.footnotes == pre.footnotes);
    lemma_footnote_list_same(
        blocks.st,
        bit,
        0,
        blocks.st.footnotes.len() as int,
        Seq::empty(),
    );
    let blocks_more = if pre.text.len() > 0 {
        spec_block(more(st, bit), Seq::empty(), text, 0, text.len() as int)
    } else {
        Parsed { st: more(st, bit), out: Seq::empty(), n: 0 }
    };
    assert(blocks_more.out == blocks.out);
    assert(blocks_more.st == more(blocks.st, bit));
    assert(prepared_free(pre, bit));
    if bit == extensions::FOOTNOTES && !ext.on(extensions::FOOTNOTES) {
        lemma_no_notes_found(input, start, empty);
        assert(pre.footnotes.len() == 0);
        assert(footnote_list(blocks_more.st, 0, 0, Seq::empty()).1 == Seq::<FootnoteModel>::empty());
    } else if bit == extensions::FOOTNOTES {
        let x = ext.bits;
        assert(x & 0x4 != 0 ==> (x | 0x4) & 0x4 != 0) by (bit_vector);
    }
}

/// A first pass without footnotes finds no footnote definition.
pub proof fn lemma_no_notes_found(data: Seq<u8>, beg: int, acc: Prepared)
    requires
        acc.footnotes.len() == 0,
    ensures
        pass_lines(false, data, beg, acc).footnotes.len() == 0,
    decreases data.len() - beg,
{
    let size = data.len() as int;
    if !(beg < 0 || beg >= size) {
        let link = spec_is_ref(data, beg, size);
        let e = skipped(data, beg, size, Class::NotEol);
        let line = if e > beg {
            acc.text + tabs_expanded(data.subrange(beg, e), 0, 0)
        } else {
            acc.text
        };
        let nl = newlines_copied(data, e, line);
        if link is Some {
            if !(link->0.last <= beg || link->0.last > size) {
                lemma_no_notes_found(
                    data,
                    link->0.last,
                    Prepared { refs: acc.refs.push(link->0.def), ..acc },
                );
            }
        } else if !(nl.0 <= beg || nl.0 > size) {
            lemma_no_notes_found(data, nl.0, Prepared { text: nl.1, ..acc });
        }
    }
}

/// Enabling an extension changes nothing in the parse of inline content
/// that does not use the syntax of the extension.
pub proof fn law_extension_without_its_syntax_inline(
    ext: Extension,
    bit: u32,
    max_nesting: usize,
    input: Seq<u8>,
)
    requires
        is_extension_bit(bit),
        free_of(input, bit),
    ensures
        spec_document_inline(and_bit(ext, bit), max_nesting, input) == spec_document_inline(
            ext,
            max_nesting,
            input,
        ),
{
    let text = inline_lines(input, 0, Seq::empty());
    lemma_inline_lines_free(input, 0, Seq::empty(), bit);
    let empty = Prepared { text: Seq::empty(), refs: Seq::empty(), footnotes: Seq::empty() };
    let st = start_state(ext, max_nesting, empty);
    assert(start_state(and_bit(ext, bit), max_nesting, empty) == more(st, bit));
    lemma_inline_same(st, bit, Seq::empty(), text, 0, text.len() as int);
}

/// The text that the first pass of an inline render gives holds no byte
/// that the syntax of an extension needs where the input holds none.
pub proof fn lemma_inline_lines_free(data: Seq<u8>, i: int, text: Seq<u8>, bit: u32)
    requires
        free_of(data, bit),
        free_of(text, bit),
        0 <= i,
    ensures
        free_of(inline_lines(data, i, text), bit),
    decreases data.len() - i,
{
    let size = data.len() as int;
    if !(i < 0 || i > size) {
        let e = skipped(data, i, size, Class::NotEol);
        lemma_skipped(data, i, size, Class::NotEol);
        let piece = data.subrange(i, e);
        assert forall|k: int| 0 <= k < piece.len() implies !uses_syntax(bit, #[trigger] piece[k]) by {
            assert(piece[k] == data[i + k]);
        }
        lemma_tabs_free(piece, 0, 0, bit);
        let expanded = tabs_expanded(piece, 0, 0);
        let line = text + expanded;
        assert forall|k: int| 0 <= k < line.len() implies !uses_syntax(bit, #[trigger] line[k]) by {
            if k < text.len() {
                assert(line[k] == text[k]);
            } else {
                assert(line[k] == expanded[k - text.len()]);
            }
        }
        lemma_newlines_free(data, e, line, bit);
        let nl = newlines_copied(data, e, line);
        if !(e >= size || nl.0 <= i || nl.0 > size) {
            lemma_inline_lines_free(data, nl.0, nl.1, bit);
        }
    }
}

/// Enabling an extension changes nothing in the HTML of a document that
/// does not use the syntax of the extension, rendered as a document or as
/// inline content.
pub proof fn law_extension_without_its_syntax_renders_the_same(
    h: HtmlState,
    ob: Seq<u8>,
    ext: Extension,
    bit: u32,
    max_nesting: usize,
    input: Seq<u8>,
)
    requires
        is_extension_bit(bit),
        free_of(input, bit),
    ensures
        html_document(h, ob, spec_document(and_bit(ext, bit), max_nesting, input))
            == html_document(h, ob, spec_document(ext, max_nesting, input)),
        html_inline(h, ob, spec_document_inline(and_bit(ext, bit), max_nesting, input))
            == html_inline(h, ob, spec_document_inline(ext, max_nesting, input)),
{
    law_extension_without_its_syntax(ext, bit, max_nesting, input);
    law_extension_without_its_syntax_inline(ext, bit, max_nesting, input);
}

} // verus!
