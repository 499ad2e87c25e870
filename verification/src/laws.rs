//! What holds of the rendering of plain text.

use vstd::prelude::*;
use vstd::string::StringSliceAdditionalSpecFns;
use crate::chars::{
    is_alnum, lemma_skipped, lemma_skipped_is, member, skipped, skipped_back, starts_with_at,
    Class,
};
use crate::document::{
    inline_lines, newlines_copied, pass_lines, spec_document, spec_document_inline,
    spec_first_pass, start_state, Prepared,
};
use crate::autolink::count_of;
use crate::block::{
    block_loop, content_of, one_block, para_scan, spec_block, spec_fencedcode, spec_paragraph,
    spec_table, spec_table_header, text_block, ParaEnd, Parsed,
};
use crate::escape::{html_escape_byte, html_escaped, law_html_escape_distributes};
use crate::lines::{
    spec_indent3, spec_is_atxheader, spec_is_blank, spec_is_codefence, spec_is_headerline,
    spec_is_hrule, spec_line_end, spec_next_line, spec_parse_codefence, spec_prefix_code,
    spec_prefix_oli, spec_prefix_quote, spec_prefix_uli,
};
use crate::tree::{BlockModel, TreeModel};
use crate::extensions::Extension;
use crate::inline::{
    inline_loop, lemma_next_active, next_active, spec_action, spec_autolink_www, spec_dispatch,
    spec_inline, Action, Scan, Taken,
};
use crate::parser::State;
use crate::renderer::html::HtmlState;
use crate::document::footnote_list;
use crate::renderer::html::opened;
use crate::renderer::htmldoc::{
    html_block, html_blocks, html_document, html_inline, html_span, html_spans,
};
use crate::tree::SpanModel;
use crate::refs::{spec_is_footnote, spec_is_ref, spec_ref_head, tabs_expanded};

verus! {

/// Plain text: bytes of plain text, not empty, and with no space at its
/// start.
pub open spec fn is_plain(t: Seq<u8>) -> bool {
    &&& t.len() > 0
    &&& t[0] != 0x20
    &&& forall|k: int| 0 <= k < t.len() ==> plain_byte(#[trigger] t[k])
}

/// A byte of plain text: a letter, a digit, a space, one of the
/// punctuation marks `,` `;` `?` `%` `/` `(` `)` `{` `}` `]`, or an
/// apostrophe.  No markdown construct starts with one of them.  HTML text
/// holds them as they are, but for the apostrophe, which it holds escaped.
pub open spec fn plain_byte(c: u8) -> bool {
    is_alnum(c) || c == 0x20 || c == 0x27 || c == 0x2c || c == 0x3b || c == 0x3f || c == 0x25 || c
        == 0x28 || c == 0x29 || c == 0x7b || c == 0x7d || c == 0x5d || c == 0x2f
}

/// The bytes of `"&#39;"`.
pub proof fn lemma_apostrophe_bytes()
    ensures
        "&#39;".spec_bytes() == seq![0x26u8, 0x23u8, 0x33u8, 0x39u8, 0x3bu8],
{
    reveal_strlit("&#39;");
    let s = "&#39;";
    assert(vstd::string::is_ascii(s)) by {
        reveal_strlit("&#39;");
        assert forall|i: int| 0 <= i < s@.len() implies '\0' <= #[trigger] s@[i] <= '\u{7f}' by {
            assert(s@ =~= seq!['&', '#', '3', '9', ';']);
        }
    }
    vstd::string::is_ascii_spec_bytes(s);
    assert(s.spec_bytes() =~= seq![0x26u8, 0x23u8, 0x33u8, 0x39u8, 0x3bu8]);
}

/// Plain text with its HTML escapes holds no line feed, and starts with
/// the first byte of the text, or with `&` where that is an apostrophe.
pub proof fn lemma_escaped_plain(t: Seq<u8>)
    requires
        forall|k: int| 0 <= k < t.len() ==> plain_byte(#[trigger] t[k]),
    ensures
        html_escaped(t).len() >= t.len(),
        forall|k: int| 0 <= k < html_escaped(t).len() ==> #[trigger] html_escaped(t)[k] != 0x0a,
        t.len() > 0 ==> html_escaped(t)[0] == (if t[0] == 0x27 {
            0x26u8
        } else {
            t[0]
        }),
        (forall|k: int| 0 <= k < t.len() ==> #[trigger] t[k] != 0x27) ==> html_escaped(t) == t,
    decreases t.len(),
{
    lemma_apostrophe_bytes();
    if t.len() > 0 {
        let head = t.drop_last();
        lemma_escaped_plain(head);
        assert(plain_byte(t.last()));
        let piece = html_escape_byte(t.last());
        assert forall|k: int| 0 <= k < html_escaped(t).len() implies #[trigger] html_escaped(t)[k]
            != 0x0a by {
            if k >= html_escaped(head).len() {
                assert(html_escaped(t)[k] == piece[k - html_escaped(head).len()]);
            }
        }
        if head.len() > 0 {
            assert(head[0] == t[0]);
            assert(html_escaped(t)[0] == html_escaped(head)[0]);
        } else {
            assert(html_escaped(head).len() == 0);
            assert(html_escaped(t)[0] == piece[0]);
        }
        if forall|k: int| 0 <= k < t.len() ==> #[trigger] t[k] != 0x27 {
            assert forall|k: int| 0 <= k < head.len() implies #[trigger] head[k] != 0x27 by {
                assert(head[k] == t[k]);
            }
            assert(html_escaped(head) + seq![t.last()] =~= t);
        }
    } else {
        assert(t =~= Seq::<u8>::empty());
    }
}

/// The bytes of `"www."`.
pub proof fn lemma_www_bytes()
    ensures
        "www.".spec_bytes() == seq![0x77u8, 0x77u8, 0x77u8, 0x2eu8],
{
    reveal_strlit("www.");
    let s = "www.";
    assert(vstd::string::is_ascii(s)) by {
        reveal_strlit("www.");
        assert forall|i: int| 0 <= i < s@.len() implies '\0' <= #[trigger] s@[i] <= '\u{7f}' by {
            assert(s@ =~= seq!['w', 'w', 'w', '.']);
        }
    }
    vstd::string::is_ascii_spec_bytes(s);
    assert(s.spec_bytes() =~= seq![0x77u8, 0x77u8, 0x77u8, 0x2eu8]);
}

/// Where every byte from `i` up to `end` is of a class, the scan over the
/// class stops at `end`.
pub proof fn lemma_skipped_all(data: Seq<u8>, i: int, end: int, k: Class)
    requires
        i <= end,
        forall|j: int| i <= j < end ==> member(k, #[trigger] data[j]),
    ensures
        skipped(data, i, end, k) == end,
{
    lemma_skipped_is(data, i, end, k, end);
}

/// Where the byte at `i` is not of a class, the scan over the class stops
/// at `i`.
pub proof fn lemma_skipped_none(data: Seq<u8>, i: int, end: int, k: Class)
    requires
        i < end ==> !member(k, data[i]),
    ensures
        skipped(data, i, end, k) == i,
{
}

/// Text without tabs is what it is expanded to.
pub proof fn lemma_tabs_identity(line: Seq<u8>, i: int, tab: int)
    requires
        0 <= i <= line.len(),
        forall|j: int| i <= j < line.len() ==> #[trigger] line[j] != 0x09,
    ensures
        tabs_expanded(line, i, tab) == line.subrange(i, line.len() as int),
    decreases line.len() - i,
{
    if i < line.len() {
        lemma_tabs_identity(line, i + 1, if line[i] & 0xc0 != 0x80 {
            (tab + 1) % 4
        } else {
            tab
        });
        assert(seq![line[i]] + line.subrange(i + 1, line.len() as int) =~= line.subrange(
            i,
            line.len() as int,
        ));
    } else {
        assert(line.subrange(i, line.len() as int) =~= Seq::<u8>::empty());
    }
}

/// The first pass over plain text gives the text, and no definition.
pub proof fn lemma_first_pass_plain(ext: Extension, t: Seq<u8>)
    requires
        is_plain(t),
    ensures
        spec_first_pass(ext, t) == (Prepared {
            text: t,
            refs: Seq::empty(),
            footnotes: Seq::empty(),
        }),
{
    let size = t.len() as int;
    let acc = Prepared { text: Seq::<u8>::empty(), refs: Seq::empty(), footnotes: Seq::empty() };
    let fe = ext.on(crate::extensions::FOOTNOTES);
    assert(plain_byte(t[0]) && t[0] != 0x20);
    lemma_skipped_none(t, 0, 4, Class::Is(0x20));
    assert(spec_is_footnote(t, 0, size) is None);
    assert(!spec_ref_head(t, 0, size).ok);
    assert(spec_is_ref(t, 0, size) is None);
    assert forall|j: int| 0 <= j < size implies member(Class::NotEol, #[trigger] t[j]) by {
        assert(plain_byte(t[j]));
    }
    lemma_skipped_all(t, 0, size, Class::NotEol);
    assert(t.subrange(0, size) =~= t);
    assert forall|j: int| 0 <= j < t.len() implies #[trigger] t[j] != 0x09 by {
        assert(plain_byte(t[j]));
    }
    lemma_tabs_identity(t, 0, 0);
    let line = acc.text + tabs_expanded(t.subrange(0, size), 0, 0);
    assert(line =~= t);
    assert(newlines_copied(t, size, line) == (size, line));
    let done = Prepared { text: line, ..acc };
    assert(pass_lines(fe, t, size, done) == done);
    assert(pass_lines(fe, t, 0, acc) == done);
}


/// A byte of plain text triggers nothing, but a `w` where addresses
/// become links.
pub proof fn lemma_plain_action(ext: Extension, c: u8)
    requires
        plain_byte(c),
    ensures
        spec_action(ext, c) == Action::Nothing || (spec_action(ext, c) == Action::AutolinkWww && c
            == 0x77),
{
}

/// What the HTML renderer makes of spans and one more span.
pub proof fn lemma_html_spans_push(h: HtmlState, ob: Seq<u8>, v: Seq<SpanModel>, s: SpanModel)
    ensures
        html_spans(h, ob, v.push(s)) == html_span(h, html_spans(h, ob, v), s),
{
    assert(v.push(s).drop_last() =~= v);
}

/// No `www.` link starts within plain text.
pub proof fn lemma_no_www(st: State, out: Seq<SpanModel>, data: Seq<u8>, pos: int, end: int, offset: int)
    requires
        0 <= pos < end <= data.len(),
        forall|k: int| pos <= k < end ==> plain_byte(#[trigger] data[k]),
    ensures
        spec_autolink_www(st, out, data, pos, end, offset) == (Taken { out, n: 0 }),
{
    reveal(spec_autolink_www);
    lemma_www_bytes();
    if end - pos >= 4 && starts_with_at(data, pos, "www.".spec_bytes()) {
        assert(data.subrange(pos, pos + 4)[3] == 0x2eu8);
        assert(plain_byte(data[pos + 3]));
    }
}

/// The scan of plain text leaves the state as it was, and gives spans of
/// which the HTML renderer makes the text with its HTML escapes.
pub proof fn lemma_inline_loop_plain(
    st: State,
    out: Seq<SpanModel>,
    data: Seq<u8>,
    beg: int,
    end: int,
    i: int,
    e: int,
    consumed: int,
    h: HtmlState,
    ob: Seq<u8>,
)
    requires
        0 <= beg <= consumed <= i <= e <= end <= data.len(),
        i < end,
        forall|k: int| beg <= k < end ==> plain_byte(#[trigger] data[k]),
    ensures
        inline_loop(st, out, data, beg, end, i, e, consumed).st == st,
        html_spans(h, ob, inline_loop(st, out, data, beg, end, i, e, consumed).out) == html_spans(
            h,
            ob,
            out,
        ) + html_escaped(data.subrange(i, end)),
    decreases end - e,
{
    let a = next_active(st.ext, data, e, end);
    lemma_next_active(st.ext, data, e, end);
    let text = data.subrange(i, a);
    let out2 = out.push(SpanModel::Text { text });
    lemma_html_spans_push(h, ob, out, SpanModel::Text { text });
    assert(html_spans(h, ob, out2) == html_spans(h, ob, out) + html_escaped(text));
    if a >= end {
        assert(text =~= data.subrange(i, end));
    } else {
        assert(plain_byte(data[a]));
        lemma_plain_action(st.ext, data[a]);
        assert(spec_action(st.ext, data[a]) != Action::Nothing) by {
            lemma_active_at(st.ext, data, e, end);
        }
        lemma_no_www(st, out2, data, a, end, a - consumed);
        let r = spec_dispatch(st, out2, data, a, end, a - consumed);
        assert(r == (Scan { st, out: out2, n: 0 }));
        lemma_inline_loop_plain(st, out2, data, beg, end, a, a + 1, consumed, h, ob);
        law_html_escape_distributes(text, data.subrange(a, end));
        assert(text + data.subrange(a, end) =~= data.subrange(i, end));
        assert(html_spans(h, ob, out) + html_escaped(text) + html_escaped(data.subrange(a, end))
            =~= html_spans(h, ob, out) + (html_escaped(text) + html_escaped(
            data.subrange(a, end),
        )));
    }
}

/// Where the scan for the next trigger byte stops before the end, a
/// trigger byte stands.
pub proof fn lemma_active_at(ext: Extension, data: Seq<u8>, e: int, end: int)
    requires
        e <= end,
        next_active(ext, data, e, end) < end,
    ensures
        spec_action(ext, data[next_active(ext, data, e, end)]) != Action::Nothing,
    decreases end - e,
{
    if e < end && spec_action(ext, data[e]) == Action::Nothing {
        lemma_active_at(ext, data, e + 1, end);
    }
}

/// Plain text, scanned as inline content where the nesting is within the
/// limit, leaves the state as it was and gives spans of which the HTML
/// renderer makes the text with its HTML escapes.
pub proof fn lemma_inline_plain(st: State, data: Seq<u8>, beg: int, end: int, h: HtmlState, ob: Seq<u8>)
    requires
        0 <= beg < end <= data.len(),
        !st.too_deep(),
        forall|k: int| beg <= k < end ==> plain_byte(#[trigger] data[k]),
    ensures
        spec_inline(st, Seq::empty(), data, beg, end).st == st,
        html_spans(h, ob, spec_inline(st, Seq::empty(), data, beg, end).out) == ob + html_escaped(
            data.subrange(beg, end),
        ),
{
    lemma_inline_loop_plain(st, Seq::empty(), data, beg, end, beg, beg, beg, h, ob);
}


/// Plain text with a line feed after it.
pub open spec fn plain_line(data: Seq<u8>) -> bool {
    &&& data.len() >= 2
    &&& data.last() == 0x0a
    &&& is_plain(data.drop_last())
}

/// A byte does not stand where it does not stand.
pub proof fn lemma_count_none(data: Seq<u8>, from: int, to: int, c: u8)
    requires
        0 <= from <= to <= data.len(),
        forall|k: int| from <= k < to ==> #[trigger] data[k] != c,
    ensures
        count_of(data, from, to, c) == 0,
    decreases to - from,
{
    if to > from {
        lemma_count_none(data, from, to - 1, c);
    }
}

/// What the scanners find at the start of a line of plain text.
pub proof fn lemma_plain_line_scans(data: Seq<u8>)
    requires
        plain_line(data),
    ensures
        spec_line_end(data, 0, data.len() as int) == data.len() - 1,
        spec_next_line(data, 0, data.len() as int) == data.len(),
        spec_indent3(data, 0, data.len() as int) == 0,
        spec_indent3(data, 0, data.len() - 1) == 0,
        !spec_is_blank(data, 0, data.len() as int),
        skipped_back(data, 0, data.len() as int, Class::Is(0x0a)) == data.len() - 1,
        forall|k: int| 0 <= k < data.len() - 1 ==> plain_byte(#[trigger] data[k]),
        plain_byte(data[0]) && data[0] != 0x20,
{
    let size = data.len() as int;
    let n = size - 1;
    let t = data.drop_last();
    assert forall|k: int| 0 <= k < n implies plain_byte(#[trigger] data[k]) by {
        assert(data[k] == t[k]);
        assert(plain_byte(t[k]));
    }
    assert(data[0] == t[0]);
    assert(plain_byte(data[0]));
    assert forall|j: int| 0 <= j < n implies member(Class::Not(0x0a), #[trigger] data[j]) by {
        assert(plain_byte(data[j]));
    }
    lemma_skipped_is(data, 0, size, Class::Not(0x0a), n);
    lemma_skipped_none(data, 0, size, Class::Is(0x20));
    lemma_skipped_none(data, 0, n, Class::Is(0x20));
    assert(plain_byte(data[n - 1]));
    assert(skipped_back(data, 0, n, Class::Is(0x0a)) == n);
    assert(skipped_back(data, 0, size, Class::Is(0x0a)) == n);
}

/// A line of plain text starts no block but a paragraph.
pub proof fn lemma_plain_line_is_text(st: State, out: Seq<BlockModel>, data: Seq<u8>)
    requires
        plain_line(data),
    ensures
        one_block(st, out, data, 0, data.len() as int) == spec_paragraph(
            st,
            out,
            data,
            0,
            data.len() as int,
        ),
{
    let size = data.len() as int;
    let n = size - 1;
    lemma_plain_line_scans(data);
    assert(!spec_is_atxheader(st.ext.on(crate::extensions::SPACE_HEADERS), data, 0, size));
    assert(!spec_is_hrule(data, 0, size));
    assert(spec_fencedcode(out, data, 0, size) == (out, 0int)) by {
        reveal(spec_fencedcode);
        assert(spec_is_codefence(data, 0, n).len == 0);
        assert(spec_parse_codefence(data, 0, n).fence.len == 0);
    }
    assert(spec_table(st, out, data, 0, size) == (Parsed { st, out, n: 0 })) by {
        reveal(spec_table);
        assert forall|k: int| 0 <= k < n implies #[trigger] data[k] != 0x7c by {
            assert(plain_byte(data[k]));
        }
        lemma_count_none(data, 0, n, 0x7c);
        assert(spec_table_header(data, 0, size).len == 0);
    }
    assert(spec_prefix_quote(data, 0, size) == 0);
    assert(spec_prefix_code(data, 0, size) == 0);
    assert(spec_prefix_uli(data, 0, size) == 0);
    assert(spec_prefix_oli(data, 0, size) == 0) by {
        let j = skipped(data, 0, size, Class::Digit);
        lemma_skipped(data, 0, size, Class::Digit);
        if j < size {
            if j < n {
                assert(plain_byte(data[j]));
            }
        }
    }
    assert(text_block(st, out, data, 0, size) == spec_paragraph(st, out, data, 0, size));
}

/// A line of plain text is a paragraph of its text.
pub proof fn lemma_plain_paragraph(st: State, out: Seq<BlockModel>, data: Seq<u8>)
    requires
        plain_line(data),
    ensures
        spec_paragraph(st, out, data, 0, data.len() as int) == (Parsed {
            st: content_of(st, data, 0, data.len() - 1, true).st,
            out: out.push(
                BlockModel::Paragraph {
                    content: content_of(st, data, 0, data.len() - 1, true).spans,
                },
            ),
            n: data.len() as int,
        }),
{
    reveal(spec_paragraph);
    let size = data.len() as int;
    let sh = st.ext.on(crate::extensions::SPACE_HEADERS);
    lemma_plain_line_scans(data);
    assert(spec_is_headerline(data, 0, size) == 0);
    assert(!spec_is_atxheader(sh, data, 0, size));
    assert(!spec_is_hrule(data, 0, size));
    assert(spec_prefix_quote(data, 0, size) == 0);
    assert(para_scan(sh, data, 0, size, size) == (ParaEnd { i: size, e: size, level: 0 }));
    assert(para_scan(sh, data, 0, size, 0) == para_scan(sh, data, 0, size, size));
    let pe = para_scan(sh, data, 0, size, 0);
    assert(pe.i == size && pe.e == size && pe.level == 0);
    let work = skipped_back(data, 0, 0 + pe.i, Class::Is(0x0a));
    assert(work == size - 1);
    let para = content_of(st, data, 0, work, true);
    assert(spec_paragraph(st, out, data, 0, size) == (Parsed {
        st: para.st,
        out: out.push(BlockModel::Paragraph { content: para.spans }),
        n: pe.e,
    }));
}

/// The blocks of a line of plain text: one paragraph, of whose content
/// the HTML renderer makes the text.
pub proof fn lemma_plain_blocks(st: State, data: Seq<u8>, h: HtmlState, ob: Seq<u8>)
    requires
        plain_line(data),
        st.span_depth == 0,
        st.block_depth == 0,
        st.max_nesting >= 1,
    ensures
        spec_block(st, Seq::empty(), data, 0, data.len() as int).st == st,
        spec_block(st, Seq::empty(), data, 0, data.len() as int).out.len() == 1,
        spec_block(st, Seq::empty(), data, 0, data.len() as int).out[0] is Paragraph,
        html_spans(
            h,
            ob,
            spec_block(st, Seq::empty(), data, 0, data.len() as int).out[0]->Paragraph_content,
        ) == ob + html_escaped(data.drop_last()),
{
    let size = data.len() as int;
    let out = Seq::<BlockModel>::empty();
    lemma_plain_line_scans(data);
    lemma_plain_line_is_text(st, out, data);
    lemma_plain_paragraph(st, out, data);
    lemma_inline_plain(st.enter_block(), data, 0, size - 1, h, ob);
    let c = content_of(st, data, 0, size - 1, true);
    assert(c.st == st);
    assert(data.subrange(0, size - 1) =~= data.drop_last());
    let r = one_block(st, out, data, 0, size);
    assert(r.n == size);
    assert(block_loop(r.st, r.out, data, 0, size, size) == (Parsed { st: r.st, out: r.out, n: 0 }));
    assert(block_loop(st, out, data, 0, size, 0) == block_loop(r.st, r.out, data, 0, size, size));
    assert(r.out =~= seq![BlockModel::Paragraph { content: c.spans }]);
}


/// What the HTML renderer makes of a paragraph whose content is plain
/// text with its HTML escapes.
pub proof fn lemma_html_plain_paragraph(h: HtmlState, t: Seq<u8>)
    requires
        is_plain(t),
        !h.toc,
    ensures
        h.paragraph(Seq::empty(), html_escaped(t)) == "<p>".spec_bytes() + html_escaped(t)
            + "</p>\n".spec_bytes(),
{
    let c = html_escaped(t);
    let n = c.len() as int;
    lemma_escaped_plain(t);
    assert(plain_byte(t[0]));
    lemma_skipped_none(c, 0, n, Class::White);
    assert forall|j: int| 0 <= j < n implies member(Class::Not(0x0a), #[trigger] c[j]) by {
        assert(c[j] != 0x0a);
    }
    lemma_skipped_all(c, 0, n, Class::Not(0x0a));
    assert(c.subrange(0, n) =~= c);
    assert(h.hard_wrapped(c, 0) == c);
    assert(opened(Seq::<u8>::empty()) + "<p>".spec_bytes() + c + "</p>\n".spec_bytes()
        =~= "<p>".spec_bytes() + c + "</p>\n".spec_bytes());
}

/// A document of plain text is one paragraph and no footnote; the HTML
/// renderer makes the text of the content of the paragraph.
pub proof fn lemma_plain_document(ext: Extension, max_nesting: usize, t: Seq<u8>, h: HtmlState)
    requires
        is_plain(t),
        max_nesting >= 1,
    ensures
        spec_document(ext, max_nesting, t).blocks.len() == 1,
        spec_document(ext, max_nesting, t).blocks[0] is Paragraph,
        html_spans(
            h,
            Seq::empty(),
            spec_document(ext, max_nesting, t).blocks[0]->Paragraph_content,
        ) == html_escaped(t),
        spec_document(ext, max_nesting, t).footnotes.len() == 0,
{
    reveal(spec_document);
    lemma_first_pass_plain(ext, t);
    let pre = spec_first_pass(ext, t);
    let st = start_state(ext, max_nesting, pre);
    let data = t.push(0x0a);
    assert(plain_byte(t.last()));
    assert(data.drop_last() =~= t);
    assert(plain_line(data));
    lemma_plain_blocks(st, data, h, Seq::empty());
    assert(Seq::<u8>::empty() + html_escaped(t) =~= html_escaped(t));
    let blocks = spec_block(st, Seq::empty(), data, 0, data.len() as int);
    assert(footnote_list(blocks.st, 0, blocks.st.footnotes.len() as int, Seq::empty()).1
        =~= Seq::empty());
}

/// What the HTML renderer makes of a document that is one paragraph.
pub proof fn lemma_html_one_paragraph(h: HtmlState, tree: TreeModel)
    requires
        !h.toc,
        tree.blocks.len() == 1,
        tree.blocks[0] is Paragraph,
        tree.footnotes.len() == 0,
    ensures
        html_document(h, Seq::empty(), tree) == (
            h,
            h.paragraph(
                Seq::empty(),
                html_spans(h, Seq::empty(), tree.blocks[0]->Paragraph_content),
            ),
        ),
{
    let p = tree.blocks[0];
    assert(tree.blocks.drop_last() =~= Seq::<BlockModel>::empty());
    assert(html_blocks(h, Seq::empty(), tree.blocks.drop_last()) == (h, Seq::<u8>::empty()));
    assert(html_blocks(h, Seq::empty(), tree.blocks) == html_block(h, Seq::empty(), p));
}

/// Whether no byte of `t` is an apostrophe.
pub open spec fn no_apostrophe(t: Seq<u8>) -> bool {
    forall|k: int| 0 <= k < t.len() ==> #[trigger] t[k] != 0x27
}

/// Rendering plain text gives the text between `<p>` and `</p>` and a
/// line feed, whatever extensions are enabled and whatever flags the HTML
/// renderer has, where it renders documents and the nesting limit is not
/// zero.  The text goes out as it is but for its apostrophes, which go out
/// as `&#39;`: nothing is replaced by typography.  The renderer is left as
/// it was.
pub proof fn law_plain_text_is_a_paragraph(h: HtmlState, ext: Extension, max_nesting: usize, t: Seq<u8>)
    requires
        is_plain(t),
        !h.toc,
        max_nesting >= 1,
    ensures
        html_document(h, Seq::empty(), spec_document(ext, max_nesting, t)) == (
            h,
            "<p>".spec_bytes() + html_escaped(t) + "</p>\n".spec_bytes(),
        ),
        no_apostrophe(t) ==> html_document(h, Seq::empty(), spec_document(ext, max_nesting, t))
            == (h, "<p>".spec_bytes() + t + "</p>\n".spec_bytes()),
{
    lemma_plain_document(ext, max_nesting, t, h);
    lemma_html_plain_paragraph(h, t);
    lemma_html_one_paragraph(h, spec_document(ext, max_nesting, t));
    lemma_escaped_plain(t);
}

/// Rendering plain text as inline content gives the text, with nothing
/// before or after it: as it is but for its apostrophes, which go out as
/// `&#39;`.  The renderer is left as it was.
pub proof fn law_plain_text_inline(h: HtmlState, ext: Extension, max_nesting: usize, t: Seq<u8>)
    requires
        is_plain(t),
        !h.toc,
    ensures
        html_inline(h, Seq::empty(), spec_document_inline(ext, max_nesting, t)) == (
            h,
            html_escaped(t),
        ),
        no_apostrophe(t) ==> html_inline(h, Seq::empty(), spec_document_inline(ext, max_nesting, t))
            == (h, t),
{
    let n = t.len() as int;
    assert forall|j: int| 0 <= j < n implies member(Class::NotEol, #[trigger] t[j]) by {
        assert(plain_byte(t[j]));
    }
    lemma_skipped_all(t, 0, n, Class::NotEol);
    assert(t.subrange(0, n) =~= t);
    assert forall|j: int| 0 <= j < t.len() implies #[trigger] t[j] != 0x09 by {
        assert(plain_byte(t[j]));
    }
    lemma_tabs_identity(t, 0, 0);
    assert(Seq::<u8>::empty() + t =~= t);
    assert(inline_lines(t, 0, Seq::empty()) == t);
    let st = start_state(
        ext,
        max_nesting,
        Prepared { text: Seq::empty(), refs: Seq::empty(), footnotes: Seq::empty() },
    );
    lemma_inline_plain(st, t, 0, n, h, Seq::empty());
    assert(Seq::<u8>::empty() + html_escaped(t) =~= html_escaped(t));
    lemma_escaped_plain(t);
}

/// A render of plain text wraps what an inline render of it gives in a
/// paragraph: the inline render gives no wrapper, the full render gives
/// `<p>`, what the inline render gives, `</p>` and a line feed.
pub proof fn law_render_wraps_inline(h: HtmlState, ext: Extension, max_nesting: usize, t: Seq<u8>)
    requires
        is_plain(t),
        !h.toc,
        max_nesting >= 1,
    ensures
        html_document(h, Seq::empty(), spec_document(ext, max_nesting, t)).1 == "<p>".spec_bytes()
            + html_inline(h, Seq::empty(), spec_document_inline(ext, max_nesting, t)).1
            + "</p>\n".spec_bytes(),
{
    law_plain_text_is_a_paragraph(h, ext, max_nesting, t);
    law_plain_text_inline(h, ext, max_nesting, t);
}

/// The rendering of plain text does not depend on the extensions that are
/// enabled.
pub proof fn law_extensions_leave_plain_text(
    h: HtmlState,
    ext: Extension,
    other: Extension,
    max_nesting: usize,
    t: Seq<u8>,
)
    requires
        is_plain(t),
        !h.toc,
        max_nesting >= 1,
    ensures
        html_document(h, Seq::empty(), spec_document(ext, max_nesting, t)) == html_document(
            h,
            Seq::empty(),
            spec_document(other, max_nesting, t),
        ),
{
    law_plain_text_is_a_paragraph(h, ext, max_nesting, t);
    law_plain_text_is_a_paragraph(h, other, max_nesting, t);
}

} // verus!
