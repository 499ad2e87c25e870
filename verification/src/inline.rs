//! The inline scanner: emphasis, code spans, links, images, autolinks, line
//! breaks, raw HTML tags, entities, math and footnote references.
//!
//! Each recogniser is called where its trigger byte stands at `pos`, may look
//! back over `offset` bytes, and returns how many bytes from `pos` on it has
//! taken: zero where the byte is plain text after all.

use vstd::prelude::*;
use vstd::string::StringSliceAdditionalSpecFns;
use crate::autolink::{
    autolink_email, autolink_url, autolink_www, spec_email, spec_url, spec_www,
};
use crate::chars::{
    alnum, copy_range, is_alnum, is_punct, is_spacing, lemma_skipped, punct, skip, skip_back,
    skipped, skipped_back, spacing, starts_with_at, Class,
};
use crate::extensions;
use crate::parser::{Parser, State};
use crate::renderer::AutoLink;
use crate::scan::{
    all_spacing, find_emph_char, is_empty_all, is_escaped, replace_spacing, respaced,
    spec_find_emph, spec_is_escaped, spec_tag_length, tag_length, tick_close, unescaped,
    unscape_text,
};
use crate::tree::{span_model, spans_model, Span, SpanKind, SpanModel};

verus! {

/// What the scanner does at a byte.
#[derive(Clone, Copy, Debug, PartialEq, Eq, Structural)]
pub enum Action {
    Nothing,
    Emphasis,
    CodeSpan,
    LineBreak,
    Link,
    Image,
    Langle,
    Escape,
    Entity,
    AutolinkUrl,
    AutolinkEmail,
    AutolinkWww,
    Superscript,
    Quote,
    Math,
}

/// What the scanner does at byte `c` when the extensions `ext` are enabled.
pub open spec fn spec_action(ext: crate::extensions::Extension, c: u8) -> Action {
    if c == 0x2a || c == 0x5f {
        Action::Emphasis
    } else if c == 0x7e && ext.on(extensions::STRIKETHROUGH) {
        Action::Emphasis
    } else if c == 0x3d && ext.on(extensions::HIGHLIGHT) {
        Action::Emphasis
    } else if c == 0x60 {
        Action::CodeSpan
    } else if c == 0x0a {
        Action::LineBreak
    } else if c == 0x5b {
        Action::Link
    } else if c == 0x21 {
        Action::Image
    } else if c == 0x3c {
        Action::Langle
    } else if c == 0x5c {
        Action::Escape
    } else if c == 0x26 {
        Action::Entity
    } else if c == 0x3a && ext.on(extensions::AUTOLINK) {
        Action::AutolinkUrl
    } else if c == 0x40 && ext.on(extensions::AUTOLINK) {
        Action::AutolinkEmail
    } else if c == 0x77 && ext.on(extensions::AUTOLINK) {
        Action::AutolinkWww
    } else if c == 0x5e && ext.on(extensions::SUPERSCRIPT) {
        Action::Superscript
    } else if c == 0x22 && ext.on(extensions::QUOTE) {
        Action::Quote
    } else if c == 0x24 && ext.on(extensions::MATH) {
        Action::Math
    } else {
        Action::Nothing
    }
}

/// What the scanner does at byte `c`.
pub fn action(p: &Parser, c: u8) -> (a: Action)
    ensures
        a == spec_action(p@.ext, c),
{
    if c == 0x2a || c == 0x5f {
        Action::Emphasis
    } else if c == 0x7e && p.on(extensions::STRIKETHROUGH) {
        Action::Emphasis
    } else if c == 0x3d && p.on(extensions::HIGHLIGHT) {
        Action::Emphasis
    } else if c == 0x60 {
        Action::CodeSpan
    } else if c == 0x0a {
        Action::LineBreak
    } else if c == 0x5b {
        Action::Link
    } else if c == 0x21 {
        Action::Image
    } else if c == 0x3c {
        Action::Langle
    } else if c == 0x5c {
        Action::Escape
    } else if c == 0x26 {
        Action::Entity
    } else if c == 0x3a && p.on(extensions::AUTOLINK) {
        Action::AutolinkUrl
    } else if c == 0x40 && p.on(extensions::AUTOLINK) {
        Action::AutolinkEmail
    } else if c == 0x77 && p.on(extensions::AUTOLINK) {
        Action::AutolinkWww
    } else if c == 0x5e && p.on(extensions::SUPERSCRIPT) {
        Action::Superscript
    } else if c == 0x22 && p.on(extensions::QUOTE) {
        Action::Quote
    } else if c == 0x24 && p.on(extensions::MATH) {
        Action::Math
    } else {
        Action::Nothing
    }
}

/// The model of a sequence with one more span is the model of the
/// sequence with the model of the span.
pub proof fn lemma_spans_push(v: Seq<Span>, s: Span)
    ensures
        spans_model(v.push(s)) == spans_model(v).push(span_model(s)),
{
    assert(v.push(s).drop_last() =~= v);
}

/// Appends a span to `out`.
pub fn push_span(out: &mut Vec<Span>, s: Span)
    ensures
        final(out)@ == old(out)@.push(s),
        spans_model(final(out)@) == spans_model(old(out)@).push(span_model(s)),
{
    proof {
        lemma_spans_push(out@, s);
    }
    out.push(s);
}

/// Takes the last span off `out`, which is not empty.
fn pop_span(out: &mut Vec<Span>) -> (s: Span)
    requires
        old(out)@.len() > 0,
    ensures
        final(out)@ == old(out)@.drop_last(),
        s == old(out)@.last(),
        spans_model(old(out)@) == spans_model(final(out)@).push(span_model(s)),
        spans_model(old(out)@).len() > 0,
        spans_model(old(out)@).last() == span_model(s),
        spans_model(old(out)@).drop_last() == spans_model(final(out)@),
{
    let s = out.pop().unwrap();
    proof {
        assert(spans_model(old(out)@).drop_last() =~= spans_model(out@));
    }
    s
}

/// A text without its last `k` bytes.
fn shortened(text: Vec<u8>, k: usize) -> (t: Vec<u8>)
    requires
        k <= text@.len(),
    ensures
        t@ == text@.subrange(0, text@.len() - k),
{
    let mut t = text;
    let n: usize = t.len() - k;
    t.truncate(n);
    t
}

/// `out` without the last `n` bytes of the plain text that ends it.
pub open spec fn rewound(out: Seq<SpanModel>, n: int) -> Seq<SpanModel>
    decreases out.len(),
{
    if n <= 0 || out.len() == 0 {
        out
    } else {
        match out.last() {
            SpanModel::Text { text } => {
                let k = if n < text.len() {
                    n
                } else {
                    text.len() as int
                };
                rewound(out.drop_last(), n - k).push(
                    SpanModel::Text { text: text.subrange(0, text.len() - k) },
                )
            },
            _ => out,
        }
    }
}

/// Takes the last `n` bytes off the plain text that ends `out`.
pub fn rewind_text(out: &mut Vec<Span>, n: usize)
    ensures
        spans_model(final(out)@) == rewound(spans_model(old(out)@), n as int),
    decreases old(out)@.len(),
{
    if n == 0 || out.len() == 0 {
        return ;
    }
    let last = pop_span(out);
    match last {
        Span::Text { text } => {
            let k: usize = if n < text.len() {
                n
            } else {
                text.len()
            };
            let t = shortened(text, k);
            rewind_text(out, n - k);
            push_span(out, Span::Text { text: t });
        },
        other => {
            push_span(out, other);
            assert(spans_model(out@) =~= spans_model(old(out)@));
        },
    }
}

/// `out` without the spaces at the end of the plain text that ends it.
pub open spec fn trimmed(out: Seq<SpanModel>) -> Seq<SpanModel>
    decreases out.len(),
{
    if out.len() == 0 {
        out
    } else {
        match out.last() {
            SpanModel::Text { text } => {
                let n = skipped_back(text, 0, text.len() as int, Class::Is(0x20));
                if n > 0 {
                    out.drop_last().push(SpanModel::Text { text: text.subrange(0, n) })
                } else {
                    trimmed(out.drop_last()).push(SpanModel::Text { text: Seq::empty() })
                }
            },
            _ => out,
        }
    }
}

/// Takes the spaces off the end of the plain text that ends `out`.
pub fn trim_spaces(out: &mut Vec<Span>)
    ensures
        spans_model(final(out)@) == trimmed(spans_model(old(out)@)),
    decreases old(out)@.len(),
{
    if out.len() == 0 {
        return ;
    }
    let last = pop_span(out);
    match last {
        Span::Text { text } => {
            let n: usize = skip_back(text.as_slice(), 0, text.len(), Class::Is(0x20));
            let k: usize = text.len() - n;
            let t = shortened(text, k);
            if n == 0 {
                trim_spaces(out);
                assert(t@ =~= Seq::<u8>::empty());
            }
            push_span(out, Span::Text { text: t });
        },
        other => {
            push_span(out, other);
            assert(spans_model(out@) =~= spans_model(old(out)@));
        },
    }
}

/// `out` without the `!` at the end of the plain text that ends it.
pub open spec fn unbanged(out: Seq<SpanModel>) -> Seq<SpanModel> {
    if out.len() == 0 {
        out
    } else {
        match out.last() {
            SpanModel::Text { text } => {
                if text.len() > 0 && text.last() == 0x21 {
                    out.drop_last().push(SpanModel::Text { text: text.drop_last() })
                } else {
                    out
                }
            },
            _ => out,
        }
    }
}

/// Takes a `!` off the end of the plain text that ends `out`.
pub fn strip_bang(out: &mut Vec<Span>)
    ensures
        spans_model(final(out)@) == unbanged(spans_model(old(out)@)),
{
    if out.len() == 0 {
        return ;
    }
    let last = pop_span(out);
    match last {
        Span::Text { text } => {
            let k: usize = if text.len() > 0 && text[text.len() - 1] == 0x21 {
                1
            } else {
                0
            };
            let ghost before = text@;
            let t = shortened(text, k);
            proof {
                if k == 1 {
                    assert(t@ =~= before.drop_last());
                } else {
                    assert(t@ =~= before);
                }
            }
            push_span(out, Span::Text { text: t });
            assert(spans_model(out@) =~= unbanged(spans_model(old(out)@)));
        },
        other => {
            push_span(out, other);
            assert(spans_model(out@) =~= spans_model(old(out)@));
        },
    }
}

/// What a recogniser did: the spans as they stand after it, and how many
/// bytes it has taken.
pub ghost struct Taken {
    pub out: Seq<SpanModel>,
    pub n: int,
}

/// A newline after two or more spaces is a hard line break: the spaces
/// before it are dropped.
#[verifier::opaque]
pub open spec fn spec_linebreak(out: Seq<SpanModel>, data: Seq<u8>, pos: int, offset: int) -> Taken {
    if offset < 2 || data[pos - 1] != 0x20 || data[pos - 2] != 0x20 {
        Taken { out, n: 0 }
    } else {
        Taken {
            out: trimmed(out).push(SpanModel::LineBreak { source: data.subrange(pos, pos + 1) }),
            n: 1,
        }
    }
}

/// A newline after two or more spaces: a hard line break.
pub fn char_linebreak(out: &mut Vec<Span>, data: &[u8], pos: usize, end: usize, offset: usize) -> (n:
    usize)
    requires
        offset <= pos < end <= data.len(),
    ensures
        n <= end - pos,
        (Taken { out: spans_model(final(out)@), n: n as int }) == spec_linebreak(
            spans_model(old(out)@),
            data@,
            pos as int,
            offset as int,
        ),
{
    reveal(spec_linebreak);
    if offset < 2 || data[pos - 1] != 0x20 || data[pos - 2] != 0x20 {
        return 0;
    }
    trim_spaces(out);
    push_span(out, Span::LineBreak { source: copy_range(data, pos, pos + 1) });
    1
}

/// A code span at `pos`: the text between the run of backticks that
/// starts there and the next run of the same length, without the spaces
/// at its ends.  Nothing where no such run follows.
#[verifier::opaque]
pub open spec fn spec_codespan(out: Seq<SpanModel>, data: Seq<u8>, pos: int, end: int) -> Taken {
    let nb = skipped(data, pos, end, Class::Is(0x60)) - pos;
    let r = tick_close(data, pos, end, nb, nb, 0);
    let e = r.0;
    let f_begin = skipped(data, pos + nb, pos + e, Class::Is(0x20)) - pos;
    let f_end = skipped_back(data, pos + nb, pos + e - nb, Class::Is(0x20)) - pos;
    if r.1 < nb && e >= end - pos {
        Taken { out, n: 0 }
    } else {
        Taken {
            out: out.push(
                SpanModel::CodeSpan {
                    text: if f_begin < f_end {
                        data.subrange(pos + f_begin, pos + f_end)
                    } else {
                        Seq::empty()
                    },
                    source: data.subrange(pos, pos + e),
                },
            ),
            n: e,
        }
    }
}

/// A code span: text between two runs of backticks of the same length.
pub fn char_codespan(out: &mut Vec<Span>, data: &[u8], pos: usize, end: usize) -> (n: usize)
    requires
        pos < end <= data.len(),
    ensures
        n <= end - pos,
        (Taken { out: spans_model(final(out)@), n: n as int }) == spec_codespan(
            spans_model(old(out)@),
            data@,
            pos as int,
            end as int,
        ),
{
    reveal(spec_codespan);
    let size: usize = end - pos;
    let nb: usize = skip(data, pos, end, Class::Is(0x60)) - pos;
    let mut i: usize = 0;
    let mut e: usize = nb;
    while e < size && i < nb
        invariant
            nb <= e <= size,
            i <= nb,
            i <= e - nb,
            size == end - pos,
            end <= data.len(),
            tick_close(data@, pos as int, end as int, nb as int, nb as int, 0) == tick_close(
                data@,
                pos as int,
                end as int,
                e as int,
                nb as int,
                i as int,
            ),
        decreases size - e,
    {
        if data[pos + e] == 0x60 {
            i += 1;
        } else {
            i = 0;
        }
        e += 1;
    }
    if i < nb && e >= size {
        return 0;
    }
    let f_begin: usize = skip(data, pos + nb, pos + e, Class::Is(0x20)) - pos;
    let f_end: usize = skip_back(data, pos + nb, pos + e - nb, Class::Is(0x20)) - pos;
    let text: Vec<u8> = if f_begin < f_end {
        copy_range(data, pos + f_begin, pos + f_end)
    } else {
        Vec::new()
    };
    push_span(out, Span::CodeSpan { text, source: copy_range(data, pos, pos + e) });
    e
}

/// The bytes that a backslash can escape: ASCII punctuation.
pub open spec fn is_escapable(c: u8) -> bool {
    is_punct(c)
}

fn escapable(c: u8) -> (r: bool)
    ensures
        r == is_escapable(c),
{
    punct(c)
}

/// The position, counted from `pos`, of the first closing delimiter
/// `close` from `pos + i` on that no backslash escapes; -1 where there
/// is none.
pub open spec fn math_close(data: Seq<u8>, pos: int, end: int, close: Seq<u8>, i: int) -> int
    decreases end - pos - i,
{
    let j = skipped(data, pos + i, end, Class::Not(close[0])) - pos;
    if pos + i > end || j >= end - pos {
        -1
    } else if !spec_is_escaped(data, pos, j) && close.len() <= end - pos - j && starts_with_at(
        data,
        pos + j,
        close,
    ) {
        j
    } else {
        proof {
            lemma_skipped(data, pos + i, end, Class::Not(close[0]));
        }
        math_close(data, pos, end, close, j + 1)
    }
}

/// A math span that starts at `pos` with a delimiter as long as `close`
/// and runs up to the closing delimiter `close`.  Between `$$` the math
/// is displayed where nothing but spacing stands around it, unless
/// explicit math is enabled, in which case it always is.
#[verifier::opaque]
pub open spec fn spec_math(
    st: State,
    out: Seq<SpanModel>,
    data: Seq<u8>,
    pos: int,
    end: int,
    offset: int,
    close: Seq<u8>,
    displaymode: bool,
) -> Taken {
    let i = math_close(data, pos, end, close, close.len() as int);
    let n = i + close.len();
    let display = if close.len() == 2 && !st.ext.on(extensions::MATH_EXPLICIT) {
        all_spacing(data, pos - offset, pos) && all_spacing(data, pos + n, end)
    } else {
        displaymode
    };
    if i < 0 {
        Taken { out, n: 0 }
    } else {
        Taken {
            out: out.push(
                SpanModel::Math {
                    text: data.subrange(pos + close.len(), pos + i),
                    display,
                    source: data.subrange(pos, pos + n),
                },
            ),
            n,
        }
    }
}

/// A math span that starts at `pos` with a delimiter of `delimsz` bytes
/// and runs up to the closing delimiter `close`.
pub fn parse_math(
    p: &Parser,
    out: &mut Vec<Span>,
    data: &[u8],
    pos: usize,
    end: usize,
    offset: usize,
    close: &[u8],
    delimsz: usize,
    displaymode: bool,
) -> (n: usize)
    requires
        offset <= pos < end <= data.len(),
        1 <= delimsz <= end - pos,
        close.len() == delimsz,
    ensures
        n <= end - pos,
        n == 0 ==> *final(out) == *old(out),
        (Taken { out: spans_model(final(out)@), n: n as int }) == spec_math(
            p@,
            spans_model(old(out)@),
            data@,
            pos as int,
            end as int,
            offset as int,
            close@,
            displaymode,
        ),
{
    reveal(spec_math);
    let size: usize = end - pos;
    let mut i: usize = delimsz;
    loop
        invariant
            delimsz <= i <= size,
            size == end - pos,
            end <= data.len(),
            close.len() == delimsz,
            delimsz >= 1,
            *out == *old(out),
            math_close(data@, pos as int, end as int, close@, delimsz as int) == math_close(
                data@,
                pos as int,
                end as int,
                close@,
                i as int,
            ),
            math_close(data@, pos as int, end as int, close@, delimsz as int) == -1 ==> spec_math(
                p@,
                spans_model(old(out)@),
                data@,
                pos as int,
                end as int,
                offset as int,
                close@,
                displaymode,
            ) == (Taken { out: spans_model(old(out)@), n: 0 }),
        ensures
            delimsz <= i,
            i + delimsz <= size,
            i == math_close(data@, pos as int, end as int, close@, delimsz as int),
        decreases size - i,
    {
        let j: usize = skip(data, pos + i, end, Class::Not(close[0])) - pos;
        if j >= size {
            return 0;
        }
        if !is_escaped(data, pos, j) && delimsz <= size - j && crate::chars::has_prefix_at(
            data,
            pos + j,
            close,
        ) {
            i = j;
            break ;
        }
        i = j + 1;
    }
    let text: Vec<u8> = copy_range(data, pos + delimsz, pos + i);
    let n: usize = i + delimsz;
    let mut display: bool = displaymode;
    if delimsz == 2 && !p.on(extensions::MATH_EXPLICIT) {
        display = is_empty_all(data, pos - offset, pos) && is_empty_all(data, pos + n, end);
    }
    push_span(out, Span::Math { text, display, source: copy_range(data, pos, pos + n) });
    n
}

/// A `$` at `pos`: display math between `$$`, or inline math between
/// single `$` where explicit math is enabled.
pub open spec fn spec_char_math(
    st: State,
    out: Seq<SpanModel>,
    data: Seq<u8>,
    pos: int,
    end: int,
    offset: int,
) -> Taken {
    if end - pos > 1 && data[pos + 1] == 0x24 {
        spec_math(st, out, data, pos, end, offset, seq![0x24u8, 0x24u8], true)
    } else if st.ext.on(extensions::MATH_EXPLICIT) {
        spec_math(st, out, data, pos, end, offset, seq![0x24u8], false)
    } else {
        Taken { out, n: 0 }
    }
}

/// A `$`: display math between `$$`, or inline math between single `$`
/// where that is enabled.
pub fn char_math(p: &Parser, out: &mut Vec<Span>, data: &[u8], pos: usize, end: usize, offset: usize) -> (n:
    usize)
    requires
        offset <= pos < end <= data.len(),
    ensures
        n <= end - pos,
        (Taken { out: spans_model(final(out)@), n: n as int }) == spec_char_math(
            p@,
            spans_model(old(out)@),
            data@,
            pos as int,
            end as int,
            offset as int,
        ),
{
    let size: usize = end - pos;
    if size > 1 && data[pos + 1] == 0x24 {
        let close: [u8; 2] = [0x24, 0x24];
        assert(close@ =~= seq![0x24u8, 0x24u8]);
        return parse_math(p, out, data, pos, end, offset, close.as_slice(), 2, true);
    }
    if p.on(extensions::MATH_EXPLICIT) {
        let close: [u8; 1] = [0x24];
        assert(close@ =~= seq![0x24u8]);
        return parse_math(p, out, data, pos, end, offset, close.as_slice(), 1, false);
    }
    0
}

/// The delimiter that closes math that a backslash and `bracket` open.
pub open spec fn math_closer(bracket: bool) -> Seq<u8> {
    if bracket {
        seq![0x5cu8, 0x5cu8, 0x5du8]
    } else {
        seq![0x5cu8, 0x5cu8, 0x29u8]
    }
}

/// A backslash at `pos`: math where two backslashes and a bracket open
/// it; else the escaped byte as plain text, where it can be escaped; a
/// backslash at the very end goes out as it is.
#[verifier::opaque]
pub open spec fn spec_escape(
    st: State,
    out: Seq<SpanModel>,
    data: Seq<u8>,
    pos: int,
    end: int,
    offset: int,
) -> Taken {
    let size = end - pos;
    let bracket = data[pos + 2] == 0x5b;
    let math = spec_math(st, out, data, pos, end, offset, math_closer(bracket), bracket);
    if size <= 1 {
        Taken { out: out.push(SpanModel::Verbatim { text: data.subrange(pos, pos + 1) }), n: 1 }
    } else if data[pos + 1] == 0x5c && st.ext.on(extensions::MATH) && size > 2 && (data[pos + 2]
        == 0x28 || data[pos + 2] == 0x5b) && math.n != 0 {
        math
    } else if !is_escapable(data[pos + 1]) {
        Taken { out, n: 0 }
    } else {
        Taken { out: out.push(SpanModel::Text { text: data.subrange(pos + 1, pos + 2) }), n: 2 }
    }
}

/// A backslash: the escaped byte goes out as plain text.
pub fn char_escape(p: &Parser, out: &mut Vec<Span>, data: &[u8], pos: usize, end: usize, offset: usize) -> (n:
    usize)
    requires
        offset <= pos < end <= data.len(),
    ensures
        n <= end - pos,
        (Taken { out: spans_model(final(out)@), n: n as int }) == spec_escape(
            p@,
            spans_model(old(out)@),
            data@,
            pos as int,
            end as int,
            offset as int,
        ),
{
    reveal(spec_escape);
    let size: usize = end - pos;
    if size > 1 {
        if data[pos + 1] == 0x5c && p.on(extensions::MATH) && size > 2 && (data[pos + 2] == 0x28
            || data[pos + 2] == 0x5b) {
            let bracket: bool = data[pos + 2] == 0x5b;
            let close: [u8; 3] = if bracket {
                [0x5c, 0x5c, 0x5d]
            } else {
                [0x5c, 0x5c, 0x29]
            };
            assert(close@ =~= math_closer(bracket));
            let w: usize = parse_math(p, out, data, pos, end, offset, close.as_slice(), 3, bracket);
            if w != 0 {
                return w;
            }
        }
        if !escapable(data[pos + 1]) {
            return 0;
        }
        push_span(out, Span::Text { text: copy_range(data, pos + 1, pos + 2) });
        2
    } else {
        push_span(out, Span::Verbatim { text: copy_range(data, pos, pos + 1) });
        1
    }
}

/// An ampersand at `pos`: an entity where an optional `#`, letters or
/// digits, and a semicolon follow.
#[verifier::opaque]
pub open spec fn spec_entity(out: Seq<SpanModel>, data: Seq<u8>, pos: int, end: int) -> Taken {
    let a = if pos + 1 < end && data[pos + 1] == 0x23 {
        pos + 2
    } else {
        pos + 1
    };
    let e = skipped(data, a, end, Class::Alnum);
    if e < end && data[e] == 0x3b {
        Taken {
            out: out.push(SpanModel::Entity { text: data.subrange(pos, e + 1) }),
            n: e + 1 - pos,
        }
    } else {
        Taken { out, n: 0 }
    }
}

/// An ampersand: an entity where letters or digits and a semicolon follow.
pub fn char_entity(out: &mut Vec<Span>, data: &[u8], pos: usize, end: usize) -> (n: usize)
    requires
        pos < end <= data.len(),
    ensures
        n <= end - pos,
        (Taken { out: spans_model(final(out)@), n: n as int }) == spec_entity(
            spans_model(old(out)@),
            data@,
            pos as int,
            end as int,
        ),
{
    reveal(spec_entity);
    let a: usize = if pos + 1 < end && data[pos + 1] == 0x23 {
        pos + 2
    } else {
        pos + 1
    };
    let e: usize = skip(data, a, end, Class::Alnum);
    if e < end && data[e] == 0x3b {
        push_span(out, Span::Entity { text: copy_range(data, pos, e + 1) });
        e + 1 - pos
    } else {
        0
    }
}

/// A `<` at `pos`: a bracketed address, with its backslashes dropped, or
/// a raw HTML tag.
#[verifier::opaque]
pub open spec fn spec_langle(out: Seq<SpanModel>, data: Seq<u8>, pos: int, end: int) -> Taken {
    let tag = spec_tag_length(data, pos, end);
    if tag.len <= 2 {
        Taken { out, n: 0 }
    } else {
        Taken {
            out: out.push(
                match tag.auto {
                    Some(kind) => SpanModel::Auto {
                        link: unescaped(data.subrange(pos + 1, pos + tag.len - 1), 0),
                        kind,
                        source: data.subrange(pos, pos + tag.len),
                    },
                    None => SpanModel::HtmlSpan { text: data.subrange(pos, pos + tag.len) },
                },
            ),
            n: tag.len as int,
        }
    }
}

/// A `<`: a bracketed address or a raw HTML tag.
pub fn char_langle_tag(out: &mut Vec<Span>, data: &[u8], pos: usize, end: usize) -> (n: usize)
    requires
        pos < end <= data.len(),
    ensures
        n <= end - pos,
        (Taken { out: spans_model(final(out)@), n: n as int }) == spec_langle(
            spans_model(old(out)@),
            data@,
            pos as int,
            end as int,
        ),
{
    reveal(spec_langle);
    let tag = tag_length(data, pos, end);
    let e: usize = tag.len;
    if e > 2 {
        match tag.auto {
            Some(kind) => {
                let inner = vstd::slice::slice_subrange(data, pos + 1, pos + e - 1);
                let link: Vec<u8> = unscape_text(inner);
                push_span(out, Span::Auto { link, kind, source: copy_range(data, pos, pos + e) });
            },
            None => {
                push_span(out, Span::HtmlSpan { text: copy_range(data, pos, pos + e) });
            },
        }
        e
    } else {
        0
    }
}

/// A `w` at `pos`: a link to `http://` and the host where `www.` and a
/// host name follow, outside of the content of a link.
#[verifier::opaque]
pub open spec fn spec_autolink_www(
    st: State,
    out: Seq<SpanModel>,
    data: Seq<u8>,
    pos: int,
    end: int,
    offset: int,
) -> Taken {
    let f = spec_www(data, pos, end, offset);
    let text = data.subrange(pos, pos + f.len);
    if st.in_link_body || f.len == 0 {
        Taken { out, n: 0 }
    } else {
        Taken {
            out: out.push(
                SpanModel::Link {
                    content: seq![SpanModel::Text { text }],
                    link: "http://".spec_bytes() + text,
                    title: Seq::empty(),
                    source: text,
                },
            ),
            n: f.len as int,
        }
    }
}

/// A `w`: a link where `www.` and a host name follow.
pub fn char_autolink_www(p: &Parser, out: &mut Vec<Span>, data: &[u8], pos: usize, end: usize, offset: usize) -> (n:
    usize)
    requires
        offset <= pos < end <= data.len(),
    ensures
        n <= end - pos,
        (Taken { out: spans_model(final(out)@), n: n as int }) == spec_autolink_www(
            p@,
            spans_model(old(out)@),
            data@,
            pos as int,
            end as int,
            offset as int,
        ),
{
    reveal(spec_autolink_www);
    if p.in_link_body {
        return 0;
    }
    let f = autolink_www(data, pos, end, offset);
    if f.len > 0 {
        let text: Vec<u8> = copy_range(data, pos, pos + f.len);
        let mut url: Vec<u8> = Vec::new();
        url.extend_from_slice("http://".as_bytes());
        url.extend_from_slice(text.as_slice());
        let mut content: Vec<Span> = Vec::new();
        push_span(&mut content, Span::Text { text: copy_range(data, pos, pos + f.len) });
        proof {
            assert(url@ =~= "http://".spec_bytes() + text@);
            assert(spans_model(content@) =~= seq![
                SpanModel::Text { text: data@.subrange(pos as int, pos + f.len) },
            ]);
        }
        push_span(out, Span::Link { content, link: url, title: Vec::new(), source: text });
    }
    f.len
}

/// An `@` or a `:` at `pos`: an address around it, outside of the content
/// of a link.  What belongs to the address of the plain text before it
/// is taken off that text.
#[verifier::opaque]
pub open spec fn spec_autolink(
    st: State,
    out: Seq<SpanModel>,
    data: Seq<u8>,
    pos: int,
    end: int,
    offset: int,
    kind: AutoLink,
) -> Taken {
    let f = if kind == AutoLink::Email {
        spec_email(data, pos, end, offset)
    } else {
        spec_url(data, pos, end, offset)
    };
    if st.in_link_body || f.len == 0 {
        Taken { out, n: 0 }
    } else {
        Taken {
            out: rewound(out, f.rewind as int).push(
                SpanModel::Auto {
                    link: data.subrange(pos - f.rewind, pos + f.len),
                    kind,
                    source: data.subrange(pos - f.rewind, pos + f.len),
                },
            ),
            n: f.len as int,
        }
    }
}

/// An `@`: an email address around it.
pub fn char_autolink_email(p: &Parser, out: &mut Vec<Span>, data: &[u8], pos: usize, end: usize, offset: usize) -> (n:
    usize)
    requires
        offset <= pos < end <= data.len(),
    ensures
        n <= end - pos,
        (Taken { out: spans_model(final(out)@), n: n as int }) == spec_autolink(
            p@,
            spans_model(old(out)@),
            data@,
            pos as int,
            end as int,
            offset as int,
            AutoLink::Email,
        ),
{
    reveal(spec_autolink);
    if p.in_link_body {
        return 0;
    }
    let f = autolink_email(data, pos, end, offset);
    if f.len > 0 {
        rewind_text(out, f.rewind);
        push_span(
            out,
            Span::Auto {
                link: copy_range(data, pos - f.rewind, pos + f.len),
                kind: AutoLink::Email,
                source: copy_range(data, pos - f.rewind, pos + f.len),
            },
        );
    }
    f.len
}

/// A `:`: a URL around it.
pub fn char_autolink_url(p: &Parser, out: &mut Vec<Span>, data: &[u8], pos: usize, end: usize, offset: usize) -> (n:
    usize)
    requires
        offset <= pos < end <= data.len(),
    ensures
        n <= end - pos,
        (Taken { out: spans_model(final(out)@), n: n as int }) == spec_autolink(
            p@,
            spans_model(old(out)@),
            data@,
            pos as int,
            end as int,
            offset as int,
            AutoLink::Normal,
        ),
{
    reveal(spec_autolink);
    if p.in_link_body {
        return 0;
    }
    let f = autolink_url(data, pos, end, offset);
    if f.len > 0 {
        rewind_text(out, f.rewind);
        push_span(
            out,
            Span::Auto {
                link: copy_range(data, pos - f.rewind, pos + f.len),
                kind: AutoLink::Normal,
                source: copy_range(data, pos - f.rewind, pos + f.len),
            },
        );
    }
    f.len
}


/// What a span parser did: the state and the spans as they stand after
/// it, and how many bytes it has taken.
pub ghost struct Scan {
    pub st: State,
    pub out: Seq<SpanModel>,
    pub n: int,
}

/// A scan that has left the state as it was.
pub open spec fn lift(st: State, t: Taken) -> Scan {
    Scan { st, out: t.out, n: t.n }
}

/// The first position from `e` on, and before `end`, at which the scanner
/// does something; `end` where there is none.
pub open spec fn next_active(ext: crate::extensions::Extension, data: Seq<u8>, e: int, end: int) -> int
    decreases end - e,
{
    if e < end && spec_action(ext, data[e]) == Action::Nothing {
        next_active(ext, data, e + 1, end)
    } else {
        e
    }
}

/// The next position at which something is done lies within the range.
pub proof fn lemma_next_active(ext: crate::extensions::Extension, data: Seq<u8>, e: int, end: int)
    requires
        e <= end,
    ensures
        e <= next_active(ext, data, e, end) <= end,
    decreases end - e,
{
    if e < end && spec_action(ext, data[e]) == Action::Nothing {
        lemma_next_active(ext, data, e + 1, end);
    }
}

/// The first position from `e` on at which the scanner does something.
fn find_active(p: &Parser, data: &[u8], e: usize, end: usize) -> (r: usize)
    requires
        e <= end <= data.len(),
    ensures
        r == next_active(p@.ext, data@, e as int, end as int),
        e <= r <= end,
{
    let mut r: usize = e;
    while r < end && action(p, data[r]) == Action::Nothing
        invariant
            e <= r <= end <= data.len(),
            next_active(p@.ext, data@, e as int, end as int) == next_active(
                p@.ext,
                data@,
                r as int,
                end as int,
            ),
        decreases end - r,
    {
        r += 1;
    }
    r
}

/// The state with the span depth of `of`.
pub open spec fn restored(st: State, of: State) -> State {
    State { span_depth: of.span_depth, block_depth: of.block_depth, ..st }
}

/// What a span that wraps inline content is made of: the content from
/// `from` up to `to`, scanned with one more span in progress.
pub open spec fn wrapped(
    st: State,
    out: Seq<SpanModel>,
    data: Seq<u8>,
    kind: SpanKind,
    from: int,
    to: int,
    src: int,
    stop: int,
) -> Scan
    decreases to - from, 10nat, 0int,
{
    if from > to {
        Scan { st, out, n: 0 }
    } else {
        let inner = spec_inline(st.enter_span(), Seq::empty(), data, from, to);
        Scan {
            st: restored(inner.st, st),
            out: out.push(
                SpanModel::Wrapped { kind, content: inner.out, source: data.subrange(src, stop) },
            ),
            n: stop - src,
        }
    }
}

/// The inline content from `beg` up to `end`: runs of plain text, and
/// between them the constructs that the trigger bytes start.  Nothing
/// where the nesting is beyond the limit.
pub open spec fn spec_inline(st: State, out: Seq<SpanModel>, data: Seq<u8>, beg: int, end: int) -> Scan
    decreases end - beg, 9nat, 0int,
{
    if st.too_deep() || beg > end {
        Scan { st, out, n: 0 }
    } else {
        inline_loop(st, out, data, beg, end, beg, beg, beg)
    }
}

/// The scan of inline content where it stands at `i`, with the bytes up
/// to `e` known to be plain text, and the last construct ended at `consumed`.
pub open spec fn inline_loop(
    st: State,
    out: Seq<SpanModel>,
    data: Seq<u8>,
    beg: int,
    end: int,
    i: int,
    e: int,
    consumed: int,
) -> Scan
    decreases end - beg, 8nat, end - e,
{
    let a = next_active(st.ext, data, e, end);
    let out2 = out.push(SpanModel::Text { text: data.subrange(i, a) });
    if !(beg <= consumed <= i <= e <= end) || i >= end {
        Scan { st, out, n: 0 }
    } else if a >= end {
        Scan { st, out: out2, n: 0 }
    } else {
        proof {
            lemma_next_active(st.ext, data, e, end);
        }
        let r = spec_dispatch(st, out2, data, a, end, a - consumed);
        if r.n <= 0 || r.n > end - a {
            inline_loop(r.st, r.out, data, beg, end, a, a + 1, consumed)
        } else {
            inline_loop(r.st, r.out, data, beg, end, a + r.n, a + r.n, a + r.n)
        }
    }
}

/// What the recogniser of the trigger byte at `pos` does.
pub open spec fn spec_dispatch(
    st: State,
    out: Seq<SpanModel>,
    data: Seq<u8>,
    pos: int,
    end: int,
    offset: int,
) -> Scan
    decreases end - pos, 7nat, 1int,
{
    match spec_action(st.ext, data[pos]) {
        Action::Nothing => Scan { st, out, n: 0 },
        Action::Emphasis => spec_emphasis(st, out, data, pos, end, offset),
        Action::CodeSpan => lift(st, spec_codespan(out, data, pos, end)),
        Action::LineBreak => lift(st, spec_linebreak(out, data, pos, offset)),
        Action::Link => spec_link(st, out, data, pos, end, offset),
        Action::Image => spec_image(st, out, data, pos, end, offset),
        Action::Langle => lift(st, spec_langle(out, data, pos, end)),
        Action::Escape => lift(st, spec_escape(st, out, data, pos, end, offset)),
        Action::Entity => lift(st, spec_entity(out, data, pos, end)),
        Action::AutolinkUrl => lift(
            st,
            spec_autolink(st, out, data, pos, end, offset, AutoLink::Normal),
        ),
        Action::AutolinkEmail => lift(
            st,
            spec_autolink(st, out, data, pos, end, offset, AutoLink::Email),
        ),
        Action::AutolinkWww => lift(st, spec_autolink_www(st, out, data, pos, end, offset)),
        Action::Superscript => spec_superscript(st, out, data, pos, end),
        Action::Quote => spec_quote(st, out, data, pos, end),
        Action::Math => lift(st, spec_char_math(st, out, data, pos, end, offset)),
    }
}

/// Single emphasis: the text from `base` up to the first closing `c` that
/// no spacing stands before.  With emphasis within words disabled, `c`
/// closes nothing where a letter or digit follows it.  `src` is where the
/// construct starts.
pub open spec fn spec_emph1(
    st: State,
    out: Seq<SpanModel>,
    data: Seq<u8>,
    base: int,
    end: int,
    c: u8,
    src: int,
) -> Scan
    decreases end - base + 1, 2nat, 0int,
{
    emph1_loop(st, out, data, base, end, c, src, if end - base > 1 && data[base] == c && data[base
        + 1] == c {
        1
    } else {
        0
    })
}

/// The scan for the end of single emphasis where it stands at `base + i`.
pub open spec fn emph1_loop(
    st: State,
    out: Seq<SpanModel>,
    data: Seq<u8>,
    base: int,
    end: int,
    c: u8,
    src: int,
    i: int,
) -> Scan
    decreases end - base + 1, 1nat, end - base - i,
{
    let size = end - base;
    let len = spec_find_emph(data, base + i, end, c, 0);
    let j = i + len;
    if i < 0 || i >= size || len <= 0 || j >= size {
        Scan { st, out, n: 0 }
    } else if data[base + j] == c && !is_spacing(data[base + j - 1]) && !(st.ext.on(
        extensions::NO_INTRA_EMPHASIS,
    ) && j + 1 < size && is_alnum(data[base + j + 1])) {
        let r = wrapped(st, out, data, if st.ext.on(extensions::UNDERLINE) && c == 0x5f {
            SpanKind::Underline
        } else {
            SpanKind::Emphasis
        }, base, base + j, src, base + j + 1);
        Scan { st: r.st, out: r.out, n: j + 1 }
    } else {
        emph1_loop(st, out, data, base, end, c, src, j)
    }
}

/// Double emphasis, strikethrough or highlight: the text from `base` up
/// to the first closing `cc` that no spacing stands before.
pub open spec fn spec_emph2(
    st: State,
    out: Seq<SpanModel>,
    data: Seq<u8>,
    base: int,
    end: int,
    c: u8,
    src: int,
    i: int,
) -> Scan
    decreases end - base + 2, 1nat, end - base - i,
{
    let size = end - base;
    let len = spec_find_emph(data, base + i, end, c, 0);
    let j = i + len;
    if i < 0 || i >= size || len <= 0 || j >= size {
        Scan { st, out, n: 0 }
    } else if j + 1 < size && data[base + j] == c && data[base + j + 1] == c && j > 0
        && !is_spacing(data[base + j - 1]) {
        let r = wrapped(st, out, data, if c == 0x7e {
            SpanKind::Strikethrough
        } else if c == 0x3d {
            SpanKind::Highlight
        } else {
            SpanKind::DoubleEmphasis
        }, base, base + j, src, base + j + 2);
        Scan { st: r.st, out: r.out, n: j + 2 }
    } else {
        spec_emph2(st, out, data, base, end, c, src, j + 1)
    }
}

/// Triple emphasis: the text from `base` up to the first closing run that
/// no spacing stands before; where that run is shorter than three, the
/// construct is single or double emphasis that starts with the rest of
/// the opening run.
pub open spec fn spec_emph3(
    st: State,
    out: Seq<SpanModel>,
    data: Seq<u8>,
    base: int,
    end: int,
    c: u8,
    src: int,
    i: int,
) -> Scan
    decreases end - base + 3, 3nat, end - base - i,
{
    let size = end - base;
    let len = spec_find_emph(data, base + i, end, c, 0);
    let j = i + len;
    if i < 0 || i >= size || len <= 0 || j >= size || base < 2 {
        Scan { st, out, n: 0 }
    } else if data[base + j] != c || is_spacing(data[base + j - 1]) {
        spec_emph3(st, out, data, base, end, c, src, j)
    } else if j + 2 < size && data[base + j + 1] == c && data[base + j + 2] == c {
        let r = wrapped(st, out, data, SpanKind::TripleEmphasis, base, base + j, src, base + j + 3);
        Scan { st: r.st, out: r.out, n: j + 3 }
    } else if j + 1 < size && data[base + j + 1] == c {
        let r = spec_emph1(st, out, data, base - 2, end, c, src);
        Scan {
            st: r.st,
            out: r.out,
            n: if r.n < 2 {
                0
            } else {
                r.n - 2
            },
        }
    } else {
        let r = spec_emph2(st, out, data, base - 1, end, c, src, 0);
        Scan {
            st: r.st,
            out: r.out,
            n: if r.n < 1 {
                0
            } else {
                r.n - 1
            },
        }
    }
}

/// An emphasis byte at `pos`: single, double or triple emphasis by the
/// length of the run that starts there.  No emphasis where spacing
/// follows the run, and, with emphasis within words disabled, where the
/// run follows a byte that is no spacing, `>` or `(`.
pub open spec fn spec_emphasis(
    st: State,
    out: Seq<SpanModel>,
    data: Seq<u8>,
    pos: int,
    end: int,
    offset: int,
) -> Scan
    decreases end - pos, 7nat, 0int,
{
    let size = end - pos;
    let c = data[pos];
    let fail = Scan { st, out, n: 0 };
    if st.ext.on(extensions::NO_INTRA_EMPHASIS) && offset > 0 && !is_spacing(data[pos - 1])
        && data[pos - 1] != 0x3e && data[pos - 1] != 0x28 {
        fail
    } else if size > 2 && data[pos + 1] != c {
        if c == 0x7e || c == 0x3d || is_spacing(data[pos + 1]) {
            fail
        } else {
            let r = spec_emph1(st, out, data, pos + 1, end, c, pos);
            Scan {
                st: r.st,
                out: r.out,
                n: if r.n == 0 {
                    0
                } else {
                    r.n + 1
                },
            }
        }
    } else if size > 3 && data[pos + 1] == c && data[pos + 2] != c {
        if is_spacing(data[pos + 2]) {
            fail
        } else {
            let r = spec_emph2(st, out, data, pos + 2, end, c, pos, 0);
            Scan {
                st: r.st,
                out: r.out,
                n: if r.n == 0 {
                    0
                } else {
                    r.n + 2
                },
            }
        }
    } else if size > 4 && data[pos + 1] == c && data[pos + 2] == c && data[pos + 3] != c {
        if c == 0x7e || c == 0x3d || is_spacing(data[pos + 3]) {
            fail
        } else {
            let r = spec_emph3(st, out, data, pos + 3, end, c, pos, 0);
            Scan {
                st: r.st,
                out: r.out,
                n: if r.n == 0 {
                    0
                } else {
                    r.n + 3
                },
            }
        }
    } else {
        fail
    }
}

/// Where the closing run of a quote ends, counted from `pos`: the scan
/// goes on from `pos + e` for a run of `nq` quotes.  Zero where there is
/// none.
pub open spec fn quote_close(data: Seq<u8>, pos: int, end: int, nq: int, e: int) -> int
    decreases end - pos - e,
{
    let i = e + spec_find_emph(data, pos + e, end, 0x22, 0);
    let stop = if end - pos - i > nq {
        pos + i + nq
    } else {
        end
    };
    let e2 = skipped(data, pos + i, stop, Class::Is(0x22)) - pos;
    if e < 0 || nq < 0 || pos + e > end || i <= e || i >= end - pos {
        0
    } else if e2 - i >= nq {
        e2
    } else {
        proof {
            lemma_skipped(data, pos + i, stop, Class::Is(0x22));
        }
        quote_close(data, pos, end, nq, e2)
    }
}

/// A quote at `pos`: the text between the run of `"` that starts there
/// and the next run of the same length, without the spaces at its ends.
pub open spec fn spec_quote(st: State, out: Seq<SpanModel>, data: Seq<u8>, pos: int, end: int) -> Scan
    decreases end - pos, 7nat, 0int,
{
    let nq = skipped(data, pos, end, Class::Is(0x22)) - pos;
    let e = quote_close(data, pos, end, nq, nq);
    let f_begin = skipped(data, pos + nq, pos + e, Class::Is(0x20)) - pos;
    let f_end = skipped_back(data, pos + nq, pos + e - nq, Class::Is(0x20)) - pos;
    if nq <= 0 || e <= 0 || e > end - pos {
        Scan { st, out, n: 0 }
    } else if f_begin < f_end {
        proof {
            lemma_skipped(data, pos + nq, pos + e, Class::Is(0x20));
            crate::chars::lemma_skipped_back(data, pos + nq, pos + e - nq, Class::Is(0x20));
        }
        let r = wrapped(st, out, data, SpanKind::Quote, pos + f_begin, pos + f_end, pos, pos + e);
        Scan { st: r.st, out: r.out, n: e }
    } else {
        Scan {
            st,
            out: out.push(
                SpanModel::Wrapped {
                    kind: SpanKind::Quote,
                    content: Seq::empty(),
                    source: data.subrange(pos, pos + e),
                },
            ),
            n: e,
        }
    }
}

/// A `^` at `pos`: superscript, up to the next spacing, or within the
/// parentheses that follow.  `^()` is taken and gives nothing.
pub open spec fn spec_superscript(
    st: State,
    out: Seq<SpanModel>,
    data: Seq<u8>,
    pos: int,
    end: int,
) -> Scan
    decreases end - pos, 7nat, 0int,
{
    let size = end - pos;
    let paren = data[pos + 1] == 0x28;
    let sup_start = if paren {
        2int
    } else {
        1int
    };
    let sup_len = if paren {
        spec_find_emph(data, pos + 2, end, 0x29, 0) + 2
    } else {
        skipped(data, pos + 1, end, Class::NotSpacing) - pos
    };
    let n = if paren {
        sup_len + 1
    } else {
        sup_len
    };
    if size < 2 || (paren && sup_len == size) || sup_len > size || n > size {
        Scan { st, out, n: 0 }
    } else if sup_len - sup_start <= 0 {
        Scan {
            st,
            out,
            n: if paren {
                3
            } else {
                0
            },
        }
    } else {
        let r = wrapped(
            st,
            out,
            data,
            SpanKind::Superscript,
            pos + sup_start,
            pos + sup_len,
            pos,
            pos + n,
        );
        Scan { st: r.st, out: r.out, n }
    }
}

/// A `!` at `pos`: an image where a link follows.
pub open spec fn spec_image(
    st: State,
    out: Seq<SpanModel>,
    data: Seq<u8>,
    pos: int,
    end: int,
    offset: int,
) -> Scan
    decreases end - pos, 7nat, 0int,
{
    if end - pos < 2 || data[pos + 1] != 0x5b {
        Scan { st, out, n: 0 }
    } else {
        let r = spec_link(st, out, data, pos + 1, end, offset + 1);
        Scan {
            st: r.st,
            out: r.out,
            n: if r.n == 0 {
                0
            } else {
                r.n + 1
            },
        }
    }
}

/// Where the destination of an inline link ends, counted from `pos`: at
/// the `)` that closes the link, or at a quote after spacing.  The scan
/// stands at `pos + i`, with `nb_p` parentheses open.
pub open spec fn dest_end(data: Seq<u8>, pos: int, end: int, i: int, nb_p: int) -> int
    decreases end - pos - i,
{
    let size = end - pos;
    let c = data[pos + i];
    if i < 0 || i >= size {
        size
    } else if c == 0x5c {
        dest_end(data, pos, end, if size - i < 2 {
            size
        } else {
            i + 2
        }, nb_p)
    } else if c == 0x28 {
        dest_end(data, pos, end, i + 1, nb_p + 1)
    } else if c == 0x29 {
        if nb_p == 0 {
            i
        } else {
            dest_end(data, pos, end, i + 1, nb_p - 1)
        }
    } else if is_spacing(data[pos + i - 1]) && (c == 0x27 || c == 0x22) {
        i
    } else {
        dest_end(data, pos, end, i + 1, nb_p)
    }
}

/// Where the title of an inline link ends, counted from `pos`: at the `)`
/// after the quote `qtype` that closes it.
pub open spec fn title_close(data: Seq<u8>, pos: int, end: int, i: int, qtype: u8, in_title: bool) -> int
    decreases end - pos - i,
{
    let size = end - pos;
    let c = data[pos + i];
    if i < 0 || i >= size {
        size
    } else if c == 0x5c {
        title_close(data, pos, end, if size - i < 2 {
            size
        } else {
            i + 2
        }, qtype, in_title)
    } else if c == qtype {
        title_close(data, pos, end, i + 1, qtype, false)
    } else if c == 0x29 && !in_title {
        i
    } else {
        title_close(data, pos, end, i + 1, qtype, in_title)
    }
}

/// The target of a link as a mathematical value: whether there is one,
/// where the link ends, its destination and its title where it has them,
/// and how many spans in progress they count for.
pub ghost struct TargetModel {
    pub ok: bool,
    pub i: int,
    pub link: Option<Seq<u8>>,
    pub title: Option<Seq<u8>>,
    pub bufs: int,
}

/// The target of a link.
pub struct Target {
    pub ok: bool,
    pub i: usize,
    pub link: Option<Vec<u8>>,
    pub title: Option<Vec<u8>>,
    pub bufs: usize,
}

impl View for Target {
    type V = TargetModel;

    open spec fn view(&self) -> TargetModel {
        TargetModel {
            ok: self.ok,
            i: self.i as int,
            link: match self.link {
                Some(l) => Some(l@),
                None => None,
            },
            title: match self.title {
                Some(t) => Some(t@),
                None => None,
            },
            bufs: self.bufs as int,
        }
    }
}

/// No target.
pub open spec fn no_target() -> TargetModel {
    TargetModel { ok: false, i: 0, link: None, title: None, bufs: 0 }
}

/// The target of an inline link whose `(` stands at `pos + i`: a
/// destination, which may stand between angle brackets, and a title
/// between quotes.
#[verifier::opaque]
pub open spec fn inline_target(data: Seq<u8>, pos: int, end: int, i: int) -> TargetModel {
    let size = end - pos;
    let link_b = skipped(data, pos + i + 1, end, Class::Spacing) - pos;
    let d = dest_end(data, pos, end, link_b, 0);
    let quoted = data[pos + d] == 0x27 || data[pos + d] == 0x22;
    let t = title_close(data, pos, end, d + 1, data[pos + d], true);
    let title_e = skipped_back(data, pos + d + 2, pos + t, Class::Spacing) - pos - 1;
    let closed = data[pos + title_e] == 0x27 || data[pos + title_e] == 0x22;
    let stop = if quoted {
        t
    } else {
        d
    };
    let link_e0 = if quoted && !closed {
        t
    } else {
        d
    };
    let link_e = skipped_back(data, pos + link_b, pos + link_e0, Class::Spacing) - pos;
    let angle = link_e > link_b && data[pos + link_b] == 0x3c && data[pos + link_e - 1] == 0x3e;
    let lb = if angle {
        link_b + 1
    } else {
        link_b
    };
    let le = if angle {
        link_e - 1
    } else {
        link_e
    };
    let has_title = quoted && closed && title_e > d + 1;
    if d >= size || (quoted && t >= size) {
        no_target()
    } else {
        TargetModel {
            ok: true,
            i: stop + 1,
            link: if le > lb {
                Some(data.subrange(pos + lb, pos + le))
            } else {
                None
            },
            title: if has_title {
                Some(data.subrange(pos + d + 1, pos + title_e))
            } else {
                None
            },
            bufs: (if le > lb {
                1int
            } else {
                0int
            }) + (if has_title {
                1int
            } else {
                0int
            }),
        }
    }
}


/// The target of a reference link whose text ends at `pos + txt_e`: the
/// link definition whose label stands between the brackets at `pos + i`,
/// or, where there are none or they are empty, whose label is the text
/// of the link with its newlines turned into spaces.
#[verifier::opaque]
pub open spec fn reference_target(
    st: State,
    data: Seq<u8>,
    pos: int,
    end: int,
    i: int,
    txt_e: int,
) -> TargetModel {
    let size = end - pos;
    let explicit = i < size && data[pos + i] == 0x5b;
    let e = skipped(data, pos + i + 1, end, Class::Not(0x5d)) - pos;
    let text = respaced(data, pos + 1, pos + txt_e, pos + 1);
    let id = if explicit && e > i + 1 {
        data.subrange(pos + i + 1, pos + e)
    } else {
        text
    };
    let idx = st.last_ref(id, st.refs.len() as int);
    if (explicit && e >= size) || idx < 0 {
        no_target()
    } else {
        TargetModel {
            ok: true,
            i: if explicit {
                e + 1
            } else {
                txt_e + 1
            },
            link: Some(st.refs[idx].link),
            title: Some(st.refs[idx].title),
            bufs: 1,
        }
    }
}

/// A `[` at `pos`: a footnote reference, an image or a link.
///
/// The text runs up to the `]` that closes it.  A footnote reference
/// names a footnote that is defined and not yet referred to; it gets the
/// next number.  A link or an image has an inline target in parentheses
/// or names a link definition.  The text of a link is scanned as inline
/// content, in which no address becomes a link; the text of an image is
/// kept as it is.
pub open spec fn spec_link(
    st: State,
    out: Seq<SpanModel>,
    data: Seq<u8>,
    pos: int,
    end: int,
    offset: int,
) -> Scan
    decreases end - pos, 6nat, 0int,
{
    let size = end - pos;
    let fail = Scan { st, out, n: 0 };
    let is_img = offset > 0 && data[pos - 1] == 0x21 && !spec_is_escaped(
        data,
        pos - offset,
        offset - 1,
    );
    let is_footnote = st.ext.on(extensions::FOOTNOTES) && size > 1 && data[pos + 1] == 0x5e;
    let txt_e = 1 + spec_find_emph(data, pos + 1, end, 0x5d, 0);
    let i1 = txt_e + 1;
    let idx = st.first_note(data.subrange(pos + 2, pos + txt_e), 0);
    let i2 = skipped(data, pos + i1, end, Class::Spacing) - pos;
    let target = if i2 < size && data[pos + i2] == 0x28 {
        inline_target(data, pos, end, i2)
    } else {
        reference_target(st, data, pos, end, i2, txt_e)
    };
    let u_link = match target.link {
        Some(l) => unescaped(l, 0),
        None => Seq::empty(),
    };
    let title = match target.title {
        Some(t) => t,
        None => Seq::empty(),
    };
    if size < 1 || !(txt_e < size && data[pos + txt_e] == 0x5d) {
        fail
    } else if is_footnote {
        if txt_e < 3 || idx < 0 || st.used.contains(idx as usize) || st.used.len() >= 0x7fff_ffff {
            fail
        } else {
            Scan {
                st: State { used: st.used.push(idx as usize), ..st },
                out: out.push(
                    SpanModel::FootnoteRef {
                        num: (st.used.len() + 1) as u32,
                        source: data.subrange(pos, pos + i1),
                    },
                ),
                n: i1,
            }
        }
    } else if !target.ok || target.i > size {
        fail
    } else if is_img {
        Scan {
            st,
            out: unbanged(out).push(
                SpanModel::Image {
                    link: u_link,
                    title,
                    alt: if txt_e > 1 {
                        data.subrange(pos + 1, pos + txt_e)
                    } else {
                        Seq::empty()
                    },
                    source: data.subrange(pos - 1, pos + target.i),
                },
            ),
            n: target.i,
        }
    } else if txt_e > 1 {
        let inner = spec_inline(
            State { in_link_body: true, ..st.enter_spans(target.bufs + 1) },
            Seq::empty(),
            data,
            pos + 1,
            pos + txt_e,
        );
        Scan {
            st: State { in_link_body: st.in_link_body, ..restored(inner.st, st) },
            out: out.push(
                SpanModel::Link {
                    content: inner.out,
                    link: u_link,
                    title,
                    source: data.subrange(pos, pos + target.i),
                },
            ),
            n: target.i,
        }
    } else {
        Scan {
            st,
            out: out.push(
                SpanModel::Link {
                    content: Seq::empty(),
                    link: u_link,
                    title,
                    source: data.subrange(pos, pos + target.i),
                },
            ),
            n: target.i,
        }
    }
}

/// Reads the target of an inline link whose `(` stands at `pos + i`.
pub fn inline_link(data: &[u8], pos: usize, end: usize, i: usize) -> (t: Target)
    requires
        pos <= end <= data.len(),
        2 <= i < end - pos,
    ensures
        t@ == inline_target(data@, pos as int, end as int, i as int),
        t.ok ==> t.i <= end - pos,
        t.bufs <= 2,
{
    reveal(inline_target);
    let size: usize = end - pos;
    let none = Target { ok: false, i: 0, link: None, title: None, bufs: 0 };
    let link_b: usize = skip(data, pos + i + 1, end, Class::Spacing) - pos;
    let mut k: usize = link_b;
    let mut nb_p: usize = 0;
    while k < size
        invariant
            3 <= link_b <= k <= size,
            nb_p <= k,
            size == end - pos,
            end <= data.len(),
            dest_end(data@, pos as int, end as int, link_b as int, 0) == dest_end(
                data@,
                pos as int,
                end as int,
                k as int,
                nb_p as int,
            ),
        ensures
            link_b <= k <= size,
            k == dest_end(data@, pos as int, end as int, link_b as int, 0),
        decreases size - k,
    {
        let c: u8 = data[pos + k];
        if c == 0x5c {
            k = if size - k < 2 {
                size
            } else {
                k + 2
            };
        } else if c == 0x28 {
            nb_p += 1;
            k += 1;
        } else if c == 0x29 {
            if nb_p == 0 {
                break ;
            } else {
                nb_p -= 1;
            }
            k += 1;
        } else if spacing(data[pos + k - 1]) && (c == 0x27 || c == 0x22) {
            break ;
        } else {
            k += 1;
        }
    }
    let d: usize = k;
    if d >= size {
        return none;
    }
    let quoted: bool = data[pos + d] == 0x27 || data[pos + d] == 0x22;
    let mut link_e0: usize = d;
    let mut stop: usize = d;
    let mut title: Option<Vec<u8>> = None;
    if quoted {
        let qtype: u8 = data[pos + d];
        let mut in_title: bool = true;
        let mut t: usize = d + 1;
        while t < size
            invariant
                d + 1 <= t <= size,
                size == end - pos,
                end <= data.len(),
                title_close(data@, pos as int, end as int, d + 1, qtype, true) == title_close(
                    data@,
                    pos as int,
                    end as int,
                    t as int,
                    qtype,
                    in_title,
                ),
            ensures
                d + 1 <= t <= size,
                t == title_close(data@, pos as int, end as int, d + 1, qtype, true),
            decreases size - t,
        {
            let c: u8 = data[pos + t];
            if c == 0x5c {
                t = if size - t < 2 {
                    size
                } else {
                    t + 2
                };
            } else if c == qtype {
                in_title = false;
                t += 1;
            } else if c == 0x29 && !in_title {
                break ;
            } else {
                t += 1;
            }
        }
        if t >= size {
            return none;
        }
        stop = t;
        let title_e: usize = if t >= d + 2 {
            skip_back(data, pos + d + 2, pos + t, Class::Spacing) - pos - 1
        } else {
            d
        };
        if data[pos + title_e] != 0x27 && data[pos + title_e] != 0x22 {
            link_e0 = t;
        } else if title_e > d + 1 {
            title = Some(copy_range(data, pos + d + 1, pos + title_e));
        }
    }
    let link_e: usize = skip_back(data, pos + link_b, pos + link_e0, Class::Spacing) - pos;
    let angle: bool = link_e > link_b && data[pos + link_b] == 0x3c && data[pos + link_e - 1]
        == 0x3e;
    let lb: usize = if angle {
        link_b + 1
    } else {
        link_b
    };
    let le: usize = if angle {
        link_e - 1
    } else {
        link_e
    };
    let link: Option<Vec<u8>> = if le > lb {
        Some(copy_range(data, pos + lb, pos + le))
    } else {
        None
    };
    let bufs: usize = (if le > lb {
        1
    } else {
        0
    }) + (if title.is_some() {
        1
    } else {
        0
    });
    Target { ok: true, i: stop + 1, link, title, bufs }
}

/// Reads the target of a reference link whose text ends at `pos + txt_e`
/// and whose label, if it has one, stands at `pos + i`.
pub fn reference_link(p: &Parser, data: &[u8], pos: usize, end: usize, i: usize, txt_e: usize) -> (t:
    Target)
    requires
        pos <= end <= data.len(),
        1 <= txt_e < i <= end - pos,
    ensures
        t@ == reference_target(p@, data@, pos as int, end as int, i as int, txt_e as int),
        t.ok ==> t.i <= end - pos,
        t.bufs <= 2,
{
    reveal(reference_target);
    let size: usize = end - pos;
    let none = Target { ok: false, i: 0, link: None, title: None, bufs: 0 };
    let explicit: bool = i < size && data[pos + i] == 0x5b;
    let id: Vec<u8>;
    let next: usize;
    if explicit {
        let e: usize = skip(data, pos + i + 1, end, Class::Not(0x5d)) - pos;
        if e >= size {
            return none;
        }
        if e > i + 1 {
            id = copy_range(data, pos + i + 1, pos + e);
        } else {
            id = replace_spacing(data, pos + 1, pos + txt_e);
        }
        next = e + 1;
    } else {
        id = replace_spacing(data, pos + 1, pos + txt_e);
        next = txt_e + 1;
    }
    match p.find_link_ref(id.as_slice()) {
        Some(idx) => {
            let link: Vec<u8> = crate::chars::copy_range(
                p.refs[idx].link.as_slice(),
                0,
                p.refs[idx].link.len(),
            );
            let title: Vec<u8> = crate::chars::copy_range(
                p.refs[idx].title.as_slice(),
                0,
                p.refs[idx].title.len(),
            );
            proof {
                assert(link@ =~= p@.refs[idx as int].link);
                assert(title@ =~= p@.refs[idx as int].title);
            }
            Target { ok: true, i: next, link: Some(link), title: Some(title), bufs: 1 }
        },
        None => none,
    }
}

/// The content of a span from `from` up to `to`, scanned with one more
/// span in progress, between the markers of a span that starts at `src`
/// and ends at `stop`.
pub fn wrap(
    p: &mut Parser,
    out: &mut Vec<Span>,
    data: &[u8],
    kind: SpanKind,
    from: usize,
    to: usize,
    src: usize,
    stop: usize,
)
    requires
        src <= stop <= data.len(),
        from <= to <= data.len(),
    ensures
        (Scan { st: final(p)@, out: spans_model(final(out)@), n: stop - src }) == wrapped(
            old(p)@,
            spans_model(old(out)@),
            data@,
            kind,
            from as int,
            to as int,
            src as int,
            stop as int,
        ),
    decreases to - from, 10nat,
{
    let span_saved: usize = p.span_depth;
    let block_saved: usize = p.block_depth;
    p.enter_span();
    let mut content: Vec<Span> = Vec::new();
    parse_inline(p, &mut content, data, from, to);
    p.set_depth(span_saved, block_saved);
    push_span(out, Span::Wrapped { kind, content, source: copy_range(data, src, stop) });
}

/// Scans the inline content from `beg` up to `end` and appends what it
/// recognises to `out`: runs of plain text, and between them the
/// constructs that the trigger bytes start.
pub fn parse_inline(p: &mut Parser, out: &mut Vec<Span>, data: &[u8], beg: usize, end: usize)
    requires
        beg <= end <= data.len(),
    ensures
        (Scan { st: final(p)@, out: spans_model(final(out)@), n: 0 }) == spec_inline(
            old(p)@,
            spans_model(old(out)@),
            data@,
            beg as int,
            end as int,
        ),
    decreases end - beg, 9nat,
{
    if p.too_deep() {
        return ;
    }
    let mut i: usize = beg;
    let mut e: usize = beg;
    let mut consumed: usize = beg;
    while i < end
        invariant_except_break
            inline_loop(
                p@,
                spans_model(out@),
                data@,
                beg as int,
                end as int,
                i as int,
                e as int,
                consumed as int,
            ) == spec_inline(old(p)@, spans_model(old(out)@), data@, beg as int, end as int),
        invariant
            beg <= consumed <= i <= e <= end <= data.len(),
        ensures
            (Scan { st: p@, out: spans_model(out@), n: 0 }) == spec_inline(
                old(p)@,
                spans_model(old(out)@),
                data@,
                beg as int,
                end as int,
            ),
        decreases end - e,
    {
        let ghost st0 = p@;
        let ghost om0 = spans_model(out@);
        let a: usize = find_active(p, data, e, end);
        push_span(out, Span::Text { text: copy_range(data, i, a) });
        let ghost out2 = spans_model(out@);
        assert(out2 == om0.push(SpanModel::Text { text: data@.subrange(i as int, a as int) }));
        if a >= end {
            break ;
        }
        let offset: usize = a - consumed;
        let n: usize = match action(p, data[a]) {
            Action::Nothing => 0,
            Action::Emphasis => char_emphasis(p, out, data, a, end, offset),
            Action::CodeSpan => char_codespan(out, data, a, end),
            Action::LineBreak => char_linebreak(out, data, a, end, offset),
            Action::Link => char_link(p, out, data, a, end, offset),
            Action::Image => char_image(p, out, data, a, end, offset),
            Action::Langle => char_langle_tag(out, data, a, end),
            Action::Escape => char_escape(p, out, data, a, end, offset),
            Action::Entity => char_entity(out, data, a, end),
            Action::AutolinkUrl => char_autolink_url(p, out, data, a, end, offset),
            Action::AutolinkEmail => char_autolink_email(p, out, data, a, end, offset),
            Action::AutolinkWww => char_autolink_www(p, out, data, a, end, offset),
            Action::Superscript => char_superscript(p, out, data, a, end),
            Action::Quote => char_quote(p, out, data, a, end),
            Action::Math => char_math(p, out, data, a, end, offset),
        };
        assert((Scan { st: p@, out: spans_model(out@), n: n as int }) == spec_dispatch(
            st0,
            out2,
            data@,
            a as int,
            end as int,
            offset as int,
        ));
        if n == 0 {
            i = a;
            e = a + 1;
        } else {
            i = a + n;
            e = i;
            consumed = i;
        }
    }
}

/// Single emphasis: the text from `base` up to a closing `c` that no
/// spacing stands before.  `src` is where the construct starts.
pub fn parse_emph1(
    p: &mut Parser,
    out: &mut Vec<Span>,
    data: &[u8],
    base: usize,
    end: usize,
    c: u8,
    src: usize,
) -> (n: usize)
    requires
        src < base <= end <= data.len(),
    ensures
        n <= end - base,
        (Scan { st: final(p)@, out: spans_model(final(out)@), n: n as int }) == spec_emph1(
            old(p)@,
            spans_model(old(out)@),
            data@,
            base as int,
            end as int,
            c,
            src as int,
        ),
    decreases end - base + 1, 2nat,
{
    let size: usize = end - base;
    let mut i: usize = 0;
    if size > 1 && data[base] == c && data[base + 1] == c {
        i = 1;
    }
    while i < size
        invariant
            i <= size,
            size == end - base,
            src < base,
            end <= data.len(),
            *p == *old(p),
            *out == *old(out),
            emph1_loop(
                p@,
                spans_model(out@),
                data@,
                base as int,
                end as int,
                c,
                src as int,
                i as int,
            ) == spec_emph1(
                old(p)@,
                spans_model(old(out)@),
                data@,
                base as int,
                end as int,
                c,
                src as int,
            ),
        decreases size - i,
    {
        let len: usize = find_emph_char(data, base + i, end, c);
        if len == 0 {
            return 0;
        }
        i += len;
        if i >= size {
            return 0;
        }
        if data[base + i] == c && !spacing(data[base + i - 1]) {
            if p.on(extensions::NO_INTRA_EMPHASIS) {
                if i + 1 < size && alnum(data[base + i + 1]) {
                    continue ;
                }
            }
            let kind = if p.on(extensions::UNDERLINE) && c == 0x5f {
                SpanKind::Underline
            } else {
                SpanKind::Emphasis
            };
            wrap(p, out, data, kind, base, base + i, src, base + i + 1);
            return i + 1;
        }
    }
    0
}

/// Double emphasis, strikethrough or highlight: the text from `base` up
/// to a closing `cc` that no spacing stands before.
pub fn parse_emph2(
    p: &mut Parser,
    out: &mut Vec<Span>,
    data: &[u8],
    base: usize,
    end: usize,
    c: u8,
    src: usize,
) -> (n: usize)
    requires
        src < base <= end <= data.len(),
    ensures
        n <= end - base,
        n == 0 || n >= 3,
        (Scan { st: final(p)@, out: spans_model(final(out)@), n: n as int }) == spec_emph2(
            old(p)@,
            spans_model(old(out)@),
            data@,
            base as int,
            end as int,
            c,
            src as int,
            0,
        ),
    decreases end - base + 2, 2nat,
{
    let size: usize = end - base;
    let mut i: usize = 0;
    while i < size
        invariant
            i <= size,
            size == end - base,
            src < base,
            end <= data.len(),
            *p == *old(p),
            *out == *old(out),
            spec_emph2(
                p@,
                spans_model(out@),
                data@,
                base as int,
                end as int,
                c,
                src as int,
                i as int,
            ) == spec_emph2(
                old(p)@,
                spans_model(old(out)@),
                data@,
                base as int,
                end as int,
                c,
                src as int,
                0,
            ),
        decreases size - i,
    {
        let len: usize = find_emph_char(data, base + i, end, c);
        if len == 0 {
            return 0;
        }
        i += len;
        if i + 1 < size && data[base + i] == c && data[base + i + 1] == c && i > 0 && !spacing(
            data[base + i - 1],
        ) {
            let kind = if c == 0x7e {
                SpanKind::Strikethrough
            } else if c == 0x3d {
                SpanKind::Highlight
            } else {
                SpanKind::DoubleEmphasis
            };
            wrap(p, out, data, kind, base, base + i, src, base + i + 2);
            return i + 2;
        }
        i += 1;
    }
    0
}

/// Triple emphasis: looks for the first closing run, and hands over to
/// single or double emphasis where that run is shorter than three.
pub fn parse_emph3(
    p: &mut Parser,
    out: &mut Vec<Span>,
    data: &[u8],
    base: usize,
    end: usize,
    c: u8,
    src: usize,
) -> (n: usize)
    requires
        src + 3 <= base <= end <= data.len(),
    ensures
        n <= end - base,
        (Scan { st: final(p)@, out: spans_model(final(out)@), n: n as int }) == spec_emph3(
            old(p)@,
            spans_model(old(out)@),
            data@,
            base as int,
            end as int,
            c,
            src as int,
            0,
        ),
    decreases end - base + 3, 4nat,
{
    let size: usize = end - base;
    let mut i: usize = 0;
    while i < size
        invariant
            i <= size,
            size == end - base,
            src + 3 <= base,
            end <= data.len(),
            *p == *old(p),
            *out == *old(out),
            spec_emph3(
                p@,
                spans_model(out@),
                data@,
                base as int,
                end as int,
                c,
                src as int,
                i as int,
            ) == spec_emph3(
                old(p)@,
                spans_model(old(out)@),
                data@,
                base as int,
                end as int,
                c,
                src as int,
                0,
            ),
        decreases size - i,
    {
        let len: usize = find_emph_char(data, base + i, end, c);
        if len == 0 {
            return 0;
        }
        i += len;
        if data[base + i] != c || spacing(data[base + i - 1]) {
            continue ;
        }
        if i + 2 < size && data[base + i + 1] == c && data[base + i + 2] == c {
            wrap(p, out, data, SpanKind::TripleEmphasis, base, base + i, src, base + i + 3);
            return i + 3;
        } else if i + 1 < size && data[base + i + 1] == c {
            let len1: usize = parse_emph1(p, out, data, base - 2, end, c, src);
            return if len1 < 2 {
                0
            } else {
                len1 - 2
            };
        } else {
            let len2: usize = parse_emph2(p, out, data, base - 1, end, c, src);
            return if len2 < 1 {
                0
            } else {
                len2 - 1
            };
        }
    }
    0
}

/// An emphasis byte: single, double or triple emphasis by the length of
/// the run that starts at `pos`.
pub fn char_emphasis(
    p: &mut Parser,
    out: &mut Vec<Span>,
    data: &[u8],
    pos: usize,
    end: usize,
    offset: usize,
) -> (n: usize)
    requires
        offset <= pos < end <= data.len(),
    ensures
        n <= end - pos,
        (Scan { st: final(p)@, out: spans_model(final(out)@), n: n as int }) == spec_emphasis(
            old(p)@,
            spans_model(old(out)@),
            data@,
            pos as int,
            end as int,
            offset as int,
        ),
    decreases end - pos, 7nat,
{
    let size: usize = end - pos;
    let c: u8 = data[pos];
    if p.on(extensions::NO_INTRA_EMPHASIS) {
        if offset > 0 && !spacing(data[pos - 1]) && data[pos - 1] != 0x3e && data[pos - 1]
            != 0x28 {
            return 0;
        }
    }
    if size > 2 && data[pos + 1] != c {
        if c == 0x7e || c == 0x3d || spacing(data[pos + 1]) {
            return 0;
        }
        let r: usize = parse_emph1(p, out, data, pos + 1, end, c, pos);
        return if r == 0 {
            0
        } else {
            r + 1
        };
    }
    if size > 3 && data[pos + 1] == c && data[pos + 2] != c {
        if spacing(data[pos + 2]) {
            return 0;
        }
        let r: usize = parse_emph2(p, out, data, pos + 2, end, c, pos);
        return if r == 0 {
            0
        } else {
            r + 2
        };
    }
    if size > 4 && data[pos + 1] == c && data[pos + 2] == c && data[pos + 3] != c {
        if c == 0x7e || c == 0x3d || spacing(data[pos + 3]) {
            return 0;
        }
        let r: usize = parse_emph3(p, out, data, pos + 3, end, c, pos);
        return if r == 0 {
            0
        } else {
            r + 3
        };
    }
    0
}

/// A quote: the text between two runs of `"` of the same length.
pub fn char_quote(p: &mut Parser, out: &mut Vec<Span>, data: &[u8], pos: usize, end: usize) -> (n:
    usize)
    requires
        pos < end <= data.len(),
    ensures
        n <= end - pos,
        (Scan { st: final(p)@, out: spans_model(final(out)@), n: n as int }) == spec_quote(
            old(p)@,
            spans_model(old(out)@),
            data@,
            pos as int,
            end as int,
        ),
    decreases end - pos, 7nat,
{
    let size: usize = end - pos;
    let nq: usize = skip(data, pos, end, Class::Is(0x22)) - pos;
    if nq == 0 {
        return 0;
    }
    let mut e: usize = nq;
    loop
        invariant_except_break
            quote_close(data@, pos as int, end as int, nq as int, nq as int) == quote_close(
                data@,
                pos as int,
                end as int,
                nq as int,
                e as int,
            ),
        invariant
            1 <= nq <= e <= size,
            size == end - pos,
            end <= data.len(),
            *p == *old(p),
            *out == *old(out),
            nq == skipped(data@, pos as int, end as int, Class::Is(0x22)) - pos,
        ensures
            1 <= nq,
            2 * nq <= e <= size,
            e == quote_close(data@, pos as int, end as int, nq as int, nq as int),
        decreases size - e,
    {
        let i: usize = e + find_emph_char(data, pos + e, end, 0x22);
        if i == e {
            return 0;
        }
        let stop: usize = if size - i > nq {
            pos + i + nq
        } else {
            end
        };
        let e2: usize = skip(data, pos + i, stop, Class::Is(0x22)) - pos;
        e = e2;
        if e2 - i >= nq {
            break ;
        }
    }
    let f_begin: usize = skip(data, pos + nq, pos + e, Class::Is(0x20)) - pos;
    let f_end: usize = skip_back(data, pos + nq, pos + e - nq, Class::Is(0x20)) - pos;
    if f_begin < f_end {
        wrap(p, out, data, SpanKind::Quote, pos + f_begin, pos + f_end, pos, pos + e);
    } else {
        push_span(
            out,
            Span::Wrapped {
                kind: SpanKind::Quote,
                content: Vec::new(),
                source: copy_range(data, pos, pos + e),
            },
        );
        assert(spans_model(Seq::<Span>::empty()) =~= Seq::<SpanModel>::empty());
    }
    e
}

/// A `^`: superscript, up to the next spacing or within parentheses.
pub fn char_superscript(p: &mut Parser, out: &mut Vec<Span>, data: &[u8], pos: usize, end: usize) -> (n:
    usize)
    requires
        pos < end <= data.len(),
    ensures
        n <= end - pos,
        (Scan { st: final(p)@, out: spans_model(final(out)@), n: n as int }) == spec_superscript(
            old(p)@,
            spans_model(old(out)@),
            data@,
            pos as int,
            end as int,
        ),
    decreases end - pos, 7nat,
{
    let size: usize = end - pos;
    if size < 2 {
        return 0;
    }
    let paren: bool = data[pos + 1] == 0x28;
    let sup_start: usize;
    let sup_len: usize;
    if paren {
        sup_start = 2;
        sup_len = find_emph_char(data, pos + 2, end, 0x29) + 2;
        if sup_len == size {
            return 0;
        }
    } else {
        sup_start = 1;
        sup_len = skip(data, pos + 1, end, Class::NotSpacing) - pos;
    }
    if sup_len - sup_start == 0 {
        return if paren {
            3
        } else {
            0
        };
    }
    let n: usize = if paren {
        sup_len + 1
    } else {
        sup_len
    };
    wrap(p, out, data, SpanKind::Superscript, pos + sup_start, pos + sup_len, pos, pos + n);
    n
}

/// A `!`: an image where a link follows.
pub fn char_image(
    p: &mut Parser,
    out: &mut Vec<Span>,
    data: &[u8],
    pos: usize,
    end: usize,
    offset: usize,
) -> (n: usize)
    requires
        offset <= pos < end <= data.len(),
    ensures
        n <= end - pos,
        (Scan { st: final(p)@, out: spans_model(final(out)@), n: n as int }) == spec_image(
            old(p)@,
            spans_model(old(out)@),
            data@,
            pos as int,
            end as int,
            offset as int,
        ),
    decreases end - pos, 7nat,
{
    if end - pos < 2 || data[pos + 1] != 0x5b {
        return 0;
    }
    let r: usize = char_link(p, out, data, pos + 1, end, offset + 1);
    if r == 0 {
        0
    } else {
        r + 1
    }
}

/// The bytes of an optional text, or none.
fn bytes_or_empty(v: Option<Vec<u8>>) -> (r: Vec<u8>)
    ensures
        r@ == match v {
            Some(t) => t@,
            None => Seq::<u8>::empty(),
        },
{
    match v {
        Some(t) => t,
        None => Vec::new(),
    }
}

/// A `[`: a link, an image or a footnote reference.
#[verifier::rlimit(60)]
pub fn char_link(
    p: &mut Parser,
    out: &mut Vec<Span>,
    data: &[u8],
    pos: usize,
    end: usize,
    offset: usize,
) -> (n: usize)
    requires
        offset <= pos < end <= data.len(),
    ensures
        n <= end - pos,
        (Scan { st: final(p)@, out: spans_model(final(out)@), n: n as int }) == spec_link(
            old(p)@,
            spans_model(old(out)@),
            data@,
            pos as int,
            end as int,
            offset as int,
        ),
    decreases end - pos, 6nat,
{
    let size: usize = end - pos;
    let is_img: bool = offset > 0 && data[pos - 1] == 0x21 && !is_escaped(
        data,
        pos - offset,
        offset - 1,
    );
    let is_footnote: bool = p.on(extensions::FOOTNOTES) && size > 1 && data[pos + 1] == 0x5e;
    let txt_e: usize = 1 + find_emph_char(data, pos + 1, end, 0x5d);
    if !(txt_e < size && data[pos + txt_e] == 0x5d) {
        return 0;
    }
    let i1: usize = txt_e + 1;
    if is_footnote {
        if txt_e < 3 {
            return 0;
        }
        let label = vstd::slice::slice_subrange(data, pos + 2, pos + txt_e);
        match p.find_footnote(label) {
            Some(idx) => {
                if !p.is_used(idx) && p.used.len() < 0x7fff_ffff {
                    let num: u32 = (p.used.len() + 1) as u32;
                    p.mark_used(idx);
                    push_span(out, Span::FootnoteRef { num, source: copy_range(data, pos, pos + i1) });
                    return i1;
                }
            },
            None => {},
        }
        return 0;
    }
    let i2: usize = skip(data, pos + i1, end, Class::Spacing) - pos;
    let target: Target = if i2 < size && data[pos + i2] == 0x28 {
        inline_link(data, pos, end, i2)
    } else {
        reference_link(p, data, pos, end, i2, txt_e)
    };
    if !target.ok {
        return 0;
    }
    let n: usize = target.i;
    let u_link: Vec<u8> = match target.link {
        Some(l) => unscape_text(l.as_slice()),
        None => Vec::new(),
    };
    let title: Vec<u8> = bytes_or_empty(target.title);
    if is_img {
        let alt: Vec<u8> = if txt_e > 1 {
            copy_range(data, pos + 1, pos + txt_e)
        } else {
            Vec::new()
        };
        strip_bang(out);
        push_span(
            out,
            Span::Image { link: u_link, title, alt, source: copy_range(data, pos - 1, pos + n) },
        );
    } else {
        let mut content: Vec<Span> = Vec::new();
        if txt_e > 1 {
            let span_saved: usize = p.span_depth;
            let block_saved: usize = p.block_depth;
            let was: bool = p.in_link_body;
            p.enter_spans(target.bufs + 1);
            p.set_in_link_body(true);
            parse_inline(p, &mut content, data, pos + 1, pos + txt_e);
            p.set_in_link_body(was);
            p.set_depth(span_saved, block_saved);
        } else {
            assert(spans_model(content@) =~= Seq::<SpanModel>::empty());
        }
        push_span(
            out,
            Span::Link { content, link: u_link, title, source: copy_range(data, pos, pos + n) },
        );
    }
    n
}

} // verus!
