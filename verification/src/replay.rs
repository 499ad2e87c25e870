//! Hands a parsed document to a renderer: each construct's content is
//! rendered first, then its callback runs with that content.
//!
//! What a callback does is the renderer's own matter.  The contracts here
//! say which callback runs, on which state of the renderer and of the
//! output, and what it is given: `call_ensures` of a callback stands for
//! whatever that callback ensures.

use vstd::prelude::*;
use crate::buffer::Buffer;
use crate::renderer::Render;
use crate::tree::{
    span_model, spans_model, Block, Cell, Footnote, Row, Span, SpanKind, SpanModel,
};

verus! {

/// A buffer that holds a copy of `bytes`.
pub fn buffer_of(bytes: &Vec<u8>) -> (b: Buffer)
    ensures
        b@ == bytes@,
        b.wf(),
{
    let mut b = Buffer::new(64);
    b.put(bytes.as_slice());
    b
}

/// Whether `b` is a buffer as the driver makes it for the content of a
/// construct: empty, with a growth unit of 64.
pub open spec fn fresh(b: Buffer) -> bool {
    b@ == Seq::<u8>::empty() && b.spec_unit() == 64 && b.spec_units() == 0
}

/// Whether `b` is a valid buffer that holds `bytes`.
pub open spec fn holds(b: Buffer, bytes: Seq<u8>) -> bool {
    b@ == bytes && b.wf()
}

/// The output after a span callback: where the renderer has not handled
/// the span, its markdown follows unchanged.
pub open spec fn fallen(ob: Seq<u8>, handled: bool, source: Seq<u8>) -> Seq<u8> {
    if handled {
        ob
    } else {
        ob + source
    }
}

/// Whether `k` is the index that follows `i`: the step from one state of
/// a render to the next.
pub open spec fn follows(i: int, k: int) -> bool {
    k == i + 1
}

/// The display mode that the math callback is given: 1 for display math,
/// 0 for inline math.
pub open spec fn math_mode(display: bool) -> i32 {
    if display {
        1
    } else {
        0
    }
}

/// Whether no span of `spans` is handed to a renderer: each is text that
/// goes out as it is.
pub open spec fn all_verbatim(spans: Seq<SpanModel>) -> bool {
    forall|i: int| 0 <= i < spans.len() ==> (#[trigger] spans[i]) is Verbatim
}

/// The text of the spans that go out as they are, in order.
pub open spec fn verbatim_text(spans: Seq<SpanModel>) -> Seq<u8>
    decreases spans.len(),
{
    if spans.len() == 0 {
        Seq::empty()
    } else {
        verbatim_text(spans.drop_last()) + (match spans.last() {
            SpanModel::Verbatim { text } => text,
            _ => Seq::empty(),
        })
    }
}

/// The model of a sequence of spans holds the model of each span.
pub proof fn lemma_spans_model_index(v: Seq<Span>, i: int)
    requires
        0 <= i < v.len(),
    ensures
        spans_model(v).len() == v.len(),
        spans_model(v)[i] == span_model(v[i]),
    decreases v.len(),
{
    lemma_spans_model_len(v.drop_last());
    if i < v.len() - 1 {
        lemma_spans_model_index(v.drop_last(), i);
    }
}

/// The model of a sequence of spans is as long as the sequence.
pub proof fn lemma_spans_model_len(v: Seq<Span>)
    ensures
        spans_model(v).len() == v.len(),
    decreases v.len(),
{
    if v.len() > 0 {
        lemma_spans_model_len(v.drop_last());
    }
}

/// What follows a span callback: where the renderer has not handled the
/// span, its markdown goes out unchanged.
pub fn or_source(ob: &mut Buffer, handled: bool, source: &Vec<u8>)
    ensures
        final(ob)@ == fallen(old(ob)@, handled, source@),
        final(ob).spec_unit() == old(ob).spec_unit(),
        old(ob).wf() ==> final(ob).wf(),
{
    if !handled {
        ob.put(source.as_slice());
    }
}

/// Renders one span.
///
/// Plain text goes to `normal_text` and an entity to `entity`.  Text that
/// no callback is for goes out as it is, and the renderer stays as it was.
/// Every other span goes to the callback of its kind, on the output as it
/// came in, with the content of the span.  A span that holds spans has
/// them rendered first, on a buffer of its own, which the callback is
/// given; the others reach their callback on the renderer as it came in.
/// Where the callback says that it has not handled the span, the markdown
/// of the span follows what the callback left in the output.
pub fn render_span<R: Render>(r: &mut R, ob: &mut Buffer, span: &Span)
    ensures
        *span matches Span::Verbatim { text } ==> *final(r) == *old(r) && (*final(ob))@ == (*old(ob))@ + text@,
        *span matches Span::Text { text } ==> exists|a: &mut R, b: &mut Buffer, t: Buffer|
            *a == *old(r) && *final(a) == *final(r) && *b == *old(ob) && *final(b) == *final(ob) && holds(t, text@)
                && #[trigger] call_ensures(R::normal_text, (a, b, &t), ()),
        *span matches Span::Entity { text } ==> exists|a: &mut R, b: &mut Buffer, t: Buffer|
            *a == *old(r) && *final(a) == *final(r) && *b == *old(ob) && *final(b) == *final(ob) && holds(t, text@)
                && #[trigger] call_ensures(R::entity, (a, b, &t), ()),
        *span matches Span::Wrapped { kind, content, source } ==> (kind == SpanKind::Emphasis ==> exists|
            a: &mut R,
            b: &mut Buffer,
            w: Buffer,
            handled: bool,
        |
            *final(a) == *final(r) && *b == *old(ob) && (content@.len() == 0 ==> *a == *old(r) && fresh(w))
                && #[trigger] call_ensures(R::emphasis, (a, b, &w), handled) && (*final(ob))@ == fallen(
                final(b)@,
                handled,
                source@,
            )),
        *span matches Span::Wrapped { kind, content, source } ==> (kind == SpanKind::DoubleEmphasis ==> exists|
            a: &mut R,
            b: &mut Buffer,
            w: Buffer,
            handled: bool,
        |
            *final(a) == *final(r) && *b == *old(ob) && (content@.len() == 0 ==> *a == *old(r) && fresh(w))
                && #[trigger] call_ensures(R::double_emphasis, (a, b, &w), handled) && (*final(ob))@ == fallen(
                final(b)@,
                handled,
                source@,
            )),
        *span matches Span::Wrapped { kind, content, source } ==> (kind == SpanKind::TripleEmphasis ==> exists|
            a: &mut R,
            b: &mut Buffer,
            w: Buffer,
            handled: bool,
        |
            *final(a) == *final(r) && *b == *old(ob) && (content@.len() == 0 ==> *a == *old(r) && fresh(w))
                && #[trigger] call_ensures(R::triple_emphasis, (a, b, &w), handled) && (*final(ob))@ == fallen(
                final(b)@,
                handled,
                source@,
            )),
        *span matches Span::Wrapped { kind, content, source } ==> (kind == SpanKind::Underline ==> exists|
            a: &mut R,
            b: &mut Buffer,
            w: Buffer,
            handled: bool,
        |
            *final(a) == *final(r) && *b == *old(ob) && (content@.len() == 0 ==> *a == *old(r) && fresh(w))
                && #[trigger] call_ensures(R::underline, (a, b, &w), handled) && (*final(ob))@ == fallen(
                final(b)@,
                handled,
                source@,
            )),
        *span matches Span::Wrapped { kind, content, source } ==> (kind == SpanKind::Highlight ==> exists|
            a: &mut R,
            b: &mut Buffer,
            w: Buffer,
            handled: bool,
        |
            *final(a) == *final(r) && *b == *old(ob) && (content@.len() == 0 ==> *a == *old(r) && fresh(w))
                && #[trigger] call_ensures(R::highlight, (a, b, &w), handled) && (*final(ob))@ == fallen(
                final(b)@,
                handled,
                source@,
            )),
        *span matches Span::Wrapped { kind, content, source } ==> (kind == SpanKind::Strikethrough ==> exists|
            a: &mut R,
            b: &mut Buffer,
            w: Buffer,
            handled: bool,
        |
            *final(a) == *final(r) && *b == *old(ob) && (content@.len() == 0 ==> *a == *old(r) && fresh(w))
                && #[trigger] call_ensures(R::strikethrough, (a, b, &w), handled) && (*final(ob))@ == fallen(
                final(b)@,
                handled,
                source@,
            )),
        *span matches Span::Wrapped { kind, content, source } ==> (kind == SpanKind::Superscript ==> exists|
            a: &mut R,
            b: &mut Buffer,
            w: Buffer,
            handled: bool,
        |
            *final(a) == *final(r) && *b == *old(ob) && (content@.len() == 0 ==> *a == *old(r) && fresh(w))
                && #[trigger] call_ensures(R::superscript, (a, b, &w), handled) && (*final(ob))@ == fallen(
                final(b)@,
                handled,
                source@,
            )),
        *span matches Span::Wrapped { kind, content, source } ==> (kind == SpanKind::Quote ==> exists|
            a: &mut R,
            b: &mut Buffer,
            w: Buffer,
            handled: bool,
        |
            *final(a) == *final(r) && *b == *old(ob) && (content@.len() == 0 ==> *a == *old(r) && fresh(w))
                && #[trigger] call_ensures(R::quote_span, (a, b, &w), handled) && (*final(ob))@ == fallen(
                final(b)@,
                handled,
                source@,
            )),
        *span matches Span::CodeSpan { text, source } ==> exists|a: &mut R, b: &mut Buffer, t: Buffer, handled: bool|
            *a == *old(r) && *final(a) == *final(r) && *b == *old(ob) && holds(t, text@) && #[trigger] call_ensures(
                R::code_span,
                (a, b, &t),
                handled,
            ) && (*final(ob))@ == fallen(final(b)@, handled, source@),
        *span matches Span::Math { text, display, source } ==> exists|a: &mut R, b: &mut Buffer, t: Buffer, handled: bool|
            *a == *old(r) && *final(a) == *final(r) && *b == *old(ob) && holds(t, text@) && #[trigger] call_ensures(
                R::math,
                (a, b, &t, math_mode(display)),
                handled,
            ) && (*final(ob))@ == fallen(final(b)@, handled, source@),
        *span matches Span::HtmlSpan { text } ==> exists|a: &mut R, b: &mut Buffer, t: Buffer, handled: bool|
            *a == *old(r) && *final(a) == *final(r) && *b == *old(ob) && holds(t, text@) && #[trigger] call_ensures(
                R::html_span,
                (a, b, &t),
                handled,
            ) && (*final(ob))@ == fallen(final(b)@, handled, text@),
        *span matches Span::LineBreak { source } ==> exists|a: &mut R, b: &mut Buffer, handled: bool|
            *a == *old(r) && *final(a) == *final(r) && *b == *old(ob) && #[trigger] call_ensures(
                R::line_break,
                (a, b),
                handled,
            ) && (*final(ob))@ == fallen(final(b)@, handled, source@),
        *span matches Span::Link { content, link, title, source } ==> exists|
            a: &mut R,
            b: &mut Buffer,
            w: Buffer,
            l: Buffer,
            t: Buffer,
            handled: bool,
        |
            *final(a) == *final(r) && *b == *old(ob) && (content@.len() == 0 ==> *a == *old(r) && fresh(w))
                && holds(l, link@) && holds(t, title@) && #[trigger] call_ensures(
                R::link,
                (a, b, &w, &l, &t),
                handled,
            ) && (*final(ob))@ == fallen(final(b)@, handled, source@),
        *span matches Span::Image { link, title, alt, source } ==> exists|a: &mut R, b: &mut Buffer, l: Buffer, t: Buffer, x: Buffer, handled: bool|
            *a == *old(r) && *final(a) == *final(r) && *b == *old(ob) && holds(l, link@) && holds(t, title@) && holds(x, alt@) && #[trigger] call_ensures(
                R::image,
                (a, b, &l, &t, &x),
                handled,
            ) && (*final(ob))@ == fallen(final(b)@, handled, source@),
        *span matches Span::Auto { link, kind, source } ==> exists|a: &mut R, b: &mut Buffer, l: Buffer, handled: bool|
            *a == *old(r) && *final(a) == *final(r) && *b == *old(ob) && holds(l, link@) && #[trigger] call_ensures(
                R::autolink,
                (a, b, &l, kind),
                handled,
            ) && (*final(ob))@ == fallen(final(b)@, handled, source@),
        *span matches Span::FootnoteRef { num, source } ==> exists|a: &mut R, b: &mut Buffer, handled: bool|
            *a == *old(r) && *final(a) == *final(r) && *b == *old(ob) && #[trigger] call_ensures(
                R::footnote_reference,
                (a, b, num),
                handled,
            ) && (*final(ob))@ == fallen(final(b)@, handled, source@),
    decreases span, 0nat,
{
    match span {
        Span::Text { text } => {
            let t = buffer_of(text);
            r.normal_text(ob, &t);
        },
        Span::Verbatim { text } => {
            ob.put(text.as_slice());
        },
        Span::Entity { text } => {
            let t = buffer_of(text);
            r.entity(ob, &t);
        },
        Span::Wrapped { kind, content, source } => {
            let mut work = Buffer::new(64);
            render_spans(r, &mut work, content);
            let handled: bool = match kind {
                SpanKind::Emphasis => r.emphasis(ob, &work),
                SpanKind::DoubleEmphasis => r.double_emphasis(ob, &work),
                SpanKind::TripleEmphasis => r.triple_emphasis(ob, &work),
                SpanKind::Underline => r.underline(ob, &work),
                SpanKind::Highlight => r.highlight(ob, &work),
                SpanKind::Strikethrough => r.strikethrough(ob, &work),
                SpanKind::Superscript => r.superscript(ob, &work),
                SpanKind::Quote => r.quote_span(ob, &work),
            };
            or_source(ob, handled, source);
        },
        Span::CodeSpan { text, source } => {
            let t = buffer_of(text);
            let handled: bool = r.code_span(ob, &t);
            or_source(ob, handled, source);
        },
        Span::Math { text, display, source } => {
            let t = buffer_of(text);
            let mode: i32 = if *display {
                1
            } else {
                0
            };
            assert(mode == math_mode(*display));
            let handled: bool = r.math(ob, &t, mode);
            or_source(ob, handled, source);
        },
        Span::HtmlSpan { text } => {
            let t = buffer_of(text);
            let handled: bool = r.html_span(ob, &t);
            or_source(ob, handled, text);
        },
        Span::LineBreak { source } => {
            let handled: bool = r.line_break(ob);
            or_source(ob, handled, source);
        },
        Span::Link { content, link, title, source } => {
            let mut work = Buffer::new(64);
            render_spans(r, &mut work, content);
            let l = buffer_of(link);
            let t = buffer_of(title);
            let handled: bool = r.link(ob, &work, &l, &t);
            or_source(ob, handled, source);
        },
        Span::Image { link, title, alt, source } => {
            let l = buffer_of(link);
            let t = buffer_of(title);
            let a = buffer_of(alt);
            let handled: bool = r.image(ob, &l, &t, &a);
            or_source(ob, handled, source);
        },
        Span::Auto { link, kind, source } => {
            let l = buffer_of(link);
            let handled: bool = r.autolink(ob, &l, *kind);
            or_source(ob, handled, source);
        },
        Span::FootnoteRef { num, source } => {
            let handled: bool = r.footnote_reference(ob, *num);
            or_source(ob, handled, source);
        },
    }
}

/// Renders the spans in order: each as [`render_span`] renders it, on the
/// renderer and the output as the one before it left them.  Where none of
/// them is handed to the renderer, the text of all goes out and the
/// renderer stays as it was.
pub fn render_spans<R: Render>(r: &mut R, ob: &mut Buffer, spans: &Vec<Span>)
    ensures
        spans@.len() == 0 ==> *final(r) == *old(r) && *final(ob) == *old(ob),
        all_verbatim(spans_model(spans@)) ==> *final(r) == *old(r) && final(ob)@ == old(ob)@
            + verbatim_text(spans_model(spans@)),
        exists|rs: Seq<R>, obs: Seq<Buffer>|
            rs.len() == spans@.len() + 1 && obs.len() == spans@.len() + 1 && rs[0] == *old(r)
                && rs[spans@.len() as int] == *final(r) && obs[0] == *old(ob)
                && obs[spans@.len() as int] == *final(ob) && (
            forall|i: int, k: int|
                #![trigger follows(i, k)]
                0 <= i < spans@.len() && follows(i, k) ==> {
                &&& (spans@[i] matches Span::Verbatim { text } ==> rs[k] == rs[i] && (obs[k])@ == (obs[i])@ + text@)
                &&& (spans@[i] matches Span::Text { text } ==> exists|a: &mut R, b: &mut Buffer, t: Buffer|
                        *a == rs[i] && *final(a) == rs[k] && *b == obs[i] && *final(b) == obs[k] && holds(t, text@)
                            && #[trigger] call_ensures(R::normal_text, (a, b, &t), ()))
                &&& (spans@[i] matches Span::Entity { text } ==> exists|a: &mut R, b: &mut Buffer, t: Buffer|
                        *a == rs[i] && *final(a) == rs[k] && *b == obs[i] && *final(b) == obs[k] && holds(t, text@)
                            && #[trigger] call_ensures(R::entity, (a, b, &t), ()))
                &&& (spans@[i] matches Span::Wrapped { kind, content, source } ==> (kind == SpanKind::Emphasis ==> exists|
                        a: &mut R,
                        b: &mut Buffer,
                        w: Buffer,
                        handled: bool,
                    |
                        *final(a) == rs[k] && *b == obs[i] && (content@.len() == 0 ==> *a == rs[i] && fresh(w))
                            && #[trigger] call_ensures(R::emphasis, (a, b, &w), handled) && (obs[k])@ == fallen(
                            final(b)@,
                            handled,
                            source@,
                        )))
                &&& (spans@[i] matches Span::Wrapped { kind, content, source } ==> (kind == SpanKind::DoubleEmphasis ==> exists|
                        a: &mut R,
                        b: &mut Buffer,
                        w: Buffer,
                        handled: bool,
                    |
                        *final(a) == rs[k] && *b == obs[i] && (content@.len() == 0 ==> *a == rs[i] && fresh(w))
                            && #[trigger] call_ensures(R::double_emphasis, (a, b, &w), handled) && (obs[k])@ == fallen(
                            final(b)@,
                            handled,
                            source@,
                        )))
                &&& (spans@[i] matches Span::Wrapped { kind, content, source } ==> (kind == SpanKind::TripleEmphasis ==> exists|
                        a: &mut R,
                        b: &mut Buffer,
                        w: Buffer,
                        handled: bool,
                    |
                        *final(a) == rs[k] && *b == obs[i] && (content@.len() == 0 ==> *a == rs[i] && fresh(w))
                            && #[trigger] call_ensures(R::triple_emphasis, (a, b, &w), handled) && (obs[k])@ == fallen(
                            final(b)@,
                            handled,
                            source@,
                        )))
                &&& (spans@[i] matches Span::Wrapped { kind, content, source } ==> (kind == SpanKind::Underline ==> exists|
                        a: &mut R,
                        b: &mut Buffer,
                        w: Buffer,
                        handled: bool,
                    |
                        *final(a) == rs[k] && *b == obs[i] && (content@.len() == 0 ==> *a == rs[i] && fresh(w))
                            && #[trigger] call_ensures(R::underline, (a, b, &w), handled) && (obs[k])@ == fallen(
                            final(b)@,
                            handled,
                            source@,
                        )))
                &&& (spans@[i] matches Span::Wrapped { kind, content, source } ==> (kind == SpanKind::Highlight ==> exists|
                        a: &mut R,
                        b: &mut Buffer,
                        w: Buffer,
                        handled: bool,
                    |
                        *final(a) == rs[k] && *b == obs[i] && (content@.len() == 0 ==> *a == rs[i] && fresh(w))
                            && #[trigger] call_ensures(R::highlight, (a, b, &w), handled) && (obs[k])@ == fallen(
                            final(b)@,
                            handled,
                            source@,
                        )))
                &&& (spans@[i] matches Span::Wrapped { kind, content, source } ==> (kind == SpanKind::Strikethrough ==> exists|
                        a: &mut R,
                        b: &mut Buffer,
                        w: Buffer,
                        handled: bool,
                    |
                        *final(a) == rs[k] && *b == obs[i] && (content@.len() == 0 ==> *a == rs[i] && fresh(w))
                            && #[trigger] call_ensures(R::strikethrough, (a, b, &w), handled) && (obs[k])@ == fallen(
                            final(b)@,
                            handled,
                            source@,
                        )))
                &&& (spans@[i] matches Span::Wrapped { kind, content, source } ==> (kind == SpanKind::Superscript ==> exists|
                        a: &mut R,
                        b: &mut Buffer,
                        w: Buffer,
                        handled: bool,
                    |
                        *final(a) == rs[k] && *b == obs[i] && (content@.len() == 0 ==> *a == rs[i] && fresh(w))
                            && #[trigger] call_ensures(R::superscript, (a, b, &w), handled) && (obs[k])@ == fallen(
                            final(b)@,
                            handled,
                            source@,
                        )))
                &&& (spans@[i] matches Span::Wrapped { kind, content, source } ==> (kind == SpanKind::Quote ==> exists|
                        a: &mut R,
                        b: &mut Buffer,
                        w: Buffer,
                        handled: bool,
                    |
                        *final(a) == rs[k] && *b == obs[i] && (content@.len() == 0 ==> *a == rs[i] && fresh(w))
                            && #[trigger] call_ensures(R::quote_span, (a, b, &w), handled) && (obs[k])@ == fallen(
                            final(b)@,
                            handled,
                            source@,
                        )))
                &&& (spans@[i] matches Span::CodeSpan { text, source } ==> exists|a: &mut R, b: &mut Buffer, t: Buffer, handled: bool|
                        *a == rs[i] && *final(a) == rs[k] && *b == obs[i] && holds(t, text@) && #[trigger] call_ensures(
                            R::code_span,
                            (a, b, &t),
                            handled,
                        ) && (obs[k])@ == fallen(final(b)@, handled, source@))
                &&& (spans@[i] matches Span::Math { text, display, source } ==> exists|a: &mut R, b: &mut Buffer, t: Buffer, handled: bool|
                        *a == rs[i] && *final(a) == rs[k] && *b == obs[i] && holds(t, text@) && #[trigger] call_ensures(
                            R::math,
                            (a, b, &t, math_mode(display)),
                            handled,
                        ) && (obs[k])@ == fallen(final(b)@, handled, source@))
                &&& (spans@[i] matches Span::HtmlSpan { text } ==> exists|a: &mut R, b: &mut Buffer, t: Buffer, handled: bool|
                        *a == rs[i] && *final(a) == rs[k] && *b == obs[i] && holds(t, text@) && #[trigger] call_ensures(
                            R::html_span,
                            (a, b, &t),
                            handled,
                        ) && (obs[k])@ == fallen(final(b)@, handled, text@))
                &&& (spans@[i] matches Span::LineBreak { source } ==> exists|a: &mut R, b: &mut Buffer, handled: bool|
                        *a == rs[i] && *final(a) == rs[k] && *b == obs[i] && #[trigger] call_ensures(
                            R::line_break,
                            (a, b),
                            handled,
                        ) && (obs[k])@ == fallen(final(b)@, handled, source@))
                &&& (spans@[i] matches Span::Link { content, link, title, source } ==> exists|
                        a: &mut R,
                        b: &mut Buffer,
                        w: Buffer,
                        l: Buffer,
                        t: Buffer,
                        handled: bool,
                    |
                        *final(a) == rs[k] && *b == obs[i] && (content@.len() == 0 ==> *a == rs[i] && fresh(w))
                            && holds(l, link@) && holds(t, title@) && #[trigger] call_ensures(
                            R::link,
                            (a, b, &w, &l, &t),
                            handled,
                        ) && (obs[k])@ == fallen(final(b)@, handled, source@))
                &&& (spans@[i] matches Span::Image { link, title, alt, source } ==> exists|a: &mut R, b: &mut Buffer, l: Buffer, t: Buffer, x: Buffer, handled: bool|
                        *a == rs[i] && *final(a) == rs[k] && *b == obs[i] && holds(l, link@) && holds(t, title@) && holds(x, alt@) && #[trigger] call_ensures(
                            R::image,
                            (a, b, &l, &t, &x),
                            handled,
                        ) && (obs[k])@ == fallen(final(b)@, handled, source@))
                &&& (spans@[i] matches Span::Auto { link, kind, source } ==> exists|a: &mut R, b: &mut Buffer, l: Buffer, handled: bool|
                        *a == rs[i] && *final(a) == rs[k] && *b == obs[i] && holds(l, link@) && #[trigger] call_ensures(
                            R::autolink,
                            (a, b, &l, kind),
                            handled,
                        ) && (obs[k])@ == fallen(final(b)@, handled, source@))
                &&& (spans@[i] matches Span::FootnoteRef { num, source } ==> exists|a: &mut R, b: &mut Buffer, handled: bool|
                        *a == rs[i] && *final(a) == rs[k] && *b == obs[i] && #[trigger] call_ensures(
                            R::footnote_reference,
                            (a, b, num),
                            handled,
                        ) && (obs[k])@ == fallen(final(b)@, handled, source@))
                }),
    decreases spans, 1nat,
{
    let mut i: usize = 0;
    let ghost mut rs: Seq<R> = seq![*r];
    let ghost mut obs: Seq<Buffer> = seq![*ob];
    assert(spans@.subrange(0, 0) =~= Seq::<Span>::empty());
    while i < spans.len()
        invariant
            i <= spans.len(),
            rs.len() == i + 1,
            obs.len() == i + 1,
            rs[0] == *old(r),
            obs[0] == *old(ob),
            rs[i as int] == *r,
            obs[i as int] == *ob,
            forall|j: int, m: int|
                #![trigger follows(j, m)]
                0 <= j < i && follows(j, m) ==> {
                &&& (spans@[j] matches Span::Verbatim { text } ==> rs[m] == rs[j] && (obs[m])@ == (obs[j])@ + text@)
                &&& (spans@[j] matches Span::Text { text } ==> exists|a: &mut R, b: &mut Buffer, t: Buffer|
                        *a == rs[j] && *final(a) == rs[m] && *b == obs[j] && *final(b) == obs[m] && holds(t, text@)
                            && #[trigger] call_ensures(R::normal_text, (a, b, &t), ()))
                &&& (spans@[j] matches Span::Entity { text } ==> exists|a: &mut R, b: &mut Buffer, t: Buffer|
                        *a == rs[j] && *final(a) == rs[m] && *b == obs[j] && *final(b) == obs[m] && holds(t, text@)
                            && #[trigger] call_ensures(R::entity, (a, b, &t), ()))
                &&& (spans@[j] matches Span::Wrapped { kind, content, source } ==> (kind == SpanKind::Emphasis ==> exists|
                        a: &mut R,
                        b: &mut Buffer,
                        w: Buffer,
                        handled: bool,
                    |
                        *final(a) == rs[m] && *b == obs[j] && (content@.len() == 0 ==> *a == rs[j] && fresh(w))
                            && #[trigger] call_ensures(R::emphasis, (a, b, &w), handled) && (obs[m])@ == fallen(
                            final(b)@,
                            handled,
                            source@,
                        )))
                &&& (spans@[j] matches Span::Wrapped { kind, content, source } ==> (kind == SpanKind::DoubleEmphasis ==> exists|
                        a: &mut R,
                        b: &mut Buffer,
                        w: Buffer,
                        handled: bool,
                    |
                        *final(a) == rs[m] && *b == obs[j] && (content@.len() == 0 ==> *a == rs[j] && fresh(w))
                            && #[trigger] call_ensures(R::double_emphasis, (a, b, &w), handled) && (obs[m])@ == fallen(
                            final(b)@,
                            handled,
                            source@,
                        )))
                &&& (spans@[j] matches Span::Wrapped { kind, content, source } ==> (kind == SpanKind::TripleEmphasis ==> exists|
                        a: &mut R,
                        b: &mut Buffer,
                        w: Buffer,
                        handled: bool,
                    |
                        *final(a) == rs[m] && *b == obs[j] && (content@.len() == 0 ==> *a == rs[j] && fresh(w))
                            && #[trigger] call_ensures(R::triple_emphasis, (a, b, &w), handled) && (obs[m])@ == fallen(
                            final(b)@,
                            handled,
                            source@,
                        )))
                &&& (spans@[j] matches Span::Wrapped { kind, content, source } ==> (kind == SpanKind::Underline ==> exists|
                        a: &mut R,
                        b: &mut Buffer,
                        w: Buffer,
                        handled: bool,
                    |
                        *final(a) == rs[m] && *b == obs[j] && (content@.len() == 0 ==> *a == rs[j] && fresh(w))
                            && #[trigger] call_ensures(R::underline, (a, b, &w), handled) && (obs[m])@ == fallen(
                            final(b)@,
                            handled,
                            source@,
                        )))
                &&& (spans@[j] matches Span::Wrapped { kind, content, source } ==> (kind == SpanKind::Highlight ==> exists|
                        a: &mut R,
                        b: &mut Buffer,
                        w: Buffer,
                        handled: bool,
                    |
                        *final(a) == rs[m] && *b == obs[j] && (content@.len() == 0 ==> *a == rs[j] && fresh(w))
                            && #[trigger] call_ensures(R::highlight, (a, b, &w), handled) && (obs[m])@ == fallen(
                            final(b)@,
                            handled,
                            source@,
                        )))
                &&& (spans@[j] matches Span::Wrapped { kind, content, source } ==> (kind == SpanKind::Strikethrough ==> exists|
                        a: &mut R,
                        b: &mut Buffer,
                        w: Buffer,
                        handled: bool,
                    |
                        *final(a) == rs[m] && *b == obs[j] && (content@.len() == 0 ==> *a == rs[j] && fresh(w))
                            && #[trigger] call_ensures(R::strikethrough, (a, b, &w), handled) && (obs[m])@ == fallen(
                            final(b)@,
                            handled,
                            source@,
                        )))
                &&& (spans@[j] matches Span::Wrapped { kind, content, source } ==> (kind == SpanKind::Superscript ==> exists|
                        a: &mut R,
                        b: &mut Buffer,
                        w: Buffer,
                        handled: bool,
                    |
                        *final(a) == rs[m] && *b == obs[j] && (content@.len() == 0 ==> *a == rs[j] && fresh(w))
                            && #[trigger] call_ensures(R::superscript, (a, b, &w), handled) && (obs[m])@ == fallen(
                            final(b)@,
                            handled,
                            source@,
                        )))
                &&& (spans@[j] matches Span::Wrapped { kind, content, source } ==> (kind == SpanKind::Quote ==> exists|
                        a: &mut R,
                        b: &mut Buffer,
                        w: Buffer,
                        handled: bool,
                    |
                        *final(a) == rs[m] && *b == obs[j] && (content@.len() == 0 ==> *a == rs[j] && fresh(w))
                            && #[trigger] call_ensures(R::quote_span, (a, b, &w), handled) && (obs[m])@ == fallen(
                            final(b)@,
                            handled,
                            source@,
                        )))
                &&& (spans@[j] matches Span::CodeSpan { text, source } ==> exists|a: &mut R, b: &mut Buffer, t: Buffer, handled: bool|
                        *a == rs[j] && *final(a) == rs[m] && *b == obs[j] && holds(t, text@) && #[trigger] call_ensures(
                            R::code_span,
                            (a, b, &t),
                            handled,
                        ) && (obs[m])@ == fallen(final(b)@, handled, source@))
                &&& (spans@[j] matches Span::Math { text, display, source } ==> exists|a: &mut R, b: &mut Buffer, t: Buffer, handled: bool|
                        *a == rs[j] && *final(a) == rs[m] && *b == obs[j] && holds(t, text@) && #[trigger] call_ensures(
                            R::math,
                            (a, b, &t, math_mode(display)),
                            handled,
                        ) && (obs[m])@ == fallen(final(b)@, handled, source@))
                &&& (spans@[j] matches Span::HtmlSpan { text } ==> exists|a: &mut R, b: &mut Buffer, t: Buffer, handled: bool|
                        *a == rs[j] && *final(a) == rs[m] && *b == obs[j] && holds(t, text@) && #[trigger] call_ensures(
                            R::html_span,
                            (a, b, &t),
                            handled,
                        ) && (obs[m])@ == fallen(final(b)@, handled, text@))
                &&& (spans@[j] matches Span::LineBreak { source } ==> exists|a: &mut R, b: &mut Buffer, handled: bool|
                        *a == rs[j] && *final(a) == rs[m] && *b == obs[j] && #[trigger] call_ensures(
                            R::line_break,
                            (a, b),
                            handled,
                        ) && (obs[m])@ == fallen(final(b)@, handled, source@))
                &&& (spans@[j] matches Span::Link { content, link, title, source } ==> exists|
                        a: &mut R,
                        b: &mut Buffer,
                        w: Buffer,
                        l: Buffer,
                        t: Buffer,
                        handled: bool,
                    |
                        *final(a) == rs[m] && *b == obs[j] && (content@.len() == 0 ==> *a == rs[j] && fresh(w))
                            && holds(l, link@) && holds(t, title@) && #[trigger] call_ensures(
                            R::link,
                            (a, b, &w, &l, &t),
                            handled,
                        ) && (obs[m])@ == fallen(final(b)@, handled, source@))
                &&& (spans@[j] matches Span::Image { link, title, alt, source } ==> exists|a: &mut R, b: &mut Buffer, l: Buffer, t: Buffer, x: Buffer, handled: bool|
                        *a == rs[j] && *final(a) == rs[m] && *b == obs[j] && holds(l, link@) && holds(t, title@) && holds(x, alt@) && #[trigger] call_ensures(
                            R::image,
                            (a, b, &l, &t, &x),
                            handled,
                        ) && (obs[m])@ == fallen(final(b)@, handled, source@))
                &&& (spans@[j] matches Span::Auto { link, kind, source } ==> exists|a: &mut R, b: &mut Buffer, l: Buffer, handled: bool|
                        *a == rs[j] && *final(a) == rs[m] && *b == obs[j] && holds(l, link@) && #[trigger] call_ensures(
                            R::autolink,
                            (a, b, &l, kind),
                            handled,
                        ) && (obs[m])@ == fallen(final(b)@, handled, source@))
                &&& (spans@[j] matches Span::FootnoteRef { num, source } ==> exists|a: &mut R, b: &mut Buffer, handled: bool|
                        *a == rs[j] && *final(a) == rs[m] && *b == obs[j] && #[trigger] call_ensures(
                            R::footnote_reference,
                            (a, b, num),
                            handled,
                        ) && (obs[m])@ == fallen(final(b)@, handled, source@))
                },
            all_verbatim(spans_model(spans@)) ==> *r == *old(r) && ob@ == old(ob)@
                + verbatim_text(spans_model(spans@.subrange(0, i as int))),
        decreases spans.len() - i,
    {
        let ghost rs0 = rs;
        let ghost obs0 = obs;
        proof {
            let next = spans@.subrange(0, i + 1);
            assert(next.drop_last() =~= spans@.subrange(0, i as int));
            assert(next.last() == spans@[i as int]);
            assert(spans_model(next).drop_last() =~= spans_model(spans@.subrange(0, i as int)));
            lemma_spans_model_index(spans@, i as int);
        }
        render_span(r, ob, &spans[i]);
        proof {
            rs = rs0.push(*r);
            obs = obs0.push(*ob);
            assert(forall|j: int| 0 <= j <= i ==> rs[j] == rs0[j] && obs[j] == obs0[j]);
        }
        i += 1;
    }
    assert(spans@.subrange(0, spans@.len() as int) =~= spans@);
}

/// Renders one cell of a table: its content on a buffer of its own, then
/// the cell's callback on that content and the flags of the cell.
pub fn render_cell<R: Render>(r: &mut R, ob: &mut Buffer, cell: &Cell)
    ensures
        exists|a0: &mut R, w: &mut Buffer, a: &mut R, b: &mut Buffer|
            *a0 == *old(r) && fresh(*w) && #[trigger] call_ensures(
                render_spans::<R>,
                (a0, w, &cell.content),
                (),
            ) && *a == *final(a0) && *final(a) == *final(r) && *b == *old(ob) && *final(b)
                == *final(ob) && #[trigger] call_ensures(
                R::table_cell,
                (a, b, &*final(w), cell.flags),
                (),
            ),
{
    let mut work = Buffer::new(64);
    render_spans(r, &mut work, &cell.content);
    r.table_cell(ob, &work, cell.flags);
}

/// Renders the cells of a row in order.
pub fn render_cells<R: Render>(r: &mut R, ob: &mut Buffer, cells: &Vec<Cell>)
    ensures
        cells@.len() == 0 ==> *final(r) == *old(r) && *final(ob) == *old(ob),
        exists|rs: Seq<R>, obs: Seq<Buffer>|
            rs.len() == cells@.len() + 1 && obs.len() == cells@.len() + 1 && rs[0] == *old(r)
                && rs[cells@.len() as int] == *final(r) && obs[0] == *old(ob)
                && obs[cells@.len() as int] == *final(ob) && forall|i: int, k: int|
                #![trigger follows(i, k)]
                0 <= i < cells@.len() && follows(i, k) ==> exists|a: &mut R, b: &mut Buffer|
                    *a == rs[i] && *final(a) == rs[k] && *b == obs[i] && *final(b) == obs[k]
                        && #[trigger] call_ensures(render_cell::<R>, (a, b, &cells@[i]), ()),
{
    let mut i: usize = 0;
    let ghost mut rs: Seq<R> = seq![*r];
    let ghost mut obs: Seq<Buffer> = seq![*ob];
    while i < cells.len()
        invariant
            i <= cells.len(),
            rs.len() == i + 1,
            obs.len() == i + 1,
            rs[0] == *old(r),
            obs[0] == *old(ob),
            rs[i as int] == *r,
            obs[i as int] == *ob,
            forall|j: int, m: int|
                #![trigger follows(j, m)]
                0 <= j < i && follows(j, m) ==> exists|a: &mut R, b: &mut Buffer|
                    *a == rs[j] && *final(a) == rs[m] && *b == obs[j] && *final(b) == obs[m]
                        && #[trigger] call_ensures(render_cell::<R>, (a, b, &cells@[j]), ()),
        decreases cells.len() - i,
    {
        let ghost rs0 = rs;
        let ghost obs0 = obs;
        let ghost r0 = *r;
        let ghost ob0 = *ob;
        render_cell(r, ob, &cells[i]);
        proof {
            rs = rs0.push(*r);
            obs = obs0.push(*ob);
            assert(exists|a: &mut R, b: &mut Buffer|
                *a == r0 && *final(a) == *r && *b == ob0 && *final(b) == *ob
                    && #[trigger] call_ensures(render_cell::<R>, (a, b, &cells@[i as int]), ()));
            assert forall|j: int, m: int|
                #![trigger follows(j, m)]
                0 <= j < i + 1 && follows(j, m) implies exists|a: &mut R, b: &mut Buffer|
                *a == rs[j] && *final(a) == rs[m] && *b == obs[j] && *final(b) == obs[m]
                    && #[trigger] call_ensures(render_cell::<R>, (a, b, &cells@[j]), ()) by {
                if j < i {
                    assert(rs[j] == rs0[j] && rs[m] == rs0[m]);
                    assert(obs[j] == obs0[j] && obs[m] == obs0[m]);
                } else {
                    assert(rs[j] == r0 && rs[m] == *r && obs[j] == ob0 && obs[m] == *ob);
                }
            }
        }
        i += 1;
    }
}

/// Renders one row of a table: its cells on a buffer of its own, then the
/// row's callback on them.
pub fn render_row<R: Render>(r: &mut R, ob: &mut Buffer, row: &Row)
    ensures
        exists|a0: &mut R, w: &mut Buffer, a: &mut R, b: &mut Buffer|
            *a0 == *old(r) && fresh(*w) && #[trigger] call_ensures(
                render_cells::<R>,
                (a0, w, &row.cells),
                (),
            ) && *a == *final(a0) && *final(a) == *final(r) && *b == *old(ob) && *final(b)
                == *final(ob) && #[trigger] call_ensures(R::table_row, (a, b, &*final(w)), ()),
{
    let mut work = Buffer::new(64);
    render_cells(r, &mut work, &row.cells);
    r.table_row(ob, &work);
}

/// Renders the rows of a table in order: each cell's callback runs on its
/// rendered content, then the row's callback on its cells.  Without rows
/// no callback runs and nothing changes.
pub fn render_rows<R: Render>(r: &mut R, ob: &mut Buffer, rows: &Vec<Row>)
    ensures
        rows@.len() == 0 ==> *final(r) == *old(r) && *final(ob) == *old(ob),
        exists|rs: Seq<R>, obs: Seq<Buffer>|
            rs.len() == rows@.len() + 1 && obs.len() == rows@.len() + 1 && rs[0] == *old(r)
                && rs[rows@.len() as int] == *final(r) && obs[0] == *old(ob)
                && obs[rows@.len() as int] == *final(ob) && forall|i: int, k: int|
                #![trigger follows(i, k)]
                0 <= i < rows@.len() && follows(i, k) ==> exists|a: &mut R, b: &mut Buffer|
                    *a == rs[i] && *final(a) == rs[k] && *b == obs[i] && *final(b) == obs[k]
                        && #[trigger] call_ensures(render_row::<R>, (a, b, &rows@[i]), ()),
{
    let mut i: usize = 0;
    let ghost mut rs: Seq<R> = seq![*r];
    let ghost mut obs: Seq<Buffer> = seq![*ob];
    while i < rows.len()
        invariant
            i <= rows.len(),
            rs.len() == i + 1,
            obs.len() == i + 1,
            rs[0] == *old(r),
            obs[0] == *old(ob),
            rs[i as int] == *r,
            obs[i as int] == *ob,
            forall|j: int, m: int|
                #![trigger follows(j, m)]
                0 <= j < i && follows(j, m) ==> exists|a: &mut R, b: &mut Buffer|
                    *a == rs[j] && *final(a) == rs[m] && *b == obs[j] && *final(b) == obs[m]
                        && #[trigger] call_ensures(render_row::<R>, (a, b, &rows@[j]), ()),
        decreases rows.len() - i,
    {
        let ghost rs0 = rs;
        let ghost obs0 = obs;
        let ghost r0 = *r;
        let ghost ob0 = *ob;
        render_row(r, ob, &rows[i]);
        proof {
            rs = rs0.push(*r);
            obs = obs0.push(*ob);
            assert(exists|a: &mut R, b: &mut Buffer|
                *a == r0 && *final(a) == *r && *b == ob0 && *final(b) == *ob
                    && #[trigger] call_ensures(render_row::<R>, (a, b, &rows@[i as int]), ()));
            assert forall|j: int, m: int|
                #![trigger follows(j, m)]
                0 <= j < i + 1 && follows(j, m) implies exists|a: &mut R, b: &mut Buffer|
                *a == rs[j] && *final(a) == rs[m] && *b == obs[j] && *final(b) == obs[m]
                    && #[trigger] call_ensures(render_row::<R>, (a, b, &rows@[j]), ()) by {
                if j < i {
                    assert(rs[j] == rs0[j] && rs[m] == rs0[m]);
                    assert(obs[j] == obs0[j] && obs[m] == obs0[m]);
                } else {
                    assert(rs[j] == r0 && rs[m] == *r && obs[j] == ob0 && obs[m] == *ob);
                }
            }
        }
        i += 1;
    }
}

/// Renders one block: its content is rendered first, on a buffer of its
/// own, then the callback of the block runs on the output as it came in,
/// with that content and what else the block holds.
///
/// The content of a paragraph, of a header and of a table, and the
/// leading text of a list item, are rendered on the renderer as it came
/// in.  A code block and an HTML block reach their callback with their
/// text as it stands in the document.
pub fn render_block<R: Render>(r: &mut R, ob: &mut Buffer, block: &Block)
    ensures
        *block matches Block::Paragraph { content } ==> exists|
            a0: &mut R,
            w: &mut Buffer,
            a: &mut R,
            b: &mut Buffer,
        |
            *a0 == *old(r) && fresh(*w) && #[trigger] call_ensures(render_spans::<R>, (a0, w, &content), ())
                && *a == *final(a0) && *final(a) == *final(r) && *b == *old(ob) && *final(b) == *final(ob)
                && #[trigger] call_ensures(R::paragraph, (a, b, &*final(w)), ()),
        *block matches Block::Header { content, level } ==> exists|
            a0: &mut R,
            w: &mut Buffer,
            a: &mut R,
            b: &mut Buffer,
        |
            *a0 == *old(r) && fresh(*w) && #[trigger] call_ensures(render_spans::<R>, (a0, w, &content), ())
                && *a == *final(a0) && *final(a) == *final(r) && *b == *old(ob) && *final(b) == *final(ob)
                && #[trigger] call_ensures(R::header, (a, b, &*final(w), level), ()),
        *block matches Block::HorizontalRule ==> exists|a: &mut R, b: &mut Buffer|
            *a == *old(r) && *final(a) == *final(r) && *b == *old(ob) && *final(b) == *final(ob)
                && #[trigger] call_ensures(R::horizontal_rule, (a, b), ()),
        *block matches Block::QuoteBlock { content } ==> exists|a: &mut R, b: &mut Buffer, w: Buffer|
            *final(a) == *final(r) && *b == *old(ob) && *final(b) == *final(ob) && (content@.len() == 0 ==> *a == *old(r)
                && fresh(w)) && #[trigger] call_ensures(R::quote_block, (a, b, &w), ()),
        *block matches Block::CodeBlock { text, lang } ==> exists|a: &mut R, b: &mut Buffer, t: Buffer, l: Buffer|
            *a == *old(r) && *final(a) == *final(r) && *b == *old(ob) && *final(b) == *final(ob) && holds(t, text@) && holds(l, lang@)
                && #[trigger] call_ensures(R::code_block, (a, b, &t, &l), ()),
        *block matches Block::HtmlBlock { text } ==> exists|a: &mut R, b: &mut Buffer, t: Buffer|
            *a == *old(r) && *final(a) == *final(r) && *b == *old(ob) && *final(b) == *final(ob) && holds(t, text@)
                && #[trigger] call_ensures(R::html_block, (a, b, &t), ()),
        *block matches Block::List { items, flags } ==> exists|a: &mut R, b: &mut Buffer, w: Buffer|
            *final(a) == *final(r) && *b == *old(ob) && *final(b) == *final(ob) && (items@.len() == 0 ==> *a == *old(r)
                && fresh(w)) && #[trigger] call_ensures(R::list, (a, b, &w, flags), ()),
        *block matches Block::ListItem { spans, blocks, flags } ==> exists|
            a0: &mut R,
            w0: &mut Buffer,
            a: &mut R,
            b: &mut Buffer,
            w: Buffer,
        |
            *a0 == *old(r) && fresh(*w0) && #[trigger] call_ensures(render_spans::<R>, (a0, w0, &spans), ())
                && (blocks@.len() == 0 ==> *a == *final(a0) && w == *final(w0)) && *final(a) == *final(r)
                && *b == *old(ob) && *final(b) == *final(ob) && #[trigger] call_ensures(
                R::list_item,
                (a, b, &w, flags),
                (),
            ),
        *block matches Block::Table { header, body } ==> exists|
            a0: &mut R,
            hw: &mut Buffer,
            a1: &mut R,
            bw: &mut Buffer,
            a2: &mut R,
            w2: &mut Buffer,
            a3: &mut R,
            w3: &mut Buffer,
            a: &mut R,
            b: &mut Buffer,
        |
            *a0 == *old(r) && fresh(*hw) && #[trigger] call_ensures(render_rows::<R>, (a0, hw, &header), ())
                && *a1 == *final(a0) && fresh(*bw) && #[trigger] call_ensures(
                render_rows::<R>,
                (a1, bw, &body),
                (),
            ) && *a2 == *final(a1) && fresh(*w2) && #[trigger] call_ensures(
                R::table_header,
                (a2, w2, &*final(hw)),
                (),
            ) && *a3 == *final(a2) && *w3 == *final(w2) && #[trigger] call_ensures(
                R::table_body,
                (a3, w3, &*final(bw)),
                (),
            ) && *a == *final(a3) && *final(a) == *final(r) && *b == *old(ob) && *final(b) == *final(ob)
                && #[trigger] call_ensures(R::table, (a, b, &*final(w3)), ()),
    decreases block, 0nat,
{
    match block {
        Block::Paragraph { content } => {
            let mut work = Buffer::new(64);
            render_spans(r, &mut work, content);
            r.paragraph(ob, &work);
        },
        Block::Header { content, level } => {
            let mut work = Buffer::new(64);
            render_spans(r, &mut work, content);
            r.header(ob, &work, *level);
        },
        Block::HorizontalRule => {
            r.horizontal_rule(ob);
        },
        Block::QuoteBlock { content } => {
            let mut work = Buffer::new(64);
            render_blocks(r, &mut work, content);
            r.quote_block(ob, &work);
        },
        Block::CodeBlock { text, lang } => {
            let t = buffer_of(text);
            let l = buffer_of(lang);
            r.code_block(ob, &t, &l);
        },
        Block::HtmlBlock { text } => {
            let t = buffer_of(text);
            r.html_block(ob, &t);
        },
        Block::List { items, flags } => {
            let mut work = Buffer::new(64);
            render_blocks(r, &mut work, items);
            r.list(ob, &work, *flags);
        },
        Block::ListItem { spans, blocks, flags } => {
            let mut work = Buffer::new(64);
            render_spans(r, &mut work, spans);
            render_blocks(r, &mut work, blocks);
            r.list_item(ob, &work, *flags);
        },
        Block::Table { header, body } => {
            let mut work = Buffer::new(64);
            let mut header_work = Buffer::new(64);
            render_rows(r, &mut header_work, header);
            let mut body_work = Buffer::new(64);
            render_rows(r, &mut body_work, body);
            r.table_header(&mut work, &header_work);
            r.table_body(&mut work, &body_work);
            r.table(ob, &work);
        },
    }
}

/// Renders the blocks in order: each as [`render_block`] renders it, on
/// the renderer and the output as the one before it left them.  Without
/// blocks no callback runs and nothing changes.
pub fn render_blocks<R: Render>(r: &mut R, ob: &mut Buffer, blocks: &Vec<Block>)
    ensures
        blocks@.len() == 0 ==> *final(r) == *old(r) && *final(ob) == *old(ob),
        exists|rs: Seq<R>, obs: Seq<Buffer>|
            rs.len() == blocks@.len() + 1 && obs.len() == blocks@.len() + 1 && rs[0] == *old(r)
                && rs[blocks@.len() as int] == *final(r) && obs[0] == *old(ob)
                && obs[blocks@.len() as int] == *final(ob) && (
            forall|i: int, k: int|
                #![trigger follows(i, k)]
                0 <= i < blocks@.len() && follows(i, k) ==> {
                &&& (blocks@[i] matches Block::Paragraph { content } ==> exists|
                        a0: &mut R,
                        w: &mut Buffer,
                        a: &mut R,
                        b: &mut Buffer,
                    |
                        *a0 == rs[i] && fresh(*w) && #[trigger] call_ensures(render_spans::<R>, (a0, w, &content), ())
                            && *a == *final(a0) && *final(a) == rs[k] && *b == obs[i] && *final(b) == obs[k]
                            && #[trigger] call_ensures(R::paragraph, (a, b, &*final(w)), ()))
                &&& (blocks@[i] matches Block::Header { content, level } ==> exists|
                        a0: &mut R,
                        w: &mut Buffer,
                        a: &mut R,
                        b: &mut Buffer,
                    |
                        *a0 == rs[i] && fresh(*w) && #[trigger] call_ensures(render_spans::<R>, (a0, w, &content), ())
                            && *a == *final(a0) && *final(a) == rs[k] && *b == obs[i] && *final(b) == obs[k]
                            && #[trigger] call_ensures(R::header, (a, b, &*final(w), level), ()))
                &&& (blocks@[i] matches Block::HorizontalRule ==> exists|a: &mut R, b: &mut Buffer|
                        *a == rs[i] && *final(a) == rs[k] && *b == obs[i] && *final(b) == obs[k]
                            && #[trigger] call_ensures(R::horizontal_rule, (a, b), ()))
                &&& (blocks@[i] matches Block::QuoteBlock { content } ==> exists|a: &mut R, b: &mut Buffer, w: Buffer|
                        *final(a) == rs[k] && *b == obs[i] && *final(b) == obs[k] && (content@.len() == 0 ==> *a == rs[i]
                            && fresh(w)) && #[trigger] call_ensures(R::quote_block, (a, b, &w), ()))
                &&& (blocks@[i] matches Block::CodeBlock { text, lang } ==> exists|a: &mut R, b: &mut Buffer, t: Buffer, l: Buffer|
                        *a == rs[i] && *final(a) == rs[k] && *b == obs[i] && *final(b) == obs[k] && holds(t, text@) && holds(l, lang@)
                            && #[trigger] call_ensures(R::code_block, (a, b, &t, &l), ()))
                &&& (blocks@[i] matches Block::HtmlBlock { text } ==> exists|a: &mut R, b: &mut Buffer, t: Buffer|
                        *a == rs[i] && *final(a) == rs[k] && *b == obs[i] && *final(b) == obs[k] && holds(t, text@)
                            && #[trigger] call_ensures(R::html_block, (a, b, &t), ()))
                &&& (blocks@[i] matches Block::List { items, flags } ==> exists|a: &mut R, b: &mut Buffer, w: Buffer|
                        *final(a) == rs[k] && *b == obs[i] && *final(b) == obs[k] && (items@.len() == 0 ==> *a == rs[i]
                            && fresh(w)) && #[trigger] call_ensures(R::list, (a, b, &w, flags), ()))
                &&& (blocks@[i] matches Block::ListItem { spans, blocks, flags } ==> exists|
                        a0: &mut R,
                        w0: &mut Buffer,
                        a: &mut R,
                        b: &mut Buffer,
                        w: Buffer,
                    |
                        *a0 == rs[i] && fresh(*w0) && #[trigger] call_ensures(render_spans::<R>, (a0, w0, &spans), ())
                            && (blocks@.len() == 0 ==> *a == *final(a0) && w == *final(w0)) && *final(a) == rs[k]
                            && *b == obs[i] && *final(b) == obs[k] && #[trigger] call_ensures(
                            R::list_item,
                            (a, b, &w, flags),
                            (),
                        ))
                &&& (blocks@[i] matches Block::Table { header, body } ==> exists|
                        a0: &mut R,
                        hw: &mut Buffer,
                        a1: &mut R,
                        bw: &mut Buffer,
                        a2: &mut R,
                        w2: &mut Buffer,
                        a3: &mut R,
                        w3: &mut Buffer,
                        a: &mut R,
                        b: &mut Buffer,
                    |
                        *a0 == rs[i] && fresh(*hw) && #[trigger] call_ensures(render_rows::<R>, (a0, hw, &header), ())
                            && *a1 == *final(a0) && fresh(*bw) && #[trigger] call_ensures(
                            render_rows::<R>,
                            (a1, bw, &body),
                            (),
                        ) && *a2 == *final(a1) && fresh(*w2) && #[trigger] call_ensures(
                            R::table_header,
                            (a2, w2, &*final(hw)),
                            (),
                        ) && *a3 == *final(a2) && *w3 == *final(w2) && #[trigger] call_ensures(
                            R::table_body,
                            (a3, w3, &*final(bw)),
                            (),
                        ) && *a == *final(a3) && *final(a) == rs[k] && *b == obs[i] && *final(b) == obs[k]
                            && #[trigger] call_ensures(R::table, (a, b, &*final(w3)), ()))
                }),
    decreases blocks, 1nat,
{
    let mut i: usize = 0;
    let ghost mut rs: Seq<R> = seq![*r];
    let ghost mut obs: Seq<Buffer> = seq![*ob];
    while i < blocks.len()
        invariant
            i <= blocks.len(),
            rs.len() == i + 1,
            obs.len() == i + 1,
            rs[0] == *old(r),
            obs[0] == *old(ob),
            rs[i as int] == *r,
            obs[i as int] == *ob,
            forall|j: int, m: int|
                #![trigger follows(j, m)]
                0 <= j < i && follows(j, m) ==> {
                &&& (blocks@[j] matches Block::Paragraph { content } ==> exists|
                        a0: &mut R,
                        w: &mut Buffer,
                        a: &mut R,
                        b: &mut Buffer,
                    |
                        *a0 == rs[j] && fresh(*w) && #[trigger] call_ensures(render_spans::<R>, (a0, w, &content), ())
                            && *a == *final(a0) && *final(a) == rs[m] && *b == obs[j] && *final(b) == obs[m]
                            && #[trigger] call_ensures(R::paragraph, (a, b, &*final(w)), ()))
                &&& (blocks@[j] matches Block::Header { content, level } ==> exists|
                        a0: &mut R,
                        w: &mut Buffer,
                        a: &mut R,
                        b: &mut Buffer,
                    |
                        *a0 == rs[j] && fresh(*w) && #[trigger] call_ensures(render_spans::<R>, (a0, w, &content), ())
                            && *a == *final(a0) && *final(a) == rs[m] && *b == obs[j] && *final(b) == obs[m]
                            && #[trigger] call_ensures(R::header, (a, b, &*final(w), level), ()))
                &&& (blocks@[j] matches Block::HorizontalRule ==> exists|a: &mut R, b: &mut Buffer|
                        *a == rs[j] && *final(a) == rs[m] && *b == obs[j] && *final(b) == obs[m]
                            && #[trigger] call_ensures(R::horizontal_rule, (a, b), ()))
                &&& (blocks@[j] matches Block::QuoteBlock { content } ==> exists|a: &mut R, b: &mut Buffer, w: Buffer|
                        *final(a) == rs[m] && *b == obs[j] && *final(b) == obs[m] && (content@.len() == 0 ==> *a == rs[j]
                            && fresh(w)) && #[trigger] call_ensures(R::quote_block, (a, b, &w), ()))
                &&& (blocks@[j] matches Block::CodeBlock { text, lang } ==> exists|a: &mut R, b: &mut Buffer, t: Buffer, l: Buffer|
                        *a == rs[j] && *final(a) == rs[m] && *b == obs[j] && *final(b) == obs[m] && holds(t, text@) && holds(l, lang@)
                            && #[trigger] call_ensures(R::code_block, (a, b, &t, &l), ()))
                &&& (blocks@[j] matches Block::HtmlBlock { text } ==> exists|a: &mut R, b: &mut Buffer, t: Buffer|
                        *a == rs[j] && *final(a) == rs[m] && *b == obs[j] && *final(b) == obs[m] && holds(t, text@)
                            && #[trigger] call_ensures(R::html_block, (a, b, &t), ()))
                &&& (blocks@[j] matches Block::List { items, flags } ==> exists|a: &mut R, b: &mut Buffer, w: Buffer|
                        *final(a) == rs[m] && *b == obs[j] && *final(b) == obs[m] && (items@.len() == 0 ==> *a == rs[j]
                            && fresh(w)) && #[trigger] call_ensures(R::list, (a, b, &w, flags), ()))
                &&& (blocks@[j] matches Block::ListItem { spans, blocks, flags } ==> exists|
                        a0: &mut R,
                        w0: &mut Buffer,
                        a: &mut R,
                        b: &mut Buffer,
                        w: Buffer,
                    |
                        *a0 == rs[j] && fresh(*w0) && #[trigger] call_ensures(render_spans::<R>, (a0, w0, &spans), ())
                            && (blocks@.len() == 0 ==> *a == *final(a0) && w == *final(w0)) && *final(a) == rs[m]
                            && *b == obs[j] && *final(b) == obs[m] && #[trigger] call_ensures(
                            R::list_item,
                            (a, b, &w, flags),
                            (),
                        ))
                &&& (blocks@[j] matches Block::Table { header, body } ==> exists|
                        a0: &mut R,
                        hw: &mut Buffer,
                        a1: &mut R,
                        bw: &mut Buffer,
                        a2: &mut R,
                        w2: &mut Buffer,
                        a3: &mut R,
                        w3: &mut Buffer,
                        a: &mut R,
                        b: &mut Buffer,
                    |
                        *a0 == rs[j] && fresh(*hw) && #[trigger] call_ensures(render_rows::<R>, (a0, hw, &header), ())
                            && *a1 == *final(a0) && fresh(*bw) && #[trigger] call_ensures(
                            render_rows::<R>,
                            (a1, bw, &body),
                            (),
                        ) && *a2 == *final(a1) && fresh(*w2) && #[trigger] call_ensures(
                            R::table_header,
                            (a2, w2, &*final(hw)),
                            (),
                        ) && *a3 == *final(a2) && *w3 == *final(w2) && #[trigger] call_ensures(
                            R::table_body,
                            (a3, w3, &*final(bw)),
                            (),
                        ) && *a == *final(a3) && *final(a) == rs[m] && *b == obs[j] && *final(b) == obs[m]
                            && #[trigger] call_ensures(R::table, (a, b, &*final(w3)), ()))
                },
        decreases blocks.len() - i,
    {
        let ghost rs0 = rs;
        let ghost obs0 = obs;
        render_block(r, ob, &blocks[i]);
        proof {
            rs = rs0.push(*r);
            obs = obs0.push(*ob);
            assert(forall|j: int| 0 <= j <= i ==> rs[j] == rs0[j] && obs[j] == obs0[j]);
        }
        i += 1;
    }
}

/// Renders one footnote: its blocks on a buffer of its own, then the
/// callback of a footnote definition on them and the footnote's number.
pub fn render_footnote<R: Render>(r: &mut R, ob: &mut Buffer, note: &Footnote)
    ensures
        exists|a0: &mut R, w: &mut Buffer, a: &mut R, b: &mut Buffer|
            *a0 == *old(r) && fresh(*w) && #[trigger] call_ensures(
                render_blocks::<R>,
                (a0, w, &note.content),
                (),
            ) && *a == *final(a0) && *final(a) == *final(r) && *b == *old(ob) && *final(b)
                == *final(ob) && #[trigger] call_ensures(
                R::footnote_definition,
                (a, b, &*final(w), note.num),
                (),
            ),
{
    let mut work = Buffer::new(64);
    render_blocks(r, &mut work, &note.content);
    r.footnote_definition(ob, &work, note.num);
}

/// Renders the footnote definitions in order.
pub fn render_notes<R: Render>(r: &mut R, ob: &mut Buffer, notes: &Vec<Footnote>)
    ensures
        notes@.len() == 0 ==> *final(r) == *old(r) && *final(ob) == *old(ob),
        exists|rs: Seq<R>, obs: Seq<Buffer>|
            rs.len() == notes@.len() + 1 && obs.len() == notes@.len() + 1 && rs[0] == *old(r)
                && rs[notes@.len() as int] == *final(r) && obs[0] == *old(ob)
                && obs[notes@.len() as int] == *final(ob) && forall|i: int, k: int|
                #![trigger follows(i, k)]
                0 <= i < notes@.len() && follows(i, k) ==> exists|a: &mut R, b: &mut Buffer|
                    *a == rs[i] && *final(a) == rs[k] && *b == obs[i] && *final(b) == obs[k]
                        && #[trigger] call_ensures(render_footnote::<R>, (a, b, &notes@[i]), ()),
{
    let mut i: usize = 0;
    let ghost mut rs: Seq<R> = seq![*r];
    let ghost mut obs: Seq<Buffer> = seq![*ob];
    while i < notes.len()
        invariant
            i <= notes.len(),
            rs.len() == i + 1,
            obs.len() == i + 1,
            rs[0] == *old(r),
            obs[0] == *old(ob),
            rs[i as int] == *r,
            obs[i as int] == *ob,
            forall|j: int, m: int|
                #![trigger follows(j, m)]
                0 <= j < i && follows(j, m) ==> exists|a: &mut R, b: &mut Buffer|
                    *a == rs[j] && *final(a) == rs[m] && *b == obs[j] && *final(b) == obs[m]
                        && #[trigger] call_ensures(render_footnote::<R>, (a, b, &notes@[j]), ()),
        decreases notes.len() - i,
    {
        let ghost rs0 = rs;
        let ghost obs0 = obs;
        let ghost r0 = *r;
        let ghost ob0 = *ob;
        render_footnote(r, ob, &notes[i]);
        proof {
            rs = rs0.push(*r);
            obs = obs0.push(*ob);
            assert(exists|a: &mut R, b: &mut Buffer|
                *a == r0 && *final(a) == *r && *b == ob0 && *final(b) == *ob
                    && #[trigger] call_ensures(render_footnote::<R>, (a, b, &notes@[i as int]), ()));
            assert forall|j: int, m: int|
                #![trigger follows(j, m)]
                0 <= j < i + 1 && follows(j, m) implies exists|a: &mut R, b: &mut Buffer|
                *a == rs[j] && *final(a) == rs[m] && *b == obs[j] && *final(b) == obs[m]
                    && #[trigger] call_ensures(render_footnote::<R>, (a, b, &notes@[j]), ()) by {
                if j < i {
                    assert(rs[j] == rs0[j] && rs[m] == rs0[m]);
                    assert(obs[j] == obs0[j] && obs[m] == obs0[m]);
                } else {
                    assert(rs[j] == r0 && rs[m] == *r && obs[j] == ob0 && obs[m] == *ob);
                }
            }
        }
        i += 1;
    }
}

/// Renders the footnotes of a document, where it has any: each
/// definition in order, on a buffer of their own, then the footnotes
/// callback on all of them.  Without footnotes no callback runs and
/// nothing changes.
pub fn render_footnotes<R: Render>(r: &mut R, ob: &mut Buffer, notes: &Vec<Footnote>)
    ensures
        notes@.len() == 0 ==> *final(r) == *old(r) && *final(ob) == *old(ob),
        notes@.len() > 0 ==> exists|a0: &mut R, w: &mut Buffer, a: &mut R, b: &mut Buffer|
            *a0 == *old(r) && fresh(*w) && #[trigger] call_ensures(
                render_notes::<R>,
                (a0, w, notes),
                (),
            ) && *a == *final(a0) && *final(a) == *final(r) && *b == *old(ob) && *final(b)
                == *final(ob) && #[trigger] call_ensures(R::footnotes, (a, b, &*final(w)), ()),
{
    if notes.len() == 0 {
        return ;
    }
    let mut work = Buffer::new(64);
    render_notes(r, &mut work, notes);
    r.footnotes(ob, &work);
}

} // verus!
