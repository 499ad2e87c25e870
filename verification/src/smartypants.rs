//! "Smartypants": straight quotes, dashes and dots in HTML text become
//! their typographic entities.

use vstd::prelude::*;
use vstd::string::StringSliceAdditionalSpecFns;
use crate::buffer::Buffer;
use crate::chars::{
    has_prefix_at, is_punct, is_white, lemma_skipped, lower, punct, skip, skipped, starts_with_at,
    to_lower, white, Class,
};

verus! {

/// Which quotes are open where the scan stands.
#[derive(Clone, Copy, Debug, PartialEq, Eq, Structural)]
pub struct Quotes {
    pub in_squote: bool,
    pub in_dquote: bool,
}

/// What a step of the scan did: the output and the open quotes as they
/// stand after it, and how many bytes after the trigger byte it has taken.
pub ghost struct Smart {
    pub out: Seq<u8>,
    pub q: Quotes,
    pub n: int,
}

/// Whether `c` can stand beside a word: nothing, white space or punctuation.
pub open spec fn is_word_boundary(c: u8) -> bool {
    c == 0 || is_white(c) || is_punct(c)
}

fn word_boundary(c: u8) -> (r: bool)
    ensures
        r == is_word_boundary(c),
{
    c == 0 || white(c) || punct(c)
}

/// The byte at `pos + k`, or zero where the text ends before it.
pub open spec fn byte_at(text: Seq<u8>, pos: int, k: int) -> u8 {
    if 0 <= pos + k < text.len() {
        text[pos + k]
    } else {
        0
    }
}

fn at(text: &[u8], pos: usize, k: usize) -> (c: u8)
    requires
        pos <= text.len(),
    ensures
        c == byte_at(text@, pos as int, k as int),
{
    if k < text.len() - pos {
        text[pos + k]
    } else {
        0
    }
}

/// The length of the single quote that the text starts with at `pos`:
/// `'` or one of the entities `&#39;`, `&#x27;` and `&apos;`.  Zero where
/// none stands there.
pub open spec fn spec_squote_len(text: Seq<u8>, pos: int) -> int {
    if starts_with_at(text, pos, "'".spec_bytes()) && text.len() - pos >= 1 {
        1
    } else if starts_with_at(text, pos, "&#39;".spec_bytes()) && text.len() - pos >= 5 {
        5
    } else if starts_with_at(text, pos, "&#x27;".spec_bytes()) && text.len() - pos >= 6 {
        6
    } else if starts_with_at(text, pos, "&apos;".spec_bytes()) && text.len() - pos >= 6 {
        6
    } else {
        0
    }
}

fn squote_len(text: &[u8], pos: usize) -> (n: usize)
    requires
        pos <= text.len(),
    ensures
        n == spec_squote_len(text@, pos as int),
        n <= text.len() - pos,
        n == 0 || n == 1 || n == 5 || n == 6,
{
    if has_prefix_at(text, pos, "'".as_bytes()) && text.len() - pos >= 1 {
        1
    } else if has_prefix_at(text, pos, "&#39;".as_bytes()) && text.len() - pos >= 5 {
        5
    } else if has_prefix_at(text, pos, "&#x27;".as_bytes()) && text.len() - pos >= 6 {
        6
    } else if has_prefix_at(text, pos, "&apos;".as_bytes()) && text.len() - pos >= 6 {
        6
    } else {
        0
    }
}

/// The entity for a quote: left where none is open, right where one is.
pub open spec fn quote_entity(double: bool, open: bool) -> Seq<u8> {
    if open {
        if double {
            "&rdquo;".spec_bytes()
        } else {
            "&rsquo;".spec_bytes()
        }
    } else {
        if double {
            "&ldquo;".spec_bytes()
        } else {
            "&lsquo;".spec_bytes()
        }
    }
}

/// Whether a quote can be written: an opening quote starts a word, a
/// closing quote ends one.
pub open spec fn quote_fits(previous_char: u8, next_char: u8, open: bool) -> bool {
    if open {
        is_word_boundary(next_char)
    } else {
        is_word_boundary(previous_char)
    }
}

/// A quote at the start or the end of a word becomes a left or a right
/// quote.  `double` says which kind; `open` says whether one is open.
/// Returns whether the quote was written, and whether one is open now.
fn smartypants_quotes(ob: &mut Buffer, previous_char: u8, next_char: u8, double: bool, open: bool) -> (r:
    (bool, bool))
    ensures
        r.0 == quote_fits(previous_char, next_char, open),
        r.1 == (if r.0 {
            !open
        } else {
            open
        }),
        final(ob)@ == if r.0 {
            old(ob)@ + quote_entity(double, open)
        } else {
            old(ob)@
        },
        final(ob).spec_unit() == old(ob).spec_unit(),
        old(ob).wf() ==> final(ob).wf(),
{
    if open && !word_boundary(next_char) {
        return (false, open);
    }
    if !open && !word_boundary(previous_char) {
        return (false, open);
    }
    if open {
        if double {
            ob.puts("&rdquo;");
        } else {
            ob.puts("&rsquo;");
        }
    } else {
        if double {
            ob.puts("&ldquo;");
        } else {
            ob.puts("&lsquo;");
        }
    }
    (true, !open)
}

/// Whether the letters after an apostrophe make a contraction: `'s`,
/// `'t`, `'m`, `'d`, `'re`, `'ll` or `'ve` at the end of a word.
pub open spec fn is_contraction(text: Seq<u8>, pos: int) -> bool {
    let size = text.len() - pos;
    let t1 = lower(byte_at(text, pos, 1));
    let t2 = lower(byte_at(text, pos, 2));
    size >= 2 && (((t1 == 0x73 || t1 == 0x74 || t1 == 0x6d || t1 == 0x64) && (size == 3
        || is_word_boundary(byte_at(text, pos, 2)))) || (size >= 3 && ((t1 == 0x72 && t2 == 0x65)
        || (t1 == 0x6c && t2 == 0x6c) || (t1 == 0x76 && t2 == 0x65)) && (size == 4
        || is_word_boundary(byte_at(text, pos, 3)))))
}

/// A single quote whose last byte stands at `pos` and which began at
/// `quote_beg`.  Two single quotes are a double quote; an apostrophe in a
/// contraction is a right quote; else the quote is a left or a right
/// quote where it starts or ends a word, and goes out as it is where it
/// does neither.
pub open spec fn spec_squote(
    out: Seq<u8>,
    q: Quotes,
    previous_char: u8,
    text: Seq<u8>,
    pos: int,
    quote_beg: int,
) -> Smart {
    let size = text.len() - pos;
    let next_len = spec_squote_len(text, pos + 1);
    let pair = size >= 2 && next_len > 0;
    let pair_fits = pair && quote_fits(previous_char, byte_at(text, pos, 1 + next_len), q.in_dquote);
    let single_fits = quote_fits(previous_char, byte_at(text, pos, 1), q.in_squote);
    if pair_fits {
        Smart {
            out: out + quote_entity(true, q.in_dquote),
            q: Quotes { in_dquote: !q.in_dquote, ..q },
            n: next_len,
        }
    } else if is_contraction(text, pos) {
        Smart { out: out + "&rsquo;".spec_bytes(), q, n: 0 }
    } else if single_fits {
        Smart {
            out: out + quote_entity(false, q.in_squote),
            q: Quotes { in_squote: !q.in_squote, ..q },
            n: 0,
        }
    } else {
        Smart { out: out + text.subrange(quote_beg, pos + 1), q, n: 0 }
    }
}

/// A single quote whose last byte stands at `pos` and which began at
/// `quote_beg`.  Returns how many bytes after `pos` it has taken.
fn smartypants_squote(
    ob: &mut Buffer,
    smrt: &mut Quotes,
    previous_char: u8,
    text: &[u8],
    pos: usize,
    quote_beg: usize,
) -> (n: usize)
    requires
        quote_beg <= pos < text.len(),
    ensures
        pos + n < text.len(),
        (Smart { out: final(ob)@, q: *final(smrt), n: n as int }) == spec_squote(
            old(ob)@,
            *old(smrt),
            previous_char,
            text@,
            pos as int,
            quote_beg as int,
        ),
        final(ob).spec_unit() == old(ob).spec_unit(),
        old(ob).wf() ==> final(ob).wf(),
{
    let size: usize = text.len() - pos;
    if size >= 2 {
        let t1: u8 = to_lower(text[pos + 1]);
        let next_squote_len: usize = squote_len(text, pos + 1);
        if next_squote_len > 0 {
            let next_char: u8 = at(text, pos, 1 + next_squote_len);
            let r = smartypants_quotes(ob, previous_char, next_char, true, smrt.in_dquote);
            smrt.in_dquote = r.1;
            if r.0 {
                return next_squote_len;
            }
        }
        if (t1 == 0x73 || t1 == 0x74 || t1 == 0x6d || t1 == 0x64) && (size == 3 || word_boundary(
            at(text, pos, 2),
        )) {
            ob.puts("&rsquo;");
            return 0;
        }
        if size >= 3 {
            let t2: u8 = to_lower(text[pos + 2]);
            if ((t1 == 0x72 && t2 == 0x65) || (t1 == 0x6c && t2 == 0x6c) || (t1 == 0x76 && t2
                == 0x65)) && (size == 4 || word_boundary(at(text, pos, 3))) {
                ob.puts("&rsquo;");
                return 0;
            }
        }
    }
    let r = smartypants_quotes(ob, previous_char, at(text, pos, 1), false, smrt.in_squote);
    smrt.in_squote = r.1;
    if r.0 {
        return 0;
    }
    ob.put(vstd::slice::slice_subrange(text, quote_beg, pos + 1));
    0
}

/// `(c)`, `(r)` and `(tm)`, in either case, become their entities.
pub open spec fn spec_parens(out: Seq<u8>, text: Seq<u8>, pos: int) -> (Seq<u8>, int) {
    let size = text.len() - pos;
    let t1 = lower(byte_at(text, pos, 1));
    let t2 = lower(byte_at(text, pos, 2));
    if size >= 3 && t1 == 0x63 && t2 == 0x29 {
        (out + "&copy;".spec_bytes(), 2)
    } else if size >= 3 && t1 == 0x72 && t2 == 0x29 {
        (out + "&reg;".spec_bytes(), 2)
    } else if size >= 4 && t1 == 0x74 && t2 == 0x6d && text[pos + 3] == 0x29 {
        (out + "&trade;".spec_bytes(), 3)
    } else {
        (out.push(text[pos]), 0)
    }
}

fn cb_parens(ob: &mut Buffer, text: &[u8], pos: usize) -> (n: usize)
    requires
        pos < text.len(),
    ensures
        pos + n < text.len(),
        (final(ob)@, n as int) == spec_parens(old(ob)@, text@, pos as int),
        final(ob).spec_unit() == old(ob).spec_unit(),
        old(ob).wf() ==> final(ob).wf(),
{
    let size: usize = text.len() - pos;
    if size >= 3 {
        let t1: u8 = to_lower(text[pos + 1]);
        let t2: u8 = to_lower(text[pos + 2]);
        if t1 == 0x63 && t2 == 0x29 {
            ob.puts("&copy;");
            return 2;
        }
        if t1 == 0x72 && t2 == 0x29 {
            ob.puts("&reg;");
            return 2;
        }
        if size >= 4 && t1 == 0x74 && t2 == 0x6d && text[pos + 3] == 0x29 {
            ob.puts("&trade;");
            return 3;
        }
    }
    ob.putc(text[pos]);
    0
}

/// `---` becomes an em dash, `--` an en dash.
pub open spec fn spec_dash(out: Seq<u8>, text: Seq<u8>, pos: int) -> (Seq<u8>, int) {
    let size = text.len() - pos;
    if size >= 3 && text[pos + 1] == 0x2d && text[pos + 2] == 0x2d {
        (out + "&mdash;".spec_bytes(), 2)
    } else if size >= 2 && text[pos + 1] == 0x2d {
        (out + "&ndash;".spec_bytes(), 1)
    } else {
        (out.push(text[pos]), 0)
    }
}

fn cb_dash(ob: &mut Buffer, text: &[u8], pos: usize) -> (n: usize)
    requires
        pos < text.len(),
    ensures
        pos + n < text.len(),
        (final(ob)@, n as int) == spec_dash(old(ob)@, text@, pos as int),
        final(ob).spec_unit() == old(ob).spec_unit(),
        old(ob).wf() ==> final(ob).wf(),
{
    let size: usize = text.len() - pos;
    if size >= 3 && text[pos + 1] == 0x2d && text[pos + 2] == 0x2d {
        ob.puts("&mdash;");
        return 2;
    }
    if size >= 2 && text[pos + 1] == 0x2d {
        ob.puts("&ndash;");
        return 1;
    }
    ob.putc(text[pos]);
    0
}

/// An ampersand: `&quot;` is a double quote, the entities for a single
/// quote are single quotes, `&#0;` is dropped.
pub open spec fn spec_amp(out: Seq<u8>, q: Quotes, previous_char: u8, text: Seq<u8>, pos: int) -> Smart {
    let size = text.len() - pos;
    let len = spec_squote_len(text, pos);
    let s = spec_squote(out, q, previous_char, text, pos + (len - 1), pos);
    if size >= 6 && starts_with_at(text, pos, "&quot;".spec_bytes()) && quote_fits(
        previous_char,
        byte_at(text, pos, 6),
        q.in_dquote,
    ) {
        Smart {
            out: out + quote_entity(true, q.in_dquote),
            q: Quotes { in_dquote: !q.in_dquote, ..q },
            n: 5,
        }
    } else if len > 0 {
        Smart { out: s.out, q: s.q, n: (len - 1) + s.n }
    } else if size >= 4 && starts_with_at(text, pos, "&#0;".spec_bytes()) {
        Smart { out, q, n: 3 }
    } else {
        Smart { out: out.push(0x26), q, n: 0 }
    }
}

fn cb_amp(ob: &mut Buffer, smrt: &mut Quotes, previous_char: u8, text: &[u8], pos: usize) -> (n:
    usize)
    requires
        pos < text.len(),
    ensures
        pos + n < text.len(),
        (Smart { out: final(ob)@, q: *final(smrt), n: n as int }) == spec_amp(
            old(ob)@,
            *old(smrt),
            previous_char,
            text@,
            pos as int,
        ),
        final(ob).spec_unit() == old(ob).spec_unit(),
        old(ob).wf() ==> final(ob).wf(),
{
    let size: usize = text.len() - pos;
    if size >= 6 && has_prefix_at(text, pos, "&quot;".as_bytes()) {
        let r = smartypants_quotes(ob, previous_char, at(text, pos, 6), true, smrt.in_dquote);
        smrt.in_dquote = r.1;
        if r.0 {
            return 5;
        }
    }
    let len: usize = squote_len(text, pos);
    if len > 0 {
        return (len - 1) + smartypants_squote(ob, smrt, previous_char, text, pos + (len - 1), pos);
    }
    if size >= 4 && has_prefix_at(text, pos, "&#0;".as_bytes()) {
        return 3;
    }
    ob.putc(0x26);
    0
}

/// `...` and `. . .` become an ellipsis.
pub open spec fn spec_period(out: Seq<u8>, text: Seq<u8>, pos: int) -> (Seq<u8>, int) {
    let size = text.len() - pos;
    if size >= 3 && text[pos + 1] == 0x2e && text[pos + 2] == 0x2e {
        (out + "&hellip;".spec_bytes(), 2)
    } else if size >= 5 && text[pos + 1] == 0x20 && text[pos + 2] == 0x2e && text[pos + 3] == 0x20
        && text[pos + 4] == 0x2e {
        (out + "&hellip;".spec_bytes(), 4)
    } else {
        (out.push(text[pos]), 0)
    }
}

fn cb_period(ob: &mut Buffer, text: &[u8], pos: usize) -> (n: usize)
    requires
        pos < text.len(),
    ensures
        pos + n < text.len(),
        (final(ob)@, n as int) == spec_period(old(ob)@, text@, pos as int),
        final(ob).spec_unit() == old(ob).spec_unit(),
        old(ob).wf() ==> final(ob).wf(),
{
    let size: usize = text.len() - pos;
    if size >= 3 && text[pos + 1] == 0x2e && text[pos + 2] == 0x2e {
        ob.puts("&hellip;");
        return 2;
    }
    if size >= 5 && text[pos + 1] == 0x20 && text[pos + 2] == 0x2e && text[pos + 3] == 0x20
        && text[pos + 4] == 0x2e {
        ob.puts("&hellip;");
        return 4;
    }
    ob.putc(text[pos]);
    0
}

/// Two backticks are a double quote.
pub open spec fn spec_backtick(out: Seq<u8>, q: Quotes, previous_char: u8, text: Seq<u8>, pos: int) -> Smart {
    if text.len() - pos >= 2 && text[pos + 1] == 0x60 && quote_fits(
        previous_char,
        byte_at(text, pos, 2),
        q.in_dquote,
    ) {
        Smart {
            out: out + quote_entity(true, q.in_dquote),
            q: Quotes { in_dquote: !q.in_dquote, ..q },
            n: 1,
        }
    } else {
        Smart { out: out.push(text[pos]), q, n: 0 }
    }
}

fn cb_backtick(ob: &mut Buffer, smrt: &mut Quotes, previous_char: u8, text: &[u8], pos: usize) -> (n:
    usize)
    requires
        pos < text.len(),
    ensures
        pos + n < text.len(),
        (Smart { out: final(ob)@, q: *final(smrt), n: n as int }) == spec_backtick(
            old(ob)@,
            *old(smrt),
            previous_char,
            text@,
            pos as int,
        ),
        final(ob).spec_unit() == old(ob).spec_unit(),
        old(ob).wf() ==> final(ob).wf(),
{
    let size: usize = text.len() - pos;
    if size >= 2 && text[pos + 1] == 0x60 {
        let r = smartypants_quotes(ob, previous_char, at(text, pos, 2), true, smrt.in_dquote);
        smrt.in_dquote = r.1;
        if r.0 {
            return 1;
        }
    }
    ob.putc(text[pos]);
    0
}

/// Whether a fraction of three bytes at `pos` ends a word, or goes on
/// with the letters `a` and `b`, and `c` where `c` is not zero.
pub open spec fn fraction_ends(text: Seq<u8>, pos: int, a: u8, b: u8, c: u8) -> bool {
    let size = text.len() - pos;
    size == 3 || is_word_boundary(byte_at(text, pos, 3)) || (a != 0 && size >= (if c != 0 {
        6int
    } else {
        5int
    }) && lower(text[pos + 3]) == a && lower(text[pos + 4]) == b && (c == 0 || lower(
        text[pos + 5],
    ) == c))
}

/// `1/2`, `1/4` and `3/4` at the start of a word become their entities:
/// `1/2` where it ends a word, `1/4` also before `th`, `3/4` also before `ths`.
pub open spec fn spec_number(out: Seq<u8>, previous_char: u8, text: Seq<u8>, pos: int) -> (Seq<u8>, int) {
    let size = text.len() - pos;
    let t0 = text[pos];
    let t1 = byte_at(text, pos, 1);
    let t2 = byte_at(text, pos, 2);
    if is_word_boundary(previous_char) && size >= 3 && t0 == 0x31 && t1 == 0x2f && t2 == 0x32
        && fraction_ends(text, pos, 0, 0, 0) {
        (out + "&frac12;".spec_bytes(), 2)
    } else if is_word_boundary(previous_char) && size >= 3 && t0 == 0x31 && t1 == 0x2f && t2
        == 0x34 && fraction_ends(text, pos, 0x74, 0x68, 0) {
        (out + "&frac14;".spec_bytes(), 2)
    } else if is_word_boundary(previous_char) && size >= 3 && t0 == 0x33 && t1 == 0x2f && t2
        == 0x34 && fraction_ends(text, pos, 0x74, 0x68, 0x73) {
        (out + "&frac34;".spec_bytes(), 2)
    } else {
        (out.push(text[pos]), 0)
    }
}

fn cb_number(ob: &mut Buffer, previous_char: u8, text: &[u8], pos: usize) -> (n: usize)
    requires
        pos < text.len(),
    ensures
        pos + n < text.len(),
        (final(ob)@, n as int) == spec_number(old(ob)@, previous_char, text@, pos as int),
        final(ob).spec_unit() == old(ob).spec_unit(),
        old(ob).wf() ==> final(ob).wf(),
{
    let size: usize = text.len() - pos;
    if word_boundary(previous_char) && size >= 3 {
        let t0: u8 = text[pos];
        let t1: u8 = text[pos + 1];
        let t2: u8 = text[pos + 2];
        if t0 == 0x31 && t1 == 0x2f && t2 == 0x32 {
            if size == 3 || word_boundary(at(text, pos, 3)) {
                ob.puts("&frac12;");
                return 2;
            }
        }
        if t0 == 0x31 && t1 == 0x2f && t2 == 0x34 {
            if size == 3 || word_boundary(at(text, pos, 3)) || (size >= 5 && to_lower(
                text[pos + 3],
            ) == 0x74 && to_lower(text[pos + 4]) == 0x68) {
                ob.puts("&frac14;");
                return 2;
            }
        }
        if t0 == 0x33 && t1 == 0x2f && t2 == 0x34 {
            if size == 3 || word_boundary(at(text, pos, 3)) || (size >= 6 && to_lower(
                text[pos + 3],
            ) == 0x74 && to_lower(text[pos + 4]) == 0x68 && to_lower(text[pos + 5]) == 0x73) {
                ob.puts("&frac34;");
                return 2;
            }
        }
    }
    ob.putc(text[pos]);
    0
}

/// A double quote: a left or a right quote where it starts or ends a
/// word, `&quot;` where it does neither.
pub open spec fn spec_dquote(out: Seq<u8>, q: Quotes, previous_char: u8, text: Seq<u8>, pos: int) -> Smart {
    if quote_fits(previous_char, byte_at(text, pos, 1), q.in_dquote) {
        Smart {
            out: out + quote_entity(true, q.in_dquote),
            q: Quotes { in_dquote: !q.in_dquote, ..q },
            n: 0,
        }
    } else {
        Smart { out: out + "&quot;".spec_bytes(), q, n: 0 }
    }
}

fn cb_dquote(ob: &mut Buffer, smrt: &mut Quotes, previous_char: u8, text: &[u8], pos: usize) -> (n:
    usize)
    requires
        pos < text.len(),
    ensures
        n == 0,
        (Smart { out: final(ob)@, q: *final(smrt), n: n as int }) == spec_dquote(
            old(ob)@,
            *old(smrt),
            previous_char,
            text@,
            pos as int,
        ),
        final(ob).spec_unit() == old(ob).spec_unit(),
        old(ob).wf() ==> final(ob).wf(),
{
    let r = smartypants_quotes(ob, previous_char, at(text, pos, 1), true, smrt.in_dquote);
    smrt.in_dquote = r.1;
    if !r.0 {
        ob.puts("&quot;");
    }
    0
}

/// Whether the tag at `pos` is an opening or a closing tag with the given name.
#[derive(Clone, Copy, Debug, PartialEq, Eq, Structural)]
pub enum HtmlTag {
    Neither,
    Open,
    Close,
}

/// Whether an opening or a closing tag with the name `tagname` stands at
/// `pos`: `<`, a `/` where the tag closes, the name, and white space or `>`.
pub open spec fn spec_is_tag(text: Seq<u8>, pos: int, tagname: Seq<u8>) -> HtmlTag {
    let size = text.len() - pos;
    let closed = text[pos + 1] == 0x2f;
    let i = if closed {
        2int
    } else {
        1int
    };
    let fits = size - i >= tagname.len();
    let e = if fits {
        i + tagname.len()
    } else {
        size
    };
    if size < 3 || text[pos] != 0x3c || !(text.subrange(pos + i, pos + e) == tagname.subrange(
        0,
        e - i,
    )) || e >= size || !(is_white(text[pos + e]) || text[pos + e] == 0x3e) {
        HtmlTag::Neither
    } else if closed {
        HtmlTag::Close
    } else {
        HtmlTag::Open
    }
}

/// Whether the `len` bytes of `text` from `from` on are the first `len`
/// bytes of `word`.
fn range_eq(text: &[u8], from: usize, word: &[u8], len: usize) -> (r: bool)
    requires
        from + len <= text.len(),
        len <= word.len(),
    ensures
        r == (text@.subrange(from as int, from + len) == word@.subrange(0, len as int)),
{
    let mut k: usize = 0;
    while k < len
        invariant
            k <= len,
            from + len <= text.len(),
            len <= word.len(),
            forall|j: int| 0 <= j < k ==> text@[from + j] == word@[j],
        decreases len - k,
    {
        if text[from + k] != word[k] {
            assert(text@.subrange(from as int, from + len)[k as int] != word@.subrange(
                0,
                len as int,
            )[k as int]);
            return false;
        }
        k += 1;
    }
    assert(text@.subrange(from as int, from + len) =~= word@.subrange(0, len as int));
    true
}

/// Whether an opening or a closing tag with the name `tagname` stands at `pos`.
pub fn html_is_tag(text: &[u8], pos: usize, tagname: &[u8]) -> (r: HtmlTag)
    requires
        pos <= text.len(),
    ensures
        r == spec_is_tag(text@, pos as int, tagname@),
{
    let size: usize = text.len() - pos;
    if size < 3 || text[pos] != 0x3c {
        return HtmlTag::Neither;
    }
    let closed: bool = text[pos + 1] == 0x2f;
    let i: usize = if closed {
        2
    } else {
        1
    };
    let e: usize = if size - i >= tagname.len() {
        i + tagname.len()
    } else {
        size
    };
    if !range_eq(text, pos + i, tagname, e - i) {
        return HtmlTag::Neither;
    }
    if e >= size {
        return HtmlTag::Neither;
    }
    if white(text[pos + e]) || text[pos + e] == 0x3e {
        return if closed {
            HtmlTag::Close
        } else {
            HtmlTag::Open
        };
    }
    HtmlTag::Neither
}

/// The name of the tag whose content is left as it is, where one opens
/// at `pos`: `pre`, `code`, `var`, `samp`, `kbd`, `math`, `script` or
/// `style`.
pub open spec fn spec_skip_tag(text: Seq<u8>, pos: int) -> Option<Seq<u8>> {
    if spec_is_tag(text, pos, "pre".spec_bytes()) == HtmlTag::Open {
        Some("pre".spec_bytes())
    } else if spec_is_tag(text, pos, "code".spec_bytes()) == HtmlTag::Open {
        Some("code".spec_bytes())
    } else if spec_is_tag(text, pos, "var".spec_bytes()) == HtmlTag::Open {
        Some("var".spec_bytes())
    } else if spec_is_tag(text, pos, "samp".spec_bytes()) == HtmlTag::Open {
        Some("samp".spec_bytes())
    } else if spec_is_tag(text, pos, "kbd".spec_bytes()) == HtmlTag::Open {
        Some("kbd".spec_bytes())
    } else if spec_is_tag(text, pos, "math".spec_bytes()) == HtmlTag::Open {
        Some("math".spec_bytes())
    } else if spec_is_tag(text, pos, "script".spec_bytes()) == HtmlTag::Open {
        Some("script".spec_bytes())
    } else if spec_is_tag(text, pos, "style".spec_bytes()) == HtmlTag::Open {
        Some("style".spec_bytes())
    } else {
        None
    }
}

/// The bytes of an optional name.
pub open spec fn name_bytes(t: Option<&'static str>) -> Option<Seq<u8>> {
    match t {
        Some(s) => Some(s.spec_bytes()),
        None => None,
    }
}

fn skip_tag(text: &[u8], pos: usize) -> (r: Option<&'static str>)
    requires
        pos <= text.len(),
    ensures
        name_bytes(r) == spec_skip_tag(text@, pos as int),
{
    if html_is_tag(text, pos, "pre".as_bytes()) == HtmlTag::Open {
        Some("pre")
    } else if html_is_tag(text, pos, "code".as_bytes()) == HtmlTag::Open {
        Some("code")
    } else if html_is_tag(text, pos, "var".as_bytes()) == HtmlTag::Open {
        Some("var")
    } else if html_is_tag(text, pos, "samp".as_bytes()) == HtmlTag::Open {
        Some("samp")
    } else if html_is_tag(text, pos, "kbd".as_bytes()) == HtmlTag::Open {
        Some("kbd")
    } else if html_is_tag(text, pos, "math".as_bytes()) == HtmlTag::Open {
        Some("math")
    } else if html_is_tag(text, pos, "script".as_bytes()) == HtmlTag::Open {
        Some("script")
    } else if html_is_tag(text, pos, "style".as_bytes()) == HtmlTag::Open {
        Some("style")
    } else {
        None
    }
}

/// Where the comment that starts at `pos` ends, counted from `pos`: at
/// the last byte of the first `-->` from `pos + i` on, or at the end of
/// the text.
pub open spec fn smart_comment_end(text: Seq<u8>, pos: int, i: int) -> int
    decreases text.len() - pos - i,
{
    let size = text.len() - pos;
    if size - i > 3 && !starts_with_at(text, pos + i, "-->".spec_bytes()) {
        smart_comment_end(text, pos, i + 1)
    } else if size - i < 3 {
        size
    } else {
        i + 3
    }
}

/// Where the closing tag `tag` starts, counted from `pos`: the scan
/// stands at `pos + i`.  The length of the text where there is none.
pub open spec fn close_tag_at(text: Seq<u8>, pos: int, i: int, tag: Seq<u8>) -> int
    decreases text.len() - pos - i,
{
    let size = text.len() - pos;
    let j = skipped(text, pos + i, text.len() as int, Class::Not(0x3c)) - pos;
    if i < 0 || i > size || j >= size {
        size
    } else if spec_is_tag(text, pos + j, tag) == HtmlTag::Close {
        j
    } else {
        proof {
            lemma_skipped(text, pos + i, text.len() as int, Class::Not(0x3c));
        }
        close_tag_at(text, pos, j + 1, tag)
    }
}

/// A tag at `pos` goes out as it is, and with it a comment up to its end
/// and, after a tag that holds code, the text up to its closing tag.
pub open spec fn spec_ltag(out: Seq<u8>, text: Seq<u8>, pos: int) -> (Seq<u8>, int) {
    let size = text.len() - pos;
    let c = smart_comment_end(text, pos, 4);
    let first = skipped(text, pos, text.len() as int, Class::Not(0x3e)) - pos;
    let i = if size > 4 && starts_with_at(text, pos, "<!--".spec_bytes()) {
        c
    } else {
        match spec_skip_tag(text, pos) {
            Some(tag) => skipped(
                text,
                pos + close_tag_at(text, pos, first, tag),
                text.len() as int,
                Class::Not(0x3e),
            ) - pos,
            None => first,
        }
    };
    (
        out + text.subrange(pos, pos + (if i < size {
            i + 1
        } else {
            size
        })),
        i,
    )
}

fn cb_ltag(ob: &mut Buffer, text: &[u8], pos: usize) -> (n: usize)
    requires
        pos < text.len(),
    ensures
        pos + n <= text.len(),
        (final(ob)@, n as int) == spec_ltag(old(ob)@, text@, pos as int),
        final(ob).spec_unit() == old(ob).spec_unit(),
        old(ob).wf() ==> final(ob).wf(),
{
    let size: usize = text.len() - pos;
    let mut i: usize = 0;
    if size > 4 && has_prefix_at(text, pos, "<!--".as_bytes()) {
        i = 4;
        while size - i > 3 && !has_prefix_at(text, pos + i, "-->".as_bytes())
            invariant
                ob.spec_unit() == old(ob).spec_unit(),
                old(ob).wf() ==> ob.wf(),
                4 <= i < size,
                size == text.len() - pos,
                smart_comment_end(text@, pos as int, 4) == smart_comment_end(
                    text@,
                    pos as int,
                    i as int,
                ),
            decreases size - i,
        {
            i += 1;
        }
        i = if size - i < 3 {
            size
        } else {
            i + 3
        };
    } else {
        i = skip(text, pos, text.len(), Class::Not(0x3e)) - pos;
        match skip_tag(text, pos) {
            Some(tag) => {
                let ghost first = i;
                loop
                    invariant_except_break
                        ob.spec_unit() == old(ob).spec_unit(),
                        old(ob).wf() ==> ob.wf(),
                        close_tag_at(text@, pos as int, first as int, tag.spec_bytes())
                            == close_tag_at(text@, pos as int, i as int, tag.spec_bytes()),
                    invariant
                        ob.spec_unit() == old(ob).spec_unit(),
                        old(ob).wf() ==> ob.wf(),
                        i <= size,
                        size == text.len() - pos,
                    ensures
                        i <= size,
                        i == close_tag_at(text@, pos as int, first as int, tag.spec_bytes()),
                    decreases size - i,
                {
                    let j: usize = skip(text, pos + i, text.len(), Class::Not(0x3c)) - pos;
                    i = j;
                    if j >= size {
                        break ;
                    }
                    if html_is_tag(text, pos + j, tag.as_bytes()) == HtmlTag::Close {
                        break ;
                    }
                    i = j + 1;
                }
                i = skip(text, pos + i, text.len(), Class::Not(0x3e)) - pos;
            },
            None => {},
        }
    }
    let stop: usize = if i < size {
        i + 1
    } else {
        size
    };
    ob.put(vstd::slice::slice_subrange(text, pos, pos + stop));
    i
}

/// A backslash is dropped before a quote, a dot, a dash, a backtick or
/// another backslash, which goes out as it is; a backslash at the very
/// end is dropped.
pub open spec fn spec_smart_escape(out: Seq<u8>, text: Seq<u8>, pos: int) -> (Seq<u8>, int) {
    let c = byte_at(text, pos, 1);
    if text.len() - pos < 2 {
        (out, 0)
    } else if c == 0x5c || c == 0x22 || c == 0x27 || c == 0x2e || c == 0x2d || c == 0x60 {
        (out.push(c), 1)
    } else {
        (out.push(0x5c), 0)
    }
}

fn cb_escape(ob: &mut Buffer, text: &[u8], pos: usize) -> (n: usize)
    requires
        pos < text.len(),
    ensures
        pos + n < text.len(),
        (final(ob)@, n as int) == spec_smart_escape(old(ob)@, text@, pos as int),
        final(ob).spec_unit() == old(ob).spec_unit(),
        old(ob).wf() ==> final(ob).wf(),
{
    let size: usize = text.len() - pos;
    if size < 2 {
        return 0;
    }
    let c: u8 = text[pos + 1];
    if c == 0x5c || c == 0x22 || c == 0x27 || c == 0x2e || c == 0x2d || c == 0x60 {
        ob.putc(c);
        1
    } else {
        ob.putc(0x5c);
        0
    }
}

/// Whether smartypants looks at byte `c`.
pub open spec fn is_trigger(c: u8) -> bool {
    c == 0x22 || c == 0x26 || c == 0x27 || c == 0x28 || c == 0x2d || c == 0x2e || c == 0x31 || c
        == 0x33 || c == 0x3c || c == 0x5c || c == 0x60
}

fn trigger(c: u8) -> (r: bool)
    ensures
        r == is_trigger(c),
{
    c == 0x22 || c == 0x26 || c == 0x27 || c == 0x28 || c == 0x2d || c == 0x2e || c == 0x31 || c
        == 0x33 || c == 0x3c || c == 0x5c || c == 0x60
}

/// The first position from `i` on at which a byte stands that
/// smartypants looks at, or the length of the text.
pub open spec fn next_trigger(text: Seq<u8>, i: int) -> int
    decreases text.len() - i,
{
    if 0 <= i < text.len() && !is_trigger(text[i]) {
        next_trigger(text, i + 1)
    } else {
        i
    }
}

/// The next trigger byte stands at or after where the scan for it starts.
pub proof fn lemma_next_trigger(text: Seq<u8>, i: int)
    requires
        0 <= i <= text.len(),
    ensures
        i <= next_trigger(text, i) <= text.len(),
    decreases text.len() - i,
{
    if i < text.len() && !is_trigger(text[i]) {
        lemma_next_trigger(text, i + 1);
    }
}

/// A step that has left the open quotes as they were.
pub open spec fn kept(q: Quotes, r: (Seq<u8>, int)) -> Smart {
    Smart { out: r.0, q, n: r.1 }
}

/// What smartypants does at the trigger byte at `pos`.
pub open spec fn smart_step(out: Seq<u8>, q: Quotes, text: Seq<u8>, pos: int) -> Smart {
    let previous_char = if pos > 0 {
        text[pos - 1]
    } else {
        0
    };
    let c = text[pos];
    if c == 0x2d {
        kept(q, spec_dash(out, text, pos))
    } else if c == 0x28 {
        kept(q, spec_parens(out, text, pos))
    } else if c == 0x27 {
        spec_squote(out, q, previous_char, text, pos, pos)
    } else if c == 0x22 {
        spec_dquote(out, q, previous_char, text, pos)
    } else if c == 0x26 {
        spec_amp(out, q, previous_char, text, pos)
    } else if c == 0x2e {
        kept(q, spec_period(out, text, pos))
    } else if c == 0x31 || c == 0x33 {
        kept(q, spec_number(out, previous_char, text, pos))
    } else if c == 0x3c {
        kept(q, spec_ltag(out, text, pos))
    } else if c == 0x60 {
        spec_backtick(out, q, previous_char, text, pos)
    } else {
        kept(q, spec_smart_escape(out, text, pos))
    }
}

/// What smartypants makes of `text` from `i` on, added to `out`: the
/// bytes that it does not look at go out as they are, and between them
/// what the steps at the trigger bytes give.
pub open spec fn smart_from(text: Seq<u8>, i: int, out: Seq<u8>, q: Quotes) -> Seq<u8>
    decreases text.len() - i,
{
    let j = next_trigger(text, i);
    let out1 = out + text.subrange(i, j);
    let r = smart_step(out1, q, text, j);
    let next = if j + r.n < text.len() {
        j + r.n + 1
    } else {
        text.len() as int
    };
    if i < 0 || i >= text.len() {
        out
    } else if j >= text.len() {
        out1
    } else {
        proof {
            lemma_next_trigger(text, i);
        }
        if r.n < 0 {
            out1
        } else {
            smart_from(text, next, r.out, r.q)
        }
    }
}

/// Performs "smartypants" processing of `content`, appending the result
/// to `output`: straight quotes become curly quotes, `--` and `---` become
/// dashes, `...` becomes an ellipsis, and so on.  Tags, comments and the
/// content of tags that hold code go out as they are.
pub fn smartypants(content: &Buffer, output: &mut Buffer)
    ensures
        final(output)@ == smart_from(
            content@,
            0,
            old(output)@,
            Quotes { in_squote: false, in_dquote: false },
        ),
        final(output).spec_unit() == old(output).spec_unit(),
        old(output).wf() ==> final(output).wf(),
{
    let text = content.as_slice();
    let size: usize = text.len();
    let mut smrt = Quotes { in_squote: false, in_dquote: false };
    let mut i: usize = 0;
    while i < size
        invariant_except_break
            output.spec_unit() == old(output).spec_unit(),
            old(output).wf() ==> output.wf(),
            smart_from(text@, i as int, output@, smrt) == smart_from(
                text@,
                0,
                old(output)@,
                Quotes { in_squote: false, in_dquote: false },
            ),
        invariant
            output.spec_unit() == old(output).spec_unit(),
            old(output).wf() ==> output.wf(),
            i <= size,
            size == text.len(),
        ensures
            output@ == smart_from(
                text@,
                0,
                old(output)@,
                Quotes { in_squote: false, in_dquote: false },
            ),
        decreases size - i,
    {
        let mut j: usize = i;
        while j < size && !trigger(text[j])
            invariant
                output.spec_unit() == old(output).spec_unit(),
                old(output).wf() ==> output.wf(),
                i <= j <= size,
                size == text.len(),
                next_trigger(text@, i as int) == next_trigger(text@, j as int),
            decreases size - j,
        {
            j += 1;
        }
        output.put(vstd::slice::slice_subrange(text, i, j));
        if j >= size {
            break ;
        }
        let previous_char: u8 = if j > 0 {
            text[j - 1]
        } else {
            0
        };
        let c: u8 = text[j];
        let n: usize = if c == 0x2d {
            cb_dash(output, text, j)
        } else if c == 0x28 {
            cb_parens(output, text, j)
        } else if c == 0x27 {
            smartypants_squote(output, &mut smrt, previous_char, text, j, j)
        } else if c == 0x22 {
            cb_dquote(output, &mut smrt, previous_char, text, j)
        } else if c == 0x26 {
            cb_amp(output, &mut smrt, previous_char, text, j)
        } else if c == 0x2e {
            cb_period(output, text, j)
        } else if c == 0x31 || c == 0x33 {
            cb_number(output, previous_char, text, j)
        } else if c == 0x3c {
            cb_ltag(output, text, j)
        } else if c == 0x60 {
            cb_backtick(output, &mut smrt, previous_char, text, j)
        } else {
            cb_escape(output, text, j)
        };
        i = if j + n < size {
            j + n + 1
        } else {
            size
        };
    }
}

} // verus!
