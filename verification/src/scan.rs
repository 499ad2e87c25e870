//! Scanners over bytes that the inline and block parsers share.
//!
//! A scanner looks at the bytes of `data` from `beg` up to `end`; positions
//! that it takes or returns count from `beg`.

use vstd::prelude::*;
use crate::chars::{alnum, is_alnum, lemma_skipped, skip, skipped, spacing, Class};
use crate::renderer::AutoLink;

verus! {

/// The number of backslashes that stand directly before position `at`,
/// looking back no further than `base`.
pub open spec fn backslashes_before(data: Seq<u8>, base: int, at: int) -> int
    decreases at - base,
{
    if at > base && data[at - 1] == 0x5c {
        1 + backslashes_before(data, base, at - 1)
    } else {
        0
    }
}

/// Whether the byte at `base + loc` is escaped: an odd number of
/// backslashes stands before it.
pub open spec fn spec_is_escaped(data: Seq<u8>, base: int, loc: int) -> bool {
    backslashes_before(data, base, base + loc) % 2 == 1
}

/// Whether the byte at `base + loc` is escaped by a backslash.
pub fn is_escaped(data: &[u8], base: usize, loc: usize) -> (r: bool)
    requires
        base + loc <= data.len(),
    ensures
        r == spec_is_escaped(data@, base as int, loc as int),
{
    let mut i: usize = loc;
    while i >= 1 && data[base + i - 1] == 0x5c
        invariant
            i <= loc,
            base + loc <= data.len(),
            backslashes_before(data@, base as int, base + loc) == (loc - i) + backslashes_before(
                data@,
                base as int,
                base + i,
            ),
        decreases i,
    {
        i -= 1;
    }
    (loc - i) % 2 == 1
}

/// Whether every byte from `beg` up to `end` is spacing.
pub open spec fn all_spacing(data: Seq<u8>, beg: int, end: int) -> bool {
    skipped(data, beg, end, Class::Spacing) >= end
}

/// Whether every byte from `beg` up to `end` is a space or a newline.
pub fn is_empty_all(data: &[u8], beg: usize, end: usize) -> (r: bool)
    requires
        beg <= end <= data.len(),
    ensures
        r == all_spacing(data@, beg as int, end as int),
{
    skip(data, beg, end, Class::Spacing) >= end
}

/// The text of `src` from `i` on with each backslash dropped and the byte
/// after it kept.  A backslash at the very end is dropped.
pub open spec fn unescaped(src: Seq<u8>, i: int) -> Seq<u8>
    decreases src.len() - i,
{
    let j = skipped(src, i, src.len() as int, Class::Not(0x5c));
    if i < 0 || i >= src.len() {
        Seq::empty()
    } else if src.len() - j <= 1 {
        src.subrange(i, j)
    } else {
        proof {
            lemma_skipped(src, i, src.len() as int, Class::Not(0x5c));
        }
        src.subrange(i, j) + seq![src[j + 1]] + unescaped(src, j + 2)
    }
}

/// The text of `src` with each backslash dropped and the byte after it kept.
pub fn unscape_text(src: &[u8]) -> (out: Vec<u8>)
    ensures
        out@ == unescaped(src@, 0),
{
    let mut out: Vec<u8> = Vec::new();
    let mut i: usize = 0;
    while i < src.len()
        invariant
            i <= src.len(),
            out@ + unescaped(src@, i as int) == unescaped(src@, 0),
        decreases src.len() - i,
    {
        let j: usize = skip(src, i, src.len(), Class::Not(0x5c));
        let ghost before = out@;
        out.extend_from_slice(vstd::slice::slice_subrange(src, i, j));
        if src.len() - j <= 1 {
            assert(out@ + unescaped(src@, src.len() as int) =~= before + unescaped(src@, i as int));
            i = src.len();
        } else {
            out.push(src[j + 1]);
            assert(out@ + unescaped(src@, j + 2) =~= before + (src@.subrange(i as int, j as int)
                + seq![src@[j + 1]] + unescaped(src@, j + 2)));
            i = j + 2;
        }
    }
    assert(out@ + unescaped(src@, i as int) =~= out@);
    out
}

/// The text from `i` up to `end` with each newline turned into a space,
/// or dropped where a space stands before it.  `beg` is where the text starts.
pub open spec fn respaced(data: Seq<u8>, beg: int, end: int, i: int) -> Seq<u8>
    decreases end - i,
{
    let j = skipped(data, i, end, Class::Not(0x0a));
    if i > end {
        Seq::empty()
    } else if j >= end {
        data.subrange(i, j)
    } else {
        proof {
            lemma_skipped(data, i, end, Class::Not(0x0a));
        }
        data.subrange(i, j) + (if j > beg && data[j - 1] == 0x20 {
            Seq::<u8>::empty()
        } else {
            seq![0x20u8]
        }) + respaced(data, beg, end, j + 1)
    }
}

/// The text from `beg` up to `end` with each newline turned into a space,
/// or dropped where a space stands before it.
pub fn replace_spacing(data: &[u8], beg: usize, end: usize) -> (out: Vec<u8>)
    requires
        beg <= end <= data.len(),
    ensures
        out@ == respaced(data@, beg as int, end as int, beg as int),
{
    let mut out: Vec<u8> = Vec::new();
    let mut i: usize = beg;
    loop
        invariant_except_break
            out@ + respaced(data@, beg as int, end as int, i as int) == respaced(
                data@,
                beg as int,
                end as int,
                beg as int,
            ),
        invariant
            beg <= i <= end <= data.len(),
        ensures
            out@ == respaced(data@, beg as int, end as int, beg as int),
        decreases end - i,
    {
        let j: usize = skip(data, i, end, Class::Not(0x0a));
        let ghost before = out@;
        out.extend_from_slice(vstd::slice::slice_subrange(data, i, j));
        if j >= end {
            break ;
        }
        if !(j > beg && data[j - 1] == 0x20) {
            out.push(0x20);
        }
        assert(out@ + respaced(data@, beg as int, end as int, j + 1) =~= before + respaced(
            data@,
            beg as int,
            end as int,
            i as int,
        ));
        i = j + 1;
    }
    out
}

/// Whether byte `c` can stand in the address of a bracketed email link.
pub open spec fn is_mail_byte(c: u8) -> bool {
    is_alnum(c) || c == 0x40 || c == 0x2d || c == 0x2e || c == 0x5f
}

/// The length of the email address that starts at `beg`, counted from
/// `beg + i` on with `nb` `@` seen before: it ends with `>` and holds
/// letters, digits, `-`, `.`, `_` and exactly one `@`.  Zero where none
/// stands there.
pub open spec fn mail_tail(data: Seq<u8>, beg: int, end: int, i: int, nb: int) -> int
    decreases end - beg - i,
{
    if beg + i >= end {
        0
    } else if data[beg + i] == 0x3e {
        if nb == 1 {
            i + 1
        } else {
            0
        }
    } else if !is_mail_byte(data[beg + i]) {
        0
    } else {
        mail_tail(data, beg, end, i + 1, if data[beg + i] == 0x40 {
            nb + 1
        } else {
            nb
        })
    }
}

/// The length of the email address that ends with `>` and starts at `beg`,
/// or zero: letters, digits, `-`, `.`, `_` and exactly one `@`.
pub fn is_mail_autolink(data: &[u8], beg: usize, end: usize) -> (r: usize)
    requires
        beg <= end <= data.len(),
    ensures
        r == mail_tail(data@, beg as int, end as int, 0, 0),
        r <= end - beg,
{
    let size: usize = end - beg;
    let mut nb: usize = 0;
    let mut i: usize = 0;
    while i < size
        invariant
            i <= size,
            size == end - beg,
            end <= data.len(),
            nb <= i,
            mail_tail(data@, beg as int, end as int, 0, 0) == mail_tail(
                data@,
                beg as int,
                end as int,
                i as int,
                nb as int,
            ),
        decreases size - i,
    {
        let c: u8 = data[beg + i];
        if c == 0x3e {
            return if nb == 1 {
                i + 1
            } else {
                0
            };
        }
        if !alnum(c) {
            if c == 0x40 {
                nb += 1;
            } else if c == 0x2d || c == 0x2e || c == 0x5f {
            } else {
                return 0;
            }
        }
        i += 1;
    }
    0
}

/// What `tag_length` found: the length of the tag, zero where there is
/// none, and the kind of link where the tag is a bracketed address.
#[derive(Clone, Copy, Debug, PartialEq, Eq, Structural)]
pub struct Tag {
    pub len: usize,
    pub auto: Option<AutoLink>,
}

/// Whether byte `c` can stand in the scheme of a bracketed link.
pub open spec fn is_scheme_byte(c: u8) -> bool {
    is_alnum(c) || c == 0x2e || c == 0x2b || c == 0x2d
}

/// The end of the scheme that starts at `beg + i`, counted from `beg`.
pub open spec fn scheme_end(data: Seq<u8>, beg: int, end: int, i: int) -> int
    decreases end - beg - i,
{
    if beg + i < end && is_scheme_byte(data[beg + i]) {
        scheme_end(data, beg, end, i + 1)
    } else {
        i
    }
}

/// The end of the address of a bracketed link that goes on at `beg + i`,
/// counted from `beg`: the first `>`, quote, space or newline that no
/// backslash stands before, or the length of the text.
pub open spec fn address_end(data: Seq<u8>, beg: int, end: int, i: int) -> int
    decreases end - beg - i,
{
    if beg + i >= end {
        end - beg
    } else if data[beg + i] == 0x5c {
        address_end(data, beg, end, if end - beg - i < 2 {
            end - beg
        } else {
            i + 2
        })
    } else if data[beg + i] == 0x3e || data[beg + i] == 0x27 || data[beg + i] == 0x22 || data[beg
        + i] == 0x20 || data[beg + i] == 0x0a {
        i
    } else {
        address_end(data, beg, end, i + 1)
    }
}

/// The length of the HTML tag, comment or bracketed address that starts
/// with the `<` at `beg`, and which of them it is.
pub open spec fn spec_tag_length(data: Seq<u8>, beg: int, end: int) -> Tag {
    let size = end - beg;
    let none = Tag { len: 0, auto: None };
    let comment = crate::html_blocks::comment_end(data, beg, end, 5);
    let first = if data[beg + 1] == 0x2f {
        2int
    } else {
        1int
    };
    let i = scheme_end(data, beg, end, first);
    let mail = mail_tail(data, beg + i, end, 0, 0);
    let colon = i > 2 && i < size && data[beg + i] == 0x3a;
    let j = if colon {
        i + 1
    } else {
        i
    };
    let a = address_end(data, beg, end, j);
    let close = skipped(data, beg + j, end, Class::Not(0x3e)) - beg;
    if size < 3 || data[beg] != 0x3c {
        none
    } else if size > 5 && data[beg + 1] == 0x21 && data[beg + 2] == 0x2d && data[beg + 3] == 0x2d
        && comment < size {
        Tag { len: (comment + 1) as usize, auto: None }
    } else if !is_alnum(data[beg + first]) {
        none
    } else if i > 1 && i < size && data[beg + i] == 0x40 && mail != 0 {
        Tag { len: (i + mail) as usize, auto: Some(AutoLink::Email) }
    } else if colon && j < size {
        if a >= size {
            none
        } else if a > j && data[beg + a] == 0x3e {
            Tag { len: (a + 1) as usize, auto: Some(AutoLink::Normal) }
        } else {
            let close2 = skipped(data, beg + a, end, Class::Not(0x3e)) - beg;
            if close2 >= size {
                none
            } else {
                Tag { len: (close2 + 1) as usize, auto: None }
            }
        }
    } else if close >= size {
        none
    } else {
        Tag { len: (close + 1) as usize, auto: None }
    }
}

/// The length of the HTML tag, comment or bracketed address that starts
/// with the `<` at `beg`.
pub fn tag_length(data: &[u8], beg: usize, end: usize) -> (t: Tag)
    requires
        beg <= end <= data.len(),
    ensures
        t == spec_tag_length(data@, beg as int, end as int),
        t.len <= end - beg,
        t.len == 0 || t.len >= 3,
{
    let size: usize = end - beg;
    let none = Tag { len: 0, auto: None };
    if size < 3 {
        return none;
    }
    if data[beg] != 0x3c {
        return none;
    }
    if size > 5 && data[beg + 1] == 0x21 && data[beg + 2] == 0x2d && data[beg + 3] == 0x2d {
        let e: usize = crate::html_blocks::find_comment_end(data, beg, end, 5);
        if e < size {
            return Tag { len: e + 1, auto: None };
        }
    }
    let first: usize = if data[beg + 1] == 0x2f {
        2
    } else {
        1
    };
    if !alnum(data[beg + first]) {
        return none;
    }
    let mut i: usize = first;
    while i < size && (alnum(data[beg + i]) || data[beg + i] == 0x2e || data[beg + i] == 0x2b
        || data[beg + i] == 0x2d)
        invariant
            first <= i <= size,
            size == end - beg,
            end <= data.len(),
            scheme_end(data@, beg as int, end as int, first as int) == scheme_end(
                data@,
                beg as int,
                end as int,
                i as int,
            ),
        decreases size - i,
    {
        i += 1;
    }
    if i > 1 && i < size && data[beg + i] == 0x40 {
        let j: usize = is_mail_autolink(data, beg + i, end);
        if j != 0 {
            return Tag { len: i + j, auto: Some(AutoLink::Email) };
        }
    }
    let mut auto: bool = false;
    if i > 2 && i < size && data[beg + i] == 0x3a {
        auto = true;
        i += 1;
    }
    if i >= size {
        auto = false;
    } else if auto {
        let j: usize = i;
        while i < size
            invariant
                j <= i <= size,
                size == end - beg,
                end <= data.len(),
                address_end(data@, beg as int, end as int, j as int) == address_end(
                    data@,
                    beg as int,
                    end as int,
                    i as int,
                ),
            ensures
                j <= i <= size,
                i == address_end(data@, beg as int, end as int, j as int),
            decreases size - i,
        {
            let c: u8 = data[beg + i];
            if c == 0x5c {
                i = if size - i < 2 {
                    size
                } else {
                    i + 2
                };
            } else if c == 0x3e || c == 0x27 || c == 0x22 || c == 0x20 || c == 0x0a {
                break ;
            } else {
                i += 1;
            }
        }
        if i >= size {
            return none;
        }
        if i > j && data[beg + i] == 0x3e {
            return Tag { len: i + 1, auto: Some(AutoLink::Normal) };
        }
    }
    let e: usize = skip(data, beg + i, end, Class::Not(0x3e)) - beg;
    if e >= size {
        return none;
    }
    Tag { len: e + 1, auto: None }
}

/// Where the scan for the closing run of a code span stops, and how many
/// backticks in a row stand before that: the scan goes on from `beg + i`,
/// where `bt` backticks in a row have been seen, until `nb` are.
pub open spec fn tick_close(data: Seq<u8>, beg: int, end: int, i: int, nb: int, bt: int) -> (int, int)
    decreases end - beg - i,
{
    if beg + i < end && bt < nb {
        tick_close(data, beg, end, i + 1, nb, if data[beg + i] == 0x60 {
            bt + 1
        } else {
            0
        })
    } else {
        (i, bt)
    }
}

/// The scan for a closing run stops within the text, and not before it started.
pub proof fn lemma_tick_close(data: Seq<u8>, beg: int, end: int, i: int, nb: int, bt: int)
    requires
        beg + i <= end,
    ensures
        i <= tick_close(data, beg, end, i, nb, bt).0 <= end - beg,
    decreases end - beg - i,
{
    if beg + i < end && bt < nb {
        lemma_tick_close(data, beg, end, i + 1, nb, if data[beg + i] == 0x60 {
            bt + 1
        } else {
            0
        });
    }
}

/// The position, counted from `beg`, of the first byte `c` from
/// `beg + from` up to `beg + to`, unless one was found before at `tmp`;
/// zero where there is none.
pub open spec fn first_of(data: Seq<u8>, beg: int, from: int, to: int, c: u8, tmp: int) -> int {
    let f = skipped(data, beg + from, beg + to, Class::Not(c)) - beg;
    if tmp != 0 {
        tmp
    } else if f < to {
        f
    } else {
        0
    }
}

/// The position, counted from `beg`, of the first byte `c` from
/// `beg + from` up to `beg + to`, unless one was found before at `tmp`.
fn find_first(data: &[u8], beg: usize, from: usize, to: usize, c: u8, tmp: usize) -> (r: usize)
    requires
        beg + from <= beg + to <= data.len(),
        tmp == 0 || (tmp < to && data@[beg + tmp] == c),
    ensures
        r == first_of(data@, beg as int, from as int, to as int, c, tmp as int),
        r == 0 || (r < to && data@[beg + r] == c),
{
    if tmp != 0 {
        return tmp;
    }
    let f: usize = skip(data, beg + from, beg + to, Class::Not(c)) - beg;
    if f < to {
        f
    } else {
        0
    }
}

/// The position, counted from `beg`, of the next byte `c` from `beg + i`
/// on that can close a construct: one that no backslash escapes and that
/// stands outside of code spans and links.  Zero where there is none.
pub open spec fn spec_find_emph(data: Seq<u8>, beg: int, end: int, c: u8, i: int) -> int
    decreases end - beg - i,
{
    let size = end - beg;
    let j = skipped(data, beg + i, end, Class::NoneOf(c, 0x5b, 0x60)) - beg;
    if i < 0 || i >= size || j >= size {
        0
    } else if spec_is_escaped(data, beg, j) {
        proof {
            lemma_skipped(data, beg + i, end, Class::NoneOf(c, 0x5b, 0x60));
        }
        spec_find_emph(data, beg, end, c, j + 1)
    } else if data[beg + j] == c {
        j
    } else if data[beg + j] == 0x60 {
        let k = skipped(data, beg + j, end, Class::Is(0x60)) - beg;
        let r = tick_close(data, beg, end, k, k - j, 0);
        let tmp = first_of(data, beg, k, r.0, c, 0);
        if k >= size {
            0
        } else if r.1 < k - j && r.0 >= size {
            tmp
        } else {
            proof {
                lemma_skipped(data, beg + i, end, Class::NoneOf(c, 0x5b, 0x60));
                lemma_skipped(data, beg + j, end, Class::Is(0x60));
                lemma_tick_close(data, beg, end, k, k - j, 0);
            }
            spec_find_emph(data, beg, end, c, r.0)
        }
    } else {
        let a = skipped(data, beg + j + 1, end, Class::Not(0x5d)) - beg;
        let tmp1 = first_of(data, beg, j + 1, a, c, 0);
        let b = skipped(data, beg + a + 1, end, Class::Spacing) - beg;
        let cc = if data[beg + b] == 0x5b {
            0x5du8
        } else {
            0x29u8
        };
        let d = skipped(data, beg + b + 1, end, Class::Not(cc)) - beg;
        let tmp2 = first_of(data, beg, b + 1, d, c, tmp1);
        if a >= size || b >= size {
            tmp1
        } else if data[beg + b] != 0x5b && data[beg + b] != 0x28 {
            if tmp1 != 0 {
                tmp1
            } else {
                proof {
                    lemma_skipped(data, beg + i, end, Class::NoneOf(c, 0x5b, 0x60));
                    lemma_skipped(data, beg + j + 1, end, Class::Not(0x5d));
                    lemma_skipped(data, beg + a + 1, end, Class::Spacing);
                }
                spec_find_emph(data, beg, end, c, b)
            }
        } else if d >= size {
            tmp2
        } else {
            proof {
                lemma_skipped(data, beg + i, end, Class::NoneOf(c, 0x5b, 0x60));
                lemma_skipped(data, beg + j + 1, end, Class::Not(0x5d));
                lemma_skipped(data, beg + a + 1, end, Class::Spacing);
                lemma_skipped(data, beg + b + 1, end, Class::Not(cc));
            }
            spec_find_emph(data, beg, end, c, d + 1)
        }
    }
}

/// A byte that can close a construct stands within the text.
pub proof fn lemma_find_emph_bound(data: Seq<u8>, beg: int, end: int, c: u8, i: int)
    requires
        beg <= end,
        0 <= i,
    ensures
        0 <= spec_find_emph(data, beg, end, c, i),
        spec_find_emph(data, beg, end, c, i) < end - beg || spec_find_emph(data, beg, end, c, i)
            == 0,
    decreases end - beg - i,
{
    let size = end - beg;
    if i < size {
        let j = skipped(data, beg + i, end, Class::NoneOf(c, 0x5b, 0x60)) - beg;
        lemma_skipped(data, beg + i, end, Class::NoneOf(c, 0x5b, 0x60));
        if j < size {
            if spec_is_escaped(data, beg, j) {
                lemma_find_emph_bound(data, beg, end, c, j + 1);
            } else if data[beg + j] == c {
            } else if data[beg + j] == 0x60 {
                let k = skipped(data, beg + j, end, Class::Is(0x60)) - beg;
                lemma_skipped(data, beg + j, end, Class::Is(0x60));
                let r = tick_close(data, beg, end, k, k - j, 0);
                lemma_tick_close(data, beg, end, k, k - j, 0);
                lemma_skipped(data, beg + k, beg + r.0, Class::Not(c));
                if k < size && !(r.1 < k - j && r.0 >= size) {
                    lemma_find_emph_bound(data, beg, end, c, r.0);
                }
            } else {
                let a = skipped(data, beg + j + 1, end, Class::Not(0x5d)) - beg;
                lemma_skipped(data, beg + j + 1, end, Class::Not(0x5d));
                lemma_skipped(data, beg + j + 1, beg + a, Class::Not(c));
                if a < size {
                    let b = skipped(data, beg + a + 1, end, Class::Spacing) - beg;
                    lemma_skipped(data, beg + a + 1, end, Class::Spacing);
                    if b < size {
                        let cc = if data[beg + b] == 0x5b {
                            0x5du8
                        } else {
                            0x29u8
                        };
                        let d = skipped(data, beg + b + 1, end, Class::Not(cc)) - beg;
                        lemma_skipped(data, beg + b + 1, end, Class::Not(cc));
                        lemma_skipped(data, beg + b + 1, beg + d, Class::Not(c));
                        if data[beg + b] != 0x5b && data[beg + b] != 0x28 {
                            lemma_find_emph_bound(data, beg, end, c, b);
                        } else if d < size {
                            lemma_find_emph_bound(data, beg, end, c, d + 1);
                        }
                    }
                }
            }
        }
    }
}

/// Looks for the next byte `c` from `beg` on that can close a construct,
/// skipping code spans and links.  Returns its position, or zero where
/// there is none.
pub fn find_emph_char(data: &[u8], beg: usize, end: usize, c: u8) -> (r: usize)
    requires
        beg <= end <= data.len(),
    ensures
        r == spec_find_emph(data@, beg as int, end as int, c, 0),
        r == 0 || r < end - beg,
        r > 0 ==> data@[beg + r] == c,
{
    let size: usize = end - beg;
    let mut i: usize = 0;
    while i < size
        invariant
            i <= size,
            size == end - beg,
            end <= data.len(),
            spec_find_emph(data@, beg as int, end as int, c, 0) == spec_find_emph(
                data@,
                beg as int,
                end as int,
                c,
                i as int,
            ),
        decreases size - i,
    {
        let j: usize = skip(data, beg + i, end, Class::NoneOf(c, 0x5b, 0x60)) - beg;
        if j >= size {
            return 0;
        }
        if is_escaped(data, beg, j) {
            i = j + 1;
            continue ;
        }
        if data[beg + j] == c {
            return j;
        }
        if data[beg + j] == 0x60 {
            let k: usize = skip(data, beg + j, end, Class::Is(0x60)) - beg;
            if k >= size {
                return 0;
            }
            let nb: usize = k - j;
            let mut e: usize = k;
            let mut bt: usize = 0;
            while e < size && bt < nb
                invariant
                    k <= e <= size,
                    bt <= nb,
                    size == end - beg,
                    end <= data.len(),
                    tick_close(data@, beg as int, end as int, k as int, nb as int, 0)
                        == tick_close(
                        data@,
                        beg as int,
                        end as int,
                        e as int,
                        nb as int,
                        bt as int,
                    ),
                decreases size - e,
            {
                if data[beg + e] == 0x60 {
                    bt += 1;
                } else {
                    bt = 0;
                }
                e += 1;
            }
            if bt < nb && e >= size {
                return find_first(data, beg, k, e, c, 0);
            }
            i = e;
        } else {
            let a: usize = skip(data, beg + j + 1, end, Class::Not(0x5d)) - beg;
            let tmp1: usize = find_first(data, beg, j + 1, a, c, 0);
            if a >= size {
                return tmp1;
            }
            let b: usize = skip(data, beg + a + 1, end, Class::Spacing) - beg;
            if b >= size {
                return tmp1;
            }
            if data[beg + b] != 0x5b && data[beg + b] != 0x28 {
                if tmp1 != 0 {
                    return tmp1;
                }
                i = b;
                continue ;
            }
            let cc: u8 = if data[beg + b] == 0x5b {
                0x5d
            } else {
                0x29
            };
            let d: usize = skip(data, beg + b + 1, end, Class::Not(cc)) - beg;
            let tmp2: usize = find_first(data, beg, b + 1, d, c, tmp1);
            if d >= size {
                return tmp2;
            }
            i = d + 1;
        }
    }
    0
}

} // verus!
