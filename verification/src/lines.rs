//! Classification of lines: what kind of block a line starts.
//!
//! Each function looks at the bytes of `data` from `beg` up to `end`;
//! lengths that it returns count from `beg`.

use vstd::prelude::*;
use crate::chars::{is_digit, lemma_skipped, skip, skipped, Class};

verus! {

/// The position of the first newline from `beg` on, or `end` where there is none.
pub open spec fn spec_line_end(data: Seq<u8>, beg: int, end: int) -> int {
    skipped(data, beg, end, Class::Not(0x0a))
}

/// The position of the first newline from `beg` on, or `end` where there is none.
pub fn line_end(data: &[u8], beg: usize, end: usize) -> (r: usize)
    requires
        beg <= end <= data.len(),
    ensures
        r == spec_line_end(data@, beg as int, end as int),
        beg <= r <= end,
        r < end ==> data@[r as int] == 0x0a,
        forall|k: int| beg <= k < r ==> data@[k] != 0x0a,
{
    skip(data, beg, end, Class::Not(0x0a))
}

/// The position after the first newline from `beg` on, or `end` where
/// there is none: where the next line starts.
pub open spec fn spec_next_line(data: Seq<u8>, beg: int, end: int) -> int {
    if spec_line_end(data, beg, end) < end {
        spec_line_end(data, beg, end) + 1
    } else {
        end
    }
}

/// The next line starts within the range, and after `beg` unless the
/// range is empty.
pub proof fn lemma_next_line(data: Seq<u8>, beg: int, end: int)
    requires
        beg <= end,
    ensures
        beg <= spec_next_line(data, beg, end) <= end,
        beg < end ==> beg < spec_next_line(data, beg, end),
{
    lemma_skipped(data, beg, end, Class::Not(0x0a));
}

/// The position after the first newline from `beg` on, or `end` where
/// there is none: where the next line starts.
pub fn next_line(data: &[u8], beg: usize, end: usize) -> (r: usize)
    requires
        beg <= end <= data.len(),
    ensures
        r == spec_next_line(data@, beg as int, end as int),
        beg <= r <= end,
        beg < end ==> beg < r,
{
    let e: usize = line_end(data, beg, end);
    if e < end {
        e + 1
    } else {
        e
    }
}

/// Whether the first line from `beg` on holds nothing but spaces.
pub open spec fn spec_is_blank(data: Seq<u8>, beg: int, end: int) -> bool {
    let s = skipped(data, beg, end, Class::Is(0x20));
    s >= end || data[s] == 0x0a
}

/// Whether the first line from `beg` on holds nothing but spaces.
pub fn is_blank(data: &[u8], beg: usize, end: usize) -> (r: bool)
    requires
        beg <= end <= data.len(),
    ensures
        r == spec_is_blank(data@, beg as int, end as int),
{
    let s: usize = skip(data, beg, end, Class::Is(0x20));
    s >= end || data[s] == 0x0a
}

/// The number of leading spaces of the line, three at most.
pub open spec fn spec_indent3(data: Seq<u8>, beg: int, end: int) -> int {
    let s = skipped(data, beg, end, Class::Is(0x20)) - beg;
    if s > 3 {
        3
    } else {
        s
    }
}

/// The number of leading spaces of the line, three at most.
pub fn indent3(data: &[u8], beg: usize, end: usize) -> (r: usize)
    requires
        beg <= end <= data.len(),
    ensures
        r == spec_indent3(data@, beg as int, end as int),
        r <= 3,
        r <= end - beg,
{
    let s: usize = skip(data, beg, end, Class::Is(0x20)) - beg;
    if s > 3 {
        3
    } else {
        s
    }
}

/// Whether the rest of a line, from `i` on, holds nothing but the byte `c`
/// and spaces, and with the `n` that came before at least three `c`.
pub open spec fn rule_tail(data: Seq<u8>, i: int, end: int, c: u8, n: int) -> bool
    decreases end - i,
{
    if i < end && data[i] != 0x0a {
        if data[i] == c {
            rule_tail(data, i + 1, end, c, n + 1)
        } else if data[i] != 0x20 {
            false
        } else {
            rule_tail(data, i + 1, end, c, n)
        }
    } else {
        n >= 3
    }
}

/// Whether the line is a horizontal rule: three or more `*`, `-` or `_`,
/// with nothing but spaces between and around them.
pub open spec fn spec_is_hrule(data: Seq<u8>, beg: int, end: int) -> bool {
    let i = spec_indent3(data, beg, end);
    &&& end - beg >= 3
    &&& i + 2 < end - beg
    &&& (data[beg + i] == 0x2a || data[beg + i] == 0x2d || data[beg + i] == 0x5f)
    &&& rule_tail(data, beg + i, end, data[beg + i], 0)
}

/// Whether the line is a horizontal rule.
pub fn is_hrule(data: &[u8], beg: usize, end: usize) -> (r: bool)
    requires
        beg <= end <= data.len(),
    ensures
        r == spec_is_hrule(data@, beg as int, end as int),
{
    let size: usize = end - beg;
    if size < 3 {
        return false;
    }
    let first: usize = indent3(data, beg, end);
    if first + 2 >= size || (data[beg + first] != 0x2a && data[beg + first] != 0x2d && data[beg
        + first] != 0x5f) {
        return false;
    }
    let c: u8 = data[beg + first];
    let mut i: usize = beg + first;
    let mut n: usize = 0;
    while i < end && data[i] != 0x0a
        invariant
            beg + first <= i <= end <= data.len(),
            n <= i - beg,
            first == spec_indent3(data@, beg as int, end as int),
            c == data@[beg + first],
            rule_tail(data@, beg + first, end as int, c, 0) == rule_tail(
                data@,
                i as int,
                end as int,
                c,
                n as int,
            ),
        decreases end - i,
    {
        if data[i] == c {
            n += 1;
        } else if data[i] != 0x20 {
            assert(!rule_tail(data@, i as int, end as int, c, n as int));
            return false;
        }
        i += 1;
    }
    n >= 3
}

/// What `is_codefence` found: where the fence ends, counted from `beg`
/// (zero where the line starts no fence), how many fence bytes it has, and
/// which byte it is made of.
#[derive(Clone, Copy, Debug, PartialEq, Eq, Structural)]
pub struct Fence {
    pub len: usize,
    pub width: usize,
    pub chr: u8,
}

/// The fence that the line starts with: up to three spaces, then three or
/// more `~` or three or more backticks.
pub open spec fn spec_is_codefence(data: Seq<u8>, beg: int, end: int) -> Fence {
    let i = spec_indent3(data, beg, end);
    let c = data[beg + i];
    let e = skipped(data, beg + i + 1, end, Class::Is(c));
    if end - beg < 3 || i + 2 >= end - beg || !(c == 0x7e || c == 0x60) || e - (beg + i) < 3 {
        Fence { len: 0, width: 0, chr: 0 }
    } else {
        Fence { len: (e - beg) as usize, width: (e - (beg + i)) as usize, chr: c }
    }
}

/// Whether the line starts a code fence: three or more `~` or backticks.
pub fn is_codefence(data: &[u8], beg: usize, end: usize) -> (f: Fence)
    requires
        beg <= end <= data.len(),
    ensures
        f == spec_is_codefence(data@, beg as int, end as int),
        f.len <= end - beg,
        f.len > 0 ==> f.width >= 3 && f.len >= 3,
{
    let none = Fence { len: 0, width: 0, chr: 0 };
    let size: usize = end - beg;
    if size < 3 {
        return none;
    }
    let i: usize = indent3(data, beg, end);
    if i + 2 >= size {
        return none;
    }
    let c: u8 = data[beg + i];
    if !(c == 0x7e || c == 0x60) {
        return none;
    }
    let e: usize = skip(data, beg + i + 1, end, Class::Is(c));
    let n: usize = e - (beg + i);
    if n < 3 {
        return none;
    }
    Fence { len: e - beg, width: n, chr: c }
}

/// The first position from `i` on at which the third of three `c` in a
/// row stands, or `end`.
pub open spec fn first_triple(data: Seq<u8>, i: int, end: int, c: u8) -> int
    decreases end - i,
{
    if i < end && !(data[i] == c && data[i - 1] == c && data[i - 2] == c) {
        first_triple(data, i + 1, end, c)
    } else {
        i
    }
}

/// What `parse_codefence` found: the fence, and where the language token
/// of the line stands.
#[derive(Clone, Copy, Debug, PartialEq, Eq, Structural)]
pub struct FenceLine {
    pub fence: Fence,
    pub lang_beg: usize,
    pub lang_end: usize,
}

/// The opening of a fenced code block that the line holds: the fence,
/// then the language, which ends at the next spacing.  A line with a
/// second run of three fence bytes is a code span, not a fence.
pub open spec fn spec_parse_codefence(data: Seq<u8>, beg: int, end: int) -> FenceLine {
    let fence = spec_is_codefence(data, beg, end);
    let a = skipped(data, beg + fence.len, end, Class::Spacing);
    let b = skipped(data, a, end, Class::NotSpacing);
    if fence.len == 0 {
        FenceLine { fence, lang_beg: 0, lang_end: 0 }
    } else if end - a > 2 && first_triple(data, a + 2, end, fence.chr) < end {
        FenceLine { fence: Fence { len: 0, width: 0, chr: 0 }, lang_beg: 0, lang_end: 0 }
    } else {
        FenceLine { fence, lang_beg: (a - beg) as usize, lang_end: (b - beg) as usize }
    }
}

/// Reads a line that opens a fenced code block: the fence, then the language.
pub fn parse_codefence(data: &[u8], beg: usize, end: usize) -> (r: FenceLine)
    requires
        beg <= end <= data.len(),
    ensures
        r == spec_parse_codefence(data@, beg as int, end as int),
        r.fence.len <= end - beg,
        r.lang_beg <= r.lang_end <= end - beg,
        r.fence.len > 0 ==> r.fence.width >= 3,
{
    let fence = is_codefence(data, beg, end);
    if fence.len == 0 {
        return FenceLine { fence, lang_beg: 0, lang_end: 0 };
    }
    let a: usize = skip(data, beg + fence.len, end, Class::Spacing);
    let b: usize = skip(data, a, end, Class::NotSpacing);
    if end - a > 2 {
        let mut i: usize = a + 2;
        while i < end && !(data[i] == fence.chr && data[i - 1] == fence.chr && data[i - 2]
            == fence.chr)
            invariant
                a + 2 <= i <= end <= data.len(),
                first_triple(data@, a + 2, end as int, fence.chr) == first_triple(
                    data@,
                    i as int,
                    end as int,
                    fence.chr,
                ),
            decreases end - i,
        {
            i += 1;
        }
        if i < end {
            return FenceLine {
                fence: Fence { len: 0, width: 0, chr: 0 },
                lang_beg: 0,
                lang_end: 0,
            };
        }
    }
    FenceLine { fence, lang_beg: a - beg, lang_end: b - beg }
}

/// The number of `#` that the line starts with, six at most.
pub open spec fn spec_atx_level(data: Seq<u8>, beg: int, end: int) -> int {
    skipped(data, beg, if end - beg > 6 {
        beg + 6
    } else {
        end
    }, Class::Is(0x23)) - beg
}

/// The number of `#` that the line starts with, six at most.
pub fn atx_level(data: &[u8], beg: usize, end: usize) -> (r: usize)
    requires
        beg <= end <= data.len(),
    ensures
        r == spec_atx_level(data@, beg as int, end as int),
        r <= 6,
        r <= end - beg,
        beg < end && data@[beg as int] == 0x23 ==> r >= 1,
{
    let stop: usize = if end - beg > 6 {
        beg + 6
    } else {
        end
    };
    skip(data, beg, stop, Class::Is(0x23)) - beg
}

/// Whether the line is an ATX header: it starts with `#`, and, where
/// `space_headers` is set, a space follows the hashes.
pub open spec fn spec_is_atxheader(space_headers: bool, data: Seq<u8>, beg: int, end: int) -> bool {
    let level = spec_atx_level(data, beg, end);
    &&& beg < end
    &&& data[beg] == 0x23
    &&& (space_headers ==> (level >= end - beg || data[beg + level] == 0x20))
}

/// Whether the line is an ATX header.
pub fn is_atxheader(space_headers: bool, data: &[u8], beg: usize, end: usize) -> (r: bool)
    requires
        beg <= end <= data.len(),
    ensures
        r == spec_is_atxheader(space_headers, data@, beg as int, end as int),
        r ==> beg < end && data@[beg as int] == 0x23,
{
    let size: usize = end - beg;
    if size == 0 || data[beg] != 0x23 {
        return false;
    }
    if space_headers {
        let level: usize = atx_level(data, beg, end);
        if level < size && data[beg + level] != 0x20 {
            return false;
        }
    }
    true
}

/// Whether the line underlines a setext header: 1 for a line of `=`, 2 for
/// a line of `-`, each with nothing but spaces after it; 0 otherwise.
pub open spec fn spec_is_headerline(data: Seq<u8>, beg: int, end: int) -> i32 {
    let c = data[beg];
    let a = skipped(data, beg + 1, end, Class::Is(c));
    let b = skipped(data, a, end, Class::Is(0x20));
    if beg < end && (c == 0x3d || c == 0x2d) && (b >= end || data[b] == 0x0a) {
        if c == 0x3d {
            1
        } else {
            2
        }
    } else {
        0
    }
}

/// Whether the line underlines a setext header.
pub fn is_headerline(data: &[u8], beg: usize, end: usize) -> (r: i32)
    requires
        beg <= end <= data.len(),
    ensures
        r == spec_is_headerline(data@, beg as int, end as int),
        0 <= r <= 2,
{
    if end - beg == 0 {
        return 0;
    }
    let c: u8 = data[beg];
    if c == 0x3d || c == 0x2d {
        let a: usize = skip(data, beg + 1, end, Class::Is(c));
        let b: usize = skip(data, a, end, Class::Is(0x20));
        if b >= end || data[b] == 0x0a {
            return if c == 0x3d {
                1
            } else {
                2
            };
        }
    }
    0
}

/// Whether the line after the first one underlines a setext header.
pub open spec fn spec_is_next_headerline(data: Seq<u8>, beg: int, end: int) -> bool {
    let e = spec_line_end(data, beg, end);
    end - e > 1 && spec_is_headerline(data, e + 1, end) != 0
}

/// Whether the line after the first one underlines a setext header.
pub fn is_next_headerline(data: &[u8], beg: usize, end: usize) -> (r: bool)
    requires
        beg <= end <= data.len(),
    ensures
        r == spec_is_next_headerline(data@, beg as int, end as int),
{
    let e: usize = line_end(data, beg, end);
    if end - e <= 1 {
        return false;
    }
    is_headerline(data, e + 1, end) != 0
}

/// The length of the block quote prefix of the line: up to three spaces,
/// `>`, and one space where one follows.  Zero where the line has none.
pub open spec fn spec_prefix_quote(data: Seq<u8>, beg: int, end: int) -> int {
    let i = spec_indent3(data, beg, end);
    if beg + i < end && data[beg + i] == 0x3e {
        if beg + i + 1 < end && data[beg + i + 1] == 0x20 {
            i + 2
        } else {
            i + 1
        }
    } else {
        0
    }
}

/// The length of the block quote prefix of the line.
pub fn prefix_quote(data: &[u8], beg: usize, end: usize) -> (r: usize)
    requires
        beg <= end <= data.len(),
    ensures
        r == spec_prefix_quote(data@, beg as int, end as int),
        r <= end - beg,
        r <= 5,
{
    let size: usize = end - beg;
    let i: usize = indent3(data, beg, end);
    if i < size && data[beg + i] == 0x3e {
        if i + 1 < size && data[beg + i + 1] == 0x20 {
            return i + 2;
        }
        return i + 1;
    }
    0
}

/// The length of the indentation that makes the line a code line: four
/// spaces.  Zero where the line has less.
pub open spec fn spec_prefix_code(data: Seq<u8>, beg: int, end: int) -> int {
    if end - beg > 3 && data[beg] == 0x20 && data[beg + 1] == 0x20 && data[beg + 2] == 0x20
        && data[beg + 3] == 0x20 {
        4
    } else {
        0
    }
}

/// The length of the indentation that makes the line a code line.
pub fn prefix_code(data: &[u8], beg: usize, end: usize) -> (r: usize)
    requires
        beg <= end <= data.len(),
    ensures
        r == spec_prefix_code(data@, beg as int, end as int),
        r <= end - beg,
{
    if end - beg > 3 && data[beg] == 0x20 && data[beg + 1] == 0x20 && data[beg + 2] == 0x20
        && data[beg + 3] == 0x20 {
        4
    } else {
        0
    }
}

/// The length of the ordered list marker of the line: up to three spaces,
/// digits, `.` and a space.  Zero where the line has none, and where the
/// next line makes it a setext header.
pub open spec fn spec_prefix_oli(data: Seq<u8>, beg: int, end: int) -> int {
    let i = spec_indent3(data, beg, end);
    let j = skipped(data, beg + i, end, Class::Digit);
    if beg + i >= end || !is_digit(data[beg + i]) {
        0
    } else if end - j <= 1 || data[j] != 0x2e || data[j + 1] != 0x20 {
        0
    } else if spec_is_next_headerline(data, j, end) {
        0
    } else {
        j - beg + 2
    }
}

/// The length of the ordered list marker of the line.
pub fn prefix_oli(data: &[u8], beg: usize, end: usize) -> (r: usize)
    requires
        beg <= end <= data.len(),
    ensures
        r == spec_prefix_oli(data@, beg as int, end as int),
        r <= end - beg,
        r == 0 || r >= 3,
{
    let size: usize = end - beg;
    let i: usize = indent3(data, beg, end);
    if i >= size || !crate::chars::digit(data[beg + i]) {
        return 0;
    }
    let j: usize = skip(data, beg + i, end, Class::Digit);
    if end - j <= 1 || data[j] != 0x2e || data[j + 1] != 0x20 {
        return 0;
    }
    if is_next_headerline(data, j, end) {
        return 0;
    }
    j - beg + 2
}

/// The length of the unordered list marker of the line: up to three
/// spaces, one of `*`, `+` and `-`, and a space.  Zero where the line has
/// none, and where the next line makes it a setext header.
pub open spec fn spec_prefix_uli(data: Seq<u8>, beg: int, end: int) -> int {
    let i = spec_indent3(data, beg, end);
    if end - beg - i <= 1 || (data[beg + i] != 0x2a && data[beg + i] != 0x2b && data[beg + i]
        != 0x2d) || data[beg + i + 1] != 0x20 {
        0
    } else if spec_is_next_headerline(data, beg + i, end) {
        0
    } else {
        i + 2
    }
}

/// The length of the unordered list marker of the line.
pub fn prefix_uli(data: &[u8], beg: usize, end: usize) -> (r: usize)
    requires
        beg <= end <= data.len(),
    ensures
        r == spec_prefix_uli(data@, beg as int, end as int),
        r <= end - beg,
        r == 0 || r >= 2,
{
    let size: usize = end - beg;
    let i: usize = indent3(data, beg, end);
    if size - i <= 1 || (data[beg + i] != 0x2a && data[beg + i] != 0x2b && data[beg + i] != 0x2d)
        || data[beg + i + 1] != 0x20 {
        return 0;
    }
    if is_next_headerline(data, beg + i, end) {
        return 0;
    }
    i + 2
}

} // verus!
