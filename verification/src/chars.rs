//! Byte classes used by the scanners.  All of them are ASCII-only.

use vstd::prelude::*;

verus! {

/// A space or a newline: the spacing that the markdown grammar knows.
pub open spec fn is_spacing(c: u8) -> bool {
    c == 0x20 || c == 0x0a
}

/// An ASCII decimal digit.
pub open spec fn is_digit(c: u8) -> bool {
    0x30 <= c <= 0x39
}

/// An ASCII letter.
pub open spec fn is_alpha(c: u8) -> bool {
    (0x41 <= c <= 0x5a) || (0x61 <= c <= 0x7a)
}

/// An ASCII letter or digit.
pub open spec fn is_alnum(c: u8) -> bool {
    is_alpha(c) || is_digit(c)
}

/// ASCII white space: space, tab, newline, vertical tab, form feed, carriage return.
pub open spec fn is_white(c: u8) -> bool {
    c == 0x20 || (0x09 <= c <= 0x0d)
}

/// ASCII punctuation: a printable byte that is neither a space nor a letter or digit.
pub open spec fn is_punct(c: u8) -> bool {
    0x21 <= c <= 0x7e && !is_alnum(c)
}

/// The lower-case form of an ASCII letter; other bytes are unchanged.
pub open spec fn lower(c: u8) -> u8 {
    if 0x41 <= c <= 0x5a {
        (c + 0x20) as u8
    } else {
        c
    }
}

#[verifier::when_used_as_spec(is_spacing)]
pub fn spacing(c: u8) -> (r: bool)
    ensures
        r == is_spacing(c),
{
    c == 0x20 || c == 0x0a
}

#[verifier::when_used_as_spec(is_digit)]
pub fn digit(c: u8) -> (r: bool)
    ensures
        r == is_digit(c),
{
    0x30 <= c && c <= 0x39
}

#[verifier::when_used_as_spec(is_alpha)]
pub fn alpha(c: u8) -> (r: bool)
    ensures
        r == is_alpha(c),
{
    (0x41 <= c && c <= 0x5a) || (0x61 <= c && c <= 0x7a)
}

#[verifier::when_used_as_spec(is_alnum)]
pub fn alnum(c: u8) -> (r: bool)
    ensures
        r == is_alnum(c),
{
    alpha(c) || digit(c)
}

#[verifier::when_used_as_spec(is_white)]
pub fn white(c: u8) -> (r: bool)
    ensures
        r == is_white(c),
{
    c == 0x20 || (0x09 <= c && c <= 0x0d)
}

#[verifier::when_used_as_spec(is_punct)]
pub fn punct(c: u8) -> (r: bool)
    ensures
        r == is_punct(c),
{
    0x21 <= c && c <= 0x7e && !alnum(c)
}

#[verifier::when_used_as_spec(lower)]
pub fn to_lower(c: u8) -> (r: u8)
    ensures
        r == lower(c),
{
    if 0x41 <= c && c <= 0x5a {
        c + 0x20
    } else {
        c
    }
}

/// A copy of the bytes of `data` from `from` up to `to`.
pub fn copy_range(data: &[u8], from: usize, to: usize) -> (v: Vec<u8>)
    requires
        from <= to <= data@.len(),
    ensures
        v@ == data@.subrange(from as int, to as int),
{
    vstd::slice::slice_to_vec(vstd::slice::slice_subrange(data, from, to))
}

/// Whether the bytes of `data` from `at` on start with `word`.
pub open spec fn starts_with_at(data: Seq<u8>, at: int, word: Seq<u8>) -> bool {
    &&& 0 <= at
    &&& at + word.len() <= data.len()
    &&& data.subrange(at, at + word.len()) == word
}

/// Whether the bytes of `data` from `at` on start with `word`.
pub fn has_prefix_at(data: &[u8], at: usize, word: &[u8]) -> (r: bool)
    requires
        at <= data@.len(),
    ensures
        r == starts_with_at(data@, at as int, word@),
{
    if word.len() > data.len() - at {
        return false;
    }
    let mut i: usize = 0;
    while i < word.len()
        invariant
            i <= word.len(),
            at + word.len() <= data.len(),
            forall|k: int| 0 <= k < i ==> data@[at + k] == word@[k],
        decreases word.len() - i,
    {
        if data[at + i] != word[i] {
            assert(data@.subrange(at as int, at + word@.len())[i as int] != word@[i as int]);
            return false;
        }
        i += 1;
    }
    assert(data@.subrange(at as int, at + word@.len()) =~= word@);
    true
}


/// A class of bytes that a scanner skips over.
#[derive(Clone, Copy, Debug, PartialEq, Eq, Structural)]
pub enum Class {
    /// The given byte.
    Is(u8),
    /// Every byte but the given one.
    Not(u8),
    /// A space or a newline.
    Spacing,
    /// Every byte but a space and a newline.
    NotSpacing,
    /// ASCII white space.
    White,
    /// Every byte but ASCII white space.
    NotWhite,
    /// An ASCII digit.
    Digit,
    /// An ASCII letter.
    Alpha,
    /// An ASCII letter or digit.
    Alnum,
    /// Every byte but a line feed and a carriage return.
    NotEol,
    /// A line feed or a carriage return.
    Eol,
    /// Every byte but the three given ones.
    NoneOf(u8, u8, u8),
    /// A byte of the local part of an email address: a letter, a digit,
    /// `.`, `+`, `-`, `_`, or a zero byte.
    Local,
}

/// Whether byte `c` belongs to class `k`.
pub open spec fn member(k: Class, c: u8) -> bool {
    match k {
        Class::Is(b) => c == b,
        Class::Not(b) => c != b,
        Class::Spacing => is_spacing(c),
        Class::NotSpacing => !is_spacing(c),
        Class::White => is_white(c),
        Class::NotWhite => !is_white(c),
        Class::Digit => is_digit(c),
        Class::Alpha => is_alpha(c),
        Class::Alnum => is_alnum(c),
        Class::NotEol => c != 0x0a && c != 0x0d,
        Class::Eol => c == 0x0a || c == 0x0d,
        Class::NoneOf(x, y, z) => c != x && c != y && c != z,
        Class::Local => is_alnum(c) || c == 0x2e || c == 0x2b || c == 0x2d || c == 0x5f || c == 0,
    }
}

/// Whether byte `c` belongs to class `k`.
pub fn is_member(k: Class, c: u8) -> (r: bool)
    ensures
        r == member(k, c),
{
    match k {
        Class::Is(b) => c == b,
        Class::Not(b) => c != b,
        Class::Spacing => spacing(c),
        Class::NotSpacing => !spacing(c),
        Class::White => white(c),
        Class::NotWhite => !white(c),
        Class::Digit => digit(c),
        Class::Alpha => alpha(c),
        Class::Alnum => alnum(c),
        Class::NotEol => c != 0x0a && c != 0x0d,
        Class::Eol => c == 0x0a || c == 0x0d,
        Class::NoneOf(x, y, z) => c != x && c != y && c != z,
        Class::Local => alnum(c) || c == 0x2e || c == 0x2b || c == 0x2d || c == 0x5f || c == 0,
    }
}

/// The first position from `i` on, and before `end`, whose byte is not of
/// class `k`; `end` where there is none.
pub open spec fn skipped(data: Seq<u8>, i: int, end: int, k: Class) -> int
    decreases end - i,
{
    if i < end && member(k, data[i]) {
        skipped(data, i + 1, end, k)
    } else {
        i
    }
}

/// What `skipped` finds: a position within the range, with bytes of the
/// class before it and none at it.
pub proof fn lemma_skipped(data: Seq<u8>, i: int, end: int, k: Class)
    requires
        i <= end,
    ensures
        i <= skipped(data, i, end, k) <= end,
        forall|j: int| i <= j < skipped(data, i, end, k) ==> member(k, #[trigger] data[j]),
        skipped(data, i, end, k) < end ==> !member(k, data[skipped(data, i, end, k)]),
    decreases end - i,
{
    if i < end && member(k, data[i]) {
        lemma_skipped(data, i + 1, end, k);
    }
}

/// A position with bytes of the class before it and none at it is what
/// `skipped` finds.
pub proof fn lemma_skipped_is(data: Seq<u8>, i: int, end: int, k: Class, r: int)
    requires
        i <= r <= end,
        forall|j: int| i <= j < r ==> member(k, #[trigger] data[j]),
        r < end ==> !member(k, data[r]),
    ensures
        skipped(data, i, end, k) == r,
    decreases r - i,
{
    if i < r {
        lemma_skipped_is(data, i + 1, end, k, r);
    }
}

/// Skips the bytes of class `k` from `i` on: the first position before
/// `end` whose byte is not of the class, or `end`.
pub fn skip(data: &[u8], i: usize, end: usize, k: Class) -> (r: usize)
    requires
        i <= end <= data.len(),
    ensures
        r == skipped(data@, i as int, end as int, k),
        i <= r <= end,
        forall|j: int| i <= j < r ==> member(k, #[trigger] data@[j]),
        r < end ==> !member(k, data@[r as int]),
{
    let mut r: usize = i;
    while r < end && is_member(k, data[r])
        invariant
            i <= r <= end <= data.len(),
            skipped(data@, i as int, end as int, k) == skipped(data@, r as int, end as int, k),
            forall|j: int| i <= j < r ==> member(k, #[trigger] data@[j]),
        decreases end - r,
    {
        r += 1;
    }
    r
}

/// The last position down from `i`, and not below `lo`, before which no
/// byte of class `k` stands; `lo` where there is none.
pub open spec fn skipped_back(data: Seq<u8>, lo: int, i: int, k: Class) -> int
    decreases i - lo,
{
    if i > lo && member(k, data[i - 1]) {
        skipped_back(data, lo, i - 1, k)
    } else {
        i
    }
}

/// What `skipped_back` finds: a position within the range, with bytes of
/// the class from it on and none before it.
pub proof fn lemma_skipped_back(data: Seq<u8>, lo: int, i: int, k: Class)
    requires
        lo <= i,
    ensures
        lo <= skipped_back(data, lo, i, k) <= i,
        forall|j: int| skipped_back(data, lo, i, k) <= j < i ==> member(k, #[trigger] data[j]),
        skipped_back(data, lo, i, k) > lo ==> !member(k, data[skipped_back(data, lo, i, k) - 1]),
    decreases i - lo,
{
    if i > lo && member(k, data[i - 1]) {
        lemma_skipped_back(data, lo, i - 1, k);
    }
}

/// Skips the bytes of class `k` backwards from `i`: the last position
/// above `lo` before which a byte that is not of the class stands, or `lo`.
pub fn skip_back(data: &[u8], lo: usize, i: usize, k: Class) -> (r: usize)
    requires
        lo <= i <= data.len(),
    ensures
        r == skipped_back(data@, lo as int, i as int, k),
        lo <= r <= i,
        forall|j: int| r <= j < i ==> member(k, #[trigger] data@[j]),
        r > lo ==> !member(k, data@[r - 1]),
{
    let mut r: usize = i;
    while r > lo && is_member(k, data[r - 1])
        invariant
            lo <= r <= i <= data.len(),
            skipped_back(data@, lo as int, i as int, k) == skipped_back(
                data@,
                lo as int,
                r as int,
                k,
            ),
            forall|j: int| r <= j < i ==> member(k, #[trigger] data@[j]),
        decreases r,
    {
        r -= 1;
    }
    r
}

} // verus!
