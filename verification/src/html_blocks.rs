//! Raw HTML blocks: which tags open one, and where it ends.

use vstd::prelude::*;
use vstd::string::StringSliceAdditionalSpecFns;
use crate::chars::{lower, to_lower};
use crate::chars::{lemma_skipped, skip, skipped, Class};
use crate::lines::{is_blank, lemma_next_line, next_line, spec_is_blank, spec_next_line};

verus! {

/// Whether two byte strings are the same.
pub fn bytes_eq(a: &[u8], b: &[u8]) -> (r: bool)
    ensures
        r == (a@ == b@),
{
    if a.len() != b.len() {
        return false;
    }
    let mut i: usize = 0;
    while i < a.len()
        invariant
            i <= a.len(),
            a.len() == b.len(),
            forall|k: int| 0 <= k < i ==> a@[k] == b@[k],
        decreases a.len() - i,
    {
        if a[i] != b[i] {
            return false;
        }
        i += 1;
    }
    assert(a@ =~= b@);
    true
}

/// The bytes from `beg` up to `end` in lower case.
pub open spec fn lowered_seq(data: Seq<u8>, beg: int, end: int) -> Seq<u8> {
    Seq::new((end - beg) as nat, |k: int| lower(data[beg + k]))
}

/// The bytes from `beg` up to `end` in lower case.
pub fn lowered(data: &[u8], beg: usize, end: usize) -> (v: Vec<u8>)
    requires
        beg <= end <= data.len(),
    ensures
        v@ == lowered_seq(data@, beg as int, end as int),
{
    let mut v: Vec<u8> = Vec::new();
    let mut i: usize = beg;
    while i < end
        invariant
            beg <= i <= end <= data.len(),
            v@.len() == i - beg,
            forall|k: int| 0 <= k < v@.len() ==> v@[k] == lower(data@[beg + k]),
        decreases end - i,
    {
        v.push(to_lower(data[i]));
        i += 1;
    }
    assert(v@ =~= lowered_seq(data@, beg as int, end as int));
    v
}

/// Whether `name`, a tag name in lower case, is one of the block-level tags.
pub open spec fn spec_is_block_tag(name: Seq<u8>) -> bool {
    ||| name == "p".spec_bytes()
    ||| name == "dl".spec_bytes()
    ||| name == "h1".spec_bytes()
    ||| name == "h2".spec_bytes()
    ||| name == "h3".spec_bytes()
    ||| name == "h4".spec_bytes()
    ||| name == "h5".spec_bytes()
    ||| name == "h6".spec_bytes()
    ||| name == "ol".spec_bytes()
    ||| name == "ul".spec_bytes()
    ||| name == "del".spec_bytes()
    ||| name == "div".spec_bytes()
    ||| name == "ins".spec_bytes()
    ||| name == "pre".spec_bytes()
    ||| name == "form".spec_bytes()
    ||| name == "math".spec_bytes()
    ||| name == "style".spec_bytes()
    ||| name == "table".spec_bytes()
    ||| name == "figure".spec_bytes()
    ||| name == "iframe".spec_bytes()
    ||| name == "script".spec_bytes()
    ||| name == "fieldset".spec_bytes()
    ||| name == "noscript".spec_bytes()
    ||| name == "blockquote".spec_bytes()
}

/// Whether `name`, a tag name in lower case, is one of the block-level tags.
pub fn is_block_tag(name: &[u8]) -> (r: bool)
    ensures
        r == spec_is_block_tag(name@),
{
    bytes_eq(name, "p".as_bytes()) || bytes_eq(name, "dl".as_bytes()) || bytes_eq(
        name,
        "h1".as_bytes(),
    ) || bytes_eq(name, "h2".as_bytes()) || bytes_eq(name, "h3".as_bytes()) || bytes_eq(
        name,
        "h4".as_bytes(),
    ) || bytes_eq(name, "h5".as_bytes()) || bytes_eq(name, "h6".as_bytes()) || bytes_eq(
        name,
        "ol".as_bytes(),
    ) || bytes_eq(name, "ul".as_bytes()) || bytes_eq(name, "del".as_bytes()) || bytes_eq(
        name,
        "div".as_bytes(),
    ) || bytes_eq(name, "ins".as_bytes()) || bytes_eq(name, "pre".as_bytes()) || bytes_eq(
        name,
        "form".as_bytes(),
    ) || bytes_eq(name, "math".as_bytes()) || bytes_eq(name, "style".as_bytes()) || bytes_eq(
        name,
        "table".as_bytes(),
    ) || bytes_eq(name, "figure".as_bytes()) || bytes_eq(name, "iframe".as_bytes()) || bytes_eq(
        name,
        "script".as_bytes(),
    ) || bytes_eq(name, "fieldset".as_bytes()) || bytes_eq(name, "noscript".as_bytes())
        || bytes_eq(name, "blockquote".as_bytes())
}

/// The length up to the end of the line of the closing tag `</tag>` that
/// stands at `beg` with nothing but spaces after it on its line; zero
/// where no such tag stands there.
pub open spec fn spec_is_end(tag: Seq<u8>, data: Seq<u8>, beg: int, end: int) -> int {
    let i = tag.len() + 3;
    if i > end - beg || data[beg + 1] != 0x2f || data[beg + tag.len() + 2] != 0x3e || lowered_seq(
        data,
        beg + 2,
        beg + 2 + tag.len(),
    ) != tag || !spec_is_blank(data, beg + i, end) {
        0
    } else {
        spec_next_line(data, beg + i, end) - beg
    }
}

/// Whether the closing tag `</tag>` stands at `beg` with nothing but
/// spaces after it on its line.  Returns the length up to the end of that
/// line, or zero.
pub fn htmlblock_is_end(tag: &[u8], data: &[u8], beg: usize, end: usize) -> (r: usize)
    requires
        beg <= end <= data.len(),
    ensures
        r == spec_is_end(tag@, data@, beg as int, end as int),
        r <= end - beg,
{
    let size: usize = end - beg;
    let tag_len: usize = tag.len();
    if tag_len > size || size - tag_len < 3 {
        return 0;
    }
    let i: usize = tag_len + 3;
    if data[beg + 1] != 0x2f || data[beg + tag_len + 2] != 0x3e {
        return 0;
    }
    let name: Vec<u8> = lowered(data, beg + 2, beg + 2 + tag_len);
    if !bytes_eq(name.as_slice(), tag) {
        return 0;
    }
    if !is_blank(data, beg + i, end) {
        return 0;
    }
    next_line(data, beg + i, end) - beg
}

/// The length up to the end of the line of the first closing tag `</tag>`
/// from `beg + i` on that nothing but spaces follows on its line; zero
/// where there is none.
pub open spec fn spec_find_end(tag: Seq<u8>, data: Seq<u8>, beg: int, end: int, i: int) -> int
    decreases end - beg - i,
{
    let j = skipped(data, beg + i, end, Class::Not(0x3c)) - beg;
    if i < 0 || beg + i > end || j >= end - beg {
        0
    } else if spec_is_end(tag, data, beg + j, end) != 0 {
        j + spec_is_end(tag, data, beg + j, end)
    } else {
        proof {
            lemma_skipped(data, beg + i, end, Class::Not(0x3c));
        }
        spec_find_end(tag, data, beg, end, j + 1)
    }
}

/// Looks for the closing tag `</tag>` from `beg` on.  Returns the length up
/// to the end of its line, or zero.
pub fn htmlblock_find_end(tag: &[u8], data: &[u8], beg: usize, end: usize) -> (r: usize)
    requires
        beg <= end <= data.len(),
    ensures
        r == spec_find_end(tag@, data@, beg as int, end as int, 0),
        r <= end - beg,
{
    let size: usize = end - beg;
    let mut i: usize = 0;
    loop
        invariant
            i <= size,
            size == end - beg,
            end <= data.len(),
            spec_find_end(tag@, data@, beg as int, end as int, 0) == spec_find_end(
                tag@,
                data@,
                beg as int,
                end as int,
                i as int,
            ),
        decreases size - i,
    {
        let j: usize = skip(data, beg + i, end, Class::Not(0x3c)) - beg;
        if j >= size {
            return 0;
        }
        let w: usize = htmlblock_is_end(tag, data, beg + j, end);
        if w != 0 {
            return j + w;
        }
        i = j + 1;
    }
}

/// The length up to the end of the line of the first closing tag `</tag>`
/// that stands on an unindented line from `beg + i` on and that a blank
/// line or the end of the text follows; zero where there is none.
pub open spec fn spec_find_end_strict(tag: Seq<u8>, data: Seq<u8>, beg: int, end: int, i: int) -> int
    decreases end - beg - i,
{
    let next = spec_next_line(data, beg + i, end) - beg;
    let mark = i + spec_find_end(tag, data, beg + i, beg + next, 0);
    if i < 0 || beg + i >= end {
        0
    } else if data[beg + i] == 0x20 && i > 0 {
        proof {
            lemma_next_line(data, beg + i, end);
        }
        spec_find_end_strict(tag, data, beg, end, next)
    } else if mark == next && (spec_is_blank(data, beg + next, end) || next >= end - beg) {
        next
    } else {
        proof {
            lemma_next_line(data, beg + i, end);
        }
        spec_find_end_strict(tag, data, beg, end, next)
    }
}

/// Looks for the closing tag `</tag>` on an unindented line that a blank
/// line or the end of the text follows.  Returns the length up to the end
/// of that line, or zero.
pub fn htmlblock_find_end_strict(tag: &[u8], data: &[u8], beg: usize, end: usize) -> (r: usize)
    requires
        beg <= end <= data.len(),
    ensures
        r == spec_find_end_strict(tag@, data@, beg as int, end as int, 0),
        r <= end - beg,
{
    let size: usize = end - beg;
    let mut i: usize = 0;
    loop
        invariant
            i <= size,
            size == end - beg,
            end <= data.len(),
            spec_find_end_strict(tag@, data@, beg as int, end as int, 0) == spec_find_end_strict(
                tag@,
                data@,
                beg as int,
                end as int,
                i as int,
            ),
        decreases size - i,
    {
        if i >= size {
            return 0;
        }
        let next: usize = next_line(data, beg + i, end) - beg;
        if data[beg + i] == 0x20 && i > 0 {
            i = next;
            continue ;
        }
        let mark: usize = i + htmlblock_find_end(tag, data, beg + i, beg + next);
        if mark == next && (is_blank(data, beg + next, end) || next >= size) {
            return next;
        }
        i = next;
    }
}

/// The position of the `>` that ends the comment whose text starts at
/// `beg + i`, counted from `beg`; the length of the text where it has no end.
pub open spec fn comment_end(data: Seq<u8>, beg: int, end: int, i: int) -> int
    decreases end - beg - i,
{
    if beg + i < end && !(data[beg + i - 2] == 0x2d && data[beg + i - 1] == 0x2d && data[beg + i]
        == 0x3e) {
        comment_end(data, beg, end, i + 1)
    } else {
        i
    }
}

/// The position of the `>` that ends the comment whose text starts at
/// `beg + i`, counted from `beg`.
pub fn find_comment_end(data: &[u8], beg: usize, end: usize, i: usize) -> (r: usize)
    requires
        beg + 2 <= beg + i <= end <= data.len(),
    ensures
        r == comment_end(data@, beg as int, end as int, i as int),
        i <= r <= end - beg,
{
    let mut r: usize = i;
    while beg + r < end && !(data[beg + r - 2] == 0x2d && data[beg + r - 1] == 0x2d && data[beg
        + r] == 0x3e)
        invariant
            2 <= i <= r,
            beg + r <= end <= data.len(),
            comment_end(data@, beg as int, end as int, i as int) == comment_end(
                data@,
                beg as int,
                end as int,
                r as int,
            ),
        decreases end - beg - r,
    {
        r += 1;
    }
    r
}

/// The length of the comment that starts at `beg` and that a blank line
/// follows; zero where none does.
pub open spec fn spec_comment_block(data: Seq<u8>, beg: int, end: int) -> int {
    let size = end - beg;
    let i = comment_end(data, beg, end, 5);
    if size > 5 && data[beg + 1] == 0x21 && data[beg + 2] == 0x2d && data[beg + 3] == 0x2d && size
        - i > 1 && spec_is_blank(data, beg + i + 1, end) {
        spec_next_line(data, beg + i + 1, end) - beg
    } else {
        0
    }
}

/// The length of the `<hr>` tag that starts at `beg` and that a blank line
/// follows; zero where none does.
pub open spec fn spec_hr_block(data: Seq<u8>, beg: int, end: int) -> int {
    let size = end - beg;
    let i = skipped(data, beg + 3, end, Class::Not(0x3e)) - beg;
    if size > 4 && (data[beg + 1] == 0x68 || data[beg + 1] == 0x48) && (data[beg + 2] == 0x72
        || data[beg + 2] == 0x52) && size - i > 1 && spec_is_blank(data, beg + i + 1, end) {
        spec_next_line(data, beg + i + 1, end) - beg
    } else {
        0
    }
}

/// The end of the tag name that follows the `<` at `beg`, counted from `beg`.
pub open spec fn tag_name_end(data: Seq<u8>, beg: int, end: int, i: int) -> int
    decreases end - beg - i,
{
    if beg + i < end && data[beg + i] != 0x3e && data[beg + i] != 0x20 {
        tag_name_end(data, beg, end, i + 1)
    } else {
        i
    }
}

/// The length of the raw HTML block that starts at `beg`, or zero where
/// none starts there: a block-level tag up to its closing tag, a comment,
/// or an `<hr>`, each followed by a blank line.
pub open spec fn spec_htmlblock_len(data: Seq<u8>, beg: int, end: int) -> int {
    let size = end - beg;
    let i = tag_name_end(data, beg, end, 1);
    let name = lowered_seq(data, beg + 1, beg + i);
    let strict = spec_find_end_strict(name, data, beg, end, 0);
    if size < 2 || data[beg] != 0x3c {
        0
    } else if i < size && spec_is_block_tag(name) {
        if strict == 0 && name != "ins".spec_bytes() && name != "del".spec_bytes() {
            spec_find_end(name, data, beg, end, 0)
        } else {
            strict
        }
    } else if spec_comment_block(data, beg, end) != 0 {
        spec_comment_block(data, beg, end)
    } else {
        spec_hr_block(data, beg, end)
    }
}

/// The length of the raw HTML block that starts at `beg`, or zero where
/// none starts there.
pub fn htmlblock_len(data: &[u8], beg: usize, end: usize) -> (r: usize)
    requires
        beg <= end <= data.len(),
    ensures
        r == spec_htmlblock_len(data@, beg as int, end as int),
        r <= end - beg,
{
    let size: usize = end - beg;
    if size < 2 || data[beg] != 0x3c {
        return 0;
    }
    let mut i: usize = 1;
    while i < size && data[beg + i] != 0x3e && data[beg + i] != 0x20
        invariant
            1 <= i <= size,
            size == end - beg,
            end <= data.len(),
            tag_name_end(data@, beg as int, end as int, 1) == tag_name_end(
                data@,
                beg as int,
                end as int,
                i as int,
            ),
        decreases size - i,
    {
        i += 1;
    }
    let name: Vec<u8> = lowered(data, beg + 1, beg + i);
    if i < size && is_block_tag(name.as_slice()) {
        let mut tag_end: usize = htmlblock_find_end_strict(name.as_slice(), data, beg, end);
        if tag_end == 0 && !bytes_eq(name.as_slice(), "ins".as_bytes()) && !bytes_eq(
            name.as_slice(),
            "del".as_bytes(),
        ) {
            tag_end = htmlblock_find_end(name.as_slice(), data, beg, end);
        }
        return tag_end;
    }
    if size > 5 && data[beg + 1] == 0x21 && data[beg + 2] == 0x2d && data[beg + 3] == 0x2d {
        let e: usize = find_comment_end(data, beg, end, 5);
        if size - e > 1 && is_blank(data, beg + e + 1, end) {
            return next_line(data, beg + e + 1, end) - beg;
        }
    }
    if size > 4 && (data[beg + 1] == 0x68 || data[beg + 1] == 0x48) && (data[beg + 2] == 0x72
        || data[beg + 2] == 0x52) {
        let e: usize = skip(data, beg + 3, end, Class::Not(0x3e)) - beg;
        if size - e > 1 && is_blank(data, beg + e + 1, end) {
            return next_line(data, beg + e + 1, end) - beg;
        }
    }
    0
}

} // verus!
