//! The lists of a table of contents are balanced: every list and every
//! item that is opened is closed when the render ends.
//!
//! The renderer writes each list tag on a line of its own, so the tags
//! are counted as lines: a header's text may hold anything but a line
//! feed.

use vstd::prelude::*;
use vstd::string::StringSliceAdditionalSpecFns;
use crate::renderer::html::{decimal, repeated, HtmlState};

verus! {

/// Whether no byte of `s` is a line feed.
pub open spec fn no_feed(s: Seq<u8>) -> bool {
    forall|i: int| 0 <= i < s.len() ==> #[trigger] s[i] != 0x0a
}

/// Whether `s` ends where a line ends: it is empty or its last byte is a
/// line feed.
pub open spec fn whole_lines(s: Seq<u8>) -> bool {
    s.len() == 0 || s.last() == 0x0a
}

/// Whether a line that holds `x` and nothing else starts at `i` in `s`.
pub open spec fn line_at(s: Seq<u8>, x: Seq<u8>, i: int) -> bool {
    &&& 0 <= i
    &&& i + x.len() < s.len()
    &&& (i == 0 || s[i - 1] == 0x0a)
    &&& s.subrange(i, i + x.len()) == x
    &&& s[i + x.len()] == 0x0a
}

/// The number of lines of `s` that start before `n` and hold `x` and
/// nothing else.
pub open spec fn lines_before(s: Seq<u8>, x: Seq<u8>, n: int) -> int
    decreases n,
{
    if n <= 0 {
        0
    } else {
        lines_before(s, x, n - 1) + if line_at(s, x, n - 1) {
            1int
        } else {
            0int
        }
    }
}

/// The number of lines of `s` that hold `x` and nothing else.
pub open spec fn line_count(s: Seq<u8>, x: Seq<u8>) -> int {
    lines_before(s, x, s.len() as int)
}

/// 1 where the line `l` is `x`, 0 where it is not.
pub open spec fn weight(l: Seq<u8>, x: Seq<u8>) -> int {
    if l == x {
        1
    } else {
        0
    }
}

/// In front of other text, whole lines hold the lines that they hold
/// alone.
pub proof fn lemma_lines_left(s1: Seq<u8>, s2: Seq<u8>, x: Seq<u8>, n: int)
    requires
        whole_lines(s1),
        no_feed(x),
        0 <= n <= s1.len(),
    ensures
        lines_before(s1 + s2, x, n) == lines_before(s1, x, n),
    decreases n,
{
    if n > 0 {
        lemma_lines_left(s1, s2, x, n - 1);
        let i = n - 1;
        let s = s1 + s2;
        if i + x.len() < s1.len() {
            assert(s.subrange(i, i + x.len()) =~= s1.subrange(i, i + x.len()));
            assert(s[i + x.len()] == s1[i + x.len()]);
            if i > 0 {
                assert(s[i - 1] == s1[i - 1]);
            }
        } else if line_at(s, x, i) {
            let k = s1.len() - 1 - i;
            assert(s.subrange(i, i + x.len())[k] == s[s1.len() - 1]);
            assert(s[s1.len() - 1] == s1.last());
            assert(x[k] == 0x0a);
        }
    }
}

/// Behind whole lines, text holds the lines that it holds alone.
pub proof fn lemma_lines_right(s1: Seq<u8>, s2: Seq<u8>, x: Seq<u8>, n: int)
    requires
        whole_lines(s1),
        no_feed(x),
        0 <= n <= s2.len(),
    ensures
        lines_before(s1 + s2, x, s1.len() + n) == lines_before(s1, x, s1.len() as int)
            + lines_before(s2, x, n),
    decreases n,
{
    if n == 0 {
        lemma_lines_left(s1, s2, x, s1.len() as int);
    } else {
        lemma_lines_right(s1, s2, x, n - 1);
        let j = n - 1;
        let i = s1.len() + j;
        let s = s1 + s2;
        if j + x.len() < s2.len() {
            assert(s.subrange(i, i + x.len()) =~= s2.subrange(j, j + x.len()));
            assert(s[i + x.len()] == s2[j + x.len()]);
            if j > 0 {
                assert(s[i - 1] == s2[j - 1]);
            } else if s1.len() > 0 {
                assert(s[i - 1] == s1.last());
            }
        }
    }
}

/// The lines of whole lines and of what follows them add up.
pub proof fn lemma_line_count_concat(s1: Seq<u8>, s2: Seq<u8>, x: Seq<u8>)
    requires
        whole_lines(s1),
        no_feed(x),
    ensures
        line_count(s1 + s2, x) == line_count(s1, x) + line_count(s2, x),
        whole_lines(s2) ==> whole_lines(s1 + s2),
{
    lemma_lines_right(s1, s2, x, s2.len() as int);
    if s2.len() > 0 {
        assert((s1 + s2).last() == s2.last());
    } else {
        assert(s1 + s2 =~= s1);
    }
}

/// One line holds `x` where it is `x`.
pub proof fn lemma_one_line_before(l: Seq<u8>, x: Seq<u8>, n: int)
    requires
        no_feed(l),
        0 <= n <= l.len() + 1,
    ensures
        lines_before(l.push(0x0a), x, n) == if n >= 1 {
            weight(l, x)
        } else {
            0
        },
    decreases n,
{
    if n > 0 {
        lemma_one_line_before(l, x, n - 1);
        let i = n - 1;
        let s = l.push(0x0a);
        if i == 0 {
            if line_at(s, x, 0) {
                if x.len() < l.len() {
                    assert(s[x.len() as int] == l[x.len() as int]);
                }
                assert(s.subrange(0, x.len() as int) =~= l);
            }
            if l == x {
                assert(s.subrange(0, x.len() as int) =~= l);
            }
        } else {
            assert(s[i - 1] == l[i - 1]);
        }
    }
}

/// One line holds `x` where it is `x`.
pub proof fn lemma_one_line(l: Seq<u8>, x: Seq<u8>)
    requires
        no_feed(l),
    ensures
        line_count(l.push(0x0a), x) == weight(l, x),
        whole_lines(l.push(0x0a)),
{
    lemma_one_line_before(l, x, l.len() as int + 1);
}

/// Two lines hold `x` as often as they are `x`.
pub proof fn lemma_two_lines(l1: Seq<u8>, l2: Seq<u8>, x: Seq<u8>)
    requires
        no_feed(l1),
        no_feed(l2),
        no_feed(x),
    ensures
        line_count(l1.push(0x0a) + l2.push(0x0a), x) == weight(l1, x) + weight(l2, x),
        whole_lines(l1.push(0x0a) + l2.push(0x0a)),
{
    lemma_one_line(l1, x);
    lemma_one_line(l2, x);
    lemma_line_count_concat(l1.push(0x0a), l2.push(0x0a), x);
}

/// Whole lines that are repeated hold `x` so many times as often.
pub proof fn lemma_repeated_lines(p: Seq<u8>, n: int, x: Seq<u8>)
    requires
        whole_lines(p),
        no_feed(x),
    ensures
        line_count(repeated(p, n), x) == if n <= 0 {
            0
        } else {
            n * line_count(p, x)
        },
        whole_lines(repeated(p, n)),
    decreases n,
{
    if n > 0 {
        lemma_repeated_lines(p, n - 1, x);
        lemma_line_count_concat(repeated(p, n - 1), p, x);
        let c = line_count(p, x);
        assert(n * c == (n - 1) * c + c) by (nonlinear_arith);
    }
}

/// No decimal digit is a line feed.
pub proof fn lemma_decimal_no_feed(n: nat)
    ensures
        no_feed(decimal(n)),
    decreases n,
{
    if n >= 10 {
        lemma_decimal_no_feed(n / 10);
    }
}

/// The bytes of `<ul>\n<li>\n`.
pub open spec fn bytes_open_item() -> Seq<u8> {
    seq![0x3cu8, 0x75u8, 0x6cu8, 0x3eu8, 0x0au8, 0x3cu8, 0x6cu8, 0x69u8, 0x3eu8, 0x0au8]
}

proof fn lemma_bytes_open_item()
    ensures
        "<ul>\n<li>\n".spec_bytes() == bytes_open_item(),
{
    reveal_strlit("<ul>\n<li>\n");
    let s = "<ul>\n<li>\n";
    assert(vstd::string::is_ascii(s)) by {
        reveal_strlit("<ul>\n<li>\n");
        assert forall|i: int| 0 <= i < s@.len() implies '\0' <= #[trigger] s@[i] <= '\u{7f}' by {
            assert(s@ =~= seq!['<', 'u', 'l', '>', '\n', '<', 'l', 'i', '>', '\n']);
        }
    }
    vstd::string::is_ascii_spec_bytes(s);
    assert(s.spec_bytes() =~= bytes_open_item());
}

/// The bytes of `</li>\n`.
pub open spec fn bytes_close_item() -> Seq<u8> {
    seq![0x3cu8, 0x2fu8, 0x6cu8, 0x69u8, 0x3eu8, 0x0au8]
}

proof fn lemma_bytes_close_item()
    ensures
        "</li>\n".spec_bytes() == bytes_close_item(),
{
    reveal_strlit("</li>\n");
    let s = "</li>\n";
    assert(vstd::string::is_ascii(s)) by {
        reveal_strlit("</li>\n");
        assert forall|i: int| 0 <= i < s@.len() implies '\0' <= #[trigger] s@[i] <= '\u{7f}' by {
            assert(s@ =~= seq!['<', '/', 'l', 'i', '>', '\n']);
        }
    }
    vstd::string::is_ascii_spec_bytes(s);
    assert(s.spec_bytes() =~= bytes_close_item());
}

/// The bytes of `</ul>\n</li>\n`.
pub open spec fn bytes_close_list() -> Seq<u8> {
    seq![0x3cu8, 0x2fu8, 0x75u8, 0x6cu8, 0x3eu8, 0x0au8, 0x3cu8, 0x2fu8, 0x6cu8, 0x69u8, 0x3eu8, 0x0au8]
}

proof fn lemma_bytes_close_list()
    ensures
        "</ul>\n</li>\n".spec_bytes() == bytes_close_list(),
{
    reveal_strlit("</ul>\n</li>\n");
    let s = "</ul>\n</li>\n";
    assert(vstd::string::is_ascii(s)) by {
        reveal_strlit("</ul>\n</li>\n");
        assert forall|i: int| 0 <= i < s@.len() implies '\0' <= #[trigger] s@[i] <= '\u{7f}' by {
            assert(s@ =~= seq!['<', '/', 'u', 'l', '>', '\n', '<', '/', 'l', 'i', '>', '\n']);
        }
    }
    vstd::string::is_ascii_spec_bytes(s);
    assert(s.spec_bytes() =~= bytes_close_list());
}

/// The bytes of `<li>\n`.
pub open spec fn bytes_next_item() -> Seq<u8> {
    seq![0x3cu8, 0x6cu8, 0x69u8, 0x3eu8, 0x0au8]
}

proof fn lemma_bytes_next_item()
    ensures
        "<li>\n".spec_bytes() == bytes_next_item(),
{
    reveal_strlit("<li>\n");
    let s = "<li>\n";
    assert(vstd::string::is_ascii(s)) by {
        reveal_strlit("<li>\n");
        assert forall|i: int| 0 <= i < s@.len() implies '\0' <= #[trigger] s@[i] <= '\u{7f}' by {
            assert(s@ =~= seq!['<', 'l', 'i', '>', '\n']);
        }
    }
    vstd::string::is_ascii_spec_bytes(s);
    assert(s.spec_bytes() =~= bytes_next_item());
}

/// The bytes of `</li>\n<li>\n`.
pub open spec fn bytes_turn_item() -> Seq<u8> {
    seq![0x3cu8, 0x2fu8, 0x6cu8, 0x69u8, 0x3eu8, 0x0au8, 0x3cu8, 0x6cu8, 0x69u8, 0x3eu8, 0x0au8]
}

proof fn lemma_bytes_turn_item()
    ensures
        "</li>\n<li>\n".spec_bytes() == bytes_turn_item(),
{
    reveal_strlit("</li>\n<li>\n");
    let s = "</li>\n<li>\n";
    assert(vstd::string::is_ascii(s)) by {
        reveal_strlit("</li>\n<li>\n");
        assert forall|i: int| 0 <= i < s@.len() implies '\0' <= #[trigger] s@[i] <= '\u{7f}' by {
            assert(s@ =~= seq!['<', '/', 'l', 'i', '>', '\n', '<', 'l', 'i', '>', '\n']);
        }
    }
    vstd::string::is_ascii_spec_bytes(s);
    assert(s.spec_bytes() =~= bytes_turn_item());
}

/// The bytes of `</li>\n</ul>\n`.
pub open spec fn bytes_end_list() -> Seq<u8> {
    seq![0x3cu8, 0x2fu8, 0x6cu8, 0x69u8, 0x3eu8, 0x0au8, 0x3cu8, 0x2fu8, 0x75u8, 0x6cu8, 0x3eu8, 0x0au8]
}

proof fn lemma_bytes_end_list()
    ensures
        "</li>\n</ul>\n".spec_bytes() == bytes_end_list(),
{
    reveal_strlit("</li>\n</ul>\n");
    let s = "</li>\n</ul>\n";
    assert(vstd::string::is_ascii(s)) by {
        reveal_strlit("</li>\n</ul>\n");
        assert forall|i: int| 0 <= i < s@.len() implies '\0' <= #[trigger] s@[i] <= '\u{7f}' by {
            assert(s@ =~= seq!['<', '/', 'l', 'i', '>', '\n', '<', '/', 'u', 'l', '>', '\n']);
        }
    }
    vstd::string::is_ascii_spec_bytes(s);
    assert(s.spec_bytes() =~= bytes_end_list());
}

/// The bytes of `<a href=\"#toc_`.
pub open spec fn bytes_anchor() -> Seq<u8> {
    seq![0x3cu8, 0x61u8, 0x20u8, 0x68u8, 0x72u8, 0x65u8, 0x66u8, 0x3du8, 0x22u8, 0x23u8, 0x74u8, 0x6fu8, 0x63u8, 0x5fu8]
}

proof fn lemma_bytes_anchor()
    ensures
        "<a href=\"#toc_".spec_bytes() == bytes_anchor(),
{
    reveal_strlit("<a href=\"#toc_");
    let s = "<a href=\"#toc_";
    assert(vstd::string::is_ascii(s)) by {
        reveal_strlit("<a href=\"#toc_");
        assert forall|i: int| 0 <= i < s@.len() implies '\0' <= #[trigger] s@[i] <= '\u{7f}' by {
            assert(s@ =~= seq!['<', 'a', ' ', 'h', 'r', 'e', 'f', '=', '\"', '#', 't', 'o', 'c', '_']);
        }
    }
    vstd::string::is_ascii_spec_bytes(s);
    assert(s.spec_bytes() =~= bytes_anchor());
}

/// The bytes of `\">`.
pub open spec fn bytes_anchor_mid() -> Seq<u8> {
    seq![0x22u8, 0x3eu8]
}

proof fn lemma_bytes_anchor_mid()
    ensures
        "\">".spec_bytes() == bytes_anchor_mid(),
{
    reveal_strlit("\">");
    let s = "\">";
    assert(vstd::string::is_ascii(s)) by {
        reveal_strlit("\">");
        assert forall|i: int| 0 <= i < s@.len() implies '\0' <= #[trigger] s@[i] <= '\u{7f}' by {
            assert(s@ =~= seq!['\"', '>']);
        }
    }
    vstd::string::is_ascii_spec_bytes(s);
    assert(s.spec_bytes() =~= bytes_anchor_mid());
}

/// The bytes of `</a>\n`.
pub open spec fn bytes_anchor_end() -> Seq<u8> {
    seq![0x3cu8, 0x2fu8, 0x61u8, 0x3eu8, 0x0au8]
}

proof fn lemma_bytes_anchor_end()
    ensures
        "</a>\n".spec_bytes() == bytes_anchor_end(),
{
    reveal_strlit("</a>\n");
    let s = "</a>\n";
    assert(vstd::string::is_ascii(s)) by {
        reveal_strlit("</a>\n");
        assert forall|i: int| 0 <= i < s@.len() implies '\0' <= #[trigger] s@[i] <= '\u{7f}' by {
            assert(s@ =~= seq!['<', '/', 'a', '>', '\n']);
        }
    }
    vstd::string::is_ascii_spec_bytes(s);
    assert(s.spec_bytes() =~= bytes_anchor_end());
}

/// The bytes of `<ul>`.
pub open spec fn bytes_ul() -> Seq<u8> {
    seq![0x3cu8, 0x75u8, 0x6cu8, 0x3eu8]
}

proof fn lemma_bytes_ul()
    ensures
        "<ul>".spec_bytes() == bytes_ul(),
{
    reveal_strlit("<ul>");
    let s = "<ul>";
    assert(vstd::string::is_ascii(s)) by {
        reveal_strlit("<ul>");
        assert forall|i: int| 0 <= i < s@.len() implies '\0' <= #[trigger] s@[i] <= '\u{7f}' by {
            assert(s@ =~= seq!['<', 'u', 'l', '>']);
        }
    }
    vstd::string::is_ascii_spec_bytes(s);
    assert(s.spec_bytes() =~= bytes_ul());
}

/// The bytes of `<li>`.
pub open spec fn bytes_li() -> Seq<u8> {
    seq![0x3cu8, 0x6cu8, 0x69u8, 0x3eu8]
}

proof fn lemma_bytes_li()
    ensures
        "<li>".spec_bytes() == bytes_li(),
{
    reveal_strlit("<li>");
    let s = "<li>";
    assert(vstd::string::is_ascii(s)) by {
        reveal_strlit("<li>");
        assert forall|i: int| 0 <= i < s@.len() implies '\0' <= #[trigger] s@[i] <= '\u{7f}' by {
            assert(s@ =~= seq!['<', 'l', 'i', '>']);
        }
    }
    vstd::string::is_ascii_spec_bytes(s);
    assert(s.spec_bytes() =~= bytes_li());
}

/// The bytes of `</ul>`.
pub open spec fn bytes_end_ul() -> Seq<u8> {
    seq![0x3cu8, 0x2fu8, 0x75u8, 0x6cu8, 0x3eu8]
}

proof fn lemma_bytes_end_ul()
    ensures
        "</ul>".spec_bytes() == bytes_end_ul(),
{
    reveal_strlit("</ul>");
    let s = "</ul>";
    assert(vstd::string::is_ascii(s)) by {
        reveal_strlit("</ul>");
        assert forall|i: int| 0 <= i < s@.len() implies '\0' <= #[trigger] s@[i] <= '\u{7f}' by {
            assert(s@ =~= seq!['<', '/', 'u', 'l', '>']);
        }
    }
    vstd::string::is_ascii_spec_bytes(s);
    assert(s.spec_bytes() =~= bytes_end_ul());
}

/// The bytes of `</li>`.
pub open spec fn bytes_end_li() -> Seq<u8> {
    seq![0x3cu8, 0x2fu8, 0x6cu8, 0x69u8, 0x3eu8]
}

proof fn lemma_bytes_end_li()
    ensures
        "</li>".spec_bytes() == bytes_end_li(),
{
    reveal_strlit("</li>");
    let s = "</li>";
    assert(vstd::string::is_ascii(s)) by {
        reveal_strlit("</li>");
        assert forall|i: int| 0 <= i < s@.len() implies '\0' <= #[trigger] s@[i] <= '\u{7f}' by {
            assert(s@ =~= seq!['<', '/', 'l', 'i', '>']);
        }
    }
    vstd::string::is_ascii_spec_bytes(s);
    assert(s.spec_bytes() =~= bytes_end_li());
}

/// What a header writes into a table of contents after the list tags:
/// the link to the header.
pub open spec fn entry(count: nat, content: Seq<u8>) -> Seq<u8> {
    bytes_anchor() + decimal(count) + bytes_anchor_mid() + content + bytes_anchor_end()
}

/// The link to a header is one line, and no line of a list tag.
pub proof fn lemma_entry(count: nat, content: Seq<u8>, x: Seq<u8>)
    requires
        no_feed(content),
        x.len() >= 2,
        x[1] != 0x61,
    ensures
        line_count(entry(count, content), x) == 0,
        whole_lines(entry(count, content)),
{
    lemma_decimal_no_feed(count);
    let l = bytes_anchor() + decimal(count) + bytes_anchor_mid() + content + seq![
        0x3cu8,
        0x2fu8,
        0x61u8,
        0x3eu8,
    ];
    assert(entry(count, content) =~= l.push(0x0a));
    assert(l[1] == 0x61);
    assert(no_feed(l));
    lemma_one_line(l, x);
}

/// The list tags that a header writes into a table of contents, from
/// the depth `cur` to the depth `rel`.
pub open spec fn moved(cur: int, rel: int) -> Seq<u8> {
    if rel > cur {
        repeated(bytes_open_item(), rel - cur)
    } else if rel < cur {
        bytes_close_item() + repeated(bytes_close_list(), cur - rel) + bytes_next_item()
    } else {
        bytes_turn_item()
    }
}

/// 1 where `x` is the tag that opens a list, else 0.
pub open spec fn opens_list(x: Seq<u8>) -> int {
    weight(bytes_ul(), x)
}

/// 1 where `x` is the tag that opens an item, else 0.
pub open spec fn opens_item(x: Seq<u8>) -> int {
    weight(bytes_li(), x)
}

/// 1 where `x` is the tag that closes a list, else 0.
pub open spec fn closes_list(x: Seq<u8>) -> int {
    weight(bytes_end_ul(), x)
}

/// 1 where `x` is the tag that closes an item, else 0.
pub open spec fn closes_item(x: Seq<u8>) -> int {
    weight(bytes_end_li(), x)
}

/// The lines of the pieces that a table of contents is made of.
pub proof fn lemma_pieces(x: Seq<u8>)
    requires
        no_feed(x),
    ensures
        line_count(bytes_open_item(), x) == opens_list(x) + opens_item(x),
        line_count(bytes_close_item(), x) == closes_item(x),
        line_count(bytes_close_list(), x) == closes_list(x) + closes_item(x),
        line_count(bytes_next_item(), x) == opens_item(x),
        line_count(bytes_turn_item(), x) == closes_item(x) + opens_item(x),
        line_count(bytes_end_list(), x) == closes_item(x) + closes_list(x),
        whole_lines(bytes_open_item()),
        whole_lines(bytes_close_item()),
        whole_lines(bytes_close_list()),
        whole_lines(bytes_next_item()),
        whole_lines(bytes_turn_item()),
        whole_lines(bytes_end_list()),
{
    let ul = bytes_ul();
    let li = bytes_li();
    let end_ul = bytes_end_ul();
    let end_li = bytes_end_li();
    assert(no_feed(ul) && no_feed(li) && no_feed(end_ul) && no_feed(end_li));
    lemma_two_lines(ul, li, x);
    assert(bytes_open_item() =~= ul.push(0x0a) + li.push(0x0a));
    lemma_one_line(end_li, x);
    assert(bytes_close_item() =~= end_li.push(0x0a));
    lemma_two_lines(end_ul, end_li, x);
    assert(bytes_close_list() =~= end_ul.push(0x0a) + end_li.push(0x0a));
    lemma_one_line(li, x);
    assert(bytes_next_item() =~= li.push(0x0a));
    lemma_two_lines(end_li, li, x);
    assert(bytes_turn_item() =~= end_li.push(0x0a) + li.push(0x0a));
    lemma_two_lines(end_li, end_ul, x);
    assert(bytes_end_list() =~= end_li.push(0x0a) + end_ul.push(0x0a));
}

/// The lines of the list tags that a header writes.
pub proof fn lemma_moved(cur: int, rel: int, x: Seq<u8>)
    requires
        no_feed(x),
    ensures
        whole_lines(moved(cur, rel)),
        line_count(moved(cur, rel), x) == if rel > cur {
            (rel - cur) * (opens_list(x) + opens_item(x))
        } else if rel < cur {
            closes_item(x) + (cur - rel) * (closes_list(x) + closes_item(x)) + opens_item(x)
        } else {
            closes_item(x) + opens_item(x)
        },
{
    lemma_pieces(x);
    if rel > cur {
        lemma_repeated_lines(bytes_open_item(), rel - cur, x);
    } else if rel < cur {
        lemma_repeated_lines(bytes_close_list(), cur - rel, x);
        lemma_line_count_concat(bytes_close_item(), repeated(bytes_close_list(), cur - rel), x);
        lemma_line_count_concat(
            bytes_close_item() + repeated(bytes_close_list(), cur - rel),
            bytes_next_item(),
            x,
        );
    }
}

/// The output of a table of contents after the headers with the given
/// texts and levels, in order.
pub open spec fn toc_run(h: HtmlState, ob: Seq<u8>, headers: Seq<(Seq<u8>, i32)>) -> (
    HtmlState,
    Seq<u8>,
)
    decreases headers.len(),
{
    if headers.len() == 0 {
        (h, ob)
    } else {
        let r = toc_run(h, ob, headers.drop_last());
        r.0.toc_header(r.1, headers.last().0, headers.last().1)
    }
}

/// The lists that are open in `ob`: the tags that open one less the tags
/// that close one.
pub open spec fn open_lists(ob: Seq<u8>) -> int {
    line_count(ob, bytes_ul()) - line_count(ob, bytes_end_ul())
}

/// The items that are open in `ob`: the tags that open one less the tags
/// that close one.
pub open spec fn open_items(ob: Seq<u8>) -> int {
    line_count(ob, bytes_li()) - line_count(ob, bytes_end_li())
}

/// What a header writes, as pieces.
proof fn lemma_toc_header_pieces(h: HtmlState, ob: Seq<u8>, content: Seq<u8>, level: i32)
    requires
        level <= h.nesting_level,
    ensures
        ({
            let offset = if h.current_level == 0 {
                level - 1
            } else {
                h.level_offset
            };
            let rel = HtmlState::toc_depth(level, offset);
            let r = h.toc_header(ob, content, level);
            r.0.current_level == rel && r.1 == ob + (moved(h.current_level, rel) + entry(
                h.header_count as nat,
                content,
            ))
        }),
{
    lemma_bytes_open_item();
    lemma_bytes_close_item();
    lemma_bytes_close_list();
    lemma_bytes_next_item();
    lemma_bytes_turn_item();
    lemma_bytes_anchor();
    lemma_bytes_anchor_mid();
    lemma_bytes_anchor_end();
    let offset = if h.current_level == 0 {
        level - 1
    } else {
        h.level_offset
    };
    let rel = HtmlState::toc_depth(level, offset);
    let r = h.toc_header(ob, content, level);
    assert(r.1 =~= ob + (moved(h.current_level, rel) + entry(h.header_count as nat, content)));
}

/// A header leaves as many lists and items open as its depth says.
pub proof fn lemma_toc_header_balance(h: HtmlState, ob: Seq<u8>, content: Seq<u8>, level: i32)
    requires
        h.current_level >= 0,
        whole_lines(ob),
        no_feed(content),
        open_lists(ob) == h.current_level,
        open_items(ob) == h.current_level,
    ensures
        ({
            let r = h.toc_header(ob, content, level);
            r.0.current_level >= 0 && whole_lines(r.1) && open_lists(r.1) == r.0.current_level
                && open_items(r.1) == r.0.current_level && r.0.toc == h.toc
        }),
{
    if level <= h.nesting_level {
        let offset = if h.current_level == 0 {
            level - 1
        } else {
            h.level_offset
        };
        let rel = HtmlState::toc_depth(level, offset);
        let cur = h.current_level;
        let piece = moved(cur, rel) + entry(h.header_count as nat, content);
        lemma_toc_header_pieces(h, ob, content, level);
        lemma_tag_weights();
        lemma_both(cur, rel, h.header_count as nat, content, bytes_ul());
        lemma_both(cur, rel, h.header_count as nat, content, bytes_li());
        lemma_both(cur, rel, h.header_count as nat, content, bytes_end_ul());
        lemma_both(cur, rel, h.header_count as nat, content, bytes_end_li());
        lemma_line_count_concat(ob, piece, bytes_ul());
        lemma_line_count_concat(ob, piece, bytes_li());
        lemma_line_count_concat(ob, piece, bytes_end_ul());
        lemma_line_count_concat(ob, piece, bytes_end_li());
        lemma_times(rel - cur, opens_list(bytes_ul()) + opens_item(bytes_ul()));
        lemma_times(rel - cur, opens_list(bytes_li()) + opens_item(bytes_li()));
        lemma_times(rel - cur, opens_list(bytes_end_ul()) + opens_item(bytes_end_ul()));
        lemma_times(rel - cur, opens_list(bytes_end_li()) + opens_item(bytes_end_li()));
        lemma_times(cur - rel, closes_list(bytes_ul()) + closes_item(bytes_ul()));
        lemma_times(cur - rel, closes_list(bytes_li()) + closes_item(bytes_li()));
        lemma_times(cur - rel, closes_list(bytes_end_ul()) + closes_item(bytes_end_ul()));
        lemma_times(cur - rel, closes_list(bytes_end_li()) + closes_item(bytes_end_li()));
        lemma_moved(cur, rel, bytes_ul());
        lemma_moved(cur, rel, bytes_li());
        lemma_moved(cur, rel, bytes_end_ul());
        lemma_moved(cur, rel, bytes_end_li());
    }
}

/// A product with 0 and with 1.
proof fn lemma_times(n: int, a: int)
    ensures
        a == 0 ==> n * a == 0,
        a == 1 ==> n * a == n,
{
    assert(a == 0 ==> n * a == 0) by (nonlinear_arith);
    assert(a == 1 ==> n * a == n) by (nonlinear_arith);
}

/// What the four list tags weigh against each other.
proof fn lemma_tag_weights()
    ensures
        opens_list(bytes_ul()) == 1 && opens_item(bytes_ul()) == 0 && closes_list(bytes_ul()) == 0
            && closes_item(bytes_ul()) == 0,
        opens_list(bytes_li()) == 0 && opens_item(bytes_li()) == 1 && closes_list(bytes_li()) == 0
            && closes_item(bytes_li()) == 0,
        opens_list(bytes_end_ul()) == 0 && opens_item(bytes_end_ul()) == 0 && closes_list(
            bytes_end_ul(),
        ) == 1 && closes_item(bytes_end_ul()) == 0,
        opens_list(bytes_end_li()) == 0 && opens_item(bytes_end_li()) == 0 && closes_list(
            bytes_end_li(),
        ) == 0 && closes_item(bytes_end_li()) == 1,
{
    assert(bytes_ul()[1] != bytes_li()[1]);
    assert(bytes_ul().len() != bytes_end_ul().len());
    assert(bytes_ul().len() != bytes_end_li().len());
    assert(bytes_li().len() != bytes_end_ul().len());
    assert(bytes_li().len() != bytes_end_li().len());
    assert(bytes_end_ul()[2] != bytes_end_li()[2]);
}

/// The lines of the list tags and of the link that a header writes.
proof fn lemma_both(cur: int, rel: int, count: nat, content: Seq<u8>, x: Seq<u8>)
    requires
        no_feed(content),
        no_feed(x),
        x.len() >= 2,
        x[1] != 0x61,
    ensures
        line_count(moved(cur, rel) + entry(count, content), x) == line_count(moved(cur, rel), x),
        whole_lines(moved(cur, rel) + entry(count, content)),
{
    lemma_moved(cur, rel, x);
    lemma_entry(count, content, x);
    lemma_line_count_concat(moved(cur, rel), entry(count, content), x);
}

/// After any headers, as many lists and items are open as the depth of
/// the last header says.
pub proof fn lemma_toc_run_balance(h: HtmlState, headers: Seq<(Seq<u8>, i32)>)
    requires
        h.current_level == 0,
        forall|i: int| 0 <= i < headers.len() ==> no_feed((#[trigger] headers[i]).0),
    ensures
        ({
            let r = toc_run(h, Seq::empty(), headers);
            r.0.current_level >= 0 && whole_lines(r.1) && open_lists(r.1) == r.0.current_level
                && open_items(r.1) == r.0.current_level && r.0.toc == h.toc
        }),
    decreases headers.len(),
{
    if headers.len() > 0 {
        lemma_toc_run_balance(h, headers.drop_last());
        let r = toc_run(h, Seq::empty(), headers.drop_last());
        lemma_toc_header_balance(r.0, r.1, headers.last().0, headers.last().1);
    }
}

/// A table of contents is balanced.  After any headers, whose texts hold
/// no line feed, and the end of the render, the output holds as many
/// `<ul>` as `</ul>` and as many `<li>` as `</li>`, and the renderer is
/// at depth 0 again.  Without a header that is listed it is empty.
pub proof fn law_toc_is_balanced(h: HtmlState, headers: Seq<(Seq<u8>, i32)>)
    requires
        h.toc,
        h.current_level == 0,
        forall|i: int| 0 <= i < headers.len() ==> no_feed((#[trigger] headers[i]).0),
    ensures
        ({
            let r = toc_run(h, Seq::empty(), headers);
            let end = r.0.after_render(r.1, false);
            &&& line_count(end.1, "<ul>".spec_bytes()) == line_count(end.1, "</ul>".spec_bytes())
            &&& line_count(end.1, "<li>".spec_bytes()) == line_count(end.1, "</li>".spec_bytes())
            &&& end.0.current_level == 0
            &&& r.0.current_level == 0 ==> end.1 == r.1
        }),
{
    lemma_toc_run_balance(h, headers);
    lemma_bytes_ul();
    lemma_bytes_li();
    lemma_bytes_end_ul();
    lemma_bytes_end_li();
    lemma_bytes_end_list();
    lemma_tag_weights();
    let r = toc_run(h, Seq::empty(), headers);
    let cur = r.0.current_level;
    let tail = repeated(bytes_end_list(), cur);
    lemma_pieces(bytes_ul());
    lemma_pieces(bytes_li());
    lemma_pieces(bytes_end_ul());
    lemma_pieces(bytes_end_li());
    lemma_repeated_lines(bytes_end_list(), cur, bytes_ul());
    lemma_repeated_lines(bytes_end_list(), cur, bytes_li());
    lemma_repeated_lines(bytes_end_list(), cur, bytes_end_ul());
    lemma_repeated_lines(bytes_end_list(), cur, bytes_end_li());
    lemma_line_count_concat(r.1, tail, bytes_ul());
    lemma_line_count_concat(r.1, tail, bytes_li());
    lemma_line_count_concat(r.1, tail, bytes_end_ul());
    lemma_line_count_concat(r.1, tail, bytes_end_li());
    lemma_times(cur, line_count(bytes_end_list(), bytes_ul()));
    lemma_times(cur, line_count(bytes_end_list(), bytes_li()));
    lemma_times(cur, line_count(bytes_end_list(), bytes_end_ul()));
    lemma_times(cur, line_count(bytes_end_list(), bytes_end_li()));
    if cur == 0 {
        assert(r.1 + tail =~= r.1);
    }
}

} // verus!
