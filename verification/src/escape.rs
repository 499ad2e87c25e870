//! Escaping of text for HTML content and for `href` attributes.

use vstd::prelude::*;
use vstd::string::StringSliceAdditionalSpecFns;
use crate::buffer::Buffer;
use crate::chars::{alnum, is_alnum};

verus! {

/// What stands for byte `c` in HTML text: an entity for `"`, `&`, `'`, `<`
/// and `>`, the byte itself otherwise.
pub open spec fn html_escape_byte(c: u8) -> Seq<u8> {
    if c == 0x22 {
        "&quot;".spec_bytes()
    } else if c == 0x26 {
        "&amp;".spec_bytes()
    } else if c == 0x27 {
        "&#39;".spec_bytes()
    } else if c == 0x3c {
        "&lt;".spec_bytes()
    } else if c == 0x3e {
        "&gt;".spec_bytes()
    } else {
        seq![c]
    }
}

/// The text `s` escaped for HTML: each byte replaced by what stands for it.
pub open spec fn html_escaped(s: Seq<u8>) -> Seq<u8>
    decreases s.len(),
{
    if s.len() == 0 {
        Seq::empty()
    } else {
        html_escaped(s.drop_last()) + html_escape_byte(s.last())
    }
}

/// Whether byte `c` needs no escape in HTML text.
pub open spec fn html_safe(c: u8) -> bool {
    c != 0x22 && c != 0x26 && c != 0x27 && c != 0x3c && c != 0x3e
}

/// Text without any byte that needs an escape is escaped to itself.
pub proof fn law_html_escape_keeps_safe_text(s: Seq<u8>)
    requires
        forall|k: int| 0 <= k < s.len() ==> html_safe(#[trigger] s[k]),
    ensures
        html_escaped(s) == s,
    decreases s.len(),
{
    if s.len() > 0 {
        law_html_escape_keeps_safe_text(s.drop_last());
        assert(s.drop_last() + seq![s.last()] =~= s);
    } else {
        assert(s =~= Seq::<u8>::empty());
    }
}

/// Escaping distributes over concatenation.
pub proof fn law_html_escape_distributes(a: Seq<u8>, b: Seq<u8>)
    ensures
        html_escaped(a + b) == html_escaped(a) + html_escaped(b),
    decreases b.len(),
{
    if b.len() == 0 {
        assert(a + b =~= a);
        assert(html_escaped(a) + html_escaped(b) =~= html_escaped(a));
    } else {
        law_html_escape_distributes(a, b.drop_last());
        assert((a + b).drop_last() =~= a + b.drop_last());
        assert((a + b).last() == b.last());
        assert(html_escaped(a) + (html_escaped(b.drop_last()) + html_escape_byte(b.last()))
            =~= (html_escaped(a) + html_escaped(b.drop_last())) + html_escape_byte(b.last()));
    }
}

/// Appends to `ob` what stands for byte `c` in HTML text.
fn put_html_escape(ob: &mut Buffer, c: u8)
    ensures
        final(ob)@ == old(ob)@ + html_escape_byte(c),
        final(ob).spec_unit() == old(ob).spec_unit(),
        old(ob).wf() ==> final(ob).wf(),
{
    if c == 0x22 {
        ob.puts("&quot;");
    } else if c == 0x26 {
        ob.puts("&amp;");
    } else if c == 0x27 {
        ob.puts("&#39;");
    } else if c == 0x3c {
        ob.puts("&lt;");
    } else if c == 0x3e {
        ob.puts("&gt;");
    } else {
        ob.putc(c);
        assert(old(ob)@.push(c) =~= old(ob)@ + seq![c]);
    }
}

/// Appends `data` to `ob`, escaped for HTML.
pub fn escape_html(ob: &mut Buffer, data: &[u8])
    ensures
        final(ob)@ == old(ob)@ + html_escaped(data@),
        final(ob).spec_unit() == old(ob).spec_unit(),
        old(ob).wf() ==> final(ob).wf(),
{
    let mut i: usize = 0;
    assert(data@.subrange(0, 0) =~= Seq::<u8>::empty());
    assert(old(ob)@ + html_escaped(Seq::<u8>::empty()) =~= old(ob)@);
    while i < data.len()
        invariant
            i <= data.len(),
            ob@ == old(ob)@ + html_escaped(data@.subrange(0, i as int)),
            ob.spec_unit() == old(ob).spec_unit(),
            old(ob).wf() ==> ob.wf(),
        decreases data.len() - i,
    {
        let ghost before = ob@;
        put_html_escape(ob, data[i]);
        proof {
            let next = data@.subrange(0, i + 1);
            assert(next.drop_last() =~= data@.subrange(0, i as int));
            assert(next.last() == data@[i as int]);
            assert(before + html_escape_byte(data@[i as int]) =~= old(ob)@ + (html_escaped(
                data@.subrange(0, i as int),
            ) + html_escape_byte(data@[i as int])));
        }
        i += 1;
    }
    assert(data@.subrange(0, data@.len() as int) =~= data@);
}

/// Whether byte `c` can stand in an `href` as it is.
pub open spec fn href_safe(c: u8) -> bool {
    is_alnum(c) || c == 0x21 || c == 0x23 || c == 0x24 || c == 0x25 || (0x28 <= c <= 0x2f) || c
        == 0x3a || c == 0x3b || c == 0x3d || c == 0x3f || c == 0x40 || c == 0x5f
}

/// The upper-case hexadecimal digit for `n`, which is below 16.
pub open spec fn hex_digit(n: u8) -> u8 {
    if n < 10 {
        (0x30 + n) as u8
    } else {
        (0x41 + n - 10) as u8
    }
}

/// What stands for byte `c` in an `href`: the byte itself where it is
/// safe, an entity for `&` and `'`, and `%XX` otherwise.
pub open spec fn href_escape_byte(c: u8) -> Seq<u8> {
    if href_safe(c) {
        seq![c]
    } else if c == 0x26 {
        "&amp;".spec_bytes()
    } else if c == 0x27 {
        "&#x27;".spec_bytes()
    } else {
        seq![0x25u8, hex_digit(c / 16), hex_digit(c % 16)]
    }
}

/// The text `s` escaped for an `href`.
pub open spec fn href_escaped(s: Seq<u8>) -> Seq<u8>
    decreases s.len(),
{
    if s.len() == 0 {
        Seq::empty()
    } else {
        href_escaped(s.drop_last()) + href_escape_byte(s.last())
    }
}

fn is_href_safe(c: u8) -> (r: bool)
    ensures
        r == href_safe(c),
{
    alnum(c) || c == 0x21 || c == 0x23 || c == 0x24 || c == 0x25 || (0x28 <= c && c <= 0x2f) || c
        == 0x3a || c == 0x3b || c == 0x3d || c == 0x3f || c == 0x40 || c == 0x5f
}

fn hex(n: u8) -> (r: u8)
    requires
        n < 16,
    ensures
        r == hex_digit(n),
{
    if n < 10 {
        0x30 + n
    } else {
        0x41 + n - 10
    }
}

/// Appends to `ob` what stands for byte `c` in an `href`.
fn put_href_escape(ob: &mut Buffer, c: u8)
    ensures
        final(ob)@ == old(ob)@ + href_escape_byte(c),
        final(ob).spec_unit() == old(ob).spec_unit(),
        old(ob).wf() ==> final(ob).wf(),
{
    if is_href_safe(c) {
        ob.putc(c);
        assert(old(ob)@.push(c) =~= old(ob)@ + seq![c]);
    } else if c == 0x26 {
        ob.puts("&amp;");
    } else if c == 0x27 {
        ob.puts("&#x27;");
    } else {
        ob.putc(0x25);
        ob.putc(hex(c / 16));
        ob.putc(hex(c % 16));
        assert(old(ob)@.push(0x25u8).push(hex_digit(c / 16)).push(hex_digit(c % 16)) =~= old(ob)@
            + seq![0x25u8, hex_digit(c / 16), hex_digit(c % 16)]);
    }
}

/// Appends `data` to `ob`, escaped for an `href` attribute.
pub fn escape_href(ob: &mut Buffer, data: &[u8])
    ensures
        final(ob)@ == old(ob)@ + href_escaped(data@),
        final(ob).spec_unit() == old(ob).spec_unit(),
        old(ob).wf() ==> final(ob).wf(),
{
    let mut i: usize = 0;
    assert(data@.subrange(0, 0) =~= Seq::<u8>::empty());
    assert(old(ob)@ + href_escaped(Seq::<u8>::empty()) =~= old(ob)@);
    while i < data.len()
        invariant
            i <= data.len(),
            ob@ == old(ob)@ + href_escaped(data@.subrange(0, i as int)),
            ob.spec_unit() == old(ob).spec_unit(),
            old(ob).wf() ==> ob.wf(),
        decreases data.len() - i,
    {
        let ghost before = ob@;
        put_href_escape(ob, data[i]);
        proof {
            let next = data@.subrange(0, i + 1);
            assert(next.drop_last() =~= data@.subrange(0, i as int));
            assert(next.last() == data@[i as int]);
            assert(before + href_escape_byte(data@[i as int]) =~= old(ob)@ + (href_escaped(
                data@.subrange(0, i as int),
            ) + href_escape_byte(data@[i as int])));
        }
        i += 1;
    }
    assert(data@.subrange(0, data@.len() as int) =~= data@);
}

} // verus!
