//! The HTML renderer and its utilities.

use vstd::prelude::*;
use vstd::string::StringSliceAdditionalSpecFns;
use crate::buffer::Buffer;
use crate::chars::{lemma_skipped, skip, skipped, starts_with_at, white, Class};
use crate::escape::{escape_href, escape_html, href_escaped, html_escaped};
use crate::renderer::list::{List, ORDERED};
use crate::renderer::{
    AutoLink, Render, TableFlags, TABLE_ALIGNMASK, TABLE_ALIGN_CENTER, TABLE_ALIGN_LEFT,
    TABLE_ALIGN_RIGHT, TABLE_HEADER,
};

pub use crate::smartypants::smartypants;

verus! {

/// Ignore raw HTML.
pub const SKIP_HTML: u32 = 0x1;

/// Escape raw HTML.
pub const ESCAPE: u32 = 0x2;

/// Insert a break inside paragraphs for every newline.
pub const HARD_WRAP: u32 = 0x4;

/// Output XHTML.
pub const USE_XHTML: u32 = 0x8;

/// Every bit that names a flag.
pub const ALL_BITS: u32 = 0xf;

/// Flags that control the behaviour of the HTML renderer.
#[derive(Clone, Copy, Debug, PartialEq, Eq, Structural)]
pub struct Flags {
    pub bits: u32,
}

impl Flags {
    /// The set with no flag.
    pub fn empty() -> (f: Flags)
        ensures
            f.bits == 0,
    {
        Flags { bits: 0 }
    }

    /// The set with the given bits; bits that name no flag are dropped.
    pub fn of(bits: u32) -> (f: Flags)
        ensures
            f.bits == bits & ALL_BITS,
    {
        Flags { bits: bits & ALL_BITS }
    }

    /// The raw bits.
    pub fn bits(&self) -> (b: u32)
        ensures
            b == self.bits,
    {
        self.bits
    }

    /// Whether no flag is set.
    pub fn is_empty(&self) -> (r: bool)
        ensures
            r == (self.bits == 0),
    {
        self.bits == 0
    }

    /// Whether the flag with the given bit is set.
    pub open spec fn on(&self, bit: u32) -> bool {
        self.bits & bit != 0
    }

    /// Whether the flag with the given bit is set.
    pub fn contains(&self, bit: u32) -> (r: bool)
        ensures
            r == self.on(bit),
    {
        self.bits & bit != 0
    }

    /// The flags set in either set.
    pub fn union(&self, other: Flags) -> (f: Flags)
        ensures
            f.bits == self.bits | other.bits,
    {
        Flags { bits: self.bits | other.bits }
    }
}

/// The decimal digits of `n`.
pub open spec fn decimal(n: nat) -> Seq<u8>
    decreases n,
{
    if n < 10 {
        seq![(0x30 + n) as u8]
    } else {
        decimal(n / 10) + seq![(0x30 + n % 10) as u8]
    }
}

/// The decimal form of `n`, with a minus sign where it is negative.
pub open spec fn signed_decimal(n: int) -> Seq<u8> {
    if n < 0 {
        seq![0x2du8] + decimal((-n) as nat)
    } else {
        decimal(n as nat)
    }
}

/// Appends the decimal digits of `n`.
pub fn put_decimal(ob: &mut Buffer, n: u64)
    ensures
        final(ob)@ == old(ob)@ + decimal(n as nat),
        final(ob).spec_unit() == old(ob).spec_unit(),
        old(ob).wf() ==> final(ob).wf(),
    decreases n,
{
    if n >= 10 {
        put_decimal(ob, n / 10);
    }
    let ghost before = ob@;
    let d: u8 = (n % 10) as u8;
    ob.putc(0x30 + d);
    proof {
        assert(before.push((0x30 + d) as u8) =~= before + seq![(0x30 + d) as u8]);
        if n >= 10 {
            assert(old(ob)@ + (decimal((n / 10) as nat) + seq![(0x30 + d) as u8]) =~= (old(ob)@
                + decimal((n / 10) as nat)) + seq![(0x30 + d) as u8]);
        }
    }
}

/// Appends the decimal form of `n`.
pub fn put_int(ob: &mut Buffer, n: i64)
    ensures
        final(ob)@ == old(ob)@ + signed_decimal(n as int),
        final(ob).spec_unit() == old(ob).spec_unit(),
        old(ob).wf() ==> final(ob).wf(),
{
    if n < 0 {
        ob.putc(0x2d);
        let m: u64 = if n == i64::MIN {
            0x8000_0000_0000_0000
        } else {
            (-n) as u64
        };
        put_decimal(ob, m);
        assert(old(ob)@.push(0x2du8) + decimal(m as nat) =~= old(ob)@ + (seq![0x2du8] + decimal(
            m as nat,
        )));
    } else {
        put_decimal(ob, n as u64);
    }
}

/// The text `s` repeated `n` times.
pub open spec fn repeated(s: Seq<u8>, n: int) -> Seq<u8>
    decreases n,
{
    if n <= 0 {
        Seq::empty()
    } else {
        repeated(s, n - 1) + s
    }
}

/// HTML renderer.
///
/// Made with [`Html::new`] it renders documents to HTML; made with
/// [`Html::toc`] it renders only their table of contents.
pub struct Html {
    flags: Flags,
    toc: bool,
    header_count: u64,
    current_level: i64,
    level_offset: i64,
    nesting_level: i32,
}

impl Html {
    /// The counters of the renderer are within the range that headers
    /// with levels of 32 bits can bring them to.
    #[verifier::type_invariant]
    closed spec fn inv(&self) -> bool {
        &&& 0 <= self.current_level <= 0x1_0000_0000
        &&& -0x8000_0001 <= self.level_offset <= 0x7fff_fffe
    }

    /// A renderer of documents.  Headers up to `nesting_level` get an
    /// anchor that a table of contents can link to.
    pub fn new(flags: Flags, nesting_level: i32) -> (h: Html)
        ensures
            h@ == (HtmlState {
                flags,
                toc: false,
                header_count: 0,
                current_level: 0,
                level_offset: 0,
                nesting_level: nesting_level as int,
            }),
    {
        Html {
            flags,
            toc: false,
            header_count: 0,
            current_level: 0,
            level_offset: 0,
            nesting_level,
        }
    }

    /// A renderer of tables of contents: it renders nothing but nested
    /// lists of links to the headers up to `nesting_level`.
    pub fn toc(nesting_level: i32) -> (h: Html)
        ensures
            h@ == (HtmlState {
                flags: Flags { bits: 0 },
                toc: true,
                header_count: 0,
                current_level: 0,
                level_offset: 0,
                nesting_level: nesting_level as int,
            }),
    {
        Html {
            flags: Flags::empty(),
            toc: true,
            header_count: 0,
            current_level: 0,
            level_offset: 0,
            nesting_level,
        }
    }

    /// The flags the renderer was made with.
    pub fn flags(&self) -> (f: Flags)
        ensures
            f == self@.flags,
    {
        self.flags
    }
}


/// `ob` with a newline after it, unless it is empty.
pub open spec fn opened(ob: Seq<u8>) -> Seq<u8> {
    if ob.len() > 0 {
        ob.push(0x0au8)
    } else {
        ob
    }
}

/// `content` between the tags `open` and `close`.
pub open spec fn tagged(open: &str, content: Seq<u8>, close: &str) -> Seq<u8> {
    open.spec_bytes() + content + close.spec_bytes()
}

/// Starts a block: a newline goes out unless the output is empty.
fn open_block(ob: &mut Buffer)
    ensures
        final(ob)@ == opened(old(ob)@),
        final(ob).spec_unit() == old(ob).spec_unit(),
        old(ob).wf() ==> final(ob).wf(),
{
    if ob.len() > 0 {
        ob.putc(0x0a);
    }
}

/// Appends `content` between the tags `open` and `close`.
fn put_tagged(ob: &mut Buffer, open: &str, content: &Buffer, close: &str)
    ensures
        final(ob)@ == old(ob)@ + tagged(open, content@, close),
        final(ob).spec_unit() == old(ob).spec_unit(),
        old(ob).wf() ==> final(ob).wf(),
{
    ob.puts(open);
    ob.pipe(content);
    ob.puts(close);
    assert(ob@ =~= old(ob)@ + tagged(open, content@, close));
}

/// A span between tags: nothing goes out for empty content, which is
/// left to the caller.
fn span_tagged(ob: &mut Buffer, open: &str, content: &Buffer, close: &str) -> (handled: bool)
    ensures
        handled == (content@.len() > 0),
        final(ob)@ == if handled {
            old(ob)@ + tagged(open, content@, close)
        } else {
            old(ob)@
        },
        final(ob).spec_unit() == old(ob).spec_unit(),
        old(ob).wf() ==> final(ob).wf(),
{
    if content.is_empty() {
        return false;
    }
    put_tagged(ob, open, content, close);
    true
}

/// The length of `s` without the newlines at its end.
pub open spec fn trimmed_end(s: Seq<u8>) -> int
    decreases s.len(),
{
    if s.len() > 0 && s.last() == 0x0a {
        trimmed_end(s.drop_last())
    } else {
        s.len() as int
    }
}

/// The length of `data` without the newlines at its end.
fn trim_end(data: &[u8]) -> (n: usize)
    ensures
        n == trimmed_end(data@),
        n <= data.len(),
{
    let mut n: usize = data.len();
    assert(data@.subrange(0, n as int) =~= data@);
    while n > 0 && data[n - 1] == 0x0a
        invariant
            n <= data.len(),
            trimmed_end(data@) == trimmed_end(data@.subrange(0, n as int)),
        decreases n,
    {
        assert(data@.subrange(0, n as int).drop_last() =~= data@.subrange(0, n - 1));
        n -= 1;
    }
    n
}

/// The state of an HTML renderer as a mathematical value.
pub ghost struct HtmlState {
    pub flags: Flags,
    pub toc: bool,
    pub header_count: u64,
    pub current_level: int,
    pub level_offset: int,
    pub nesting_level: int,
}

impl View for Html {
    type V = HtmlState;

    closed spec fn view(&self) -> HtmlState {
        HtmlState {
            flags: self.flags,
            toc: self.toc,
            header_count: self.header_count,
            current_level: self.current_level as int,
            level_offset: self.level_offset as int,
            nesting_level: self.nesting_level as int,
        }
    }
}

impl HtmlState {
    /// The line break tag.
    pub open spec fn br(self) -> Seq<u8> {
        if self.flags.on(USE_XHTML) {
            "<br/>\n".spec_bytes()
        } else {
            "<br>\n".spec_bytes()
        }
    }

    /// The horizontal rule tag.
    pub open spec fn hr(self) -> Seq<u8> {
        if self.flags.on(USE_XHTML) {
            "<hr/>\n".spec_bytes()
        } else {
            "<hr>\n".spec_bytes()
        }
    }

    /// The state after a header has been given the next anchor.
    pub open spec fn counted(self) -> HtmlState {
        HtmlState {
            header_count: if self.header_count < u64::MAX {
                (self.header_count + 1) as u64
            } else {
                self.header_count
            },
            ..self
        }
    }

    /// What a code block becomes.
    pub open spec fn code_block(self, ob: Seq<u8>, text: Seq<u8>, lang: Seq<u8>) -> Seq<u8> {
        if self.toc {
            ob
        } else if lang.len() > 0 {
            opened(ob) + "<pre><code class=\"language-".spec_bytes() + html_escaped(lang)
                + "\">".spec_bytes() + html_escaped(text) + "</code></pre>\n".spec_bytes()
        } else {
            opened(ob) + "<pre><code>".spec_bytes() + html_escaped(text)
                + "</code></pre>\n".spec_bytes()
        }
    }

    /// What a block becomes that goes out between tags after a newline.
    pub open spec fn block(self, ob: Seq<u8>, open: &str, content: Seq<u8>, close: &str) -> Seq<u8> {
        if self.toc {
            ob
        } else {
            opened(ob) + tagged(open, content, close)
        }
    }

    /// What a header becomes in a document.
    pub open spec fn doc_header(self, ob: Seq<u8>, content: Seq<u8>, level: i32) -> (
        HtmlState,
        Seq<u8>,
    ) {
        if level <= self.nesting_level {
            (
                self.counted(),
                opened(ob) + "<h".spec_bytes() + signed_decimal(level as int)
                    + " id=\"toc_".spec_bytes() + decimal(self.header_count as nat)
                    + "\">".spec_bytes() + content + "</h".spec_bytes() + signed_decimal(
                    level as int,
                ) + ">\n".spec_bytes(),
            )
        } else {
            (
                self,
                opened(ob) + "<h".spec_bytes() + signed_decimal(level as int) + ">".spec_bytes()
                    + content + "</h".spec_bytes() + signed_decimal(level as int)
                    + ">\n".spec_bytes(),
            )
        }
    }

    /// The depth of a header in a table of contents: its level less
    /// `offset`, and 1 at least, so that a header above the first one
    /// stands in the outermost list.
    pub open spec fn toc_depth(level: i32, offset: int) -> int {
        if level - offset < 1 {
            1
        } else {
            level - offset
        }
    }

    /// What a header becomes in a table of contents: an entry of the list
    /// at the depth of the header, which is its level less the level of
    /// the first header, plus one, and 1 at least.  A deeper header opens
    /// lists down to its depth; a shallower one closes the lists below its
    /// depth; a header at the same depth starts the next item.  No list is
    /// closed that is not open.  Headers above the nesting level give
    /// nothing.
    pub open spec fn toc_header(self, ob: Seq<u8>, content: Seq<u8>, level: i32) -> (
        HtmlState,
        Seq<u8>,
    ) {
        let offset = if self.current_level == 0 {
            level - 1
        } else {
            self.level_offset
        };
        let rel = Self::toc_depth(level, offset);
        let cur = self.current_level;
        let moved = if rel > cur {
            repeated("<ul>\n<li>\n".spec_bytes(), rel - cur)
        } else if rel < cur {
            "</li>\n".spec_bytes() + repeated("</ul>\n</li>\n".spec_bytes(), cur - rel)
                + "<li>\n".spec_bytes()
        } else {
            "</li>\n<li>\n".spec_bytes()
        };
        if level <= self.nesting_level {
            (
                HtmlState { current_level: rel, level_offset: offset, ..self.counted() },
                ob + moved + "<a href=\"#toc_".spec_bytes() + decimal(self.header_count as nat)
                    + "\">".spec_bytes() + content + "</a>\n".spec_bytes(),
            )
        } else {
            (self, ob)
        }
    }

    /// What a header becomes.
    pub open spec fn header(self, ob: Seq<u8>, content: Seq<u8>, level: i32) -> (HtmlState, Seq<u8>) {
        if self.toc {
            self.toc_header(ob, content, level)
        } else {
            self.doc_header(ob, content, level)
        }
    }

    /// What the end of a render gives: in a table of contents of a whole
    /// document the lists that are open are closed, and the count of
    /// headers starts anew.
    pub open spec fn after_render(self, ob: Seq<u8>, inline_render: bool) -> (HtmlState, Seq<u8>) {
        if self.toc && !inline_render {
            (
                HtmlState { header_count: 0, current_level: 0, ..self },
                ob + repeated("</li>\n</ul>\n".spec_bytes(), self.current_level),
            )
        } else {
            (self, ob)
        }
    }

    /// What a list item becomes: its content without the newlines at its end.
    pub open spec fn list_item(self, ob: Seq<u8>, content: Seq<u8>) -> Seq<u8> {
        if self.toc {
            ob
        } else {
            ob + "<li>".spec_bytes() + content.subrange(0, trimmed_end(content))
                + "</li>\n".spec_bytes()
        }
    }

    /// The text of a paragraph from `i` on with a break tag at each
    /// newline but one that is the last byte.
    pub open spec fn hard_wrapped(self, data: Seq<u8>, i: int) -> Seq<u8>
        decreases data.len() - i,
    {
        let j = skipped(data, i, data.len() as int, Class::Not(0x0a));
        if i < 0 || i >= data.len() {
            Seq::empty()
        } else if j >= data.len() - 1 {
            data.subrange(i, j)
        } else {
            proof {
                lemma_skipped(data, i, data.len() as int, Class::Not(0x0a));
            }
            data.subrange(i, j) + self.br() + self.hard_wrapped(data, j + 1)
        }
    }

    /// What a paragraph becomes: its content without the white space at
    /// its start; nothing but the newline that starts a block where it
    /// holds nothing else.
    pub open spec fn paragraph(self, ob: Seq<u8>, content: Seq<u8>) -> Seq<u8> {
        let i = skipped(content, 0, content.len() as int, Class::White);
        if self.toc {
            ob
        } else if i >= content.len() {
            opened(ob)
        } else if self.flags.on(HARD_WRAP) {
            opened(ob) + "<p>".spec_bytes() + self.hard_wrapped(content, i) + "</p>\n".spec_bytes()
        } else {
            opened(ob) + "<p>".spec_bytes() + content.subrange(i, content.len() as int)
                + "</p>\n".spec_bytes()
        }
    }

    /// What a table cell becomes.
    pub open spec fn table_cell(self, ob: Seq<u8>, content: Seq<u8>, flags: TableFlags) -> Seq<u8> {
        let align = flags.bits & TABLE_ALIGNMASK;
        let open = (if flags.bits & TABLE_HEADER != 0 {
            "<th".spec_bytes()
        } else {
            "<td".spec_bytes()
        }) + (if align == TABLE_ALIGN_CENTER {
            " style=\"text-align: center\">".spec_bytes()
        } else if align == TABLE_ALIGN_LEFT {
            " style=\"text-align: left\">".spec_bytes()
        } else if align == TABLE_ALIGN_RIGHT {
            " style=\"text-align: right\">".spec_bytes()
        } else {
            ">".spec_bytes()
        });
        if self.toc {
            ob
        } else {
            ob + open + content + (if flags.bits & TABLE_HEADER != 0 {
                "</th>\n".spec_bytes()
            } else {
                "</td>\n".spec_bytes()
            })
        }
    }

    /// What the footnotes of a document become.
    pub open spec fn footnotes(self, ob: Seq<u8>, content: Seq<u8>) -> Seq<u8> {
        if self.toc {
            ob
        } else {
            opened(ob) + "<div class=\"footnotes\">\n".spec_bytes() + self.hr()
                + "<ol>\n".spec_bytes() + content + "\n</ol>\n</div>\n".spec_bytes()
        }
    }

    /// What a footnote definition becomes: a list item with a link back
    /// to the reference, which stands at the end of its first paragraph
    /// where it has one.
    pub open spec fn footnote_definition(self, ob: Seq<u8>, content: Seq<u8>, num: u32) -> Seq<u8> {
        let i = find_p_close(content, 0);
        let back = "&nbsp;<a href=\"#fnref".spec_bytes() + decimal(num as nat)
            + "\" rev=\"footnote\">&#8617;</a>".spec_bytes();
        if self.toc {
            ob
        } else {
            ob + "\n<li id=\"fn".spec_bytes() + decimal(num as nat) + "\">\n".spec_bytes() + (if i
                >= 0 {
                content.subrange(0, i) + back + content.subrange(i, content.len() as int)
            } else {
                content
            }) + "</li>\n".spec_bytes()
        }
    }

    /// What a raw HTML block becomes: its text without the newlines
    /// around it, escaped where raw HTML is escaped, nothing where it is
    /// skipped.
    pub open spec fn html_block(self, ob: Seq<u8>, text: Seq<u8>) -> Seq<u8> {
        let sz = trimmed_end(text);
        let org = skipped(text, 0, sz, Class::Is(0x0a));
        if self.toc || (self.flags.on(SKIP_HTML) && !self.flags.on(ESCAPE)) || org >= sz {
            ob
        } else if self.flags.on(ESCAPE) {
            (opened(ob) + html_escaped(text.subrange(org, sz))).push(0x0a)
        } else {
            (opened(ob) + text.subrange(org, sz)).push(0x0a)
        }
    }

    /// What an autolink becomes, where it is handled.
    pub open spec fn autolink(self, ob: Seq<u8>, link: Seq<u8>, kind: AutoLink) -> Seq<u8> {
        ob + "<a href=\"".spec_bytes() + (if kind == AutoLink::Email {
            "mailto:".spec_bytes()
        } else {
            Seq::empty()
        }) + href_escaped(link) + "\">".spec_bytes() + html_escaped(
            if link.len() >= 7 && starts_with_at(link, 0, "mailto:".spec_bytes()) {
                link.subrange(7, link.len() as int)
            } else {
                link
            },
        ) + "</a>".spec_bytes()
    }

    /// What an image becomes, where it is handled.
    pub open spec fn image(self, ob: Seq<u8>, link: Seq<u8>, title: Seq<u8>, alt: Seq<u8>) -> Seq<u8> {
        ob + "<img src=\"".spec_bytes() + href_escaped(link) + "\" alt=\"".spec_bytes()
            + html_escaped(alt) + (if title.len() > 0 {
            "\" title=\"".spec_bytes() + html_escaped(title)
        } else {
            Seq::empty()
        }) + (if self.flags.on(USE_XHTML) {
            "\"/>".spec_bytes()
        } else {
            "\">".spec_bytes()
        })
    }

    /// What a link becomes.
    pub open spec fn link(self, ob: Seq<u8>, content: Seq<u8>, link: Seq<u8>, title: Seq<u8>) -> Seq<u8> {
        if self.toc {
            ob + content
        } else {
            ob + "<a href=\"".spec_bytes() + href_escaped(link) + (if title.len() > 0 {
                "\" title=\"".spec_bytes() + html_escaped(title)
            } else {
                Seq::empty()
            }) + "\">".spec_bytes() + content + "</a>".spec_bytes()
        }
    }

    /// What a footnote reference becomes, where it is handled.
    pub open spec fn footnote_reference(self, ob: Seq<u8>, num: u32) -> Seq<u8> {
        ob + "<sup id=\"fnref".spec_bytes() + decimal(num as nat) + "\"><a href=\"#fn".spec_bytes()
            + decimal(num as nat) + "\" rel=\"footnote\">".spec_bytes() + decimal(num as nat)
            + "</a></sup>".spec_bytes()
    }

    /// What math becomes, where it is handled.
    pub open spec fn math(self, ob: Seq<u8>, text: Seq<u8>, displaymode: i32) -> Seq<u8> {
        if displaymode != 0 {
            ob + "\\[".spec_bytes() + html_escaped(text) + "\\]".spec_bytes()
        } else {
            ob + "\\(".spec_bytes() + html_escaped(text) + "\\)".spec_bytes()
        }
    }

    /// What a raw HTML tag becomes, where it is handled.
    pub open spec fn html_span(self, ob: Seq<u8>, text: Seq<u8>) -> Seq<u8> {
        if self.flags.on(ESCAPE) {
            ob + html_escaped(text)
        } else if self.flags.on(SKIP_HTML) {
            ob
        } else {
            ob + text
        }
    }
}

/// The position of the first `</p>` in `data` from `i` on, as the scan
/// for it finds it, or -1: the scan steps over what it has looked at.
pub open spec fn find_p_close(data: Seq<u8>, i: int) -> int
    decreases data.len() - i,
{
    if i < 0 || data.len() <= 3 || i >= data.len() - 3 {
        -1
    } else if data[i] != 0x3c {
        find_p_close(data, i + 1)
    } else if data[i + 1] != 0x2f {
        find_p_close(data, i + 2)
    } else if (data[i + 2] != 0x70 && data[i + 3] != 0x50) || data[i + 3] != 0x3e {
        find_p_close(data, i + 3)
    } else {
        i
    }
}

impl Html {
    /// Appends a line break tag.
    fn put_break(&self, ob: &mut Buffer)
        ensures
            final(ob)@ == old(ob)@ + self@.br(),
            final(ob).spec_unit() == old(ob).spec_unit(),
            old(ob).wf() ==> final(ob).wf(),
    {
        if self.flags.contains(USE_XHTML) {
            ob.puts("<br/>\n");
        } else {
            ob.puts("<br>\n");
        }
    }

    /// Appends a horizontal rule tag.
    fn put_rule(&self, ob: &mut Buffer)
        ensures
            final(ob)@ == old(ob)@ + self@.hr(),
            final(ob).spec_unit() == old(ob).spec_unit(),
            old(ob).wf() ==> final(ob).wf(),
    {
        if self.flags.contains(USE_XHTML) {
            ob.puts("<hr/>\n");
        } else {
            ob.puts("<hr>\n");
        }
    }

    /// Appends the text of a paragraph with a break tag at each newline
    /// but the last byte.
    fn put_hard_wrapped(&self, ob: &mut Buffer, data: &[u8], from: usize)
        requires
            from <= data.len(),
        ensures
            final(ob)@ == old(ob)@ + self@.hard_wrapped(data@, from as int),
            final(ob).spec_unit() == old(ob).spec_unit(),
            old(ob).wf() ==> final(ob).wf(),
    {
        let size: usize = data.len();
        let mut i: usize = from;
        while i < size
            invariant_except_break
                ob@ + self@.hard_wrapped(data@, i as int) == old(ob)@ + self@.hard_wrapped(
                    data@,
                    from as int,
                ),
            invariant
                i <= size,
                size == data.len(),
                ob.spec_unit() == old(ob).spec_unit(),
                old(ob).wf() ==> ob.wf(),
            ensures
                ob@ == old(ob)@ + self@.hard_wrapped(data@, from as int),
            decreases size - i,
        {
            let ghost before = ob@;
            let j: usize = skip(data, i, size, Class::Not(0x0a));
            ob.put(vstd::slice::slice_subrange(data, i, j));
            if j >= size - 1 {
                break ;
            }
            self.put_break(ob);
            assert(ob@ + self@.hard_wrapped(data@, j + 1) =~= before + (data@.subrange(
                i as int,
                j as int,
            ) + self@.br() + self@.hard_wrapped(data@, j + 1)));
            i = j + 1;
        }
        assert(ob@ + Seq::<u8>::empty() =~= ob@);
    }

    /// Appends `s` `n` times.
    fn put_repeated(ob: &mut Buffer, s: &str, n: i64)
        requires
            n <= 0x2_0000_0000,
        ensures
            final(ob)@ == old(ob)@ + repeated(s.spec_bytes(), n as int),
            final(ob).spec_unit() == old(ob).spec_unit(),
            old(ob).wf() ==> final(ob).wf(),
    {
        if n <= 0 {
            assert(old(ob)@ + repeated(s.spec_bytes(), n as int) =~= old(ob)@);
            return ;
        }
        let mut k: i64 = 0;
        assert(old(ob)@ + repeated(s.spec_bytes(), 0) =~= old(ob)@);
        while k < n
            invariant
                0 <= k <= n <= 0x2_0000_0000,
                ob@ == old(ob)@ + repeated(s.spec_bytes(), k as int),
                ob.spec_unit() == old(ob).spec_unit(),
                old(ob).wf() ==> ob.wf(),
            decreases n - k,
        {
            ob.puts(s);
            assert(ob@ =~= old(ob)@ + (repeated(s.spec_bytes(), k as int) + s.spec_bytes()));
            k += 1;
        }
    }

    /// A header of the table of contents.
    fn toc_header(&mut self, ob: &mut Buffer, content: &Buffer, level: i32)
        requires
            old(self)@.toc,
        ensures
            (final(self)@, final(ob)@) == old(self)@.toc_header(old(ob)@, content@, level),
            final(ob).spec_unit() == old(ob).spec_unit(),
            old(ob).wf() ==> final(ob).wf(),
    {
        proof {
            use_type_invariant(&*self);
        }
        if level <= self.nesting_level {
            let offset: i64 = if self.current_level == 0 {
                level as i64 - 1
            } else {
                self.level_offset
            };
            let rel: i64 = if level as i64 - offset < 1 {
                1
            } else {
                level as i64 - offset
            };
            let cur: i64 = self.current_level;
            if rel > cur {
                Self::put_repeated(ob, "<ul>\n<li>\n", rel - cur);
            } else if rel < cur {
                ob.puts("</li>\n");
                Self::put_repeated(ob, "</ul>\n</li>\n", cur - rel);
                ob.puts("<li>\n");
            } else {
                ob.puts("</li>\n<li>\n");
            }
            ob.puts("<a href=\"#toc_");
            put_decimal(ob, self.header_count);
            ob.puts("\">");
            ob.pipe(content);
            ob.puts("</a>\n");
            let count: u64 = if self.header_count < u64::MAX {
                self.header_count + 1
            } else {
                self.header_count
            };
            *self = Html {
                flags: self.flags,
                toc: self.toc,
                header_count: count,
                current_level: rel,
                level_offset: offset,
                nesting_level: self.nesting_level,
            };
            assert(ob@ =~= old(self)@.toc_header(old(ob)@, content@, level).1);
        }
    }

    /// The end of a table of contents: the lists that are open are closed.
    fn toc_finalize(&mut self, ob: &mut Buffer, inline_render: bool)
        requires
            old(self)@.toc,
        ensures
            (final(self)@, final(ob)@) == old(self)@.after_render(old(ob)@, inline_render),
            final(ob).spec_unit() == old(ob).spec_unit(),
            old(ob).wf() ==> final(ob).wf(),
    {
        proof {
            use_type_invariant(&*self);
        }
        if inline_render {
            return ;
        }
        let cur: i64 = self.current_level;
        Self::put_repeated(ob, "</li>\n</ul>\n", cur);
        *self = Html {
            flags: self.flags,
            toc: self.toc,
            header_count: 0,
            current_level: 0,
            level_offset: self.level_offset,
            nesting_level: self.nesting_level,
        };
    }
}

impl Render for Html {
    fn code_block(&mut self, output: &mut Buffer, text: &Buffer, lang: &Buffer)
        ensures
            final(self)@ == old(self)@,
            final(output)@ == old(self)@.code_block(old(output)@, text@, lang@),
            final(output).spec_unit() == old(output).spec_unit(),
            old(output).wf() ==> final(output).wf(),
    {
        if self.toc {
            return ;
        }
        open_block(output);
        if lang.len() > 0 {
            output.puts("<pre><code class=\"language-");
            escape_html(output, lang.as_slice());
            output.puts("\">");
        } else {
            output.puts("<pre><code>");
        }
        escape_html(output, text.as_slice());
        output.puts("</code></pre>\n");
    }

    fn quote_block(&mut self, output: &mut Buffer, content: &Buffer)
        ensures
            final(self)@ == old(self)@,
            final(output)@ == old(self)@.block(
                old(output)@,
                "<blockquote>\n",
                content@,
                "</blockquote>\n",
            ),
            final(output).spec_unit() == old(output).spec_unit(),
            old(output).wf() ==> final(output).wf(),
    {
        if self.toc {
            return ;
        }
        open_block(output);
        put_tagged(output, "<blockquote>\n", content, "</blockquote>\n");
    }

    fn header(&mut self, output: &mut Buffer, content: &Buffer, level: i32)
        ensures
            (final(self)@, final(output)@) == old(self)@.header(old(output)@, content@, level),
            final(output).spec_unit() == old(output).spec_unit(),
            old(output).wf() ==> final(output).wf(),
    {
        if self.toc {
            self.toc_header(output, content, level);
            return ;
        }
        open_block(output);
        if level <= self.nesting_level {
            output.puts("<h");
            put_int(output, level as i64);
            output.puts(" id=\"toc_");
            put_decimal(output, self.header_count);
            output.puts("\">");
            let count: u64 = if self.header_count < u64::MAX {
                self.header_count + 1
            } else {
                self.header_count
            };
            proof {
                use_type_invariant(&*self);
            }
            *self = Html {
                flags: self.flags,
                toc: self.toc,
                header_count: count,
                current_level: self.current_level,
                level_offset: self.level_offset,
                nesting_level: self.nesting_level,
            };
        } else {
            output.puts("<h");
            put_int(output, level as i64);
            output.puts(">");
        }
        output.pipe(content);
        output.puts("</h");
        put_int(output, level as i64);
        output.puts(">\n");
    }

    fn horizontal_rule(&mut self, output: &mut Buffer)
        ensures
            final(self)@ == old(self)@,
            final(output)@ == if old(self)@.toc {
                old(output)@
            } else {
                opened(old(output)@) + old(self)@.hr()
            },
            final(output).spec_unit() == old(output).spec_unit(),
            old(output).wf() ==> final(output).wf(),
    {
        if self.toc {
            return ;
        }
        open_block(output);
        self.put_rule(output);
    }

    fn list(&mut self, output: &mut Buffer, content: &Buffer, flags: List)
        ensures
            final(self)@ == old(self)@,
            final(output)@ == if flags.on(ORDERED) {
                old(self)@.block(old(output)@, "<ol>\n", content@, "</ol>\n")
            } else {
                old(self)@.block(old(output)@, "<ul>\n", content@, "</ul>\n")
            },
            final(output).spec_unit() == old(output).spec_unit(),
            old(output).wf() ==> final(output).wf(),
    {
        if self.toc {
            return ;
        }
        open_block(output);
        if flags.is_ordered() {
            put_tagged(output, "<ol>\n", content, "</ol>\n");
        } else {
            put_tagged(output, "<ul>\n", content, "</ul>\n");
        }
    }

    fn list_item(&mut self, output: &mut Buffer, content: &Buffer, flags: List)
        ensures
            final(self)@ == old(self)@,
            final(output)@ == old(self)@.list_item(old(output)@, content@),
            final(output).spec_unit() == old(output).spec_unit(),
            old(output).wf() ==> final(output).wf(),
    {
        if self.toc {
            return ;
        }
        output.puts("<li>");
        let data = content.as_slice();
        let n: usize = trim_end(data);
        output.put(vstd::slice::slice_subrange(data, 0, n));
        output.puts("</li>\n");
    }

    fn paragraph(&mut self, output: &mut Buffer, content: &Buffer)
        ensures
            final(self)@ == old(self)@,
            final(output)@ == old(self)@.paragraph(old(output)@, content@),
            final(output).spec_unit() == old(output).spec_unit(),
            old(output).wf() ==> final(output).wf(),
    {
        if self.toc {
            return ;
        }
        open_block(output);
        let data = content.as_slice();
        let size: usize = data.len();
        let i: usize = skip(data, 0, size, Class::White);
        if i >= size {
            return ;
        }
        output.puts("<p>");
        if self.flags.contains(HARD_WRAP) {
            self.put_hard_wrapped(output, data, i);
        } else {
            output.put(vstd::slice::slice_subrange(data, i, size));
        }
        output.puts("</p>\n");
    }

    fn table(&mut self, output: &mut Buffer, content: &Buffer)
        ensures
            final(self)@ == old(self)@,
            final(output)@ == old(self)@.block(old(output)@, "<table>\n", content@, "</table>\n"),
            final(output).spec_unit() == old(output).spec_unit(),
            old(output).wf() ==> final(output).wf(),
    {
        if self.toc {
            return ;
        }
        open_block(output);
        put_tagged(output, "<table>\n", content, "</table>\n");
    }

    fn table_header(&mut self, output: &mut Buffer, content: &Buffer)
        ensures
            final(self)@ == old(self)@,
            final(output)@ == old(self)@.block(old(output)@, "<thead>\n", content@, "</thead>\n"),
            final(output).spec_unit() == old(output).spec_unit(),
            old(output).wf() ==> final(output).wf(),
    {
        if self.toc {
            return ;
        }
        open_block(output);
        put_tagged(output, "<thead>\n", content, "</thead>\n");
    }

    fn table_body(&mut self, output: &mut Buffer, content: &Buffer)
        ensures
            final(self)@ == old(self)@,
            final(output)@ == old(self)@.block(old(output)@, "<tbody>\n", content@, "</tbody>\n"),
            final(output).spec_unit() == old(output).spec_unit(),
            old(output).wf() ==> final(output).wf(),
    {
        if self.toc {
            return ;
        }
        open_block(output);
        put_tagged(output, "<tbody>\n", content, "</tbody>\n");
    }

    fn table_row(&mut self, output: &mut Buffer, content: &Buffer)
        ensures
            final(self)@ == old(self)@,
            final(output)@ == if old(self)@.toc {
                old(output)@
            } else {
                old(output)@ + tagged("<tr>\n", content@, "</tr>\n")
            },
            final(output).spec_unit() == old(output).spec_unit(),
            old(output).wf() ==> final(output).wf(),
    {
        if self.toc {
            return ;
        }
        put_tagged(output, "<tr>\n", content, "</tr>\n");
    }

    fn table_cell(&mut self, output: &mut Buffer, content: &Buffer, flags: TableFlags)
        ensures
            final(self)@ == old(self)@,
            final(output)@ == old(self)@.table_cell(old(output)@, content@, flags),
            final(output).spec_unit() == old(output).spec_unit(),
            old(output).wf() ==> final(output).wf(),
    {
        if self.toc {
            return ;
        }
        let header: bool = flags.is_header();
        if header {
            output.puts("<th");
        } else {
            output.puts("<td");
        }
        let align: u32 = flags.bits & TABLE_ALIGNMASK;
        if align == TABLE_ALIGN_CENTER {
            output.puts(" style=\"text-align: center\">");
        } else if align == TABLE_ALIGN_LEFT {
            output.puts(" style=\"text-align: left\">");
        } else if align == TABLE_ALIGN_RIGHT {
            output.puts(" style=\"text-align: right\">");
        } else {
            output.puts(">");
        }
        output.pipe(content);
        if header {
            output.puts("</th>\n");
        } else {
            output.puts("</td>\n");
        }
        assert(output@ =~= old(self)@.table_cell(old(output)@, content@, flags));
    }

    fn footnotes(&mut self, output: &mut Buffer, content: &Buffer)
        ensures
            final(self)@ == old(self)@,
            final(output)@ == old(self)@.footnotes(old(output)@, content@),
            final(output).spec_unit() == old(output).spec_unit(),
            old(output).wf() ==> final(output).wf(),
    {
        if self.toc {
            return ;
        }
        open_block(output);
        output.puts("<div class=\"footnotes\">\n");
        self.put_rule(output);
        output.puts("<ol>\n");
        output.pipe(content);
        output.puts("\n</ol>\n</div>\n");
    }

    fn footnote_definition(&mut self, output: &mut Buffer, content: &Buffer, num: u32)
        ensures
            final(self)@ == old(self)@,
            final(output)@ == old(self)@.footnote_definition(old(output)@, content@, num),
            final(output).spec_unit() == old(output).spec_unit(),
            old(output).wf() ==> final(output).wf(),
    {
        if self.toc {
            return ;
        }
        let data = content.as_slice();
        let size: usize = data.len();
        let mut i: usize = 0;
        let mut pfound: bool = false;
        while size > 3 && i < size - 3
            invariant_except_break
                output.spec_unit() == old(output).spec_unit(),
                old(output).wf() ==> output.wf(),
                !pfound,
                find_p_close(data@, 0) == find_p_close(data@, i as int),
            invariant
                output.spec_unit() == old(output).spec_unit(),
                old(output).wf() ==> output.wf(),
                size == data.len(),
                i <= size,
            ensures
                i <= size,
                pfound ==> i == find_p_close(data@, 0),
                !pfound ==> find_p_close(data@, 0) == -1,
            decreases size - i,
        {
            if data[i] != 0x3c {
                i += 1;
                continue ;
            }
            if data[i + 1] != 0x2f {
                i += 2;
                continue ;
            }
            if (data[i + 2] != 0x70 && data[i + 3] != 0x50) || data[i + 3] != 0x3e {
                i += 3;
                continue ;
            }
            pfound = true;
            break ;
        }
        output.puts("\n<li id=\"fn");
        put_decimal(output, num as u64);
        output.puts("\">\n");
        if pfound {
            output.put(vstd::slice::slice_subrange(data, 0, i));
            output.puts("&nbsp;<a href=\"#fnref");
            put_decimal(output, num as u64);
            output.puts("\" rev=\"footnote\">&#8617;</a>");
            output.put(vstd::slice::slice_subrange(data, i, size));
        } else {
            output.put(data);
        }
        output.puts("</li>\n");
        assert(output@ =~= old(self)@.footnote_definition(old(output)@, content@, num));
    }

    fn html_block(&mut self, output: &mut Buffer, text: &Buffer)
        ensures
            final(self)@ == old(self)@,
            final(output)@ == old(self)@.html_block(old(output)@, text@),
            final(output).spec_unit() == old(output).spec_unit(),
            old(output).wf() ==> final(output).wf(),
    {
        if self.toc {
            return ;
        }
        if self.flags.contains(SKIP_HTML) && !self.flags.contains(ESCAPE) {
            return ;
        }
        let data = text.as_slice();
        let sz: usize = trim_end(data);
        let org: usize = skip(data, 0, sz, Class::Is(0x0a));
        if org >= sz {
            return ;
        }
        open_block(output);
        if self.flags.contains(ESCAPE) {
            escape_html(output, vstd::slice::slice_subrange(data, org, sz));
        } else {
            output.put(vstd::slice::slice_subrange(data, org, sz));
        }
        output.putc(0x0a);
    }

    fn autolink(&mut self, output: &mut Buffer, link: &Buffer, link_type: AutoLink) -> (handled:
        bool)
        ensures
            final(self)@ == old(self)@,
            handled == (!old(self)@.toc && link@.len() > 0),
            final(output)@ == if handled {
                old(self)@.autolink(old(output)@, link@, link_type)
            } else {
                old(output)@
            },
            final(output).spec_unit() == old(output).spec_unit(),
            old(output).wf() ==> final(output).wf(),
    {
        if self.toc || link.is_empty() {
            return false;
        }
        output.puts("<a href=\"");
        if link_type == AutoLink::Email {
            output.puts("mailto:");
        }
        escape_href(output, link.as_slice());
        output.puts("\">");
        let data = link.as_slice();
        if data.len() >= 7 && crate::chars::has_prefix_at(data, 0, "mailto:".as_bytes()) {
            escape_html(output, vstd::slice::slice_subrange(data, 7, data.len()));
        } else {
            escape_html(output, data);
        }
        output.puts("</a>");
        assert(output@ =~= old(self)@.autolink(old(output)@, link@, link_type));
        true
    }

    fn code_span(&mut self, output: &mut Buffer, text: &Buffer) -> (handled: bool)
        ensures
            final(self)@ == old(self)@,
            handled,
            final(output)@ == old(output)@ + "<code>".spec_bytes() + html_escaped(text@)
                + "</code>".spec_bytes(),
            final(output).spec_unit() == old(output).spec_unit(),
            old(output).wf() ==> final(output).wf(),
    {
        output.puts("<code>");
        escape_html(output, text.as_slice());
        output.puts("</code>");
        true
    }

    fn double_emphasis(&mut self, output: &mut Buffer, content: &Buffer) -> (handled: bool)
        ensures
            final(self)@ == old(self)@,
            handled == (content@.len() > 0),
            final(output)@ == if handled {
                old(output)@ + tagged("<strong>", content@, "</strong>")
            } else {
                old(output)@
            },
            final(output).spec_unit() == old(output).spec_unit(),
            old(output).wf() ==> final(output).wf(),
    {
        span_tagged(output, "<strong>", content, "</strong>")
    }

    fn emphasis(&mut self, output: &mut Buffer, content: &Buffer) -> (handled: bool)
        ensures
            final(self)@ == old(self)@,
            handled == (content@.len() > 0),
            final(output)@ == if handled {
                old(output)@ + tagged("<em>", content@, "</em>")
            } else {
                old(output)@
            },
            final(output).spec_unit() == old(output).spec_unit(),
            old(output).wf() ==> final(output).wf(),
    {
        span_tagged(output, "<em>", content, "</em>")
    }

    fn underline(&mut self, output: &mut Buffer, content: &Buffer) -> (handled: bool)
        ensures
            final(self)@ == old(self)@,
            handled == (content@.len() > 0),
            final(output)@ == if handled {
                old(output)@ + tagged("<u>", content@, "</u>")
            } else {
                old(output)@
            },
            final(output).spec_unit() == old(output).spec_unit(),
            old(output).wf() ==> final(output).wf(),
    {
        span_tagged(output, "<u>", content, "</u>")
    }

    fn highlight(&mut self, output: &mut Buffer, content: &Buffer) -> (handled: bool)
        ensures
            final(self)@ == old(self)@,
            handled == (content@.len() > 0),
            final(output)@ == if handled {
                old(output)@ + tagged("<mark>", content@, "</mark>")
            } else {
                old(output)@
            },
            final(output).spec_unit() == old(output).spec_unit(),
            old(output).wf() ==> final(output).wf(),
    {
        span_tagged(output, "<mark>", content, "</mark>")
    }

    fn quote_span(&mut self, output: &mut Buffer, content: &Buffer) -> (handled: bool)
        ensures
            final(self)@ == old(self)@,
            handled == (content@.len() > 0),
            final(output)@ == if handled {
                old(output)@ + tagged("<q>", content@, "</q>")
            } else {
                old(output)@
            },
            final(output).spec_unit() == old(output).spec_unit(),
            old(output).wf() ==> final(output).wf(),
    {
        span_tagged(output, "<q>", content, "</q>")
    }

    fn image(&mut self, output: &mut Buffer, link: &Buffer, title: &Buffer, alt: &Buffer) -> (handled:
        bool)
        ensures
            final(self)@ == old(self)@,
            handled == (!old(self)@.toc && link@.len() > 0),
            final(output)@ == if handled {
                old(self)@.image(old(output)@, link@, title@, alt@)
            } else {
                old(output)@
            },
            final(output).spec_unit() == old(output).spec_unit(),
            old(output).wf() ==> final(output).wf(),
    {
        if self.toc || link.is_empty() {
            return false;
        }
        output.puts("<img src=\"");
        escape_href(output, link.as_slice());
        output.puts("\" alt=\"");
        escape_html(output, alt.as_slice());
        if title.len() > 0 {
            output.puts("\" title=\"");
            escape_html(output, title.as_slice());
        }
        if self.flags.contains(USE_XHTML) {
            output.puts("\"/>");
        } else {
            output.puts("\">");
        }
        assert(output@ =~= old(self)@.image(old(output)@, link@, title@, alt@));
        true
    }

    fn line_break(&mut self, output: &mut Buffer) -> (handled: bool)
        ensures
            final(self)@ == old(self)@,
            handled == !old(self)@.toc,
            final(output)@ == if handled {
                old(output)@ + old(self)@.br()
            } else {
                old(output)@
            },
            final(output).spec_unit() == old(output).spec_unit(),
            old(output).wf() ==> final(output).wf(),
    {
        if self.toc {
            return false;
        }
        self.put_break(output);
        true
    }

    fn link(&mut self, output: &mut Buffer, content: &Buffer, link: &Buffer, title: &Buffer) -> (handled:
        bool)
        ensures
            final(self)@ == old(self)@,
            handled,
            final(output)@ == old(self)@.link(old(output)@, content@, link@, title@),
            final(output).spec_unit() == old(output).spec_unit(),
            old(output).wf() ==> final(output).wf(),
    {
        if self.toc {
            output.pipe(content);
            return true;
        }
        output.puts("<a href=\"");
        escape_href(output, link.as_slice());
        if title.len() > 0 {
            output.puts("\" title=\"");
            escape_html(output, title.as_slice());
        }
        output.puts("\">");
        output.pipe(content);
        output.puts("</a>");
        assert(output@ =~= old(self)@.link(old(output)@, content@, link@, title@));
        true
    }

    fn triple_emphasis(&mut self, output: &mut Buffer, content: &Buffer) -> (handled: bool)
        ensures
            final(self)@ == old(self)@,
            handled == (content@.len() > 0),
            final(output)@ == if handled {
                old(output)@ + tagged("<strong><em>", content@, "</em></strong>")
            } else {
                old(output)@
            },
            final(output).spec_unit() == old(output).spec_unit(),
            old(output).wf() ==> final(output).wf(),
    {
        span_tagged(output, "<strong><em>", content, "</em></strong>")
    }

    fn strikethrough(&mut self, output: &mut Buffer, content: &Buffer) -> (handled: bool)
        ensures
            final(self)@ == old(self)@,
            handled == (content@.len() > 0),
            final(output)@ == if handled {
                old(output)@ + tagged("<del>", content@, "</del>")
            } else {
                old(output)@
            },
            final(output).spec_unit() == old(output).spec_unit(),
            old(output).wf() ==> final(output).wf(),
    {
        span_tagged(output, "<del>", content, "</del>")
    }

    fn superscript(&mut self, output: &mut Buffer, content: &Buffer) -> (handled: bool)
        ensures
            final(self)@ == old(self)@,
            handled == (content@.len() > 0),
            final(output)@ == if handled {
                old(output)@ + tagged("<sup>", content@, "</sup>")
            } else {
                old(output)@
            },
            final(output).spec_unit() == old(output).spec_unit(),
            old(output).wf() ==> final(output).wf(),
    {
        span_tagged(output, "<sup>", content, "</sup>")
    }

    fn footnote_reference(&mut self, output: &mut Buffer, num: u32) -> (handled: bool)
        ensures
            final(self)@ == old(self)@,
            handled == !old(self)@.toc,
            final(output)@ == if handled {
                old(self)@.footnote_reference(old(output)@, num)
            } else {
                old(output)@
            },
            final(output).spec_unit() == old(output).spec_unit(),
            old(output).wf() ==> final(output).wf(),
    {
        if self.toc {
            return false;
        }
        output.puts("<sup id=\"fnref");
        put_decimal(output, num as u64);
        output.puts("\"><a href=\"#fn");
        put_decimal(output, num as u64);
        output.puts("\" rel=\"footnote\">");
        put_decimal(output, num as u64);
        output.puts("</a></sup>");
        true
    }

    fn math(&mut self, output: &mut Buffer, text: &Buffer, displaymode: i32) -> (handled: bool)
        ensures
            final(self)@ == old(self)@,
            handled == !old(self)@.toc,
            final(output)@ == if handled {
                old(self)@.math(old(output)@, text@, displaymode)
            } else {
                old(output)@
            },
            final(output).spec_unit() == old(output).spec_unit(),
            old(output).wf() ==> final(output).wf(),
    {
        if self.toc {
            return false;
        }
        if displaymode != 0 {
            output.puts("\\[");
            escape_html(output, text.as_slice());
            output.puts("\\]");
        } else {
            output.puts("\\(");
            escape_html(output, text.as_slice());
            output.puts("\\)");
        }
        true
    }

    fn html_span(&mut self, output: &mut Buffer, text: &Buffer) -> (handled: bool)
        ensures
            final(self)@ == old(self)@,
            handled == !old(self)@.toc,
            final(output)@ == if handled {
                old(self)@.html_span(old(output)@, text@)
            } else {
                old(output)@
            },
            final(output).spec_unit() == old(output).spec_unit(),
            old(output).wf() ==> final(output).wf(),
    {
        if self.toc {
            return false;
        }
        if self.flags.contains(ESCAPE) {
            escape_html(output, text.as_slice());
            return true;
        }
        if self.flags.contains(SKIP_HTML) {
            return true;
        }
        output.pipe(text);
        true
    }

    fn entity(&mut self, output: &mut Buffer, text: &Buffer)
        ensures
            final(self)@ == old(self)@,
            final(output)@ == old(output)@ + text@,
            final(output).spec_unit() == old(output).spec_unit(),
            old(output).wf() ==> final(output).wf(),
    {
        output.pipe(text);
    }

    fn normal_text(&mut self, output: &mut Buffer, text: &Buffer)
        ensures
            final(self)@ == old(self)@,
            final(output)@ == old(output)@ + html_escaped(text@),
            final(output).spec_unit() == old(output).spec_unit(),
            old(output).wf() ==> final(output).wf(),
    {
        escape_html(output, text.as_slice());
    }

    fn before_render(&mut self, output: &mut Buffer, inline_render: bool)
        ensures
            final(self)@ == old(self)@,
            final(output)@ == old(output)@,
            final(output).spec_unit() == old(output).spec_unit(),
            old(output).wf() ==> final(output).wf(),
    {
    }

    fn after_render(&mut self, output: &mut Buffer, inline_render: bool)
        ensures
            (final(self)@, final(output)@) == old(self)@.after_render(old(output)@, inline_render),
            final(output).spec_unit() == old(output).spec_unit(),
            old(output).wf() ==> final(output).wf(),
    {
        if self.toc {
            self.toc_finalize(output, inline_render);
        }
    }
}

} // verus!
