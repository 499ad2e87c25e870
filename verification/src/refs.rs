//! The first pass over a document: link and footnote definitions are taken
//! out, tabs are expanded, and newlines are made uniform.

use vstd::prelude::*;
use crate::chars::{copy_range, lemma_skipped, skip, skip_back, skipped, skipped_back, Class};
use crate::lines::{is_blank, spec_is_blank};
use crate::parser::{FootnoteDef, LinkRef, NoteModel, RefModel};

verus! {

/// Where the text of a definition starts on the line at `beg`: after up
/// to three spaces.  -1 where the line starts with four spaces or is too
/// short to hold a definition.
pub open spec fn spec_def_indent(data: Seq<u8>, beg: int, end: int) -> int {
    let n = skipped(data, beg, beg + 4, Class::Is(0x20));
    if end - beg <= 3 || n >= beg + 4 {
        -1
    } else {
        n
    }
}

/// Where the text of a definition starts on the line at `beg`.
fn def_indent(data: &[u8], beg: usize, end: usize) -> (r: Option<usize>)
    requires
        beg <= end <= data.len(),
    ensures
        match r {
            Some(i) => beg <= i < end && i == spec_def_indent(data@, beg as int, end as int),
            None => spec_def_indent(data@, beg as int, end as int) == -1,
        },
{
    if end - beg <= 3 {
        return None;
    }
    let n: usize = skip(data, beg, beg + 4, Class::Is(0x20));
    if n >= beg + 4 {
        None
    } else {
        Some(n)
    }
}

/// Whether `c` is a line feed or a carriage return.
pub open spec fn spec_is_eol(c: u8) -> bool {
    c == 0x0a || c == 0x0d
}

fn is_eol(c: u8) -> (r: bool)
    ensures
        r == spec_is_eol(c),
{
    c == 0x0a || c == 0x0d
}

/// Whether `c` opens the title of a link definition.
pub open spec fn opens_title(c: u8) -> bool {
    c == 0x27 || c == 0x22 || c == 0x28
}

/// Whether `c` closes the title of a link definition.
pub open spec fn closes_title(c: u8) -> bool {
    c == 0x27 || c == 0x22 || c == 0x29
}

/// A link definition as a mathematical value, and where the text goes on
/// after it.
pub ghost struct FoundRefModel {
    pub last: int,
    pub def: RefModel,
}

/// A link definition, and where the text goes on after it.
pub struct FoundRef {
    pub last: usize,
    pub def: LinkRef,
}

impl View for FoundRef {
    type V = FoundRefModel;

    open spec fn view(&self) -> FoundRefModel {
        FoundRefModel { last: self.last as int, def: self.def@ }
    }
}

/// Where the parts of the first line of a link definition stand.
#[derive(Clone, Copy, Debug, PartialEq, Eq, Structural)]
pub struct RefHead {
    pub ok: bool,
    pub id_offset: usize,
    pub id_end: usize,
    pub link_offset: usize,
    pub link_end: usize,
    /// Where the scan goes on after the URL and the spaces after it.
    pub s: usize,
}

/// No definition.
pub open spec fn no_head() -> RefHead {
    RefHead { ok: false, id_offset: 0, id_end: 0, link_offset: 0, link_end: 0, s: 0 }
}

/// The label and the URL of the link definition at `beg`.  The label
/// stands between brackets on one line, after up to three spaces, and a
/// colon follows it.  The URL follows on the same or on the next line,
/// may stand between angle brackets, and holds no spacing.
pub open spec fn spec_ref_head(data: Seq<u8>, beg: int, end: int) -> RefHead {
    let i0 = spec_def_indent(data, beg, end);
    let id_offset = i0 + 1;
    let id_end = skipped(data, id_offset, end, Class::NoneOf(0x0a, 0x0d, 0x5d));
    let c = id_end + 1;
    let a = skipped(data, c + 1, end, Class::Is(0x20));
    let a2 = if a < end && spec_is_eol(data[a]) {
        if a + 1 < end && data[a + 1] == 0x0d && data[a] == 0x0a {
            a + 2
        } else {
            a + 1
        }
    } else {
        a
    };
    let a3 = skipped(data, a2, end, Class::Is(0x20));
    let link_offset = if data[a3] == 0x3c {
        a3 + 1
    } else {
        a3
    };
    let le = skipped(data, link_offset, end, Class::NoneOf(0x20, 0x0a, 0x0d));
    let link_end = if data[le - 1] == 0x3e {
        le - 1
    } else {
        le
    };
    let s = skipped(data, le, end, Class::Is(0x20));
    if i0 < 0 || data[i0] != 0x5b || id_end >= end || data[id_end] != 0x5d || c >= end || data[c]
        != 0x3a || a3 >= end || (s < end && !spec_is_eol(data[s]) && !opens_title(data[s]))
        || link_end <= link_offset {
        no_head()
    } else {
        RefHead {
            ok: true,
            id_offset: id_offset as usize,
            id_end: id_end as usize,
            link_offset: link_offset as usize,
            link_end: link_end as usize,
            s: s as usize,
        }
    }
}

/// Reads the label and the URL of a link definition at `beg`.
pub fn ref_head(data: &[u8], beg: usize, end: usize) -> (h: RefHead)
    requires
        beg <= end <= data.len(),
    ensures
        h == spec_ref_head(data@, beg as int, end as int),
        h.ok ==> beg < h.id_offset <= h.id_end < h.link_offset < h.link_end <= h.s <= end,
{
    let none = RefHead { ok: false, id_offset: 0, id_end: 0, link_offset: 0, link_end: 0, s: 0 };
    let i0: usize = match def_indent(data, beg, end) {
        Some(i) => i,
        None => {
            return none;
        },
    };
    if data[i0] != 0x5b {
        return none;
    }
    let id_offset: usize = i0 + 1;
    let id_end: usize = skip(data, id_offset, end, Class::NoneOf(0x0a, 0x0d, 0x5d));
    if id_end >= end || data[id_end] != 0x5d {
        return none;
    }
    let c: usize = id_end + 1;
    if c >= end || data[c] != 0x3a {
        return none;
    }
    let a: usize = skip(data, c + 1, end, Class::Is(0x20));
    let a2: usize = if a < end && is_eol(data[a]) {
        if a + 1 < end && data[a + 1] == 0x0d && data[a] == 0x0a {
            a + 2
        } else {
            a + 1
        }
    } else {
        a
    };
    let a3: usize = skip(data, a2, end, Class::Is(0x20));
    if a3 >= end {
        return none;
    }
    let link_offset: usize = if data[a3] == 0x3c {
        a3 + 1
    } else {
        a3
    };
    let le: usize = skip(data, link_offset, end, Class::NoneOf(0x20, 0x0a, 0x0d));
    let link_end: usize = if data[le - 1] == 0x3e {
        le - 1
    } else {
        le
    };
    let s: usize = skip(data, le, end, Class::Is(0x20));
    if s < end && !is_eol(data[s]) && data[s] != 0x27 && data[s] != 0x22 && data[s] != 0x28 {
        return none;
    }
    if link_end <= link_offset {
        return none;
    }
    RefHead { ok: true, id_offset, id_end, link_offset, link_end, s }
}

/// Where a link definition ends, and where its title stands.
#[derive(Clone, Copy, Debug, PartialEq, Eq, Structural)]
pub struct RefTail {
    /// The end of the line that ends the definition, or zero where it has none.
    pub line_end: usize,
    pub title_offset: usize,
    pub title_end: usize,
}

/// The end of the link definition whose URL and the spaces after it end
/// at `s`, and its title.  The title follows on the same or on the next
/// line, between quotes or parentheses, and ends its line.  The
/// definition ends at the end of the line of the URL, or of the title
/// where it has one.
pub open spec fn spec_ref_tail(data: Seq<u8>, end: int, s: int) -> RefTail {
    let line_end0 = if s >= end || spec_is_eol(data[s]) {
        s
    } else {
        0
    };
    let line_end1 = if end - s > 1 && data[s] == 0x0a && data[s + 1] == 0x0d {
        s + 1
    } else {
        line_end0
    };
    let t0 = if line_end1 != 0 {
        skipped(data, if line_end1 < end {
            line_end1 + 1
        } else {
            end
        }, end, Class::Is(0x20))
    } else {
        s
    };
    let titled = end - t0 > 1 && opens_title(data[t0]);
    let title_offset = t0 + 1;
    let te = skipped(data, title_offset, end, Class::NotEol);
    let title_end0 = if end - te > 1 && data[te] == 0x0a && data[te + 1] == 0x0d {
        te + 1
    } else {
        te
    };
    let x = skipped_back(data, title_offset + 1, te, Class::Is(0x20)) - 1;
    let closed = x > title_offset && closes_title(data[x]);
    if !titled {
        RefTail { line_end: line_end1 as usize, title_offset: 0, title_end: 0 }
    } else if closed {
        RefTail {
            line_end: title_end0 as usize,
            title_offset: title_offset as usize,
            title_end: x as usize,
        }
    } else {
        RefTail {
            line_end: line_end1 as usize,
            title_offset: title_offset as usize,
            title_end: title_end0 as usize,
        }
    }
}

/// Reads the end of a link definition whose URL and the spaces after it
/// end at `s`.
pub fn ref_tail(data: &[u8], end: usize, s: usize) -> (t: RefTail)
    requires
        1 <= s <= end <= data.len(),
    ensures
        t == spec_ref_tail(data@, end as int, s as int),
        t.line_end <= end,
        t.title_offset <= end,
        t.title_end <= end,
{
    let line_end0: usize = if s >= end || is_eol(data[s]) {
        s
    } else {
        0
    };
    let line_end1: usize = if end - s > 1 && data[s] == 0x0a && data[s + 1] == 0x0d {
        s + 1
    } else {
        line_end0
    };
    let t0: usize = if line_end1 != 0 {
        skip(data, if line_end1 < end {
            line_end1 + 1
        } else {
            end
        }, end, Class::Is(0x20))
    } else {
        s
    };
    let titled: bool = end - t0 > 1 && (data[t0] == 0x27 || data[t0] == 0x22 || data[t0] == 0x28);
    if !titled {
        return RefTail { line_end: line_end1, title_offset: 0, title_end: 0 };
    }
    let title_offset: usize = t0 + 1;
    let te: usize = skip(data, title_offset, end, Class::NotEol);
    let title_end0: usize = if end - te > 1 && data[te] == 0x0a && data[te + 1] == 0x0d {
        te + 1
    } else {
        te
    };
    let x: usize = if te >= title_offset + 1 {
        skip_back(data, title_offset + 1, te, Class::Is(0x20)) - 1
    } else {
        te - 1
    };
    let closed: bool = x > title_offset && (data[x] == 0x27 || data[x] == 0x22 || data[x] == 0x29);
    if closed {
        RefTail { line_end: title_end0, title_offset, title_end: x }
    } else {
        RefTail { line_end: line_end1, title_offset, title_end: title_end0 }
    }
}

/// The link definition at `beg`: `[label]: url "title"`.
pub open spec fn spec_is_ref(data: Seq<u8>, beg: int, end: int) -> Option<FoundRefModel> {
    let h = spec_ref_head(data, beg, end);
    let t = spec_ref_tail(data, end, h.s as int);
    if !h.ok || t.line_end == 0 || t.line_end <= beg {
        None
    } else {
        Some(
            FoundRefModel {
                last: t.line_end as int,
                def: RefModel {
                    label: data.subrange(h.id_offset as int, h.id_end as int),
                    link: data.subrange(h.link_offset as int, h.link_end as int),
                    title: if t.title_end > t.title_offset {
                        data.subrange(t.title_offset as int, t.title_end as int)
                    } else {
                        Seq::empty()
                    },
                },
            },
        )
    }
}

/// The view of an optional definition.
pub open spec fn found_ref_view(r: Option<FoundRef>) -> Option<FoundRefModel> {
    match r {
        Some(f) => Some(f@),
        None => None,
    }
}

/// Reads a link definition, `[label]: url "title"`, at `beg`.
pub fn is_ref(data: &[u8], beg: usize, end: usize) -> (r: Option<FoundRef>)
    requires
        beg <= end <= data.len(),
    ensures
        found_ref_view(r) == spec_is_ref(data@, beg as int, end as int),
        match r {
            Some(f) => beg < f.last <= end,
            None => true,
        },
{
    let h = ref_head(data, beg, end);
    if !h.ok {
        return None;
    }
    let t = ref_tail(data, end, h.s);
    if t.line_end == 0 || t.line_end <= beg {
        return None;
    }
    let title: Vec<u8> = if t.title_end > t.title_offset {
        copy_range(data, t.title_offset, t.title_end)
    } else {
        Vec::new()
    };
    Some(
        FoundRef {
            last: t.line_end,
            def: LinkRef {
                label: copy_range(data, h.id_offset, h.id_end),
                link: copy_range(data, h.link_offset, h.link_end),
                title,
            },
        },
    )
}

/// The position after the newline at `i`: after a line feed or a carriage
/// return, and after both where a line feed follows a carriage return.
pub open spec fn after_eol(data: Seq<u8>, i: int, end: int) -> int {
    if i < end && spec_is_eol(data[i]) {
        if i + 1 < end && data[i + 1] == 0x0a && data[i] == 0x0d {
            i + 2
        } else {
            i + 1
        }
    } else {
        i
    }
}

/// Steps over the newline at `i`.
fn skip_eol(data: &[u8], i: usize, end: usize) -> (r: usize)
    requires
        i <= end <= data.len(),
    ensures
        r == after_eol(data@, i as int, end as int),
        i <= r <= end,
        i < end && spec_is_eol(data@[i as int]) ==> i < r,
{
    if i < end && is_eol(data[i]) {
        if i + 1 < end && data[i + 1] == 0x0a && data[i] == 0x0d {
            i + 2
        } else {
            i + 1
        }
    } else {
        i
    }
}

/// A footnote definition as a mathematical value, and where the text goes
/// on after it.
pub ghost struct FoundNoteModel {
    pub last: int,
    pub def: NoteModel,
}

/// A footnote definition, and where the text goes on after it.
pub struct FoundFootnote {
    pub last: usize,
    pub def: FootnoteDef,
}

impl View for FoundFootnote {
    type V = FoundNoteModel;

    open spec fn view(&self) -> FoundNoteModel {
        FoundNoteModel { last: self.last as int, def: self.def@ }
    }
}

/// The text of a footnote definition from the line at `start` on, added
/// to `contents`, and where the definition ends: the lines that are
/// indented, without up to four spaces of their indentation, each ended
/// by a line feed; a blank line gives a line feed before the next line.
/// The definition ends before a line that is not indented; `first` says
/// where the text of the definition starts, where a tab counts as
/// indentation.
pub open spec fn note_lines(
    data: Seq<u8>,
    end: int,
    first: int,
    start: int,
    in_empty: bool,
    contents: Seq<u8>,
) -> (int, Seq<u8>)
    decreases end - start,
{
    let i = skipped(data, start, end, Class::NotEol);
    let stop = if end - start > 4 {
        start + 4
    } else {
        end
    };
    let ind = skipped(data, start, stop, Class::Is(0x20)) - start;
    let next = after_eol(data, i, end);
    let line = (if ind != 0 && in_empty {
        contents.push(0x0a)
    } else {
        contents
    }) + (if start + ind < i {
        data.subrange(start + ind, i)
    } else {
        Seq::empty()
    }) + (if i < end {
        seq![0x0au8]
    } else {
        Seq::empty()
    });
    if start < 0 || start >= end {
        (start, contents)
    } else if spec_is_blank(data, start, i) {
        if i >= end {
            (i, contents)
        } else {
            proof {
                lemma_skipped(data, start, end, Class::NotEol);
            }
            note_lines(data, end, first, next, true, contents)
        }
    } else if ind == 0 && !(start == first && data[start] == 0x09) {
        (start, contents)
    } else if i >= end {
        (i, line)
    } else {
        proof {
            lemma_skipped(data, start, end, Class::NotEol);
        }
        note_lines(data, end, first, next, false, line)
    }
}

/// The footnote definition at `beg`: `[^label]: text`, where the label
/// stands between brackets on one line, after up to three spaces.
pub open spec fn spec_is_footnote(data: Seq<u8>, beg: int, end: int) -> Option<FoundNoteModel> {
    let i0 = spec_def_indent(data, beg, end);
    let id_offset = i0 + 2;
    let id_end = skipped(data, id_offset, end, Class::NoneOf(0x0a, 0x0d, 0x5d));
    let c = id_end + 1;
    let r = note_lines(data, end, c + 1, c + 1, false, Seq::empty());
    if i0 < 0 || data[i0] != 0x5b || i0 + 1 >= end || data[i0 + 1] != 0x5e || id_end >= end
        || data[id_end] != 0x5d || c >= end || data[c] != 0x3a {
        None
    } else {
        Some(
            FoundNoteModel {
                last: r.0,
                def: NoteModel { label: data.subrange(id_offset, id_end), contents: r.1 },
            },
        )
    }
}

/// The view of an optional definition.
pub open spec fn found_note_view(r: Option<FoundFootnote>) -> Option<FoundNoteModel> {
    match r {
        Some(f) => Some(f@),
        None => None,
    }
}

/// Reads a footnote definition, `[^label]: text`, at `beg`, with the
/// indented lines that continue it.
pub fn is_footnote(data: &[u8], beg: usize, end: usize) -> (r: Option<FoundFootnote>)
    requires
        beg <= end <= data.len(),
    ensures
        found_note_view(r) == spec_is_footnote(data@, beg as int, end as int),
        match r {
            Some(f) => beg < f.last <= end,
            None => true,
        },
{
    let i0: usize = match def_indent(data, beg, end) {
        Some(i) => i,
        None => {
            return None;
        },
    };
    if data[i0] != 0x5b {
        return None;
    }
    if i0 + 1 >= end || data[i0 + 1] != 0x5e {
        return None;
    }
    let id_offset: usize = i0 + 2;
    let id_end: usize = skip(data, id_offset, end, Class::NoneOf(0x0a, 0x0d, 0x5d));
    if id_end >= end || data[id_end] != 0x5d {
        return None;
    }
    let c: usize = id_end + 1;
    if c >= end || data[c] != 0x3a {
        return None;
    }
    let first: usize = c + 1;
    let mut contents: Vec<u8> = Vec::new();
    let mut start: usize = first;
    let mut in_empty: bool = false;
    while start < end
        invariant_except_break
            note_lines(data@, end as int, first as int, first as int, false, Seq::empty())
                == note_lines(data@, end as int, first as int, start as int, in_empty, contents@),
        invariant
            beg < first <= start <= end <= data.len(),
        ensures
            beg < start <= end,
            (start as int, contents@) == note_lines(
                data@,
                end as int,
                first as int,
                first as int,
                false,
                Seq::empty(),
            ),
        decreases end - start,
    {
        let i: usize = skip(data, start, end, Class::NotEol);
        if is_blank(data, start, i) {
            if i >= end {
                start = i;
                break ;
            }
            in_empty = true;
            start = skip_eol(data, i, end);
            continue ;
        }
        let stop: usize = if end - start > 4 {
            start + 4
        } else {
            end
        };
        let ind: usize = skip(data, start, stop, Class::Is(0x20)) - start;
        if ind == 0 && !(start == first && data[start] == 0x09) {
            break ;
        }
        let was_empty: bool = in_empty;
        let ghost before = contents@;
        if ind != 0 && was_empty {
            contents.push(0x0a);
        }
        in_empty = false;
        if start + ind < i {
            contents.extend_from_slice(vstd::slice::slice_subrange(data, start + ind, i));
        }
        if i < end {
            contents.push(0x0a);
        }
        assert(contents@ =~= (if ind != 0 && was_empty {
            before.push(0x0a)
        } else {
            before
        }) + (if start + ind < i {
            data@.subrange(start + ind, i as int)
        } else {
            Seq::empty()
        }) + (if i < end {
            seq![0x0au8]
        } else {
            Seq::empty()
        }));
        if i >= end {
            start = i;
            break ;
        }
        start = skip_eol(data, i, end);
    }
    Some(
        FoundFootnote {
            last: start,
            def: FootnoteDef { label: copy_range(data, id_offset, id_end), contents },
        },
    )
}

/// `n` spaces.
pub open spec fn spaces(n: int) -> Seq<u8> {
    Seq::new(n as nat, |k: int| 0x20u8)
}

/// The bytes of `line` from `i` on with each tab turned into spaces up to
/// the next column that is a multiple of four.  `tab` is the column at
/// `i`, counted in fours; bytes that continue a UTF-8 sequence take no
/// column.
pub open spec fn tabs_expanded(line: Seq<u8>, i: int, tab: int) -> Seq<u8>
    decreases line.len() - i,
{
    if i < 0 || i >= line.len() {
        Seq::empty()
    } else if line[i] == 0x09 {
        spaces(4 - tab) + tabs_expanded(line, i + 1, 0)
    } else {
        seq![line[i]] + tabs_expanded(line, i + 1, if line[i] & 0xc0 != 0x80 {
            (tab + 1) % 4
        } else {
            tab
        })
    }
}

/// Appends `line` to `out` with each tab turned into spaces up to the next
/// column that is a multiple of four.
pub fn expand_tabs(out: &mut Vec<u8>, line: &[u8])
    ensures
        final(out)@ == old(out)@ + tabs_expanded(line@, 0, 0),
{
    let size: usize = line.len();
    let mut i: usize = 0;
    let mut tab: usize = 0;
    while i < size
        invariant
            i <= size,
            size == line.len(),
            tab < 4,
            out@ + tabs_expanded(line@, i as int, tab as int) == old(out)@ + tabs_expanded(
                line@,
                0,
                0,
            ),
        decreases size - i,
    {
        let ghost before = out@;
        let c: u8 = line[i];
        if c == 0x09 {
            let mut k: usize = tab;
            while k < 4
                invariant
                    tab <= k <= 4,
                    out@ == before + spaces(k - tab),
                decreases 4 - k,
            {
                out.push(0x20);
                assert(out@ =~= before + spaces(k + 1 - tab));
                k += 1;
            }
            assert(out@ + tabs_expanded(line@, i + 1, 0) =~= before + (spaces(4 - tab)
                + tabs_expanded(line@, i + 1, 0)));
            tab = 0;
        } else {
            out.push(c);
            let ghost t0 = tab;
            if c & 0xc0 != 0x80 {
                tab = (tab + 1) % 4;
            }
            assert(out@ + tabs_expanded(line@, i + 1, tab as int) =~= before + (seq![c]
                + tabs_expanded(line@, i + 1, tab as int)));
        }
        i += 1;
    }
    assert(out@ + tabs_expanded(line@, i as int, tab as int) =~= out@);
}

} // verus!
