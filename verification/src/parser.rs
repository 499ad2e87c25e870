//! The state that a parse of one document carries.

use vstd::prelude::*;
use crate::chars::to_lower;
use crate::extensions::Extension;

verus! {

/// A link definition, `[label]: url "title"`, collected before the blocks
/// are scanned.
pub struct LinkRef {
    pub label: Vec<u8>,
    pub link: Vec<u8>,
    pub title: Vec<u8>,
}

/// A footnote definition, `[^label]: text`, collected before the blocks are
/// scanned.
pub struct FootnoteDef {
    pub label: Vec<u8>,
    pub contents: Vec<u8>,
}

/// A link definition as a mathematical value.
pub ghost struct RefModel {
    pub label: Seq<u8>,
    pub link: Seq<u8>,
    pub title: Seq<u8>,
}

/// A footnote definition as a mathematical value.
pub ghost struct NoteModel {
    pub label: Seq<u8>,
    pub contents: Seq<u8>,
}

impl View for LinkRef {
    type V = RefModel;

    open spec fn view(&self) -> RefModel {
        RefModel { label: self.label@, link: self.link@, title: self.title@ }
    }
}

impl View for FootnoteDef {
    type V = NoteModel;

    open spec fn view(&self) -> NoteModel {
        NoteModel { label: self.label@, contents: self.contents@ }
    }
}

/// The state of one parse as a mathematical value.
pub ghost struct State {
    pub ext: Extension,
    pub max_nesting: usize,
    pub refs: Seq<RefModel>,
    pub footnotes: Seq<NoteModel>,
    pub used: Seq<usize>,
    pub span_depth: usize,
    pub block_depth: usize,
    pub in_link_body: bool,
}

impl State {
    /// Whether the nesting of work in progress is beyond the limit.
    pub open spec fn too_deep(self) -> bool {
        self.span_depth + self.block_depth > self.max_nesting
    }

    /// The state with one more span-level work in progress.
    pub open spec fn enter_span(self) -> State {
        State {
            span_depth: if self.span_depth < usize::MAX {
                (self.span_depth + 1) as usize
            } else {
                self.span_depth
            },
            ..self
        }
    }

    /// The state with one more block-level work in progress.
    pub open spec fn enter_block(self) -> State {
        State {
            block_depth: if self.block_depth < usize::MAX {
                (self.block_depth + 1) as usize
            } else {
                self.block_depth
            },
            ..self
        }
    }

    /// The state with `k` more span-level works in progress.
    pub open spec fn enter_spans(self, k: int) -> State
        decreases k,
    {
        if k <= 0 {
            self
        } else {
            self.enter_spans(k - 1).enter_span()
        }
    }

    /// The state with the given counts of work in progress.
    pub open spec fn at_depth(self, span_depth: usize, block_depth: usize) -> State {
        State { span_depth, block_depth, ..self }
    }

    /// The index of the last link definition with the given label among
    /// the first `n`, or -1.
    pub open spec fn last_ref(self, label: Seq<u8>, n: int) -> int
        decreases n,
    {
        if n <= 0 {
            -1
        } else if same_label(self.refs[n - 1].label, label) {
            n - 1
        } else {
            self.last_ref(label, n - 1)
        }
    }

    /// The index of the first footnote definition with the given label
    /// from `i` on, or -1.
    pub open spec fn first_note(self, label: Seq<u8>, i: int) -> int
        decreases self.footnotes.len() - i,
    {
        if i < 0 || i >= self.footnotes.len() {
            -1
        } else if same_label(self.footnotes[i].label, label) {
            i
        } else {
            self.first_note(label, i + 1)
        }
    }
}

/// The state of one parse.
pub struct Parser {
    pub ext: Extension,
    pub max_nesting: usize,
    pub refs: Vec<LinkRef>,
    pub footnotes: Vec<FootnoteDef>,
    /// Indices into `footnotes`, in the order of first reference.
    pub used: Vec<usize>,
    pub span_depth: usize,
    pub block_depth: usize,
    pub in_link_body: bool,
}

/// Whether two labels are the same without regard to the case of ASCII letters.
pub open spec fn same_label(a: Seq<u8>, b: Seq<u8>) -> bool {
    &&& a.len() == b.len()
    &&& forall|k: int| 0 <= k < a.len() ==> crate::chars::lower(#[trigger] a[k]) == crate::chars::lower(b[k])
}

/// Whether two labels are the same without regard to the case of ASCII letters.
pub fn labels_match(a: &[u8], b: &[u8]) -> (r: bool)
    ensures
        r == same_label(a@, b@),
{
    if a.len() != b.len() {
        return false;
    }
    let mut i: usize = 0;
    while i < a.len()
        invariant
            i <= a.len(),
            a.len() == b.len(),
            forall|k: int| 0 <= k < i ==> crate::chars::lower(#[trigger] a@[k]) == crate::chars::lower(b@[k]),
        decreases a.len() - i,
    {
        if to_lower(a[i]) != to_lower(b[i]) {
            return false;
        }
        i += 1;
    }
    true
}

impl View for Parser {
    type V = State;

    open spec fn view(&self) -> State {
        State {
            ext: self.ext,
            max_nesting: self.max_nesting,
            refs: self.refs@.map_values(|r: LinkRef| r@),
            footnotes: self.footnotes@.map_values(|f: FootnoteDef| f@),
            used: self.used@,
            span_depth: self.span_depth,
            block_depth: self.block_depth,
            in_link_body: self.in_link_body,
        }
    }
}

impl Parser {
    /// A fresh state for a document with the given extensions and nesting limit.
    pub fn new(ext: Extension, max_nesting: usize) -> (p: Parser)
        ensures
            p@ == (State {
                ext,
                max_nesting,
                refs: Seq::empty(),
                footnotes: Seq::empty(),
                used: Seq::empty(),
                span_depth: 0,
                block_depth: 0,
                in_link_body: false,
            }),
    {
        let p = Parser {
            ext,
            max_nesting,
            refs: Vec::new(),
            footnotes: Vec::new(),
            used: Vec::new(),
            span_depth: 0,
            block_depth: 0,
            in_link_body: false,
        };
        assert(p@.refs =~= Seq::empty());
        assert(p@.footnotes =~= Seq::empty());
        assert(p@.used =~= Seq::empty());
        p
    }

    /// Whether the extension with the given bit is enabled.
    pub fn on(&self, bit: u32) -> (r: bool)
        ensures
            r == self@.ext.on(bit),
    {
        self.ext.enabled(bit)
    }

    /// Whether the nesting of work in progress is beyond the limit.
    pub fn too_deep(&self) -> (r: bool)
        ensures
            r == self@.too_deep(),
    {
        self.span_depth > self.max_nesting || self.block_depth > self.max_nesting
            - self.span_depth
    }

    /// Counts one more span-level work in progress.
    pub fn enter_span(&mut self)
        ensures
            final(self)@ == old(self)@.enter_span(),
    {
        if self.span_depth < usize::MAX {
            self.span_depth += 1;
        }
    }

    /// Counts one more block-level work in progress.
    pub fn enter_block(&mut self)
        ensures
            final(self)@ == old(self)@.enter_block(),
    {
        if self.block_depth < usize::MAX {
            self.block_depth += 1;
        }
    }

    /// Counts `k` more span-level works in progress.
    pub fn enter_spans(&mut self, k: usize)
        ensures
            final(self)@ == old(self)@.enter_spans(k as int),
    {
        let mut i: usize = 0;
        while i < k
            invariant
                i <= k,
                self@ == old(self)@.enter_spans(i as int),
            decreases k - i,
        {
            self.enter_span();
            i += 1;
        }
    }

    /// Sets the counts of work in progress.
    pub fn set_depth(&mut self, span_depth: usize, block_depth: usize)
        ensures
            final(self)@ == old(self)@.at_depth(span_depth, block_depth),
    {
        self.span_depth = span_depth;
        self.block_depth = block_depth;
    }

    /// Sets whether the content of a link is being scanned.
    pub fn set_in_link_body(&mut self, on: bool)
        ensures
            final(self)@ == (State { in_link_body: on, ..old(self)@ }),
    {
        self.in_link_body = on;
    }

    /// Marks the footnote with index `idx` as referred to.
    pub fn mark_used(&mut self, idx: usize)
        ensures
            final(self)@ == (State { used: old(self)@.used.push(idx), ..old(self)@ }),
    {
        self.used.push(idx);
    }

    /// The index of the link definition with the given label, if there is
    /// one: the last, where several have it.
    pub fn find_link_ref(&self, label: &[u8]) -> (r: Option<usize>)
        ensures
            match r {
                Some(i) => i == self@.last_ref(label@, self@.refs.len() as int) && i
                    < self.refs@.len(),
                None => self@.last_ref(label@, self@.refs.len() as int) == -1,
            },
    {
        let mut i: usize = self.refs.len();
        while i > 0
            invariant
                i <= self.refs@.len(),
                self@.last_ref(label@, self@.refs.len() as int) == self@.last_ref(label@, i as int),
            decreases i,
        {
            i -= 1;
            if labels_match(self.refs[i].label.as_slice(), label) {
                return Some(i);
            }
        }
        None
    }

    /// Whether the footnote with index `idx` has been referred to.
    pub fn is_used(&self, idx: usize) -> (r: bool)
        ensures
            r == self@.used.contains(idx),
    {
        let mut i: usize = 0;
        while i < self.used.len()
            invariant
                i <= self.used@.len(),
                forall|k: int| 0 <= k < i ==> self.used@[k] != idx,
            decreases self.used@.len() - i,
        {
            if self.used[i] == idx {
                return true;
            }
            i += 1;
        }
        false
    }

    /// The index of the footnote definition with the given label, if there
    /// is one: the first, where several have it.
    pub fn find_footnote(&self, label: &[u8]) -> (r: Option<usize>)
        ensures
            match r {
                Some(i) => i == self@.first_note(label@, 0) && i < self.footnotes@.len(),
                None => self@.first_note(label@, 0) == -1,
            },
    {
        let mut i: usize = 0;
        while i < self.footnotes.len()
            invariant
                i <= self.footnotes@.len(),
                self@.first_note(label@, 0) == self@.first_note(label@, i as int),
            decreases self.footnotes@.len() - i,
        {
            if labels_match(self.footnotes[i].label.as_slice(), label) {
                return Some(i);
            }
            i += 1;
        }
        None
    }
}

} // verus!
