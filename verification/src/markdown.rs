//! Markdown documents.

use vstd::prelude::*;
use vstd::string::StringSliceAdditionalSpecFns;
use crate::buffer::Buffer;
use crate::extensions::Extension;

verus! {

/// The nesting depth up to which a document is scanned unless another is asked for.
pub const DEFAULT_MAX_NESTING: usize = 16;

/// Markdown document: its text, and how it is to be parsed.
#[derive(Clone)]
pub struct Markdown {
    pub contents: Buffer,
    pub extensions: Extension,
    pub max_nesting: usize,
}

impl Markdown {
    /// A document with the given text, no extension, and the default
    /// nesting limit.
    pub fn new(body: &str) -> (m: Markdown)
        ensures
            m.contents@ == body.spec_bytes(),
            m.extensions.bits == 0,
            m.max_nesting == DEFAULT_MAX_NESTING,
    {
        Markdown::from_bytes(body.as_bytes())
    }

    /// A document with the given bytes as its text.
    pub fn from_bytes(bytes: &[u8]) -> (m: Markdown)
        ensures
            m.contents@ == bytes@,
            m.extensions.bits == 0,
            m.max_nesting == DEFAULT_MAX_NESTING,
    {
        let mut contents = Buffer::new(64);
        contents.put(bytes);
        Markdown { contents, extensions: Extension::empty(), max_nesting: DEFAULT_MAX_NESTING }
    }

    /// A document with the contents of the given buffer as its text.
    pub fn from_buffer(buffer: Buffer) -> (m: Markdown)
        ensures
            m.contents == buffer,
            m.extensions.bits == 0,
            m.max_nesting == DEFAULT_MAX_NESTING,
    {
        Markdown {
            contents: buffer,
            extensions: Extension::empty(),
            max_nesting: DEFAULT_MAX_NESTING,
        }
    }

    /// The document with the given extensions in place of its own.
    pub fn extensions(self, extensions: Extension) -> (m: Markdown)
        ensures
            m.contents == self.contents,
            m.extensions == extensions,
            m.max_nesting == self.max_nesting,
    {
        Markdown { contents: self.contents, extensions, max_nesting: self.max_nesting }
    }

    /// The document with the given nesting limit in place of its own.
    pub fn max_nesting(self, max_nesting: usize) -> (m: Markdown)
        ensures
            m.contents == self.contents,
            m.extensions == self.extensions,
            m.max_nesting == max_nesting,
    {
        Markdown { contents: self.contents, extensions: self.extensions, max_nesting }
    }
}


impl vstd::std_specs::convert::FromSpecImpl<Buffer> for Markdown {
    open spec fn obeys_from_spec() -> bool {
        true
    }

    open spec fn from_spec(buffer: Buffer) -> Markdown {
        Markdown {
            contents: buffer,
            extensions: Extension { bits: 0 },
            max_nesting: DEFAULT_MAX_NESTING,
        }
    }
}

impl From<Buffer> for Markdown {
    /// A document with the contents of the buffer as its text, no
    /// extension, and the default nesting limit.
    fn from(buffer: Buffer) -> (m: Markdown)
        ensures
            m.contents == buffer,
            m.extensions.bits == 0,
            m.max_nesting == DEFAULT_MAX_NESTING,
    {
        Markdown::from_buffer(buffer)
    }
}

impl<'a> vstd::std_specs::convert::FromSpecImpl<&'a [u8]> for Markdown {
    open spec fn obeys_from_spec() -> bool {
        false
    }

    open spec fn from_spec(bytes: &'a [u8]) -> Markdown {
        arbitrary()
    }
}

impl<'a> From<&'a [u8]> for Markdown {
    /// A document with the given bytes as its text, no extension, and the
    /// default nesting limit.
    fn from(bytes: &'a [u8]) -> (m: Markdown)
        ensures
            m.contents@ == bytes@,
            m.extensions.bits == 0,
            m.max_nesting == DEFAULT_MAX_NESTING,
    {
        Markdown::from_bytes(bytes)
    }
}

} // verus!
