//! The set of optional grammar features.

use vstd::prelude::*;

verus! {

/// A set of markdown extensions, one bit each.  The constants of this
/// module give the bit of each extension.
#[derive(Clone, Copy, Debug, PartialEq, Eq, Structural)]
pub struct Extension {
    pub bits: u32,
}

/// Process table syntax.
pub const TABLES: u32 = 0x0001;

/// Process fenced code.
pub const FENCED_CODE: u32 = 0x0002;

/// Process footnotes.
pub const FOOTNOTES: u32 = 0x0004;

/// Automatically link URLs and emails.
pub const AUTOLINK: u32 = 0x0008;

/// Enable strikethrough syntax, e.g. `~~strike one~~`.
pub const STRIKETHROUGH: u32 = 0x0010;

/// Perform an underline instead of emphasis.
pub const UNDERLINE: u32 = 0x0020;

/// Process highlight syntax, e.g. `==highlight me==`.
pub const HIGHLIGHT: u32 = 0x0040;

/// Render quotes differently.
pub const QUOTE: u32 = 0x0080;

/// Process superscript syntax, e.g. `2^3 = 8`.
pub const SUPERSCRIPT: u32 = 0x0100;

/// Process math syntax, e.g. `$$x + y = z$$`.
pub const MATH: u32 = 0x0200;

/// Don't parse emphasis inside of words.
pub const NO_INTRA_EMPHASIS: u32 = 0x0800;

/// Require a space after the hashes of an ATX header.
pub const SPACE_HEADERS: u32 = 0x1000;

/// Process the single dollar math syntax, e.g. `$x + y = 3$`.
pub const MATH_EXPLICIT: u32 = 0x2000;

/// Ignore indented code blocks.
pub const DISABLE_INDENTED_CODE: u32 = 0x4000;

/// Every bit that names an extension.
pub const ALL_BITS: u32 = 0x7bff;

impl Extension {
    /// The set with no extension enabled.
    pub fn empty() -> (e: Extension)
        ensures
            e.bits == 0,
    {
        Extension { bits: 0 }
    }

    /// The set with every extension enabled.
    pub fn all() -> (e: Extension)
        ensures
            e.bits == ALL_BITS,
    {
        Extension { bits: ALL_BITS }
    }

    /// The raw bits.
    pub fn bits(&self) -> (b: u32)
        ensures
            b == self.bits,
    {
        self.bits
    }

    /// The set with exactly the given bits, if each of them names an extension.
    pub fn from_bits(bits: u32) -> (r: Option<Extension>)
        ensures
            r.is_some() <==> bits & !ALL_BITS == 0,
            r.is_some() ==> r.unwrap().bits == bits,
    {
        if bits & !ALL_BITS == 0 {
            Some(Extension { bits })
        } else {
            None
        }
    }

    /// The set with the given bits that name an extension; the others are dropped.
    pub fn of(bits: u32) -> (e: Extension)
        ensures
            e.bits == bits & ALL_BITS,
    {
        Extension { bits: bits & ALL_BITS }
    }

    /// The set with the given bits that name an extension; the others are dropped.
    pub fn from_bits_truncate(bits: u32) -> (e: Extension)
        ensures
            e.bits == bits & ALL_BITS,
    {
        Extension { bits: bits & ALL_BITS }
    }

    /// Whether no extension is enabled.
    pub fn is_empty(&self) -> (r: bool)
        ensures
            r == (self.bits == 0),
    {
        self.bits == 0
    }

    /// Whether the extension with the given bit is enabled.
    pub open spec fn on(&self, bit: u32) -> bool {
        self.bits & bit != 0
    }

    /// Whether the extension with the given bit is enabled.
    pub fn enabled(&self, bit: u32) -> (r: bool)
        ensures
            r == self.on(bit),
    {
        self.bits & bit != 0
    }

    /// Whether every extension of `other` is enabled in `self`.
    pub open spec fn has(&self, other: Extension) -> bool {
        self.bits & other.bits == other.bits
    }

    /// Whether every extension of `other` is enabled in `self`.
    pub fn contains(&self, other: Extension) -> (r: bool)
        ensures
            r == self.has(other),
    {
        self.bits & other.bits == other.bits
    }

    /// Whether some extension of `other` is enabled in `self`.
    pub fn intersects(&self, other: Extension) -> (r: bool)
        ensures
            r == (self.bits & other.bits != 0),
    {
        self.bits & other.bits != 0
    }

    /// The extensions enabled in either set.
    pub fn union(&self, other: Extension) -> (e: Extension)
        ensures
            e.bits == self.bits | other.bits,
    {
        Extension { bits: self.bits | other.bits }
    }

    /// The extensions enabled in both sets.
    pub fn intersection(&self, other: Extension) -> (e: Extension)
        ensures
            e.bits == self.bits & other.bits,
    {
        Extension { bits: self.bits & other.bits }
    }

    /// Enables the extensions of `other`.
    pub fn insert(&mut self, other: Extension)
        ensures
            final(self).bits == old(self).bits | other.bits,
    {
        self.bits = self.bits | other.bits;
    }

    /// Disables the extensions of `other`.
    pub fn remove(&mut self, other: Extension)
        ensures
            final(self).bits == old(self).bits & !other.bits,
    {
        self.bits = self.bits & !other.bits;
    }
}

/// A union contains both of its operands, and is the least such set.
pub proof fn law_union_contains(a: Extension, b: Extension, c: Extension)
    ensures
        (Extension { bits: a.bits | b.bits }).has(a),
        (Extension { bits: a.bits | b.bits }).has(b),
        c.has(a) && c.has(b) ==> c.has(Extension { bits: a.bits | b.bits }),
{
    let x = a.bits;
    let y = b.bits;
    let z = c.bits;
    assert((x | y) & x == x) by (bit_vector);
    assert((x | y) & y == y) by (bit_vector);
    assert(z & x == x && z & y == y ==> z & (x | y) == (x | y)) by (bit_vector);
}

/// An intersection is contained in both of its operands.
pub proof fn law_intersection_contained(a: Extension, b: Extension)
    ensures
        a.has(Extension { bits: a.bits & b.bits }),
        b.has(Extension { bits: a.bits & b.bits }),
{
    let x = a.bits;
    let y = b.bits;
    assert(x & (x & y) == (x & y)) by (bit_vector);
    assert(y & (x & y) == (x & y)) by (bit_vector);
}

} // verus!
