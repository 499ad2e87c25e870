//! Growable byte buffers.
//!
//! A [`Buffer`] is an append-only accumulator of bytes.  Its capacity grows in
//! whole multiples of a growth unit fixed at construction.

use vstd::prelude::*;
use vstd::string::StringSliceAdditionalSpecFns;

verus! {

/// The error of `std::str::from_utf8`.
#[verifier::external_type_specification]
#[verifier::external_body]
pub struct ExUtf8Error(core::str::Utf8Error);

/// Calls `std::str::from_utf8`: the bytes as text where they are valid
/// UTF-8, an error where they are not.
#[verifier::external_body]
fn str_from_utf8(bytes: &[u8]) -> (r: Result<&str, core::str::Utf8Error>)
    ensures
        r.is_ok() <==> vstd::utf8::valid_utf8(bytes@),
        r matches Ok(s) ==> s.spec_bytes() == bytes@,
{
    core::str::from_utf8(bytes)
}

/// The number of growth units of size `step` needed to hold `len` bytes.
pub open spec fn units_for(len: int, step: int) -> int
    recommends
        len >= 0,
        step > 0,
{
    if len % step == 0 {
        len / step
    } else {
        len / step + 1
    }
}

/// Append-only byte accumulator.
pub struct Buffer {
    data: Vec<u8>,
    units: usize,
    unit: usize,
}

impl View for Buffer {
    type V = Seq<u8>;

    /// The bytes held by the buffer.
    closed spec fn view(&self) -> Seq<u8> {
        self.data@
    }
}

impl Buffer {
    /// The growth unit the buffer was made with.
    pub closed spec fn spec_unit(&self) -> usize {
        self.unit
    }

    /// The increment by which the capacity grows: the growth unit, or one
    /// byte where the unit is zero.
    pub open spec fn step(&self) -> int {
        if self.spec_unit() == 0 {
            1
        } else {
            self.spec_unit() as int
        }
    }

    /// The number of growth steps allocated so far.
    pub closed spec fn spec_units(&self) -> int {
        self.units as int
    }

    /// The allocated capacity in bytes.
    pub open spec fn capacity(&self) -> int {
        self.spec_units() * self.step()
    }

    /// The buffer invariant: the contents fit in the capacity.
    pub open spec fn wf(&self) -> bool {
        &&& 0 <= self.spec_units()
        &&& self@.len() <= self.capacity()
    }

    proof fn lemma_units_cover(len: int, step: int)
        requires
            len >= 0,
            step > 0,
        ensures
            units_for(len, step) * step >= len,
            units_for(len, step) >= 0,
            units_for(len, step) <= len,
            (units_for(len, step) - 1) * step < len || len == 0,
    {
        let q = len / step;
        let r = len % step;
        assert(len == q * step + r && 0 <= r < step && q >= 0 && q <= len) by (nonlinear_arith)
            requires
                len >= 0,
                step > 0,
                q == len / step,
                r == len % step,
        ;
        assert((q + 1) * step == q * step + step) by (nonlinear_arith);
        assert((q - 1) * step == q * step - step) by (nonlinear_arith);
        if r != 0 {
            assert(q + 1 <= len) by (nonlinear_arith)
                requires
                    len == q * step + r,
                    0 < r < step,
                    q >= 0,
            ;
        }
    }

    /// Grows the allocation so that it covers the current contents.
    fn grow(&mut self)
        ensures
            final(self)@ == old(self)@,
            final(self).spec_unit() == old(self).spec_unit(),
            final(self).spec_units() == if old(self).spec_units() >= units_for(
                old(self)@.len() as int,
                old(self).step(),
            ) {
                old(self).spec_units()
            } else {
                units_for(old(self)@.len() as int, old(self).step())
            },
            final(self).wf(),
    {
        let step: usize = if self.unit == 0 {
            1
        } else {
            self.unit
        };
        let len: usize = self.data.len();
        proof {
            Self::lemma_units_cover(len as int, step as int);
        }
        let needed: usize = if len % step == 0 {
            len / step
        } else {
            len / step + 1
        };
        if self.units < needed {
            self.units = needed;
        }
        assert(self.units as int * step as int >= len as int) by (nonlinear_arith)
            requires
                self.units >= needed,
                needed as int * step as int >= len as int,
                step > 0,
        ;
    }

    /// Creates an empty buffer with the given growth unit.
    pub fn new(size: usize) -> (b: Buffer)
        ensures
            b@ == Seq::<u8>::empty(),
            b.spec_unit() == size,
            b.spec_units() == 0,
            b.wf(),
    {
        let b = Buffer { data: Vec::new(), units: 0, unit: size };
        assert(b.spec_units() * b.step() == 0) by (nonlinear_arith)
            requires
                b.spec_units() == 0,
        ;
        b
    }

    /// The growth unit.
    pub fn unit(&self) -> (u: usize)
        ensures
            u == self.spec_unit(),
    {
        self.unit
    }

    /// The allocated capacity in bytes; the largest value that fits where
    /// the capacity itself does not.
    pub fn allocated(&self) -> (c: usize)
        ensures
            c == if self.capacity() <= usize::MAX {
                self.capacity()
            } else {
                usize::MAX as int
            },
    {
        let step: usize = if self.unit == 0 {
            1
        } else {
            self.unit
        };
        if self.units <= usize::MAX / step {
            assert(self.units * step <= usize::MAX) by (nonlinear_arith)
                requires
                    self.units <= usize::MAX / step,
                    step > 0,
            ;
            self.units * step
        } else {
            assert(self.units * step > usize::MAX) by (nonlinear_arith)
                requires
                    self.units > usize::MAX / step,
                    step > 0,
            ;
            usize::MAX
        }
    }

    /// The number of bytes held.
    pub fn len(&self) -> (n: usize)
        ensures
            n == self@.len(),
    {
        self.data.len()
    }

    /// Whether the buffer holds no bytes.
    pub fn is_empty(&self) -> (e: bool)
        ensures
            e == (self@.len() == 0),
    {
        self.data.len() == 0
    }

    /// A borrowed view of the contents.
    pub fn as_slice(&self) -> (s: &[u8])
        ensures
            s@ == self@,
    {
        self.data.as_slice()
    }

    /// The contents as text, where they are valid UTF-8; the encoding
    /// error where they are not.
    pub fn to_str(&self) -> (r: Result<&str, core::str::Utf8Error>)
        ensures
            r.is_ok() <==> vstd::utf8::valid_utf8(self@),
            r matches Ok(s) ==> s.spec_bytes() == self@,
    {
        str_from_utf8(self.data.as_slice())
    }

    /// A buffer with the growth unit 64 that holds a copy of `bytes`.
    pub fn from_bytes(bytes: &[u8]) -> (b: Buffer)
        ensures
            b@ == bytes@,
            b.spec_unit() == 64,
            b.spec_units() == units_for(bytes@.len() as int, 64),
            b.wf(),
    {
        let mut b = Buffer::new(64);
        b.put(bytes);
        proof {
            assert(Seq::<u8>::empty() + bytes@ =~= bytes@);
            Self::lemma_units_cover(bytes@.len() as int, 64);
        }
        b
    }

    /// Appends `bytes` to the contents, growing the capacity by whole steps
    /// when it does not suffice.
    pub fn put(&mut self, bytes: &[u8])
        ensures
            final(self)@ == old(self)@ + bytes@,
            final(self).spec_unit() == old(self).spec_unit(),
            final(self).spec_units() == if old(self).spec_units() >= units_for(
                (old(self)@.len() + bytes@.len()) as int,
                old(self).step(),
            ) {
                old(self).spec_units()
            } else {
                units_for((old(self)@.len() + bytes@.len()) as int, old(self).step())
            },
            old(self).wf() ==> final(self).wf(),
    {
        self.data.extend_from_slice(bytes);
        self.grow();
    }

    /// Appends the bytes of `s`.
    pub fn puts(&mut self, s: &str)
        ensures
            final(self)@ == old(self)@ + s.spec_bytes(),
            final(self).spec_unit() == old(self).spec_unit(),
            old(self).wf() ==> final(self).wf(),
    {
        self.put(s.as_bytes());
    }

    /// Appends one byte.
    pub fn putc(&mut self, byte: u8)
        ensures
            final(self)@ == old(self)@.push(byte),
            final(self).spec_unit() == old(self).spec_unit(),
            old(self).wf() ==> final(self).wf(),
    {
        self.data.push(byte);
        self.grow();
    }

    /// Appends the contents of another buffer.
    pub fn pipe(&mut self, input: &Buffer)
        ensures
            final(self)@ == old(self)@ + input@,
            final(self).spec_unit() == old(self).spec_unit(),
            old(self).wf() ==> final(self).wf(),
    {
        self.put(input.as_slice());
    }

    /// Drops the last `n` bytes of the contents; the capacity stays.
    pub(crate) fn rewind(&mut self, n: usize)
        requires
            n <= old(self)@.len(),
        ensures
            final(self)@ == old(self)@.subrange(0, old(self)@.len() - n),
            final(self).spec_unit() == old(self).spec_unit(),
            final(self).spec_units() == old(self).spec_units(),
            old(self).wf() ==> final(self).wf(),
    {
        let keep: usize = self.data.len() - n;
        self.data.truncate(keep);
    }
}


impl Clone for Buffer {
    /// A fresh buffer with the same growth unit and the same contents.
    fn clone(&self) -> (b: Buffer)
        ensures
            b@ == self@,
            b.spec_unit() == self.spec_unit(),
            b.spec_units() == units_for(self@.len() as int, self.step()),
            b.wf(),
    {
        let mut b = Buffer::new(self.unit);
        b.put(self.data.as_slice());
        proof {
            assert(Seq::<u8>::empty() + self@ =~= self@);
            Self::lemma_units_cover(self@.len() as int, self.step());
        }
        b
    }
}

impl<'a> vstd::std_specs::convert::FromSpecImpl<&'a [u8]> for Buffer {
    open spec fn obeys_from_spec() -> bool {
        false
    }

    open spec fn from_spec(s: &'a [u8]) -> Buffer {
        arbitrary()
    }
}

impl<'a> From<&'a [u8]> for Buffer {
    /// A buffer that holds a copy of the bytes.
    fn from(s: &'a [u8]) -> (b: Buffer)
        ensures
            b@ == s@,
            b.spec_unit() == 64,
            b.wf(),
    {
        Buffer::from_bytes(s)
    }
}

impl<'a> vstd::std_specs::convert::FromSpecImpl<&'a str> for Buffer {
    open spec fn obeys_from_spec() -> bool {
        false
    }

    open spec fn from_spec(s: &'a str) -> Buffer {
        arbitrary()
    }
}

impl<'a> From<&'a str> for Buffer {
    /// A buffer that holds a copy of the bytes of the text.
    fn from(s: &'a str) -> (b: Buffer)
        ensures
            b@ == s.spec_bytes(),
            b.spec_unit() == 64,
            b.wf(),
    {
        Buffer::from_bytes(s.as_bytes())
    }
}

impl core::ops::Deref for Buffer {
    type Target = [u8];

    /// The contents as a slice.
    fn deref(&self) -> (s: &[u8])
        ensures
            s@ == self@,
    {
        self.data.as_slice()
    }
}

impl AsRef<[u8]> for Buffer {
    /// The contents as a slice.
    fn as_ref(&self) -> (s: &[u8])
        ensures
            s@ == self@,
    {
        self.data.as_slice()
    }
}

impl core::ops::DerefMut for Buffer {
    /// The contents as a slice that can be written to: the length stays.
    fn deref_mut(&mut self) -> (s: &mut [u8])
        ensures
            s@ == old(self)@,
            final(s)@ == final(self)@,
            final(self).spec_unit() == old(self).spec_unit(),
            final(self).spec_units() == old(self).spec_units(),
    {
        self.data.as_mut_slice()
    }
}

impl AsMut<[u8]> for Buffer {
    /// The contents as a slice that can be written to: the length stays.
    fn as_mut(&mut self) -> (s: &mut [u8])
        ensures
            s@ == old(self)@,
            final(s)@ == final(self)@,
            final(self).spec_unit() == old(self).spec_unit(),
            final(self).spec_units() == old(self).spec_units(),
    {
        self.data.as_mut_slice()
    }
}

/// The error type of the reader and writer interfaces.  No operation on
/// a buffer gives one.
#[verifier::external_type_specification]
#[verifier::external_body]
pub struct ExIoError(std::io::Error);

impl std::io::Write for Buffer {
    /// Appends `buf` to the contents: all of it is taken.
    fn write(&mut self, buf: &[u8]) -> (r: Result<usize, std::io::Error>)
        ensures
            r matches Ok(n) && n == buf@.len(),
            final(self)@ == old(self)@ + buf@,
            final(self).spec_unit() == old(self).spec_unit(),
            old(self).wf() ==> final(self).wf(),
    {
        self.put(buf);
        Ok(buf.len())
    }

    /// Does nothing: a buffer holds what was written to it.
    fn flush(&mut self) -> (r: Result<(), std::io::Error>)
        ensures
            r is Ok,
            *final(self) == *old(self),
    {
        Ok(())
    }
}

impl std::io::Read for Buffer {
    /// Copies the first bytes of the contents to the start of `buf`, as
    /// many as fit.  The buffer stays as it is: the next read starts at
    /// the first byte again.
    fn read(&mut self, buf: &mut [u8]) -> (r: Result<usize, std::io::Error>)
        ensures
            *final(self) == *old(self),
            r matches Ok(n) && n == (if old(buf)@.len() < old(self)@.len() {
                old(buf)@.len()
            } else {
                old(self)@.len()
            }) && final(buf)@ == old(self)@.subrange(0, n as int) + old(buf)@.subrange(
                n as int,
                old(buf)@.len() as int,
            ),
    {
        let n: usize = if buf.len() < self.data.len() {
            buf.len()
        } else {
            self.data.len()
        };
        let mut i: usize = 0;
        while i < n
            invariant
                i <= n,
                n <= self.data.len(),
                n <= buf@.len(),
                buf@.len() == old(buf)@.len(),
                *self == *old(self),
                buf@ =~= self@.subrange(0, i as int) + old(buf)@.subrange(
                    i as int,
                    old(buf)@.len() as int,
                ),
            decreases n - i,
        {
            buf[i] = self.data[i];
            i += 1;
        }
        Ok(n)
    }
}

} // verus!
