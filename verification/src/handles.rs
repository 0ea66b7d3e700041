//! Space-checked destination handles shared by the streaming engines.
//!
//! A handle owns a destination buffer together with its fixed capacity. It
//! answers whether a given number of units still fits at the current cursor,
//! and it appends units only where that check has granted the room (the grant
//! is a precondition of every write). Engines never bypass the check, so a
//! destination can never overflow its declared capacity; when space runs out
//! the engine stops and reports the exact progress made, and the caller
//! resumes with a fresh destination.

use vstd::prelude::*;
use vstd::utf8::*;

verus! {

/// A bounded UTF-16 destination: the code units written so far, never more
/// than its fixed capacity.
pub struct Utf16Destination {
    units: Vec<u16>,
    cap: usize,
}

impl View for Utf16Destination {
    type V = Seq<u16>;

    closed spec fn view(&self) -> Seq<u16> {
        self.units@
    }
}

impl Utf16Destination {
    /// The fixed number of code units this destination can hold.
    pub closed spec fn capacity(&self) -> nat {
        self.cap as nat
    }

    /// The written prefix never exceeds the capacity.
    pub open spec fn wf(&self) -> bool {
        self@.len() <= self.capacity()
    }

    /// An empty destination that can hold `cap` code units.
    pub fn new(cap: usize) -> (d: Self)
        ensures
            d@ == Seq::<u16>::empty(),
            d.capacity() == cap,
            d.wf(),
    {
        Utf16Destination { units: Vec::new(), cap }
    }

    /// How many code units have been written so far.
    pub fn written(&self) -> (n: usize)
        ensures
            n == self@.len(),
    {
        self.units.len()
    }

    /// The space check: whether `n` more code units fit at the cursor.
    pub fn space_for(&self, n: usize) -> (b: bool)
        requires
            self.wf(),
        ensures
            b == (self@.len() + n <= self.capacity()),
    {
        n <= self.cap - self.units.len()
    }

    /// Write one Basic Multilingual Plane code unit; the space check must
    /// have granted room for it.
    pub fn write_bmp(&mut self, u: u16)
        requires
            old(self).wf(),
            old(self)@.len() + 1 <= old(self).capacity(),
        ensures
            final(self).wf(),
            final(self).capacity() == old(self).capacity(),
            final(self)@ == old(self)@.push(u),
    {
        self.units.push(u);
    }

    /// Hand the written code units to the caller.
    pub fn into_units(self) -> (v: Vec<u16>)
        ensures
            v@ == self@,
    {
        self.units
    }
}

/// A bounded UTF-8 destination: the bytes written so far, never more than its
/// fixed capacity. Writes are whole scalar values, stated against the UTF-8
/// encoding of the scalar, so a destination always holds a concatenation of
/// complete, well-formed sequences.
pub struct Utf8Destination {
    bytes: Vec<u8>,
    cap: usize,
}

impl View for Utf8Destination {
    type V = Seq<u8>;

    closed spec fn view(&self) -> Seq<u8> {
        self.bytes@
    }
}

impl Utf8Destination {
    /// The fixed number of bytes this destination can hold.
    pub closed spec fn capacity(&self) -> nat {
        self.cap as nat
    }

    /// The written prefix never exceeds the capacity.
    pub open spec fn wf(&self) -> bool {
        self@.len() <= self.capacity()
    }

    /// An empty destination that can hold `cap` bytes.
    pub fn new(cap: usize) -> (d: Self)
        ensures
            d@ == Seq::<u8>::empty(),
            d.capacity() == cap,
            d.wf(),
    {
        Utf8Destination { bytes: Vec::new(), cap }
    }

    /// How many bytes have been written so far.
    pub fn written(&self) -> (n: usize)
        ensures
            n == self@.len(),
    {
        self.bytes.len()
    }

    /// The space check: whether `n` more bytes fit at the cursor.
    pub fn space_for(&self, n: usize) -> (b: bool)
        requires
            self.wf(),
        ensures
            b == (self@.len() + n <= self.capacity()),
    {
        n <= self.cap - self.bytes.len()
    }

    /// Write one ASCII scalar value, a single byte; the space check must have
    /// granted room for it.
    pub fn write_ascii(&mut self, b: u8)
        requires
            old(self).wf(),
            b < 0x80,
            old(self)@.len() + 1 <= old(self).capacity(),
        ensures
            final(self).wf(),
            final(self).capacity() == old(self).capacity(),
            final(self)@ == old(self)@ + encode_scalar(b as u32),
    {
        proof {
            assert(has_width_1_encoding(b as u32));
            assert(leading_byte_width_1(b as u32) == b) by (bit_vector)
                requires
                    b < 0x80,
            ;
            assert(encode_scalar(b as u32) =~= seq![b]);
        }
        self.bytes.push(b);
    }

    /// Write one scalar value from the upper Basic Multilingual Plane, three
    /// bytes of UTF-8; the space check must have granted room for all three.
    pub fn write_upper_bmp(&mut self, u: u16)
        requires
            old(self).wf(),
            0x800 <= u,
            !(0xD800 <= u <= 0xDFFF),
            old(self)@.len() + 3 <= old(self).capacity(),
        ensures
            final(self).wf(),
            final(self).capacity() == old(self).capacity(),
            final(self)@ == old(self)@ + encode_scalar(u as u32),
    {
        let b1: u8 = 0xE0 | (u >> 12) as u8;
        let b2: u8 = 0x80 | ((u >> 6) as u8 & 0x3F);
        let b3: u8 = 0x80 | (u as u8 & 0x3F);
        proof {
            assert(has_width_3_encoding(u as u32));
            assert(b1 == leading_byte_width_3(u as u32) && b2 == second_last_continuation_byte(
                u as u32,
            ) && b3 == last_continuation_byte(u as u32)) by (bit_vector)
                requires
                    b1 == 0xE0 | (u >> 12) as u8,
                    b2 == 0x80 | ((u >> 6) as u8 & 0x3F),
                    b3 == 0x80 | (u as u8 & 0x3F),
            ;
            assert(encode_scalar(u as u32) =~= seq![b1, b2, b3]);
        }
        self.bytes.push(b1);
        self.bytes.push(b2);
        self.bytes.push(b3);
        proof {
            assert(self@ =~= old(self)@ + encode_scalar(u as u32));
        }
    }

    /// Hand the written bytes to the caller.
    pub fn into_bytes(self) -> (v: Vec<u8>)
        ensures
            v@ == self@,
    {
        self.bytes
    }
}

/// A bounded byte destination for encoded legacy output: the bytes written so
/// far, never more than its fixed capacity.
pub struct ByteDestination {
    bytes: Vec<u8>,
    cap: usize,
}

impl View for ByteDestination {
    type V = Seq<u8>;

    closed spec fn view(&self) -> Seq<u8> {
        self.bytes@
    }
}

impl ByteDestination {
    /// The fixed number of bytes this destination can hold.
    pub closed spec fn capacity(&self) -> nat {
        self.cap as nat
    }

    /// The written prefix never exceeds the capacity.
    pub open spec fn wf(&self) -> bool {
        self@.len() <= self.capacity()
    }

    /// An empty destination that can hold `cap` bytes.
    pub fn new(cap: usize) -> (d: Self)
        ensures
            d@ == Seq::<u8>::empty(),
            d.capacity() == cap,
            d.wf(),
    {
        ByteDestination { bytes: Vec::new(), cap }
    }

    /// How many bytes have been written so far.
    pub fn written(&self) -> (n: usize)
        ensures
            n == self@.len(),
    {
        self.bytes.len()
    }

    /// The space check: whether `n` more bytes fit at the cursor.
    pub fn space_for(&self, n: usize) -> (b: bool)
        requires
            self.wf(),
        ensures
            b == (self@.len() + n <= self.capacity()),
    {
        n <= self.cap - self.bytes.len()
    }

    /// Write one byte; the space check must have granted room for it.
    pub fn write_one(&mut self, b: u8)
        requires
            old(self).wf(),
            old(self)@.len() + 1 <= old(self).capacity(),
        ensures
            final(self).wf(),
            final(self).capacity() == old(self).capacity(),
            final(self)@ == old(self)@.push(b),
    {
        self.bytes.push(b);
    }

    /// Hand the written bytes to the caller.
    pub fn into_bytes(self) -> (v: Vec<u8>)
        ensures
            v@ == self@,
    {
        self.bytes
    }
}

} // verus!
