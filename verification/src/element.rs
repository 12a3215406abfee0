//! Token elements.

use vstd::prelude::*;

verus! {

/// One element of a token block.
///
/// Storage is generic over the element, so the wire, the cache and the model
/// can share one width with no conversion. [`F32Bits`] and [`F64Bits`] are
/// provided; implement it for another width to keep frames in that width.
pub trait TokenElement: Copy {
    /// The element is neither an infinity nor a NaN.
    spec fn finite(self) -> bool;

    /// The element that unused storage is filled with.
    spec fn zero() -> Self;

    /// Whether the element is neither an infinity nor a NaN.
    fn is_finite(self) -> (result: bool)
        ensures
            result == self.finite(),
    ;

    /// The element that unused storage is filled with.
    fn default_element() -> (element: Self)
        ensures
            element == Self::zero(),
    ;
}

/// A single-precision float, held as its IEEE 754 binary32 bit pattern.
#[derive(Clone, Copy, Debug, PartialEq, Eq, Structural)]
pub struct F32Bits {
    pub bits: u32,
}

/// The exponent field of a binary32 number: the eight bits above the lowest
/// twenty-three.
pub open spec fn f32_exponent(bits: u32) -> u32 {
    (bits / 0x80_0000u32) % 0x100u32
}

impl F32Bits {
    /// The float whose bit pattern is `bits`.
    pub fn from_bits(bits: u32) -> (element: Self)
        ensures
            element.bits == bits,
    {
        F32Bits { bits }
    }
}

impl TokenElement for F32Bits {
    /// A binary32 number is infinite or a NaN exactly when every bit of its
    /// exponent field is set.
    open spec fn finite(self) -> bool {
        f32_exponent(self.bits) != 0xff
    }

    /// Positive zero.
    open spec fn zero() -> Self {
        F32Bits { bits: 0 }
    }

    fn is_finite(self) -> (result: bool)
        ensures
            result <==> self.bits % 0x8000_0000 < 0x7f80_0000,
    {
        let bits: u32 = self.bits;
        assert((bits >> 23u32) & 0xffu32 == (bits / 0x80_0000u32) % 0x100u32) by (bit_vector);
        assert((bits >> 23u32) & 0xffu32 != 0xff <==> bits % 0x8000_0000u32 < 0x7f80_0000u32)
            by (bit_vector);
        (bits >> 23u32) & 0xffu32 != 0xff
    }

    fn default_element() -> (element: Self) {
        F32Bits { bits: 0 }
    }
}

/// A double-precision float, held as its IEEE 754 binary64 bit pattern.
#[derive(Clone, Copy, Debug, PartialEq, Eq, Structural)]
pub struct F64Bits {
    pub bits: u64,
}

/// The exponent field of a binary64 number: the eleven bits above the lowest
/// fifty-two.
pub open spec fn f64_exponent(bits: u64) -> u64 {
    (bits / 0x10_0000_0000_0000u64) % 0x800u64
}

impl F64Bits {
    /// The float whose bit pattern is `bits`.
    pub fn from_bits(bits: u64) -> (element: Self)
        ensures
            element.bits == bits,
    {
        F64Bits { bits }
    }
}

impl TokenElement for F64Bits {
    /// A binary64 number is infinite or a NaN exactly when every bit of its
    /// exponent field is set.
    open spec fn finite(self) -> bool {
        f64_exponent(self.bits) != 0x7ff
    }

    /// Positive zero.
    open spec fn zero() -> Self {
        F64Bits { bits: 0 }
    }

    fn is_finite(self) -> (result: bool)
        ensures
            result <==> self.bits % 0x8000_0000_0000_0000 < 0x7ff0_0000_0000_0000,
    {
        let bits: u64 = self.bits;
        assert((bits >> 52u64) & 0x7ffu64 == (bits / 0x10_0000_0000_0000u64) % 0x800u64)
            by (bit_vector);
        assert((bits >> 52u64) & 0x7ffu64 != 0x7ff <==> bits % 0x8000_0000_0000_0000u64
            < 0x7ff0_0000_0000_0000u64) by (bit_vector);
        (bits >> 52u64) & 0x7ffu64 != 0x7ff
    }

    fn default_element() -> (element: Self) {
        F64Bits { bits: 0 }
    }
}

/// A block of zeroes.
pub open spec fn blank_block<T: TokenElement>(len: nat) -> Seq<T> {
    Seq::new(len, |i: int| T::zero())
}

/// A buffer of `len` zeroes.
pub(crate) fn blank_buffer<T: TokenElement>(len: usize) -> (buffer: Vec<T>)
    ensures
        buffer@ == blank_block::<T>(len as nat),
{
    let mut buffer: Vec<T> = Vec::with_capacity(len);
    while buffer.len() < len
        invariant
            buffer@.len() <= len,
            forall|j: int| 0 <= j < buffer@.len() ==> buffer@[j] == T::zero(),
        decreases len - buffer@.len(),
    {
        buffer.push(T::default_element());
    }
    assert(buffer@ =~= blank_block::<T>(len as nat));
    buffer
}

} // verus!
