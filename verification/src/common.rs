//! The values that every kind of layer is styled with.

use vstd::prelude::*;

verus! {

/// The identity of a layer within one repository.
pub type LayerId = usize;

/// What a later pass still has to redo for a layer.
#[derive(Clone, Copy, Debug, PartialEq, Eq)]
pub struct CompositingFlag {
    pub needs_paint: bool,
    pub needs_update_transform: bool,
}

impl CompositingFlag {
    /// Neither repainting nor a transform update is pending.
    pub open spec fn is_clear(self) -> bool {
        !self.needs_paint && !self.needs_update_transform
    }

    pub fn clear(&mut self)
        ensures
            final(self).is_clear(),
    {
        self.needs_paint = false;
        self.needs_update_transform = false;
    }
}

/// Why the rendering of a layer is kept between frames.
#[derive(Clone, Copy, Debug, PartialEq, Eq)]
pub enum CachingReason {
    Whatever,
}

/// On which side of the rectangle's edge a border lies.
#[derive(Clone, Copy, Debug, PartialEq, Eq)]
pub enum BorderPosition {
    Inner,
    Center,
    Outer,
}

/// What a shape is filled or stroked with.
#[derive(Clone, Copy, Debug, PartialEq, Eq)]
pub enum Fill {
    Color { r: u8, g: u8, b: u8, a: u8 },
}

/// A stroke along the edge of a layer's rectangle.
#[derive(Clone, Copy, Debug, PartialEq, Eq)]
pub struct Border {
    pub position: BorderPosition,
    pub fill: Fill,
    pub width: u32,
}

/// The bit pattern of the single-precision number one.
pub const ONE_BITS: u32 = 0x3F80_0000;

/// The bit pattern of single-precision positive infinity.
pub const INFINITY_BITS: u32 = 0x7F80_0000;

/// How much of what lies beneath a layer it hides: a single-precision
/// number, held by its IEEE 754 bit pattern.
///
/// The layer tree only ever hands an opacity on and asks whether it is at
/// least one, and that much can be read off the bits: the patterns of the
/// numbers from one to positive infinity are the integers from
/// [`ONE_BITS`] to [`INFINITY_BITS`]. Everything above is a NaN, which
/// compares as less; everything with the sign bit set is zero, negative or
/// a NaN; everything below is a number under one.
#[derive(Clone, Copy, Debug, PartialEq, Eq)]
pub struct Opacity {
    pub bits: u32,
}

impl Opacity {
    pub open spec fn spec_opaque() -> Opacity {
        Opacity { bits: ONE_BITS }
    }

    /// The opacity one.
    #[verifier::when_used_as_spec(spec_opaque)]
    pub fn opaque() -> (o: Opacity)
        ensures
            o == Opacity::spec_opaque(),
            o.is_opaque(),
    {
        Opacity { bits: ONE_BITS }
    }

    /// The opacity whose single-precision bit pattern is `bits`.
    pub fn from_bits(bits: u32) -> (o: Opacity)
        ensures
            o.bits == bits,
    {
        Opacity { bits }
    }

    pub fn to_bits(&self) -> (bits: u32)
        ensures
            bits == self.bits,
    {
        self.bits
    }

    /// The number that the bits stand for is at least one.
    pub open spec fn spec_is_opaque(&self) -> bool {
        ONE_BITS <= self.bits <= INFINITY_BITS
    }

    /// Whether this opacity is at least one.
    #[verifier::when_used_as_spec(spec_is_opaque)]
    pub fn is_opaque(&self) -> (opaque: bool)
        ensures
            opaque == self.spec_is_opaque(),
    {
        ONE_BITS <= self.bits && self.bits <= INFINITY_BITS
    }
}

} // verus!
