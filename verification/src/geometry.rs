//! Integer geometry of the layer tree: points, sizes, rectangles, and the
//! translation that places one coordinate space inside another.

use vstd::prelude::*;

verus! {

/// A position, in whole units of some coordinate space.
#[derive(Clone, Copy, Debug, PartialEq, Eq)]
pub struct Point {
    pub x: i32,
    pub y: i32,
}

impl Point {
    pub fn new(x: i32, y: i32) -> (p: Point)
        ensures
            p == (Point { x, y }),
    {
        Point { x, y }
    }

    /// The point `(0, 0)`.
    pub fn origin() -> (p: Point)
        ensures
            p == (Point { x: 0, y: 0 }),
    {
        Point { x: 0, y: 0 }
    }
}

/// An extent, in whole units.
#[derive(Clone, Copy, Debug, PartialEq, Eq)]
pub struct Size {
    pub width: i32,
    pub height: i32,
}

impl Size {
    pub fn new(width: i32, height: i32) -> (s: Size)
        ensures
            s == (Size { width, height }),
    {
        Size { width, height }
    }
}

/// An axis-aligned rectangle: where it starts and how far it extends.
#[derive(Clone, Copy, Debug, PartialEq, Eq)]
pub struct Rect {
    pub origin: Point,
    pub size: Size,
}

impl Rect {
    pub fn new(origin: Point, size: Size) -> (r: Rect)
        ensures
            r == (Rect { origin, size }),
    {
        Rect { origin, size }
    }

    /// The empty rectangle at the origin.
    pub open spec fn spec_zero() -> Rect {
        Rect { origin: Point { x: 0, y: 0 }, size: Size { width: 0, height: 0 } }
    }

    /// The empty rectangle at the origin.
    #[verifier::when_used_as_spec(spec_zero)]
    pub fn zero() -> (r: Rect)
        ensures
            r == Rect::spec_zero(),
    {
        Rect { origin: Point { x: 0, y: 0 }, size: Size { width: 0, height: 0 } }
    }

    /// The rectangle of the given size whose origin is `(0, 0)`: a
    /// rectangle seen from its own coordinate space.
    pub open spec fn spec_local(size: Size) -> Rect {
        Rect { origin: Point { x: 0, y: 0 }, size }
    }

    /// The rectangle of the given size whose origin is `(0, 0)`.
    #[verifier::when_used_as_spec(spec_local)]
    pub fn local(size: Size) -> (r: Rect)
        ensures
            r == Rect::spec_local(size),
    {
        Rect { origin: Point { x: 0, y: 0 }, size }
    }
}

impl Default for Rect {
    fn default() -> (r: Rect)
        ensures
            r == Rect::spec_zero(),
    {
        Rect::zero()
    }
}

/// How far one nesting level can move a coordinate: the magnitude of the
/// most negative `i32`.
pub const LEVEL_REACH: i128 = 0x8000_0000;

/// Translations of at most this magnitude on each axis can be composed
/// with the origins of any chain of nested layers without leaving `i128`.
pub const TRANSLATION_LIMIT: i128 = 0x4000_0000_0000_0000_0000_0000_0000_0000;

/// The coordinate transform that the painting walk accumulates: a
/// translation by `(dx, dy)`.
///
/// The components are wide enough to hold the sum of the origins along
/// any chain of nested containers.
#[derive(Clone, Copy, Debug, PartialEq, Eq)]
pub struct Transform {
    pub dx: i128,
    pub dy: i128,
}

impl Transform {
    pub open spec fn spec_identity() -> Transform {
        Transform { dx: 0, dy: 0 }
    }

    /// The transform that moves nothing.
    #[verifier::when_used_as_spec(spec_identity)]
    pub fn identity() -> (t: Transform)
        ensures
            t == Transform::spec_identity(),
    {
        Transform { dx: 0, dy: 0 }
    }

    /// The translation by `(x, y)`.
    pub fn create_translation(x: i32, y: i32) -> (t: Transform)
        ensures
            t.dx == x,
            t.dy == y,
    {
        Transform { dx: x as i128, dy: y as i128 }
    }

    /// Both components are within [`TRANSLATION_LIMIT`] of zero.
    pub open spec fn anchored(self) -> bool {
        &&& -TRANSLATION_LIMIT <= self.dx <= TRANSLATION_LIMIT
        &&& -TRANSLATION_LIMIT <= self.dy <= TRANSLATION_LIMIT
    }

    /// `levels` further translations by a layer origin each can be
    /// composed onto this transform without leaving `i128`.
    pub open spec fn has_room(self, levels: nat) -> bool {
        &&& levels <= usize::MAX + 1
        &&& -TRANSLATION_LIMIT - (usize::MAX + 1 - levels) * LEVEL_REACH <= self.dx
        &&& self.dx <= TRANSLATION_LIMIT + (usize::MAX + 1 - levels) * LEVEL_REACH
        &&& -TRANSLATION_LIMIT - (usize::MAX + 1 - levels) * LEVEL_REACH <= self.dy
        &&& self.dy <= TRANSLATION_LIMIT + (usize::MAX + 1 - levels) * LEVEL_REACH
    }

    /// The composition "this transform, then entering a coordinate space
    /// whose origin is `origin`": the sum of the two translations.
    pub open spec fn spec_post_translate(self, origin: Point) -> Transform {
        Transform { dx: (self.dx + origin.x) as i128, dy: (self.dy + origin.y) as i128 }
    }

    /// The composition stays inside `i128`.
    pub open spec fn can_post_translate(self, origin: Point) -> bool {
        &&& i128::MIN <= self.dx + origin.x <= i128::MAX
        &&& i128::MIN <= self.dy + origin.y <= i128::MAX
    }

    /// Composes this transform with the translation to `origin`.
    pub fn post_translate(&self, origin: Point) -> (t: Transform)
        requires
            self.can_post_translate(origin),
        ensures
            t == self.spec_post_translate(origin),
            t.dx == self.dx + origin.x,
            t.dy == self.dy + origin.y,
    {
        Transform { dx: self.dx + origin.x as i128, dy: self.dy + origin.y as i128 }
    }

    /// This transform moved by `by`: the composition in which `by` is
    /// applied last.
    pub open spec fn shifted(self, by: Transform) -> Transform {
        Transform { dx: (self.dx + by.dx) as i128, dy: (self.dy + by.dy) as i128 }
    }
}

/// A transform with room for at least one level can be composed with any
/// origin, and the result has room for the levels that are left.
pub proof fn lemma_post_translate_room(t: Transform, origin: Point, levels: nat)
    requires
        levels >= 1,
        t.has_room(levels),
    ensures
        t.can_post_translate(origin),
        t.spec_post_translate(origin).dx == t.dx + origin.x,
        t.spec_post_translate(origin).dy == t.dy + origin.y,
        t.spec_post_translate(origin).has_room((levels - 1) as nat),
{
    let k = usize::MAX + 1 - levels;
    assert(0 <= k * LEVEL_REACH <= 0x8000_0000_0000_0000_0000_0000) by (nonlinear_arith)
        requires
            0 <= k <= 0x1_0000_0000_0000_0000,
            LEVEL_REACH == 0x8000_0000,
    ;
}

/// An anchored transform has room for any number of levels that a tree of
/// layers can have.
pub proof fn lemma_anchored_has_room(t: Transform, levels: nat)
    requires
        t.anchored(),
        levels <= usize::MAX + 1,
    ensures
        t.has_room(levels),
{
    let k = usize::MAX + 1 - levels;
    assert(0 <= k * LEVEL_REACH) by (nonlinear_arith)
        requires
            0 <= k,
            LEVEL_REACH == 0x8000_0000,
    ;
}

/// A transform that has room for some levels has room for fewer.
pub proof fn lemma_room_for_fewer(transform: Transform, levels: nat, fewer: nat)
    requires
        transform.has_room(levels),
        fewer <= levels,
    ensures
        transform.has_room(fewer),
{
    let more = (usize::MAX + 1 - fewer) as int;
    let less = (usize::MAX + 1 - levels) as int;
    assert(less * LEVEL_REACH <= more * LEVEL_REACH) by (nonlinear_arith)
        requires
            less <= more,
            LEVEL_REACH == 0x8000_0000,
    ;
}

} // verus!
