//! Sizes, sizing hints and padding: the values that layout passes around.
use vstd::prelude::*;

verus! {

/// Clamps a mathematical integer into the range of `u32`.
pub open spec fn clamp(v: int) -> u32 {
    if v < 0 {
        0
    } else if v > u32::MAX {
        u32::MAX
    } else {
        v as u32
    }
}

/// How a view should interpret the space it is offered.
#[derive(Clone, Copy, Debug, PartialEq, Eq, Structural)]
pub enum SizingHint {
    /// Size to exactly what the content needs.
    Optimal,
    /// Claim up to the whole suggestion, if flexible.
    InfiniteSpace,
    /// Collapse to the smallest size possible.
    ZeroSpace,
}

/// A width and a height in pixels, together with a sizing hint.
///
/// Two bounds compare equal when their dimensions agree; the hint is ignored.
#[derive(Clone, Copy, Debug)]
pub struct Bounds {
    pub width: u32,
    pub height: u32,
    pub hint: SizingHint,
}

impl Bounds {
    /// Component-wise saturating difference; keeps the hint of `self`.
    pub open spec fn minus(self, other: Bounds) -> Bounds {
        Bounds {
            width: clamp(self.width - other.width),
            height: clamp(self.height - other.height),
            hint: self.hint,
        }
    }

    /// Component-wise saturating sum; keeps the hint of `self`.
    pub open spec fn plus(self, other: Bounds) -> Bounds {
        Bounds {
            width: clamp(self.width + other.width),
            height: clamp(self.height + other.height),
            hint: self.hint,
        }
    }

    /// New bounds with the given dimensions and the optimal hint.
    pub fn new(width: u32, height: u32) -> (r: Self)
        ensures
            r == (Bounds { width, height, hint: SizingHint::Optimal }),
    {
        Bounds { width, height, hint: SizingHint::Optimal }
    }

    /// A copy with another width.
    pub fn width_adjusted(&self, width: u32) -> (r: Self)
        ensures
            r == (Bounds { width, ..*self }),
    {
        Bounds { width, height: self.height, hint: self.hint }
    }

    /// A copy with another height.
    pub fn height_adjusted(&self, height: u32) -> (r: Self)
        ensures
            r == (Bounds { height, ..*self }),
    {
        Bounds { width: self.width, height, hint: self.hint }
    }

    /// A copy with the zero-space hint.
    pub fn zero_hinted(&self) -> (r: Self)
        ensures
            r == (Bounds { hint: SizingHint::ZeroSpace, ..*self }),
    {
        Bounds { width: self.width, height: self.height, hint: SizingHint::ZeroSpace }
    }

    /// A copy with the optimal hint.
    pub fn optimally_hinted(&self) -> (r: Self)
        ensures
            r == (Bounds { hint: SizingHint::Optimal, ..*self }),
    {
        Bounds { width: self.width, height: self.height, hint: SizingHint::Optimal }
    }

    /// A copy with the infinite-space hint.
    pub fn infinitely_hinted(&self) -> (r: Self)
        ensures
            r == (Bounds { hint: SizingHint::InfiniteSpace, ..*self }),
    {
        Bounds { width: self.width, height: self.height, hint: SizingHint::InfiniteSpace }
    }

    /// New dimensions under the hint of `self`.
    pub fn copy_hint(&self, width: u32, height: u32) -> (r: Self)
        ensures
            r == (Bounds { width, height, hint: self.hint }),
    {
        Bounds { width, height, hint: self.hint }
    }

    /// Saturating difference, as `-` computes it.
    pub fn saturating_minus(&self, other: &Bounds) -> (r: Self)
        ensures
            r == self.minus(*other),
    {
        Bounds {
            width: self.width.saturating_sub(other.width),
            height: self.height.saturating_sub(other.height),
            hint: self.hint,
        }
    }

    /// Saturating sum, as `+` computes it.
    pub fn saturating_plus(&self, other: &Bounds) -> (r: Self)
        ensures
            r == self.plus(*other),
    {
        Bounds {
            width: self.width.saturating_add(other.width),
            height: self.height.saturating_add(other.height),
            hint: self.hint,
        }
    }
}

impl core::ops::Sub for Bounds {
    type Output = Bounds;

    fn sub(self, other: Bounds) -> (r: Bounds) {
        self.saturating_minus(&other)
    }
}

impl vstd::std_specs::ops::SubSpecImpl for Bounds {
    open spec fn obeys_sub_spec() -> bool {
        true
    }

    open spec fn sub_req(self, other: Bounds) -> bool {
        true
    }

    open spec fn sub_spec(self, other: Bounds) -> Bounds {
        self.minus(other)
    }
}

impl core::ops::Add for Bounds {
    type Output = Bounds;

    fn add(self, other: Bounds) -> (r: Bounds) {
        self.saturating_plus(&other)
    }
}

impl vstd::std_specs::ops::AddSpecImpl for Bounds {
    open spec fn obeys_add_spec() -> bool {
        true
    }

    open spec fn add_req(self, other: Bounds) -> bool {
        true
    }

    open spec fn add_spec(self, other: Bounds) -> Bounds {
        self.plus(other)
    }
}

impl PartialEq for Bounds {
    fn eq(&self, other: &Bounds) -> (r: bool) {
        self.width == other.width && self.height == other.height
    }
}

impl vstd::std_specs::cmp::PartialEqSpecImpl for Bounds {
    open spec fn obeys_eq_spec() -> bool {
        true
    }

    open spec fn eq_spec(&self, other: &Bounds) -> bool {
        self.width == other.width && self.height == other.height
    }
}

/// Bounds are ordered by area; equal dimensions compare equal, and of two
/// different bounds the one with the larger area is greater.
pub open spec fn area_order(a: Bounds, b: Bounds) -> core::cmp::Ordering {
    if a.width == b.width && a.height == b.height {
        core::cmp::Ordering::Equal
    } else if a.width * a.height > b.width * b.height {
        core::cmp::Ordering::Greater
    } else {
        core::cmp::Ordering::Less
    }
}

impl PartialOrd for Bounds {
    fn partial_cmp(&self, other: &Bounds) -> (r: Option<core::cmp::Ordering>) {
        if self.height == other.height && self.width == other.width {
            Some(core::cmp::Ordering::Equal)
        } else {
            let (h1, w1, h2, w2) = (self.height as u64, self.width as u64, other.height as u64, other.width as u64);
            assert(h1 * w1 <= 0xffff_fffe_0000_0001u64 && h2 * w2 <= 0xffff_fffe_0000_0001u64) by (nonlinear_arith)
                requires
                    h1 <= 0xffff_ffffu64,
                    w1 <= 0xffff_ffffu64,
                    h2 <= 0xffff_ffffu64,
                    w2 <= 0xffff_ffffu64,
            ;
            let area_self: u64 = h1 * w1;
            let area_other: u64 = h2 * w2;
            assert(area_self == self.width * self.height) by (nonlinear_arith)
                requires
                    area_self == self.height * self.width,
            ;
            assert(area_other == other.width * other.height) by (nonlinear_arith)
                requires
                    area_other == other.height * other.width,
            ;
            if area_self > area_other {
                Some(core::cmp::Ordering::Greater)
            } else {
                Some(core::cmp::Ordering::Less)
            }
        }
    }
}

impl vstd::std_specs::cmp::PartialOrdSpecImpl for Bounds {
    open spec fn obeys_partial_cmp_spec() -> bool {
        true
    }

    open spec fn partial_cmp_spec(&self, other: &Bounds) -> Option<core::cmp::Ordering> {
        Some(area_order(*self, *other))
    }
}

/// The saturating subtraction law: each dimension of `a - b` is
/// `max(0, a - b)` taken on that dimension alone.
pub proof fn lemma_minus_saturates(a: Bounds, b: Bounds)
    ensures
        a.minus(b).width == (if a.width >= b.width { a.width - b.width } else { 0 }),
        a.minus(b).height == (if a.height >= b.height { a.height - b.height } else { 0 }),
        a.minus(b).hint == a.hint,
{
}

/// The inner margin of a view, one value per edge.
#[derive(Clone, Copy, Debug, PartialEq, Eq, Structural)]
pub struct Padding {
    pub left: u32,
    pub right: u32,
    pub top: u32,
    pub bottom: u32,
}

/// One edge of a view.
#[derive(Clone, Copy, Debug, PartialEq, Eq, Structural)]
pub enum Edge {
    Left,
    Right,
    Top,
    Bottom,
}

impl Padding {
    /// The padding as bounds: horizontal and vertical totals, saturating.
    pub open spec fn total(self) -> Bounds {
        Bounds {
            width: clamp(self.left + self.right),
            height: clamp(self.top + self.bottom),
            hint: SizingHint::Optimal,
        }
    }

    /// This padding with one edge replaced.
    pub open spec fn with_edge(self, edge: Edge, size: u32) -> Padding {
        match edge {
            Edge::Left => Padding { left: size, ..self },
            Edge::Right => Padding { right: size, ..self },
            Edge::Top => Padding { top: size, ..self },
            Edge::Bottom => Padding { bottom: size, ..self },
        }
    }

    pub open spec fn zero_spec() -> Padding {
        Padding { left: 0, right: 0, top: 0, bottom: 0 }
    }

    /// Padding of zero on every edge.
    pub fn zero() -> (r: Padding)
        ensures
            r == Padding::zero_spec(),
    {
        Padding { left: 0, right: 0, top: 0, bottom: 0 }
    }

    /// Bounds whose width is left plus right and whose height is top plus
    /// bottom.
    pub fn bounds(&self) -> (r: Bounds)
        ensures
            r == self.total(),
    {
        Bounds::new(self.left.saturating_add(self.right), self.top.saturating_add(self.bottom))
    }

    /// A copy with one edge replaced.
    pub fn set_edge(&self, edge: Edge, size: u32) -> (r: Padding)
        ensures
            r == self.with_edge(edge, size),
    {
        let mut p = *self;
        match edge {
            Edge::Left => p.left = size,
            Edge::Right => p.right = size,
            Edge::Top => p.top = size,
            Edge::Bottom => p.bottom = size,
        }
        p
    }
}

impl Default for Padding {
    fn default() -> (r: Padding)
        ensures
            r == (Padding { left: 0, right: 0, top: 0, bottom: 0 }),
    {
        Padding::zero()
    }
}

} // verus!
