use vstd::prelude::*;

verus! {

/// The nine canonical anchor points of a window: each names a fraction of
/// the window extent, in halves, so that every canonical anchor position is
/// computed exactly in integers.
#[derive(Debug, Clone, Copy, PartialEq, Eq, Structural)]
pub enum AnchorPosition {
    TopLeft,
    Top,
    TopRight,
    Left,
    Center,
    Right,
    BottomLeft,
    Bottom,
    BottomRight,
}

impl AnchorPosition {
    /// The anchor's fraction of the window extent, as halves: 0, 1 or 2
    /// halves of the width, and of the height.
    pub open spec fn halves_spec(self) -> (u8, u8) {
        match self {
            AnchorPosition::TopLeft => (0u8, 0u8),
            AnchorPosition::Top => (1u8, 0u8),
            AnchorPosition::TopRight => (2u8, 0u8),
            AnchorPosition::Left => (0u8, 1u8),
            AnchorPosition::Center => (1u8, 1u8),
            AnchorPosition::Right => (2u8, 1u8),
            AnchorPosition::BottomLeft => (0u8, 2u8),
            AnchorPosition::Bottom => (1u8, 2u8),
            AnchorPosition::BottomRight => (2u8, 2u8),
        }
    }

    /// The anchor's fraction of the window extent, as halves.
    pub fn halves(&self) -> (r: (u8, u8))
        ensures
            r == self.halves_spec(),
    {
        match self {
            AnchorPosition::TopLeft => (0u8, 0u8),
            AnchorPosition::Top => (1u8, 0u8),
            AnchorPosition::TopRight => (2u8, 0u8),
            AnchorPosition::Left => (0u8, 1u8),
            AnchorPosition::Center => (1u8, 1u8),
            AnchorPosition::Right => (2u8, 1u8),
            AnchorPosition::BottomLeft => (0u8, 2u8),
            AnchorPosition::Bottom => (1u8, 2u8),
            AnchorPosition::BottomRight => (2u8, 2u8),
        }
    }

    /// The pixel position of this anchor in a window of the given size: the
    /// window extent scaled by the anchor's fraction, rounded down.
    pub fn position(&self, width: u32, height: u32) -> (r: (u32, u32))
        ensures
            r.0 == width * self.halves_spec().0 / 2,
            r.1 == height * self.halves_spec().1 / 2,
    {
        let (xh, yh) = self.halves();
        proof {
            assert(xh <= 2 && yh <= 2);
            assert(width as u64 * xh as u64 <= width as u64 * 2) by (nonlinear_arith)
                requires xh <= 2;
            assert(height as u64 * yh as u64 <= height as u64 * 2) by (nonlinear_arith)
                requires yh <= 2;
        }
        let x = (width as u64 * xh as u64 / 2) as u32;
        let y = (height as u64 * yh as u64 / 2) as u32;
        (x, y)
    }
}

} // verus!
