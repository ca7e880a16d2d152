use vstd::prelude::*;

verus! {

/// Clockwise rotation of an output, in quarter turns.
#[derive(Debug, Clone, Copy, PartialEq, Eq, Structural)]
pub enum Rotation {
    Deg0,
    Deg90,
    Deg180,
    Deg270,
}

/// An angle brought into `[0, 360)`.
pub open spec fn normalized_angle(degrees: int) -> int {
    degrees % 360
}

/// The supported rotation nearest to an angle; an angle halfway between two
/// of them goes to the larger one.
pub open spec fn nearest_rotation(degrees: int) -> Rotation {
    let q = ((normalized_angle(degrees) + 45) / 90) % 4;
    if q == 0 {
        Rotation::Deg0
    } else if q == 1 {
        Rotation::Deg90
    } else if q == 2 {
        Rotation::Deg180
    } else {
        Rotation::Deg270
    }
}

impl Rotation {
    pub open spec fn spec_degrees(self) -> nat {
        match self {
            Rotation::Deg0 => 0,
            Rotation::Deg90 => 90,
            Rotation::Deg180 => 180,
            Rotation::Deg270 => 270,
        }
    }

    /// Whether the output's raw framebuffer is turned a quarter turn, so that
    /// its width and height are swapped against the upright picture.
    pub open spec fn spec_is_quarter_turn(self) -> bool {
        self == Rotation::Deg90 || self == Rotation::Deg270
    }

    /// Rounds an angle reported by the platform to the nearest supported
    /// rotation; no angle is refused.
    pub fn from_degrees(degrees: i32) -> (r: Rotation)
        ensures
            r == nearest_rotation(degrees as int),
    {
        let a: i64 = degrees as i64;
        let m: i64 = if a >= 0 {
            a % 360
        } else {
            let t: i64 = (-a) % 360;
            if t == 0 {
                0
            } else {
                360 - t
            }
        };
        assert(m == normalized_angle(degrees as int)) by {
            if a < 0 {
                let t = (-a) % 360;
                assert((-a) == ((-a) / 360) * 360 + t);
                assert(a == (-((-a) / 360) - 1) * 360 + (360 - t)) by (nonlinear_arith)
                    requires
                        (-a) == ((-a) / 360) * 360 + t,
                ;
                if t == 0 {
                    assert(a == (-((-a) / 360)) * 360) by (nonlinear_arith)
                        requires
                            (-a) == ((-a) / 360) * 360 + t,
                            t == 0,
                    ;
                }
            }
        }
        let q: i64 = ((m + 45) / 90) % 4;
        if q == 0 {
            Rotation::Deg0
        } else if q == 1 {
            Rotation::Deg90
        } else if q == 2 {
            Rotation::Deg180
        } else {
            Rotation::Deg270
        }
    }

    /// The rotation in clockwise degrees: 0, 90, 180 or 270.
    pub fn degrees(&self) -> (r: u32)
        ensures
            r == self.spec_degrees(),
    {
        match self {
            Rotation::Deg0 => 0,
            Rotation::Deg90 => 90,
            Rotation::Deg180 => 180,
            Rotation::Deg270 => 270,
        }
    }
}

/// An axis-aligned rectangle of pixels, relative to an image's top-left corner.
#[derive(Debug, Clone, Copy, PartialEq, Eq, Structural)]
pub struct Rect {
    pub x: u32,
    pub y: u32,
    pub width: u32,
    pub height: u32,
}

/// Whether `[x, x + width) × [y, y + height)` holds the point `(px, py)`.
pub open spec fn rect_contains(x: int, y: int, width: int, height: int, px: int, py: int) -> bool {
    x <= px < x + width && y <= py < y + height
}

} // verus!
