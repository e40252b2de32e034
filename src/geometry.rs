//! Draw primitives in pixel space. Coordinates are exact rationals; the
//! drawing surface turns them into floating point.
use vstd::prelude::*;
use crate::candle::CandleRole;

verus! {

/// A pixel coordinate or length `num / den`.
#[derive(Clone, Copy, Debug, PartialEq, Eq, Structural)]
pub struct Px {
    pub num: i128,
    pub den: i128,
}

impl Px {
    pub open spec fn wf(self) -> bool {
        self.den > 0
    }

    /// A whole number of pixels.
    pub fn whole(v: i64) -> (r: Px)
        ensures
            r.num == v,
            r.den == 1,
    {
        Px { num: v as i128, den: 1 }
    }

    pub fn new(num: i128, den: i128) -> (r: Px)
        ensures
            r.num == num,
            r.den == den,
    {
        Px { num, den }
    }
}

#[derive(Clone, Copy, Debug, PartialEq, Eq, Structural)]
pub struct Point {
    pub x: Px,
    pub y: Px,
}

/// What a primitive stands for, so that the surface can style it.
#[derive(Clone, Copy, Debug, PartialEq, Eq, Structural)]
pub enum Role {
    AxisLine,
    GridLine,
    TickLabel,
    TimeTick,
    TimeLabel,
    CandleWick(CandleRole),
    CandleBody(CandleRole),
}

/// Where a text stands relative to its position: `Left` starts it there.
#[derive(Clone, Copy, Debug, PartialEq, Eq, Structural)]
pub enum Alignment {
    Left,
}

#[derive(Clone, Debug)]
pub enum Primitive {
    Line { from: Point, to: Point, role: Role },
    Rectangle { origin: Point, width: Px, height: Px, role: Role },
    Text { content: String, position: Point, alignment: Alignment, role: Role },
}

} // verus!
