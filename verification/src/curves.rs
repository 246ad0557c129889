//! Curves that turn a signal strength into a share of a decision weight.

use vstd::prelude::*;
use crate::amount::{along, lemma_truncated_quotient_monotone, saturated};

verus! {

/// A point of the plane, in fixed-point amounts.
#[derive(Clone, Copy, Debug, PartialEq, Eq, Structural)]
pub struct Point {
    pub x: i64,
    pub y: i64,
}

/// A curve that never falls: a larger input has no smaller output.
///
/// This is the one thing a transducer asks of its curve, so the law is part
/// of the trait: whoever writes a curve proves it.
pub trait Mapping {
    /// The curve's parameters are sound.
    spec fn wf(&self) -> bool;

    /// The output of the curve at `x`.
    spec fn map_spec(&self, x: i64) -> i64;

    /// The curve never falls.
    proof fn lemma_monotone(&self, a: i64, b: i64)
        requires
            self.wf(),
            a <= b,
        ensures
            self.map_spec(a) <= self.map_spec(b),
    ;

    /// The output of the curve at `x`.
    fn map(&self, x: i64) -> (y: i64)
        requires
            self.wf(),
        ensures
            y == self.map_spec(x),
    ;
}

/// A rising line that is cut off at the bottom: to the left of its first
/// point it stays at the height of that point, and from there on it runs
/// through both points, as far up as amounts reach.
pub struct BottomClampedLine {
    p0: Point,
    p1: Point,
}

impl BottomClampedLine {
    /// The point at which the line leaves the bottom.
    pub closed spec fn p0(&self) -> Point {
        self.p0
    }

    /// A second point of the line, to the right of the first and not below it.
    pub closed spec fn p1(&self) -> Point {
        self.p1
    }

    /// The two points describe a line that rises from left to right.
    pub open spec fn rises(p0: Point, p1: Point) -> bool {
        p0.x < p1.x && p0.y <= p1.y
    }

    /// The height of the line over `x`, before it is brought into range.
    pub open spec fn height(&self, x: i64) -> int {
        along(
            self.p0().x as int,
            self.p0().y as int,
            self.p1().y - self.p0().y,
            self.p1().x - self.p0().x,
            x as int,
        )
    }

    /// The line through `p0` and `p1`, cut off below `p0`. The two points
    /// must describe a rising line.
    pub fn new_from_points(p0: Point, p1: Point) -> (line: BottomClampedLine)
        requires
            BottomClampedLine::rises(p0, p1),
        ensures
            line.wf(),
            line.p0() == p0,
            line.p1() == p1,
    {
        BottomClampedLine { p0, p1 }
    }
}

impl Mapping for BottomClampedLine {
    open spec fn wf(&self) -> bool {
        BottomClampedLine::rises(self.p0(), self.p1())
    }

    open spec fn map_spec(&self, x: i64) -> i64 {
        if x <= self.p0().x {
            self.p0().y
        } else {
            saturated(self.height(x)) as i64
        }
    }

    proof fn lemma_monotone(&self, a: i64, b: i64) {
        let rise = self.p1().y - self.p0().y;
        let run = self.p1().x - self.p0().x;
        let x0 = self.p0().x as int;
        if b > self.p0().x {
            assert(0 <= (b - x0) * rise) by (nonlinear_arith)
                requires
                    b - x0 > 0,
                    rise >= 0,
            ;
            if a > self.p0().x {
                assert((a - x0) * rise <= (b - x0) * rise) by (nonlinear_arith)
                    requires
                        a - x0 <= b - x0,
                        rise >= 0,
                ;
                lemma_truncated_quotient_monotone((a - x0) * rise, (b - x0) * rise, run);
            } else {
                lemma_truncated_quotient_monotone(0, (b - x0) * rise, run);
                assert(0int / run == 0) by (nonlinear_arith)
                    requires
                        run > 0,
                ;
            }
        }
    }

    fn map(&self, x: i64) -> (y: i64) {
        if x <= self.p0.x {
            self.p0.y
        } else {
            let ahead: u128 = (x as i128 - self.p0.x as i128) as u128;
            let rise: u128 = (self.p1.y as i128 - self.p0.y as i128) as u128;
            let run: u128 = (self.p1.x as i128 - self.p0.x as i128) as u128;
            assert(0 <= ahead * rise <= 0xffff_ffff_ffff_ffff * 0xffff_ffff_ffff_ffff)
                by (nonlinear_arith)
                requires
                    0 <= ahead <= 0xffff_ffff_ffff_ffff,
                    0 <= rise <= 0xffff_ffff_ffff_ffff,
            ;
            let climbed: u128 = ahead * rise / run;
            let room: u128 = (i64::MAX as i128 - self.p0.y as i128) as u128;
            assert(0 <= (ahead * rise) / (run as int)) by (nonlinear_arith)
                requires
                    0 <= ahead * rise,
                    run > 0,
            ;
            if climbed > room {
                i64::MAX
            } else {
                (self.p0.y as i128 + climbed as i128) as i64
            }
        }
    }
}

} // verus!
