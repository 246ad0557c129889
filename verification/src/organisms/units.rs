//! Units: organisms that move freely and decide by what they sense.

use vstd::prelude::*;
use crate::amount::{net, saturated, UNIT};
use crate::curves::{BottomClampedLine, Mapping, Point};

verus! {

/// Turns the pheromone signals that a unit senses into a weight for its
/// decisions, by way of a curve.
pub struct PheromoneTransducer<C: Mapping> {
    curve: C,
}

impl<C: Mapping> PheromoneTransducer<C> {
    /// The curve of the transducer.
    pub closed spec fn curve(&self) -> C {
        self.curve
    }

    /// The curve is sound.
    pub open spec fn wf(&self) -> bool {
        self.curve().wf()
    }

    /// The weight for the given strengths of attraction and repulsion: 1,
    /// the neutral weight, plus what the curve makes of the attraction, less
    /// what it makes of the repulsion.
    pub open spec fn weight(&self, attraction: i64, repulsion: i64) -> i64 {
        saturated(UNIT + self.curve().map_spec(attraction) - self.curve().map_spec(repulsion)) as i64
    }

    /// A transducer that uses `curve`.
    pub fn with_curve(curve: C) -> (transducer: PheromoneTransducer<C>)
        ensures
            transducer.curve() == curve,
    {
        PheromoneTransducer { curve }
    }

    /// Transduces a signal into a weight used for decision making.
    pub fn signal_to_weight(&self, attraction: i64, repulsion: i64) -> (weight: i64)
        requires
            self.wf(),
        ensures
            weight == self.weight(attraction, repulsion),
    {
        net(UNIT, self.curve.map(attraction), self.curve.map(repulsion))
    }

    /// With the repulsion fixed, more attraction never gives less weight.
    pub proof fn lemma_weight_rises_with_attraction(&self, lower: i64, higher: i64, repulsion: i64)
        requires
            self.wf(),
            lower <= higher,
        ensures
            self.weight(lower, repulsion) <= self.weight(higher, repulsion),
    {
        self.curve().lemma_monotone(lower, higher);
    }

    /// With the attraction fixed, more repulsion never gives more weight.
    pub proof fn lemma_weight_falls_with_repulsion(&self, attraction: i64, lower: i64, higher: i64)
        requires
            self.wf(),
            lower <= higher,
        ensures
            self.weight(attraction, higher) <= self.weight(attraction, lower),
    {
        self.curve().lemma_monotone(lower, higher);
    }

    /// Attraction and repulsion of the same strength cancel: the weight is
    /// the neutral weight 1. So it is where there is neither.
    pub proof fn lemma_balanced_is_neutral(&self, strength: i64)
        ensures
            self.weight(strength, strength) == UNIT,
    {
    }
}

impl PheromoneTransducer<BottomClampedLine> {
    /// A transducer whose curve is the rising line through `p0` and `p1`,
    /// cut off below `p0`.
    pub fn new(p0: Point, p1: Point) -> (transducer: PheromoneTransducer<BottomClampedLine>)
        requires
            BottomClampedLine::rises(p0, p1),
        ensures
            transducer.wf(),
            transducer.curve().p0() == p0,
            transducer.curve().p1() == p1,
    {
        PheromoneTransducer { curve: BottomClampedLine::new_from_points(p0, p1) }
    }
}

impl Default for PheromoneTransducer<BottomClampedLine> {
    /// The transducer whose line rises from 0 at strength 0 to 1 at
    /// strength 0.01.
    fn default() -> (transducer: PheromoneTransducer<BottomClampedLine>)
        ensures
            transducer.wf(),
            transducer.curve().p0() == (Point { x: 0, y: 0 }),
            transducer.curve().p1() == (Point { x: 10_000, y: 1_000_000 }),
    {
        PheromoneTransducer::<BottomClampedLine>::new(
            Point { x: 0, y: 0 },
            Point { x: 10_000, y: 1_000_000 },
        )
    }
}

} // verus!
