//! Signals: what emitters leave on the tiles of the map.

pub mod configs;
pub mod emitters;
pub mod map_overlay;
pub mod tile_signals;

use vstd::prelude::*;
use crate::amount::{net, saturated};
use crate::signals::configs::ColorConfig;
use crate::signals::map_overlay::Rgba;

verus! {

/// The state of one emitter's signal at one tile.
///
/// `incoming` and `outgoing` are what diffusion has moved towards the tile
/// and away from it since the last commit. They are pending: they do not
/// count towards `current_value` until `apply_deltas` folds them in.
#[derive(Clone, Copy, Debug, PartialEq, Eq, Structural)]
pub struct Signal {
    pub current_value: i64,
    pub incoming: i64,
    pub outgoing: i64,
}

/// How opaque a signal of strength `value` is drawn: transparent up to
/// `zero`, opaque from `one`, and rising evenly in between.
pub open spec fn ramp(value: int, zero: int, one: int) -> int {
    if value <= zero {
        0
    } else if value >= one {
        255
    } else {
        (value - zero) * 255 / (one - zero)
    }
}

impl Signal {
    /// A signal of the given strength with nothing pending.
    pub open spec fn fresh(value: i64) -> Signal {
        Signal { current_value: value, incoming: 0, outgoing: 0 }
    }

    /// The signal after a commit: what came in is added, what went out is
    /// taken away, and nothing is pending.
    pub open spec fn committed(self) -> Signal {
        Signal {
            current_value: saturated(self.current_value + self.incoming - self.outgoing) as i64,
            incoming: 0,
            outgoing: 0,
        }
    }

    /// The colour in which the signal is drawn, or `None` where its emitter
    /// is not drawn at all.
    pub open spec fn color(self, config: ColorConfig) -> Option<Rgba> {
        if config.is_visible {
            Some(
                Rgba {
                    red: config.red,
                    green: config.green,
                    blue: config.blue,
                    alpha: ramp(
                        self.current_value as int,
                        config.zero_value as int,
                        config.one_value as int,
                    ) as u8,
                },
            )
        } else {
            None
        }
    }

    /// A signal of the given strength with nothing pending.
    pub fn new(value: i64) -> (signal: Signal)
        ensures
            signal == Signal::fresh(value),
    {
        Signal { current_value: value, incoming: 0, outgoing: 0 }
    }

    /// Commits the pending deltas and resets them.
    pub fn apply_deltas(&mut self)
        ensures
            *final(self) == old(self).committed(),
    {
        self.current_value = net(self.current_value, self.incoming, self.outgoing);
        self.incoming = 0;
        self.outgoing = 0;
    }

    /// The colour in which the signal is drawn.
    pub fn compute_color(&self, config: &ColorConfig) -> (color: Option<Rgba>)
        ensures
            color == self.color(*config),
    {
        if !config.is_visible {
            return None;
        }
        let alpha: u8 = if self.current_value <= config.zero_value {
            0
        } else if self.current_value >= config.one_value {
            255
        } else {
            let above: i128 = self.current_value as i128 - config.zero_value as i128;
            let span: i128 = config.one_value as i128 - config.zero_value as i128;
            assert(0 <= above * 255 < span * 255) by (nonlinear_arith)
                requires
                    0 < above < span,
            ;
            assert(0 <= (above * 255) / (span as int) < 255) by (nonlinear_arith)
                requires
                    0 <= above * 255 < span * 255,
                    span > 0,
            ;
            let level: i128 = above * 255 / span;
            level as u8
        };
        Some(Rgba { red: config.red, green: config.green, blue: config.blue, alpha })
    }
}

} // verus!
