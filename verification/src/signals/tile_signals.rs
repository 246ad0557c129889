//! The signals of all emitters at one tile.

use vstd::prelude::*;
use crate::amount::{lemma_scaled_bounds, saturated, scale, scaled, sum, UNIT};
use crate::arena::KeyedArena;
use crate::signals::configs::{SignalConfig, SignalConfigs};
use crate::signals::emitters::Emitter;
use crate::signals::map_overlay::{composite, rgba_white, Rgba};
use crate::signals::Signal;

verus! {

/// What an immediate increment makes of the signals: `delta` is added to the
/// strength of `emitter`'s signal, and a signal of strength `delta` is made
/// where the emitter had none.
pub open spec fn with_increment(
    signals: Map<Emitter, Signal>,
    emitter: Emitter,
    delta: i64,
) -> Map<Emitter, Signal> {
    if signals.contains_key(emitter) {
        signals.insert(
            emitter,
            Signal {
                current_value: saturated(signals[emitter].current_value + delta) as i64,
                incoming: signals[emitter].incoming,
                outgoing: signals[emitter].outgoing,
            },
        )
    } else {
        signals.insert(emitter, Signal::fresh(delta))
    }
}

/// What signal entering the tile makes of the signals: `delta` is added to
/// what is pending inwards, and the strength stays as it is. An emitter that
/// had no signal gets one of strength 0.
pub open spec fn with_incoming(
    signals: Map<Emitter, Signal>,
    emitter: Emitter,
    delta: i64,
) -> Map<Emitter, Signal> {
    if signals.contains_key(emitter) {
        signals.insert(
            emitter,
            Signal {
                current_value: signals[emitter].current_value,
                incoming: saturated(signals[emitter].incoming + delta) as i64,
                outgoing: signals[emitter].outgoing,
            },
        )
    } else {
        signals.insert(emitter, Signal { current_value: 0, incoming: delta, outgoing: 0 })
    }
}

/// What signal leaving the tile makes of the signals: `delta` is added to
/// what is pending outwards, and the strength stays as it is.
pub open spec fn with_outgoing(
    signals: Map<Emitter, Signal>,
    emitter: Emitter,
    delta: i64,
) -> Map<Emitter, Signal>
    recommends
        signals.contains_key(emitter),
{
    signals.insert(
        emitter,
        Signal {
            current_value: signals[emitter].current_value,
            incoming: signals[emitter].incoming,
            outgoing: saturated(signals[emitter].outgoing + delta) as i64,
        },
    )
}

/// A signal after one step of decay with the given probability: its strength
/// times `1 - decay_probability`. Pending deltas do not decay.
pub open spec fn decayed(signal: Signal, decay_probability: i64) -> Signal {
    Signal {
        current_value: scaled(signal.current_value as int, UNIT - decay_probability) as i64,
        incoming: signal.incoming,
        outgoing: signal.outgoing,
    }
}

/// The signals after one step of decay, each by the probability of its own
/// emitter.
pub open spec fn decayed_all(
    signals: Map<Emitter, Signal>,
    configs: SignalConfigs,
) -> Map<Emitter, Signal> {
    Map::new(
        |emitter: Emitter| signals.contains_key(emitter),
        |emitter: Emitter| decayed(signals[emitter], configs.config(emitter).decay_probability),
    )
}

/// The signals after a commit of every emitter's pending deltas.
pub open spec fn committed_all(signals: Map<Emitter, Signal>) -> Map<Emitter, Signal> {
    Map::new(
        |emitter: Emitter| signals.contains_key(emitter),
        |emitter: Emitter| signals[emitter].committed(),
    )
}

/// The colours of the signals, in the order of the registry: one colour for
/// each registered emitter that has a signal here and is drawn.
pub open spec fn colors_of(
    signals: Map<Emitter, Signal>,
    registry: Seq<(Emitter, SignalConfig)>,
) -> Seq<Rgba>
    decreases registry.len(),
{
    if registry.len() == 0 {
        Seq::empty()
    } else {
        let before = colors_of(signals, registry.drop_last());
        let emitter = registry.last().0;
        let config = registry.last().1;
        if signals.contains_key(emitter) {
            match signals[emitter].color(config.color_config) {
                Some(color) => before.push(color),
                None => before,
            }
        } else {
            before
        }
    }
}

/// Keeps track of the signals that are present at a tile, one per emitter.
pub struct TileSignals {
    signals: KeyedArena<Signal>,
}

impl View for TileSignals {
    type V = Map<Emitter, Signal>;

    /// The signal of each emitter that has one.
    open spec fn view(&self) -> Map<Emitter, Signal> {
        Map::new(
            |emitter: Emitter| self.signals()@.contains_key(emitter.id),
            |emitter: Emitter| self.signals()@[emitter.id],
        )
    }
}

impl Default for TileSignals {
    /// A tile without signals.
    fn default() -> (signals: TileSignals)
        ensures
            signals.wf(),
            signals@ == Map::<Emitter, Signal>::empty(),
    {
        TileSignals::new()
    }
}

impl TileSignals {
    /// The signals, each under the number of its emitter.
    pub closed spec fn signals(&self) -> KeyedArena<Signal> {
        self.signals
    }

    /// The arena of signals is sound.
    pub open spec fn wf(&self) -> bool {
        self.signals().wf()
    }

    /// The emitters that have a signal, in the order in which they got one.
    pub open spec fn emitter_seq(&self) -> Seq<Emitter> {
        self.signals().keys().map_values(|id: u64| Emitter { id })
    }

    /// The strength of `emitter`'s signal; 0 where it has none.
    pub open spec fn strength(&self, emitter: Emitter) -> i64 {
        if self@.contains_key(emitter) {
            self@[emitter].current_value
        } else {
            0
        }
    }

    /// A tile without signals.
    pub fn new() -> (signals: TileSignals)
        ensures
            signals.wf(),
            signals@ == Map::<Emitter, Signal>::empty(),
    {
        let signals = TileSignals { signals: KeyedArena::with_capacity(0) };
        proof {
            assert(signals@ =~= Map::<Emitter, Signal>::empty());
        }
        signals
    }

    /// The emitters that have a signal at this tile.
    pub fn emitters(&self) -> (emitters: Vec<Emitter>)
        requires
            self.wf(),
        ensures
            emitters@ == self.emitter_seq(),
    {
        let n = self.signals.len();
        let mut emitters: Vec<Emitter> = Vec::with_capacity(n);
        let mut i: usize = 0;
        while i < n
            invariant
                n == self.signals().keys().len(),
                i <= n,
                emitters@ == self.emitter_seq().take(i as int),
            decreases n - i,
        {
            emitters.push(Emitter { id: self.signals.key_at(i) });
            i += 1;
            proof {
                assert(emitters@ =~= self.emitter_seq().take(i as int));
            }
        }
        proof {
            assert(self.emitter_seq().take(n as int) =~= self.emitter_seq());
        }
        emitters
    }

    /// The strength of each signal at this tile, with its emitter.
    pub fn current_values(&self) -> (values: Vec<(Emitter, i64)>)
        requires
            self.wf(),
        ensures
            values@.len() == self.emitter_seq().len(),
            forall|i: int|
                0 <= i < values@.len() ==> (#[trigger] values@[i]) == (
                    self.emitter_seq()[i],
                    self@[self.emitter_seq()[i]].current_value,
                ),
    {
        let n = self.signals.len();
        let mut values: Vec<(Emitter, i64)> = Vec::with_capacity(n);
        let mut i: usize = 0;
        proof {
            self.signals().lemma_wf();
        }
        while i < n
            invariant
                self.wf(),
                n == self.signals().keys().len(),
                n == self.signals().values().len(),
                i <= n,
                values@.len() == i,
                forall|j: int|
                    0 <= j < i ==> (#[trigger] values@[j]) == (
                        self.emitter_seq()[j],
                        self.signals().values()[j].current_value,
                    ),
            decreases n - i,
        {
            let emitter = Emitter { id: self.signals.key_at(i) };
            let strength = self.signals.value_at(i).current_value;
            values.push((emitter, strength));
            i += 1;
        }
        proof {
            self.lemma_emitters();
        }
        values
    }

    /// Puts `signal` in place as the signal of `emitter`, whether or not the
    /// emitter had one.
    pub fn insert(&mut self, emitter: Emitter, signal: Signal)
        requires
            old(self).wf(),
        ensures
            final(self).wf(),
            final(self)@ == old(self)@.insert(emitter, signal),
    {
        let _ = self.signals.insert(emitter.id, signal);
        proof {
            assert(self@ =~= old(self)@.insert(emitter, signal));
        }
    }

    /// Adds `increment` to the strength of `emitter`'s signal, at once. An
    /// emitter without a signal gets one of that strength, with nothing
    /// pending.
    pub fn increment(&mut self, emitter: &Emitter, increment: i64)
        requires
            old(self).wf(),
        ensures
            final(self).wf(),
            final(self)@ == with_increment(old(self)@, *emitter, increment),
    {
        proof {
            old(self).signals().lemma_wf();
        }
        match self.signals.slot(emitter.id) {
            Some(slot) => {
                proof {
                    assert(old(self).signals().keys()[slot as int] == emitter.id);
                }
                let signal = self.signals.value_at_mut(slot);
                signal.current_value = sum(signal.current_value, increment);
            },
            None => {
                let _ = self.signals.insert(emitter.id, Signal::new(increment));
            },
        }
        proof {
            assert(self@ =~= with_increment(old(self)@, *emitter, increment));
        }
    }

    /// Records `delta` as signal that enters this tile. It is pending until
    /// the next commit; the strength is not touched. An emitter without a
    /// signal gets one of strength 0.
    pub fn increment_incoming(&mut self, emitter: &Emitter, delta: i64)
        requires
            old(self).wf(),
        ensures
            final(self).wf(),
            final(self)@ == with_incoming(old(self)@, *emitter, delta),
    {
        proof {
            old(self).signals().lemma_wf();
        }
        match self.signals.slot(emitter.id) {
            Some(slot) => {
                proof {
                    assert(old(self).signals().keys()[slot as int] == emitter.id);
                }
                let signal = self.signals.value_at_mut(slot);
                signal.incoming = sum(signal.incoming, delta);
            },
            None => {
                let mut new_signal = Signal::new(0);
                new_signal.incoming = delta;
                let _ = self.signals.insert(emitter.id, new_signal);
            },
        }
        proof {
            assert(self@ =~= with_incoming(old(self)@, *emitter, delta));
        }
    }

    /// Records `delta` as signal that leaves this tile. It is pending until
    /// the next commit; the strength is not touched. Signal can only leave
    /// where there is some: the emitter must have a signal here.
    pub fn increment_outgoing(&mut self, emitter: &Emitter, delta: i64)
        requires
            old(self).wf(),
            old(self)@.contains_key(*emitter),
        ensures
            final(self).wf(),
            final(self)@ == with_outgoing(old(self)@, *emitter, delta),
    {
        proof {
            old(self).signals().lemma_wf();
        }
        match self.signals.slot(emitter.id) {
            Some(slot) => {
                proof {
                    assert(old(self).signals().keys()[slot as int] == emitter.id);
                }
                let signal = self.signals.value_at_mut(slot);
                signal.outgoing = sum(signal.outgoing, delta);
            },
            None => {},
        }
        proof {
            assert(self@ =~= with_outgoing(old(self)@, *emitter, delta));
        }
    }

    /// Lets every signal at the tile decay by one step: its strength is
    /// multiplied by `1 - decay_probability` of its emitter. Every emitter
    /// with a signal here must be registered.
    pub fn decay(&mut self, signal_configs: &SignalConfigs)
        requires
            old(self).wf(),
            signal_configs.wf(),
            forall|emitter: Emitter|
                old(self)@.contains_key(emitter) ==> signal_configs.contains(emitter),
        ensures
            final(self).wf(),
            final(self)@ == decayed_all(old(self)@, *signal_configs),
    {
        let n = self.signals.len();
        let mut i: usize = 0;
        proof {
            old(self).signals().lemma_wf();
        }
        while i < n
            invariant
                self.wf(),
                signal_configs.wf(),
                old(self).wf(),
                forall|emitter: Emitter|
                    old(self)@.contains_key(emitter) ==> signal_configs.contains(emitter),
                self.signals().keys() == old(self).signals().keys(),
                n == self.signals().keys().len(),
                n == self.signals().values().len(),
                n == old(self).signals().values().len(),
                i <= n,
                forall|j: int|
                    0 <= j < i ==> #[trigger] self.signals().values()[j] == decayed(
                        old(self).signals().values()[j],
                        signal_configs.config(
                            Emitter { id: self.signals().keys()[j] },
                        ).decay_probability,
                    ),
                forall|j: int|
                    i <= j < n ==> #[trigger] self.signals().values()[j] == old(
                        self,
                    ).signals().values()[j],
            decreases n - i,
        {
            let emitter = Emitter { id: self.signals.key_at(i) };
            proof {
                assert(old(self).signals().keys().contains(emitter.id));
                assert(old(self)@.contains_key(emitter));
            }
            match signal_configs.get(&emitter) {
                Some(config) => {
                    let factor: i64 = UNIT - config.decay_probability;
                    let signal = self.signals.value_at_mut(i);
                    proof {
                        lemma_scaled_bounds(signal.current_value as int, factor as int);
                    }
                    signal.current_value = scale(signal.current_value, factor);
                },
                None => {},
            }
            i += 1;
        }
        proof {
            self.signals().lemma_wf();
            assert forall|emitter: Emitter| self@.contains_key(emitter) implies self@[emitter]
                == decayed_all(old(self)@, *signal_configs)[emitter] by {
                let j = self.signals().keys().index_of(emitter.id);
                assert(self.signals().keys()[j] == emitter.id);
            }
            assert(self@ =~= decayed_all(old(self)@, *signal_configs));
        }
    }

    /// Commits what is pending: for every signal at the tile, what came in
    /// is added to its strength, what went out is taken away, and both
    /// pending deltas are reset to 0.
    pub fn apply_deltas(&mut self)
        requires
            old(self).wf(),
        ensures
            final(self).wf(),
            final(self)@ == committed_all(old(self)@),
    {
        let n = self.signals.len();
        let mut i: usize = 0;
        proof {
            old(self).signals().lemma_wf();
        }
        while i < n
            invariant
                self.wf(),
                old(self).wf(),
                self.signals().keys() == old(self).signals().keys(),
                n == self.signals().keys().len(),
                n == self.signals().values().len(),
                n == old(self).signals().values().len(),
                i <= n,
                forall|j: int|
                    0 <= j < i ==> #[trigger] self.signals().values()[j] == old(
                        self,
                    ).signals().values()[j].committed(),
                forall|j: int|
                    i <= j < n ==> #[trigger] self.signals().values()[j] == old(
                        self,
                    ).signals().values()[j],
            decreases n - i,
        {
            let signal = self.signals.value_at_mut(i);
            signal.apply_deltas();
            i += 1;
        }
        proof {
            self.signals().lemma_wf();
            assert forall|emitter: Emitter| self@.contains_key(emitter) implies self@[emitter]
                == committed_all(old(self)@)[emitter] by {
                let j = self.signals().keys().index_of(emitter.id);
                assert(self.signals().keys()[j] == emitter.id);
            }
            assert(self@ =~= committed_all(old(self)@));
        }
    }

    /// The colour of each signal at the tile, in the order of the registry.
    /// An emitter that is registered but has no signal here, or has one but
    /// is not registered or not drawn, adds no colour.
    pub fn compute_colors(&self, signal_configs: &SignalConfigs) -> (colors: Vec<Rgba>)
        requires
            self.wf(),
            signal_configs.wf(),
        ensures
            colors@ == colors_of(self@, signal_configs.entries()),
    {
        let n = signal_configs.len();
        let mut colors: Vec<Rgba> = Vec::new();
        let mut i: usize = 0;
        let ghost registry = signal_configs.entries();
        proof {
            assert(registry.take(0) =~= Seq::<(Emitter, SignalConfig)>::empty());
        }
        while i < n
            invariant
                self.wf(),
                signal_configs.wf(),
                registry == signal_configs.entries(),
                n == signal_configs.count(),
                n == registry.len(),
                i <= n,
                colors@ == colors_of(self@, registry.take(i as int)),
            decreases n - i,
        {
            let (emitter, config) = signal_configs.entry_at(i);
            proof {
                assert(registry.take(i + 1).drop_last() =~= registry.take(i as int));
                assert(registry.take(i + 1).last() == (emitter, *config));
            }
            match self.signals.get(emitter.id) {
                Some(signal) => {
                    match signal.compute_color(&config.color_config) {
                        Some(color) => {
                            colors.push(color);
                        },
                        None => {},
                    }
                },
                None => {},
            }
            i += 1;
        }
        proof {
            assert(registry.take(n as int) =~= registry);
        }
        colors
    }

    /// The one colour of the tile: the colours of its signals laid over
    /// opaque white one after the other, in the order of the registry, each
    /// by the "over" operator on top of what lies there already.
    pub fn compute_combined_color(&self, signal_configs: &SignalConfigs) -> (color: Rgba)
        requires
            self.wf(),
            signal_configs.wf(),
        ensures
            color == composite(colors_of(self@, signal_configs.entries())),
    {
        let colors = self.compute_colors(signal_configs);
        let n = colors.len();
        let mut total_color = rgba_white();
        let mut i: usize = 0;
        proof {
            assert(colors@.take(0) =~= Seq::<Rgba>::empty());
        }
        while i < n
            invariant
                n == colors@.len(),
                i <= n,
                total_color == composite(colors@.take(i as int)),
            decreases n - i,
        {
            proof {
                assert(colors@.take(i + 1).drop_last() =~= colors@.take(i as int));
                assert(colors@.take(i + 1).last() == colors@[i as int]);
            }
            total_color = colors[i].over(&total_color);
            i += 1;
        }
        proof {
            assert(colors@.take(n as int) =~= colors@);
        }
        total_color
    }

    /// The strength of `emitter`'s signal at the tile; 0 where it has none.
    pub fn get(&self, emitter: &Emitter) -> (value: i64)
        requires
            self.wf(),
        ensures
            value == self.strength(*emitter),
            !self@.contains_key(*emitter) ==> value == 0,
    {
        match self.signals.get(emitter.id) {
            Some(signal) => signal.current_value,
            None => 0,
        }
    }

    /// Each emitter with a signal is listed once, and only those are listed;
    /// the signal of the emitter listed at a place is the one stored there.
    pub proof fn lemma_emitters(&self)
        requires
            self.wf(),
        ensures
            self.emitter_seq().no_duplicates(),
            forall|emitter: Emitter|
                self.emitter_seq().contains(emitter) == self@.contains_key(emitter),
            forall|i: int|
                0 <= i < self.emitter_seq().len() ==> self@[#[trigger] self.emitter_seq()[i]]
                    == self.signals().values()[i],
    {
        self.signals().lemma_wf();
        let keys = self.signals().keys();
        assert forall|i: int, j: int|
            0 <= i < self.emitter_seq().len() && 0 <= j < self.emitter_seq().len() && i
                != j implies self.emitter_seq()[i] != self.emitter_seq()[j] by {
            assert(self.emitter_seq()[i].id == keys[i]);
            assert(self.emitter_seq()[j].id == keys[j]);
        }
        assert forall|emitter: Emitter|
            self.emitter_seq().contains(emitter) == self@.contains_key(emitter) by {
            if self.emitter_seq().contains(emitter) {
                let i = self.emitter_seq().index_of(emitter);
                assert(self.emitter_seq()[i] == emitter);
                assert(keys[i] == emitter.id);
            }
            if self@.contains_key(emitter) {
                let i = keys.index_of(emitter.id);
                assert(keys[i] == emitter.id);
                assert(self.emitter_seq()[i] == emitter);
            }
        }
        assert forall|i: int| 0 <= i < self.emitter_seq().len() implies self@[
            #[trigger] self.emitter_seq()[i]] == self.signals().values()[i] by {
            assert(self.emitter_seq()[i].id == keys[i]);
        }
    }
}

/// Decay without loss changes nothing: where every emitter that has a signal
/// decays with probability 0, a step of decay leaves every signal as it was.
/// So does any number of steps, one after the other.
pub proof fn lemma_decay_without_loss(signals: Map<Emitter, Signal>, configs: SignalConfigs)
    requires
        forall|emitter: Emitter|
            signals.contains_key(emitter) ==> configs.config(emitter).decay_probability == 0,
    ensures
        decayed_all(signals, configs) == signals,
{
    assert forall|emitter: Emitter| signals.contains_key(emitter) implies decayed_all(
        signals,
        configs,
    )[emitter] == signals[emitter] by {
        crate::amount::lemma_scaled_by_unit(signals[emitter].current_value as int);
    }
    assert(decayed_all(signals, configs) =~= signals);
}

/// What is pending inwards for `emitter`; 0 where it has no signal.
pub open spec fn pending_incoming(signals: Map<Emitter, Signal>, emitter: Emitter) -> int {
    if signals.contains_key(emitter) {
        signals[emitter].incoming as int
    } else {
        0
    }
}

/// `amount` is in the range in which sums are exact.
pub open spec fn representable(amount: int) -> bool {
    i64::MIN <= amount <= i64::MAX
}

/// Incoming signal adds up: to record `d1` and then `d2` and commit leaves
/// the same signals as to record `d1 + d2` at once and commit, as long as
/// the pending sums stay in the range of amounts.
pub proof fn lemma_commit_is_additive(
    signals: Map<Emitter, Signal>,
    emitter: Emitter,
    d1: i64,
    d2: i64,
)
    requires
        representable(d1 + d2),
        representable(pending_incoming(signals, emitter) + d1),
        representable(pending_incoming(signals, emitter) + d1 + d2),
    ensures
        committed_all(with_incoming(with_incoming(signals, emitter, d1), emitter, d2))
            == committed_all(with_incoming(signals, emitter, (d1 + d2) as i64)),
{
    let twice = with_incoming(with_incoming(signals, emitter, d1), emitter, d2);
    let once = with_incoming(signals, emitter, (d1 + d2) as i64);
    assert(twice =~= once);
}

/// After a commit nothing is pending: every signal has `incoming` and
/// `outgoing` at 0, and the emitters with a signal are those of before.
pub proof fn lemma_commit_resets(signals: Map<Emitter, Signal>)
    ensures
        committed_all(signals).dom() == signals.dom(),
        forall|emitter: Emitter|
            signals.contains_key(emitter) ==> (#[trigger] committed_all(signals)[emitter]).incoming
                == 0 && committed_all(signals)[emitter].outgoing == 0,
{
    assert(committed_all(signals).dom() =~= signals.dom());
}

/// The strength that a commit adds for an emitter is what was pending
/// inwards less what was pending outwards, wherever the result is in range.
pub proof fn lemma_commit_delta(signals: Map<Emitter, Signal>, emitter: Emitter)
    requires
        signals.contains_key(emitter),
        representable(
            signals[emitter].current_value + signals[emitter].incoming - signals[emitter].outgoing,
        ),
    ensures
        committed_all(signals)[emitter].current_value - signals[emitter].current_value
            == signals[emitter].incoming - signals[emitter].outgoing,
{
}

} // verus!
