//! How each kind of signal behaves and how it is drawn.

use vstd::prelude::*;
use crate::amount::UNIT;
use crate::arena::KeyedArena;
use crate::signals::emitters::Emitter;

verus! {

/// How the signal of one emitter is drawn: in which colour, and between
/// which strengths its opacity rises from nothing to full.
#[derive(Clone, Copy, Debug, PartialEq, Eq, Structural)]
pub struct ColorConfig {
    pub red: u8,
    pub green: u8,
    pub blue: u8,
    pub zero_value: i64,
    pub one_value: i64,
    pub is_visible: bool,
}

/// The settings of one emitter.
#[derive(Clone, Copy, Debug, PartialEq, Eq, Structural)]
pub struct SignalConfig {
    pub decay_probability: i64,
    pub color_config: ColorConfig,
}

impl SignalConfig {
    /// The decay probability is a probability: between 0 and 1.
    pub open spec fn wf(self) -> bool {
        0 <= self.decay_probability <= UNIT
    }

    /// The settings with the given decay probability, in millionths, and
    /// colours; `None` where the probability is below 0 or above 1.
    pub fn new(decay_probability: i64, color_config: ColorConfig) -> (config: Option<SignalConfig>)
        ensures
            config.is_some() == (0 <= decay_probability <= UNIT),
            config.is_some() ==> config.unwrap() == (SignalConfig {
                decay_probability,
                color_config,
            }),
    {
        if 0 <= decay_probability && decay_probability <= UNIT {
            Some(SignalConfig { decay_probability, color_config })
        } else {
            None
        }
    }
}

/// The registry of emitters: the settings of each, in the order in which the
/// emitters were registered. That order is the order in which signal colours
/// are laid over one another.
pub struct SignalConfigs {
    registry: KeyedArena<SignalConfig>,
}

impl SignalConfigs {
    /// The registry's arena: settings under the number of their emitter.
    pub closed spec fn registry(&self) -> KeyedArena<SignalConfig> {
        self.registry
    }

    /// The registry is sound and holds only settings that are.
    pub open spec fn wf(&self) -> bool {
        &&& self.registry().wf()
        &&& forall|i: int|
            0 <= i < self.registry().values().len() ==> (#[trigger] self.registry().values()[i]).wf()
    }

    /// The number of registered emitters.
    pub open spec fn count(&self) -> int {
        self.registry().keys().len() as int
    }

    /// The emitter registered at place `i`.
    pub open spec fn emitter_at(&self, i: int) -> Emitter {
        Emitter { id: self.registry().keys()[i] }
    }

    /// The settings registered at place `i`.
    pub open spec fn config_at(&self, i: int) -> SignalConfig {
        self.registry().values()[i]
    }

    /// The registered emitters with their settings, in order.
    pub open spec fn entries(&self) -> Seq<(Emitter, SignalConfig)> {
        Seq::new(self.registry().keys().len(), |i: int| (self.emitter_at(i), self.config_at(i)))
    }

    /// `emitter` is registered.
    pub open spec fn contains(&self, emitter: Emitter) -> bool {
        self.registry()@.contains_key(emitter.id)
    }

    /// The settings of a registered emitter.
    pub open spec fn config(&self, emitter: Emitter) -> SignalConfig {
        self.registry()@[emitter.id]
    }

    /// A registry without emitters.
    pub fn new() -> (configs: SignalConfigs)
        ensures
            configs.wf(),
            configs.count() == 0,
            forall|emitter: Emitter| !configs.contains(emitter),
    {
        SignalConfigs { registry: KeyedArena::with_capacity(0) }
    }

    /// Registers `emitter` with `config`. An emitter that is registered
    /// already keeps its place in the order and gets the new settings; a new
    /// one is registered last.
    pub fn insert(&mut self, emitter: Emitter, config: SignalConfig)
        requires
            old(self).wf(),
            config.wf(),
        ensures
            final(self).wf(),
            final(self).contains(emitter),
            final(self).config(emitter) == config,
            forall|other: Emitter|
                other != emitter ==> final(self).contains(other) == old(self).contains(other)
                    && final(self).config(other) == old(self).config(other),
            old(self).contains(emitter) ==> final(self).entries() == old(self).entries().update(
                old(self).registry().slot_of(emitter.id),
                (emitter, config),
            ),
            !old(self).contains(emitter) ==> final(self).entries() == old(self).entries().push(
                (emitter, config),
            ),
    {
        proof {
            old(self).registry().lemma_wf();
        }
        let _ = self.registry.insert(emitter.id, config);
        proof {
            if old(self).contains(emitter) {
                let slot = old(self).registry().slot_of(emitter.id);
                assert(old(self).registry().keys()[slot] == emitter.id);
                assert(self.entries() =~= old(self).entries().update(slot, (emitter, config)));
            } else {
                assert(self.entries() =~= old(self).entries().push((emitter, config)));
            }
        }
    }

    /// The number of registered emitters.
    pub fn len(&self) -> (n: usize)
        ensures
            n == self.count(),
    {
        self.registry.len()
    }

    /// The emitter and the settings registered at place `i`.
    pub fn entry_at(&self, i: usize) -> (entry: (Emitter, &SignalConfig))
        requires
            self.wf(),
            i < self.count(),
        ensures
            entry.0 == self.emitter_at(i as int),
            *entry.1 == self.config_at(i as int),
            entry.1.wf(),
            self.contains(entry.0),
            self.config(entry.0) == *entry.1,
    {
        proof {
            self.registry().lemma_wf();
            assert(self.registry().keys().contains(self.registry().keys()[i as int]));
        }
        (Emitter { id: self.registry.key_at(i) }, self.registry.value_at(i))
    }

    /// The settings of `emitter`, where it is registered.
    pub fn get(&self, emitter: &Emitter) -> (config: Option<&SignalConfig>)
        requires
            self.wf(),
        ensures
            config.is_some() == self.contains(*emitter),
            config.is_some() ==> *config.unwrap() == self.config(*emitter) && config.unwrap().wf(),
    {
        proof {
            self.registry().lemma_wf();
            if self.contains(*emitter) {
                let slot = self.registry().slot_of(emitter.id);
                assert(self.registry().keys()[slot] == emitter.id);
            }
        }
        self.registry.get(emitter.id)
    }
}

} // verus!
