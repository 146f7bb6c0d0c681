//! Tuning values of the combat rules.
use vstd::prelude::*;

use crate::shared::bounded_types::{Level, ManaCost, MaxBuffStacks, MaxEquippedDjinn, MaxPartySize};
use crate::shared::CombatConfig;

verus! {

/// The values of the default combat configuration.
pub open spec fn is_default_config(c: CombatConfig) -> bool {
    &&& c.physical_def_multiplier_pct == 50
    &&& c.psynergy_def_multiplier_pct == 30
    &&& c.crit_threshold == 10
    &&& c.crit_multiplier_pct == 200
    &&& c.mana_gain_per_hit@ == 1
    &&& c.mana_resets_each_round
    &&& c.max_party_size@ == 4
    &&& c.max_equipped_djinn@ == 3
    &&& c.max_level@ == 20
    &&& c.max_buff_stacks@ == 3
    &&& c.djinn_recovery_start_delay == 1
    &&& c.djinn_recovery_per_turn == 1
}

/// The default combat configuration.
pub fn default_combat_config() -> (c: CombatConfig)
    ensures
        is_default_config(c),
{
    CombatConfig {
        physical_def_multiplier_pct: 50,
        psynergy_def_multiplier_pct: 30,
        crit_threshold: 10,
        crit_multiplier_pct: 200,
        mana_gain_per_hit: ManaCost::new_unchecked(1),
        mana_resets_each_round: true,
        max_party_size: MaxPartySize::new_unchecked(4),
        max_equipped_djinn: MaxEquippedDjinn::new_unchecked(3),
        max_level: Level::new_unchecked(20),
        max_buff_stacks: MaxBuffStacks::new_unchecked(3),
        djinn_recovery_start_delay: 1,
        djinn_recovery_per_turn: 1,
    }
}

} // verus!
