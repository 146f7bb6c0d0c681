//! Cross-domain game model: identifiers, definitions and battle vocabulary.
pub mod bounded_types;

use vstd::prelude::*;

use self::bounded_types::{
    BasePower, BaseStat, DjinnTier, EncounterRate, Gold, ItemCount, GrowthRate, HitCount, Hp, Level, ManaCost, MaxBuffStacks,
    MaxEquippedDjinn, MaxPartySize, StatMod, Xp,
};

verus! {

/// Identifier of an ability.
#[derive(Debug, PartialEq, Eq, Hash)]
pub struct AbilityId(pub String);

impl View for AbilityId {
    type V = Seq<char>;

    open spec fn view(&self) -> Seq<char> {
        self.0@
    }
}

impl Clone for AbilityId {
    fn clone(&self) -> (r: Self)
        ensures
            r == *self,
    {
        AbilityId(self.0.clone())
    }
}

impl AbilityId {
    /// Compare two identifiers by their text.
    pub fn same_as(&self, other: &Self) -> (r: bool)
        ensures
            r == (self@ == other@),
    {
        self.0 == other.0
    }
}

/// Identifier of a djinn.
#[derive(Debug, PartialEq, Eq, Hash)]
pub struct DjinnId(pub String);

impl View for DjinnId {
    type V = Seq<char>;

    open spec fn view(&self) -> Seq<char> {
        self.0@
    }
}

impl Clone for DjinnId {
    fn clone(&self) -> (r: Self)
        ensures
            r == *self,
    {
        DjinnId(self.0.clone())
    }
}

impl DjinnId {
    /// Compare two identifiers by their text.
    pub fn same_as(&self, other: &Self) -> (r: bool)
        ensures
            r == (self@ == other@),
    {
        self.0 == other.0
    }
}

/// Identifier of a playable unit.
#[derive(Debug, PartialEq, Eq, Hash)]
pub struct UnitId(pub String);

impl View for UnitId {
    type V = Seq<char>;

    open spec fn view(&self) -> Seq<char> {
        self.0@
    }
}

impl Clone for UnitId {
    fn clone(&self) -> (r: Self)
        ensures
            r == *self,
    {
        UnitId(self.0.clone())
    }
}

impl UnitId {
    /// Compare two identifiers by their text.
    pub fn same_as(&self, other: &Self) -> (r: bool)
        ensures
            r == (self@ == other@),
    {
        self.0 == other.0
    }
}

/// Identifier of an enemy.
#[derive(Debug, PartialEq, Eq, Hash)]
pub struct EnemyId(pub String);

impl View for EnemyId {
    type V = Seq<char>;

    open spec fn view(&self) -> Seq<char> {
        self.0@
    }
}

impl Clone for EnemyId {
    fn clone(&self) -> (r: Self)
        ensures
            r == *self,
    {
        EnemyId(self.0.clone())
    }
}

impl EnemyId {
    /// Compare two identifiers by their text.
    pub fn same_as(&self, other: &Self) -> (r: bool)
        ensures
            r == (self@ == other@),
    {
        self.0 == other.0
    }
}

/// Identifier of a piece of equipment.
#[derive(Debug, PartialEq, Eq, Hash)]
pub struct EquipmentId(pub String);

impl View for EquipmentId {
    type V = Seq<char>;

    open spec fn view(&self) -> Seq<char> {
        self.0@
    }
}

impl Clone for EquipmentId {
    fn clone(&self) -> (r: Self)
        ensures
            r == *self,
    {
        EquipmentId(self.0.clone())
    }
}

impl EquipmentId {
    /// Compare two identifiers by their text.
    pub fn same_as(&self, other: &Self) -> (r: bool)
        ensures
            r == (self@ == other@),
    {
        self.0 == other.0
    }
}

/// Identifier of an item.
#[derive(Debug, PartialEq, Eq, Hash)]
pub struct ItemId(pub String);

impl View for ItemId {
    type V = Seq<char>;

    open spec fn view(&self) -> Seq<char> {
        self.0@
    }
}

impl Clone for ItemId {
    fn clone(&self) -> (r: Self)
        ensures
            r == *self,
    {
        ItemId(self.0.clone())
    }
}

impl ItemId {
    /// Compare two identifiers by their text.
    pub fn same_as(&self, other: &Self) -> (r: bool)
        ensures
            r == (self@ == other@),
    {
        self.0 == other.0
    }
}

/// Identifier of an equipment set.
#[derive(Debug, PartialEq, Eq, Hash)]
pub struct SetId(pub String);

impl View for SetId {
    type V = Seq<char>;

    open spec fn view(&self) -> Seq<char> {
        self.0@
    }
}

impl Clone for SetId {
    fn clone(&self) -> (r: Self)
        ensures
            r == *self,
    {
        SetId(self.0.clone())
    }
}

impl SetId {
    /// Compare two identifiers by their text.
    pub fn same_as(&self, other: &Self) -> (r: bool)
        ensures
            r == (self@ == other@),
    {
        self.0 == other.0
    }
}

/// Identifier of an encounter.
#[derive(Debug, PartialEq, Eq, Hash)]
pub struct EncounterId(pub String);

impl View for EncounterId {
    type V = Seq<char>;

    open spec fn view(&self) -> Seq<char> {
        self.0@
    }
}

impl Clone for EncounterId {
    fn clone(&self) -> (r: Self)
        ensures
            r == *self,
    {
        EncounterId(self.0.clone())
    }
}

impl EncounterId {
    /// Compare two identifiers by their text.
    pub fn same_as(&self, other: &Self) -> (r: bool)
        ensures
            r == (self@ == other@),
    {
        self.0 == other.0
    }
}

/// Identifier of a quest flag.
#[derive(Clone, Copy, Debug, PartialEq, Eq, Hash, Structural)]
pub struct QuestFlagId(pub u16);

/// Identifier of a dungeon room.
#[derive(Clone, Copy, Debug, PartialEq, Eq, Hash, Structural)]
pub struct RoomId(pub u16);

/// Identifier of a dungeon.
#[derive(Clone, Copy, Debug, PartialEq, Eq, Hash, Structural)]
pub struct DungeonId(pub u16);

/// Identifier of a dialogue tree.
#[derive(Clone, Copy, Debug, PartialEq, Eq, Hash, Structural)]
pub struct DialogueTreeId(pub u32);

/// Identifier of a dialogue node.
#[derive(Clone, Copy, Debug, PartialEq, Eq, Hash, Structural)]
pub struct DialogueNodeId(pub u16);

/// Identifier of a world-map node.
#[derive(Clone, Copy, Debug, PartialEq, Eq, Hash, Structural)]
pub struct MapNodeId(pub u16);

/// Identifier of a non-player character.
#[derive(Clone, Copy, Debug, PartialEq, Eq, Hash, Structural)]
pub struct NpcId(pub u16);

/// Identifier of a shop.
#[derive(Clone, Copy, Debug, PartialEq, Eq, Hash, Structural)]
pub struct ShopId(pub u8);

/// Identifier of a town.
#[derive(Clone, Copy, Debug, PartialEq, Eq, Hash, Structural)]
pub struct TownId(pub u8);

// ── Battle vocabulary ───────────────────────────────────────────────

#[derive(Clone, Copy, Debug, PartialEq, Eq, Hash, Structural)]
pub enum Side {
    Player,
    Enemy,
}

impl Side {
    pub open spec fn spec_opposite(self) -> Side {
        match self {
            Side::Player => Side::Enemy,
            Side::Enemy => Side::Player,
        }
    }

    /// The other side of the battlefield.
    #[verifier::when_used_as_spec(spec_opposite)]
    pub fn opposite(self) -> (r: Side)
        ensures
            r == self.spec_opposite(),
    {
        match self {
            Side::Player => Side::Enemy,
            Side::Enemy => Side::Player,
        }
    }
}

/// A reference to one combatant: its side and its index on that side.
#[derive(Clone, Copy, Debug, PartialEq, Eq, Hash, Structural)]
pub struct TargetRef {
    pub side: Side,
    pub index: u8,
}

#[derive(Clone, Copy, Debug, PartialEq, Eq, Hash, Structural)]
pub enum Element {
    Venus,
    Mars,
    Mercury,
    Jupiter,
}

impl Element {
    pub open spec fn spec_counter(self) -> Element {
        match self {
            Element::Venus => Element::Jupiter,
            Element::Jupiter => Element::Venus,
            Element::Mars => Element::Mercury,
            Element::Mercury => Element::Mars,
        }
    }

    /// The opposing element: Venus/Jupiter and Mars/Mercury counter each other.
    #[verifier::when_used_as_spec(spec_counter)]
    pub fn counter(self) -> (r: Element)
        ensures
            r == self.spec_counter(),
    {
        match self {
            Element::Venus => Element::Jupiter,
            Element::Jupiter => Element::Venus,
            Element::Mars => Element::Mercury,
            Element::Mercury => Element::Mars,
        }
    }
}

#[derive(Clone, Copy, Debug, PartialEq, Eq, Structural)]
pub enum DamageType {
    Physical,
    Psynergy,
}

#[derive(Clone, Copy, Debug, PartialEq, Eq, Structural)]
pub enum TargetMode {
    SingleEnemy,
    AllEnemies,
    SingleAlly,
    AllAllies,
    SelfOnly,
}

#[derive(Clone, Copy, Debug, PartialEq, Eq, Structural)]
pub enum BattlePhase {
    Planning,
    Execution,
    RoundEnd,
}

#[derive(Clone, Copy, Debug, PartialEq, Eq, Structural)]
pub enum AbilityCategory {
    Physical,
    Psynergy,
    Healing,
    Buff,
    Debuff,
}

/// A unit's combat statistics.
#[derive(Clone, Copy, Debug, PartialEq, Eq)]
pub struct Stats {
    pub hp: Hp,
    pub atk: BaseStat,
    pub def: BaseStat,
    pub mag: BaseStat,
    pub spd: BaseStat,
}

/// Per-level growth of each statistic.
#[derive(Clone, Copy, Debug, PartialEq, Eq)]
pub struct GrowthRates {
    pub hp: GrowthRate,
    pub atk: GrowthRate,
    pub def: GrowthRate,
    pub mag: GrowthRate,
    pub spd: GrowthRate,
}

/// Signed modifiers to each statistic.
#[derive(Clone, Copy, Debug, PartialEq, Eq)]
pub struct StatBonus {
    pub atk: StatMod,
    pub def: StatMod,
    pub mag: StatMod,
    pub spd: StatMod,
    pub hp: StatMod,
}

impl StatBonus {
    pub open spec fn is_zero(self) -> bool {
        &&& self.atk@ == 0
        &&& self.def@ == 0
        &&& self.mag@ == 0
        &&& self.spd@ == 0
        &&& self.hp@ == 0
    }
}

/// Running sums of stat bonuses.
pub ghost struct BonusTotals {
    pub atk: int,
    pub def: int,
    pub mag: int,
    pub spd: int,
    pub hp: int,
}

pub open spec fn clamp999(x: int) -> int {
    if x < -999 {
        -999
    } else if x > 999 {
        999
    } else {
        x
    }
}

/// Add `b` to the totals, clamping each sum into `[-999, 999]`.
pub open spec fn add_clamped(t: BonusTotals, b: StatBonus) -> BonusTotals {
    BonusTotals {
        atk: clamp999(t.atk + b.atk@),
        def: clamp999(t.def + b.def@),
        mag: clamp999(t.mag + b.mag@),
        spd: clamp999(t.spd + b.spd@),
        hp: clamp999(t.hp + b.hp@),
    }
}

/// Every modifier of `b` lies within `[-999, 999]`, as a `StatMod` always does.
pub open spec fn bonus_in_range(b: StatBonus) -> bool {
    &&& -999 <= b.atk@ <= 999
    &&& -999 <= b.def@ <= 999
    &&& -999 <= b.mag@ <= 999
    &&& -999 <= b.spd@ <= 999
    &&& -999 <= b.hp@ <= 999
}

/// Every statistic of `a` plus the same statistic of `b` lies within
/// `[-999, 999]`.
pub open spec fn sum_in_range(a: StatBonus, b: StatBonus) -> bool {
    &&& -999 <= a.atk@ + b.atk@ <= 999
    &&& -999 <= a.def@ + b.def@ <= 999
    &&& -999 <= a.mag@ + b.mag@ <= 999
    &&& -999 <= a.spd@ + b.spd@ <= 999
    &&& -999 <= a.hp@ + b.hp@ <= 999
}

pub open spec fn totals_of(b: StatBonus) -> BonusTotals {
    BonusTotals { atk: b.atk@ as int, def: b.def@ as int, mag: b.mag@ as int, spd: b.spd@ as int, hp: b.hp@ as int }
}

pub open spec fn zero_totals() -> BonusTotals {
    BonusTotals { atk: 0, def: 0, mag: 0, spd: 0, hp: 0 }
}

fn clamped_sum(a: StatMod, b: StatMod) -> (r: StatMod)
    ensures
        r@ == clamp999(a@ + b@),
{
    let s: i32 = a.get() as i32 + b.get() as i32;
    let c: i32 = if s < -999 { -999 } else if s > 999 { 999 } else { s };
    StatMod::new_unchecked(c as i16)
}

impl StatBonus {
    /// Add `b` stat by stat, clamping each sum into `[-999, 999]`.
    pub fn add_clamped(&self, b: &StatBonus) -> (r: StatBonus)
        ensures
            totals_of(r) == add_clamped(totals_of(*self), *b),
    {
        StatBonus {
            atk: clamped_sum(self.atk, b.atk),
            def: clamped_sum(self.def, b.def),
            mag: clamped_sum(self.mag, b.mag),
            spd: clamped_sum(self.spd, b.spd),
            hp: clamped_sum(self.hp, b.hp),
        }
    }
}

impl Default for StatBonus {
    fn default() -> (r: Self)
        ensures
            r.is_zero(),
    {
        StatBonus {
            atk: StatMod::new_unchecked(0),
            def: StatMod::new_unchecked(0),
            mag: StatMod::new_unchecked(0),
            spd: StatMod::new_unchecked(0),
            hp: StatMod::new_unchecked(0),
        }
    }
}

/// A planned battle action.
#[derive(Clone, Debug, PartialEq, Eq)]
pub enum BattleAction {
    Attack { target: TargetRef },
    UseAbility { ability_id: AbilityId, targets: Vec<TargetRef> },
    ActivateDjinn { djinn_index: u8 },
    Summon { djinn_indices: Vec<u8> },
}

/// Mathematical view of a battle action.
pub ghost enum ActionView {
    Attack { target: TargetRef },
    UseAbility { ability_id: Seq<char>, targets: Seq<TargetRef> },
    ActivateDjinn { djinn_index: u8 },
    Summon { djinn_indices: Seq<u8> },
}

impl View for BattleAction {
    type V = ActionView;

    open spec fn view(&self) -> ActionView {
        match self {
            BattleAction::Attack { target } => ActionView::Attack { target: *target },
            BattleAction::UseAbility { ability_id, targets } => ActionView::UseAbility {
                ability_id: ability_id@,
                targets: targets@,
            },
            BattleAction::ActivateDjinn { djinn_index } => ActionView::ActivateDjinn {
                djinn_index: *djinn_index,
            },
            BattleAction::Summon { djinn_indices } => ActionView::Summon { djinn_indices: djinn_indices@ },
        }
    }
}

/// Tuning values of the combat rules. Multipliers are expressed in percent.
#[derive(Clone, Copy, Debug, PartialEq, Eq)]
pub struct CombatConfig {
    pub physical_def_multiplier_pct: u16,
    pub psynergy_def_multiplier_pct: u16,
    pub crit_threshold: u8,
    pub crit_multiplier_pct: u16,
    pub mana_gain_per_hit: ManaCost,
    pub mana_resets_each_round: bool,
    pub max_party_size: MaxPartySize,
    pub max_equipped_djinn: MaxEquippedDjinn,
    pub max_level: Level,
    pub max_buff_stacks: MaxBuffStacks,
    pub djinn_recovery_start_delay: u8,
    pub djinn_recovery_per_turn: u8,
}

// ── Abilities and effects ───────────────────────────────────────────

#[derive(Clone, Copy, Debug, PartialEq, Eq, Hash, Structural)]
pub enum StatusEffectType {
    Burn,
    Poison,
    Freeze,
    Stun,
    Null,
    Incapacitate,
}

/// A status effect an ability can inflict. Percentages are whole percent.
#[derive(Clone, Copy, Debug, PartialEq, Eq)]
pub struct StatusEffect {
    pub effect_type: StatusEffectType,
    pub duration: u8,
    pub burn_percent: Option<u8>,
    pub poison_percent: Option<u8>,
    pub freeze_threshold: Option<u16>,
}

#[derive(Clone, Copy, Debug, PartialEq, Eq)]
pub struct BuffEffect {
    pub stat_modifiers: StatBonus,
    pub duration: u8,
}

#[derive(Clone, Copy, Debug, PartialEq, Eq)]
pub struct DebuffEffect {
    pub stat_modifiers: StatBonus,
    pub duration: u8,
}

#[derive(Clone, Copy, Debug, PartialEq, Eq)]
pub struct HealOverTime {
    pub amount: u16,
    pub duration: u8,
}

#[derive(Debug, PartialEq, Eq)]
pub struct Immunity {
    pub all: bool,
    pub types: Vec<StatusEffectType>,
    pub duration: u8,
}

impl Clone for Immunity {
    fn clone(&self) -> (r: Self)
        ensures
            r.all == self.all,
            r.types@ == self.types@,
            r.duration == self.duration,
    {
        let types = self.types.clone();
        assert(types@ =~= self.types@);
        Immunity { all: self.all, types, duration: self.duration }
    }
}

#[derive(Debug, PartialEq, Eq)]
pub enum CleanseType {
    All,
    Negative,
    ByType(Vec<StatusEffectType>),
}

/// Two cleanse kinds alike: the same kind, and for a cleanse by type the
/// same types.
pub open spec fn same_cleanse(a: CleanseType, b: CleanseType) -> bool {
    match (a, b) {
        (CleanseType::All, CleanseType::All) => true,
        (CleanseType::Negative, CleanseType::Negative) => true,
        (CleanseType::ByType(x), CleanseType::ByType(y)) => x@ == y@,
        _ => false,
    }
}

impl Clone for CleanseType {
    fn clone(&self) -> (r: Self)
        ensures
            same_cleanse(r, *self),
    {
        match self {
            CleanseType::All => CleanseType::All,
            CleanseType::Negative => CleanseType::Negative,
            CleanseType::ByType(types) => {
                let t = types.clone();
                assert(t@ =~= types@);
                CleanseType::ByType(t)
            },
        }
    }
}

/// Definition of an ability. Percentages are whole percent.
#[derive(Debug, PartialEq, Eq)]
pub struct AbilityDef {
    pub id: AbilityId,
    pub name: String,
    pub category: AbilityCategory,
    pub damage_type: Option<DamageType>,
    pub element: Option<Element>,
    pub mana_cost: ManaCost,
    pub base_power: BasePower,
    pub targets: TargetMode,
    pub unlock_level: Level,
    pub hit_count: HitCount,
    pub status_effect: Option<StatusEffect>,
    pub buff_effect: Option<BuffEffect>,
    pub debuff_effect: Option<DebuffEffect>,
    pub shield_charges: Option<u8>,
    pub shield_duration: Option<u8>,
    pub heal_over_time: Option<HealOverTime>,
    pub grant_immunity: Option<Immunity>,
    pub cleanse: Option<CleanseType>,
    pub ignore_defense_percent: Option<u8>,
    pub splash_damage_percent: Option<u8>,
    pub chain_damage: bool,
    pub revive: bool,
    pub revive_hp_percent: Option<u8>,
}

impl Clone for AbilityDef {
    fn clone(&self) -> (r: Self)
        ensures
            r.id == self.id,
            r.name == self.name,
            r.category == self.category,
            r.damage_type == self.damage_type,
            r.element == self.element,
            r.mana_cost == self.mana_cost,
            r.base_power == self.base_power,
            r.targets == self.targets,
            r.unlock_level == self.unlock_level,
            r.hit_count == self.hit_count,
            r.status_effect == self.status_effect,
            r.buff_effect == self.buff_effect,
            r.debuff_effect == self.debuff_effect,
            r.shield_charges == self.shield_charges,
            r.shield_duration == self.shield_duration,
            r.heal_over_time == self.heal_over_time,
            r.ignore_defense_percent == self.ignore_defense_percent,
            r.splash_damage_percent == self.splash_damage_percent,
            r.chain_damage == self.chain_damage,
            r.revive == self.revive,
            r.revive_hp_percent == self.revive_hp_percent,
    {
        AbilityDef {
            id: self.id.clone(),
            name: self.name.clone(),
            category: self.category,
            damage_type: self.damage_type,
            element: self.element,
            mana_cost: self.mana_cost,
            base_power: self.base_power,
            targets: self.targets,
            unlock_level: self.unlock_level,
            hit_count: self.hit_count,
            status_effect: self.status_effect,
            buff_effect: self.buff_effect,
            debuff_effect: self.debuff_effect,
            shield_charges: self.shield_charges,
            shield_duration: self.shield_duration,
            heal_over_time: self.heal_over_time,
            grant_immunity: self.grant_immunity.clone(),
            cleanse: self.cleanse.clone(),
            ignore_defense_percent: self.ignore_defense_percent,
            splash_damage_percent: self.splash_damage_percent,
            chain_damage: self.chain_damage,
            revive: self.revive,
            revive_hp_percent: self.revive_hp_percent,
        }
    }
}

// ── Djinn ───────────────────────────────────────────────────────────

#[derive(Clone, Copy, Debug, PartialEq, Eq, Hash, Structural)]
pub enum DjinnState {
    Good,
    Recovery,
}

#[derive(Clone, Copy, Debug, PartialEq, Eq, Hash, Structural)]
pub enum DjinnCompatibility {
    Same,
    Counter,
    Neutral,
}

/// Abilities a djinn grants in each of its states.
#[derive(Clone, Debug, PartialEq, Eq)]
pub struct DjinnAbilitySet {
    pub good_abilities: Vec<AbilityId>,
    pub recovery_abilities: Vec<AbilityId>,
}

/// Ability sets per compatibility with the holder's element.
#[derive(Clone, Debug, PartialEq, Eq)]
pub struct DjinnAbilityPairs {
    pub same: DjinnAbilitySet,
    pub counter: DjinnAbilitySet,
    pub neutral: DjinnAbilitySet,
}

/// Immediate effect of activating or summoning with a djinn.
#[derive(Clone, Copy, Debug, PartialEq, Eq)]
pub struct SummonEffect {
    pub damage: u16,
    pub buff: Option<BuffEffect>,
    pub status: Option<StatusEffect>,
    pub heal: Option<u16>,
}

#[derive(Clone, Debug, PartialEq, Eq)]
pub struct DjinnDef {
    pub id: DjinnId,
    pub name: String,
    pub element: Element,
    pub tier: DjinnTier,
    pub stat_bonus: StatBonus,
    pub summon_effect: Option<SummonEffect>,
    pub ability_pairs: DjinnAbilityPairs,
}

/// Event: a djinn changed state.
#[derive(Debug, PartialEq, Eq)]
pub struct DjinnStateChanged {
    pub djinn_id: DjinnId,
    pub unit: TargetRef,
    pub old_state: DjinnState,
    pub new_state: DjinnState,
    pub recovery_turns: Option<u8>,
}

impl Clone for DjinnStateChanged {
    fn clone(&self) -> (r: Self)
        ensures
            r == *self,
    {
        DjinnStateChanged {
            djinn_id: self.djinn_id.clone(),
            unit: self.unit,
            old_state: self.old_state,
            new_state: self.new_state,
            recovery_turns: self.recovery_turns,
        }
    }
}

// ── Units ───────────────────────────────────────────────────────────

/// An ability a unit learns at a given level.
#[derive(Clone, Debug, PartialEq, Eq)]
pub struct AbilityProgression {
    pub level: Level,
    pub ability_id: AbilityId,
}

/// Definition of a playable unit.
#[derive(Clone, Debug, PartialEq, Eq)]
pub struct UnitDef {
    pub id: UnitId,
    pub name: String,
    pub element: Element,
    pub mana_contribution: ManaCost,
    pub base_stats: Stats,
    pub growth_rates: GrowthRates,
    pub abilities: Vec<AbilityProgression>,
}

// ── Equipment ───────────────────────────────────────────────────────

#[derive(Clone, Copy, Debug, PartialEq, Eq, Hash, Structural)]
pub enum EquipmentSlot {
    Weapon,
    Helm,
    Armor,
    Boots,
    Accessory,
}

#[derive(Clone, Copy, Debug, PartialEq, Eq, Hash, Structural)]
pub enum EquipmentTier {
    Basic,
    Bronze,
    Iron,
    Steel,
    Silver,
    Mythril,
    Legendary,
    Artifact,
}

#[derive(Clone, Debug, PartialEq, Eq)]
pub struct EquipmentDef {
    pub id: EquipmentId,
    pub name: String,
    pub slot: EquipmentSlot,
    pub tier: EquipmentTier,
    pub cost: Gold,
    pub allowed_elements: Vec<Element>,
    pub stat_bonus: StatBonus,
    pub unlocks_ability: Option<AbilityId>,
    pub set_id: Option<SetId>,
    pub always_first_turn: bool,
    pub mana_bonus: Option<u8>,
    pub hit_count_bonus: Option<u8>,
}

// ── World, dialogue and quests ──────────────────────────────────────

#[derive(Clone, Copy, Debug, PartialEq, Eq, Hash, Structural)]
pub enum Direction {
    Up,
    Down,
    Left,
    Right,
}

/// Progress of a quest. Stages only move forward, in declaration order.
#[derive(Clone, Copy, Debug, PartialEq, Eq, PartialOrd, Ord, Hash, Structural)]
pub enum QuestStage {
    Unknown,
    Discovered,
    Active,
    InProgress,
    Complete,
    Rewarded,
}

impl QuestStage {
    pub open spec fn spec_rank(self) -> u8 {
        match self {
            QuestStage::Unknown => 0,
            QuestStage::Discovered => 1,
            QuestStage::Active => 2,
            QuestStage::InProgress => 3,
            QuestStage::Complete => 4,
            QuestStage::Rewarded => 5,
        }
    }

    /// Position of the stage in the quest order.
    #[verifier::when_used_as_spec(spec_rank)]
    pub fn rank(self) -> (r: u8)
        ensures
            r == self.spec_rank(),
    {
        match self {
            QuestStage::Unknown => 0,
            QuestStage::Discovered => 1,
            QuestStage::Active => 2,
            QuestStage::InProgress => 3,
            QuestStage::Complete => 4,
            QuestStage::Rewarded => 5,
        }
    }
}

/// The stage a quest is at after being advanced to `to` from `current`: `to`
/// when that is strictly forward, `current` otherwise.
pub open spec fn advanced(current: QuestStage, to: QuestStage) -> QuestStage {
    if to.spec_rank() > current.spec_rank() {
        to
    } else {
        current
    }
}

/// A condition on the game state, checked by dialogue, exits and quests.
#[derive(Debug, PartialEq, Eq)]
pub enum DialogueCondition {
    HasItem(ItemId),
    HasDjinn(DjinnId),
    QuestAtStage(QuestFlagId, QuestStage),
    GoldAtLeast(Gold),
    PartyContains(UnitId),
}

impl Clone for DialogueCondition {
    fn clone(&self) -> (r: Self)
        ensures
            r == *self,
    {
        match self {
            DialogueCondition::HasItem(i) => DialogueCondition::HasItem(i.clone()),
            DialogueCondition::HasDjinn(d) => DialogueCondition::HasDjinn(d.clone()),
            DialogueCondition::QuestAtStage(f, s) => DialogueCondition::QuestAtStage(*f, *s),
            DialogueCondition::GoldAtLeast(g) => DialogueCondition::GoldAtLeast(*g),
            DialogueCondition::PartyContains(u) => DialogueCondition::PartyContains(u.clone()),
        }
    }
}

#[derive(Clone, Copy, Debug, PartialEq, Eq, Hash, Structural)]
pub enum Difficulty {
    Easy,
    Medium,
    Hard,
    Boss,
}

/// One enemy of an encounter.
#[derive(Debug, PartialEq, Eq)]
pub struct EncounterEnemy {
    pub enemy_id: EnemyId,
    /// How many of this enemy the encounter holds.
    pub count: u8,
}

impl Clone for EncounterEnemy {
    fn clone(&self) -> (r: Self)
        ensures
            r == *self,
    {
        EncounterEnemy { enemy_id: self.enemy_id.clone(), count: self.count }
    }
}

#[derive(Debug, PartialEq, Eq)]
pub struct EncounterDef {
    pub id: EncounterId,
    pub name: String,
    pub difficulty: Difficulty,
    pub enemies: Vec<EncounterEnemy>,
    pub xp_reward: Xp,
    pub gold_reward: Gold,
    pub recruit: Option<UnitId>,
    pub djinn_reward: Option<DjinnId>,
    pub equipment_rewards: Vec<EquipmentId>,
}

/// Mathematical view of an encounter definition.
pub ghost struct EncounterDefView {
    pub id: EncounterId,
    pub name: String,
    pub difficulty: Difficulty,
    pub enemies: Seq<EncounterEnemy>,
    pub xp_reward: Xp,
    pub gold_reward: Gold,
    pub recruit: Option<UnitId>,
    pub djinn_reward: Option<DjinnId>,
    pub equipment_rewards: Seq<EquipmentId>,
}

impl View for EncounterDef {
    type V = EncounterDefView;

    open spec fn view(&self) -> EncounterDefView {
        EncounterDefView {
            id: self.id,
            name: self.name,
            difficulty: self.difficulty,
            enemies: self.enemies@,
            xp_reward: self.xp_reward,
            gold_reward: self.gold_reward,
            recruit: self.recruit,
            djinn_reward: self.djinn_reward,
            equipment_rewards: self.equipment_rewards@,
        }
    }
}

impl Clone for EncounterDef {
    fn clone(&self) -> (r: Self)
        ensures
            r@ == self@,
    {
        let enemies = self.enemies.clone();
        assert(enemies@ =~= self.enemies@);
        let rewards = self.equipment_rewards.clone();
        assert(rewards@ =~= self.equipment_rewards@);
        EncounterDef {
            id: self.id.clone(),
            name: self.name.clone(),
            difficulty: self.difficulty,
            enemies,
            xp_reward: self.xp_reward,
            gold_reward: self.gold_reward,
            recruit: match &self.recruit {
                Some(u) => Some(u.clone()),
                None => None,
            },
            djinn_reward: match &self.djinn_reward {
                Some(d) => Some(d.clone()),
                None => None,
            },
            equipment_rewards: rewards,
        }
    }
}

/// An effect a dialogue choice, quest or puzzle hands back to the game.
#[derive(Debug, PartialEq, Eq)]
pub enum DialogueSideEffect {
    GiveItem(ItemId, ItemCount),
    TakeItem(ItemId, ItemCount),
    GiveGold(Gold),
    TakeGold(Gold),
    SetQuestStage(QuestFlagId, QuestStage),
    UnlockMapNode(MapNodeId),
    AddDjinnToParty(DjinnId),
    StartBattle(EncounterDef),
    Heal,
}

/// Mathematical view of a side effect.
pub ghost enum SideEffectView {
    GiveItem(ItemId, ItemCount),
    TakeItem(ItemId, ItemCount),
    GiveGold(Gold),
    TakeGold(Gold),
    SetQuestStage(QuestFlagId, QuestStage),
    UnlockMapNode(MapNodeId),
    AddDjinnToParty(DjinnId),
    StartBattle(EncounterDefView),
    Heal,
}

impl View for DialogueSideEffect {
    type V = SideEffectView;

    open spec fn view(&self) -> SideEffectView {
        match self {
            DialogueSideEffect::GiveItem(i, c) => SideEffectView::GiveItem(*i, *c),
            DialogueSideEffect::TakeItem(i, c) => SideEffectView::TakeItem(*i, *c),
            DialogueSideEffect::GiveGold(g) => SideEffectView::GiveGold(*g),
            DialogueSideEffect::TakeGold(g) => SideEffectView::TakeGold(*g),
            DialogueSideEffect::SetQuestStage(f, s) => SideEffectView::SetQuestStage(*f, *s),
            DialogueSideEffect::UnlockMapNode(m) => SideEffectView::UnlockMapNode(*m),
            DialogueSideEffect::AddDjinnToParty(d) => SideEffectView::AddDjinnToParty(*d),
            DialogueSideEffect::StartBattle(e) => SideEffectView::StartBattle(e@),
            DialogueSideEffect::Heal => SideEffectView::Heal,
        }
    }
}

impl Clone for DialogueSideEffect {
    fn clone(&self) -> (r: Self)
        ensures
            r@ == self@,
    {
        match self {
            DialogueSideEffect::GiveItem(i, c) => DialogueSideEffect::GiveItem(i.clone(), *c),
            DialogueSideEffect::TakeItem(i, c) => DialogueSideEffect::TakeItem(i.clone(), *c),
            DialogueSideEffect::GiveGold(g) => DialogueSideEffect::GiveGold(*g),
            DialogueSideEffect::TakeGold(g) => DialogueSideEffect::TakeGold(*g),
            DialogueSideEffect::SetQuestStage(f, s) => DialogueSideEffect::SetQuestStage(*f, *s),
            DialogueSideEffect::UnlockMapNode(m) => DialogueSideEffect::UnlockMapNode(*m),
            DialogueSideEffect::AddDjinnToParty(d) => DialogueSideEffect::AddDjinnToParty(d.clone()),
            DialogueSideEffect::StartBattle(e) => DialogueSideEffect::StartBattle(e.clone()),
            DialogueSideEffect::Heal => DialogueSideEffect::Heal,
        }
    }
}

/// Views of a sequence of side effects.
pub open spec fn effect_views(s: Seq<DialogueSideEffect>) -> Seq<SideEffectView> {
    s.map_values(|e: DialogueSideEffect| e@)
}

/// Clone a list of side effects.
pub fn clone_effects(v: &Vec<DialogueSideEffect>) -> (r: Vec<DialogueSideEffect>)
    ensures
        effect_views(r@) == effect_views(v@),
{
    let mut r: Vec<DialogueSideEffect> = Vec::new();
    let mut i: usize = 0;
    while i < v.len()
        invariant
            i <= v.len(),
            r@.len() == i,
            effect_views(r@) == effect_views(v@.take(i as int)),
        decreases v.len() - i,
    {
        let ghost before = r@;
        let c = v[i].clone();
        assert(c@ == v@[i as int]@);
        r.push(c);
        i = i + 1;
        assert(effect_views(r@) =~= effect_views(v@.take(i as int))) by {
            assert forall|k: int| 0 <= k < i implies #[trigger] effect_views(r@)[k] == effect_views(
                v@.take(i as int),
            )[k] by {
                if k < i - 1 {
                    assert(r@[k] == before[k]);
                    assert(effect_views(before)[k] == effect_views(v@.take(i - 1))[k]);
                    assert(v@.take(i - 1)[k] == v@.take(i as int)[k]);
                }
            }
        }
    }
    assert(v@.take(i as int) =~= v@);
    r
}

#[derive(Debug, PartialEq, Eq)]
pub enum PuzzleType {
    PushBlock,
    ElementPillar(Element),
    DjinnPuzzle(DjinnId),
    SwitchSequence,
    IceSlide,
}

impl Clone for PuzzleType {
    fn clone(&self) -> (r: Self)
        ensures
            r == *self,
    {
        match self {
            PuzzleType::PushBlock => PuzzleType::PushBlock,
            PuzzleType::ElementPillar(e) => PuzzleType::ElementPillar(*e),
            PuzzleType::DjinnPuzzle(d) => PuzzleType::DjinnPuzzle(d.clone()),
            PuzzleType::SwitchSequence => PuzzleType::SwitchSequence,
            PuzzleType::IceSlide => PuzzleType::IceSlide,
        }
    }
}

#[derive(Clone, Debug, PartialEq, Eq)]
pub struct PuzzleDef {
    pub puzzle_type: PuzzleType,
    pub reward: Option<DialogueSideEffect>,
}

#[derive(Clone, Copy, Debug, PartialEq, Eq, Hash, Structural)]
pub enum RoomType {
    Normal,
    Treasure,
    Puzzle,
    Boss,
}

#[derive(Clone, Debug, PartialEq, Eq)]
pub struct RoomExit {
    pub direction: Direction,
    pub target_room: RoomId,
    pub requires: Option<DialogueCondition>,
}

/// An item lying in a room.
#[derive(Clone, Debug, PartialEq, Eq)]
pub struct RoomItem {
    pub item_id: ItemId,
    pub visible: bool,
    pub quest_flag: Option<QuestFlagId>,
}

/// An encounter that can be drawn, with its weight and remaining triggers.
#[derive(Clone, Debug, PartialEq, Eq)]
pub struct EncounterSlot {
    pub encounter: EncounterDef,
    pub weight: u8,
    pub max_triggers: Option<u8>,
}

#[derive(Clone, Debug, PartialEq, Eq)]
pub struct RoomDef {
    pub id: RoomId,
    pub room_type: RoomType,
    pub exits: Vec<RoomExit>,
    pub encounters: Vec<EncounterSlot>,
    pub items: Vec<RoomItem>,
    pub puzzles: Vec<PuzzleDef>,
}

#[derive(Clone, Debug, PartialEq, Eq)]
pub struct DungeonDef {
    pub id: DungeonId,
    pub name: String,
    pub rooms: Vec<RoomDef>,
    pub entry_room: RoomId,
    pub boss_room: Option<RoomId>,
}

/// Random-encounter table of a region.
#[derive(Clone, Debug, PartialEq, Eq)]
pub struct EncounterTable {
    pub region_id: u16,
    pub base_rate: EncounterRate,
    pub entries: Vec<EncounterSlot>,
}

#[derive(Clone, Debug, PartialEq, Eq)]
pub struct BossEncounter {
    pub encounter: EncounterDef,
    pub pre_dialogue: Option<DialogueTreeId>,
    pub post_dialogue: Option<DialogueTreeId>,
    pub quest_advance: Option<(QuestFlagId, QuestStage)>,
    pub unlock_on_defeat: Vec<MapNodeId>,
}

// ── Dialogue trees ──────────────────────────────────────────────────

#[derive(Clone, Debug, PartialEq, Eq)]
pub struct DialogueResponse {
    pub text: String,
    pub condition: Option<DialogueCondition>,
    pub next_node: Option<DialogueNodeId>,
    pub side_effects: Vec<DialogueSideEffect>,
}

#[derive(Clone, Debug, PartialEq, Eq)]
pub struct DialogueNode {
    pub id: DialogueNodeId,
    pub speaker: Option<String>,
    pub text: String,
    pub responses: Vec<DialogueResponse>,
}

#[derive(Clone, Debug, PartialEq, Eq)]
pub struct DialogueTree {
    pub id: DialogueTreeId,
    pub root: DialogueNodeId,
    pub nodes: Vec<DialogueNode>,
}

// ── Quests ──────────────────────────────────────────────────────────

#[derive(Clone, Debug, PartialEq, Eq)]
pub struct QuestStageDef {
    pub stage: QuestStage,
    pub description: String,
    pub unlock_condition: Option<DialogueCondition>,
}

#[derive(Clone, Debug, PartialEq, Eq)]
pub struct QuestDef {
    pub id: QuestFlagId,
    pub name: String,
    pub description: String,
    pub stages: Vec<QuestStageDef>,
    pub rewards: Vec<DialogueSideEffect>,
}

/// Stage reached by each quest; quests without an entry are `Unknown`.
#[derive(Clone, Debug, PartialEq, Eq)]
pub struct QuestState {
    pub flags: Vec<(QuestFlagId, QuestStage)>,
}

/// Position of the first entry for `id`.
pub open spec fn flag_pos(flags: Seq<(QuestFlagId, QuestStage)>, id: QuestFlagId) -> Option<int>
    decreases flags.len(),
{
    if flags.len() == 0 {
        None
    } else {
        match flag_pos(flags.drop_last(), id) {
            Some(p) => Some(p),
            None => if flags.last().0 == id { Some(flags.len() - 1) } else { None },
        }
    }
}

/// Stage of quest `id`.
pub open spec fn stage_of(flags: Seq<(QuestFlagId, QuestStage)>, id: QuestFlagId) -> QuestStage {
    match flag_pos(flags, id) {
        Some(p) => flags[p].1,
        None => QuestStage::Unknown,
    }
}

proof fn lemma_flag_pos(flags: Seq<(QuestFlagId, QuestStage)>, id: QuestFlagId)
    ensures
        flag_pos(flags, id) matches Some(p) ==> 0 <= p < flags.len() && flags[p].0 == id,
        flag_pos(flags, id) is None ==> forall|i: int| 0 <= i < flags.len() ==> flags[i].0 != id,
    decreases flags.len(),
{
    if flags.len() > 0 {
        lemma_flag_pos(flags.drop_last(), id);
        if flag_pos(flags, id) is None {
            assert forall|i: int| 0 <= i < flags.len() implies flags[i].0 != id by {
                if i < flags.len() - 1 {
                    assert(flags.drop_last()[i] == flags[i]);
                }
            }
        }
    }
}

proof fn lemma_flag_pos_prefix(flags: Seq<(QuestFlagId, QuestStage)>, id: QuestFlagId, n: int)
    requires
        0 <= n <= flags.len(),
        flag_pos(flags.take(n), id) is Some,
    ensures
        flag_pos(flags, id) == flag_pos(flags.take(n), id),
    decreases flags.len() - n,
{
    if n < flags.len() {
        assert(flags.take(n + 1).drop_last() =~= flags.take(n));
        lemma_flag_pos_prefix(flags, id, n + 1);
    } else {
        assert(flags.take(n) =~= flags);
    }
}

proof fn lemma_flag_pos_update(flags: Seq<(QuestFlagId, QuestStage)>, id: QuestFlagId, p: int, s: QuestStage, other: QuestFlagId)
    requires
        flag_pos(flags, id) == Some(p),
    ensures
        flag_pos(flags.update(p, (id, s)), other) == flag_pos(flags, other),
    decreases flags.len(),
{
    lemma_flag_pos(flags, id);
    let u = flags.update(p, (id, s));
    if p < flags.len() - 1 {
        assert(u.drop_last() =~= flags.drop_last().update(p, (id, s)));
        lemma_flag_pos_update(flags.drop_last(), id, p, s, other);
    } else {
        assert(u.drop_last() =~= flags.drop_last());
    }
}

proof fn lemma_flag_pos_push(flags: Seq<(QuestFlagId, QuestStage)>, id: QuestFlagId, s: QuestStage, other: QuestFlagId)
    requires
        flag_pos(flags, id) is None,
    ensures
        other != id ==> flag_pos(flags.push((id, s)), other) == flag_pos(flags, other),
        flag_pos(flags.push((id, s)), id) == Some(flags.len() as int),
{
    assert(flags.push((id, s)).drop_last() =~= flags);
}

impl QuestState {
    /// Stage of quest `id` in this state.
    pub open spec fn stage(&self, id: QuestFlagId) -> QuestStage {
        stage_of(self.flags@, id)
    }

    fn find(&self, id: QuestFlagId) -> (r: Option<usize>)
        ensures
            r matches Some(i) ==> flag_pos(self.flags@, id) == Some(i as int),
            r is None <==> flag_pos(self.flags@, id) is None,
    {
        let mut i: usize = 0;
        while i < self.flags.len()
            invariant
                i <= self.flags.len(),
                flag_pos(self.flags@.take(i as int), id) is None,
            decreases self.flags.len() - i,
        {
            assert(self.flags@.take(i + 1).drop_last() =~= self.flags@.take(i as int));
            if self.flags[i].0 == id {
                proof {
                    lemma_flag_pos_prefix(self.flags@, id, i + 1);
                }
                return Some(i);
            }
            i = i + 1;
        }
        assert(self.flags@.take(i as int) =~= self.flags@);
        None
    }

    /// Current stage of quest `id` (`Unknown` when never advanced).
    pub fn get(&self, id: QuestFlagId) -> (r: QuestStage)
        ensures
            r == self.stage(id),
    {
        proof {
            lemma_flag_pos(self.flags@, id);
        }
        match self.find(id) {
            Some(i) => self.flags[i].1,
            None => QuestStage::Unknown,
        }
    }

    /// Quest `id` has reached at least `stage`.
    pub fn at_least(&self, id: QuestFlagId, stage: QuestStage) -> (r: bool)
        ensures
            r == (self.stage(id).spec_rank() >= stage.spec_rank()),
    {
        self.get(id).rank() >= stage.rank()
    }

    /// Move quest `id` to stage `to` when that is strictly forward; otherwise nothing changes.
    pub fn advance(&mut self, id: QuestFlagId, to: QuestStage)
        ensures
            forall|q: QuestFlagId| #[trigger] final(self).stage(q) == if q == id && to.spec_rank()
                > old(self).stage(id).spec_rank() {
                to
            } else {
                old(self).stage(q)
            },
            forall|q: QuestFlagId| #[trigger] final(self).stage(q).spec_rank() >= old(self).stage(q).spec_rank(),
            final(self).stage(id).spec_rank() >= to.spec_rank(),
            final(self).stage(id) == advanced(old(self).stage(id), to),
    {
        proof {
            lemma_flag_pos(self.flags@, id);
        }
        let pos = self.find(id);
        let current = match pos {
            Some(i) => self.flags[i].1,
            None => QuestStage::Unknown,
        };
        if to.rank() > current.rank() {
            let ghost before = self.flags@;
            match pos {
                Some(i) => {
                    self.flags.set(i, (id, to));
                    proof {
                        assert forall|q: QuestFlagId| #[trigger] stage_of(self.flags@, q) == if q == id {
                            to
                        } else {
                            stage_of(before, q)
                        } by {
                            lemma_flag_pos_update(before, id, i as int, to, q);
                            lemma_flag_pos(before, q);
                        }
                    }
                },
                None => {
                    self.flags.push((id, to));
                    proof {
                        assert forall|q: QuestFlagId| #[trigger] stage_of(self.flags@, q) == if q == id {
                            to
                        } else {
                            stage_of(before, q)
                        } by {
                            lemma_flag_pos_push(before, id, to, q);
                            lemma_flag_pos(before, q);
                        }
                    }
                },
            }
        }
    }
}

impl Default for QuestState {
    fn default() -> (r: Self)
        ensures
            r.flags@.len() == 0,
            forall|q: QuestFlagId| #[trigger] r.stage(q) == QuestStage::Unknown,
    {
        QuestState { flags: Vec::new() }
    }
}

// ── Screens ─────────────────────────────────────────────────────────

/// Sub-screens of the pause menu.
#[derive(Clone, Copy, Debug, PartialEq, Eq, Hash, Structural)]
pub enum MenuScreen {
    Party,
    Equipment,
    Djinn,
    Items,
    Psynergy,
    Status,
    QuestLog,
}

/// The screen the game is showing.
#[derive(Clone, Copy, Debug, PartialEq, Eq, Hash, Structural)]
pub enum GameScreen {
    Title,
    WorldMap,
    Town(TownId),
    Dungeon(DungeonId),
    Battle,
    Menu(MenuScreen),
    Shop(ShopId),
    Dialogue(NpcId),
    SaveLoad,
    GameOver,
    Victory,
}

impl Default for GameScreen {
    fn default() -> (r: Self)
        ensures
            r == GameScreen::Title,
    {
        GameScreen::Title
    }
}

/// Screens to return to, most recent last.
#[derive(Clone, Debug, PartialEq, Eq)]
pub struct ScreenStack {
    pub stack: Vec<GameScreen>,
}

impl Default for ScreenStack {
    fn default() -> (r: Self)
        ensures
            r.stack@.len() == 0,
    {
        ScreenStack { stack: Vec::new() }
    }
}

/// A request to change screens.
#[derive(Clone, Debug, PartialEq, Eq)]
pub enum ScreenTransition {
    ToTitle,
    ToWorldMap,
    EnterTown(TownId),
    EnterDungeon(DungeonId),
    StartBattle(EncounterDef),
    OpenMenu(MenuScreen),
    OpenShop(ShopId),
    StartDialogue(NpcId),
    OpenSaveLoad,
    TriggerGameOver,
    TriggerVictory,
    ReturnToPrevious,
}

// ── Shops ───────────────────────────────────────────────────────────

/// How many of an item a shop has to sell.
#[derive(Clone, Copy, Debug, PartialEq, Eq)]
pub enum ShopStock {
    Unlimited,
    Limited(ItemCount),
}

#[derive(Clone, Debug, PartialEq, Eq)]
pub struct ShopEntry {
    pub item_id: ItemId,
    pub price: Gold,
    pub stock: ShopStock,
}

#[derive(Clone, Debug, PartialEq, Eq)]
pub struct ShopDef {
    pub id: ShopId,
    pub name: String,
    pub inventory: Vec<ShopEntry>,
}

/// What a shop transaction did, for the caller to apply.
#[derive(Clone, Debug, PartialEq, Eq)]
pub enum ShopEvent {
    Buy { shop: ShopId, item: ItemId, count: ItemCount },
    Sell { item: ItemId, count: ItemCount },
}

// ── Towns ───────────────────────────────────────────────────────────

/// A non-player character standing in a town.
#[derive(Clone, Copy, Debug, PartialEq, Eq)]
pub struct NpcPlacement {
    pub npc_id: NpcId,
    pub facing: Direction,
    pub dialogue_tree: DialogueTreeId,
}

/// A place in a town where a djinn can be found.
#[derive(Clone, Debug, PartialEq, Eq)]
pub struct DjinnDiscoveryPoint {
    pub djinn_id: DjinnId,
    pub requires_puzzle: bool,
    pub quest_flag: Option<QuestFlagId>,
}

#[derive(Clone, Debug, PartialEq, Eq)]
pub struct TownDef {
    pub id: TownId,
    pub name: String,
    pub npcs: Vec<NpcPlacement>,
    pub shops: Vec<ShopId>,
    pub djinn_points: Vec<DjinnDiscoveryPoint>,
    pub exits: Vec<MapNodeId>,
}

// ── Enemies and battle events ───────────────────────────────────────

#[derive(Debug, PartialEq, Eq)]
pub struct EnemyDef {
    pub id: EnemyId,
    pub name: String,
    pub element: Element,
    pub level: Level,
    pub stats: Stats,
    pub xp: Xp,
    pub gold: Gold,
    pub abilities: Vec<AbilityId>,
}

/// `b` holds what `a` holds, field by field.
pub open spec fn same_enemy_def(a: EnemyDef, b: EnemyDef) -> bool {
    &&& b.id == a.id
    &&& b.name@ == a.name@
    &&& b.element == a.element
    &&& b.level == a.level
    &&& b.stats == a.stats
    &&& b.xp == a.xp
    &&& b.gold == a.gold
    &&& b.abilities@ == a.abilities@
}

impl Clone for EnemyDef {
    fn clone(&self) -> (r: Self)
        ensures
            same_enemy_def(*self, r),
    {
        let abilities = self.abilities.clone();
        assert(abilities@ =~= self.abilities@) by {
            assert forall|i: int| 0 <= i < abilities@.len() implies abilities@[i] == self.abilities@[i] by {
                assert(cloned::<AbilityId>(self.abilities@[i], abilities@[i]));
            }
        }
        EnemyDef {
            id: self.id.clone(),
            name: self.name.clone(),
            element: self.element,
            level: self.level,
            stats: self.stats,
            xp: self.xp,
            gold: self.gold,
            abilities,
        }
    }
}

#[derive(Clone, Copy, Debug, PartialEq, Eq)]
pub struct DamageDealt {
    pub source: TargetRef,
    pub target: TargetRef,
    pub amount: u16,
    pub damage_type: DamageType,
    pub is_crit: bool,
}

#[derive(Clone, Copy, Debug, PartialEq, Eq)]
pub struct HealingDone {
    pub source: TargetRef,
    pub target: TargetRef,
    pub amount: u16,
}

#[derive(Clone, Copy, Debug, PartialEq, Eq)]
pub struct StatusApplied {
    pub source: TargetRef,
    pub target: TargetRef,
    pub effect: StatusEffect,
}

#[derive(Clone, Copy, Debug, PartialEq, Eq)]
pub struct ManaPoolChanged {
    pub old_value: u8,
    pub new_value: u8,
}

#[derive(Clone, Copy, Debug, PartialEq, Eq)]
pub struct UnitDefeated {
    pub unit: TargetRef,
}

} // verus!
