//! Enemy AI: picks a battle action for one enemy from the state it can see.
//! Pure decision logic; the battle engine executes what it returns.
use vstd::prelude::*;

use crate::shared::{AbilityCategory, AbilityDef, ActionView, BattleAction, Side, Stats, TargetMode, TargetRef};

verus! {

/// Behaviour personality of an enemy.
#[derive(Debug, Clone, Copy, PartialEq, Eq, Structural)]
pub enum AiStrategy {
    /// Focus the weakest player, use the strongest damaging ability.
    Aggressive,
    /// Heal when low, otherwise buff, otherwise attack.
    Defensive,
    /// Go for kills, use area attacks against large parties, else hit the biggest threat.
    Balanced,
}

/// How to pick a target among the opposing side.
#[derive(Debug, Clone, Copy, PartialEq, Eq, Structural)]
pub enum TargetCriteria {
    LowestHp,
    HighestAtk,
    FirstAlive,
}

/// What the AI sees of one player unit.
#[derive(Debug, Clone)]
pub struct AiUnitView {
    pub index: u8,
    pub stats: Stats,
    pub current_hp: u16,
    pub max_hp: u16,
    pub is_alive: bool,
}

/// What the AI sees of the enemy it decides for.
#[derive(Debug, Clone)]
pub struct AiSelfView {
    pub index: u8,
    pub current_hp: u16,
    pub max_hp: u16,
    pub mana_available: u8,
}

/// An optional position as an index.
pub open spec fn as_index(o: Option<int>) -> Option<usize> {
    match o {
        Some(p) => Some(p as usize),
        None => None,
    }
}

// ── Target selection ────────────────────────────────────────────────

/// `candidate` replaces the current pick `best` under `criteria`.
pub open spec fn replaces(criteria: TargetCriteria, candidate: AiUnitView, best: AiUnitView) -> bool {
    match criteria {
        // first unit of lowest HP wins
        TargetCriteria::LowestHp => candidate.current_hp < best.current_hp,
        // last unit of highest ATK wins
        TargetCriteria::HighestAtk => candidate.stats.atk@ >= best.stats.atk@,
        TargetCriteria::FirstAlive => false,
    }
}

/// Position among the first `n` units of the pick under `criteria`, if any unit is alive.
pub open spec fn target_pos(units: Seq<AiUnitView>, criteria: TargetCriteria, n: nat) -> Option<int>
    decreases n,
{
    if n == 0 {
        None
    } else {
        let prev = target_pos(units, criteria, (n - 1) as nat);
        let u = units[n - 1];
        if !u.is_alive {
            prev
        } else {
            match prev {
                None => Some(n - 1),
                Some(p) => if replaces(criteria, u, units[p]) { Some(n - 1) } else { prev },
            }
        }
    }
}

pub open spec fn spec_choose_target(units: Seq<AiUnitView>, criteria: TargetCriteria) -> Option<TargetRef> {
    match target_pos(units, criteria, units.len()) {
        None => None,
        Some(p) => Some(TargetRef { side: Side::Player, index: units[p].index }),
    }
}

pub open spec fn living_count(units: Seq<AiUnitView>, n: nat) -> nat
    decreases n,
{
    if n == 0 {
        0
    } else {
        living_count(units, (n - 1) as nat) + if units[n - 1].is_alive { 1nat } else { 0nat }
    }
}

proof fn lemma_target_pos(units: Seq<AiUnitView>, criteria: TargetCriteria, n: nat)
    requires
        n <= units.len(),
    ensures
        target_pos(units, criteria, n) is Some <==> living_count(units, n) > 0,
        target_pos(units, criteria, n) matches Some(p) ==> 0 <= p < n && units[p].is_alive,
    decreases n,
{
    if n > 0 {
        lemma_target_pos(units, criteria, (n - 1) as nat);
    }
}

/// Pick a player to target. `None` exactly when no player is alive.
/// LowestHp picks the first living unit of minimum HP, HighestAtk the last
/// living unit of maximum ATK, FirstAlive the first living unit.
pub fn choose_target(units: &[AiUnitView], criteria: TargetCriteria) -> (r: Option<TargetRef>)
    ensures
        r == spec_choose_target(units@, criteria),
        r is None <==> living_count(units@, units@.len()) == 0,
{
    let mut best: Option<usize> = None;
    let mut i: usize = 0;
    while i < units.len()
        invariant
            i <= units.len(),
            best == as_index(target_pos(units@, criteria, i as nat)),
            target_pos(units@, criteria, i as nat) matches Some(p) ==> 0 <= p < i,
        decreases units.len() - i,
    {
        proof {
            lemma_target_pos(units@, criteria, i as nat);
        }
        let u = &units[i];
        if u.is_alive {
            match best {
                None => {
                    best = Some(i);
                },
                Some(b) => {
                    let take = match criteria {
                        TargetCriteria::LowestHp => u.current_hp < units[b].current_hp,
                        TargetCriteria::HighestAtk => u.stats.atk.get() >= units[b].stats.atk.get(),
                        TargetCriteria::FirstAlive => false,
                    };
                    if take {
                        best = Some(i);
                    }
                },
            }
        }
        i = i + 1;
    }
    proof {
        lemma_target_pos(units@, criteria, units@.len());
    }
    match best {
        None => None,
        Some(b) => Some(TargetRef { side: Side::Player, index: units[b].index }),
    }
}

// ── Ability helpers ─────────────────────────────────────────────────

/// Which abilities an ability search considers.
#[derive(Debug, Clone, Copy, PartialEq, Eq, Structural)]
pub enum AbilityFilter {
    Damaging,
    Healing,
    Buff,
    AreaDamaging,
}

pub open spec fn is_damaging(a: AbilityDef) -> bool {
    a.category == AbilityCategory::Physical || a.category == AbilityCategory::Psynergy
}

pub open spec fn fits(a: AbilityDef, filter: AbilityFilter, mana: u8) -> bool {
    &&& a.mana_cost@ <= mana
    &&& match filter {
        AbilityFilter::Damaging => is_damaging(a),
        AbilityFilter::Healing => a.category == AbilityCategory::Healing,
        AbilityFilter::Buff => a.category == AbilityCategory::Buff,
        AbilityFilter::AreaDamaging => is_damaging(a) && a.targets == TargetMode::AllEnemies,
    }
}

/// Position among the first `n` abilities of the last affordable ability of
/// highest base power that passes `filter`.
pub open spec fn strongest_pos(abilities: Seq<&AbilityDef>, filter: AbilityFilter, mana: u8, n: nat) -> Option<int>
    decreases n,
{
    if n == 0 {
        None
    } else {
        let prev = strongest_pos(abilities, filter, mana, (n - 1) as nat);
        let a = *abilities[n - 1];
        if !fits(a, filter, mana) {
            prev
        } else {
            match prev {
                None => Some(n - 1),
                Some(p) => if a.base_power@ >= abilities[p].base_power@ { Some(n - 1) } else { prev },
            }
        }
    }
}

pub open spec fn spec_strongest<'a>(abilities: Seq<&'a AbilityDef>, filter: AbilityFilter, mana: u8) -> Option<&'a AbilityDef> {
    match strongest_pos(abilities, filter, mana, abilities.len()) {
        None => None,
        Some(p) => Some(abilities[p]),
    }
}

proof fn lemma_strongest_pos(abilities: Seq<&AbilityDef>, filter: AbilityFilter, mana: u8, n: nat)
    requires
        n <= abilities.len(),
    ensures
        strongest_pos(abilities, filter, mana, n) matches Some(p) ==> 0 <= p < n,
    decreases n,
{
    if n > 0 {
        lemma_strongest_pos(abilities, filter, mana, (n - 1) as nat);
    }
}

fn fits_filter(a: &AbilityDef, filter: AbilityFilter, mana: u8) -> (r: bool)
    ensures
        r == fits(*a, filter, mana),
{
    let damaging = match a.category {
        AbilityCategory::Physical | AbilityCategory::Psynergy => true,
        _ => false,
    };
    let kind_ok = match filter {
        AbilityFilter::Damaging => damaging,
        AbilityFilter::Healing => match a.category {
            AbilityCategory::Healing => true,
            _ => false,
        },
        AbilityFilter::Buff => match a.category {
            AbilityCategory::Buff => true,
            _ => false,
        },
        AbilityFilter::AreaDamaging => damaging && match a.targets {
            TargetMode::AllEnemies => true,
            _ => false,
        },
    };
    kind_ok && a.mana_cost.get() <= mana
}

fn strongest<'a>(abilities: &'a [&'a AbilityDef], filter: AbilityFilter, mana: u8) -> (r: Option<&'a AbilityDef>)
    ensures
        r == spec_strongest(abilities@, filter, mana),
{
    let mut best: Option<usize> = None;
    let mut i: usize = 0;
    while i < abilities.len()
        invariant
            i <= abilities.len(),
            best == as_index(strongest_pos(abilities@, filter, mana, i as nat)),
        decreases abilities.len() - i,
    {
        proof {
            lemma_strongest_pos(abilities@, filter, mana, i as nat);
        }
        let a: &AbilityDef = abilities[i];
        if fits_filter(a, filter, mana) {
            match best {
                None => {
                    best = Some(i);
                },
                Some(b) => {
                    if a.base_power.get() >= abilities[b].base_power.get() {
                        best = Some(i);
                    }
                },
            }
        }
        i = i + 1;
    }
    proof {
        lemma_strongest_pos(abilities@, filter, mana, abilities@.len());
    }
    match best {
        None => None,
        Some(b) => Some(abilities[b]),
    }
}

/// The affordable damaging ability of highest base power (the last such on ties).
fn best_damaging_ability<'a>(abilities: &'a [&'a AbilityDef], mana_available: u8) -> (r: Option<&'a AbilityDef>)
    ensures
        r == spec_strongest(abilities@, AbilityFilter::Damaging, mana_available),
{
    strongest(abilities, AbilityFilter::Damaging, mana_available)
}

/// The affordable healing ability of highest base power.
fn healing_ability<'a>(abilities: &'a [&'a AbilityDef], mana_available: u8) -> (r: Option<&'a AbilityDef>)
    ensures
        r == spec_strongest(abilities@, AbilityFilter::Healing, mana_available),
{
    strongest(abilities, AbilityFilter::Healing, mana_available)
}

/// The affordable buff ability of highest base power.
fn buff_ability<'a>(abilities: &'a [&'a AbilityDef], mana_available: u8) -> (r: Option<&'a AbilityDef>)
    ensures
        r == spec_strongest(abilities@, AbilityFilter::Buff, mana_available),
{
    strongest(abilities, AbilityFilter::Buff, mana_available)
}

/// The affordable all-enemies damaging ability of highest base power.
fn aoe_damaging_ability<'a>(abilities: &'a [&'a AbilityDef], mana_available: u8) -> (r: Option<&'a AbilityDef>)
    ensures
        r == spec_strongest(abilities@, AbilityFilter::AreaDamaging, mana_available),
{
    strongest(abilities, AbilityFilter::AreaDamaging, mana_available)
}

/// Refs `0..count` of one side.
pub open spec fn refs_upto(side: Side, count: u8) -> Seq<TargetRef> {
    Seq::new(count as nat, |i: int| TargetRef { side, index: i as u8 })
}

/// Targets of `ability` seen from the enemy side, aimed at `single_target`.
pub open spec fn spec_ability_targets(ability: AbilityDef, single_target: TargetRef, alive_count: u8) -> Seq<TargetRef> {
    match ability.targets {
        TargetMode::SingleEnemy => seq![single_target],
        TargetMode::AllEnemies => refs_upto(Side::Player, alive_count),
        TargetMode::SelfOnly | TargetMode::SingleAlly => seq![TargetRef { side: Side::Enemy, index: single_target.index }],
        TargetMode::AllAllies => refs_upto(Side::Enemy, alive_count),
    }
}

fn refs_of(side: Side, count: u8) -> (v: Vec<TargetRef>)
    ensures
        v@ == refs_upto(side, count),
{
    let mut v: Vec<TargetRef> = Vec::new();
    let mut i: u8 = 0;
    while i < count
        invariant
            i <= count,
            v@ == refs_upto(side, i),
        decreases count - i,
    {
        v.push(TargetRef { side, index: i });
        i = i + 1;
        assert(v@ =~= refs_upto(side, i));
    }
    v
}

fn ability_targets(ability: &AbilityDef, single_target: TargetRef, alive_count: u8) -> (v: Vec<TargetRef>)
    ensures
        v@ == spec_ability_targets(*ability, single_target, alive_count),
{
    match ability.targets {
        TargetMode::SingleEnemy => vec![single_target],
        TargetMode::AllEnemies => refs_of(Side::Player, alive_count),
        TargetMode::SelfOnly => vec![TargetRef { side: Side::Enemy, index: single_target.index }],
        TargetMode::SingleAlly => vec![TargetRef { side: Side::Enemy, index: single_target.index }],
        TargetMode::AllAllies => refs_of(Side::Enemy, alive_count),
    }
}

// ── Decision ────────────────────────────────────────────────────────

/// `hp` is below `pct` percent of `max_hp` (a zero maximum counts as 1).
pub open spec fn below_percent(hp: u16, max_hp: u16, pct: int) -> bool {
    hp * 100 < pct * (if max_hp < 1 { 1 } else { max_hp as int })
}

fn is_below_percent(hp: u16, max_hp: u16, pct: u8) -> (r: bool)
    requires
        pct <= 100,
    ensures
        r == below_percent(hp, max_hp, pct as int),
{
    let m: u64 = if max_hp < 1 { 1 } else { max_hp as u64 };
    let p: u64 = pct as u64;
    assert(p * m <= 100 * 65535) by (nonlinear_arith)
        requires
            p <= 100,
            m <= 65535,
    ;
    (hp as u64) * 100 < p * m
}

pub open spec fn use_ability(a: AbilityDef, targets: Seq<TargetRef>) -> ActionView {
    ActionView::UseAbility { ability_id: a.id@, targets }
}

/// Position among the first `n` players of the first living one below 25% HP.
pub open spec fn weak_pos(players: Seq<AiUnitView>, n: nat) -> Option<int>
    decreases n,
{
    if n == 0 {
        None
    } else {
        match weak_pos(players, (n - 1) as nat) {
            Some(p) => Some(p),
            None => {
                let u = players[n - 1];
                if u.is_alive && below_percent(u.current_hp, u.max_hp, 25) {
                    Some(n - 1)
                } else {
                    None
                }
            },
        }
    }
}

pub open spec fn attack(t: Option<TargetRef>) -> ActionView {
    ActionView::Attack { target: t.unwrap() }
}

/// The action the AI takes, given `alive` living players (more than zero).
pub open spec fn spec_strategy_action(
    enemy: AiSelfView,
    players: Seq<AiUnitView>,
    abilities: Seq<&AbilityDef>,
    strategy: AiStrategy,
    alive: u8,
) -> ActionView {
    let mana = enemy.mana_available;
    let self_ref = TargetRef { side: Side::Enemy, index: enemy.index };
    match strategy {
        AiStrategy::Aggressive => {
            let target = spec_choose_target(players, TargetCriteria::LowestHp);
            match spec_strongest(abilities, AbilityFilter::Damaging, mana) {
                Some(a) => use_ability(*a, spec_ability_targets(*a, target.unwrap(), alive)),
                None => attack(target),
            }
        },
        AiStrategy::Defensive => {
            let heal = spec_strongest(abilities, AbilityFilter::Healing, mana);
            let buff = spec_strongest(abilities, AbilityFilter::Buff, mana);
            if below_percent(enemy.current_hp, enemy.max_hp, 30) && heal is Some {
                use_ability(*heal.unwrap(), spec_ability_targets(*heal.unwrap(), self_ref, alive))
            } else if buff is Some {
                use_ability(*buff.unwrap(), spec_ability_targets(*buff.unwrap(), self_ref, alive))
            } else {
                attack(spec_choose_target(players, TargetCriteria::FirstAlive))
            }
        },
        AiStrategy::Balanced => match weak_pos(players, players.len()) {
            Some(p) => {
                let target = TargetRef { side: Side::Player, index: players[p].index };
                match spec_strongest(abilities, AbilityFilter::Damaging, mana) {
                    Some(a) => if a.targets == TargetMode::SingleEnemy {
                        use_ability(*a, seq![target])
                    } else {
                        ActionView::Attack { target }
                    },
                    None => ActionView::Attack { target },
                }
            },
            None => {
                let aoe = spec_strongest(abilities, AbilityFilter::AreaDamaging, mana);
                if alive >= 3 && aoe is Some {
                    use_ability(
                        *aoe.unwrap(),
                        spec_ability_targets(*aoe.unwrap(), TargetRef { side: Side::Player, index: 0 }, alive),
                    )
                } else {
                    attack(spec_choose_target(players, TargetCriteria::HighestAtk))
                }
            },
        },
    }
}

pub open spec fn spec_choose_enemy_action(
    enemy: AiSelfView,
    players: Seq<AiUnitView>,
    abilities: Seq<&AbilityDef>,
    strategy: AiStrategy,
) -> ActionView {
    let alive = living_count(players, players.len()) as u8;
    if alive == 0 {
        ActionView::Attack { target: TargetRef { side: Side::Player, index: 0 } }
    } else {
        spec_strategy_action(enemy, players, abilities, strategy, alive)
    }
}

fn count_alive(units: &[AiUnitView]) -> (c: u8)
    ensures
        c == living_count(units@, units@.len()) as u8,
{
    let mut c: usize = 0;
    let mut i: usize = 0;
    while i < units.len()
        invariant
            i <= units.len(),
            c == living_count(units@, i as nat),
            c <= i,
        decreases units.len() - i,
    {
        if units[i].is_alive {
            c = c + 1;
        }
        i = i + 1;
    }
    c as u8
}

/// Choose a battle action for one enemy. With no living player the enemy
/// attacks player 0; otherwise the strategy decides.
pub fn choose_enemy_action(
    enemy: &AiSelfView,
    player_views: &[AiUnitView],
    abilities: &[&AbilityDef],
    strategy: AiStrategy,
) -> (action: BattleAction)
    ensures
        action@ == spec_choose_enemy_action(*enemy, player_views@, abilities@, strategy),
{
    let alive_count = count_alive(player_views);
    if alive_count == 0 {
        return BattleAction::Attack { target: TargetRef { side: Side::Player, index: 0 } };
    }
    match strategy {
        AiStrategy::Aggressive => choose_aggressive(enemy, player_views, abilities, alive_count),
        AiStrategy::Defensive => choose_defensive(enemy, player_views, abilities, alive_count),
        AiStrategy::Balanced => choose_balanced(enemy, player_views, abilities, alive_count),
    }
}

fn ability_action(a: &AbilityDef, targets: Vec<TargetRef>) -> (action: BattleAction)
    ensures
        action@ == use_ability(*a, targets@),
{
    BattleAction::UseAbility { ability_id: a.id.clone(), targets }
}

fn choose_aggressive(
    enemy: &AiSelfView,
    player_views: &[AiUnitView],
    abilities: &[&AbilityDef],
    alive_count: u8,
) -> (action: BattleAction)
    requires
        alive_count == living_count(player_views@, player_views@.len()) as u8,
        alive_count > 0,
    ensures
        action@ == spec_strategy_action(*enemy, player_views@, abilities@, AiStrategy::Aggressive, alive_count),
{
    let target = choose_target(player_views, TargetCriteria::LowestHp);
    let target = match target {
        Some(t) => t,
        None => {
            // unreachable: some player is alive
            TargetRef { side: Side::Player, index: 0 }
        },
    };
    if let Some(ability) = best_damaging_ability(abilities, enemy.mana_available) {
        let targets = ability_targets(ability, target, alive_count);
        return ability_action(ability, targets);
    }
    BattleAction::Attack { target }
}

fn choose_defensive(
    enemy: &AiSelfView,
    player_views: &[AiUnitView],
    abilities: &[&AbilityDef],
    alive_count: u8,
) -> (action: BattleAction)
    requires
        alive_count == living_count(player_views@, player_views@.len()) as u8,
        alive_count > 0,
    ensures
        action@ == spec_strategy_action(*enemy, player_views@, abilities@, AiStrategy::Defensive, alive_count),
{
    let self_ref = TargetRef { side: Side::Enemy, index: enemy.index };
    if is_below_percent(enemy.current_hp, enemy.max_hp, 30) {
        if let Some(heal) = healing_ability(abilities, enemy.mana_available) {
            let targets = ability_targets(heal, self_ref, alive_count);
            return ability_action(heal, targets);
        }
    }
    if let Some(buff) = buff_ability(abilities, enemy.mana_available) {
        let targets = ability_targets(buff, self_ref, alive_count);
        return ability_action(buff, targets);
    }
    let target = choose_target(player_views, TargetCriteria::FirstAlive);
    match target {
        Some(t) => BattleAction::Attack { target: t },
        None => BattleAction::Attack { target: TargetRef { side: Side::Player, index: 0 } },
    }
}

fn find_weak_player(player_views: &[AiUnitView]) -> (r: Option<usize>)
    ensures
        r == as_index(weak_pos(player_views@, player_views@.len())),
        r matches Some(p) ==> p < player_views@.len(),
{
    let mut i: usize = 0;
    while i < player_views.len()
        invariant
            i <= player_views.len(),
            weak_pos(player_views@, i as nat) is None,
        decreases player_views.len() - i,
    {
        let u = &player_views[i];
        if u.is_alive && is_below_percent(u.current_hp, u.max_hp, 25) {
            proof {
                lemma_weak_pos_stays(player_views@, (i + 1) as nat, player_views@.len());
            }
            return Some(i);
        }
        i = i + 1;
    }
    None
}

proof fn lemma_weak_pos_bounds(players: Seq<AiUnitView>, n: nat)
    ensures
        weak_pos(players, n) matches Some(p) ==> 0 <= p < n,
    decreases n,
{
    if n > 0 {
        lemma_weak_pos_bounds(players, (n - 1) as nat);
    }
}

proof fn lemma_weak_pos_stays(players: Seq<AiUnitView>, n: nat, m: nat)
    requires
        n <= m,
        weak_pos(players, n) is Some,
    ensures
        weak_pos(players, m) == weak_pos(players, n),
    decreases m - n,
{
    if m > n {
        lemma_weak_pos_stays(players, n, (m - 1) as nat);
    }
}

fn choose_balanced(
    enemy: &AiSelfView,
    player_views: &[AiUnitView],
    abilities: &[&AbilityDef],
    alive_count: u8,
) -> (action: BattleAction)
    requires
        alive_count == living_count(player_views@, player_views@.len()) as u8,
        alive_count > 0,
    ensures
        action@ == spec_strategy_action(*enemy, player_views@, abilities@, AiStrategy::Balanced, alive_count),
{
    proof {
        lemma_weak_pos_bounds(player_views@, player_views@.len());
    }
    if let Some(w) = find_weak_player(player_views) {
        let target = TargetRef { side: Side::Player, index: player_views[w].index };
        if let Some(ability) = best_damaging_ability(abilities, enemy.mana_available) {
            let single = match ability.targets {
                TargetMode::SingleEnemy => true,
                _ => false,
            };
            if single {
                let targets = vec![target];
                assert(targets@ =~= seq![target]);
                return ability_action(ability, targets);
            }
        }
        return BattleAction::Attack { target };
    }
    if alive_count >= 3 {
        if let Some(aoe) = aoe_damaging_ability(abilities, enemy.mana_available) {
            let targets = ability_targets(aoe, TargetRef { side: Side::Player, index: 0 }, alive_count);
            return ability_action(aoe, targets);
        }
    }
    let target = choose_target(player_views, TargetCriteria::HighestAtk);
    match target {
        Some(t) => BattleAction::Attack { target: t },
        None => BattleAction::Attack { target: TargetRef { side: Side::Player, index: 0 } },
    }
}

proof fn lemma_living_count_grows(units: Seq<AiUnitView>, m: nat, n: nat)
    requires
        m <= n <= units.len(),
    ensures
        living_count(units, m) <= living_count(units, n),
        living_count(units, n) <= n,
    decreases n,
{
    if n > 0 {
        if m < n {
            lemma_living_count_grows(units, m, (n - 1) as nat);
        } else {
            lemma_living_count_grows(units, (n - 1) as nat, (n - 1) as nat);
        }
    }
}

proof fn lemma_no_weak(players: Seq<AiUnitView>, n: nat)
    requires
        n <= players.len(),
        forall|q: int| 0 <= q < n && (#[trigger] players[q]).is_alive ==> !below_percent(players[q].current_hp, players[q].max_hp, 25),
    ensures
        weak_pos(players, n) is None,
    decreases n,
{
    if n > 0 {
        lemma_no_weak(players, (n - 1) as nat);
    }
}

proof fn lemma_strongest_fits(abilities: Seq<&AbilityDef>, filter: AbilityFilter, mana: u8, n: nat)
    requires
        n <= abilities.len(),
    ensures
        strongest_pos(abilities, filter, mana, n) matches Some(p) ==> 0 <= p < n && fits(*abilities[p], filter, mana),
    decreases n,
{
    if n > 0 {
        lemma_strongest_fits(abilities, filter, mana, (n - 1) as nat);
    }
}

proof fn lemma_strongest_found(abilities: Seq<&AbilityDef>, filter: AbilityFilter, mana: u8, n: nat, k: int)
    requires
        n <= abilities.len(),
        0 <= k < n,
        fits(*abilities[k], filter, mana),
    ensures
        strongest_pos(abilities, filter, mana, n) matches Some(p) && 0 <= p < n && fits(*abilities[p], filter, mana),
    decreases n,
{
    lemma_strongest_fits(abilities, filter, mana, n);
    if k < n - 1 {
        lemma_strongest_found(abilities, filter, mana, (n - 1) as nat, k);
    }
}

/// A balanced enemy facing three or more living players, none of them below
/// a quarter of their HP, uses an area ability whenever it can afford one
/// that deals damage to all players: the ability chosen is such an ability,
/// and it is aimed at at least three players, all on the players' side.
pub proof fn lemma_balanced_uses_area_ability(
    enemy: AiSelfView,
    players: Seq<AiUnitView>,
    abilities: Seq<&AbilityDef>,
    i: int,
    j: int,
    l: int,
    k: int,
)
    requires
        players.len() <= 255,
        0 <= i < j < l < players.len(),
        players[i].is_alive,
        players[j].is_alive,
        players[l].is_alive,
        forall|q: int|
            0 <= q < players.len() && (#[trigger] players[q]).is_alive ==> players[q].current_hp * 100 >= 25 * (
            if players[q].max_hp < 1 {
                1
            } else {
                players[q].max_hp as int
            }),
        0 <= k < abilities.len(),
        abilities[k].mana_cost@ <= enemy.mana_available,
        abilities[k].category == AbilityCategory::Physical || abilities[k].category == AbilityCategory::Psynergy,
        abilities[k].targets == TargetMode::AllEnemies,
    ensures
        spec_choose_enemy_action(enemy, players, abilities, AiStrategy::Balanced) matches ActionView::UseAbility {
            ability_id,
            targets,
        } && targets.len() >= 3 && (forall|t: int| 0 <= t < targets.len() ==> (#[trigger] targets[t]).side == Side::Player)
            && exists|m: int|
            #![trigger abilities[m]]
            {
                &&& 0 <= m < abilities.len()
                &&& abilities[m].id@ == ability_id
                &&& abilities[m].mana_cost@ <= enemy.mana_available
                &&& abilities[m].category == AbilityCategory::Physical || abilities[m].category == AbilityCategory::Psynergy
                &&& abilities[m].targets == TargetMode::AllEnemies
            },
{
    let n = players.len();
    lemma_living_count_grows(players, 0, n);
    lemma_living_count_grows(players, (l + 1) as nat, n);
    lemma_living_count_grows(players, (j + 1) as nat, l as nat);
    lemma_living_count_grows(players, (i + 1) as nat, j as nat);
    lemma_living_count_grows(players, 0, i as nat);
    assert(living_count(players, (l + 1) as nat) == living_count(players, l as nat) + 1);
    assert(living_count(players, (j + 1) as nat) == living_count(players, j as nat) + 1);
    assert(living_count(players, (i + 1) as nat) == living_count(players, i as nat) + 1);
    let alive = living_count(players, n);
    assert(3 <= alive <= 255);
    lemma_no_weak(players, n);
    assert(fits(*abilities[k], AbilityFilter::AreaDamaging, enemy.mana_available));
    lemma_strongest_found(abilities, AbilityFilter::AreaDamaging, enemy.mana_available, abilities.len(), k);
    let p = strongest_pos(abilities, AbilityFilter::AreaDamaging, enemy.mana_available, abilities.len()).unwrap();
    let a = *abilities[p];
    let targets = spec_ability_targets(a, TargetRef { side: Side::Player, index: 0 }, alive as u8);
    assert(targets == refs_upto(Side::Player, alive as u8));
    assert(targets.len() >= 3);
    assert(abilities[p] == abilities[p]);
}

proof fn lemma_first_weak(players: Seq<AiUnitView>, p: int, n: nat)
    requires
        n <= players.len(),
        0 <= p < players.len(),
        players[p].is_alive && below_percent(players[p].current_hp, players[p].max_hp, 25),
        forall|q: int| 0 <= q < p ==> !((#[trigger] players[q]).is_alive && below_percent(players[q].current_hp, players[q].max_hp, 25)),
    ensures
        weak_pos(players, n) == if n > p { Some(p) } else { None::<int> },
    decreases n,
{
    if n > 0 {
        lemma_first_weak(players, p, (n - 1) as nat);
    }
}

/// A balanced enemy goes for the first living player below a quarter of its
/// HP: it attacks that player, or hits that player alone with an affordable
/// damaging ability aimed at a single enemy.
pub proof fn lemma_balanced_finishes_weakest(
    enemy: AiSelfView,
    players: Seq<AiUnitView>,
    abilities: Seq<&AbilityDef>,
    p: int,
)
    requires
        players.len() <= 255,
        0 <= p < players.len(),
        players[p].is_alive,
        players[p].current_hp * 100 < 25 * (if players[p].max_hp < 1 {
            1
        } else {
            players[p].max_hp as int
        }),
        forall|q: int|
            0 <= q < p && (#[trigger] players[q]).is_alive ==> players[q].current_hp * 100 >= 25 * (
            if players[q].max_hp < 1 {
                1
            } else {
                players[q].max_hp as int
            }),
    ensures
        ({
            let target = TargetRef { side: Side::Player, index: players[p].index };
            let action = spec_choose_enemy_action(enemy, players, abilities, AiStrategy::Balanced);
            ||| action == ActionView::Attack { target }
            ||| action matches ActionView::UseAbility { ability_id, targets } && targets == seq![target] && exists|m: int|
                #![trigger abilities[m]]
                {
                    &&& 0 <= m < abilities.len()
                    &&& abilities[m].id@ == ability_id
                    &&& abilities[m].mana_cost@ <= enemy.mana_available
                    &&& abilities[m].category == AbilityCategory::Physical || abilities[m].category == AbilityCategory::Psynergy
                    &&& abilities[m].targets == TargetMode::SingleEnemy
                }
        }),
{
    let n = players.len();
    lemma_first_weak(players, p, n);
    lemma_living_count_grows(players, (p + 1) as nat, n);
    lemma_living_count_grows(players, 0, p as nat);
    assert(living_count(players, (p + 1) as nat) == living_count(players, p as nat) + 1);
    assert(1 <= living_count(players, n) <= 255);
    lemma_strongest_fits(abilities, AbilityFilter::Damaging, enemy.mana_available, abilities.len());
    match strongest_pos(abilities, AbilityFilter::Damaging, enemy.mana_available, abilities.len()) {
        Some(m) => {
            assert(abilities[m] == abilities[m]);
        },
        None => {},
    }
}

} // verus!
