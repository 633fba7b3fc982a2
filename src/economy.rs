use vstd::prelude::*;

use crate::enemy::EnemyType;
use crate::tower::TowerType;

verus! {

/// Static economy settings.
#[derive(Debug, Clone, Copy, PartialEq, Eq, Structural)]
pub struct EconomyConfig {
    pub starting_gold: u64,
    pub wave_completion_bonus: u64,
    /// Percentage of the total investment returned when a tower is sold.
    pub tower_sell_percent: u64,
}

impl Default for EconomyConfig {
    fn default() -> (r: Self)
        ensures
            r.starting_gold == 500,
            r.wave_completion_bonus == 50,
            r.tower_sell_percent == 70,
    {
        EconomyConfig { starting_gold: 500, wave_completion_bonus: 50, tower_sell_percent: 70 }
    }
}

/// How `recommend_tower` chooses among the towers the player can pay for.
#[derive(Debug, Clone, Copy, PartialEq, Eq, Structural)]
pub enum Strategy {
    Efficiency,
    MaxDamage,
    Cheapest,
}

/// Damage per second per gold spent, as the exact fraction `numerator / denominator`.
#[derive(Debug, Clone, Copy, PartialEq, Eq, Structural)]
pub struct Efficiency {
    pub numerator: u64,
    pub denominator: u64,
}

pub open spec fn base_reward(enemy_type: EnemyType) -> int {
    match enemy_type {
        EnemyType::BasicScout => 10,
        EnemyType::FastRunner => 15,
        EnemyType::HeavySoldier => 25,
        EnemyType::Tank => 50,
        EnemyType::Boss => 200,
    }
}

/// `base_reward * (1 + (wave - 1) / 10)`, rounded down.
pub open spec fn kill_reward_spec(enemy_type: EnemyType, wave: int) -> int {
    base_reward(enemy_type) * (9 + wave) / 10
}

pub open spec fn sat_u64(v: int) -> u64 {
    if v > u64::MAX { u64::MAX } else { v as u64 }
}

/// Gold the player pays for a tower of this type and level.
pub open spec fn tower_total_cost(s: Seq<(TowerType, u8)>) -> int
    decreases s.len(),
{
    if s.len() == 0 {
        0
    } else {
        tower_total_cost(s.drop_last()) + s.last().0.total_cost_spec(s.last().1 as int)
    }
}

/// Fraction of damage per second per gold for a tower type at `level`
/// (zero where the tower costs nothing).
pub open spec fn efficiency_spec(tower_type: TowerType, level: int) -> (int, int) {
    let cost = tower_type.total_cost_spec(level);
    let stats = tower_type.stats_at(level);
    if cost == 0 {
        (0, 1)
    } else {
        (stats.damage * 1000, stats.fire_rate_ms * cost)
    }
}

/// `a` is strictly preferred over `b` under `strategy` (towers judged at level 1).
pub open spec fn preferred(strategy: Strategy, a: TowerType, b: TowerType) -> bool {
    match strategy {
        Strategy::Efficiency => {
            let ea = efficiency_spec(a, 1);
            let eb = efficiency_spec(b, 1);
            ea.0 * eb.1 > eb.0 * ea.1
        },
        Strategy::MaxDamage => a.base_stats_spec().damage > b.base_stats_spec().damage,
        Strategy::Cheapest => a.cost_spec() < b.cost_spec(),
    }
}

/// Gold reward for a kill: 10% more per wave after the first, rounded down.
pub fn calculate_kill_reward(enemy_type: EnemyType, wave_number: u32) -> (r: u64)
    ensures
        r == kill_reward_spec(enemy_type, wave_number as int),
{
    let base_reward: u64 = match enemy_type {
        EnemyType::BasicScout => 10,
        EnemyType::FastRunner => 15,
        EnemyType::HeavySoldier => 25,
        EnemyType::Tank => 50,
        EnemyType::Boss => 200,
    };
    base_reward * (9 + wave_number as u64) / 10
}

/// Purchase price plus the upgrade prices of the levels 2 ..= `level`.
pub fn calculate_tower_total_cost(tower_type: TowerType, level: u8) -> (r: u64)
    ensures
        r == tower_type.total_cost_spec(level as int),
        r <= 1300,
{
    let mut total = tower_type.cost();
    let mut lvl: u16 = 2;
    while lvl <= level as u16
        invariant
            2 <= lvl <= level as u16 + 1 || (lvl == 2 && level < 2),
            total == tower_type.total_cost_spec(lvl - 1),
            total <= 1300,
        decreases level as u16 + 1 - lvl,
    {
        if let Some(upgrade_cost) = tower_type.upgrade_cost(lvl as u8) {
            total = total.saturating_add(upgrade_cost);
        }
        lvl = lvl + 1;
    }
    total
}

/// Refund for selling a tower: the given percentage of its total cost, rounded down.
pub fn calculate_sell_value(tower_type: TowerType, level: u8, config: &EconomyConfig) -> (r: u64)
    ensures
        r == sat_u64(tower_type.total_cost_spec(level as int) * config.tower_sell_percent / 100),
{
    let total_cost = calculate_tower_total_cost(tower_type, level);
    assert((total_cost as u128) * (config.tower_sell_percent as u128) <= 1300 * u64::MAX as int)
        by (nonlinear_arith)
        requires
            total_cost <= 1300,
    ;
    let v = (total_cost as u128) * (config.tower_sell_percent as u128) / 100;
    if v > u64::MAX as u128 {
        u64::MAX
    } else {
        v as u64
    }
}

/// Bonus for completing a wave: the configured base plus 10 gold per wave.
pub fn calculate_wave_bonus(wave_number: u32, config: &EconomyConfig) -> (r: u64)
    ensures
        r == sat_u64(config.wave_completion_bonus + (if wave_number * 10 > u32::MAX {
            u32::MAX as int
        } else {
            wave_number * 10
        })),
{
    let per_wave: u32 = if wave_number > u32::MAX / 10 {
        u32::MAX
    } else {
        wave_number * 10
    };
    config.wave_completion_bonus.saturating_add(per_wave as u64)
}

pub fn can_afford(current_gold: u64, cost: u64) -> (r: bool)
    ensures
        r == (current_gold >= cost),
{
    current_gold >= cost
}

/// Summed total cost of every `(type, level)` pair, saturating.
pub fn calculate_total_tower_value(towers: &[(TowerType, u8)]) -> (r: u64)
    ensures
        r == sat_u64(tower_total_cost(towers@)),
{
    let mut sum: u64 = 0;
    let mut i: usize = 0;
    while i < towers.len()
        invariant
            i <= towers.len(),
            sum == sat_u64(tower_total_cost(towers@.subrange(0, i as int))),
        decreases towers.len() - i,
    {
        let (tower_type, level) = towers[i];
        let cost = calculate_tower_total_cost(tower_type, level);
        proof {
            let s = towers@.subrange(0, i as int + 1);
            assert(s.drop_last() =~= towers@.subrange(0, i as int));
            lemma_total_cost_nonneg(towers@.subrange(0, i as int));
        }
        sum = sum.saturating_add(cost);
        i = i + 1;
    }
    assert(towers@.subrange(0, towers.len() as int) =~= towers@);
    sum
}

proof fn lemma_total_cost_nonneg(s: Seq<(TowerType, u8)>)
    ensures
        tower_total_cost(s) >= 0,
    decreases s.len(),
{
    if s.len() > 0 {
        lemma_total_cost_nonneg(s.drop_last());
    }
}

/// Damage per second per gold spent, as an exact fraction.
pub fn calculate_tower_efficiency(tower_type: TowerType, level: u8) -> (r: Efficiency)
    ensures
        (r.numerator as int, r.denominator as int) == efficiency_spec(tower_type, level as int),
        r.denominator > 0,
{
    let cost = calculate_tower_total_cost(tower_type, level);
    let stats = tower_type.base_stats().upgraded(level);
    if cost == 0 {
        Efficiency { numerator: 0, denominator: 1 }
    } else {
        assert(stats.damage <= 100 && 400 <= stats.fire_rate_ms <= 2000);
        assert(0 < stats.fire_rate_ms * cost <= 2000 * 1300) by (nonlinear_arith)
            requires
                400 <= stats.fire_rate_ms <= 2000,
                0 < cost <= 1300,
        ;
        Efficiency { numerator: stats.damage as u64 * 1000, denominator: stats.fire_rate_ms * cost }
    }
}

proof fn lemma_efficiency_bounds(tower_type: TowerType, level: int)
    ensures
        0 <= efficiency_spec(tower_type, level).0 <= 100000,
        0 < efficiency_spec(tower_type, level).1 <= 2000 * 1300,
{
    let cost = tower_type.total_cost_spec(level);
    let stats = tower_type.stats_at(level);
    assert(0 < stats.fire_rate_ms * cost <= 2000 * 1300) by (nonlinear_arith)
        requires
            400 <= stats.fire_rate_ms <= 2000,
            0 < cost <= 1300,
    ;
}

proof fn lemma_preferred_transitive(strategy: Strategy, a: TowerType, b: TowerType, c: TowerType)
    requires
        preferred(strategy, a, b),
        preferred(strategy, b, c),
    ensures
        preferred(strategy, a, c),
{
    if strategy == Strategy::Efficiency {
        let ea = efficiency_spec(a, 1);
        let eb = efficiency_spec(b, 1);
        let ec = efficiency_spec(c, 1);
        lemma_efficiency_bounds(a, 1);
        lemma_efficiency_bounds(b, 1);
        lemma_efficiency_bounds(c, 1);
        assert(ea.0 * ec.1 > ec.0 * ea.1) by (nonlinear_arith)
            requires
                ea.0 * eb.1 > eb.0 * ea.1,
                eb.0 * ec.1 > ec.0 * eb.1,
                ea.1 > 0,
                eb.1 > 0,
                ec.1 > 0,
                ea.0 >= 0,
                eb.0 >= 0,
                ec.0 >= 0,
        ;
    }
}

/// Whether `a` beats the current choice `b` under `strategy`.
fn prefers(strategy: Strategy, a: TowerType, b: TowerType) -> (r: bool)
    ensures
        r == preferred(strategy, a, b),
{
    match strategy {
        Strategy::Efficiency => {
            let ea = calculate_tower_efficiency(a, 1);
            let eb = calculate_tower_efficiency(b, 1);
            assert(ea.numerator <= 100000 && eb.numerator <= 100000);
            assert(ea.denominator <= 2000 * 1300 && eb.denominator <= 2000 * 1300) by {
                lemma_efficiency_bounds(a, 1);
                lemma_efficiency_bounds(b, 1);
            }
            assert((ea.numerator as u128) * (eb.denominator as u128) <= 100000 * 2600000)
                by (nonlinear_arith)
                requires
                    ea.numerator <= 100000,
                    eb.denominator <= 2000 * 1300,
            ;
            assert((eb.numerator as u128) * (ea.denominator as u128) <= 100000 * 2600000)
                by (nonlinear_arith)
                requires
                    eb.numerator <= 100000,
                    ea.denominator <= 2000 * 1300,
            ;
            (ea.numerator as u128) * (eb.denominator as u128) > (eb.numerator as u128) * (
            ea.denominator as u128)
        },
        Strategy::MaxDamage => a.base_stats().damage > b.base_stats().damage,
        Strategy::Cheapest => a.cost() < b.cost(),
    }
}

/// The choice after weighing `t`: it replaces the current choice when affordable and
/// strictly preferred (or when there is none yet).
pub open spec fn consider(
    best: Option<TowerType>,
    t: TowerType,
    gold: u64,
    strategy: Strategy,
) -> Option<TowerType> {
    if t.cost_spec() <= gold {
        match best {
            None => Some(t),
            Some(b) => if preferred(strategy, t, b) {
                Some(t)
            } else {
                best
            },
        }
    } else {
        best
    }
}

/// The choice after weighing the first `n` of Arrow, Ice, Magic, Cannon, Lightning.
pub open spec fn recommended_after(n: int, gold: u64, strategy: Strategy) -> Option<TowerType> {
    let s1 = consider(None, TowerType::Arrow, gold, strategy);
    let s2 = consider(s1, TowerType::Ice, gold, strategy);
    let s3 = consider(s2, TowerType::Magic, gold, strategy);
    let s4 = consider(s3, TowerType::Cannon, gold, strategy);
    let s5 = consider(s4, TowerType::Lightning, gold, strategy);
    if n <= 0 {
        None
    } else if n == 1 {
        s1
    } else if n == 2 {
        s2
    } else if n == 3 {
        s3
    } else if n == 4 {
        s4
    } else {
        s5
    }
}

/// Chooses among the towers that `current_gold` pays for: the most efficient, the most
/// damaging, or the cheapest, all judged at level 1; on a tie the first of Arrow, Ice,
/// Magic, Cannon, Lightning wins. `None` when no tower is affordable.
pub fn recommend_tower(current_gold: u64, strategy: Strategy) -> (r: Option<TowerType>)
    ensures
        r == recommended_after(5, current_gold, strategy),
        r.is_none() <==> current_gold < 100,
        r.is_none() <==> (forall|t: TowerType| t.cost_spec() > current_gold),
        r matches Some(t) ==> t.cost_spec() <= current_gold && forall|u: TowerType|
            u.cost_spec() <= current_gold ==> !preferred(strategy, u, t),
{
    let candidates = vec![
        TowerType::Arrow,
        TowerType::Ice,
        TowerType::Magic,
        TowerType::Cannon,
        TowerType::Lightning,
    ];
    let mut best: Option<TowerType> = None;
    let mut i: usize = 0;
    while i < candidates.len()
        invariant
            i <= candidates.len(),
            candidates@ == seq![
                TowerType::Arrow,
                TowerType::Ice,
                TowerType::Magic,
                TowerType::Cannon,
                TowerType::Lightning,
            ],
            best matches Some(b) ==> b.cost_spec() <= current_gold,
            best == recommended_after(i as int, current_gold, strategy),
            forall|j: int|
                0 <= j < i && (#[trigger] candidates@[j]).cost_spec() <= current_gold ==> (
                best matches Some(b) && !preferred(strategy, candidates@[j], b)),
        decreases candidates.len() - i,
    {
        let t = candidates[i];
        if can_afford(current_gold, t.cost()) {
            match best {
                None => {
                    best = Some(t);
                },
                Some(b) => {
                    if prefers(strategy, t, b) {
                        proof {
                            assert forall|j: int|
                                0 <= j < i && (#[trigger] candidates@[j]).cost_spec()
                                    <= current_gold implies !preferred(
                                strategy,
                                candidates@[j],
                                t,
                            ) by {
                                if preferred(strategy, candidates@[j], t) {
                                    lemma_preferred_transitive(strategy, candidates@[j], t, b);
                                }
                            }
                        }
                        best = Some(t);
                    }
                },
            }
        }
        i = i + 1;
    }
    proof {
        assert forall|u: TowerType| u.cost_spec() <= current_gold implies (best matches Some(b)
            && !preferred(strategy, u, b)) by {
            match u {
                TowerType::Arrow => assert(candidates@[0] == u),
                TowerType::Ice => assert(candidates@[1] == u),
                TowerType::Magic => assert(candidates@[2] == u),
                TowerType::Cannon => assert(candidates@[3] == u),
                TowerType::Lightning => assert(candidates@[4] == u),
            }
        }
    }
    best
}

} // verus!
