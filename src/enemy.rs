use vstd::prelude::*;

verus! {

/// Sub-tile units per tile: positions and speeds are fixed-point with this scale.
pub const SUBTILES_PER_TILE: u32 = 1000;

/// The slow multiplier of an enemy that is not slowed, in thousandths.
pub const FULL_SPEED: u32 = 1000;

/// The kinds of enemy a wave can hold.
#[derive(Debug, Clone, Copy, PartialEq, Eq, Hash, Structural)]
pub enum EnemyType {
    BasicScout,
    HeavySoldier,
    FastRunner,
    Tank,
    Boss,
}

/// Stats of an enemy spawned in a given wave.
#[derive(Debug, Clone, Copy, PartialEq, Eq, Structural)]
pub struct EnemyStats {
    pub health: u32,
    /// Sub-tiles per second.
    pub speed: u32,
    pub gold_reward: u64,
    pub damage_to_base: u32,
}

/// The slow multiplier after a slow of `multiplier` meets one of `current`: the stronger.
pub open spec fn slowed(current: u32, multiplier: u32) -> u32 {
    if multiplier < current {
        multiplier
    } else {
        current
    }
}

/// `v` clamped to the range of `u32`.
pub open spec fn clamp_u32(v: int) -> u32 {
    if v > u32::MAX { u32::MAX } else { v as u32 }
}

/// `base * (10 + wave) / 10`, clamped to `u32`.
fn scaled_health(wave: u32, base: u64) -> (h: u32)
    requires
        base <= 500,
    ensures
        h == clamp_u32(base * (10 + wave) / 10),
{
    assert(base * (10 + wave as u64) <= 500 * (10 + u32::MAX as u64)) by (nonlinear_arith)
        requires
            base <= 500,
    ;
    let v = base * (10 + wave as u64) / 10;
    if v > u32::MAX as u64 {
        u32::MAX
    } else {
        v as u32
    }
}

impl EnemyType {
    /// Health at wave 0 of the types whose health grows by 10% per wave.
    pub open spec fn base_health(self) -> int {
        match self {
            EnemyType::BasicScout => 50,
            EnemyType::HeavySoldier => 150,
            EnemyType::FastRunner => 40,
            EnemyType::Tank => 500,
            EnemyType::Boss => 2000,
        }
    }

    /// Health in `wave`: `base * (1 + wave / 10)` rounded down, except the boss,
    /// whose health is `2000 + 100 * wave`; clamped to `u32`.
    pub open spec fn health_at(self, wave: int) -> u32 {
        match self {
            EnemyType::Boss => clamp_u32(2000 + clamp_u32(wave * 100)),
            _ => clamp_u32(self.base_health() * (10 + wave) / 10),
        }
    }

    pub open spec fn stats_spec(self, wave: int) -> EnemyStats {
        match self {
            EnemyType::BasicScout => EnemyStats {
                health: self.health_at(wave),
                speed: 1000,
                gold_reward: 10,
                damage_to_base: 1,
            },
            EnemyType::HeavySoldier => EnemyStats {
                health: self.health_at(wave),
                speed: 700,
                gold_reward: 25,
                damage_to_base: 2,
            },
            EnemyType::FastRunner => EnemyStats {
                health: self.health_at(wave),
                speed: 1800,
                gold_reward: 15,
                damage_to_base: 1,
            },
            EnemyType::Tank => EnemyStats {
                health: self.health_at(wave),
                speed: 500,
                gold_reward: 50,
                damage_to_base: 5,
            },
            EnemyType::Boss => EnemyStats {
                health: self.health_at(wave),
                speed: 800,
                gold_reward: 200,
                damage_to_base: 10,
            },
        }
    }

    pub fn base_stats(&self, wave: u32) -> (r: EnemyStats)
        ensures
            r == self.stats_spec(wave as int),
    {
        match self {
            EnemyType::BasicScout => EnemyStats {
                health: scaled_health(wave, 50),
                speed: 1000,
                gold_reward: 10,
                damage_to_base: 1,
            },
            EnemyType::HeavySoldier => EnemyStats {
                health: scaled_health(wave, 150),
                speed: 700,
                gold_reward: 25,
                damage_to_base: 2,
            },
            EnemyType::FastRunner => EnemyStats {
                health: scaled_health(wave, 40),
                speed: 1800,
                gold_reward: 15,
                damage_to_base: 1,
            },
            EnemyType::Tank => EnemyStats {
                health: scaled_health(wave, 500),
                speed: 500,
                gold_reward: 50,
                damage_to_base: 5,
            },
            EnemyType::Boss => EnemyStats {
                health: 2000u32.saturating_add(
                    if wave > u32::MAX / 100 {
                        u32::MAX
                    } else {
                        wave * 100
                    },
                ),
                speed: 800,
                gold_reward: 200,
                damage_to_base: 10,
            },
        }
    }
}

/// An enemy on its way along the waypoint path.
#[derive(Debug, Clone, Copy, PartialEq, Eq)]
pub struct Enemy {
    pub id: u64,
    pub enemy_type: EnemyType,
    /// Position in sub-tiles.
    pub position: (u32, u32),
    /// Index of the next waypoint to reach.
    pub path_index: usize,
    pub health: u32,
    pub max_health: u32,
    /// Sub-tiles per second.
    pub speed: u32,
    pub gold_reward: u64,
    pub damage_to_base: u32,
    /// Factor applied to the speed, in thousandths; lower is slower.
    pub slow_multiplier: u32,
}

impl Enemy {
    /// The slow multiplier lies in (0, 1], in thousandths.
    pub open spec fn wf(self) -> bool {
        0 < self.slow_multiplier <= FULL_SPEED
    }

    pub open spec fn is_alive_spec(self) -> bool {
        self.health > 0
    }

    pub open spec fn effective_speed_spec(self) -> int {
        clamp_u32(self.speed * self.slow_multiplier / FULL_SPEED as int) as int
    }

    /// A fresh enemy of `enemy_type` for wave `wave`, standing on the tile `spawn_pos`.
    pub open spec fn spawn_spec(id: u64, enemy_type: EnemyType, wave: u32, spawn_pos: (u8, u8)) -> Enemy {
        let stats = enemy_type.stats_spec(wave as int);
        Enemy {
            id,
            enemy_type,
            position: (
                (spawn_pos.0 * SUBTILES_PER_TILE) as u32,
                (spawn_pos.1 * SUBTILES_PER_TILE) as u32,
            ),
            path_index: 0,
            health: stats.health,
            max_health: stats.health,
            speed: stats.speed,
            gold_reward: stats.gold_reward,
            damage_to_base: stats.damage_to_base,
            slow_multiplier: FULL_SPEED,
        }
    }

    pub fn new(id: u64, enemy_type: EnemyType, wave: u32, spawn_pos: (u8, u8)) -> (r: Self)
        ensures
            r == Enemy::spawn_spec(id, enemy_type, wave, spawn_pos),
            r.wf(),
            r.id == id,
            r.enemy_type == enemy_type,
            r.position.0 == spawn_pos.0 * SUBTILES_PER_TILE,
            r.position.1 == spawn_pos.1 * SUBTILES_PER_TILE,
            r.path_index == 0,
            r.health == enemy_type.stats_spec(wave as int).health,
            r.max_health == r.health,
            r.speed == enemy_type.stats_spec(wave as int).speed,
            r.gold_reward == enemy_type.stats_spec(wave as int).gold_reward,
            r.damage_to_base == enemy_type.stats_spec(wave as int).damage_to_base,
            r.slow_multiplier == FULL_SPEED,
    {
        let stats = enemy_type.base_stats(wave);
        Enemy {
            id,
            enemy_type,
            position: (spawn_pos.0 as u32 * SUBTILES_PER_TILE, spawn_pos.1 as u32
                * SUBTILES_PER_TILE),
            path_index: 0,
            health: stats.health,
            max_health: stats.health,
            speed: stats.speed,
            gold_reward: stats.gold_reward,
            damage_to_base: stats.damage_to_base,
            slow_multiplier: FULL_SPEED,
        }
    }

    pub fn is_alive(&self) -> (r: bool)
        ensures
            r == self.is_alive_spec(),
    {
        self.health > 0
    }

    /// Speed after the slow multiplier, in sub-tiles per second (rounded down).
    pub fn effective_speed(&self) -> (r: u32)
        ensures
            r == self.effective_speed_spec(),
    {
        assert((self.speed as u64) * (self.slow_multiplier as u64) <= u32::MAX as u64
            * u32::MAX as u64) by (nonlinear_arith);
        let v = (self.speed as u64) * (self.slow_multiplier as u64) / (FULL_SPEED as u64);
        if v > u32::MAX as u64 {
            u32::MAX
        } else {
            v as u32
        }
    }

    /// Lowers the health by `damage`, never below zero; returns whether the enemy died.
    pub fn take_damage(&mut self, damage: u32) -> (killed: bool)
        ensures
            final(self).health == (if old(self).health >= damage {
                old(self).health - damage
            } else {
                0
            }),
            *final(self) == (Enemy { health: final(self).health, ..*old(self) }),
            killed == !final(self).is_alive_spec(),
    {
        self.health = self.health.saturating_sub(damage);
        !self.is_alive()
    }

    /// Keeps the stronger of the current slow and `multiplier` (thousandths).
    pub fn apply_slow(&mut self, multiplier: u32)
        requires
            0 < multiplier,
        ensures
            old(self).wf() ==> final(self).wf(),
            final(self).slow_multiplier == slowed(old(self).slow_multiplier, multiplier),
            *final(self) == (Enemy { slow_multiplier: final(self).slow_multiplier, ..*old(self) }),
    {
        if multiplier < self.slow_multiplier {
            self.slow_multiplier = multiplier;
        }
    }

    pub fn reset_slow(&mut self)
        ensures
            final(self).wf(),
            *final(self) == (Enemy { slow_multiplier: FULL_SPEED, ..*old(self) }),
    {
        self.slow_multiplier = FULL_SPEED;
    }
}

} // verus!
