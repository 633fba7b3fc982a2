use vstd::prelude::*;

verus! {

/// Highest level a tower can be upgraded to.
pub const MAX_TOWER_LEVEL: u8 = 3;

/// The kinds of tower a player can build.
#[derive(Debug, Clone, Copy, PartialEq, Eq, Hash, Structural)]
pub enum TowerType {
    Arrow,
    Cannon,
    Magic,
    Ice,
    Lightning,
}

/// Combat statistics of a tower.
#[derive(Debug, Clone, Copy, PartialEq, Eq, Structural)]
pub struct TowerStats {
    pub damage: u32,
    /// Range in whole tiles.
    pub range: u8,
    /// Minimum time between two shots, in milliseconds.
    pub fire_rate_ms: u64,
}

impl TowerType {
    pub open spec fn cost_spec(self) -> u64 {
        match self {
            TowerType::Arrow => 100,
            TowerType::Cannon => 250,
            TowerType::Magic => 200,
            TowerType::Ice => 150,
            TowerType::Lightning => 300,
        }
    }

    pub open spec fn base_stats_spec(self) -> TowerStats {
        match self {
            TowerType::Arrow => TowerStats { damage: 10, range: 3, fire_rate_ms: 500 },
            TowerType::Cannon => TowerStats { damage: 50, range: 4, fire_rate_ms: 2000 },
            TowerType::Magic => TowerStats { damage: 15, range: 2, fire_rate_ms: 1000 },
            TowerType::Ice => TowerStats { damage: 5, range: 3, fire_rate_ms: 800 },
            TowerType::Lightning => TowerStats { damage: 30, range: 3, fire_rate_ms: 1500 },
        }
    }

    /// Price of reaching `level` from the level below; only levels 2 and 3 have one.
    pub open spec fn upgrade_cost_spec(self, level: int) -> Option<u64> {
        if level == 2 {
            Some(
                match self {
                    TowerType::Arrow => 150u64,
                    TowerType::Cannon => 300u64,
                    TowerType::Magic => 250u64,
                    TowerType::Ice => 200u64,
                    TowerType::Lightning => 400u64,
                },
            )
        } else if level == 3 {
            Some(
                match self {
                    TowerType::Arrow => 250u64,
                    TowerType::Cannon => 500u64,
                    TowerType::Magic => 400u64,
                    TowerType::Ice => 350u64,
                    TowerType::Lightning => 600u64,
                },
            )
        } else {
            None
        }
    }

    /// Purchase price plus every upgrade price for the levels 2 ..= `level`.
    pub open spec fn total_cost_spec(self, level: int) -> int {
        self.cost_spec() + (if level >= 2 {
            self.upgrade_cost_spec(2).unwrap() as int
        } else {
            0
        }) + (if level >= 3 {
            self.upgrade_cost_spec(3).unwrap() as int
        } else {
            0
        })
    }

    /// Gold refunded on sale: 70% of the total investment, rounded down.
    pub open spec fn sell_value_spec(self, level: int) -> int {
        self.total_cost_spec(level) * 7 / 10
    }

    /// The stats of a tower of this type at `level`.
    pub open spec fn stats_at(self, level: int) -> TowerStats {
        self.base_stats_spec().upgraded_spec(level)
    }

    pub fn cost(&self) -> (r: u64)
        ensures
            r == self.cost_spec(),
    {
        match self {
            TowerType::Arrow => 100,
            TowerType::Cannon => 250,
            TowerType::Magic => 200,
            TowerType::Ice => 150,
            TowerType::Lightning => 300,
        }
    }

    pub fn base_stats(&self) -> (r: TowerStats)
        ensures
            r == self.base_stats_spec(),
    {
        match self {
            TowerType::Arrow => TowerStats { damage: 10, range: 3, fire_rate_ms: 500 },
            TowerType::Cannon => TowerStats { damage: 50, range: 4, fire_rate_ms: 2000 },
            TowerType::Magic => TowerStats { damage: 15, range: 2, fire_rate_ms: 1000 },
            TowerType::Ice => TowerStats { damage: 5, range: 3, fire_rate_ms: 800 },
            TowerType::Lightning => TowerStats { damage: 30, range: 3, fire_rate_ms: 1500 },
        }
    }

    pub fn upgrade_cost(&self, level: u8) -> (r: Option<u64>)
        ensures
            r == self.upgrade_cost_spec(level as int),
    {
        match (self, level) {
            (TowerType::Arrow, 2) => Some(150),
            (TowerType::Arrow, 3) => Some(250),
            (TowerType::Cannon, 2) => Some(300),
            (TowerType::Cannon, 3) => Some(500),
            (TowerType::Magic, 2) => Some(250),
            (TowerType::Magic, 3) => Some(400),
            (TowerType::Ice, 2) => Some(200),
            (TowerType::Ice, 3) => Some(350),
            (TowerType::Lightning, 2) => Some(400),
            (TowerType::Lightning, 3) => Some(600),
            _ => None,
        }
    }

    pub fn sell_value(&self, level: u8) -> (r: u64)
        ensures
            r == self.sell_value_spec(level as int),
    {
        let total_cost = crate::economy::calculate_tower_total_cost(*self, level);
        total_cost * 7 / 10
    }
}

impl TowerStats {
    /// Level 2: damage +50%, fire interval x0.9; level 3: damage x2, range +1,
    /// fire interval x0.8; any other level leaves the stats as they are.
    pub open spec fn upgraded_spec(self, level: int) -> TowerStats {
        if level == 2 {
            TowerStats {
                damage: sat_u32(self.damage + self.damage / 2),
                range: self.range,
                fire_rate_ms: (self.fire_rate_ms * 9 / 10) as u64,
            }
        } else if level == 3 {
            TowerStats {
                damage: sat_u32(self.damage * 2),
                range: if self.range == u8::MAX { u8::MAX } else { (self.range + 1) as u8 },
                fire_rate_ms: (self.fire_rate_ms * 8 / 10) as u64,
            }
        } else {
            self
        }
    }

    pub fn upgraded(&self, level: u8) -> (r: Self)
        ensures
            r == self.upgraded_spec(level as int),
    {
        match level {
            2 => TowerStats {
                damage: self.damage.saturating_add(self.damage / 2),
                range: self.range,
                fire_rate_ms: ((self.fire_rate_ms as u128) * 9 / 10) as u64,
            },
            3 => TowerStats {
                damage: if self.damage > u32::MAX / 2 {
                    u32::MAX
                } else {
                    self.damage * 2
                },
                range: self.range.saturating_add(1),
                fire_rate_ms: ((self.fire_rate_ms as u128) * 8 / 10) as u64,
            },
            _ => *self,
        }
    }
}

/// `v` clamped to the range of `u32`.
pub open spec fn sat_u32(v: int) -> u32 {
    if v > u32::MAX { u32::MAX } else { v as u32 }
}

/// A tower placed on the grid.
#[derive(Debug, Clone, Copy, PartialEq, Eq)]
pub struct Tower {
    pub id: u64,
    pub position: (u8, u8),
    pub tower_type: TowerType,
    pub level: u8,
    pub stats: TowerStats,
    pub last_shot_micros: u64,
    pub total_damage_dealt: u64,
}

impl Tower {
    /// The level lies in 1 ..= 3 and the stats are those of the type at that level.
    pub open spec fn wf(self) -> bool {
        1 <= self.level <= MAX_TOWER_LEVEL && self.stats == self.tower_type.stats_at(
            self.level as int,
        )
    }

    pub open spec fn can_fire_spec(self, now: u64) -> bool {
        (if now >= self.last_shot_micros {
            now - self.last_shot_micros
        } else {
            0
        }) >= (if self.stats.fire_rate_ms * 1000 > u64::MAX {
            u64::MAX as int
        } else {
            self.stats.fire_rate_ms * 1000
        })
    }

    pub fn new(id: u64, position: (u8, u8), tower_type: TowerType, current_time_micros: u64) -> (r:
        Self)
        ensures
            r.wf(),
            r.id == id,
            r.position == position,
            r.tower_type == tower_type,
            r.level == 1,
            r.stats == tower_type.base_stats_spec(),
            r.last_shot_micros == current_time_micros,
            r.total_damage_dealt == 0,
    {
        Tower {
            id,
            position,
            tower_type,
            level: 1,
            stats: tower_type.base_stats(),
            last_shot_micros: current_time_micros,
            total_damage_dealt: 0,
        }
    }

    /// Whether the cooldown since the last shot has elapsed at `current_time_micros`.
    pub fn can_fire(&self, current_time_micros: u64) -> (r: bool)
        ensures
            r == self.can_fire_spec(current_time_micros),
    {
        current_time_micros.saturating_sub(self.last_shot_micros)
            >= {
            let cooldown = (self.stats.fire_rate_ms as u128) * 1000;
            if cooldown > u64::MAX as u128 {
                u64::MAX
            } else {
                cooldown as u64
            }
        }
    }

    /// Raises the level by one and recomputes the stats; refused at the highest level.
    pub fn upgrade(&mut self) -> (r: Result<(), &'static str>)
        ensures
            r.is_err() <==> old(self).level >= MAX_TOWER_LEVEL,
            old(self).level >= MAX_TOWER_LEVEL ==> r == Err::<(), &'static str>(
                "Tower already at max level",
            ),
            r.is_err() ==> *final(self) == *old(self),
            r.is_ok() ==> *final(self) == (Tower {
                level: (old(self).level + 1) as u8,
                stats: old(self).tower_type.stats_at(old(self).level + 1),
                ..*old(self)
            }),
    {
        if self.level >= MAX_TOWER_LEVEL {
            return Err("Tower already at max level");
        }
        self.level = self.level + 1;
        self.stats = self.tower_type.base_stats().upgraded(self.level);
        Ok(())
    }

    /// Adds `damage` to the running total, saturating.
    pub fn record_damage(&mut self, damage: u64)
        ensures
            final(self).total_damage_dealt == (if old(self).total_damage_dealt + damage
                > u64::MAX {
                u64::MAX as int
            } else {
                old(self).total_damage_dealt + damage
            }),
            *final(self) == (Tower { total_damage_dealt: final(self).total_damage_dealt, ..*old(self) }),
    {
        self.total_damage_dealt = self.total_damage_dealt.saturating_add(damage);
    }
}

} // verus!
