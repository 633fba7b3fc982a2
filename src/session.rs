use vstd::prelude::*;

use crate::combat::{
    apply_tower_effects, calculate_damage, damage_spec, moved_enemy, target_index, target_of,
    update_enemy_position, ICE_SLOW,
};
use crate::economy::sat_u64;
use crate::enemy::Enemy;
use crate::game::{GameStatus, Grid};
use crate::guards::{
    should_timeout, validate_wave_number, validate_wave_timing, MAX_GAME_TICKS,
    MAX_TOWERS_PER_PLAYER, MAX_WAVE_NUMBER, WAVE_START_COOLDOWN_MICROS,
};
use crate::pathfinding::{reachable, would_block_path, Position};
use crate::tower::{Tower, TowerType, MAX_TOWER_LEVEL};
use crate::wave::{generate_wave, spawned, wave_types};

verus! {

/// Why an operation was refused; a refused operation changes nothing.
#[derive(Debug, Clone, Copy, PartialEq, Eq, Structural)]
pub enum GameError {
    TowerLimitReached,
    OutOfBounds,
    OnPath,
    Occupied,
    PathBlocked,
    InsufficientGold,
    TowerLocked,
    TowerNotFound,
    NotOwner,
    MaxLevel,
    GameOver,
    WaveActive,
    WaveLimitReached,
    WaveCooldown,
}

/// What a tick ended with.
#[derive(Debug, Clone, Copy, PartialEq, Eq, Structural)]
pub enum TickOutcome {
    /// The game had already ended; nothing changed.
    Finished,
    /// No wave was running; nothing changed.
    Idle,
    /// The base fell, or the wave ran too long.
    Defeat,
    /// The last wave was cleared.
    Victory,
    /// The wave was cleared and its bonus paid.
    WaveCompleted { bonus: u64 },
    /// Enemies remain; another tick is due.
    Continue,
}

/// The state of one game.
#[derive(Debug)]
pub struct GameSession {
    pub grid: Grid,
    pub status: GameStatus,
    pub wave_number: u32,
    pub wave_active: bool,
    pub base_health: u32,
    pub gold: u64,
    /// Towers in order of placement.
    pub towers: Vec<Tower>,
    /// `tower_owners[i]` owns `towers[i]`.
    pub tower_owners: Vec<u64>,
    /// Enemies in order of id.
    pub enemies: Vec<Enemy>,
    pub unlocked_towers: Vec<TowerType>,
    pub tick_count: u64,
    pub last_wave_start_micros: u64,
    pub next_tower_id: u64,
}

/// Bonus for clearing `wave`: 50 gold plus 10 per wave.
pub open spec fn wave_bonus(wave: u32) -> u64 {
    sat_u64(50 + (if wave * 10 > u32::MAX { u32::MAX as int } else { wave * 10 }))
}

pub open spec fn sub_u32(a: u32, b: u32) -> u32 {
    if a >= b { (a - b) as u32 } else { 0 }
}

/// The movement step of a tick over `es` in order: each enemy moves; one that passed
/// the last waypoint hurts the base and leaves; once the base falls the rest stay as
/// they are. Returns the enemies left, the base health, and whether the base fell.
pub open spec fn move_phase(es: Seq<Enemy>, path: Seq<(u8, u8)>, delta: u64, health: u32) -> (
    Seq<Enemy>,
    u32,
    bool,
)
    decreases es.len(),
{
    if es.len() == 0 {
        (Seq::empty(), health, false)
    } else {
        let (rest, h, fallen) = move_phase(es.drop_last(), path, delta, health);
        if fallen {
            (rest.push(es.last()), h, true)
        } else {
            let m = moved_enemy(es.last(), path, delta);
            if m.path_index >= path.len() {
                let h2 = sub_u32(h, m.damage_to_base);
                (rest, h2, h2 == 0)
            } else {
                (rest.push(m), h, false)
            }
        }
    }
}

/// One tower's turn: if its cooldown is over and it has a target, it shoots it,
/// slowing it first if it is an ice tower; a killed enemy leaves and pays its reward.
pub open spec fn fire_once(t: Tower, es: Seq<Enemy>, gold: u64, now: u64) -> (Tower, Seq<Enemy>, u64) {
    if !t.can_fire_spec(now) {
        (t, es, gold)
    } else {
        match target_of(t, es) {
            None => (t, es, gold),
            Some(k) => {
                let e = es[k];
                let d = damage_spec(t, e);
                let slowed = if t.tower_type == TowerType::Ice && ICE_SLOW < e.slow_multiplier {
                    ICE_SLOW
                } else {
                    e.slow_multiplier
                };
                let health = sub_u32(e.health, d);
                let t2 = Tower {
                    last_shot_micros: now,
                    total_damage_dealt: sat_u64(t.total_damage_dealt + d),
                    ..t
                };
                if health == 0 {
                    (t2, es.remove(k), sat_u64(gold + e.gold_reward))
                } else {
                    (t2, es.update(k, Enemy { health, slow_multiplier: slowed, ..e }), gold)
                }
            },
        }
    }
}

/// The combat step of a tick: every tower in order takes its turn.
pub open spec fn fire_phase(ts: Seq<Tower>, es: Seq<Enemy>, gold: u64, now: u64) -> (
    Seq<Tower>,
    Seq<Enemy>,
    u64,
)
    decreases ts.len(),
{
    if ts.len() == 0 {
        (Seq::empty(), es, gold)
    } else {
        let (done, es2, gold2) = fire_phase(ts.drop_last(), es, gold, now);
        let (t, es3, gold3) = fire_once(ts.last(), es2, gold2, now);
        (done.push(t), es3, gold3)
    }
}

/// Every tower keeps its level and stats invariant, has an id below `next_id`, and ids
/// rise in order of placement (so they are unique).
pub open spec fn towers_ok(ts: Seq<Tower>, next_id: u64) -> bool {
    &&& forall|i: int| 0 <= i < ts.len() ==> (#[trigger] ts[i]).wf() && ts[i].id < next_id
    &&& forall|i: int, j: int| 0 <= i < j < ts.len() ==> (#[trigger] ts[i]).id < (#[trigger] ts[j]).id
}

/// Every enemy keeps its slow invariant and ids rise strictly along the sequence.
pub open spec fn enemies_ok(es: Seq<Enemy>) -> bool {
    &&& forall|i: int| 0 <= i < es.len() ==> (#[trigger] es[i]).wf()
    &&& forall|i: int, j: int| 0 <= i < j < es.len() ==> (#[trigger] es[i]).id < (#[trigger] es[j]).id
}

proof fn lemma_move_phase_keeps(es: Seq<Enemy>, path: Seq<(u8, u8)>, delta: u64, health: u32)
    requires
        enemies_ok(es),
    ensures
        enemies_ok(move_phase(es, path, delta, health).0),
        forall|k: int|
            0 <= k < move_phase(es, path, delta, health).0.len() ==> exists|j: int|
                0 <= j < es.len() && (#[trigger] move_phase(es, path, delta, health).0[k]).id
                    == es[j].id,
    decreases es.len(),
{
    if es.len() > 0 {
        let prev = es.drop_last();
        assert(enemies_ok(prev));
        lemma_move_phase_keeps(prev, path, delta, health);
        let rest = move_phase(prev, path, delta, health).0;
        let r = move_phase(es, path, delta, health).0;
        assert forall|k: int| 0 <= k < rest.len() implies (#[trigger] rest[k]).id < es.last().id by {
            let j = choose|j: int| 0 <= j < prev.len() && rest[k].id == prev[j].id;
            assert(es[j] == prev[j]);
        }
        assert forall|k: int| 0 <= k < r.len() implies exists|j: int|
            0 <= j < es.len() && (#[trigger] r[k]).id == es[j].id by {
            if k < rest.len() {
                assert(r[k] == rest[k]);
                let j = choose|j: int| 0 <= j < prev.len() && rest[k].id == prev[j].id;
                assert(es[j] == prev[j]);
            } else {
                assert(r[k].id == es[es.len() - 1].id);
            }
        }
        assert forall|i: int, j: int| 0 <= i < j < r.len() implies (#[trigger] r[i]).id < (
        #[trigger] r[j]).id by {
            if j < rest.len() {
                assert(r[i] == rest[i] && r[j] == rest[j]);
            } else {
                assert(r[i] == rest[i]);
            }
        }
        assert forall|i: int| 0 <= i < r.len() implies (#[trigger] r[i]).wf() by {
            if i < rest.len() {
                assert(r[i] == rest[i]);
            }
        }
    }
}

/// The tower after its turn differs only in when it last shot and its damage total.
pub open spec fn same_but_shots(a: Tower, b: Tower) -> bool {
    a == Tower { last_shot_micros: a.last_shot_micros, total_damage_dealt: a.total_damage_dealt, ..b }
}

proof fn lemma_fire_once_keeps(t: Tower, es: Seq<Enemy>, gold: u64, now: u64)
    requires
        enemies_ok(es),
    ensures
        enemies_ok(fire_once(t, es, gold, now).1),
        same_but_shots(fire_once(t, es, gold, now).0, t),
{
    let r = fire_once(t, es, gold, now).1;
    if t.can_fire_spec(now) {
        if let Some(k) = target_of(t, es) {
            assert forall|i: int| 0 <= i < r.len() implies (#[trigger] r[i]).wf() by {
                if r.len() == es.len() {
                    if i != k {
                        assert(r[i] == es[i]);
                    }
                } else if i < k {
                    assert(r[i] == es[i]);
                } else {
                    assert(r[i] == es[i + 1]);
                }
            }
            assert forall|i: int, j: int| 0 <= i < j < r.len() implies (#[trigger] r[i]).id < (
            #[trigger] r[j]).id by {
                if r.len() == es.len() {
                    assert(r[i].id == es[i].id && r[j].id == es[j].id);
                } else {
                    let ii = if i < k { i } else { i + 1 };
                    let jj = if j < k { j } else { j + 1 };
                    assert(r[i] == es[ii] && r[j] == es[jj]);
                }
            }
        }
    }
}

proof fn lemma_fire_phase_keeps(ts: Seq<Tower>, es: Seq<Enemy>, gold: u64, now: u64)
    requires
        enemies_ok(es),
    ensures
        enemies_ok(fire_phase(ts, es, gold, now).1),
        fire_phase(ts, es, gold, now).0.len() == ts.len(),
        forall|i: int|
            0 <= i < ts.len() ==> same_but_shots(#[trigger] fire_phase(ts, es, gold, now).0[i], ts[i]),
    decreases ts.len(),
{
    if ts.len() > 0 {
        lemma_fire_phase_keeps(ts.drop_last(), es, gold, now);
        let (done, es2, gold2) = fire_phase(ts.drop_last(), es, gold, now);
        lemma_fire_once_keeps(ts.last(), es2, gold2, now);
        let r = fire_phase(ts, es, gold, now).0;
        assert forall|i: int| 0 <= i < ts.len() implies same_but_shots(#[trigger] r[i], ts[i]) by {
            if i < ts.len() - 1 {
                assert(r[i] == done[i]);
                assert(ts[i] == ts.drop_last()[i]);
            }
        }
    }
}

proof fn lemma_towers_ok_after_shots(old_ts: Seq<Tower>, new_ts: Seq<Tower>, next_id: u64)
    requires
        towers_ok(old_ts, next_id),
        new_ts.len() == old_ts.len(),
        forall|i: int| 0 <= i < old_ts.len() ==> same_but_shots(#[trigger] new_ts[i], old_ts[i]),
    ensures
        towers_ok(new_ts, next_id),
{
    assert forall|i: int| 0 <= i < new_ts.len() implies (#[trigger] new_ts[i]).wf() && new_ts[i].id
        < next_id by {
        assert(same_but_shots(new_ts[i], old_ts[i]));
        assert(old_ts[i].wf());
    }
    assert forall|i: int, j: int| 0 <= i < j < new_ts.len() implies (#[trigger] new_ts[i]).id < (
    #[trigger] new_ts[j]).id by {
        assert(same_but_shots(new_ts[i], old_ts[i]));
        assert(same_but_shots(new_ts[j], old_ts[j]));
        assert(old_ts[i].id < old_ts[j].id);
    }
}

pub open spec fn count_owned(owners: Seq<u64>, owner: u64) -> int
    decreases owners.len(),
{
    if owners.len() == 0 {
        0
    } else {
        count_owned(owners.drop_last(), owner) + if owners.last() == owner {
            1int
        } else {
            0
        }
    }
}

pub open spec fn tower_cells(towers: Seq<Tower>) -> Seq<Position> {
    Seq::new(towers.len(), |i: int| Position { x: towers[i].position.0, y: towers[i].position.1 })
}

pub open spec fn index_of_tower(towers: Seq<Tower>, tower_id: u64) -> Option<int> {
    if exists|i: int| 0 <= i < towers.len() && towers[i].id == tower_id {
        Some(
            choose|i: int|
                0 <= i < towers.len() && towers[i].id == tower_id && forall|j: int|
                    0 <= j < i ==> towers[j].id != tower_id,
        )
    } else {
        None
    }
}

fn contains_cell(cells: &Vec<Position>, cell: Position) -> (r: bool)
    ensures
        r == cells@.contains(cell),
{
    let mut i: usize = 0;
    while i < cells.len()
        invariant
            i <= cells@.len(),
            forall|k: int| 0 <= k < i ==> cells@[k] != cell,
        decreases cells@.len() - i,
    {
        if cells[i] == cell {
            return true;
        }
        i = i + 1;
    }
    false
}

fn find_tower(towers: &Vec<Tower>, tower_id: u64) -> (r: Option<usize>)
    ensures
        r matches Some(i) ==> i < towers@.len() && towers@[i as int].id == tower_id,
        r matches Some(i) ==> index_of_tower(towers@, tower_id) == Some(i as int),
        r.is_none() ==> index_of_tower(towers@, tower_id).is_none(),
{
    let mut i: usize = 0;
    while i < towers.len()
        invariant
            i <= towers@.len(),
            forall|j: int| 0 <= j < i ==> towers@[j].id != tower_id,
        decreases towers@.len() - i,
    {
        if towers[i].id == tower_id {
            proof {
                let c = choose|c: int|
                    0 <= c < towers@.len() && towers@[c].id == tower_id && forall|j: int|
                        0 <= j < c ==> towers@[j].id != tower_id;
                assert(0 <= i < towers@.len() && towers@[i as int].id == tower_id && forall|j: int|
                    0 <= j < i ==> towers@[j].id != tower_id);
                if c < i {
                } else if i < c {
                    assert(towers@[i as int].id != tower_id);
                }
            }
            return Some(i);
        }
        i = i + 1;
    }
    None
}

impl GameSession {
    /// The path stays inside the grid and every tower has its owner.
    pub open spec fn wf(&self) -> bool {
        &&& self.grid.wf()
        &&& self.towers@.len() == self.tower_owners@.len()
        &&& towers_ok(self.towers@, self.next_tower_id)
        &&& enemies_ok(self.enemies@)
    }

    /// Placement refusals, in the order they are checked.
    pub open spec fn placement_error(&self, owner: u64, position: (u8, u8), tower_type: TowerType) -> Option<
        GameError,
    > {
        let cell = Position { x: position.0, y: position.1 };
        if count_owned(self.tower_owners@, owner) >= MAX_TOWERS_PER_PLAYER {
            Some(GameError::TowerLimitReached)
        } else if !(position.0 < self.grid.width && position.1 < self.grid.height) {
            Some(GameError::OutOfBounds)
        } else if self.grid.path@.contains(position) {
            Some(GameError::OnPath)
        } else if tower_cells(self.towers@).contains(cell) {
            Some(GameError::Occupied)
        } else if !reachable(
            Position { x: self.grid.spawn_point.0, y: self.grid.spawn_point.1 },
            Position { x: self.grid.base_point.0, y: self.grid.base_point.1 },
            self.grid.width as int,
            self.grid.height as int,
            tower_cells(self.towers@).push(cell),
        ) {
            Some(GameError::PathBlocked)
        } else if self.gold < tower_type.cost_spec() {
            Some(GameError::InsufficientGold)
        } else if !self.unlocked_towers@.contains(tower_type) {
            Some(GameError::TowerLocked)
        } else {
            None
        }
    }

    /// A game in the lobby on `grid`, with the given purse, base health and tower types.
    pub fn new(grid: Grid, starting_gold: u64, base_health: u32, unlocked_towers: Vec<TowerType>) -> (r:
        Self)
        requires
            grid.wf(),
        ensures
            r.wf(),
            r.grid == grid,
            r.status == GameStatus::Lobby,
            r.wave_number == 0,
            !r.wave_active,
            r.base_health == base_health,
            r.gold == starting_gold,
            r.towers@.len() == 0,
            r.enemies@.len() == 0,
            r.unlocked_towers == unlocked_towers,
            r.tick_count == 0,
            r.last_wave_start_micros == 0,
            r.next_tower_id == 0,
    {
        GameSession {
            grid,
            status: GameStatus::Lobby,
            wave_number: 0,
            wave_active: false,
            base_health,
            gold: starting_gold,
            towers: Vec::new(),
            tower_owners: Vec::new(),
            enemies: Vec::new(),
            unlocked_towers,
            tick_count: 0,
            last_wave_start_micros: 0,
            next_tower_id: 0,
        }
    }

    fn owned_count(&self, owner: u64) -> (r: usize)
        ensures
            r == count_owned(self.tower_owners@, owner),
    {
        let mut n: usize = 0;
        let mut i: usize = 0;
        while i < self.tower_owners.len()
            invariant
                i <= self.tower_owners@.len(),
                n == count_owned(self.tower_owners@.subrange(0, i as int), owner),
                n <= i,
            decreases self.tower_owners@.len() - i,
        {
            assert(self.tower_owners@.subrange(0, i as int + 1).drop_last() =~= self.tower_owners@.subrange(
                0,
                i as int,
            ));
            if self.tower_owners[i] == owner {
                n = n + 1;
            }
            i = i + 1;
        }
        assert(self.tower_owners@.subrange(0, i as int) =~= self.tower_owners@);
        n
    }

    fn occupied_cells(&self) -> (r: Vec<Position>)
        ensures
            r@ == tower_cells(self.towers@),
    {
        let mut cells: Vec<Position> = Vec::new();
        let mut i: usize = 0;
        while i < self.towers.len()
            invariant
                i <= self.towers@.len(),
                cells@ == tower_cells(self.towers@.subrange(0, i as int)),
            decreases self.towers@.len() - i,
        {
            let t = &self.towers[i];
            cells.push(Position::new(t.position.0, t.position.1));
            i = i + 1;
            assert(cells@ =~= tower_cells(self.towers@.subrange(0, i as int)));
        }
        assert(self.towers@.subrange(0, i as int) =~= self.towers@);
        cells
    }

    fn is_unlocked(&self, tower_type: TowerType) -> (r: bool)
        ensures
            r == self.unlocked_towers@.contains(tower_type),
    {
        let mut i: usize = 0;
        while i < self.unlocked_towers.len()
            invariant
                i <= self.unlocked_towers@.len(),
                forall|k: int| 0 <= k < i ==> self.unlocked_towers@[k] != tower_type,
            decreases self.unlocked_towers@.len() - i,
        {
            if self.unlocked_towers[i] == tower_type {
                return true;
            }
            i = i + 1;
        }
        false
    }

    /// Places a tower for `owner` and returns its id, or refuses with the first failed
    /// check of `placement_error`, changing nothing.
    pub fn place_tower(
        &mut self,
        owner: u64,
        position: (u8, u8),
        tower_type: TowerType,
        current_time_micros: u64,
    ) -> (r: Result<u64, GameError>)
        requires
            old(self).wf(),
            old(self).next_tower_id < u64::MAX,
        ensures
            final(self).wf(),
            old(self).placement_error(owner, position, tower_type) matches Some(e) ==> r == Err::<
                u64,
                GameError,
            >(e) && *final(self) == *old(self),
            old(self).placement_error(owner, position, tower_type).is_none() ==> {
                &&& r == Ok::<u64, GameError>(old(self).next_tower_id)
                &&& final(self).gold == old(self).gold - tower_type.cost_spec()
                &&& final(self).towers@ == old(self).towers@.push(
                    Tower {
                        id: old(self).next_tower_id,
                        position,
                        tower_type,
                        level: 1,
                        stats: tower_type.base_stats_spec(),
                        last_shot_micros: current_time_micros,
                        total_damage_dealt: 0,
                    },
                )
                &&& final(self).tower_owners@ == old(self).tower_owners@.push(owner)
                &&& final(self).next_tower_id == old(self).next_tower_id + 1
                &&& *final(self) == (GameSession {
                    gold: final(self).gold,
                    towers: final(self).towers,
                    tower_owners: final(self).tower_owners,
                    next_tower_id: final(self).next_tower_id,
                    ..*old(self)
                })
            },
    {
        if self.owned_count(owner) >= MAX_TOWERS_PER_PLAYER {
            return Err(GameError::TowerLimitReached);
        }
        if !self.grid.is_valid_position(position) {
            return Err(GameError::OutOfBounds);
        }
        if self.grid.is_on_path(position) {
            return Err(GameError::OnPath);
        }
        let cell = Position::new(position.0, position.1);
        let occupied = self.occupied_cells();
        if contains_cell(&occupied, cell) {
            return Err(GameError::Occupied);
        }
        let spawn = Position::new(self.grid.spawn_point.0, self.grid.spawn_point.1);
        let base = Position::new(self.grid.base_point.0, self.grid.base_point.1);
        if would_block_path(cell, spawn, base, self.grid.width, self.grid.height, &occupied) {
            return Err(GameError::PathBlocked);
        }
        let cost = tower_type.cost();
        if self.gold < cost {
            return Err(GameError::InsufficientGold);
        }
        if !self.is_unlocked(tower_type) {
            return Err(GameError::TowerLocked);
        }
        self.gold = self.gold - cost;
        let id = self.next_tower_id;
        self.towers.push(Tower::new(id, position, tower_type, current_time_micros));
        self.tower_owners.push(owner);
        self.next_tower_id = id + 1;
        Ok(id)
    }

    /// Upgrades the tower with `tower_id` for its owner and returns its new level.
    pub fn upgrade_tower(&mut self, owner: u64, tower_id: u64) -> (r: Result<u8, GameError>)
        requires
            old(self).wf(),
        ensures
            final(self).wf(),
            r.is_err() ==> *final(self) == *old(self),
            index_of_tower(old(self).towers@, tower_id).is_none() ==> r == Err::<u8, GameError>(
                GameError::TowerNotFound,
            ),
            index_of_tower(old(self).towers@, tower_id) matches Some(i) ==> {
                let t = old(self).towers@[i];
                let cost = t.tower_type.upgrade_cost_spec(t.level + 1);
                if old(self).tower_owners@[i] != owner {
                    r == Err::<u8, GameError>(GameError::NotOwner)
                } else if t.level >= MAX_TOWER_LEVEL || cost.is_none() {
                    r == Err::<u8, GameError>(GameError::MaxLevel)
                } else if old(self).gold < cost.unwrap() {
                    r == Err::<u8, GameError>(GameError::InsufficientGold)
                } else {
                    &&& r == Ok::<u8, GameError>((t.level + 1) as u8)
                    &&& final(self).gold == old(self).gold - cost.unwrap()
                    &&& final(self).towers@ == old(self).towers@.update(
                        i,
                        Tower {
                            level: (t.level + 1) as u8,
                            stats: t.tower_type.stats_at(t.level + 1),
                            ..t
                        },
                    )
                    &&& *final(self) == (GameSession {
                        gold: final(self).gold,
                        towers: final(self).towers,
                        ..*old(self)
                    })
                }
            },
    {
        let i = match find_tower(&self.towers, tower_id) {
            Some(i) => i,
            None => {
                return Err(GameError::TowerNotFound);
            },
        };
        if self.tower_owners[i] != owner {
            return Err(GameError::NotOwner);
        }
        let mut tower = self.towers[i];
        if tower.level >= MAX_TOWER_LEVEL {
            return Err(GameError::MaxLevel);
        }
        let cost = match tower.tower_type.upgrade_cost(tower.level + 1) {
            Some(c) => c,
            None => {
                return Err(GameError::MaxLevel);
            },
        };
        if self.gold < cost {
            return Err(GameError::InsufficientGold);
        }
        let upgraded = tower.upgrade();
        assert(upgraded.is_ok());
        self.gold = self.gold - cost;
        self.towers.set(i, tower);
        Ok(tower.level)
    }

    /// Sells the tower with `tower_id` for its owner and returns the refund.
    pub fn sell_tower(&mut self, owner: u64, tower_id: u64) -> (r: Result<u64, GameError>)
        requires
            old(self).wf(),
        ensures
            final(self).wf(),
            r.is_err() ==> *final(self) == *old(self),
            index_of_tower(old(self).towers@, tower_id).is_none() ==> r == Err::<u64, GameError>(
                GameError::TowerNotFound,
            ),
            index_of_tower(old(self).towers@, tower_id) matches Some(i) ==> {
                let t = old(self).towers@[i];
                if old(self).tower_owners@[i] != owner {
                    r == Err::<u64, GameError>(GameError::NotOwner)
                } else {
                    let refund = t.tower_type.sell_value_spec(t.level as int);
                    &&& r == Ok::<u64, GameError>(refund as u64)
                    &&& final(self).gold == sat_u64(old(self).gold + refund)
                    &&& final(self).towers@ == old(self).towers@.remove(i)
                    &&& final(self).tower_owners@ == old(self).tower_owners@.remove(i)
                    &&& *final(self) == (GameSession {
                        gold: final(self).gold,
                        towers: final(self).towers,
                        tower_owners: final(self).tower_owners,
                        ..*old(self)
                    })
                }
            },
    {
        let i = match find_tower(&self.towers, tower_id) {
            Some(i) => i,
            None => {
                return Err(GameError::TowerNotFound);
            },
        };
        if self.tower_owners[i] != owner {
            return Err(GameError::NotOwner);
        }
        let tower = self.towers[i];
        let refund = tower.tower_type.sell_value(tower.level);
        self.gold = self.gold.saturating_add(refund);
        self.towers.remove(i);
        self.tower_owners.remove(i);
        Ok(refund)
    }

    /// Starts the next wave at `current_time_micros`: refused once the game is over,
    /// while a wave runs, past the last wave, or within the cooldown of the last start.
    pub fn start_wave(&mut self, current_time_micros: u64) -> (r: Result<u32, GameError>)
        requires
            old(self).wf(),
        ensures
            final(self).wf(),
            r.is_err() ==> *final(self) == *old(self),
            ({
                let next = if old(self).wave_number == u32::MAX {
                    u32::MAX
                } else {
                    (old(self).wave_number + 1) as u32
                };
                if old(self).status == GameStatus::Victory || old(self).status == GameStatus::Defeat {
                    r == Err::<u32, GameError>(GameError::GameOver)
                } else if old(self).wave_active {
                    r == Err::<u32, GameError>(GameError::WaveActive)
                } else if next > MAX_WAVE_NUMBER {
                    r == Err::<u32, GameError>(GameError::WaveLimitReached)
                } else if current_time_micros < old(self).last_wave_start_micros
                    || current_time_micros - old(self).last_wave_start_micros
                    < WAVE_START_COOLDOWN_MICROS {
                    r == Err::<u32, GameError>(GameError::WaveCooldown)
                } else {
                    &&& r == Ok::<u32, GameError>(next)
                    &&& final(self).enemies@ == spawned(wave_types(next), next, old(self).grid.spawn_point)
                    &&& *final(self) == (GameSession {
                        status: GameStatus::Active,
                        wave_number: next,
                        wave_active: true,
                        tick_count: 0,
                        last_wave_start_micros: current_time_micros,
                        enemies: final(self).enemies,
                        ..*old(self)
                    })
                }
            }),
    {
        if self.status == GameStatus::Victory || self.status == GameStatus::Defeat {
            return Err(GameError::GameOver);
        }
        if self.wave_active {
            return Err(GameError::WaveActive);
        }
        let new_wave = self.wave_number.saturating_add(1);
        if validate_wave_number(new_wave).is_err() {
            return Err(GameError::WaveLimitReached);
        }
        if validate_wave_timing(self.last_wave_start_micros, current_time_micros).is_err() {
            return Err(GameError::WaveCooldown);
        }
        self.last_wave_start_micros = current_time_micros;
        self.tick_count = 0;
        self.wave_number = new_wave;
        self.wave_active = true;
        self.status = GameStatus::Active;
        self.enemies = generate_wave(new_wave, self.grid.spawn_point);
        Ok(new_wave)
    }

    /// The movement step: see `move_phase`.
    fn move_enemies(&mut self, delta_time_micros: u64) -> (fallen: bool)
        requires
            old(self).wf(),
        ensures
            final(self).wf(),
            ({
                let (es, h, f) = move_phase(
                    old(self).enemies@,
                    old(self).grid.path@,
                    delta_time_micros,
                    old(self).base_health,
                );
                &&& final(self).enemies@ == es
                &&& fallen == f
                &&& *final(self) == (GameSession {
                    enemies: final(self).enemies,
                    base_health: h,
                    ..*old(self)
                })
            }),
    {
        let mut kept: Vec<Enemy> = Vec::new();
        let mut fallen = false;
        let mut i: usize = 0;
        let ghost es = self.enemies@;
        while i < self.enemies.len()
            invariant
                self.wf(),
                i <= self.enemies@.len(),
                self.enemies@ == es,
                es == old(self).enemies@,
                *self == (GameSession { base_health: self.base_health, ..*old(self) }),
                (kept@, self.base_health, fallen) == move_phase(
                    es.subrange(0, i as int),
                    self.grid.path@,
                    delta_time_micros,
                    old(self).base_health,
                ),
            decreases self.enemies@.len() - i,
        {
            assert(es.subrange(0, i as int + 1).drop_last() =~= es.subrange(0, i as int));
            let mut enemy = self.enemies[i];
            if fallen {
                kept.push(enemy);
            } else {
                update_enemy_position(&mut enemy, self.grid.path.as_slice(), delta_time_micros);
                if enemy.path_index >= self.grid.path.len() {
                    self.base_health = self.base_health.saturating_sub(enemy.damage_to_base);
                    fallen = self.base_health == 0;
                } else {
                    kept.push(enemy);
                }
            }
            i = i + 1;
        }
        assert(es.subrange(0, i as int) =~= es);
        proof {
            lemma_move_phase_keeps(es, self.grid.path@, delta_time_micros, old(self).base_health);
        }
        self.enemies = kept;
        fallen
    }

    /// The combat step: see `fire_phase`.
    fn fire_towers(&mut self, current_time_micros: u64)
        requires
            old(self).wf(),
        ensures
            final(self).wf(),
            ({
                let (ts, es, gold) = fire_phase(
                    old(self).towers@,
                    old(self).enemies@,
                    old(self).gold,
                    current_time_micros,
                );
                &&& final(self).towers@ == ts
                &&& final(self).enemies@ == es
                &&& *final(self) == (GameSession {
                    towers: final(self).towers,
                    enemies: final(self).enemies,
                    gold,
                    ..*old(self)
                })
            }),
    {
        let mut i: usize = 0;
        let ghost ts0 = self.towers@;
        while i < self.towers.len()
            invariant
                i <= self.towers@.len(),
                self.towers@.len() == ts0.len(),
                ts0 == old(self).towers@,
                self.tower_owners@.len() == ts0.len(),
                forall|k: int| i <= k < ts0.len() ==> self.towers@[k] == ts0[k],
                ({
                    let (done, es, gold) = fire_phase(
                        ts0.subrange(0, i as int),
                        old(self).enemies@,
                        old(self).gold,
                        current_time_micros,
                    );
                    &&& self.towers@.subrange(0, i as int) == done
                    &&& self.enemies@ == es
                    &&& self.gold == gold
                }),
                *self == (GameSession {
                    towers: self.towers,
                    enemies: self.enemies,
                    gold: self.gold,
                    ..*old(self)
                }),
            decreases ts0.len() - i,
        {
            let ghost before = self.towers@;
            assert(ts0.subrange(0, i as int + 1).drop_last() =~= ts0.subrange(0, i as int));
            let mut tower = self.towers[i];
            if tower.can_fire(current_time_micros) {
                if let Some(k) = target_index(&tower, self.enemies.as_slice()) {
                    tower.last_shot_micros = current_time_micros;
                    let mut target = self.enemies[k];
                    let damage = calculate_damage(&tower, &target);
                    apply_tower_effects(&tower, &mut target);
                    let killed = target.take_damage(damage);
                    if killed {
                        self.gold = self.gold.saturating_add(target.gold_reward);
                        self.enemies.remove(k);
                    } else {
                        self.enemies.set(k, target);
                    }
                    tower.record_damage(damage as u64);
                    self.towers.set(i, tower);
                }
            }
            assert(self.towers@.subrange(0, i as int + 1) =~= before.subrange(0, i as int).push(
                self.towers@[i as int],
            ));
            i = i + 1;
        }
        assert(ts0.subrange(0, i as int) =~= ts0);
        assert(self.towers@.subrange(0, i as int) =~= self.towers@);
        proof {
            lemma_fire_phase_keeps(ts0, old(self).enemies@, old(self).gold, current_time_micros);
            lemma_towers_ok_after_shots(ts0, self.towers@, self.next_tower_id);
        }
    }

    /// One step of the running wave, `delta_time_micros` after the last at
    /// `current_time_micros`. In order: a finished game or an idle one is left alone;
    /// a wave that ran too long is lost; the tick counter advances; enemies move (the
    /// base may fall); towers fire; a cleared wave ends the game after the last wave
    /// and pays its bonus otherwise.
    pub fn tick(&mut self, delta_time_micros: u64, current_time_micros: u64) -> (r: TickOutcome)
        requires
            old(self).wf(),
        ensures
            final(self).wf(),
            old(self).status == GameStatus::Victory || old(self).status == GameStatus::Defeat ==> r
                == TickOutcome::Finished && *final(self) == *old(self),
            !(old(self).status == GameStatus::Victory || old(self).status == GameStatus::Defeat)
                && !old(self).wave_active ==> r == TickOutcome::Idle && *final(self) == *old(self),
            !(old(self).status == GameStatus::Victory || old(self).status == GameStatus::Defeat)
                && old(self).wave_active && old(self).tick_count >= MAX_GAME_TICKS ==> r
                == TickOutcome::Defeat && *final(self) == (GameSession {
                status: GameStatus::Defeat,
                ..*old(self)
            }),
            !(old(self).status == GameStatus::Victory || old(self).status == GameStatus::Defeat)
                && old(self).wave_active && old(self).tick_count < MAX_GAME_TICKS ==> {
                let ticked = (old(self).tick_count + 1) as u64;
                let (moved, health, fallen) = move_phase(
                    old(self).enemies@,
                    old(self).grid.path@,
                    delta_time_micros,
                    old(self).base_health,
                );
                let (ts, es, gold) = fire_phase(
                    old(self).towers@,
                    moved,
                    old(self).gold,
                    current_time_micros,
                );
                if old(self).base_health == 0 {
                    r == TickOutcome::Finished && *final(self) == (GameSession {
                        tick_count: ticked,
                        ..*old(self)
                    })
                } else if fallen {
                    &&& r == TickOutcome::Defeat
                    &&& final(self).enemies@ == moved
                    &&& *final(self) == (GameSession {
                        tick_count: ticked,
                        base_health: health,
                        status: GameStatus::Defeat,
                        enemies: final(self).enemies,
                        ..*old(self)
                    })
                } else {
                    &&& final(self).towers@ == ts
                    &&& final(self).enemies@ == es
                    &&& final(self).base_health == health
                    &&& final(self).tick_count == ticked
                    &&& (es.len() == 0 && old(self).wave_number >= MAX_WAVE_NUMBER) ==> r
                        == TickOutcome::Victory && final(self).status == GameStatus::Victory
                        && final(self).gold == gold && final(self).wave_active
                    &&& (es.len() == 0 && old(self).wave_number < MAX_WAVE_NUMBER) ==> r
                        == (TickOutcome::WaveCompleted { bonus: wave_bonus(old(self).wave_number) })
                        && final(self).status == old(self).status && final(self).gold == sat_u64(
                        gold + wave_bonus(old(self).wave_number),
                    ) && !final(self).wave_active
                    &&& es.len() > 0 ==> r == TickOutcome::Continue && final(self).status == old(
                        self,
                    ).status && final(self).gold == gold && final(self).wave_active
                    &&& *final(self) == (GameSession {
                        towers: final(self).towers,
                        enemies: final(self).enemies,
                        base_health: final(self).base_health,
                        tick_count: final(self).tick_count,
                        status: final(self).status,
                        gold: final(self).gold,
                        wave_active: final(self).wave_active,
                        ..*old(self)
                    })
                }
            },
    {
        if self.status == GameStatus::Victory || self.status == GameStatus::Defeat {
            return TickOutcome::Finished;
        }
        if !self.wave_active {
            return TickOutcome::Idle;
        }
        if should_timeout(self.tick_count) {
            self.status = GameStatus::Defeat;
            return TickOutcome::Defeat;
        }
        self.tick_count = self.tick_count + 1;
        if self.base_health == 0 {
            return TickOutcome::Finished;
        }
        if self.move_enemies(delta_time_micros) {
            self.status = GameStatus::Defeat;
            return TickOutcome::Defeat;
        }
        self.fire_towers(current_time_micros);
        if self.enemies.len() == 0 {
            if self.wave_number >= MAX_WAVE_NUMBER {
                self.status = GameStatus::Victory;
                return TickOutcome::Victory;
            }
            let bonus = self.complete_wave();
            return TickOutcome::WaveCompleted { bonus };
        }
        TickOutcome::Continue
    }

    /// Ends the current wave and pays its bonus.
    fn complete_wave(&mut self) -> (bonus: u64)
        ensures
            bonus == wave_bonus(old(self).wave_number),
            *final(self) == (GameSession {
                wave_active: false,
                gold: sat_u64(old(self).gold + bonus),
                ..*old(self)
            }),
    {
        self.wave_active = false;
        let per_wave: u32 = if self.wave_number > u32::MAX / 10 {
            u32::MAX
        } else {
            self.wave_number * 10
        };
        let bonus = 50u64.saturating_add(per_wave as u64);
        self.gold = self.gold.saturating_add(bonus);
        bonus
    }
}

} // verus!
