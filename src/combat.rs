use vstd::prelude::*;

use crate::enemy::{Enemy, EnemyType, FULL_SPEED, SUBTILES_PER_TILE};
use crate::tower::{Tower, TowerType};

verus! {

/// Slow multiplier an ice tower applies, in thousandths.
pub const ICE_SLOW: u32 = 700;

/// The point at sub-tile coordinates `pos` lies within `radius` sub-tiles of `center`.
pub open spec fn within(pos: (u32, u32), center: (int, int), radius: int) -> bool {
    let dx = pos.0 - center.0;
    let dy = pos.1 - center.1;
    dx * dx + dy * dy <= radius * radius
}

impl Tower {
    /// Centre of the tower's tile, in sub-tiles.
    pub open spec fn center(self) -> (int, int) {
        (self.position.0 * SUBTILES_PER_TILE, self.position.1 * SUBTILES_PER_TILE)
    }

    /// The point lies within the tower's range (Euclidean distance).
    pub open spec fn in_range_spec(self, pos: (u32, u32)) -> bool {
        within(pos, self.center(), self.stats.range * SUBTILES_PER_TILE)
    }

    /// Whether the point `pos` (sub-tiles) lies within the tower's range.
    pub fn in_range(&self, pos: (u32, u32)) -> (r: bool)
        ensures
            r == self.in_range_spec(pos),
    {
        let cx = self.position.0 as u32 * SUBTILES_PER_TILE;
        let cy = self.position.1 as u32 * SUBTILES_PER_TILE;
        is_within(pos, (cx, cy), self.stats.range as u32 * SUBTILES_PER_TILE)
    }
}

fn is_within(pos: (u32, u32), center: (u32, u32), radius: u32) -> (r: bool)
    ensures
        r == within(pos, (center.0 as int, center.1 as int), radius as int),
{
    let dx: u64 = if pos.0 >= center.0 {
        (pos.0 - center.0) as u64
    } else {
        (center.0 - pos.0) as u64
    };
    let dy: u64 = if pos.1 >= center.1 {
        (pos.1 - center.1) as u64
    } else {
        (center.1 - pos.1) as u64
    };
    assert(dx * dx <= u32::MAX as u64 * u32::MAX as u64) by (nonlinear_arith)
        requires
            dx <= u32::MAX,
    ;
    assert(dy * dy <= u32::MAX as u64 * u32::MAX as u64) by (nonlinear_arith)
        requires
            dy <= u32::MAX,
    ;
    assert(radius as u64 * radius as u64 <= u32::MAX as u64 * u32::MAX as u64)
        by (nonlinear_arith);
    let d2 = (dx * dx) as u128 + (dy * dy) as u128;
    proof {
        let ex = pos.0 - center.0;
        let ey = pos.1 - center.1;
        assert(ex * ex == dx * dx) by (nonlinear_arith)
            requires
                dx == ex || dx == -ex,
        ;
        assert(ey * ey == dy * dy) by (nonlinear_arith)
            requires
                dy == ey || dy == -ey,
        ;
    }
    d2 <= (radius as u64 * radius as u64) as u128
}

/// A live enemy within the tower's range.
pub open spec fn targetable(tower: Tower, e: Enemy) -> bool {
    e.is_alive_spec() && tower.in_range_spec(e.position)
}

/// `a` is a better target than `b`: further along the path, or as far and a lower id.
pub open spec fn ahead(a: Enemy, b: Enemy) -> bool {
    a.path_index > b.path_index || (a.path_index == b.path_index && a.id < b.id)
}

/// Index of the target in `enemies`: the first targetable enemy that no targetable
/// enemy is ahead of.
pub open spec fn is_target_index(tower: Tower, enemies: Seq<Enemy>, k: int) -> bool {
    &&& 0 <= k < enemies.len()
    &&& targetable(tower, enemies[k])
    &&& forall|j: int|
        0 <= j < enemies.len() && targetable(tower, #[trigger] enemies[j]) ==> !ahead(
            enemies[j],
            enemies[k],
        )
    &&& forall|j: int|
        0 <= j < k && targetable(tower, #[trigger] enemies[j]) ==> ahead(enemies[k], enemies[j])
}

/// At most one index is the target.
pub proof fn lemma_target_unique(tower: Tower, enemies: Seq<Enemy>, k1: int, k2: int)
    requires
        is_target_index(tower, enemies, k1),
        is_target_index(tower, enemies, k2),
    ensures
        k1 == k2,
{
    if k1 < k2 {
        assert(targetable(tower, enemies[k1]));
    } else if k2 < k1 {
        assert(targetable(tower, enemies[k2]));
    }
}

/// Index of the tower's target in `enemies`, if any enemy is targetable.
pub open spec fn target_of(tower: Tower, enemies: Seq<Enemy>) -> Option<int> {
    if exists|k: int| is_target_index(tower, enemies, k) {
        Some(choose|k: int| is_target_index(tower, enemies, k))
    } else {
        None
    }
}

pub(crate) fn target_index(tower: &Tower, enemies: &[Enemy]) -> (r: Option<usize>)
    ensures
        r matches Some(k) ==> is_target_index(*tower, enemies@, k as int),
        r matches Some(k) ==> target_of(*tower, enemies@) == Some(k as int),
        r.is_none() ==> target_of(*tower, enemies@).is_none(),
        r.is_none() <==> forall|j: int|
            0 <= j < enemies@.len() ==> !targetable(*tower, #[trigger] enemies@[j]),
{
    let mut best: Option<usize> = None;
    let mut i: usize = 0;
    while i < enemies.len()
        invariant
            i <= enemies@.len(),
            best matches Some(k) ==> k < i && targetable(*tower, enemies@[k as int]) && (forall|
                j: int,
            |
                0 <= j < i && targetable(*tower, #[trigger] enemies@[j]) ==> !ahead(
                    enemies@[j],
                    enemies@[k as int],
                )) && (forall|j: int|
                0 <= j < k && targetable(*tower, #[trigger] enemies@[j]) ==> ahead(
                    enemies@[k as int],
                    enemies@[j],
                )),
            best.is_none() ==> forall|j: int|
                0 <= j < i ==> !targetable(*tower, #[trigger] enemies@[j]),
        decreases enemies@.len() - i,
    {
        let e = &enemies[i];
        if e.is_alive() && tower.in_range(e.position) {
            match best {
                None => {
                    best = Some(i);
                },
                Some(k) => {
                    let b = &enemies[k];
                    if e.path_index > b.path_index || (e.path_index == b.path_index && e.id
                        < b.id) {
                        best = Some(i);
                    }
                },
            }
        }
        i = i + 1;
    }
    proof {
        match best {
            Some(k) => {
                assert(is_target_index(*tower, enemies@, k as int));
                let c = choose|c: int| is_target_index(*tower, enemies@, c);
                lemma_target_unique(*tower, enemies@, k as int, c);
            },
            None => {
                if exists|c: int| is_target_index(*tower, enemies@, c) {
                    let c = choose|c: int| is_target_index(*tower, enemies@, c);
                    assert(targetable(*tower, enemies@[c]));
                }
            },
        }
    }
    best
}

/// The enemy the tower shoots at: among live enemies in range, the one furthest along
/// the path; on a tie the lowest id, then the first in the slice.
pub fn find_target<'a>(tower: &Tower, enemies: &'a [Enemy]) -> (r: Option<&'a Enemy>)
    ensures
        r.is_none() <==> forall|j: int|
            0 <= j < enemies@.len() ==> !targetable(*tower, #[trigger] enemies@[j]),
        r matches Some(e) ==> exists|k: int|
            is_target_index(*tower, enemies@, k) && enemies@[k] == *e,
{
    match target_index(tower, enemies) {
        Some(k) => Some(&enemies[k]),
        None => None,
    }
}

/// The key of the enemy the tower shoots at, chosen as `find_target` chooses, with the
/// keys in place of the enemies' own ids.
pub fn find_target_id(tower: &Tower, enemies: &[(u64, Enemy)]) -> (r: Option<u64>)
    ensures
        r.is_none() <==> forall|j: int|
            0 <= j < enemies@.len() ==> !targetable(*tower, (#[trigger] enemies@[j]).1),
        r matches Some(id) ==> exists|k: int|
            is_target_index(*tower, keyed(enemies@), k) && enemies@[k].0 == id,
{
    let mut keyed_enemies: Vec<Enemy> = Vec::new();
    let mut i: usize = 0;
    while i < enemies.len()
        invariant
            i <= enemies@.len(),
            keyed_enemies@ == keyed(enemies@.subrange(0, i as int)),
        decreases enemies@.len() - i,
    {
        let (id, e) = enemies[i];
        keyed_enemies.push(Enemy { id, ..e });
        i = i + 1;
        assert(keyed_enemies@ =~= keyed(enemies@.subrange(0, i as int)));
    }
    assert(enemies@.subrange(0, i as int) =~= enemies@);
    match target_index(tower, keyed_enemies.as_slice()) {
        Some(k) => {
            assert(keyed_enemies@[k as int].id == enemies@[k as int].0);
            Some(enemies[k].0)
        },
        None => {
            assert forall|j: int| 0 <= j < enemies@.len() implies !targetable(
                *tower,
                (#[trigger] enemies@[j]).1,
            ) by {
                assert(keyed_enemies@[j] == Enemy { id: enemies@[j].0, ..enemies@[j].1 });
            }
            None
        },
    }
}

/// The enemies with each id replaced by its key.
pub open spec fn keyed(s: Seq<(u64, Enemy)>) -> Seq<Enemy> {
    Seq::new(s.len(), |i: int| Enemy { id: s[i].0, ..s[i].1 })
}

pub open spec fn damage_spec(tower: Tower, enemy: Enemy) -> u32 {
    if tower.tower_type == TowerType::Magic && enemy.enemy_type == EnemyType::Tank {
        if tower.stats.damage * 2 > u32::MAX {
            u32::MAX
        } else {
            (tower.stats.damage * 2) as u32
        }
    } else {
        tower.stats.damage
    }
}

/// The tower's damage; magic towers deal double damage to tanks.
pub fn calculate_damage(tower: &Tower, enemy: &Enemy) -> (r: u32)
    ensures
        r == damage_spec(*tower, *enemy),
{
    let damage = tower.stats.damage;
    match tower.tower_type {
        TowerType::Magic => {
            if enemy.enemy_type == EnemyType::Tank {
                if damage > u32::MAX / 2 {
                    u32::MAX
                } else {
                    damage * 2
                }
            } else {
                damage
            }
        },
        _ => damage,
    }
}

/// Ice towers slow the enemy to at most `ICE_SLOW`; other towers have no effect.
pub fn apply_tower_effects(tower: &Tower, enemy: &mut Enemy)
    ensures
        tower.tower_type == TowerType::Ice ==> *final(enemy) == (Enemy {
            slow_multiplier: if ICE_SLOW < old(enemy).slow_multiplier {
                ICE_SLOW
            } else {
                old(enemy).slow_multiplier
            },
            ..*old(enemy)
        }),
        tower.tower_type != TowerType::Ice ==> *final(enemy) == *old(enemy),
{
    match tower.tower_type {
        TowerType::Ice => {
            enemy.apply_slow(ICE_SLOW);
        },
        _ => {},
    }
}

// ----- movement -----

/// The integer square root: the `r` with `r * r <= n < (r + 1) * (r + 1)`.
pub open spec fn sqrt_floor(n: int) -> int {
    choose|r: int| is_sqrt_floor(n, r)
}

pub open spec fn is_sqrt_floor(n: int, r: int) -> bool {
    0 <= r && r * r <= n < (r + 1) * (r + 1)
}

proof fn lemma_sqrt_unique(n: int, r: int)
    requires
        0 <= r,
        r * r <= n < (r + 1) * (r + 1),
    ensures
        sqrt_floor(n) == r,
{
    assert(is_sqrt_floor(n, r));
    let s = sqrt_floor(n);
    assert(0 <= s && s * s <= n < (s + 1) * (s + 1));
    if s < r {
        assert((s + 1) * (s + 1) <= r * r) by (nonlinear_arith)
            requires
                0 <= s < r,
        ;
    } else if r < s {
        assert((r + 1) * (r + 1) <= s * s) by (nonlinear_arith)
            requires
                0 <= r < s,
        ;
    }
}

fn isqrt(n: u128) -> (r: u64)
    requires
        n < 0x4_0000_0000_0000_0000u128,
    ensures
        r == sqrt_floor(n as int),
        r as int * r as int <= n,
        r < 0x2_0000_0000u64,
{
    let mut lo: u64 = 0;
    let mut hi: u64 = 0x2_0000_0000;
    assert(hi as int * hi as int > n);
    while hi - lo > 1
        invariant
            lo < hi <= 0x2_0000_0000,
            lo as int * lo as int <= n,
            n < hi as int * hi as int,
        decreases hi - lo,
    {
        let mid = lo + (hi - lo) / 2;
        assert(mid as int * mid as int <= 0x4_0000_0000_0000_0000) by (nonlinear_arith)
            requires
                mid <= 0x2_0000_0000,
        ;
        if (mid as u128) * (mid as u128) <= n {
            lo = mid;
        } else {
            hi = mid;
        }
    }
    proof {
        assert(hi == lo + 1);
        lemma_sqrt_unique(n as int, lo as int);
    }
    lo
}

/// One coordinate moved from `a` towards `b` by `rem / d` of the way, rounded
/// towards `a`.
pub open spec fn step_toward(a: int, b: int, rem: int, d: int) -> int {
    if b >= a {
        a + (b - a) * rem / d
    } else {
        a - (a - b) * rem / d
    }
}

/// Where a walker at `pos`, heading for waypoint `idx` of `path`, ends up after
/// covering `rem` sub-tiles: it reaches each waypoint whose distance fits in what is
/// left, then goes part of the way to the next one.
pub open spec fn advance(pos: (int, int), idx: int, rem: int, path: Seq<(u8, u8)>) -> ((int, int), int)
    decreases path.len() - idx,
{
    if rem <= 0 || idx < 0 || idx >= path.len() {
        (pos, idx)
    } else {
        let t = (path[idx].0 * SUBTILES_PER_TILE as int, path[idx].1 * SUBTILES_PER_TILE as int);
        let dx = t.0 - pos.0;
        let dy = t.1 - pos.1;
        let d = sqrt_floor(dx * dx + dy * dy);
        if d < rem {
            advance(t, idx + 1, rem - d, path)
        } else {
            ((step_toward(pos.0, t.0, rem, d), step_toward(pos.1, t.1, rem, d)), idx)
        }
    }
}

/// Sub-tiles an enemy covers in `delta_time_micros` at its effective speed.
pub open spec fn travel(enemy: Enemy, delta_time_micros: u64) -> int {
    enemy.effective_speed_spec() * delta_time_micros / 1_000_000
}

fn toward(a: u32, b: u32, rem: u128, d: u128) -> (r: u32)
    requires
        rem <= d,
        0 < d,
        d <= 0x2_0000_0000u128,
    ensures
        r == step_toward(a as int, b as int, rem as int, d as int),
{
    if b >= a {
        let diff = (b - a) as u128;
        assert(diff * rem <= diff * d) by (nonlinear_arith)
            requires
                rem <= d,
                0 < d,
        ;
        assert(diff * rem < 0x1_0000_0000u128 * d) by (nonlinear_arith)
            requires
                diff < 0x1_0000_0000u128,
                rem <= d,
                0 < d,
        ;
        let step = diff * rem / d;
        assert(step <= diff) by (nonlinear_arith)
            requires
                step == diff * rem / (d as int),
                diff >= 0,
                rem >= 0,
                rem <= d,
                0 < d,
        ;
        a + step as u32
    } else {
        let diff = (a - b) as u128;
        assert(diff * rem < 0x1_0000_0000u128 * d) by (nonlinear_arith)
            requires
                diff < 0x1_0000_0000u128,
                rem <= d,
                0 < d,
        ;
        let step = diff * rem / d;
        assert(step <= diff) by (nonlinear_arith)
            requires
                step == diff * rem / (d as int),
                diff >= 0,
                rem >= 0,
                rem <= d,
                0 < d,
        ;
        a - step as u32
    }
}

/// The enemy after `update_enemy_position`.
pub open spec fn moved_enemy(enemy: Enemy, path: Seq<(u8, u8)>, delta_time_micros: u64) -> Enemy {
    if enemy.path_index >= path.len() {
        enemy
    } else {
        let moved = advance(
            (enemy.position.0 as int, enemy.position.1 as int),
            enemy.path_index as int,
            travel(enemy, delta_time_micros),
            path,
        );
        Enemy {
            position: (moved.0.0 as u32, moved.0.1 as u32),
            path_index: moved.1 as usize,
            slow_multiplier: FULL_SPEED,
            ..enemy
        }
    }
}

/// Moves the enemy along the waypoints for `delta_time_micros`, then lifts its slow.
/// An enemy already past the last waypoint is left as it is.
pub fn update_enemy_position(enemy: &mut Enemy, path: &[(u8, u8)], delta_time_micros: u64)
    ensures
        *final(enemy) == moved_enemy(*old(enemy), path@, delta_time_micros),
        old(enemy).path_index >= path@.len() ==> *final(enemy) == *old(enemy),
        old(enemy).path_index < path@.len() ==> {
            let moved = advance(
                (old(enemy).position.0 as int, old(enemy).position.1 as int),
                old(enemy).path_index as int,
                travel(*old(enemy), delta_time_micros),
                path@,
            );
            &&& final(enemy).position.0 == moved.0.0
            &&& final(enemy).position.1 == moved.0.1
            &&& final(enemy).path_index == moved.1
            &&& *final(enemy) == (Enemy {
                position: final(enemy).position,
                path_index: final(enemy).path_index,
                slow_multiplier: FULL_SPEED,
                ..*old(enemy)
            })
        },
{
    if enemy.path_index >= path.len() {
        return ;
    }
    let speed = enemy.effective_speed();
    assert(speed as u128 * delta_time_micros as u128 <= u32::MAX as u128 * u64::MAX as u128)
        by (nonlinear_arith);
    let mut remaining: u128 = (speed as u128) * (delta_time_micros as u128) / 1_000_000;
    let ghost start = *enemy;
    let ghost target = advance(
        (enemy.position.0 as int, enemy.position.1 as int),
        enemy.path_index as int,
        remaining as int,
        path@,
    );
    while remaining > 0 && enemy.path_index < path.len()
        invariant
            enemy.path_index <= path@.len(),
            advance(
                (enemy.position.0 as int, enemy.position.1 as int),
                enemy.path_index as int,
                remaining as int,
                path@,
            ) == target,
            *enemy == (Enemy {
                position: enemy.position,
                path_index: enemy.path_index,
                ..start
            }),
        decreases 2 * (path@.len() - enemy.path_index) + if remaining > 0 {
            1int
        } else {
            0
        },
    {
        let waypoint = path[enemy.path_index];
        let tx = waypoint.0 as u32 * SUBTILES_PER_TILE;
        let ty = waypoint.1 as u32 * SUBTILES_PER_TILE;
        let (x, y) = enemy.position;
        let dx: u128 = if tx >= x {
            (tx - x) as u128
        } else {
            (x - tx) as u128
        };
        let dy: u128 = if ty >= y {
            (ty - y) as u128
        } else {
            (y - ty) as u128
        };
        assert(dx * dx <= 0xffff_ffffu128 * 0xffff_ffffu128) by (nonlinear_arith)
            requires
                dx <= 0xffff_ffffu128,
        ;
        assert(dy * dy <= 0xffff_ffffu128 * 0xffff_ffffu128) by (nonlinear_arith)
            requires
                dy <= 0xffff_ffffu128,
        ;
        let d2 = dx * dx + dy * dy;
        proof {
            let ex = tx - x;
            let ey = ty - y;
            assert(ex * ex == dx * dx) by (nonlinear_arith)
                requires
                    dx == ex || dx == -ex,
            ;
            assert(ey * ey == dy * dy) by (nonlinear_arith)
                requires
                    dy == ey || dy == -ey,
            ;
        }
        let distance = isqrt(d2) as u128;
        if distance < remaining {
            enemy.position = (tx, ty);
            enemy.path_index = enemy.path_index + 1;
            remaining = remaining - distance;
        } else {
            enemy.position = (toward(x, tx, remaining, distance), toward(y, ty, remaining, distance));
            remaining = 0;
        }
    }
    enemy.reset_slow();
}

/// Live enemies in the tower's range other than the one with `primary_id`, in slice
/// order.
pub open spec fn chain_candidates(tower: Tower, primary_id: u64, s: Seq<Enemy>) -> Seq<Enemy>
    decreases s.len(),
{
    if s.len() == 0 {
        Seq::empty()
    } else {
        let rest = chain_candidates(tower, primary_id, s.drop_last());
        let e = s.last();
        if e.id != primary_id && targetable(tower, e) {
            rest.push(e)
        } else {
            rest
        }
    }
}

proof fn lemma_chain_prefix(tower: Tower, primary_id: u64, s: Seq<Enemy>, i: int)
    requires
        0 <= i <= s.len(),
    ensures
        chain_candidates(tower, primary_id, s.subrange(0, i)).len() <= chain_candidates(
            tower,
            primary_id,
            s,
        ).len(),
        chain_candidates(tower, primary_id, s.subrange(0, i)) =~= chain_candidates(
            tower,
            primary_id,
            s,
        ).subrange(0, chain_candidates(tower, primary_id, s.subrange(0, i)).len() as int),
    decreases s.len(),
{
    if i < s.len() {
        assert(s.drop_last().subrange(0, i) =~= s.subrange(0, i));
        lemma_chain_prefix(tower, primary_id, s.drop_last(), i);
    } else {
        assert(s.subrange(0, i) =~= s);
    }
}

/// Up to `max_chains` further targets for a chaining tower: the first live enemies in
/// range other than `primary_target`, in slice order.
pub fn find_chain_targets(
    tower: &Tower,
    primary_target: &Enemy,
    enemies: &[Enemy],
    max_chains: usize,
) -> (r: Vec<Enemy>)
    ensures
        ({
            let all = chain_candidates(*tower, primary_target.id, enemies@);
            r@ == all.subrange(0, if all.len() < max_chains { all.len() as int } else { max_chains as int })
        }),
{
    let mut targets: Vec<Enemy> = Vec::new();
    let mut i: usize = 0;
    let ghost all = chain_candidates(*tower, primary_target.id, enemies@);
    while i < enemies.len()
        invariant
            i <= enemies@.len(),
            targets@ == chain_candidates(*tower, primary_target.id, enemies@.subrange(0, i as int)),
            targets@.len() <= max_chains,
            all == chain_candidates(*tower, primary_target.id, enemies@),
        decreases enemies@.len() - i,
    {
        if targets.len() >= max_chains {
            proof {
                lemma_chain_prefix(*tower, primary_target.id, enemies@, i as int);
            }
            return targets;
        }
        let e = enemies[i];
        proof {
            assert(enemies@.subrange(0, i as int + 1).drop_last() =~= enemies@.subrange(0, i as int));
        }
        if e.id != primary_target.id && e.is_alive() && tower.in_range(e.position) {
            targets.push(e);
        }
        i = i + 1;
    }
    proof {
        assert(enemies@.subrange(0, i as int) =~= enemies@);
        assert(targets@ =~= all.subrange(0, all.len() as int));
    }
    targets
}

/// Live enemies within `radius` sub-tiles of `center`, in slice order.
pub open spec fn aoe_candidates(center: (u32, u32), radius: u32, s: Seq<Enemy>) -> Seq<Enemy>
    decreases s.len(),
{
    if s.len() == 0 {
        Seq::empty()
    } else {
        let rest = aoe_candidates(center, radius, s.drop_last());
        let e = s.last();
        if e.is_alive_spec() && within(e.position, (center.0 as int, center.1 as int), radius as int) {
            rest.push(e)
        } else {
            rest
        }
    }
}

/// Every live enemy within `radius` sub-tiles of `center`, in slice order.
pub fn find_aoe_targets(center: (u32, u32), radius: u32, enemies: &[Enemy]) -> (r: Vec<Enemy>)
    ensures
        r@ == aoe_candidates(center, radius, enemies@),
{
    let mut targets: Vec<Enemy> = Vec::new();
    let mut i: usize = 0;
    while i < enemies.len()
        invariant
            i <= enemies@.len(),
            targets@ == aoe_candidates(center, radius, enemies@.subrange(0, i as int)),
        decreases enemies@.len() - i,
    {
        let e = enemies[i];
        proof {
            assert(enemies@.subrange(0, i as int + 1).drop_last() =~= enemies@.subrange(0, i as int));
        }
        if e.is_alive() && is_within(e.position, center, radius) {
            targets.push(e);
        }
        i = i + 1;
    }
    assert(enemies@.subrange(0, i as int) =~= enemies@);
    targets
}

} // verus!
