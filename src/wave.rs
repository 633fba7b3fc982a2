use vstd::prelude::*;

use crate::enemy::{Enemy, EnemyType};

verus! {

/// Wave sizing settings.
#[derive(Debug, Clone, Copy, PartialEq, Eq, Structural)]
pub struct WaveConfig {
    pub base_enemy_count: u32,
    pub enemy_count_per_wave: u32,
    /// Every wave whose number is a multiple of this is a boss wave.
    pub boss_wave_interval: u32,
}

impl Default for WaveConfig {
    fn default() -> (r: Self)
        ensures
            r.base_enemy_count == 10,
            r.enemy_count_per_wave == 2,
            r.boss_wave_interval == 10,
    {
        WaveConfig { base_enemy_count: 10, enemy_count_per_wave: 2, boss_wave_interval: 10 }
    }
}

/// Nominal enemy count of a wave: `10 + 2 * wave`, saturating in `u32`.
pub open spec fn enemy_count_spec(wave: u32) -> int {
    let per_wave = if wave * 2 > u32::MAX { u32::MAX as int } else { wave * 2 };
    if 10 + per_wave > u32::MAX { u32::MAX as int } else { 10 + per_wave }
}

pub open spec fn is_boss_wave(wave: u32) -> bool {
    wave % 10 == 0
}

pub open spec fn repeat(t: EnemyType, n: int) -> Seq<EnemyType> {
    Seq::new(n as nat, |k: int| t)
}

/// The share `tenths / 10` of `count`, rounded down.
pub open spec fn share(count: int, tenths: int) -> int {
    count * tenths / 10
}

/// Types of the enemies of a wave without a boss whose nominal count is `count`: the
/// count is split in tenths by wave bracket (1-3, 4-6, 7-9, any other), each share
/// rounded down, so the total may fall short of `count`.
pub open spec fn band_types(wave: u32, count: int) -> Seq<EnemyType> {
    let c = count;
    if 1 <= wave <= 3 {
        repeat(EnemyType::BasicScout, share(c, 7)) + repeat(EnemyType::FastRunner, share(c, 3))
    } else if 4 <= wave <= 6 {
        repeat(EnemyType::BasicScout, share(c, 4)) + repeat(EnemyType::FastRunner, share(c, 3))
            + repeat(EnemyType::HeavySoldier, share(c, 3))
    } else if 7 <= wave <= 9 {
        repeat(EnemyType::BasicScout, share(c, 3)) + repeat(EnemyType::FastRunner, share(c, 2))
            + repeat(EnemyType::HeavySoldier, share(c, 3)) + repeat(EnemyType::Tank, share(c, 2))
    } else {
        repeat(EnemyType::BasicScout, share(c, 2)) + repeat(EnemyType::FastRunner, share(c, 2))
            + repeat(EnemyType::HeavySoldier, share(c, 3)) + repeat(EnemyType::Tank, share(c, 3))
    }
}

/// Types of the enemies of a wave, in spawn order: a boss wave holds one boss and then
/// `max(count / 2, 3)` tanks; any other wave is split by `band_types`.
pub open spec fn wave_types(wave: u32) -> Seq<EnemyType> {
    let c = enemy_count_spec(wave);
    if is_boss_wave(wave) {
        repeat(EnemyType::Boss, 1) + repeat(EnemyType::Tank, if c / 2 > 3 { c / 2 } else { 3 })
    } else {
        band_types(wave, c)
    }
}

/// Enemies of the given types as spawned, with ids `first_id, first_id + 1, ...` in
/// order, all at the spawn tile.
pub open spec fn spawned_from(
    first_id: int,
    types: Seq<EnemyType>,
    wave: u32,
    spawn_point: (u8, u8),
) -> Seq<Enemy> {
    Seq::new(
        types.len(),
        |i: int| Enemy::spawn_spec((first_id + i) as u64, types[i], wave, spawn_point),
    )
}

/// The enemies of a wave as spawned: ids `0, 1, ...` in order, all at the spawn tile.
pub open spec fn spawned(types: Seq<EnemyType>, wave: u32, spawn_point: (u8, u8)) -> Seq<Enemy> {
    spawned_from(0, types, wave, spawn_point)
}

proof fn lemma_spawned_concat(
    first_id: int,
    a: Seq<EnemyType>,
    b: Seq<EnemyType>,
    wave: u32,
    spawn_point: (u8, u8),
)
    ensures
        spawned_from(first_id, a, wave, spawn_point) + spawned_from(
            first_id + a.len(),
            b,
            wave,
            spawn_point,
        ) =~= spawned_from(first_id, a + b, wave, spawn_point),
{
}

/// Appends `n` enemies of `enemy_type`, their ids counting on from `*enemy_id`.
fn push_group(
    enemies: &mut Vec<Enemy>,
    enemy_id: &mut u64,
    enemy_type: EnemyType,
    n: u64,
    wave: u32,
    spawn_point: (u8, u8),
)
    requires
        *old(enemy_id) + n <= u64::MAX,
    ensures
        final(enemies)@ == old(enemies)@ + spawned_from(
            *old(enemy_id) as int,
            repeat(enemy_type, n as int),
            wave,
            spawn_point,
        ),
        *final(enemy_id) == *old(enemy_id) + n,
{
    let ghost before = enemies@;
    let ghost first = *enemy_id as int;
    let mut k: u64 = 0;
    while k < n
        invariant
            k <= n,
            *enemy_id == first + k,
            first + n <= u64::MAX,
            enemies@ == before + spawned_from(first, repeat(enemy_type, k as int), wave, spawn_point),
        decreases n - k,
    {
        enemies.push(Enemy::new(*enemy_id, enemy_type, wave, spawn_point));
        *enemy_id = *enemy_id + 1;
        k = k + 1;
        assert(enemies@ =~= before + spawned_from(
            first,
            repeat(enemy_type, k as int),
            wave,
            spawn_point,
        ));
    }
}

/// The enemies of wave `wave_number`, all standing on `spawn_point`.
pub fn generate_wave(wave_number: u32, spawn_point: (u8, u8)) -> (r: Vec<Enemy>)
    ensures
        r@ == spawned(wave_types(wave_number), wave_number, spawn_point),
{
    let config = WaveConfig::default();
    let mut enemies: Vec<Enemy> = Vec::new();
    let per_wave: u32 = if wave_number > u32::MAX / config.enemy_count_per_wave {
        u32::MAX
    } else {
        wave_number * config.enemy_count_per_wave
    };
    let enemy_count = config.base_enemy_count.saturating_add(per_wave);
    let mut enemy_id: u64 = 0;
    if wave_number % config.boss_wave_interval == 0 {
        push_group(&mut enemies, &mut enemy_id, EnemyType::Boss, 1, wave_number, spawn_point);
        let support = if enemy_count as u64 / 2 > 3 {
            enemy_count as u64 / 2
        } else {
            3
        };
        push_group(&mut enemies, &mut enemy_id, EnemyType::Tank, support, wave_number, spawn_point);
        proof {
            lemma_spawned_concat(
                0,
                repeat(EnemyType::Boss, 1),
                repeat(EnemyType::Tank, support as int),
                wave_number,
                spawn_point,
            );
        }
    } else {
        distribute_enemies(wave_number, enemy_count, spawn_point, &mut enemies, &mut enemy_id);
    }
    assert(enemies@ =~= spawned(wave_types(wave_number), wave_number, spawn_point));
    enemies
}

/// Appends the enemies of a wave without a boss of nominal size `enemy_count`, split by
/// wave bracket (see `band_types`), their ids counting on from `*enemy_id`.
fn distribute_enemies(
    wave_number: u32,
    enemy_count: u32,
    spawn_point: (u8, u8),
    enemies: &mut Vec<Enemy>,
    enemy_id: &mut u64,
)
    requires
        *old(enemy_id) + enemy_count <= u64::MAX,
    ensures
        final(enemies)@ == old(enemies)@ + spawned_from(
            *old(enemy_id) as int,
            band_types(wave_number, enemy_count as int),
            wave_number,
            spawn_point,
        ),
        *final(enemy_id) == *old(enemy_id) + band_types(wave_number, enemy_count as int).len(),
{
    let c = enemy_count as u64;
    let ghost k0 = *enemy_id as int;
    let ghost v0 = enemies@;
    let ghost ci = c as int;
    if 1 <= wave_number && wave_number <= 3 {
        push_group(enemies, enemy_id, EnemyType::BasicScout, c * 7 / 10, wave_number, spawn_point);
        push_group(enemies, enemy_id, EnemyType::FastRunner, c * 3 / 10, wave_number, spawn_point);
        proof {
            let a = repeat(EnemyType::BasicScout, share(ci, 7));
            let b = repeat(EnemyType::FastRunner, share(ci, 3));
            lemma_spawned_concat(k0, a, b, wave_number, spawn_point);
            assert(enemies@ =~= v0 + spawned_from(k0, a + b, wave_number, spawn_point));
        }
    } else if 4 <= wave_number && wave_number <= 6 {
        push_group(enemies, enemy_id, EnemyType::BasicScout, c * 4 / 10, wave_number, spawn_point);
        push_group(enemies, enemy_id, EnemyType::FastRunner, c * 3 / 10, wave_number, spawn_point);
        push_group(enemies, enemy_id, EnemyType::HeavySoldier, c * 3 / 10, wave_number, spawn_point);
        proof {
            let a = repeat(EnemyType::BasicScout, share(ci, 4));
            let b = repeat(EnemyType::FastRunner, share(ci, 3));
            let d = repeat(EnemyType::HeavySoldier, share(ci, 3));
            lemma_spawned_concat(k0, a, b, wave_number, spawn_point);
            lemma_spawned_concat(k0, a + b, d, wave_number, spawn_point);
            assert(enemies@ =~= v0 + spawned_from(k0, a + b + d, wave_number, spawn_point));
        }
    } else if 7 <= wave_number && wave_number <= 9 {
        push_group(enemies, enemy_id, EnemyType::BasicScout, c * 3 / 10, wave_number, spawn_point);
        push_group(enemies, enemy_id, EnemyType::FastRunner, c * 2 / 10, wave_number, spawn_point);
        push_group(enemies, enemy_id, EnemyType::HeavySoldier, c * 3 / 10, wave_number, spawn_point);
        push_group(enemies, enemy_id, EnemyType::Tank, c * 2 / 10, wave_number, spawn_point);
        proof {
            let a = repeat(EnemyType::BasicScout, share(ci, 3));
            let b = repeat(EnemyType::FastRunner, share(ci, 2));
            let d = repeat(EnemyType::HeavySoldier, share(ci, 3));
            let e = repeat(EnemyType::Tank, share(ci, 2));
            lemma_spawned_concat(k0, a, b, wave_number, spawn_point);
            lemma_spawned_concat(k0, a + b, d, wave_number, spawn_point);
            lemma_spawned_concat(k0, a + b + d, e, wave_number, spawn_point);
            assert(enemies@ =~= v0 + spawned_from(k0, a + b + d + e, wave_number, spawn_point));
        }
    } else {
        push_group(enemies, enemy_id, EnemyType::BasicScout, c * 2 / 10, wave_number, spawn_point);
        push_group(enemies, enemy_id, EnemyType::FastRunner, c * 2 / 10, wave_number, spawn_point);
        push_group(enemies, enemy_id, EnemyType::HeavySoldier, c * 3 / 10, wave_number, spawn_point);
        push_group(enemies, enemy_id, EnemyType::Tank, c * 3 / 10, wave_number, spawn_point);
        proof {
            let a = repeat(EnemyType::BasicScout, share(ci, 2));
            let b = repeat(EnemyType::FastRunner, share(ci, 2));
            let d = repeat(EnemyType::HeavySoldier, share(ci, 3));
            let e = repeat(EnemyType::Tank, share(ci, 3));
            lemma_spawned_concat(k0, a, b, wave_number, spawn_point);
            lemma_spawned_concat(k0, a + b, d, wave_number, spawn_point);
            lemma_spawned_concat(k0, a + b + d, e, wave_number, spawn_point);
            assert(enemies@ =~= v0 + spawned_from(k0, a + b + d + e, wave_number, spawn_point));
        }
    }
}

} // verus!
