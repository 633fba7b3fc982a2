//! Laws that hold across the library's functions.
use vstd::prelude::*;

use crate::economy::kill_reward_spec;
use crate::enemy::{slowed, EnemyType};
use crate::tower::TowerType;
use crate::wave::{enemy_count_spec, is_boss_wave, repeat, share, wave_types};

verus! {

/// The slow multiplier after applying each of `ms` in turn, starting from `prior`.
pub open spec fn slow_after(prior: u32, ms: Seq<u32>) -> u32
    decreases ms.len(),
{
    if ms.len() == 0 {
        prior
    } else {
        slowed(slow_after(prior, ms.drop_last()), ms.last())
    }
}

/// Applying slows one after another leaves the least of the prior multiplier and every
/// applied one.
pub proof fn slows_keep_the_minimum(prior: u32, ms: Seq<u32>)
    ensures
        slow_after(prior, ms) <= prior,
        forall|i: int| 0 <= i < ms.len() ==> slow_after(prior, ms) <= #[trigger] ms[i],
        slow_after(prior, ms) == prior || exists|i: int|
            0 <= i < ms.len() && slow_after(prior, ms) == #[trigger] ms[i],
    decreases ms.len(),
{
    if ms.len() > 0 {
        let rest = ms.drop_last();
        slows_keep_the_minimum(prior, rest);
        assert forall|i: int| 0 <= i < ms.len() implies slow_after(prior, ms) <= #[trigger] ms[i] by {
            if i < ms.len() - 1 {
                assert(ms[i] == rest[i]);
            }
        }
        if slow_after(prior, ms) != prior {
            if slow_after(prior, ms) == ms.last() {
                assert(ms[ms.len() - 1] == ms.last());
            } else {
                let i = choose|i: int| 0 <= i < rest.len() && slow_after(prior, rest) == #[trigger] rest[i];
                assert(ms[i] == rest[i]);
            }
        }
    }
}

/// Every tower type deals strictly more damage at each level up to the third.
pub proof fn damage_grows_with_level(t: TowerType)
    ensures
        t.stats_at(1).damage < t.stats_at(2).damage,
        t.stats_at(2).damage < t.stats_at(3).damage,
{
}

/// The kill reward of an enemy type grows strictly with the wave number.
pub proof fn kill_reward_grows_with_wave(t: EnemyType, w1: u32, w2: u32)
    requires
        w1 < w2,
    ensures
        kill_reward_spec(t, w1 as int) < kill_reward_spec(t, w2 as int),
{
    let b = crate::economy::base_reward(t);
    assert(b >= 10);
    assert(b * (9 + w1) / 10 < b * (9 + w2) / 10) by (nonlinear_arith)
        requires
            b >= 10,
            0 <= w1 < w2,
    ;
}

pub open spec fn count_of(s: Seq<EnemyType>, t: EnemyType) -> int
    decreases s.len(),
{
    if s.len() == 0 {
        0
    } else {
        count_of(s.drop_last(), t) + if s.last() == t {
            1int
        } else {
            0
        }
    }
}

proof fn lemma_count_concat(a: Seq<EnemyType>, b: Seq<EnemyType>, t: EnemyType)
    ensures
        count_of(a + b, t) == count_of(a, t) + count_of(b, t),
    decreases b.len(),
{
    if b.len() == 0 {
        assert(a + b =~= a);
    } else {
        assert((a + b).drop_last() =~= a + b.drop_last());
        lemma_count_concat(a, b.drop_last(), t);
    }
}

proof fn lemma_count_repeat(u: EnemyType, n: int, t: EnemyType)
    requires
        n >= 0,
    ensures
        count_of(repeat(u, n), t) == if u == t {
            n
        } else {
            0
        },
    decreases n,
{
    if n > 0 {
        assert(repeat(u, n).drop_last() =~= repeat(u, n - 1));
        lemma_count_repeat(u, n - 1, t);
    }
}

/// A wave holds a boss exactly when its number is a multiple of the boss interval, and
/// then exactly one.
pub proof fn one_boss_exactly_on_boss_waves(w: u32)
    ensures
        is_boss_wave(w) ==> count_of(wave_types(w), EnemyType::Boss) == 1,
        !is_boss_wave(w) ==> count_of(wave_types(w), EnemyType::Boss) == 0,
{
    let c = enemy_count_spec(w);
    let b = EnemyType::Boss;
    if is_boss_wave(w) {
        let support = if c / 2 > 3 { c / 2 } else { 3 };
        lemma_count_concat(repeat(b, 1), repeat(EnemyType::Tank, support), b);
        lemma_count_repeat(b, 1, b);
        lemma_count_repeat(EnemyType::Tank, support, b);
    } else {
        lemma_band_counts(w, b);
    }
}

/// The first three waves hold no heavy soldiers and no tanks.
pub proof fn early_waves_are_light(w: u32)
    requires
        1 <= w <= 3,
    ensures
        count_of(wave_types(w), EnemyType::HeavySoldier) == 0,
        count_of(wave_types(w), EnemyType::Tank) == 0,
{
    lemma_band_counts(w, EnemyType::HeavySoldier);
    lemma_band_counts(w, EnemyType::Tank);
}

/// How many enemies of type `t` a wave without a boss holds.
proof fn lemma_band_counts(w: u32, t: EnemyType)
    requires
        !is_boss_wave(w),
    ensures
        count_of(wave_types(w), EnemyType::Boss) == 0,
        1 <= w <= 3 ==> count_of(wave_types(w), t) == if t == EnemyType::BasicScout {
            share(enemy_count_spec(w), 7)
        } else if t == EnemyType::FastRunner {
            share(enemy_count_spec(w), 3)
        } else {
            0
        },
{
    let c = enemy_count_spec(w);
    let (s, f, h, k) = (
        EnemyType::BasicScout,
        EnemyType::FastRunner,
        EnemyType::HeavySoldier,
        EnemyType::Tank,
    );
    assert(c >= 10);
    if 1 <= w <= 3 {
        lemma_count_concat(repeat(s, share(c, 7)), repeat(f, share(c, 3)), t);
        lemma_count_repeat(s, share(c, 7), t);
        lemma_count_repeat(f, share(c, 3), t);
        lemma_count_concat(repeat(s, share(c, 7)), repeat(f, share(c, 3)), EnemyType::Boss);
        lemma_count_repeat(s, share(c, 7), EnemyType::Boss);
        lemma_count_repeat(f, share(c, 3), EnemyType::Boss);
    } else if 4 <= w <= 6 {
        let a = repeat(s, share(c, 4)) + repeat(f, share(c, 3));
        lemma_count_concat(a, repeat(h, share(c, 3)), EnemyType::Boss);
        lemma_count_concat(repeat(s, share(c, 4)), repeat(f, share(c, 3)), EnemyType::Boss);
        lemma_count_repeat(s, share(c, 4), EnemyType::Boss);
        lemma_count_repeat(f, share(c, 3), EnemyType::Boss);
        lemma_count_repeat(h, share(c, 3), EnemyType::Boss);
    } else if 7 <= w <= 9 {
        let a = repeat(s, share(c, 3)) + repeat(f, share(c, 2));
        let a2 = a + repeat(h, share(c, 3));
        lemma_count_concat(a2, repeat(k, share(c, 2)), EnemyType::Boss);
        lemma_count_concat(a, repeat(h, share(c, 3)), EnemyType::Boss);
        lemma_count_concat(repeat(s, share(c, 3)), repeat(f, share(c, 2)), EnemyType::Boss);
        lemma_count_repeat(s, share(c, 3), EnemyType::Boss);
        lemma_count_repeat(f, share(c, 2), EnemyType::Boss);
        lemma_count_repeat(h, share(c, 3), EnemyType::Boss);
        lemma_count_repeat(k, share(c, 2), EnemyType::Boss);
    } else {
        let a = repeat(s, share(c, 2)) + repeat(f, share(c, 2));
        let a2 = a + repeat(h, share(c, 3));
        lemma_count_concat(a2, repeat(k, share(c, 3)), EnemyType::Boss);
        lemma_count_concat(a, repeat(h, share(c, 3)), EnemyType::Boss);
        lemma_count_concat(repeat(s, share(c, 2)), repeat(f, share(c, 2)), EnemyType::Boss);
        lemma_count_repeat(s, share(c, 2), EnemyType::Boss);
        lemma_count_repeat(f, share(c, 2), EnemyType::Boss);
        lemma_count_repeat(h, share(c, 3), EnemyType::Boss);
        lemma_count_repeat(k, share(c, 3), EnemyType::Boss);
    }
}

/// Number of enemies in a wave.
pub open spec fn wave_size(w: u32) -> int {
    wave_types(w).len() as int
}

proof fn lemma_wave_size(w: u32)
    ensures
        ({
            let c = enemy_count_spec(w);
            if is_boss_wave(w) {
                wave_size(w) == 1 + (if c / 2 > 3 { c / 2 } else { 3 })
            } else if 1 <= w <= 3 {
                wave_size(w) == share(c, 7) + share(c, 3)
            } else if 4 <= w <= 6 {
                wave_size(w) == share(c, 4) + share(c, 3) + share(c, 3)
            } else if 7 <= w <= 9 {
                wave_size(w) == share(c, 3) + share(c, 2) + share(c, 3) + share(c, 2)
            } else {
                wave_size(w) == share(c, 2) + share(c, 2) + share(c, 3) + share(c, 3)
            }
        }),
        10 <= enemy_count_spec(w),
        !is_boss_wave(w) ==> enemy_count_spec(w) - 3 <= wave_size(w) <= enemy_count_spec(w),
{
    let c = enemy_count_spec(w);
    assert(c >= 10);
    assert(c * 7 / 10 + c * 3 / 10 <= c && c * 7 / 10 + c * 3 / 10 >= c - 1);
    assert(c * 4 / 10 + c * 3 / 10 + c * 3 / 10 <= c && c * 4 / 10 + c * 3 / 10 + c * 3 / 10 >= c - 2);
    assert(c * 3 / 10 + c * 2 / 10 + c * 3 / 10 + c * 2 / 10 <= c && c * 3 / 10 + c * 2 / 10 + c * 3 / 10 + c * 2 / 10 >= c - 3);
    assert(c * 2 / 10 + c * 2 / 10 + c * 3 / 10 + c * 3 / 10 <= c && c * 2 / 10 + c * 2 / 10 + c * 3 / 10 + c * 3 / 10 >= c - 3);
}

/// Wave sizes never shrink from one wave to a later one, except into a boss wave from
/// a wave without a boss (wave 9 holds 26 enemies, boss wave 10 holds 16).
pub proof fn wave_size_grows(w1: u32, w2: u32)
    requires
        w1 <= w2,
        !(!is_boss_wave(w1) && is_boss_wave(w2)),
    ensures
        wave_size(w1) <= wave_size(w2),
{
    lemma_wave_size(w1);
    lemma_wave_size(w2);
    let c1 = enemy_count_spec(w1);
    let c2 = enemy_count_spec(w2);
    assert(c1 <= c2);
    if is_boss_wave(w1) && is_boss_wave(w2) {
        assert(c1 / 2 <= c2 / 2);
    } else if is_boss_wave(w1) {
    } else {
        let same_band = (1 <= w1 <= 3 && 1 <= w2 <= 3) || (4 <= w1 <= 6 && 4 <= w2 <= 6) || (7
            <= w1 <= 9 && 7 <= w2 <= 9) || (w1 >= 10 && w2 >= 10);
        if same_band {
            assert(c1 * 7 / 10 <= c2 * 7 / 10);
            assert(c1 * 4 / 10 <= c2 * 4 / 10);
            assert(c1 * 3 / 10 <= c2 * 3 / 10);
            assert(c1 * 2 / 10 <= c2 * 2 / 10);
        } else if c2 >= c1 + 4 {
        } else {
            assert(w2 == w1 + 1);
        }
    }
}

} // verus!
