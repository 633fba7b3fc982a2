use tower_defense::enemy::EnemyType;
use tower_defense::wave::{generate_wave, WaveConfig};

fn count(wave: &[tower_defense::enemy::Enemy], t: EnemyType) -> usize {
    wave.iter().filter(|e| e.enemy_type == t).count()
}

#[test]
fn wave_test_boss_wave() {
    let wave10 = generate_wave(10, (0, 0));
    let has_boss = wave10.iter().any(|e| e.enemy_type == EnemyType::Boss);
    assert!(has_boss);
}

#[test]
fn test_non_boss_wave() {
    let wave5 = generate_wave(5, (0, 0));
    let has_boss = wave5.iter().any(|e| e.enemy_type == EnemyType::Boss);
    assert!(!has_boss);
}

#[test]
fn test_early_wave_composition() {
    let wave2 = generate_wave(2, (0, 0));
    let basic_count = count(&wave2, EnemyType::BasicScout);
    let fast_count = count(&wave2, EnemyType::FastRunner);
    let heavy_count = count(&wave2, EnemyType::HeavySoldier);
    let tank_count = count(&wave2, EnemyType::Tank);
    assert!(basic_count > 0);
    assert!(fast_count > 0 || basic_count > 0);
    assert_eq!(heavy_count, 0);
    assert_eq!(tank_count, 0);
}

#[test]
fn test_mid_wave_composition() {
    let wave7 = generate_wave(7, (0, 0));
    let has_basic = wave7.iter().any(|e| e.enemy_type == EnemyType::BasicScout);
    let has_fast = wave7.iter().any(|e| e.enemy_type == EnemyType::FastRunner);
    let has_heavy = wave7.iter().any(|e| e.enemy_type == EnemyType::HeavySoldier);
    let has_tank = wave7.iter().any(|e| e.enemy_type == EnemyType::Tank);
    assert!(has_basic || has_fast || has_heavy || has_tank);
}

#[test]
fn test_unique_enemy_ids() {
    let wave = generate_wave(5, (0, 0));
    let mut ids: Vec<u64> = wave.iter().map(|e| e.id).collect();
    ids.sort();
    ids.dedup();
    assert_eq!(ids.len(), wave.len());
}

#[test]
fn test_spawn_position() {
    let spawn = (5, 10);
    let wave = generate_wave(3, spawn);
    for enemy in wave {
        assert_eq!(enemy.position, (spawn.0 as u32 * 1000, spawn.1 as u32 * 1000));
        assert_eq!(enemy.path_index, 0);
    }
}

#[test]
fn shares_round_down() {
    // nominal count 12, split 7/10 and 3/10, each rounded down: 8 + 3
    let wave1 = generate_wave(1, (0, 0));
    assert_eq!(wave1.len(), 11);
    assert_eq!(count(&wave1, EnemyType::BasicScout), 8);
    assert_eq!(count(&wave1, EnemyType::FastRunner), 3);
    // boss wave 10: one boss and 15 tanks
    assert_eq!(generate_wave(10, (0, 0)).len(), 16);
    // nominal count 32 in the last bracket: 6, 6, 9, 9
    let wave11 = generate_wave(11, (0, 0));
    assert_eq!(wave11.len(), 30);
    assert_eq!(count(&wave11, EnemyType::Tank), 9);
}

#[test]
fn boss_wave_layout() {
    let wave = generate_wave(20, (2, 2));
    assert_eq!(wave[0].enemy_type, EnemyType::Boss);
    assert_eq!(count(&wave, EnemyType::Boss), 1);
    assert_eq!(count(&wave, EnemyType::Tank), 25);
    for (i, e) in wave.iter().enumerate() {
        assert_eq!(e.id, i as u64);
    }
    // wave zero counts as a boss wave too
    let wave0 = generate_wave(0, (0, 0));
    assert_eq!(wave0.len(), 6);
    assert_eq!(count(&wave0, EnemyType::Boss), 1);
}

#[test]
fn wave_sizes_never_shrink_between_boss_free_waves() {
    let mut last = 0;
    for w in 1..60u32 {
        if w % 10 == 0 {
            continue;
        }
        let n = generate_wave(w, (0, 0)).len();
        assert!(n >= last);
        last = n;
    }
}

#[test]
fn one_boss_iff_multiple_of_interval() {
    for w in 0..45u32 {
        let wave = generate_wave(w, (0, 0));
        let bosses = count(&wave, EnemyType::Boss);
        assert_eq!(bosses, if w % 10 == 0 { 1 } else { 0 });
        if (1..=3).contains(&w) {
            assert_eq!(count(&wave, EnemyType::HeavySoldier), 0);
            assert_eq!(count(&wave, EnemyType::Tank), 0);
        }
    }
}

#[test]
fn wave_config_default_values() {
    let c = WaveConfig::default();
    assert_eq!((c.base_enemy_count, c.enemy_count_per_wave, c.boss_wave_interval), (10, 2, 10));
}

#[test]
fn wave_test_wave_generation() {
    let enemies = generate_wave(1, (0, 0));
    assert!(!enemies.is_empty());
    // nominal count 10 + 1 * 2 = 12, split 7/10 and 3/10 rounded down: 8 + 3
    assert_eq!(enemies.len(), 11);
}

#[test]
fn test_wave_scaling() {
    let wave1 = generate_wave(1, (0, 0));
    let wave5 = generate_wave(5, (0, 0));
    let wave10 = generate_wave(10, (0, 0));
    assert!(wave5.len() > wave1.len());
    // boss wave 10 holds one boss and 15 tanks, fewer than the 20 enemies of wave 5
    assert_eq!(wave10.len(), 16);
    assert!(wave10.len() < wave5.len());
}
