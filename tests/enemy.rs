use tower_defense::enemy::{Enemy, EnemyType};

#[test]
fn test_enemy_type_stats() {
    let stats = EnemyType::BasicScout.base_stats(1);
    assert_eq!(stats.health, 55);
    assert_eq!(stats.speed, 1000);
    assert_eq!(stats.gold_reward, 10);
    assert_eq!(stats.damage_to_base, 1);
}

#[test]
fn test_enemy_type_stats_scaling() {
    let wave1_stats = EnemyType::BasicScout.base_stats(1);
    let wave5_stats = EnemyType::BasicScout.base_stats(5);
    assert!(wave5_stats.health > wave1_stats.health);
}

#[test]
fn test_boss_health_scaling() {
    let wave1_boss = EnemyType::Boss.base_stats(1);
    let wave10_boss = EnemyType::Boss.base_stats(10);
    assert_eq!(wave1_boss.health, 2100);
    assert_eq!(wave10_boss.health, 3000);
}

#[test]
fn test_enemy_creation() {
    let enemy = Enemy::new(0, EnemyType::BasicScout, 1, (0, 0));
    assert_eq!(enemy.id, 0);
    assert_eq!(enemy.enemy_type, EnemyType::BasicScout);
    assert_eq!(enemy.position, (0, 0));
    assert_eq!(enemy.path_index, 0);
    assert!(enemy.is_alive());
    assert_eq!(enemy.slow_multiplier, 1000);
}

#[test]
fn test_enemy_take_damage() {
    let mut enemy = Enemy::new(0, EnemyType::BasicScout, 1, (0, 0));
    let initial_health = enemy.health;

    let killed = enemy.take_damage(30);
    assert!(!killed);
    assert!(enemy.is_alive());
    assert_eq!(enemy.health, initial_health - 30);

    let killed = enemy.take_damage(100);
    assert!(killed);
    assert!(!enemy.is_alive());
    assert_eq!(enemy.health, 0);
}

#[test]
fn test_enemy_slow() {
    let mut enemy = Enemy::new(0, EnemyType::BasicScout, 1, (0, 0));
    assert_eq!(enemy.effective_speed(), 1000);

    enemy.apply_slow(700);
    assert_eq!(enemy.slow_multiplier, 700);
    assert_eq!(enemy.effective_speed(), 700);

    enemy.apply_slow(500);
    assert_eq!(enemy.slow_multiplier, 500);
    assert_eq!(enemy.effective_speed(), 500);

    enemy.reset_slow();
    assert_eq!(enemy.slow_multiplier, 1000);
    assert_eq!(enemy.effective_speed(), 1000);
}

#[test]
fn test_different_enemy_types() {
    let scout = Enemy::new(0, EnemyType::BasicScout, 1, (0, 0));
    let heavy = Enemy::new(1, EnemyType::HeavySoldier, 1, (0, 0));
    let runner = Enemy::new(2, EnemyType::FastRunner, 1, (0, 0));
    let tank = Enemy::new(3, EnemyType::Tank, 1, (0, 0));
    let boss = Enemy::new(4, EnemyType::Boss, 1, (0, 0));

    assert!(scout.health < heavy.health);
    assert!(heavy.health < tank.health);
    assert!(tank.health < boss.health);

    assert!(runner.speed > scout.speed);
    assert!(scout.speed > heavy.speed);
    assert!(heavy.speed > tank.speed);
}

#[test]
fn scout_at_wave_one_has_55_health() {
    let enemy = Enemy::new(3, EnemyType::BasicScout, 1, (4, 2));
    assert_eq!(enemy.health, 55);
    assert_eq!(enemy.max_health, 55);
    assert_eq!(enemy.position, (4000, 2000));
}

#[test]
fn health_scales_by_tenths_per_wave() {
    assert_eq!(EnemyType::HeavySoldier.base_stats(0).health, 150);
    assert_eq!(EnemyType::HeavySoldier.base_stats(3).health, 195);
    assert_eq!(EnemyType::FastRunner.base_stats(7).health, 68);
    assert_eq!(EnemyType::Tank.base_stats(10).health, 1000);
    // saturates rather than overflowing
    assert_eq!(EnemyType::Tank.base_stats(u32::MAX).health, u32::MAX);
    assert_eq!(EnemyType::Boss.base_stats(u32::MAX).health, u32::MAX);
}

#[test]
fn take_damage_clamps_at_zero() {
    let mut enemy = Enemy::new(0, EnemyType::FastRunner, 0, (0, 0));
    assert_eq!(enemy.health, 40);
    assert!(enemy.take_damage(40));
    assert_eq!(enemy.health, 0);
    assert!(enemy.take_damage(5));
    assert_eq!(enemy.health, 0);
}

#[test]
fn weaker_slow_does_not_replace_stronger() {
    let mut enemy = Enemy::new(0, EnemyType::Tank, 1, (0, 0));
    enemy.apply_slow(400);
    enemy.apply_slow(900);
    enemy.apply_slow(600);
    assert_eq!(enemy.slow_multiplier, 400);
    assert_eq!(enemy.effective_speed(), 200);
}
