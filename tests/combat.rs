use tower_defense::combat::{
    apply_tower_effects, calculate_damage, find_aoe_targets, find_chain_targets, find_target,
    find_target_id, update_enemy_position,
};
use tower_defense::enemy::{Enemy, EnemyType};
use tower_defense::tower::{Tower, TowerType};

#[test]
fn test_find_target() {
    let tower = Tower::new(0, (5, 5), TowerType::Arrow, 0);
    let enemies = vec![
        Enemy::new(0, EnemyType::BasicScout, 1, (5, 5)),
        {
            let mut e = Enemy::new(1, EnemyType::BasicScout, 1, (6, 6));
            e.path_index = 5;
            e
        },
        {
            let mut e = Enemy::new(2, EnemyType::BasicScout, 1, (20, 20));
            e.path_index = 10;
            e
        },
    ];
    let target = find_target(&tower, &enemies);
    assert!(target.is_some());
    assert_eq!(target.unwrap().id, 1);
}

#[test]
fn test_find_target_none() {
    let tower = Tower::new(0, (5, 5), TowerType::Arrow, 0);
    let enemies = vec![{
        let mut e = Enemy::new(0, EnemyType::BasicScout, 1, (20, 20));
        e.path_index = 5;
        e
    }];
    let target = find_target(&tower, &enemies);
    assert!(target.is_none());
}

#[test]
fn test_calculate_damage() {
    let arrow_tower = Tower::new(0, (5, 5), TowerType::Arrow, 0);
    let magic_tower = Tower::new(1, (5, 5), TowerType::Magic, 0);
    let scout = Enemy::new(0, EnemyType::BasicScout, 1, (5, 5));
    let tank = Enemy::new(1, EnemyType::Tank, 1, (5, 5));

    assert_eq!(calculate_damage(&arrow_tower, &scout), 10);
    assert_eq!(calculate_damage(&magic_tower, &scout), 15);
    assert_eq!(calculate_damage(&magic_tower, &tank), 30);
}

#[test]
fn test_apply_tower_effects() {
    let ice_tower = Tower::new(0, (5, 5), TowerType::Ice, 0);
    let mut enemy = Enemy::new(0, EnemyType::BasicScout, 1, (5, 5));
    assert_eq!(enemy.slow_multiplier, 1000);
    apply_tower_effects(&ice_tower, &mut enemy);
    assert_eq!(enemy.slow_multiplier, 700);
}

#[test]
fn test_update_enemy_position() {
    let path = vec![(0, 0), (5, 0), (5, 5), (10, 5)];
    let mut enemy = Enemy::new(0, EnemyType::BasicScout, 1, (0, 0));
    enemy.speed = 1000;
    update_enemy_position(&mut enemy, &path, 1_000_000);
    assert!(enemy.position.0 > 0);
}

#[test]
fn test_update_enemy_position_reaching_waypoint() {
    let path = vec![(0, 0), (1, 0), (2, 0)];
    let mut enemy = Enemy::new(0, EnemyType::BasicScout, 1, (0, 0));
    enemy.speed = 2000;
    update_enemy_position(&mut enemy, &path, 1_000_000);
    assert_eq!(enemy.path_index, 2);
}

#[test]
fn test_find_chain_targets() {
    let tower = Tower::new(0, (5, 5), TowerType::Lightning, 0);
    let primary = Enemy::new(0, EnemyType::BasicScout, 1, (5, 5));
    let enemies = vec![
        Enemy::new(0, EnemyType::BasicScout, 1, (5, 5)),
        Enemy::new(1, EnemyType::BasicScout, 1, (6, 6)),
        Enemy::new(2, EnemyType::BasicScout, 1, (7, 7)),
        Enemy::new(3, EnemyType::BasicScout, 1, (20, 20)),
    ];
    let targets = find_chain_targets(&tower, &primary, &enemies, 2);
    assert_eq!(targets.len(), 2);
    assert!(targets.iter().all(|e| e.id != primary.id));
}

#[test]
fn test_find_aoe_targets() {
    let center = (5000, 5000);
    let radius = 2000;
    let enemies = vec![
        Enemy::new(0, EnemyType::BasicScout, 1, (5, 5)),
        Enemy::new(1, EnemyType::BasicScout, 1, (6, 6)),
        Enemy::new(2, EnemyType::BasicScout, 1, (10, 10)),
    ];
    let targets = find_aoe_targets(center, radius, &enemies);
    assert_eq!(targets.len(), 2);
    assert!(targets.iter().any(|e| e.id == 0));
    assert!(targets.iter().any(|e| e.id == 1));
}

#[test]
fn magic_double_damage_against_tank() {
    let magic = Tower::new(0, (1, 1), TowerType::Magic, 0);
    let scout = Enemy::new(0, EnemyType::BasicScout, 1, (1, 1));
    let tank = Enemy::new(1, EnemyType::Tank, 1, (1, 1));
    assert_eq!(calculate_damage(&magic, &scout), 15);
    assert_eq!(calculate_damage(&magic, &tank), 2 * calculate_damage(&magic, &scout));
    let ice = Tower::new(1, (1, 1), TowerType::Ice, 0);
    assert_eq!(calculate_damage(&ice, &tank), 5);
}

#[test]
fn target_ties_go_to_lowest_id() {
    let tower = Tower::new(0, (5, 5), TowerType::Cannon, 0);
    let mut a = Enemy::new(9, EnemyType::BasicScout, 1, (5, 6));
    a.path_index = 4;
    let mut b = Enemy::new(3, EnemyType::BasicScout, 1, (6, 5));
    b.path_index = 4;
    let mut dead = Enemy::new(1, EnemyType::BasicScout, 1, (5, 5));
    dead.path_index = 9;
    dead.health = 0;
    let enemies = vec![a, dead, b];
    assert_eq!(find_target(&tower, &enemies).unwrap().id, 3);
    let keyed: Vec<(u64, Enemy)> = enemies.iter().map(|e| (e.id + 100, *e)).collect();
    assert_eq!(find_target_id(&tower, &keyed), Some(103));
    assert_eq!(find_target_id(&tower, &[]), None);
}

#[test]
fn movement_partial_segment_and_slow_reset() {
    let path = vec![(0, 0), (4, 0), (4, 4)];
    let mut enemy = Enemy::new(0, EnemyType::BasicScout, 1, (0, 0));
    enemy.apply_slow(500);
    // half speed for two seconds: 1000 sub-tiles
    update_enemy_position(&mut enemy, &path, 2_000_000);
    assert_eq!(enemy.position, (1000, 0));
    assert_eq!(enemy.path_index, 1);
    assert_eq!(enemy.slow_multiplier, 1000);
    // full speed for 4.5 seconds: 3000 to the corner, 1500 down
    update_enemy_position(&mut enemy, &path, 4_500_000);
    assert_eq!(enemy.position, (4000, 1500));
    assert_eq!(enemy.path_index, 2);
}

#[test]
fn movement_past_the_end_and_beyond() {
    let path = vec![(0, 0), (1, 0)];
    let mut enemy = Enemy::new(0, EnemyType::FastRunner, 1, (0, 0));
    update_enemy_position(&mut enemy, &path, 10_000_000);
    assert_eq!(enemy.path_index, 2);
    assert_eq!(enemy.position, (1000, 0));
    // an enemy past the last waypoint stays put, slow included
    enemy.apply_slow(300);
    let before = enemy;
    update_enemy_position(&mut enemy, &path, 10_000_000);
    assert_eq!(enemy, before);
}

#[test]
fn diagonal_segment_uses_euclidean_length() {
    let path = vec![(3, 4)];
    let mut enemy = Enemy::new(0, EnemyType::BasicScout, 1, (0, 0));
    // 2.5 tiles along the 5-tile diagonal: half way
    update_enemy_position(&mut enemy, &path, 2_500_000);
    assert_eq!(enemy.position, (1500, 2000));
    assert_eq!(enemy.path_index, 0);
}

#[test]
fn chain_targets_respect_limit_and_order() {
    let tower = Tower::new(0, (5, 5), TowerType::Lightning, 0);
    let primary = Enemy::new(1, EnemyType::BasicScout, 1, (5, 5));
    let enemies = vec![
        Enemy::new(4, EnemyType::BasicScout, 1, (6, 5)),
        Enemy::new(1, EnemyType::BasicScout, 1, (5, 5)),
        Enemy::new(2, EnemyType::BasicScout, 1, (5, 6)),
        Enemy::new(3, EnemyType::BasicScout, 1, (4, 4)),
    ];
    let ids: Vec<u64> = find_chain_targets(&tower, &primary, &enemies, 2).iter().map(|e| e.id).collect();
    assert_eq!(ids, vec![4, 2]);
    let all: Vec<u64> = find_chain_targets(&tower, &primary, &enemies, 10).iter().map(|e| e.id).collect();
    assert_eq!(all, vec![4, 2, 3]);
    assert!(find_chain_targets(&tower, &primary, &enemies, 0).is_empty());
}
