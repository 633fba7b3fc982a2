use tower_defense::combat::find_target;
use tower_defense::economy::{calculate_kill_reward, calculate_sell_value, EconomyConfig};
use tower_defense::enemy::{Enemy, EnemyType};
use tower_defense::game::Grid;
use tower_defense::pathfinding::{find_path, Position};
use tower_defense::tower::{Tower, TowerType};
use tower_defense::wave::generate_wave;

#[test]
fn test_tower_placement_on_grid() {
    let grid = Grid::new();
    assert_eq!(grid.width, 20);
    assert_eq!(grid.height, 20);
    assert!(grid.is_valid_position((0, 0)));
    assert!(grid.is_valid_position((19, 19)));
    assert!(!grid.is_valid_position((20, 0)));
    assert!(!grid.is_valid_position((0, 20)));
}

#[test]
fn test_tower_cannot_be_placed_on_path() {
    let grid = Grid::new();
    assert!(grid.is_on_path((0, 10)));
    assert!(!grid.is_on_path((0, 0)));
}

#[test]
fn test_tower_upgrade_progression() {
    let mut tower = Tower::new(0, (5, 5), TowerType::Arrow, 0);
    assert_eq!(tower.level, 1);
    assert_eq!(tower.stats.damage, 10);
    assert!(tower.upgrade().is_ok());
    assert_eq!(tower.level, 2);
    assert!(tower.stats.damage > 10);
    assert!(tower.upgrade().is_ok());
    assert_eq!(tower.level, 3);
    assert!(tower.upgrade().is_err());
}

#[test]
fn test_enemy_takes_damage() {
    let mut enemy = Enemy::new(0, EnemyType::BasicScout, 1, (0, 10));
    let initial_health = enemy.health;
    assert!(enemy.is_alive());
    let killed = enemy.take_damage(10);
    assert!(!killed);
    assert!(enemy.is_alive());
    assert!(enemy.health < initial_health);
    let killed = enemy.take_damage(1000);
    assert!(killed);
    assert!(!enemy.is_alive());
}

#[test]
fn game_logic_test_test_wave_generation() {
    let enemies = generate_wave(1, (0, 10));
    assert!(!enemies.is_empty());
    for enemy in &enemies {
        assert_eq!(enemy.position, (0, 10000));
    }
}

#[test]
fn game_logic_test_test_boss_wave() {
    let enemies = generate_wave(10, (0, 10));
    let has_boss = enemies.iter().any(|e| e.enemy_type == EnemyType::Boss);
    assert!(has_boss);
}

#[test]
fn test_economy_rewards() {
    let wave1_reward = calculate_kill_reward(EnemyType::BasicScout, 1);
    let wave10_reward = calculate_kill_reward(EnemyType::BasicScout, 10);
    assert!(wave10_reward > wave1_reward);
    let boss_reward = calculate_kill_reward(EnemyType::Boss, 1);
    assert!(boss_reward > wave1_reward);
}

#[test]
fn game_logic_test_test_tower_sell_value() {
    let config = EconomyConfig::default();
    let buy_cost = TowerType::Arrow.cost();
    let sell_value = calculate_sell_value(TowerType::Arrow, 1, &config);
    assert!(sell_value < buy_cost);
    assert_eq!(sell_value, 70);
}

#[test]
fn test_pathfinding() {
    let start = Position::new(0, 0);
    let goal = Position::new(5, 5);
    let blocked = Vec::new();
    let path = find_path(start, goal, 20, 20, &blocked);
    assert!(path.is_some());
    let path = path.unwrap();
    assert_eq!(path[0], start);
    assert_eq!(path[path.len() - 1], goal);
}

#[test]
fn test_combat_targeting() {
    let tower = Tower::new(0, (5, 5), TowerType::Arrow, 0);
    let enemies = vec![
        Enemy::new(0, EnemyType::BasicScout, 1, (6, 5)),
        {
            let mut e = Enemy::new(1, EnemyType::BasicScout, 1, (7, 5));
            e.path_index = 5;
            e
        },
        {
            let mut e = Enemy::new(2, EnemyType::BasicScout, 1, (20, 20));
            e.path_index = 10;
            e
        },
    ];
    let target = find_target(&tower, &enemies);
    assert!(target.is_some());
    assert_eq!(target.unwrap().id, 1);
}
