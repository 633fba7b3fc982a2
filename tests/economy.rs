use tower_defense::economy::{
    calculate_kill_reward, calculate_sell_value, calculate_total_tower_value,
    calculate_tower_efficiency, calculate_tower_total_cost, calculate_wave_bonus, can_afford,
    recommend_tower, EconomyConfig, Strategy,
};
use tower_defense::enemy::EnemyType;
use tower_defense::tower::TowerType;

#[test]
fn test_calculate_kill_reward() {
    assert_eq!(calculate_kill_reward(EnemyType::BasicScout, 1), 10);
    assert_eq!(calculate_kill_reward(EnemyType::Boss, 1), 200);

    let wave1_reward = calculate_kill_reward(EnemyType::BasicScout, 1);
    let wave5_reward = calculate_kill_reward(EnemyType::BasicScout, 5);
    assert!(wave5_reward > wave1_reward);
}

#[test]
fn test_calculate_tower_total_cost() {
    assert_eq!(calculate_tower_total_cost(TowerType::Arrow, 1), 100);
    assert_eq!(calculate_tower_total_cost(TowerType::Arrow, 2), 250);
    assert_eq!(calculate_tower_total_cost(TowerType::Arrow, 3), 500);
}

#[test]
fn test_calculate_sell_value() {
    let config = EconomyConfig::default();
    assert_eq!(calculate_sell_value(TowerType::Arrow, 1, &config), 70);
    assert_eq!(calculate_sell_value(TowerType::Arrow, 3, &config), 350);
}

#[test]
fn test_calculate_wave_bonus() {
    let config = EconomyConfig::default();
    assert_eq!(calculate_wave_bonus(1, &config), 60);
    assert_eq!(calculate_wave_bonus(5, &config), 100);
    assert_eq!(calculate_wave_bonus(10, &config), 150);
}

#[test]
fn test_can_afford() {
    assert!(can_afford(100, 50));
    assert!(can_afford(100, 100));
    assert!(!can_afford(100, 101));
}

#[test]
fn test_calculate_total_tower_value() {
    let towers = vec![
        (TowerType::Arrow, 1),
        (TowerType::Arrow, 2),
        (TowerType::Cannon, 1),
    ];
    let total = calculate_total_tower_value(&towers);
    assert_eq!(total, 600);
}

fn more_efficient(a: TowerType, b: TowerType) -> bool {
    let ea = calculate_tower_efficiency(a, 1);
    let eb = calculate_tower_efficiency(b, 1);
    (ea.numerator as u128) * (eb.denominator as u128) > (eb.numerator as u128) * (ea.denominator as u128)
}

#[test]
fn test_calculate_tower_efficiency() {
    let arrow_eff = calculate_tower_efficiency(TowerType::Arrow, 1);
    assert!(arrow_eff.numerator > 0);

    let cannon_eff = calculate_tower_efficiency(TowerType::Cannon, 1);
    assert!(cannon_eff.numerator > 0);

    assert!(more_efficient(TowerType::Arrow, TowerType::Cannon));
}

#[test]
fn test_recommend_tower_efficiency() {
    let gold = 1000;
    let recommendation = recommend_tower(gold, Strategy::Efficiency);
    assert!(recommendation.is_some());
}

#[test]
fn test_recommend_tower_cheapest() {
    let gold = 150;
    let recommendation = recommend_tower(gold, Strategy::Cheapest);
    assert!(recommendation.is_some());
    let tower = recommendation.unwrap();
    assert_eq!(tower, TowerType::Arrow);
}

#[test]
fn test_recommend_tower_insufficient_gold() {
    let gold = 50;
    let recommendation = recommend_tower(gold, Strategy::Efficiency);
    assert!(recommendation.is_none());
}

#[test]
fn test_economy_config_default() {
    let config = EconomyConfig::default();
    assert_eq!(config.starting_gold, 500);
    assert_eq!(config.wave_completion_bonus, 50);
    assert_eq!(config.tower_sell_percent, 70);
}

#[test]
fn recommend_max_damage_picks_cannon() {
    // Cannon's 50 base damage is the highest of the table.
    assert_eq!(recommend_tower(1000, Strategy::MaxDamage), Some(TowerType::Cannon));
    // With 200 gold only Arrow, Ice and Magic are affordable: Magic hits hardest.
    assert_eq!(recommend_tower(200, Strategy::MaxDamage), Some(TowerType::Magic));
}

#[test]
fn recommend_efficiency_picks_arrow() {
    assert_eq!(recommend_tower(1000, Strategy::Efficiency), Some(TowerType::Arrow));
    assert_eq!(recommend_tower(100, Strategy::Efficiency), Some(TowerType::Arrow));
    assert_eq!(recommend_tower(99, Strategy::Cheapest), None);
}

#[test]
fn efficiency_fraction_values() {
    let e = calculate_tower_efficiency(TowerType::Arrow, 1);
    assert_eq!((e.numerator, e.denominator), (10_000, 50_000));
    let e3 = calculate_tower_efficiency(TowerType::Arrow, 3);
    assert_eq!((e3.numerator, e3.denominator), (20_000, 400 * 500));
}

#[test]
fn kill_reward_values() {
    assert_eq!(calculate_kill_reward(EnemyType::FastRunner, 2), 16);
    assert_eq!(calculate_kill_reward(EnemyType::Tank, 11), 100);
    assert_eq!(calculate_kill_reward(EnemyType::HeavySoldier, 0), 22);
}

#[test]
fn kill_reward_strictly_increasing_in_wave() {
    for t in [
        EnemyType::BasicScout,
        EnemyType::FastRunner,
        EnemyType::HeavySoldier,
        EnemyType::Tank,
        EnemyType::Boss,
    ] {
        for w in 0..200u32 {
            assert!(calculate_kill_reward(t, w) < calculate_kill_reward(t, w + 1));
        }
    }
}

#[test]
fn total_cost_past_the_last_level() {
    assert_eq!(calculate_tower_total_cost(TowerType::Lightning, 0), 300);
    assert_eq!(calculate_tower_total_cost(TowerType::Lightning, 9), 1300);
}

#[test]
fn sell_value_other_ratio_and_saturation() {
    let config = EconomyConfig { starting_gold: 0, wave_completion_bonus: 0, tower_sell_percent: 55 };
    assert_eq!(calculate_sell_value(TowerType::Ice, 2, &config), 192);
    let config = EconomyConfig { starting_gold: 0, wave_completion_bonus: 0, tower_sell_percent: u64::MAX };
    assert_eq!(calculate_sell_value(TowerType::Ice, 2, &config), u64::MAX);
}

#[test]
fn wave_bonus_saturates() {
    let config = EconomyConfig { starting_gold: 0, wave_completion_bonus: u64::MAX - 5, tower_sell_percent: 70 };
    assert_eq!(calculate_wave_bonus(1, &config), u64::MAX);
}

#[test]
fn test_recommend_tower_max_damage() {
    let gold = 1000;
    let recommendation = recommend_tower(gold, Strategy::MaxDamage);
    assert!(recommendation.is_some());
    let tower = recommendation.unwrap();
    // with 1000 gold every tower is affordable; Cannon's 50 is the highest base damage
    assert_eq!(tower, TowerType::Cannon);
}
