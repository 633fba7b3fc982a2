use tower_defense::tower::{Tower, TowerType};

#[test]
fn test_tower_costs() {
    assert_eq!(TowerType::Arrow.cost(), 100);
    assert_eq!(TowerType::Cannon.cost(), 250);
    assert_eq!(TowerType::Magic.cost(), 200);
    assert_eq!(TowerType::Ice.cost(), 150);
    assert_eq!(TowerType::Lightning.cost(), 300);
}

#[test]
fn test_tower_upgrade_cost() {
    let tower_type = TowerType::Arrow;
    assert_eq!(tower_type.upgrade_cost(2), Some(150));
    assert_eq!(tower_type.upgrade_cost(3), Some(250));
    assert_eq!(tower_type.upgrade_cost(4), None);
}

#[test]
fn tower_test_tower_sell_value() {
    let tower_type = TowerType::Arrow;
    assert_eq!(tower_type.sell_value(1), 70);
    assert_eq!(tower_type.sell_value(2), 175);
    assert_eq!(tower_type.sell_value(3), 350);
}

#[test]
fn test_tower_stats_upgrade() {
    let base_stats = TowerType::Arrow.base_stats();
    assert_eq!(base_stats.damage, 10);

    let lvl2_stats = base_stats.upgraded(2);
    assert_eq!(lvl2_stats.damage, 15);

    let lvl3_stats = base_stats.upgraded(3);
    assert_eq!(lvl3_stats.damage, 20);
    assert_eq!(lvl3_stats.range, 4);
}

#[test]
fn test_tower_creation() {
    let tower = Tower::new(0, (5, 5), TowerType::Arrow, 0);
    assert_eq!(tower.id, 0);
    assert_eq!(tower.position, (5, 5));
    assert_eq!(tower.level, 1);
    assert_eq!(tower.stats.damage, 10);
}

#[test]
fn test_tower_in_range() {
    let tower = Tower::new(0, (5, 5), TowerType::Arrow, 0);
    assert!(tower.in_range((5000, 7000)));
    assert!(tower.in_range((8000, 5000)));
    assert!(!tower.in_range((10000, 10000)));
}

#[test]
fn test_tower_upgrade() {
    let mut tower = Tower::new(0, (5, 5), TowerType::Arrow, 0);
    assert_eq!(tower.level, 1);
    assert_eq!(tower.stats.damage, 10);

    assert!(tower.upgrade().is_ok());
    assert_eq!(tower.level, 2);
    assert_eq!(tower.stats.damage, 15);

    assert!(tower.upgrade().is_ok());
    assert_eq!(tower.level, 3);
    assert_eq!(tower.stats.damage, 20);

    assert!(tower.upgrade().is_err());
    assert_eq!(tower.level, 3);
}

#[test]
fn test_tower_can_fire() {
    let tower = Tower::new(0, (5, 5), TowerType::Arrow, 0);
    assert!(tower.can_fire(500_000));
    assert!(!tower.can_fire(400_000));
}

#[test]
fn upgraded_stats_of_every_type() {
    // level 2: damage +50%, fire interval x0.9; level 3: damage x2, range +1, interval x0.8
    let cannon = TowerType::Cannon.base_stats();
    let c2 = cannon.upgraded(2);
    assert_eq!((c2.damage, c2.range, c2.fire_rate_ms), (75, 4, 1800));
    let c3 = cannon.upgraded(3);
    assert_eq!((c3.damage, c3.range, c3.fire_rate_ms), (100, 5, 1600));
    let ice = TowerType::Ice.base_stats();
    assert_eq!(ice.upgraded(2).fire_rate_ms, 720);
    assert_eq!(ice.upgraded(3).fire_rate_ms, 640);
    // any other level leaves the stats alone
    assert_eq!(ice.upgraded(4), ice);
    assert_eq!(ice.upgraded(1), ice);
}

#[test]
fn damage_strictly_increases_over_levels() {
    for t in [
        TowerType::Arrow,
        TowerType::Cannon,
        TowerType::Magic,
        TowerType::Ice,
        TowerType::Lightning,
    ] {
        let base = t.base_stats();
        assert!(base.upgraded(1).damage < base.upgraded(2).damage);
        assert!(base.upgraded(2).damage < base.upgraded(3).damage);
    }
}

#[test]
fn arrow_scenario_through_two_upgrades() {
    let mut tower = Tower::new(7, (2, 3), TowerType::Arrow, 0);
    assert_eq!(tower.stats.damage, 10);
    assert_eq!(TowerType::Arrow.cost(), 100);
    assert_eq!(TowerType::Arrow.sell_value(1), 70);
    tower.upgrade().unwrap();
    tower.upgrade().unwrap();
    assert_eq!(tower.stats.damage, 20);
    assert_eq!(tower.stats.range, 4);
}

#[test]
fn record_damage_saturates() {
    let mut tower = Tower::new(0, (1, 1), TowerType::Magic, 0);
    tower.record_damage(40);
    tower.record_damage(2);
    assert_eq!(tower.total_damage_dealt, 42);
    tower.record_damage(u64::MAX);
    assert_eq!(tower.total_damage_dealt, u64::MAX);
}

#[test]
fn can_fire_with_clock_before_last_shot() {
    let tower = Tower::new(0, (1, 1), TowerType::Arrow, 1_000_000);
    assert!(!tower.can_fire(0));
    assert!(tower.can_fire(1_500_000));
}

#[test]
fn upgrade_past_max_level_reports_reason() {
    let mut tower = Tower::new(0, (5, 5), TowerType::Arrow, 0);
    tower.upgrade().unwrap();
    tower.upgrade().unwrap();
    assert_eq!(tower.upgrade(), Err("Tower already at max level"));
    assert_eq!(tower.level, 3);
}
