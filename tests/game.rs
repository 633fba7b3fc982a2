use tower_defense::game::{GameConfig, GameStatus, Grid};

#[test]
fn test_default_grid() {
    let grid = Grid::new();
    assert_eq!(grid.width, 20);
    assert_eq!(grid.height, 20);
    assert_eq!(grid.spawn_point, (0, 10));
    assert_eq!(grid.base_point, (19, 14));
    assert!(!grid.path.is_empty());
}

#[test]
fn test_is_on_path() {
    let grid = Grid::new();
    assert!(grid.is_on_path((0, 10)));
    assert!(grid.is_on_path((7, 5)));
    assert!(!grid.is_on_path((0, 0)));
}

#[test]
fn test_is_valid_position() {
    let grid = Grid::new();
    assert!(grid.is_valid_position((0, 0)));
    assert!(grid.is_valid_position((19, 19)));
    assert!(!grid.is_valid_position((20, 20)));
}

#[test]
fn test_game_config_default() {
    let config = GameConfig::default();
    assert_eq!(config.grid_width, 20);
    assert_eq!(config.starting_gold, 500);
    assert_eq!(config.base_health, 20);
}

#[test]
fn default_path_shape() {
    let grid = Grid::default();
    assert_eq!(grid.path.len(), 37);
    assert_eq!(grid.path[0], grid.spawn_point);
    assert_eq!(*grid.path.last().unwrap(), grid.base_point);
    assert_eq!(grid.path[8], (7, 9));
    assert_eq!(grid.path[13], (7, 5));
    assert_eq!(grid.path[21], (14, 5));
    assert!(grid.is_on_path((14, 10)));
    assert!(!grid.is_on_path((13, 10)));
    let copy = grid.clone();
    assert_eq!(copy.path, grid.path);
}

#[test]
fn default_status_is_lobby() {
    assert_eq!(GameStatus::default(), GameStatus::Lobby);
    assert_eq!(GameConfig::default().max_towers, 50);
}
