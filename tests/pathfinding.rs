use tower_defense::pathfinding::{find_path, would_block_path, Position};

fn is_walk(path: &[Position], blocked: &[Position], width: u8, height: u8) -> bool {
    for (i, p) in path.iter().enumerate() {
        if p.x >= width || p.y >= height || blocked.contains(p) {
            return false;
        }
        if i > 0 {
            let q = path[i - 1];
            if q.manhattan_distance(p) != 1 {
                return false;
            }
        }
    }
    true
}

#[test]
fn test_position_manhattan_distance() {
    let origin = Position::new(0, 0);
    let corner = Position::new(3, 4);
    assert_eq!(origin.manhattan_distance(&corner), 7);
}

#[test]
fn test_position_neighbors() {
    let pos = Position::new(5, 5);
    let neighbors = pos.neighbors(10, 10);
    assert_eq!(neighbors.len(), 4);
    assert!(neighbors.contains(&Position::new(5, 4)));
    assert!(neighbors.contains(&Position::new(5, 6)));
    assert!(neighbors.contains(&Position::new(4, 5)));
    assert!(neighbors.contains(&Position::new(6, 5)));
}

#[test]
fn test_position_neighbors_corner() {
    let pos = Position::new(0, 0);
    let neighbors = pos.neighbors(10, 10);
    assert_eq!(neighbors.len(), 2);
    assert!(neighbors.contains(&Position::new(1, 0)));
    assert!(neighbors.contains(&Position::new(0, 1)));
}

#[test]
fn test_find_path_straight_line() {
    let start = Position::new(0, 0);
    let goal = Position::new(5, 0);
    let blocked = Vec::new();

    let path = find_path(start, goal, 10, 10, &blocked);

    assert!(path.is_some());
    let path = path.unwrap();
    assert_eq!(path.len(), 6);
    assert_eq!(path[0], start);
    assert_eq!(path[path.len() - 1], goal);
}

#[test]
fn test_find_path_with_obstacle() {
    let start = Position::new(0, 0);
    let goal = Position::new(2, 0);
    let mut blocked = Vec::new();
    blocked.push(Position::new(1, 0));

    let path = find_path(start, goal, 10, 10, &blocked);

    assert!(path.is_some());
    let path = path.unwrap();
    assert!(!path.contains(&Position::new(1, 0)));
    assert_eq!(path[0], start);
    assert_eq!(path[path.len() - 1], goal);
}

#[test]
fn test_find_path_no_path() {
    let start = Position::new(0, 0);
    let goal = Position::new(2, 0);
    let mut blocked = Vec::new();
    blocked.push(Position::new(1, 0));
    for y in 0..10 {
        blocked.push(Position::new(1, y));
    }

    let path = find_path(start, goal, 10, 10, &blocked);
    assert!(path.is_none());
}

#[test]
fn test_would_block_path() {
    let start = Position::new(0, 5);
    let goal = Position::new(9, 5);
    let blocked = Vec::new();

    let would_block = would_block_path(Position::new(5, 5), start, goal, 10, 10, &blocked);
    assert!(!would_block);
}

#[test]
fn test_would_block_path_blocks() {
    let start = Position::new(0, 0);
    let goal = Position::new(2, 0);

    let mut test_blocked = Vec::new();
    for y in 1..10 {
        test_blocked.push(Position::new(1, y));
    }

    let would_block = would_block_path(Position::new(1, 0), start, goal, 10, 10, &test_blocked);
    assert!(would_block);
}

#[test]
fn test_complex_path() {
    let start = Position::new(0, 0);
    let goal = Position::new(9, 9);
    let mut blocked = Vec::new();
    for i in 2..7 {
        blocked.push(Position::new(i, 5));
        blocked.push(Position::new(5, i));
    }

    let path = find_path(start, goal, 10, 10, &blocked);
    assert!(path.is_some());
    let path = path.unwrap();
    for pos in &path {
        assert!(!blocked.contains(pos));
    }
    assert_eq!(path[0], start);
    assert_eq!(path[path.len() - 1], goal);
}

#[test]
fn open_grid_paths_are_shortest() {
    let blocked = Vec::new();
    let cases = [((0, 0), (5, 0)), ((0, 0), (9, 9)), ((3, 7), (8, 1)), ((4, 4), (4, 4))];
    for (s, g) in cases {
        let start = Position::new(s.0, s.1);
        let goal = Position::new(g.0, g.1);
        let path = find_path(start, goal, 10, 10, &blocked).unwrap();
        assert_eq!(path.len() as u32, start.manhattan_distance(&goal) + 1);
        assert!(is_walk(&path, &blocked, 10, 10));
    }
}

#[test]
fn detour_around_wall_is_valid_walk() {
    let mut blocked = Vec::new();
    for y in 0..9 {
        blocked.push(Position::new(4, y));
    }
    let start = Position::new(0, 0);
    let goal = Position::new(8, 0);
    let path = find_path(start, goal, 10, 10, &blocked).unwrap();
    assert!(is_walk(&path, &blocked, 10, 10));
    assert!(path.contains(&Position::new(4, 9)));
    // the shortest detour goes down to row 9 and back: 8 + 2 * 9 steps
    assert_eq!(path.len(), 27);
}

#[test]
fn blocked_or_outside_start_gives_no_path() {
    let blocked = vec![Position::new(0, 0)];
    assert!(find_path(Position::new(0, 0), Position::new(3, 3), 10, 10, &blocked).is_none());
    let none = Vec::new();
    assert!(find_path(Position::new(12, 0), Position::new(3, 3), 10, 10, &none).is_none());
    assert!(find_path(Position::new(0, 0), Position::new(3, 30), 10, 10, &none).is_none());
    assert!(find_path(Position::new(0, 0), Position::new(0, 0), 0, 0, &none).is_none());
}

#[test]
fn blocked_goal_gives_no_path() {
    let blocked = vec![Position::new(3, 3)];
    assert!(find_path(Position::new(0, 0), Position::new(3, 3), 10, 10, &blocked).is_none());
    assert!(would_block_path(Position::new(3, 3), Position::new(0, 0), Position::new(3, 3), 10, 10, &Vec::new()));
}

#[test]
fn neighbors_at_far_edge() {
    let pos = Position::new(9, 9);
    let neighbors = pos.neighbors(10, 10);
    assert_eq!(neighbors, vec![Position::new(9, 8), Position::new(8, 9)]);
}

#[test]
fn tuple_round_trip() {
    let p = Position::from_tuple((7, 3));
    assert_eq!(p, Position::new(7, 3));
    assert_eq!(p.to_tuple(), (7, 3));
}

#[test]
fn obstacle_detour_is_shortest() {
    let blocked = vec![Position::new(1, 0)];
    let path = find_path(Position::new(0, 0), Position::new(2, 0), 10, 10, &blocked).unwrap();
    assert_eq!(path.len(), 5);
    assert!(is_walk(&path, &blocked, 10, 10));
    for i in 0..path.len() {
        for j in i + 1..path.len() {
            assert_ne!(path[i], path[j]);
        }
    }
}
