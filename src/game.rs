use vstd::prelude::*;

verus! {

/// Top-level state of a game: from the lobby to active play, ending in victory or defeat.
#[derive(Debug, Clone, Copy, PartialEq, Eq, Structural)]
pub enum GameStatus {
    Lobby,
    Active,
    Victory,
    Defeat,
}

impl Default for GameStatus {
    fn default() -> (r: Self)
        ensures
            r == GameStatus::Lobby,
    {
        GameStatus::Lobby
    }
}

/// Settings of a game.
#[derive(Debug, Clone, Copy, PartialEq, Eq, Structural)]
pub struct GameConfig {
    pub grid_width: u8,
    pub grid_height: u8,
    pub starting_gold: u64,
    pub base_health: u32,
    pub max_towers: usize,
}

impl Default for GameConfig {
    fn default() -> (r: Self)
        ensures
            r.grid_width == 20,
            r.grid_height == 20,
            r.starting_gold == 500,
            r.base_health == 20,
            r.max_towers == 50,
    {
        GameConfig {
            grid_width: 20,
            grid_height: 20,
            starting_gold: 500,
            base_health: 20,
            max_towers: 50,
        }
    }
}

/// The playing field and the fixed route enemies follow from the spawn to the base.
#[derive(Debug)]
pub struct Grid {
    pub width: u8,
    pub height: u8,
    pub path: Vec<(u8, u8)>,
    pub spawn_point: (u8, u8),
    pub base_point: (u8, u8),
}

impl Clone for Grid {
    fn clone(&self) -> (r: Self)
        ensures
            r.width == self.width,
            r.height == self.height,
            r.path@ == self.path@,
            r.spawn_point == self.spawn_point,
            r.base_point == self.base_point,
    {
        let mut path: Vec<(u8, u8)> = Vec::new();
        let mut i: usize = 0;
        while i < self.path.len()
            invariant
                i <= self.path@.len(),
                path@ == self.path@.subrange(0, i as int),
            decreases self.path@.len() - i,
        {
            path.push(self.path[i]);
            i = i + 1;
            assert(path@ =~= self.path@.subrange(0, i as int));
        }
        assert(path@ =~= self.path@);
        Grid {
            width: self.width,
            height: self.height,
            path,
            spawn_point: self.spawn_point,
            base_point: self.base_point,
        }
    }
}

/// `n` cells from `(x0, y0)`, each a step of `(dx, dy)` from the one before.
pub open spec fn segment(x0: int, y0: int, dx: int, dy: int, n: int) -> Seq<(u8, u8)> {
    Seq::new(n as nat, |i: int| ((x0 + i * dx) as u8, (y0 + i * dy) as u8))
}

/// The default route: right along row 10, up column 7, right along row 5, down
/// column 14, right along row 14 to the base.
pub open spec fn default_path() -> Seq<(u8, u8)> {
    segment(0, 10, 1, 0, 8) + segment(7, 9, 0, -1, 5) + segment(7, 5, 1, 0, 8) + segment(
        14,
        5,
        0,
        1,
        10,
    ) + segment(14, 14, 1, 0, 6)
}

impl Grid {
    /// The path is non-empty, runs from the spawn point to the base point, and stays
    /// inside the grid.
    pub open spec fn wf(&self) -> bool {
        &&& self.path@.len() > 0
        &&& self.path@[0] == self.spawn_point
        &&& self.path@.last() == self.base_point
        &&& forall|i: int|
            0 <= i < self.path@.len() ==> (#[trigger] self.path@[i]).0 < self.width
                && self.path@[i].1 < self.height
    }

    /// The default 20 x 20 grid.
    pub fn new() -> (r: Self)
        ensures
            r.wf(),
            r.width == 20,
            r.height == 20,
            r.spawn_point == (0u8, 10u8),
            r.base_point == (19u8, 14u8),
            r.path@ == default_path(),
    {
        let path = Self::generate_default_path();
        Grid { width: 20, height: 20, spawn_point: (0, 10), base_point: (19, 14), path }
    }

    fn generate_default_path() -> (r: Vec<(u8, u8)>)
        ensures
            r@ == default_path(),
    {
        let mut path: Vec<(u8, u8)> = Vec::new();
        let mut x: u8 = 0;
        while x < 8
            invariant
                x <= 8,
                path@ == segment(0, 10, 1, 0, x as int),
            decreases 8 - x,
        {
            path.push((x, 10));
            x = x + 1;
            assert(path@ =~= segment(0, 10, 1, 0, x as int));
        }
        let ghost on_row_ten = path@;
        let mut k: u8 = 0;
        while k < 5
            invariant
                k <= 5,
                path@ == on_row_ten + segment(7, 9, 0, -1, k as int),
            decreases 5 - k,
        {
            path.push((7, 9 - k));
            k = k + 1;
            assert(path@ =~= on_row_ten + segment(7, 9, 0, -1, k as int));
        }
        let ghost on_column_seven = path@;
        let mut x: u8 = 7;
        while x < 15
            invariant
                7 <= x <= 15,
                path@ == on_column_seven + segment(7, 5, 1, 0, x - 7),
            decreases 15 - x,
        {
            path.push((x, 5));
            x = x + 1;
            assert(path@ =~= on_column_seven + segment(7, 5, 1, 0, x - 7));
        }
        let ghost on_row_five = path@;
        let mut y: u8 = 5;
        while y < 15
            invariant
                5 <= y <= 15,
                path@ == on_row_five + segment(14, 5, 0, 1, y - 5),
            decreases 15 - y,
        {
            path.push((14, y));
            y = y + 1;
            assert(path@ =~= on_row_five + segment(14, 5, 0, 1, y - 5));
        }
        let ghost on_column_fourteen = path@;
        let mut x: u8 = 14;
        while x < 20
            invariant
                14 <= x <= 20,
                path@ == on_column_fourteen + segment(14, 14, 1, 0, x - 14),
            decreases 20 - x,
        {
            path.push((x, 14));
            x = x + 1;
            assert(path@ =~= on_column_fourteen + segment(14, 14, 1, 0, x - 14));
        }
        path
    }

    pub fn is_on_path(&self, pos: (u8, u8)) -> (r: bool)
        ensures
            r == self.path@.contains(pos),
    {
        let mut i: usize = 0;
        while i < self.path.len()
            invariant
                i <= self.path@.len(),
                forall|k: int| 0 <= k < i ==> self.path@[k] != pos,
            decreases self.path@.len() - i,
        {
            let p = self.path[i];
            if p.0 == pos.0 && p.1 == pos.1 {
                return true;
            }
            i = i + 1;
        }
        false
    }

    pub fn is_valid_position(&self, pos: (u8, u8)) -> (r: bool)
        ensures
            r == (pos.0 < self.width && pos.1 < self.height),
    {
        pos.0 < self.width && pos.1 < self.height
    }
}

impl Default for Grid {
    fn default() -> (r: Self)
        ensures
            r.wf(),
            r.width == 20,
            r.height == 20,
            r.spawn_point == (0u8, 10u8),
            r.base_point == (19u8, 14u8),
            r.path@ == default_path(),
    {
        Self::new()
    }
}

} // verus!
