use vstd::prelude::*;

verus! {

/// A cell of the grid.
#[derive(Debug, Clone, Copy, PartialEq, Eq, Hash, Structural)]
pub struct Position {
    pub x: u8,
    pub y: u8,
}

/// Marks a cell that the search has not reached.
pub const UNSEEN: u32 = 0xffff_ffff;

pub open spec fn abs_diff(a: u8, b: u8) -> int {
    if a >= b {
        a - b
    } else {
        b - a
    }
}

pub open spec fn manhattan(a: Position, b: Position) -> int {
    abs_diff(a.x, b.x) + abs_diff(a.y, b.y)
}

/// The cells share a side.
pub open spec fn adjacent(a: Position, b: Position) -> bool {
    manhattan(a, b) == 1
}

pub open spec fn in_bounds(p: Position, width: int, height: int) -> bool {
    p.x < width && p.y < height
}

/// `p` walks from `start` to `goal` through free cells of the grid, one side at a time.
pub open spec fn is_path(
    p: Seq<Position>,
    start: Position,
    goal: Position,
    width: int,
    height: int,
    blocked: Seq<Position>,
) -> bool {
    &&& p.len() >= 1
    &&& p[0] == start
    &&& p.last() == goal
    &&& forall|i: int|
        0 <= i < p.len() ==> in_bounds(#[trigger] p[i], width, height) && !blocked.contains(p[i])
    &&& forall|i: int| 0 <= i < p.len() - 1 ==> adjacent(#[trigger] p[i], p[i + 1])
}

/// Some walk leads from `start` to `goal` avoiding `blocked`.
pub open spec fn reachable(
    start: Position,
    goal: Position,
    width: int,
    height: int,
    blocked: Seq<Position>,
) -> bool {
    exists|p: Seq<Position>| is_path(p, start, goal, width, height, blocked)
}

/// The cells `neighbors` lists, in order: up, down, left, right.
pub open spec fn neighbor_seq(p: Position, width: int, height: int) -> Seq<Position> {
    (if p.y > 0 {
        seq![Position { x: p.x, y: (p.y - 1) as u8 }]
    } else {
        Seq::empty()
    }) + (if p.y < height - 1 {
        seq![Position { x: p.x, y: (p.y + 1) as u8 }]
    } else {
        Seq::empty()
    }) + (if p.x > 0 {
        seq![Position { x: (p.x - 1) as u8, y: p.y }]
    } else {
        Seq::empty()
    }) + (if p.x < width - 1 {
        seq![Position { x: (p.x + 1) as u8, y: p.y }]
    } else {
        Seq::empty()
    })
}

impl Position {
    pub fn new(x: u8, y: u8) -> (r: Self)
        ensures
            r.x == x,
            r.y == y,
    {
        Position { x, y }
    }

    pub fn from_tuple(pos: (u8, u8)) -> (r: Self)
        ensures
            r.x == pos.0,
            r.y == pos.1,
    {
        Position { x: pos.0, y: pos.1 }
    }

    pub fn to_tuple(&self) -> (r: (u8, u8))
        ensures
            r == (self.x, self.y),
    {
        (self.x, self.y)
    }

    pub fn manhattan_distance(&self, other: &Position) -> (r: u32)
        ensures
            r == manhattan(*self, *other),
    {
        let dx = if self.x > other.x {
            self.x - other.x
        } else {
            other.x - self.x
        };
        let dy = if self.y > other.y {
            self.y - other.y
        } else {
            other.y - self.y
        };
        (dx as u32) + (dy as u32)
    }

    /// The orthogonal neighbours of this cell that lie below `width` and `height`
    /// (for a cell inside the grid: exactly its in-bounds neighbours).
    pub fn neighbors(&self, width: u8, height: u8) -> (r: Vec<Position>)
        requires
            width > 0,
            height > 0,
        ensures
            r@ == neighbor_seq(*self, width as int, height as int),
            in_bounds(*self, width as int, height as int) ==> forall|q: Position|
                r@.contains(q) <==> in_bounds(q, width as int, height as int) && adjacent(*self, q),
    {
        let mut neighbors: Vec<Position> = Vec::new();
        let ghost up = Position { x: self.x, y: (self.y - 1) as u8 };
        let ghost down = Position { x: self.x, y: (self.y + 1) as u8 };
        let ghost left = Position { x: (self.x - 1) as u8, y: self.y };
        let ghost right = Position { x: (self.x + 1) as u8, y: self.y };
        if self.y > 0 {
            neighbors.push(Position::new(self.x, self.y - 1));
        }
        let ghost n_up = neighbors@;
        if self.y < height - 1 {
            neighbors.push(Position::new(self.x, self.y + 1));
        }
        let ghost n_down = neighbors@;
        if self.x > 0 {
            neighbors.push(Position::new(self.x - 1, self.y));
        }
        let ghost n_left = neighbors@;
        if self.x < width - 1 {
            neighbors.push(Position::new(self.x + 1, self.y));
        }
        proof {
            let s = neighbor_seq(*self, width as int, height as int);
            assert(neighbors@ =~= s);
            assert(n_up.len() <= n_down.len() <= n_left.len() <= neighbors@.len());
            assert(forall|i: int| 0 <= i < n_up.len() ==> n_down[i] == n_up[i]);
            assert(forall|i: int| 0 <= i < n_down.len() ==> n_left[i] == n_down[i]);
            assert(forall|i: int| 0 <= i < n_left.len() ==> neighbors@[i] == n_left[i]);
            if in_bounds(*self, width as int, height as int) {
                assert forall|q: Position|
                    neighbors@.contains(q) <==> in_bounds(q, width as int, height as int) && adjacent(
                        *self,
                        q,
                    ) by {
                    if in_bounds(q, width as int, height as int) && adjacent(*self, q) {
                        if q.x == self.x && q.y + 1 == self.y {
                            assert(q == up);
                            assert(neighbors@[n_up.len() - 1] == q);
                        } else if q.x == self.x && q.y == self.y + 1 {
                            assert(q == down);
                            assert(neighbors@[n_down.len() - 1] == q);
                        } else if q.y == self.y && q.x + 1 == self.x {
                            assert(q == left);
                            assert(neighbors@[n_left.len() - 1] == q);
                        } else {
                            assert(q == right);
                            assert(neighbors@[neighbors@.len() - 1] == q);
                        }
                    }
                    if neighbors@.contains(q) {
                        let i = choose|i: int| 0 <= i < neighbors@.len() && neighbors@[i] == q;
                        assert(q == up || q == down || q == left || q == right);
                    }
                }
            }
        }
        neighbors
    }
}

fn contains_position(list: &Vec<Position>, p: Position) -> (r: bool)
    ensures
        r == list@.contains(p),
{
    let mut i: usize = 0;
    while i < list.len()
        invariant
            i <= list.len(),
            forall|k: int| 0 <= k < i ==> list@[k] != p,
        decreases list.len() - i,
    {
        if list[i] == p {
            return true;
        }
        i = i + 1;
    }
    false
}

// ----- bookkeeping of the search -----

/// Slot of an in-bounds cell in the per-cell tables.
pub open spec fn slot(p: Position, height: int) -> int {
    p.x * height + p.y
}

pub open spec fn seen(g: Seq<u32>, p: Position, height: int) -> bool {
    g[slot(p, height)] != UNSEEN
}

pub open spec fn sum_map(s: Seq<u32>, f: spec_fn(u32) -> int) -> int
    decreases s.len(),
{
    if s.len() == 0 {
        0
    } else {
        sum_map(s.drop_last(), f) + f(s.last())
    }
}

pub open spec fn seen_weight() -> spec_fn(u32) -> int {
    |v: u32| if v == UNSEEN { 0int } else { 1int }
}

/// Unseen cells weigh `cap`, seen ones their distance (which stays below `cap`).
pub open spec fn pot_weight(cap: int) -> spec_fn(u32) -> int {
    |v: u32| if v >= cap { cap } else { v as int }
}

pub open spec fn seen_count(g: Seq<u32>) -> int {
    sum_map(g, seen_weight())
}

pub open spec fn potential(g: Seq<u32>, cap: int) -> int {
    sum_map(g, pot_weight(cap))
}

proof fn lemma_sum_update(s: Seq<u32>, i: int, v: u32, f: spec_fn(u32) -> int)
    requires
        0 <= i < s.len(),
    ensures
        sum_map(s.update(i, v), f) == sum_map(s, f) - f(s[i]) + f(v),
    decreases s.len(),
{
    let t = s.update(i, v);
    if i == s.len() - 1 {
        assert(t.drop_last() =~= s.drop_last());
    } else {
        lemma_sum_update(s.drop_last(), i, v, f);
        assert(t.drop_last() =~= s.drop_last().update(i, v));
    }
}

proof fn lemma_sum_bounds(s: Seq<u32>, f: spec_fn(u32) -> int, m: int)
    requires
        forall|v: u32| 0 <= #[trigger] f(v) <= m,
    ensures
        0 <= sum_map(s, f) <= m * s.len(),
    decreases s.len(),
{
    if s.len() > 0 {
        lemma_sum_bounds(s.drop_last(), f, m);
        assert(m * (s.len() - 1) + m == m * s.len()) by (nonlinear_arith);
    }
}

proof fn lemma_sum_push(s: Seq<u32>, v: u32, f: spec_fn(u32) -> int)
    ensures
        sum_map(s.push(v), f) == sum_map(s, f) + f(v),
{
    assert(s.push(v).drop_last() =~= s);
}

fn slot_of(p: Position, width: u8, height: u8) -> (r: usize)
    requires
        in_bounds(p, width as int, height as int),
    ensures
        r == slot(p, height as int),
        r < width * height,
{
    proof {
        lemma_slot(p, p, width as int, height as int);
    }
    assert(p.x as usize * height as usize <= 255 * 255) by (nonlinear_arith)
        requires
            p.x <= 255,
            height <= 255,
    ;
    p.x as usize * height as usize + p.y as usize
}

proof fn lemma_slot(p: Position, q: Position, width: int, height: int)
    requires
        in_bounds(p, width, height),
        in_bounds(q, width, height),
    ensures
        0 <= slot(p, height) < width * height,
        slot(p, height) == slot(q, height) ==> p == q,
{
    assert(0 <= p.x * height + p.y < width * height) by (nonlinear_arith)
        requires
            0 <= p.x < width,
            0 <= p.y < height,
    ;
    if p.x < q.x {
        assert(p.x * height + p.y < q.x * height + q.y) by (nonlinear_arith)
            requires
                p.x < q.x,
                0 <= p.y < height,
                0 <= q.y,
        ;
    } else if q.x < p.x {
        assert(q.x * height + q.y < p.x * height + p.y) by (nonlinear_arith)
            requires
                q.x < p.x,
                0 <= q.y < height,
                0 <= p.y,
        ;
    }
}

/// Every seen cell is free, and every seen cell but the start has a seen, adjacent
/// parent that is strictly closer to the start.
pub open spec fn tree_ok(
    g: Seq<u32>,
    parent: Seq<Position>,
    start: Position,
    width: int,
    height: int,
    blocked: Seq<Position>,
) -> bool {
    &&& g.len() == width * height
    &&& parent.len() == width * height
    &&& in_bounds(start, width, height)
    &&& g[slot(start, height)] == 0
    &&& forall|p: Position|
        in_bounds(p, width, height) && #[trigger] seen(g, p, height) ==> !blocked.contains(p)
    &&& forall|p: Position|
        in_bounds(p, width, height) && #[trigger] seen(g, p, height) && p != start ==> {
            let q = parent[slot(p, height)];
            &&& in_bounds(q, width, height)
            &&& seen(g, q, height)
            &&& g[slot(q, height)] < g[slot(p, height)]
            &&& adjacent(q, p)
        }
}

pub open spec fn in_open(open: Seq<(u32, Position)>, p: Position) -> bool {
    exists|k: int| 0 <= k < open.len() && (#[trigger] open[k]).1 == p
}

/// Every free in-bounds neighbour of `p` has been seen.
pub open spec fn expanded(
    g: Seq<u32>,
    p: Position,
    width: int,
    height: int,
    blocked: Seq<Position>,
) -> bool {
    forall|q: Position|
        in_bounds(q, width, height) && adjacent(p, q) && !blocked.contains(q) ==> #[trigger] seen(
            g,
            q,
            height,
        )
}

proof fn lemma_remove_keeps(open: Seq<(u32, Position)>, k0: int, p: Position)
    requires
        0 <= k0 < open.len(),
        in_open(open, p),
        open[k0].1 != p,
    ensures
        in_open(open.remove(k0), p),
{
    let k = choose|k: int| 0 <= k < open.len() && (#[trigger] open[k]).1 == p;
    if k < k0 {
        assert(open.remove(k0)[k].1 == p);
    } else {
        assert(open.remove(k0)[k - 1].1 == p);
    }
}

/// Taking an entry off the queue keeps every other seen cell queued or expanded.
proof fn lemma_pop_keeps_frontier(
    g: Seq<u32>,
    open: Seq<(u32, Position)>,
    best: int,
    goal: Position,
    width: int,
    height: int,
    blocked: Seq<Position>,
)
    requires
        0 <= best < open.len(),
        open[best].1 != goal,
        forall|p: Position|
            in_bounds(p, width, height) && #[trigger] seen(g, p, height) ==> in_open(open, p)
                || expanded(g, p, width, height, blocked),
        in_bounds(goal, width, height) && seen(g, goal, height) ==> in_open(open, goal),
    ensures
        forall|p: Position|
            in_bounds(p, width, height) && #[trigger] seen(g, p, height) && p != open[best].1
                ==> in_open(open.remove(best), p) || expanded(g, p, width, height, blocked),
        in_bounds(goal, width, height) && seen(g, goal, height) ==> in_open(
            open.remove(best),
            goal,
        ),
{
    assert forall|p: Position|
        in_bounds(p, width, height) && #[trigger] seen(g, p, height) && p != open[best].1 implies in_open(
        open.remove(best),
        p,
    ) || expanded(g, p, width, height, blocked) by {
        if in_open(open, p) {
            lemma_remove_keeps(open, best, p);
        }
    }
    if in_bounds(goal, width, height) && seen(g, goal, height) {
        lemma_remove_keeps(open, best, goal);
    }
}

/// With the search exhausted, every cell of a walk from the start has been seen.
proof fn lemma_walk_seen(
    g: Seq<u32>,
    path: Seq<Position>,
    start: Position,
    goal: Position,
    width: int,
    height: int,
    blocked: Seq<Position>,
    i: int,
)
    requires
        is_path(path, start, goal, width, height, blocked),
        0 <= i < path.len(),
        seen(g, start, height),
        forall|p: Position|
            in_bounds(p, width, height) && #[trigger] seen(g, p, height) ==> expanded(
                g,
                p,
                width,
                height,
                blocked,
            ),
    ensures
        seen(g, path[i], height),
    decreases i,
{
    if i > 0 {
        lemma_walk_seen(g, path, start, goal, width, height, blocked, i - 1);
        let a = path[i - 1];
        let b = path[i];
        assert(in_bounds(a, width, height));
        assert(adjacent(a, b));
        assert(expanded(g, a, width, height, blocked));
        assert(in_bounds(b, width, height) && !blocked.contains(b));
    }
}

/// Any walk between two cells has at least one more cell than their Manhattan distance.
pub proof fn walks_are_no_shorter_than_distance(
    p: Seq<Position>,
    start: Position,
    goal: Position,
    width: int,
    height: int,
    blocked: Seq<Position>,
)
    requires
        is_path(p, start, goal, width, height, blocked),
    ensures
        p.len() >= manhattan(start, goal) + 1,
{
    lemma_walk_prefix_distance(p, start, goal, width, height, blocked, p.len() - 1);
}

proof fn lemma_walk_prefix_distance(
    p: Seq<Position>,
    start: Position,
    goal: Position,
    width: int,
    height: int,
    blocked: Seq<Position>,
    i: int,
)
    requires
        is_path(p, start, goal, width, height, blocked),
        0 <= i < p.len(),
    ensures
        manhattan(start, p[i]) <= i,
    decreases i,
{
    if i > 0 {
        lemma_walk_prefix_distance(p, start, goal, width, height, blocked, i - 1);
        assert(adjacent(p[i - 1], p[i]));
    }
}

// ----- why the first walk found on an open grid is a shortest one -----

pub open spec fn queued(open: Seq<(u32, Position)>, p: Position, f: int) -> bool {
    exists|k: int| 0 <= k < open.len() && (#[trigger] open[k]).1 == p && open[k].0 == f
}

/// `p` has been expanded since its distance last changed, so each free neighbour is at
/// most one step further from the start than `p`.
pub open spec fn settled(
    g: Seq<u32>,
    p: Position,
    width: int,
    height: int,
    blocked: Seq<Position>,
) -> bool {
    &&& in_bounds(p, width, height)
    &&& seen(g, p, height)
    &&& forall|q: Position|
        in_bounds(q, width, height) && adjacent(p, q) && !blocked.contains(q) ==> #[trigger] seen(
            g,
            q,
            height,
        ) && g[slot(q, height)] <= g[slot(p, height)] + 1
}

/// Scores never undercut the distance so far plus the heuristic; every cell in `done`
/// is settled; every other seen cell (but `skip`) is queued with its exact score; the
/// goal is not in `done`.
#[verifier::opaque]
pub open spec fn search_bounds(
    g: Seq<u32>,
    open: Seq<(u32, Position)>,
    done: Set<Position>,
    goal: Position,
    width: int,
    height: int,
    blocked: Seq<Position>,
    skip: Option<Position>,
) -> bool {
    &&& forall|k: int|
        0 <= k < open.len() ==> (#[trigger] open[k]).0 >= g[slot(open[k].1, height)] + manhattan(
            open[k].1,
            goal,
        )
    &&& forall|p: Position| #[trigger] done.contains(p) ==> settled(g, p, width, height, blocked)
    &&& forall|p: Position|
        in_bounds(p, width, height) && #[trigger] seen(g, p, height) && !done.contains(p) && skip
            != Some(p) ==> queued(open, p, g[slot(p, height)] + manhattan(p, goal))
    &&& !done.contains(goal)
}

pub open spec fn corner_walk(start: Position, goal: Position, i: int) -> Position {
    let dx = abs_diff(start.x, goal.x);
    if i <= dx {
        Position {
            x: (if goal.x >= start.x { start.x + i } else { start.x - i }) as u8,
            y: start.y,
        }
    } else {
        Position {
            x: goal.x,
            y: (if goal.y >= start.y { start.y + (i - dx) } else { start.y - (i - dx) }) as u8,
        }
    }
}

proof fn lemma_corner_walk(start: Position, goal: Position, width: int, height: int, i: int)
    requires
        in_bounds(start, width, height),
        in_bounds(goal, width, height),
        0 <= i <= manhattan(start, goal),
    ensures
        in_bounds(corner_walk(start, goal, i), width, height),
        manhattan(start, corner_walk(start, goal, i)) == i,
        manhattan(corner_walk(start, goal, i), goal) == manhattan(start, goal) - i,
        i == 0 ==> corner_walk(start, goal, i) == start,
        i == manhattan(start, goal) ==> corner_walk(start, goal, i) == goal,
        i < manhattan(start, goal) ==> adjacent(
            corner_walk(start, goal, i),
            corner_walk(start, goal, i + 1),
        ),
{
}

/// The corner walk is a walk on a grid without obstacles.
proof fn lemma_open_grid_reachable(
    start: Position,
    goal: Position,
    width: int,
    height: int,
    blocked: Seq<Position>,
)
    requires
        blocked.len() == 0,
        in_bounds(start, width, height),
        in_bounds(goal, width, height),
    ensures
        is_path(corner_path(start, goal), start, goal, width, height, blocked),
        corner_path(start, goal).len() == manhattan(start, goal) + 1,
        reachable(start, goal, width, height, blocked),
{
    let p = corner_path(start, goal);
    let c = manhattan(start, goal);
    lemma_corner_walk(start, goal, width, height, 0);
    lemma_corner_walk(start, goal, width, height, c);
    assert forall|i: int| 0 <= i < p.len() implies in_bounds(#[trigger] p[i], width, height)
        && !blocked.contains(p[i]) by {
        lemma_corner_walk(start, goal, width, height, i);
    }
    assert forall|i: int| 0 <= i < p.len() - 1 implies adjacent(#[trigger] p[i], p[i + 1]) by {
        lemma_corner_walk(start, goal, width, height, i);
    }
    assert(p[0] == start);
    assert(p.last() == goal);
}

pub open spec fn corner_path(start: Position, goal: Position) -> Seq<Position> {
    Seq::new((manhattan(start, goal) + 1) as nat, |i: int| corner_walk(start, goal, i))
}

/// Along a walk, the Manhattan distance to its end never exceeds the steps left.
proof fn lemma_walk_suffix_distance(
    p: Seq<Position>,
    start: Position,
    goal: Position,
    width: int,
    height: int,
    blocked: Seq<Position>,
    i: int,
)
    requires
        is_path(p, start, goal, width, height, blocked),
        0 <= i < p.len(),
    ensures
        manhattan(p[i], goal) <= p.len() - 1 - i,
    decreases p.len() - i,
{
    if i < p.len() - 1 {
        lemma_walk_suffix_distance(p, start, goal, width, height, blocked, i + 1);
        assert(adjacent(p[i], p[i + 1]));
    }
}

/// While the goal is not in `done`, for any walk `q` to the goal some queued score is
/// at most the number of steps of `q`.
proof fn lemma_open_witness(
    g: Seq<u32>,
    open: Seq<(u32, Position)>,
    done: Set<Position>,
    start: Position,
    goal: Position,
    width: int,
    height: int,
    blocked: Seq<Position>,
    q: Seq<Position>,
    i: int,
)
    requires
        search_bounds(g, open, done, goal, width, height, blocked, None),
        is_path(q, start, goal, width, height, blocked),
        0 <= i < q.len(),
        seen(g, q[i], height),
        g[slot(q[i], height)] <= i,
    ensures
        exists|k: int| 0 <= k < open.len() && (#[trigger] open[k]).0 <= q.len() - 1,
    decreases q.len() - i,
{
    reveal(search_bounds);
    let c = q[i];
    assert(in_bounds(c, width, height));
    if !done.contains(c) {
        lemma_walk_suffix_distance(q, start, goal, width, height, blocked, i);
        assert(queued(open, c, g[slot(c, height)] + manhattan(c, goal)));
        let k = choose|k: int| 0 <= k < open.len() && (#[trigger] open[k]).1 == c && open[k].0 == g[slot(
            c,
            height,
        )] + manhattan(c, goal);
        assert(open[k].0 <= q.len() - 1);
    } else {
        assert(settled(g, c, width, height, blocked));
        if i == q.len() - 1 {
            assert(c == goal);
        } else {
            let d = q[i + 1];
            assert(adjacent(c, d));
            assert(in_bounds(d, width, height) && !blocked.contains(d));
            assert(seen(g, d, height));
            lemma_open_witness(g, open, done, start, goal, width, height, blocked, q, i + 1);
        }
    }
}

/// The goal leaves the queue at a score no greater than the steps of any walk to it, so
/// the walk rebuilt from it is a shortest one.
proof fn lemma_goal_found_shortest(
    g: Seq<u32>,
    open: Seq<(u32, Position)>,
    done: Set<Position>,
    start: Position,
    goal: Position,
    width: int,
    height: int,
    blocked: Seq<Position>,
    best: int,
    path: Seq<Position>,
)
    requires
        search_bounds(g, open, done, goal, width, height, blocked, None),
        in_bounds(start, width, height),
        seen(g, start, height),
        g[slot(start, height)] == 0,
        0 <= best < open.len(),
        open[best].1 == goal,
        forall|j: int| 0 <= j < open.len() ==> open[best].0 <= #[trigger] open[j].0,
        path.len() <= g[slot(goal, height)] + 1,
    ensures
        forall|q: Seq<Position>|
            is_path(q, start, goal, width, height, blocked) ==> path.len() <= q.len(),
{
    assert(open[best].0 >= g[slot(goal, height)] + manhattan(goal, goal)) by {
        reveal(search_bounds);
    }
    assert forall|q: Seq<Position>| is_path(q, start, goal, width, height, blocked) implies path.len()
        <= q.len() by {
        lemma_open_witness(g, open, done, start, goal, width, height, blocked, q, 0);
        let k = choose|k: int| 0 <= k < open.len() && (#[trigger] open[k]).0 <= q.len() - 1;
        assert(open[best].0 <= open[k].0);
    }
}

proof fn lemma_bounds_pop(
    g: Seq<u32>,
    open: Seq<(u32, Position)>,
    done: Set<Position>,
    goal: Position,
    width: int,
    height: int,
    blocked: Seq<Position>,
    best: int,
)
    requires
        search_bounds(g, open, done, goal, width, height, blocked, None),
        0 <= best < open.len(),
    ensures
        search_bounds(g, open.remove(best), done, goal, width, height, blocked, Some(open[best].1)),
{
    reveal(search_bounds);
    let o = open.remove(best);
    let cur = open[best].1;
    assert forall|k: int| 0 <= k < o.len() implies (#[trigger] o[k]).0 >= g[slot(o[k].1, height)]
        + manhattan(o[k].1, goal) by {
        if k < best {
            assert(o[k] == open[k]);
        } else {
            assert(o[k] == open[k + 1]);
        }
    }
    assert forall|p: Position|
        in_bounds(p, width, height) && #[trigger] seen(g, p, height) && !done.contains(p) && Some(
            cur,
        ) != Some(p) implies queued(o, p, g[slot(p, height)] + manhattan(p, goal)) by {
        let f = g[slot(p, height)] + manhattan(p, goal);
        assert(queued(open, p, f));
        let k = choose|k: int| 0 <= k < open.len() && (#[trigger] open[k]).1 == p && open[k].0 == f;
        if k < best {
            assert(o[k] == open[k]);
        } else {
            assert(k != best);
            assert(o[k - 1] == open[k]);
        }
    }
}

/// Lowering the distance of `q` to `t` and queueing it with its exact score keeps the
/// bounds, with `q` taken out of `done`.
proof fn lemma_bounds_relax(
    g: Seq<u32>,
    open: Seq<(u32, Position)>,
    done: Set<Position>,
    goal: Position,
    width: int,
    height: int,
    blocked: Seq<Position>,
    current: Position,
    q: Position,
    t: u32,
)
    requires
        search_bounds(g, open, done, goal, width, height, blocked, Some(current)),
        in_bounds(q, width, height),
        q != current,
        t < g[slot(q, height)],
        t != UNSEEN,
        t + manhattan(q, goal) <= u32::MAX,
        g.len() == width * height,
        forall|k: int| 0 <= k < open.len() ==> in_bounds((#[trigger] open[k]).1, width, height),
    ensures
        search_bounds(
            g.update(slot(q, height), t),
            open.push(((t + manhattan(q, goal)) as u32, q)),
            done.remove(q),
            goal,
            width,
            height,
            blocked,
            Some(current),
        ),
{
    reveal(search_bounds);
    let g2 = g.update(slot(q, height), t);
    let o2 = open.push(((t + manhattan(q, goal)) as u32, q));
    let d2 = done.remove(q);
    lemma_slot(q, q, width, height);
    assert(g2[slot(q, height)] == t);
    assert forall|p: Position| #[trigger] in_bounds(p, width, height) && p != q implies g2[slot(
        p,
        height,
    )] == g[slot(p, height)] by {
        lemma_slot(p, q, width, height);
    }
    assert forall|k: int| 0 <= k < o2.len() implies (#[trigger] o2[k]).0 >= g2[slot(
        o2[k].1,
        height,
    )] + manhattan(o2[k].1, goal) by {
        if k < open.len() {
            assert(o2[k] == open[k]);
            let p = open[k].1;
            lemma_slot(p, q, width, height);
            if slot(p, height) != slot(q, height) {
                assert(g2[slot(p, height)] == g[slot(p, height)]);
            }
        }
    }
    assert forall|p: Position| #[trigger] d2.contains(p) implies settled(
        g2,
        p,
        width,
        height,
        blocked,
    ) by {
        assert(done.contains(p) && p != q);
        assert(settled(g, p, width, height, blocked));
        assert forall|r: Position|
            in_bounds(r, width, height) && adjacent(p, r) && !blocked.contains(r) implies #[trigger] seen(
            g2,
            r,
            height,
        ) && g2[slot(r, height)] <= g2[slot(p, height)] + 1 by {
            assert(seen(g, r, height));
        }
    }
    assert forall|p: Position|
        in_bounds(p, width, height) && #[trigger] seen(g2, p, height) && !d2.contains(p) && Some(
            current,
        ) != Some(p) implies queued(o2, p, g2[slot(p, height)] + manhattan(p, goal)) by {
        if p == q {
            assert(o2[open.len() as int] == ((t + manhattan(q, goal)) as u32, q));
        } else {
            assert(seen(g, p, height));
            let f = g[slot(p, height)] + manhattan(p, goal);
            assert(queued(open, p, f));
            let k = choose|k: int| 0 <= k < open.len() && (#[trigger] open[k]).1 == p && open[k].0
                == f;
            assert(o2[k] == open[k]);
        }
    }
}

/// Once every free neighbour listed in `nbrs` is within a step of `current`, the cell
/// is expanded and goes into `done`.
proof fn lemma_expanded(
    g: Seq<u32>,
    open: Seq<(u32, Position)>,
    done: Set<Position>,
    goal: Position,
    width: int,
    height: int,
    blocked: Seq<Position>,
    current: Position,
    nbrs: Seq<Position>,
)
    requires
        search_bounds(g, open, done, goal, width, height, blocked, Some(current)),
        in_bounds(current, width, height),
        seen(g, current, height),
        current != goal,
        forall|q: Position| nbrs.contains(q) <==> in_bounds(q, width, height) && adjacent(current, q),
        forall|jj: int|
            0 <= jj < nbrs.len() && !blocked.contains(#[trigger] nbrs[jj]) ==> seen(g, nbrs[jj], height)
                && g[slot(nbrs[jj], height)] <= g[slot(current, height)] + 1,
    ensures
        expanded(g, current, width, height, blocked),
        search_bounds(g, open, done.insert(current), goal, width, height, blocked, None),
{
    reveal(search_bounds);
    assert forall|q: Position|
        in_bounds(q, width, height) && adjacent(current, q) && !blocked.contains(q) implies #[trigger] seen(
        g,
        q,
        height,
    ) && g[slot(q, height)] <= g[slot(current, height)] + 1 by {
        assert(nbrs.contains(q));
        let jj = choose|jj: int| 0 <= jj < nbrs.len() && nbrs[jj] == q;
        assert(!blocked.contains(nbrs[jj]));
    }
    let d2 = done.insert(current);
    assert(settled(g, current, width, height, blocked));
    assert forall|p: Position| #[trigger] d2.contains(p) implies settled(
        g,
        p,
        width,
        height,
        blocked,
    ) by {
        if p != current {
            assert(done.contains(p));
        }
    }
}

fn reversed(v: &Vec<Position>) -> (r: Vec<Position>)
    ensures
        r@.len() == v@.len(),
        forall|i: int| 0 <= i < v@.len() ==> r@[i] == v@[v@.len() - 1 - i],
{
    let n = v.len();
    let mut r: Vec<Position> = Vec::new();
    let mut k: usize = 0;
    while k < n
        invariant
            k <= n,
            n == v@.len(),
            r@.len() == k,
            forall|i: int| 0 <= i < k ==> r@[i] == v@[n - 1 - i],
        decreases n - k,
    {
        r.push(v[n - 1 - k]);
        k = k + 1;
    }
    r
}

/// Follows the parents from `goal` back to `start` and returns the walk start-first.
#[verifier::rlimit(40)]
fn reconstruct_path(
    g: &Vec<u32>,
    parent: &Vec<Position>,
    start: Position,
    goal: Position,
    width: u8,
    height: u8,
    Ghost(blocked): Ghost<Seq<Position>>,
) -> (r: Vec<Position>)
    requires
        tree_ok(g@, parent@, start, width as int, height as int, blocked),
        in_bounds(goal, width as int, height as int),
        seen(g@, goal, height as int),
    ensures
        is_path(r@, start, goal, width as int, height as int, blocked),
        r@.len() <= g@[slot(goal, height as int)] + 1,
{
    let w = Ghost(width as int);
    let h = height as usize;
    let mut rev: Vec<Position> = Vec::new();
    let mut current = goal;
    rev.push(current);
    proof {
        lemma_slot(current, current, width as int, height as int);
    }
    while current != start
        invariant
            tree_ok(g@, parent@, start, width as int, height as int, blocked),
            in_bounds(current, width as int, height as int),
            seen(g@, current, height as int),
            h == height,
            rev@.len() >= 1,
            rev@[0] == goal,
            rev@.last() == current,
            forall|i: int|
                0 <= i < rev@.len() ==> in_bounds(#[trigger] rev@[i], width as int, height as int)
                    && seen(g@, rev@[i], height as int),
            forall|i: int| 0 <= i < rev@.len() - 1 ==> adjacent(#[trigger] rev@[i + 1], rev@[i]),
            rev@.len() + g@[slot(current, height as int)] <= g@[slot(goal, height as int)] + 1,
        decreases g@[slot(current, height as int)],
    {
        proof {
            lemma_slot(current, current, width as int, height as int);
        }
        let prev = parent[slot_of(current, width, height)];
        proof {
            lemma_slot(prev, prev, width as int, height as int);
        }
        rev.push(prev);
        current = prev;
    }
    let n = rev.len();
    let path = reversed(&rev);
    proof {
        let _ = w;
        assert forall|i: int| 0 <= i < path@.len() implies in_bounds(
            #[trigger] path@[i],
            width as int,
            height as int,
        ) && !blocked.contains(path@[i]) by {
            assert(rev@[n - 1 - i] == path@[i]);
        }
        assert forall|i: int| 0 <= i < path@.len() - 1 implies adjacent(
            #[trigger] path@[i],
            path@[i + 1],
        ) by {
            assert(path@[i] == rev@[(n - 2 - i) + 1]);
            assert(path@[i + 1] == rev@[n - 2 - i]);
        }
    }
    path
}

/// The walk to the goal, once the goal has left the queue as its least entry.
fn finish_search(
    g: &Vec<u32>,
    parent: &Vec<Position>,
    start: Position,
    goal: Position,
    width: u8,
    height: u8,
    Ghost(blocked): Ghost<Seq<Position>>,
    Ghost(open): Ghost<Seq<(u32, Position)>>,
    Ghost(done): Ghost<Set<Position>>,
    Ghost(best): Ghost<int>,
) -> (r: Vec<Position>)
    requires
        tree_ok(g@, parent@, start, width as int, height as int, blocked),
        in_bounds(goal, width as int, height as int),
        seen(g@, goal, height as int),
        search_bounds(g@, open, done, goal, width as int, height as int, blocked, None),
        0 <= best < open.len(),
        open[best].1 == goal,
        forall|j: int| 0 <= j < open.len() ==> open[best].0 <= #[trigger] open[j].0,
    ensures
        is_path(r@, start, goal, width as int, height as int, blocked),
        forall|q: Seq<Position>|
            is_path(q, start, goal, width as int, height as int, blocked) ==> r@.len() <= q.len(),
{
    let path = reconstruct_path(g, parent, start, goal, width, height, Ghost(blocked));
    proof {
        lemma_goal_found_shortest(
            g@,
            open,
            done,
            start,
            goal,
            width as int,
            height as int,
            blocked,
            best,
            path@,
        );
    }
    path
}

/// Cutting the loop between two visits of the same cell leaves a shorter walk.
#[verifier::rlimit(50)]
#[verifier::spinoff_prover]
proof fn lemma_cut_loop(
    p: Seq<Position>,
    start: Position,
    goal: Position,
    width: int,
    height: int,
    blocked: Seq<Position>,
    i: int,
    j: int,
)
    requires
        is_path(p, start, goal, width, height, blocked),
        0 <= i < j < p.len(),
        p[i] == p[j],
    ensures
        is_path(p.subrange(0, i) + p.subrange(j, p.len() as int), start, goal, width, height, blocked),
        (p.subrange(0, i) + p.subrange(j, p.len() as int)).len() < p.len(),
{
    let q = p.subrange(0, i) + p.subrange(j, p.len() as int);
    let d = j - i;
    assert(q.len() == p.len() - d);
    assert forall|k: int| 0 <= k < q.len() implies #[trigger] q[k] == p[if k < i {
        k
    } else {
        k + d
    }] by {}
    assert forall|k: int| 0 <= k < q.len() implies in_bounds(#[trigger] q[k], width, height)
        && !blocked.contains(q[k]) by {
        let m = if k < i { k } else { k + d };
        assert(q[k] == p[m]);
        assert(in_bounds(p[m], width, height));
    }
    assert forall|k: int| 0 <= k < q.len() - 1 implies adjacent(#[trigger] q[k], q[k + 1]) by {
        let m = if k < i { k } else { k + d };
        let m1 = if k + 1 < i { k + 1 } else { k + 1 + d };
        assert(q[k] == p[m] && q[k + 1] == p[m1]);
        if k + 1 == i {
            assert(p[m1] == p[k + 1]);
        }
        assert(adjacent(p[m], p[m + 1]));
    }
    assert(q[0] == p[0]);
    assert(q[q.len() - 1] == p[p.len() - 1]);
}

/// A shortest walk never visits a cell twice: cutting out the loop would shorten it.
pub proof fn lemma_shortest_walk_distinct(
    p: Seq<Position>,
    start: Position,
    goal: Position,
    width: int,
    height: int,
    blocked: Seq<Position>,
)
    requires
        is_path(p, start, goal, width, height, blocked),
        forall|q: Seq<Position>| is_path(q, start, goal, width, height, blocked) ==> p.len() <= q.len(),
    ensures
        forall|i: int, j: int| 0 <= i < j < p.len() ==> p[i] != p[j],
{
    assert forall|i: int, j: int| 0 <= i < j < p.len() implies p[i] != p[j] by {
        if p[i] == p[j] {
            lemma_cut_loop(p, start, goal, width, height, blocked, i, j);
        }
    }
}

/// A* search over the 4-connected grid with unit steps and the Manhattan heuristic.
///
/// Returns a walk from `start` to `goal` (both included) through cells inside the grid
/// that are not in `blocked`, or `None` exactly when no such walk exists. Among open
/// cells of equal score the one queued first is expanded first. The walk is a shortest
/// one (so it never visits a cell twice); on a grid without obstacles it has one more
/// cell than the Manhattan distance.
#[verifier::rlimit(100)]
#[verifier::spinoff_prover]
pub fn find_path(
    start: Position,
    goal: Position,
    width: u8,
    height: u8,
    blocked: &Vec<Position>,
) -> (r: Option<Vec<Position>>)
    ensures
        r matches Some(p) ==> is_path(p@, start, goal, width as int, height as int, blocked@),
        r.is_none() <==> !reachable(start, goal, width as int, height as int, blocked@),
        r matches Some(p) ==> forall|q: Seq<Position>|
            is_path(q, start, goal, width as int, height as int, blocked@) ==> p@.len() <= q.len(),
        r matches Some(p) ==> forall|i: int, j: int| 0 <= i < j < p@.len() ==> p@[i] != p@[j],
        blocked@.len() == 0 && in_bounds(start, width as int, height as int) && in_bounds(
            goal,
            width as int,
            height as int,
        ) ==> (r matches Some(p) && p@.len() == manhattan(start, goal) + 1),
{
    if start.x >= width || start.y >= height || contains_position(blocked, start) {
        proof {
            assert forall|p: Seq<Position>|
                !is_path(p, start, goal, width as int, height as int, blocked@) by {
                if is_path(p, start, goal, width as int, height as int, blocked@) {
                    assert(in_bounds(p[0], width as int, height as int));
                    assert(!blocked@.contains(p[0]));
                }
            }
        }
        return None;
    }
    let ghost w = width as int;
    let ghost hh = height as int;
    let ghost bl = blocked@;
    let h = height as usize;
    assert(width as usize * h <= 255 * 255) by (nonlinear_arith)
        requires
            width <= 255,
            h <= 255,
    ;
    let n = width as usize * h;
    let ghost cap = n as int;
    let ghost f_seen = seen_weight();
    let ghost f_pot = pot_weight(cap);
    let mut g: Vec<u32> = Vec::new();
    let mut parent: Vec<Position> = Vec::new();
    let mut i: usize = 0;
    while i < n
        invariant
            i <= n,
            g@.len() == i,
            parent@.len() == i,
            forall|k: int| 0 <= k < i ==> g@[k] == UNSEEN,
            seen_count(g@) == 0,
            potential(g@, cap) == cap * i,
            cap == n,
            n <= 255 * 255,
            f_seen == seen_weight(),
            f_pot == pot_weight(cap),
        decreases n - i,
    {
        proof {
            lemma_sum_push(g@, UNSEEN, f_seen);
            lemma_sum_push(g@, UNSEEN, f_pot);
            assert(f_pot(UNSEEN) == cap);
            assert(f_seen(UNSEEN) == 0);
            assert(cap * i + cap == cap * (i + 1)) by (nonlinear_arith);
        }
        g.push(UNSEEN);
        parent.push(start);
        i = i + 1;
    }
    proof {
        lemma_slot(start, start, w, hh);
    }
    let start_slot = slot_of(start, width, height);
    proof {
        lemma_sum_update(g@, start_slot as int, 0, f_seen);
        lemma_sum_update(g@, start_slot as int, 0, f_pot);
    }
    g.set(start_slot, 0);
    let mut open: Vec<(u32, Position)> = Vec::new();
    open.push((start.manhattan_distance(&goal), start));
    proof {
        assert(open@[0].1 == start);
        assert forall|p: Position| in_bounds(p, w, hh) && #[trigger] seen(g@, p, hh) implies p
            == start by {
            lemma_slot(p, start, w, hh);
        }
        lemma_sum_bounds(g@, f_pot, cap);
    }
    let ghost mut done: Set<Position> = Set::empty();
    proof {
        assert(queued(open@, start, 0 + manhattan(start, goal)));
        reveal(search_bounds);
        assert(search_bounds(g@, open@, done, goal, w, hh, bl, None));
    }
    while open.len() > 0
        invariant
            tree_ok(g@, parent@, start, w, hh, bl),
            search_bounds(g@, open@, done, goal, w, hh, bl, None),
            bl == blocked@,
            w == width,
            hh == height,
            h == height,
            cap == n,
            n == w * hh,
            n <= 255 * 255,
            in_bounds(start, w, hh),
            f_seen == seen_weight(),
            f_pot == pot_weight(cap),
            1 <= seen_count(g@) <= n,
            forall|k: int| 0 <= k < n && g@[k] != UNSEEN ==> g@[k] < seen_count(g@),
            forall|k: int|
                0 <= k < open@.len() ==> in_bounds((#[trigger] open@[k]).1, w, hh) && seen(
                    g@,
                    open@[k].1,
                    hh,
                ),
            forall|p: Position|
                in_bounds(p, w, hh) && #[trigger] seen(g@, p, hh) ==> in_open(open@, p)
                    || expanded(g@, p, w, hh, bl),
            in_bounds(goal, w, hh) && seen(g@, goal, hh) ==> in_open(open@, goal),
        decreases 2 * potential(g@, cap) + open@.len(),
    {
        let ghost measure = 2 * potential(g@, cap) + open@.len();
        // The first entry of least score.
        let mut best: usize = 0;
        let mut k: usize = 1;
        while k < open.len()
            invariant
                1 <= k <= open@.len(),
                best < open@.len(),
                forall|j: int| 0 <= j < k ==> open@[best as int].0 <= #[trigger] open@[j].0,
            decreases open@.len() - k,
        {
            if open[k].0 < open[best].0 {
                best = k;
            }
            k = k + 1;
        }
        let ghost open_before = open@;
        let (_, current) = open.remove(best);
        if current == goal {
            let path = finish_search(
                &g,
                &parent,
                start,
                goal,
                width,
                height,
                Ghost(bl),
                Ghost(open_before),
                Ghost(done),
                Ghost(best as int),
            );
            proof {
                assert(is_path(path@, start, goal, width as int, height as int, blocked@));
                assert(reachable(start, goal, width as int, height as int, blocked@));
                lemma_shortest_walk_distinct(path@, start, goal, w, hh, bl);
                if bl.len() == 0 {
                    lemma_open_grid_reachable(start, goal, w, hh, bl);
                    walks_are_no_shorter_than_distance(path@, start, goal, w, hh, bl);
                }
            }
            return Some(path);
        }
        proof {
            lemma_bounds_pop(g@, open_before, done, goal, w, hh, bl, best as int);
            assert(in_bounds(open_before[best as int].1, w, hh));
            lemma_pop_keeps_frontier(g@, open_before, best as int, goal, w, hh, bl);
            lemma_slot(current, current, w, hh);
        }
        let current_slot = slot_of(current, width, height);
        let current_g = g[current_slot];
        let nbrs = current.neighbors(width, height);
        let mut j: usize = 0;
        while j < nbrs.len()
            invariant
                tree_ok(g@, parent@, start, w, hh, bl),
                bl == blocked@,
                w == width,
                hh == height,
                h == height,
                cap == n,
                n == w * hh,
                n <= 255 * 255,
                j <= nbrs@.len(),
                f_seen == seen_weight(),
                f_pot == pot_weight(cap),
                in_bounds(current, w, hh),
                current != goal,
                current_slot == slot(current, hh),
                current_slot < n,
                current_g == g@[current_slot as int],
                current_g != UNSEEN,
                nbrs@ == neighbor_seq(current, w, hh),
                forall|q: Position| nbrs@.contains(q) <==> in_bounds(q, w, hh) && adjacent(current, q),
                1 <= seen_count(g@) <= n,
                forall|k: int| 0 <= k < n && g@[k] != UNSEEN ==> g@[k] < seen_count(g@),
                forall|k: int|
                    0 <= k < open@.len() ==> in_bounds((#[trigger] open@[k]).1, w, hh) && seen(
                        g@,
                        open@[k].1,
                        hh,
                    ),
                forall|p: Position|
                    in_bounds(p, w, hh) && #[trigger] seen(g@, p, hh) && p != current ==> in_open(
                        open@,
                        p,
                    ) || expanded(g@, p, w, hh, bl),
                in_bounds(goal, w, hh) && seen(g@, goal, hh) ==> in_open(open@, goal),
                forall|jj: int|
                    0 <= jj < j && !bl.contains(#[trigger] nbrs@[jj]) ==> seen(g@, nbrs@[jj], hh)
                        && g@[slot(nbrs@[jj], hh)] <= current_g + 1,
                2 * potential(g@, cap) + open@.len() < measure,
                search_bounds(g@, open@, done, goal, w, hh, bl, Some(current)),
            decreases nbrs@.len() - j,
        {
            let q = nbrs[j];
            assert(nbrs@.contains(q));
            if !contains_position(blocked, q) {
                proof {
                    lemma_slot(q, q, w, hh);
                    lemma_slot(q, current, w, hh);
                }
                let q_slot = slot_of(q, width, height);
                assert(current_g < seen_count(g@));
                let tentative = current_g + 1;
                if tentative < g[q_slot] {
                    let ghost g_old = g@;
                    let ghost parent_old = parent@;
                    proof {
                        lemma_sum_update(g_old, q_slot as int, tentative, f_seen);
                        lemma_sum_update(g_old, q_slot as int, tentative, f_pot);
                        lemma_sum_bounds(g_old, f_seen, 1);
                        lemma_sum_bounds(g_old.update(q_slot as int, tentative), f_seen, 1);
                        assert(tentative < cap);
                        assert(f_pot(g_old[q_slot as int]) >= f_pot(tentative) + 1);
                        assert(manhattan(q, goal) <= 510);
                        lemma_bounds_relax(
                            g_old,
                            open@,
                            done,
                            goal,
                            w,
                            hh,
                            bl,
                            current,
                            q,
                            tentative,
                        );
                    }
                    g.set(q_slot, tentative);
                    parent.set(q_slot, current);
                    let score = tentative + q.manhattan_distance(&goal);
                    let ghost open_old = open@;
                    open.push((score, q));
                    proof {
                        done = done.remove(q);
                        assert(g@ == g_old.update(slot(q, hh), tentative));
                        assert(open@ == open_old.push(((tentative + manhattan(q, goal)) as u32, q)));
                        assert(open@[open@.len() - 1].1 == q);
                        assert forall|p: Position| #[trigger] in_bounds(p, w, hh) implies (seen(
                            g_old,
                            p,
                            hh,
                        ) ==> seen(g@, p, hh)) && (p != q ==> g@[slot(p, hh)] == g_old[slot(
                            p,
                            hh,
                        )]) by {
                            lemma_slot(p, q, w, hh);
                        }
                        assert forall|p: Position| #[trigger] in_bounds(p, w, hh) && p != q implies
                            parent@[slot(p, hh)] == parent_old[slot(p, hh)] by {
                            lemma_slot(p, q, w, hh);
                        }
                        assert(q != start);
                        assert forall|p: Position|
                            in_bounds(p, w, hh) && #[trigger] seen(g@, p, hh) && p != start
                                implies {
                            let r = parent@[slot(p, hh)];
                            &&& in_bounds(r, w, hh)
                            &&& seen(g@, r, hh)
                            &&& g@[slot(r, hh)] < g@[slot(p, hh)]
                            &&& adjacent(r, p)
                        } by {
                            if p == q {
                                assert(parent@[slot(q, hh)] == current);
                            } else {
                                assert(seen(g_old, p, hh));
                                let r = parent_old[slot(p, hh)];
                                assert(in_bounds(r, w, hh));
                                if r != q {
                                    assert(g@[slot(r, hh)] == g_old[slot(r, hh)]);
                                }
                            }
                        }
                        assert forall|p: Position|
                            in_bounds(p, w, hh) && #[trigger] seen(g@, p, hh) implies !bl.contains(
                            p,
                        ) by {
                            if p != q {
                                assert(seen(g_old, p, hh));
                            }
                        }
                        assert(tree_ok(g@, parent@, start, w, hh, bl));
                        assert forall|p: Position|
                            in_bounds(p, w, hh) && #[trigger] seen(g@, p, hh) && p != current
                                implies in_open(open@, p) || expanded(g@, p, w, hh, bl) by {
                            if p == q {
                                assert(open@[open@.len() - 1].1 == q);
                            } else {
                                assert(seen(g_old, p, hh));
                                if in_open(open_old, p) {
                                    let k = choose|k: int|
                                        0 <= k < open_old.len() && (#[trigger] open_old[k]).1
                                            == p;
                                    assert(open@[k].1 == p);
                                } else {
                                    assert(expanded(g_old, p, w, hh, bl));
                                    assert forall|r: Position|
                                        in_bounds(r, w, hh) && adjacent(p, r) && !bl.contains(r)
                                            implies #[trigger] seen(g@, r, hh) by {
                                        assert(seen(g_old, r, hh));
                                    }
                                }
                            }
                        }
                        if in_bounds(goal, w, hh) && seen(g@, goal, hh) {
                            if goal == q {
                                assert(open@[open@.len() - 1].1 == q);
                            } else {
                                assert(seen(g_old, goal, hh));
                                let k = choose|k: int|
                                    0 <= k < open_old.len() && (#[trigger] open_old[k]).1 == goal;
                                assert(open@[k].1 == goal);
                            }
                        }
                    }
                }
            }
            j = j + 1;
        }
        proof {
            lemma_sum_bounds(g@, f_pot, cap);
            lemma_expanded(g@, open@, done, goal, w, hh, bl, current, nbrs@);
            done = done.insert(current);
        }
    }
    proof {
        if bl.len() == 0 && in_bounds(goal, w, hh) {
            lemma_open_grid_reachable(start, goal, w, hh, bl);
        }
        if reachable(start, goal, w, hh, bl) {
            let p = choose|p: Seq<Position>| is_path(p, start, goal, w, hh, bl);
            assert forall|c: Position| in_bounds(c, w, hh) && #[trigger] seen(g@, c, hh) implies expanded(
                g@,
                c,
                w,
                hh,
                bl,
            ) by {
                if in_open(open@, c) {
                    let k = choose|k: int| 0 <= k < open@.len() && (#[trigger] open@[k]).1 == c;
                }
            }
            lemma_walk_seen(g@, p, start, goal, w, hh, bl, p.len() - 1);
            assert(in_bounds(p[p.len() - 1], w, hh));
            if in_open(open@, goal) {
                let k = choose|k: int| 0 <= k < open@.len() && (#[trigger] open@[k]).1 == goal;
            }
        }
    }
    None
}

/// Whether blocking `tower_position` as well leaves no walk from `start` to `goal`.
pub fn would_block_path(
    tower_position: Position,
    start: Position,
    goal: Position,
    width: u8,
    height: u8,
    existing_blocked: &Vec<Position>,
) -> (r: bool)
    ensures
        r == !reachable(start, goal, width as int, height as int, existing_blocked@.push(tower_position)),
{
    let mut blocked = existing_blocked.clone();
    blocked.push(tower_position);
    find_path(start, goal, width, height, &blocked).is_none()
}

} // verus!
