use vstd::prelude::*;

use crate::map::{Tile, WorldMap};
use crate::rng::{draw_below, random_below};

verus! {

/// The fixed behavioural specialization of an agent.
#[derive(Debug, Clone, Copy, PartialEq, Eq, Structural)]
pub enum RobotType {
    Explorer,
    Miner,
    Scientist,
}

/// An autonomous agent: a position, a role, an energy budget, a local
/// discovery buffer and a homing flag.
#[derive(Debug)]
pub struct Robot {
    pub x: usize,
    pub y: usize,
    pub robot_type: RobotType,
    pub discoveries: Vec<(usize, usize, Tile)>,
    pub energy: usize,
    pub returning: bool,
}

/// Sign of a coordinate delta: one unit toward the target on one axis.
pub open spec fn signum(d: int) -> int {
    if d > 0 {
        1
    } else if d < 0 {
        -1
    } else {
        0
    }
}

/// One step from c by d, clamped into 0..limit.
pub open spec fn clamp_step(c: int, d: int, limit: int) -> int {
    let n = c + d;
    if n < 0 {
        0
    } else if n >= limit {
        limit - 1
    } else {
        n
    }
}

/// The four cardinal directions, in the order up, down, left, right.
pub open spec fn dir_dx(k: int) -> int {
    if k == 2 {
        -1
    } else if k == 3 {
        1
    } else {
        0
    }
}

pub open spec fn dir_dy(k: int) -> int {
    if k == 0 {
        -1
    } else if k == 1 {
        1
    } else {
        0
    }
}

/// Distance between two coordinates on one axis.
pub open spec fn dist1(a: int, b: int) -> int {
    if a >= b {
        a - b
    } else {
        b - a
    }
}

/// Manhattan distance between two cells.
pub open spec fn manhattan(px: int, py: int, x: int, y: int) -> int {
    dist1(px, x) + dist1(py, y)
}

/// Whether (x, y) comes before (rx, ry) in a row-major scan.
pub open spec fn lex_before(x: int, y: int, rx: int, ry: int) -> bool {
    y < ry || (y == ry && x < rx)
}

/// Some in-bounds cell of the grid holds the target tile.
pub open spec fn has_tile(g: Seq<Seq<Tile>>, w: int, h: int, t: Tile) -> bool {
    exists|x: int, y: int| 0 <= x < w && 0 <= y < h && #[trigger] g[y][x] == t
}

/// (rx, ry) is the nearest cell holding t, measured from (px, py) by
/// Manhattan distance, with ties broken by row-major scan order.
pub open spec fn is_nearest(
    g: Seq<Seq<Tile>>,
    w: int,
    h: int,
    px: int,
    py: int,
    t: Tile,
    rx: int,
    ry: int,
) -> bool {
    &&& 0 <= rx < w && 0 <= ry < h
    &&& g[ry][rx] == t
    &&& forall|x: int, y: int| 0 <= x < w && 0 <= y < h && #[trigger] g[y][x] == t
        ==> manhattan(px, py, x, y) >= manhattan(px, py, rx, ry)
    &&& forall|x: int, y: int| 0 <= x < w && 0 <= y < h && #[trigger] g[y][x] == t
        && lex_before(x, y, rx, ry) ==> manhattan(px, py, x, y) > manhattan(px, py, rx, ry)
}

/// The new position is one clamped cardinal step from the old one,
/// onto a non-obstacle cell.
pub open spec fn stepped_outcome(
    g: Seq<Seq<Tile>>,
    w: int,
    h: int,
    ox: int,
    oy: int,
    nx: int,
    ny: int,
) -> bool {
    exists|k: int| 0 <= k < 4
        && nx == clamp_step(ox, #[trigger] dir_dx(k), w)
        && ny == clamp_step(oy, dir_dy(k), h)
        && g[ny][nx] != Tile::Obstacle
}

/// Every clamped cardinal candidate around (ox, oy) is free of
/// obstacles.
pub open spec fn all_candidates_open(g: Seq<Seq<Tile>>, w: int, h: int, ox: int, oy: int) -> bool {
    forall|k: int| 0 <= k < 4
        ==> g[clamp_step(oy, dir_dy(k), h)][clamp_step(ox, #[trigger] dir_dx(k), w)]
            != Tile::Obstacle
}

/// What the random cardinal fallback does to the position: unchanged,
/// or one clamped step onto a non-obstacle cell; and where no
/// candidate is blocked, the first draw is always taken, so a step is
/// certainly made.
pub open spec fn random_step_outcome(
    g: Seq<Seq<Tile>>,
    w: int,
    h: int,
    ox: int,
    oy: int,
    nx: int,
    ny: int,
) -> bool {
    &&& ((nx == ox && ny == oy) || stepped_outcome(g, w, h, ox, oy, nx, ny))
    &&& (all_candidates_open(g, w, h, ox, oy) ==> stepped_outcome(g, w, h, ox, oy, nx, ny))
}

/// The fallback walk consults the grid only for obstacles, so two
/// grids that agree on where the obstacles are admit the same
/// outcomes.
pub proof fn lemma_random_outcome_obstacle_agree(
    g1: Seq<Seq<Tile>>,
    g2: Seq<Seq<Tile>>,
    w: int,
    h: int,
    ox: int,
    oy: int,
    nx: int,
    ny: int,
)
    requires
        forall|cx: int, cy: int| 0 <= cx < w && 0 <= cy < h
            ==> ((#[trigger] g1[cy][cx]) == Tile::Obstacle <==> g2[cy][cx] == Tile::Obstacle),
        0 <= ox < w,
        0 <= oy < h,
        random_step_outcome(g1, w, h, ox, oy, nx, ny),
    ensures
        random_step_outcome(g2, w, h, ox, oy, nx, ny),
{
    assert forall|k: int| 0 <= k < 4 implies ({
        let cx = clamp_step(ox, #[trigger] dir_dx(k), w);
        let cy = clamp_step(oy, dir_dy(k), h);
        0 <= cx < w && 0 <= cy < h && (g1[cy][cx] == Tile::Obstacle
            <==> g2[cy][cx] == Tile::Obstacle)
    }) by {
        assert(0 <= clamp_step(ox, dir_dx(k), w) < w);
        assert(0 <= clamp_step(oy, dir_dy(k), h) < h);
    }
    if stepped_outcome(g1, w, h, ox, oy, nx, ny) {
        let k = choose|k: int| 0 <= k < 4
            && nx == clamp_step(ox, #[trigger] dir_dx(k), w)
            && ny == clamp_step(oy, dir_dy(k), h)
            && g1[ny][nx] != Tile::Obstacle;
        assert(g2[ny][nx] != Tile::Obstacle);
        assert(stepped_outcome(g2, w, h, ox, oy, nx, ny));
    }
    if all_candidates_open(g2, w, h, ox, oy) {
        assert(all_candidates_open(g1, w, h, ox, oy));
        assert(stepped_outcome(g1, w, h, ox, oy, nx, ny));
    }
}

impl Robot {
    /// Position is inside a width x height grid.
    pub open spec fn in_bounds(self, width: int, height: int) -> bool {
        self.x < width && self.y < height
    }

    /// A fresh agent: at the station column at the middle row, full
    /// energy, empty buffer; the role is drawn from the generator.
    pub fn new(width: usize, height: usize, rng: &mut rand::rngs::StdRng) -> (r: Robot)
        requires
            width >= 1,
            height >= 1,
        ensures
            r.x == 0,
            r.y == height as int / 2,
            r.energy == 10,
            r.returning == false,
            r.discoveries@ == Seq::<(usize, usize, Tile)>::empty(),
            r.in_bounds(width as int, height as int),
    {
        let idx = draw_below(rng, 3);
        let robot_type = if idx == 0 {
            RobotType::Explorer
        } else if idx == 1 {
            RobotType::Miner
        } else {
            RobotType::Scientist
        };
        Robot { x: 0, y: height / 2, robot_type, discoveries: Vec::new(), energy: 10, returning: false }
    }
}

/// The role a draw below 3 selects.
pub open spec fn role_of(d: usize) -> RobotType {
    if d == 0 {
        RobotType::Explorer
    } else if d == 1 {
        RobotType::Miner
    } else {
        RobotType::Scientist
    }
}

/// The starting roster as a function of the seed: every agent at the
/// station column at the middle row with full energy, an empty buffer
/// and the homing flag down, its role fixed by the seeded draw
/// sequence.
pub open spec fn roster_matches(r: Seq<Robot>, count: int, height: int, seed: u32) -> bool {
    &&& r.len() == count
    &&& forall|i: int| 0 <= i < count ==> (#[trigger] r[i]).x == 0
        && r[i].y == height / 2
        && r[i].energy == 10
        && r[i].returning == false
        && r[i].discoveries@ == Seq::<(usize, usize, Tile)>::empty()
        && r[i].robot_type == role_of(crate::rng::role_draw_seq(seed as u64, count)[i])
}

/// Roster determinism: two rosters built from the same seed, count and
/// dimensions agree in every observable field of every agent.
pub proof fn lemma_roster_deterministic(
    a: Seq<Robot>,
    b: Seq<Robot>,
    count: int,
    height: int,
    seed: u32,
)
    requires
        roster_matches(a, count, height, seed),
        roster_matches(b, count, height, seed),
    ensures
        a.len() == b.len(),
        forall|i: int| 0 <= i < count ==> (#[trigger] a[i]).x == b[i].x
            && a[i].y == b[i].y
            && a[i].robot_type == b[i].robot_type
            && a[i].energy == b[i].energy
            && a[i].returning == b[i].returning
            && a[i].discoveries@ == b[i].discoveries@,
{
}

/// The starting roster: `count` agents at the station cell, with roles
/// drawn from a generator seeded once from the given seed.
pub fn initialize_robots(count: usize, width: usize, height: usize, seed: u32) -> (r: Vec<Robot>)
    requires
        width >= 1,
        height >= 1,
    ensures
        roster_matches(r@, count as int, height as int, seed),
        forall|i: int| 0 <= i < count
            ==> (#[trigger] r@[i]).in_bounds(width as int, height as int),
{
    let draws = crate::rng::role_draws(seed as u64, count);
    let mut robots: Vec<Robot> = Vec::new();
    let mut i: usize = 0;
    while i < count
        invariant
            width >= 1,
            height >= 1,
            i <= count,
            draws@ == crate::rng::role_draw_seq(seed as u64, count as int),
            draws@.len() == count,
            robots@.len() == i,
            forall|k: int| 0 <= k < i ==> (#[trigger] robots@[k]).x == 0
                && robots@[k].y == height as int / 2
                && robots@[k].energy == 10
                && robots@[k].returning == false
                && robots@[k].discoveries@ == Seq::<(usize, usize, Tile)>::empty()
                && robots@[k].robot_type == role_of(draws@[k]),
        decreases count - i,
    {
        let d = draws[i];
        let robot_type = if d == 0 {
            RobotType::Explorer
        } else if d == 1 {
            RobotType::Miner
        } else {
            RobotType::Scientist
        };
        robots.push(Robot {
            x: 0,
            y: height / 2,
            robot_type,
            discoveries: Vec::new(),
            energy: 10,
            returning: false,
        });
        i += 1;
    }
    robots
}

fn step_coord(c: usize, d: i64, limit: usize) -> (r: usize)
    requires
        c < limit,
        -1 <= d <= 1,
    ensures
        r as int == clamp_step(c as int, d as int, limit as int),
        r < limit,
        dist1(r as int, c as int) <= 1,
{
    if d < 0 {
        if c == 0 {
            0
        } else {
            c - 1
        }
    } else if d > 0 {
        if c + 1 < limit {
            c + 1
        } else {
            limit - 1
        }
    } else {
        c
    }
}

fn direction(k: usize) -> (d: (i64, i64))
    requires
        k < 4,
    ensures
        d.0 == dir_dx(k as int),
        d.1 == dir_dy(k as int),
        -1 <= d.0 <= 1,
        -1 <= d.1 <= 1,
{
    if k == 0 {
        (0, -1)
    } else if k == 1 {
        (0, 1)
    } else if k == 2 {
        (-1, 0)
    } else {
        (1, 0)
    }
}

/// The tile kind an active agent seeks: energy when running low, else
/// the resource matching its role (an explorer seeks open ground).
pub open spec fn target_kind(role: RobotType, energy: int) -> Tile {
    if energy <= 5 {
        Tile::Energy
    } else {
        match role {
            RobotType::Miner => Tile::Mineral,
            RobotType::Scientist => Tile::Scientific,
            RobotType::Explorer => Tile::Empty,
        }
    }
}

/// What seeking the nearest `t` does to the position: if no cell holds
/// t, or the greedy step toward the nearest one is blocked, the agent
/// falls back to a random cardinal step; otherwise it takes the greedy
/// step (one signed unit on each axis simultaneously, clamped).
pub open spec fn seek_outcome(
    g: Seq<Seq<Tile>>,
    w: int,
    h: int,
    ox: int,
    oy: int,
    nx: int,
    ny: int,
    t: Tile,
) -> bool {
    &&& (!has_tile(g, w, h, t) ==> random_step_outcome(g, w, h, ox, oy, nx, ny))
    &&& forall|rx: int, ry: int| #[trigger] is_nearest(g, w, h, ox, oy, t, rx, ry) ==> {
        let gx = clamp_step(ox, signum(rx - ox), w);
        let gy = clamp_step(oy, signum(ry - oy), h);
        if g[gy][gx] != Tile::Obstacle {
            nx == gx && ny == gy
        } else {
            random_step_outcome(g, w, h, ox, oy, nx, ny)
        }
    }
}

/// Which roles may collect which tile kinds: energy by anyone, a
/// mineral only by a miner, a scientific site only by a scientist.
pub open spec fn collects(role: RobotType, t: Tile) -> bool {
    ||| t == Tile::Energy
    ||| (t == Tile::Mineral && role == RobotType::Miner)
    ||| (t == Tile::Scientific && role == RobotType::Scientist)
}

/// There is at most one nearest cell: two candidates that both win the
/// row-major tie-break are the same cell.
pub proof fn lemma_nearest_unique(
    g: Seq<Seq<Tile>>,
    w: int,
    h: int,
    px: int,
    py: int,
    t: Tile,
    ax: int,
    ay: int,
    bx: int,
    by: int,
)
    requires
        is_nearest(g, w, h, px, py, t, ax, ay),
        is_nearest(g, w, h, px, py, t, bx, by),
    ensures
        ax == bx && ay == by,
{
    if lex_before(ax, ay, bx, by) {
        assert(manhattan(px, py, ax, ay) > manhattan(px, py, bx, by));
        assert(manhattan(px, py, bx, by) >= manhattan(px, py, ax, ay));
        assert(false);
    } else if lex_before(bx, by, ax, ay) {
        assert(manhattan(px, py, bx, by) > manhattan(px, py, ax, ay));
        assert(manhattan(px, py, ax, ay) >= manhattan(px, py, bx, by));
        assert(false);
    }
}

/// Loop invariant of the nearest-cell scan: all cells before the
/// cursor (cx, cy) in row-major order have been examined.
spec fn scan_inv(
    g: Seq<Seq<Tile>>,
    w: int,
    h: int,
    px: int,
    py: int,
    t: Tile,
    best: Option<(usize, usize)>,
    bd: int,
    cx: int,
    cy: int,
) -> bool {
    match best {
        None => forall|x: int, y: int| 0 <= x < w && 0 <= y < h && lex_before(x, y, cx, cy)
            ==> #[trigger] g[y][x] != t,
        Some(p) => {
            let bx = p.0 as int;
            let by = p.1 as int;
            &&& 0 <= bx < w && 0 <= by < h
            &&& lex_before(bx, by, cx, cy)
            &&& g[by][bx] == t
            &&& bd == manhattan(px, py, bx, by)
            &&& forall|x: int, y: int| 0 <= x < w && 0 <= y < h && lex_before(x, y, cx, cy)
                && #[trigger] g[y][x] == t ==> manhattan(px, py, x, y) >= bd
            &&& forall|x: int, y: int| 0 <= x < w && 0 <= y < h && lex_before(x, y, bx, by)
                && #[trigger] g[y][x] == t ==> manhattan(px, py, x, y) > bd
        },
    }
}

impl Robot {
    /// The nearest cell holding the target tile, by Manhattan distance
    /// from the agent, rows scanned top to bottom and columns left to
    /// right; the first cell at the minimal distance wins.
    pub fn find_nearest(&self, map: &WorldMap, target: Tile) -> (r: Option<(usize, usize)>)
        requires
            map.wf(),
            self.in_bounds(map.width as int, map.height as int),
        ensures
            r is None ==> !has_tile(map@, map.width as int, map.height as int, target),
            r matches Some(p) ==> is_nearest(map@, map.width as int, map.height as int,
                self.x as int, self.y as int, target, p.0 as int, p.1 as int),
    {
        let px = self.x;
        let py = self.y;
        let mut best: Option<(usize, usize)> = None;
        let mut best_dist: u128 = 0;
        let mut y: usize = 0;
        while y < map.height
            invariant
                map.wf(),
                px == self.x && py == self.y,
                self.in_bounds(map.width as int, map.height as int),
                y <= map.height,
                scan_inv(map@, map.width as int, map.height as int, px as int, py as int,
                    target, best, best_dist as int, 0, y as int),
            decreases map.height - y,
        {
            let mut x: usize = 0;
            while x < map.width
                invariant
                    map.wf(),
                    px == self.x && py == self.y,
                    self.in_bounds(map.width as int, map.height as int),
                    y < map.height,
                    x <= map.width,
                    scan_inv(map@, map.width as int, map.height as int, px as int, py as int,
                        target, best, best_dist as int, x as int, y as int),
                decreases map.width - x,
            {
                let tile = map.grid[y][x];
                assert(tile == map@[y as int][x as int]);
                if tile == target {
                    let dxv = if px >= x {
                        px - x
                    } else {
                        x - px
                    };
                    let dyv = if py >= y {
                        py - y
                    } else {
                        y - py
                    };
                    let dist = dxv as u128 + dyv as u128;
                    assert(dist as int == manhattan(px as int, py as int, x as int, y as int));
                    if best.is_none() || dist < best_dist {
                        best = Some((x, y));
                        best_dist = dist;
                    }
                }
                x += 1;
            }
            y += 1;
        }
        best
    }

    /// One homing step: a signed unit step toward the station on each
    /// axis; if that cell is an obstacle, a random cardinal fallback.
    /// Returns whether the agent was already at the station.
    pub fn return_to_station(&mut self, station_x: usize, station_y: usize, map: &WorldMap)
        -> (arrived: bool)
        requires
            map.wf(),
            old(self).in_bounds(map.width as int, map.height as int),
        ensures
            final(self).in_bounds(map.width as int, map.height as int),
            final(self).energy == old(self).energy,
            final(self).returning == old(self).returning,
            final(self).robot_type == old(self).robot_type,
            final(self).discoveries@ == old(self).discoveries@,
            dist1(final(self).x as int, old(self).x as int) <= 1,
            dist1(final(self).y as int, old(self).y as int) <= 1,
            arrived <==> (old(self).x == station_x && old(self).y == station_y),
            arrived ==> final(self).x == old(self).x && final(self).y == old(self).y,
            !arrived ==> ({
                let gx = clamp_step(old(self).x as int,
                    signum(station_x as int - old(self).x as int), map.width as int);
                let gy = clamp_step(old(self).y as int,
                    signum(station_y as int - old(self).y as int), map.height as int);
                if map@[gy][gx] != Tile::Obstacle {
                    final(self).x == gx && final(self).y == gy
                } else {
                    random_step_outcome(map@, map.width as int, map.height as int,
                        old(self).x as int, old(self).y as int,
                        final(self).x as int, final(self).y as int)
                }
            }),
            map@[old(self).y as int][old(self).x as int] != Tile::Obstacle
                ==> map@[final(self).y as int][final(self).x as int] != Tile::Obstacle,
    {
        if self.x == station_x && self.y == station_y {
            return true;
        }
        let dx: i64 = if station_x > self.x {
            1
        } else if station_x < self.x {
            -1
        } else {
            0
        };
        let dy: i64 = if station_y > self.y {
            1
        } else if station_y < self.y {
            -1
        } else {
            0
        };
        let nx = step_coord(self.x, dx, map.width);
        let ny = step_coord(self.y, dy, map.height);
        if map.grid[ny][nx] != Tile::Obstacle {
            self.x = nx;
            self.y = ny;
            return false;
        }
        let _ = self.random_step_unseeded(map);
        false
    }

    /// Up to four random cardinal candidates; the first whose clamped
    /// cell is not an obstacle is taken. Draws come from the given
    /// seeded generator.
    fn random_step(&mut self, map: &WorldMap, rng: &mut rand::rngs::StdRng) -> (moved: bool)
        requires
            map.wf(),
            old(self).in_bounds(map.width as int, map.height as int),
        ensures
            final(self).in_bounds(map.width as int, map.height as int),
            final(self).energy == old(self).energy,
            final(self).returning == old(self).returning,
            final(self).robot_type == old(self).robot_type,
            final(self).discoveries@ == old(self).discoveries@,
            random_step_outcome(map@, map.width as int, map.height as int,
                old(self).x as int, old(self).y as int,
                final(self).x as int, final(self).y as int),
            dist1(final(self).x as int, old(self).x as int) <= 1,
            dist1(final(self).y as int, old(self).y as int) <= 1,
            moved ==> map@[final(self).y as int][final(self).x as int] != Tile::Obstacle,
            !moved ==> final(self).x == old(self).x && final(self).y == old(self).y,
    {
        let mut t: usize = 0;
        while t < 4
            invariant
                map.wf(),
                t <= 4,
                *self == *old(self),
                self.in_bounds(map.width as int, map.height as int),
                t >= 1 ==> !all_candidates_open(map@, map.width as int, map.height as int,
                    old(self).x as int, old(self).y as int),
            decreases 4 - t,
        {
            let k = draw_below(rng, 4);
            let (dx, dy) = direction(k);
            let nx = step_coord(self.x, dx, map.width);
            let ny = step_coord(self.y, dy, map.height);
            if map.grid[ny][nx] != Tile::Obstacle {
                self.x = nx;
                self.y = ny;
                assert(stepped_outcome(map@, map.width as int, map.height as int,
                    old(self).x as int, old(self).y as int, nx as int, ny as int)) by {
                    assert(0 <= k < 4 && nx as int == clamp_step(old(self).x as int,
                        dir_dx(k as int), map.width as int)
                        && ny as int == clamp_step(old(self).y as int, dir_dy(k as int),
                            map.height as int)
                        && map@[ny as int][nx as int] != Tile::Obstacle);
                }
                return true;
            }
            proof {
                assert(map@[clamp_step(old(self).y as int, dir_dy(k as int),
                    map.height as int)][clamp_step(old(self).x as int, dir_dx(k as int),
                    map.width as int)] == Tile::Obstacle);
                assert(!all_candidates_open(map@, map.width as int, map.height as int,
                    old(self).x as int, old(self).y as int));
            }
            t += 1;
        }
        false
    }

    /// One tick of movement. Homing when the flag is set or energy is
    /// spent; otherwise one energy is paid and the agent walks
    /// (an explorer with reserves) or seeks its target kind.
    #[verifier::rlimit(60)]
    pub fn move_robot(
        &mut self,
        map: &WorldMap,
        rng: &mut rand::rngs::StdRng,
        station_x: usize,
        station_y: usize,
    )
        requires
            map.wf(),
            old(self).in_bounds(map.width as int, map.height as int),
        ensures
            final(self).in_bounds(map.width as int, map.height as int),
            final(self).robot_type == old(self).robot_type,
            final(self).discoveries@ == old(self).discoveries@,
            dist1(final(self).x as int, old(self).x as int) <= 1,
            dist1(final(self).y as int, old(self).y as int) <= 1,
            map@[old(self).y as int][old(self).x as int] != Tile::Obstacle
                ==> map@[final(self).y as int][final(self).x as int] != Tile::Obstacle,
            (old(self).returning || old(self).energy == 0) ==> ({
                &&& final(self).energy == old(self).energy
                &&& if old(self).x == station_x && old(self).y == station_y {
                    final(self).x == old(self).x && final(self).y == old(self).y
                        && final(self).returning == false
                } else {
                    final(self).returning == true && ({
                        let gx = clamp_step(old(self).x as int,
                            signum(station_x as int - old(self).x as int), map.width as int);
                        let gy = clamp_step(old(self).y as int,
                            signum(station_y as int - old(self).y as int), map.height as int);
                        if map@[gy][gx] != Tile::Obstacle {
                            final(self).x == gx && final(self).y == gy
                        } else {
                            random_step_outcome(map@, map.width as int, map.height as int,
                                old(self).x as int, old(self).y as int,
                                final(self).x as int, final(self).y as int)
                        }
                    })
                }
            }),
            (!old(self).returning && old(self).energy > 0) ==> ({
                &&& final(self).energy == old(self).energy - 1
                &&& final(self).returning == false
                &&& ({
                    let tgt = target_kind(old(self).robot_type, old(self).energy - 1);
                    if old(self).robot_type == RobotType::Explorer && old(self).energy - 1 > 5 {
                        random_step_outcome(map@, map.width as int, map.height as int,
                            old(self).x as int, old(self).y as int,
                            final(self).x as int, final(self).y as int)
                        || seek_outcome(map@, map.width as int, map.height as int,
                            old(self).x as int, old(self).y as int,
                            final(self).x as int, final(self).y as int, Tile::Empty)
                    } else {
                        seek_outcome(map@, map.width as int, map.height as int,
                            old(self).x as int, old(self).y as int,
                            final(self).x as int, final(self).y as int, tgt)
                    }
                })
            }),
    {
        if self.energy == 0 {
            self.returning = true;
        }
        if self.returning {
            let arrived = self.return_to_station(station_x, station_y, map);
            self.returning = !arrived;
            return;
        }
        self.energy = self.energy - 1;
        let target_tile = if self.energy <= 5 {
            Tile::Energy
        } else {
            match self.robot_type {
                RobotType::Miner => Tile::Mineral,
                RobotType::Scientist => Tile::Scientific,
                RobotType::Explorer => Tile::Empty,
            }
        };
        assert(target_tile == target_kind(old(self).robot_type, old(self).energy - 1));
        if self.robot_type == RobotType::Explorer && self.energy > 5 {
            if self.random_step(map, rng) {
                return;
            }
        }
        match self.find_nearest(map, target_tile) {
            Some(t) => {
                let (tx, ty) = t;
                proof {
                    assert forall|rx: int, ry: int|
                        is_nearest(map@, map.width as int, map.height as int,
                            self.x as int, self.y as int, target_tile, rx, ry)
                        implies rx == tx as int && ry == ty as int by {
                        lemma_nearest_unique(map@, map.width as int, map.height as int,
                            self.x as int, self.y as int, target_tile,
                            rx, ry, tx as int, ty as int);
                    }
                    assert(has_tile(map@, map.width as int, map.height as int, target_tile));
                }
                let dx: i64 = if tx > self.x {
                    1
                } else if tx < self.x {
                    -1
                } else {
                    0
                };
                let dy: i64 = if ty > self.y {
                    1
                } else if ty < self.y {
                    -1
                } else {
                    0
                };
                let nx = step_coord(self.x, dx, map.width);
                let ny = step_coord(self.y, dy, map.height);
                if map.grid[ny][nx] != Tile::Obstacle {
                    self.x = nx;
                    self.y = ny;
                    return;
                }
            },
            None => {},
        }
        let _ = self.random_step(map, rng);
    }

    /// Inspect the current cell and, when the role may collect its
    /// tile, record the discovery and reset the cell to empty; energy
    /// tiles also grant five energy. A homing agent does nothing.
    pub fn perform_action(&mut self, map: &mut WorldMap)
        requires
            old(map).wf(),
            old(self).in_bounds(old(map).width as int, old(map).height as int),
            old(self).energy + 5 <= usize::MAX,
        ensures
            final(map).wf(),
            final(map).width == old(map).width,
            final(map).height == old(map).height,
            final(self).x == old(self).x,
            final(self).y == old(self).y,
            final(self).robot_type == old(self).robot_type,
            final(self).returning == old(self).returning,
            old(self).returning ==> final(map)@ == old(map)@
                && final(self).energy == old(self).energy
                && final(self).discoveries@ == old(self).discoveries@,
            !old(self).returning ==> ({
                let t = old(map)@[old(self).y as int][old(self).x as int];
                if collects(old(self).robot_type, t) {
                    &&& final(self).discoveries@
                        == old(self).discoveries@.push((old(self).x, old(self).y, t))
                    &&& final(map)@ == old(map)@.update(old(self).y as int,
                        old(map)@[old(self).y as int].update(old(self).x as int, Tile::Empty))
                    &&& final(self).energy == old(self).energy
                        + (if t == Tile::Energy { 5int } else { 0int })
                } else {
                    &&& final(self).discoveries@ == old(self).discoveries@
                    &&& final(map)@ == old(map)@
                    &&& final(self).energy == old(self).energy
                }
            }),
            final(self).energy >= old(self).energy,
            forall|cx: int, cy: int| 0 <= cx < old(map).width && 0 <= cy < old(map).height
                && !(cx == old(self).x as int && cy == old(self).y as int)
                ==> #[trigger] final(map)@[cy][cx] == old(map)@[cy][cx],
            forall|cx: int, cy: int| 0 <= cx < old(map).width && 0 <= cy < old(map).height
                && old(map)@[cy][cx] == Tile::Station
                ==> #[trigger] final(map)@[cy][cx] == Tile::Station,
            forall|cx: int, cy: int| 0 <= cx < old(map).width && 0 <= cy < old(map).height
                && old(map)@[cy][cx] == Tile::Mineral
                && #[trigger] final(map)@[cy][cx] != Tile::Mineral
                ==> old(self).robot_type == RobotType::Miner,
            forall|cx: int, cy: int| 0 <= cx < old(map).width && 0 <= cy < old(map).height
                && old(map)@[cy][cx] == Tile::Scientific
                && #[trigger] final(map)@[cy][cx] != Tile::Scientific
                ==> old(self).robot_type == RobotType::Scientist,
    {
        if self.returning {
            return;
        }
        let t = map.grid[self.y][self.x];
        assert(t == map@[self.y as int][self.x as int]);
        let took = match t {
            Tile::Energy => {
                self.energy = self.energy + 5;
                self.discoveries.push((self.x, self.y, Tile::Energy));
                true
            },
            Tile::Mineral => {
                if self.robot_type == RobotType::Miner {
                    self.discoveries.push((self.x, self.y, Tile::Mineral));
                    true
                } else {
                    false
                }
            },
            Tile::Scientific => {
                if self.robot_type == RobotType::Scientist {
                    self.discoveries.push((self.x, self.y, Tile::Scientific));
                    true
                } else {
                    false
                }
            },
            _ => false,
        };
        if took {
            map.grid[self.y][self.x] = Tile::Empty;
            assert(map@ =~= old(map)@.update(self.y as int,
                old(map)@[self.y as int].update(self.x as int, Tile::Empty)));
        }
    }

    /// One full agent turn: move, act on the current cell, and, when
    /// the agent stands on the station cell while homing, hand the
    /// discovery buffer over to the station.
    pub fn tick(
        &mut self,
        map: &mut WorldMap,
        station: &mut crate::station::Station,
        rng: &mut rand::rngs::StdRng,
        station_x: usize,
        station_y: usize,
    )
        requires
            old(map).wf(),
            old(self).in_bounds(old(map).width as int, old(map).height as int),
            old(self).energy + 5 <= usize::MAX,
            old(station).wf(),
            station_x < old(map).width,
            station_y < old(map).height,
            old(map)@[station_y as int][station_x as int] == Tile::Station,
        ensures
            final(map).wf(),
            final(map).width == old(map).width,
            final(map).height == old(map).height,
            final(self).in_bounds(old(map).width as int, old(map).height as int),
            final(self).robot_type == old(self).robot_type,
            dist1(final(self).x as int, old(self).x as int) <= 1,
            dist1(final(self).y as int, old(self).y as int) <= 1,
            final(station).wf(),
            final(station).x == old(station).x,
            final(station).y == old(station).y,
            old(map)@[old(self).y as int][old(self).x as int] != Tile::Obstacle
                ==> final(map)@[final(self).y as int][final(self).x as int] != Tile::Obstacle,
            forall|cx: int, cy: int| 0 <= cx < old(map).width && 0 <= cy < old(map).height
                && old(map)@[cy][cx] == Tile::Station
                ==> #[trigger] final(map)@[cy][cx] == Tile::Station,
            forall|cx: int, cy: int| 0 <= cx < old(map).width && 0 <= cy < old(map).height
                ==> ((#[trigger] final(map)@[cy][cx]) == Tile::Obstacle
                    <==> old(map)@[cy][cx] == Tile::Obstacle),
            forall|cx: int, cy: int| 0 <= cx < old(map).width && 0 <= cy < old(map).height
                && old(map)@[cy][cx] == Tile::Mineral
                && #[trigger] final(map)@[cy][cx] != Tile::Mineral
                ==> old(self).robot_type == RobotType::Miner,
            forall|cx: int, cy: int| 0 <= cx < old(map).width && 0 <= cy < old(map).height
                && old(map)@[cy][cx] == Tile::Scientific
                && #[trigger] final(map)@[cy][cx] != Tile::Scientific
                ==> old(self).robot_type == RobotType::Scientist,
            old(station).disc_set().subset_of(final(station).disc_set()),
            forall|d: (usize, usize, Tile)| old(self).discoveries@.contains(d)
                ==> final(self).discoveries@.contains(d)
                    || final(station).disc_set().contains(d),
            (final(self).x == station_x && final(self).y == station_y && final(self).returning)
                ==> final(self).discoveries@.len() == 0,
            !(final(self).x == station_x && final(self).y == station_y && final(self).returning)
                ==> *final(station) == *old(station),
            // A homing turn: the map is untouched, energy is kept, and
            // the agent either ends Returning in place at the station
            // or takes the homing step and hands off on arrival.
            (old(self).returning || old(self).energy == 0) ==> ({
                &&& final(map)@ == old(map)@
                &&& final(self).energy == old(self).energy
                &&& if old(self).x == station_x && old(self).y == station_y {
                    final(self).x == old(self).x && final(self).y == old(self).y
                        && final(self).returning == false
                        && final(self).discoveries@ == old(self).discoveries@
                        && *final(station) == *old(station)
                } else {
                    &&& final(self).returning == true
                    &&& ({
                        let gx = clamp_step(old(self).x as int,
                            signum(station_x as int - old(self).x as int),
                            old(map).width as int);
                        let gy = clamp_step(old(self).y as int,
                            signum(station_y as int - old(self).y as int),
                            old(map).height as int);
                        if old(map)@[gy][gx] != Tile::Obstacle {
                            final(self).x == gx && final(self).y == gy
                        } else {
                            random_step_outcome(old(map)@, old(map).width as int,
                                old(map).height as int, old(self).x as int, old(self).y as int,
                                final(self).x as int, final(self).y as int)
                        }
                    })
                    &&& if final(self).x == station_x && final(self).y == station_y {
                        final(self).discoveries@.len() == 0
                            && final(station).disc_set() == old(station).disc_set()
                                + old(self).discoveries@.to_set()
                    } else {
                        final(self).discoveries@ == old(self).discoveries@
                            && *final(station) == *old(station)
                    }
                }
            }),
            // An active turn: one energy is paid and the agent walks or
            // seeks as `move_robot` says; then the tile under its new
            // position is collected exactly when its role allows.
            (!old(self).returning && old(self).energy > 0) ==> ({
                let t = old(map)@[final(self).y as int][final(self).x as int];
                &&& final(self).returning == false
                &&& *final(station) == *old(station)
                &&& ({
                    let tgt = target_kind(old(self).robot_type, old(self).energy - 1);
                    if old(self).robot_type == RobotType::Explorer && old(self).energy - 1 > 5 {
                        random_step_outcome(old(map)@, old(map).width as int,
                            old(map).height as int, old(self).x as int, old(self).y as int,
                            final(self).x as int, final(self).y as int)
                        || seek_outcome(old(map)@, old(map).width as int, old(map).height as int,
                            old(self).x as int, old(self).y as int,
                            final(self).x as int, final(self).y as int, Tile::Empty)
                    } else {
                        seek_outcome(old(map)@, old(map).width as int, old(map).height as int,
                            old(self).x as int, old(self).y as int,
                            final(self).x as int, final(self).y as int, tgt)
                    }
                })
                &&& if collects(old(self).robot_type, t) {
                    final(map)@ == old(map)@.update(final(self).y as int,
                        old(map)@[final(self).y as int].update(final(self).x as int, Tile::Empty))
                        && final(self).discoveries@ == old(self).discoveries@
                            .push((final(self).x, final(self).y, t))
                        && final(self).energy == old(self).energy - 1
                            + (if t == Tile::Energy { 5int } else { 0int })
                } else {
                    final(map)@ == old(map)@
                        && final(self).discoveries@ == old(self).discoveries@
                        && final(self).energy == old(self).energy - 1
                }
            }),
    {
        self.move_robot(map, rng, station_x, station_y);
        self.perform_action(map);
        if self.x == station_x && self.y == station_y && self.returning {
            let ghost mid = self.discoveries@;
            station.collect_discoveries(self);
            proof {
                assert forall|d: (usize, usize, Tile)| old(self).discoveries@.contains(d)
                    implies station.disc_set().contains(d) by {
                    let k = choose|k: int| 0 <= k < old(self).discoveries@.len()
                        && old(self).discoveries@[k] == d;
                    assert(mid[k] == d);
                    assert(mid.to_set().contains(d));
                }
            }
        } else {
            proof {
                assert forall|d: (usize, usize, Tile)| old(self).discoveries@.contains(d)
                    implies self.discoveries@.contains(d) by {
                    let k = choose|k: int| 0 <= k < old(self).discoveries@.len()
                        && old(self).discoveries@[k] == d;
                    assert(self.discoveries@[k] == d);
                }
            }
        }
    }

    /// The same fallback walk, drawing from the thread's entropy
    /// source instead of a seeded generator.
    fn random_step_unseeded(&mut self, map: &WorldMap) -> (moved: bool)
        requires
            map.wf(),
            old(self).in_bounds(map.width as int, map.height as int),
        ensures
            final(self).in_bounds(map.width as int, map.height as int),
            final(self).energy == old(self).energy,
            final(self).returning == old(self).returning,
            final(self).robot_type == old(self).robot_type,
            final(self).discoveries@ == old(self).discoveries@,
            random_step_outcome(map@, map.width as int, map.height as int,
                old(self).x as int, old(self).y as int,
                final(self).x as int, final(self).y as int),
            dist1(final(self).x as int, old(self).x as int) <= 1,
            dist1(final(self).y as int, old(self).y as int) <= 1,
            moved ==> map@[final(self).y as int][final(self).x as int] != Tile::Obstacle,
            !moved ==> final(self).x == old(self).x && final(self).y == old(self).y,
    {
        let mut t: usize = 0;
        while t < 4
            invariant
                map.wf(),
                t <= 4,
                *self == *old(self),
                self.in_bounds(map.width as int, map.height as int),
                t >= 1 ==> !all_candidates_open(map@, map.width as int, map.height as int,
                    old(self).x as int, old(self).y as int),
            decreases 4 - t,
        {
            let k = random_below(4);
            let (dx, dy) = direction(k);
            let nx = step_coord(self.x, dx, map.width);
            let ny = step_coord(self.y, dy, map.height);
            if map.grid[ny][nx] != Tile::Obstacle {
                self.x = nx;
                self.y = ny;
                assert(stepped_outcome(map@, map.width as int, map.height as int,
                    old(self).x as int, old(self).y as int, nx as int, ny as int)) by {
                    assert(0 <= k < 4 && nx as int == clamp_step(old(self).x as int,
                        dir_dx(k as int), map.width as int)
                        && ny as int == clamp_step(old(self).y as int, dir_dy(k as int),
                            map.height as int)
                        && map@[ny as int][nx as int] != Tile::Obstacle);
                }
                return true;
            }
            proof {
                assert(map@[clamp_step(old(self).y as int, dir_dy(k as int),
                    map.height as int)][clamp_step(old(self).x as int, dir_dx(k as int),
                    map.width as int)] == Tile::Obstacle);
                assert(!all_candidates_open(map@, map.width as int, map.height as int,
                    old(self).x as int, old(self).y as int));
            }
            t += 1;
        }
        false
    }
}

} // verus!
