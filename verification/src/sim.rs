use vstd::prelude::*;

use crate::map::{Tile, WorldMap};
use crate::robot::{
    clamp_step, dist1, lemma_random_outcome_obstacle_agree, random_step_outcome, signum, Robot,
};
use crate::station::Station;

verus! {

/// The global termination predicate: every agent stands on the station
/// cell and is no longer homing.
pub open spec fn all_done_spec(robots: Seq<Robot>, station_x: int, station_y: int) -> bool {
    forall|i: int| 0 <= i < robots.len() ==> !(#[trigger] robots[i]).returning
        && robots[i].x == station_x && robots[i].y == station_y
}

pub fn all_done(robots: &Vec<Robot>, station_x: usize, station_y: usize) -> (r: bool)
    ensures
        r == all_done_spec(robots@, station_x as int, station_y as int),
{
    let mut i: usize = 0;
    while i < robots.len()
        invariant
            i <= robots@.len(),
            forall|k: int| 0 <= k < i ==> !(#[trigger] robots@[k]).returning
                && robots@[k].x == station_x && robots@[k].y == station_y,
        decreases robots@.len() - i,
    {
        let r = &robots[i];
        if r.returning || r.x != station_x || r.y != station_y {
            return false;
        }
        i += 1;
    }
    true
}

/// What one agent's turn in a round does, stated against the grid `g`
/// as the round began. Obstacles never move inside a round, so the
/// homing step is exact here; an active agent's seek target may have
/// been consumed by an earlier agent, so its step is bounded, not
/// pinned (each agent's `tick` pins it against the grid it saw).
pub open spec fn round_turn(
    before: Robot,
    after: Robot,
    g: Seq<Seq<Tile>>,
    w: int,
    h: int,
    station_x: int,
    station_y: int,
    station_set: Set<(usize, usize, Tile)>,
) -> bool {
    &&& dist1(after.x as int, before.x as int) <= 1
    &&& dist1(after.y as int, before.y as int) <= 1
    &&& (g[before.y as int][before.x as int] != Tile::Obstacle
        ==> g[after.y as int][after.x as int] != Tile::Obstacle)
    &&& ((after.x == station_x && after.y == station_y && after.returning)
        ==> after.discoveries@.len() == 0)
    &&& ({
        ||| after.discoveries@ == before.discoveries@
        ||| (exists|t: Tile| after.discoveries@
                == before.discoveries@.push((after.x, after.y, t))
            && after.energy == before.energy - 1 + (if t == Tile::Energy { 5int } else { 0int }))
        ||| (after.discoveries@.len() == 0
            && forall|d: (usize, usize, Tile)| before.discoveries@.contains(d)
                ==> station_set.contains(d))
    })
    &&& ((before.returning || before.energy == 0) ==> ({
        &&& after.energy == before.energy
        &&& if before.x == station_x && before.y == station_y {
            after.x == before.x && after.y == before.y && after.returning == false
        } else {
            &&& after.returning == true
            &&& ({
                let gx = clamp_step(before.x as int, signum(station_x - before.x as int), w);
                let gy = clamp_step(before.y as int, signum(station_y - before.y as int), h);
                if g[gy][gx] != Tile::Obstacle {
                    after.x == gx && after.y == gy
                } else {
                    random_step_outcome(g, w, h, before.x as int, before.y as int,
                        after.x as int, after.y as int)
                }
            })
        }
    }))
    &&& ((!before.returning && before.energy > 0) ==> after.returning == false
        && (after.energy == before.energy - 1 || after.energy == before.energy + 4))
}

/// A turn already taken stays taken when the station's set grows: the
/// set appears in `round_turn` only positively.
pub proof fn lemma_round_turn_station_grows(
    before: Robot,
    after: Robot,
    g: Seq<Seq<Tile>>,
    w: int,
    h: int,
    station_x: int,
    station_y: int,
    s1: Set<(usize, usize, Tile)>,
    s2: Set<(usize, usize, Tile)>,
)
    requires
        round_turn(before, after, g, w, h, station_x, station_y, s1),
        s1.subset_of(s2),
    ensures
        round_turn(before, after, g, w, h, station_x, station_y, s2),
{
    if after.discoveries@ == before.discoveries@ {
    } else if exists|t: Tile| after.discoveries@ == before.discoveries@.push((after.x, after.y, t))
        && after.energy == before.energy - 1 + (if t == Tile::Energy { 5int } else { 0int }) {
    } else {
        assert forall|d: (usize, usize, Tile)| before.discoveries@.contains(d)
            implies s2.contains(d) by {
            assert(s1.contains(d));
        }
    }
}

/// One synchronous round: every agent takes its full tick, in roster
/// order, against the shared grid and station. Dimensions, station
/// cells and obstacles survive the round, agents stay in bounds, the
/// station's discovery set only grows, and every agent's turn obeys
/// `round_turn` against the round's starting grid.
pub fn step_round(
    map: &mut WorldMap,
    station: &mut Station,
    robots: &mut Vec<Robot>,
    rng: &mut rand::rngs::StdRng,
    station_x: usize,
    station_y: usize,
)
    requires
        old(map).wf(),
        old(station).wf(),
        station_x < old(map).width,
        station_y < old(map).height,
        old(map)@[station_y as int][station_x as int] == Tile::Station,
        forall|k: int| 0 <= k < old(robots)@.len()
            ==> (#[trigger] old(robots)@[k]).in_bounds(old(map).width as int,
                old(map).height as int)
                && old(robots)@[k].energy + 5 <= usize::MAX,
    ensures
        final(map).wf(),
        final(map).width == old(map).width,
        final(map).height == old(map).height,
        final(station).wf(),
        final(station).x == old(station).x,
        final(station).y == old(station).y,
        old(station).disc_set().subset_of(final(station).disc_set()),
        final(robots)@.len() == old(robots)@.len(),
        forall|k: int| 0 <= k < old(robots)@.len()
            ==> (#[trigger] final(robots)@[k]).in_bounds(old(map).width as int,
                old(map).height as int)
                && final(robots)@[k].robot_type == old(robots)@[k].robot_type,
        forall|cx: int, cy: int| 0 <= cx < old(map).width && 0 <= cy < old(map).height
            && old(map)@[cy][cx] == Tile::Station
            ==> #[trigger] final(map)@[cy][cx] == Tile::Station,
        forall|cx: int, cy: int| 0 <= cx < old(map).width && 0 <= cy < old(map).height
            ==> ((#[trigger] final(map)@[cy][cx]) == Tile::Obstacle
                <==> old(map)@[cy][cx] == Tile::Obstacle),
        forall|k: int| 0 <= k < old(robots)@.len()
            ==> round_turn(old(robots)@[k], #[trigger] final(robots)@[k], old(map)@,
                old(map).width as int, old(map).height as int,
                station_x as int, station_y as int, final(station).disc_set()),
{
    let mut i: usize = 0;
    while i < robots.len()
        invariant
            map.wf(),
            map.width == old(map).width,
            map.height == old(map).height,
            station.wf(),
            station.x == old(station).x,
            station.y == old(station).y,
            old(station).disc_set().subset_of(station.disc_set()),
            station_x < map.width,
            station_y < map.height,
            i <= robots@.len(),
            robots@.len() == old(robots)@.len(),
            forall|k: int| 0 <= k < robots@.len()
                ==> (#[trigger] robots@[k]).in_bounds(map.width as int, map.height as int)
                    && robots@[k].robot_type == old(robots)@[k].robot_type,
            forall|k: int| i <= k < robots@.len()
                ==> #[trigger] robots@[k] == old(robots)@[k],
            forall|k: int| 0 <= k < old(robots)@.len()
                ==> (#[trigger] old(robots)@[k]).energy + 5 <= usize::MAX,
            forall|cx: int, cy: int| 0 <= cx < old(map).width && 0 <= cy < old(map).height
                && old(map)@[cy][cx] == Tile::Station
                ==> #[trigger] map@[cy][cx] == Tile::Station,
            forall|cx: int, cy: int| 0 <= cx < old(map).width && 0 <= cy < old(map).height
                ==> ((#[trigger] map@[cy][cx]) == Tile::Obstacle
                    <==> old(map)@[cy][cx] == Tile::Obstacle),
            old(map)@[station_y as int][station_x as int] == Tile::Station,
            forall|k: int| 0 <= k < i
                ==> round_turn(old(robots)@[k], #[trigger] robots@[k], old(map)@,
                    old(map).width as int, old(map).height as int,
                    station_x as int, station_y as int, station.disc_set()),
        decreases robots@.len() - i,
    {
        let ghost m_pre = map@;
        let ghost s_pre = station.disc_set();
        let ghost before = robots@[i as int];
        let r = &mut robots[i];
        r.tick(map, station, rng, station_x, station_y);
        proof {
            let w = old(map).width as int;
            let h = old(map).height as int;
            let g0 = old(map)@;
            let after = robots@[i as int];
            let sx = station_x as int;
            let sy = station_y as int;
            // the round-start grid and the grid this tick saw agree on
            // obstacles, both before and after the tick
            assert forall|cx: int, cy: int| 0 <= cx < w && 0 <= cy < h
                implies ((#[trigger] map@[cy][cx]) == Tile::Obstacle
                    <==> g0[cy][cx] == Tile::Obstacle) by {
                assert(m_pre[cy][cx] == Tile::Obstacle <==> g0[cy][cx] == Tile::Obstacle);
            }
            // the turn just taken, restated against the round's start
            assert(round_turn(before, after, g0, w, h, sx, sy, station.disc_set())) by {
                if before.returning || before.energy == 0 {
                    if !(before.x == sx && before.y == sy) {
                        let gx = clamp_step(before.x as int, signum(sx - before.x as int), w);
                        let gy = clamp_step(before.y as int, signum(sy - before.y as int), h);
                        assert(0 <= gx < w && 0 <= gy < h);
                        assert(m_pre[gy][gx] == Tile::Obstacle <==> g0[gy][gx] == Tile::Obstacle);
                        if m_pre[gy][gx] == Tile::Obstacle {
                            lemma_random_outcome_obstacle_agree(m_pre, g0, w, h,
                                before.x as int, before.y as int, after.x as int, after.y as int);
                        }
                        if after.x == sx && after.y == sy {
                            assert forall|d: (usize, usize, Tile)|
                                before.discoveries@.contains(d)
                                implies station.disc_set().contains(d) by {
                                assert(before.discoveries@.to_set().contains(d));
                            }
                        }
                    }
                } else {
                    let t = m_pre[after.y as int][after.x as int];
                    if crate::robot::collects(before.robot_type, t) {
                        assert(after.discoveries@
                            == before.discoveries@.push((after.x, after.y, t)));
                    }
                }
                assert(g0[before.y as int][before.x as int] != Tile::Obstacle
                    ==> g0[after.y as int][after.x as int] != Tile::Obstacle) by {
                    assert(m_pre[before.y as int][before.x as int] == Tile::Obstacle
                        <==> g0[before.y as int][before.x as int] == Tile::Obstacle);
                    assert(map@[after.y as int][after.x as int] == Tile::Obstacle
                        <==> g0[after.y as int][after.x as int] == Tile::Obstacle);
                }
            }
            // earlier turns survive the station's growth
            assert forall|k: int| 0 <= k < i
                implies round_turn(old(robots)@[k], #[trigger] robots@[k], g0, w, h,
                    sx, sy, station.disc_set()) by {
                lemma_round_turn_station_grows(old(robots)@[k], robots@[k], g0, w, h,
                    sx, sy, s_pre, station.disc_set());
            }
        }
        i += 1;
    }
}

} // verus!
