use vstd::prelude::*;

use crate::map::Tile;
use crate::robot::Robot;

verus! {

/// The home base: a fixed cell plus the set of discoveries it has
/// accepted, deduplicated.
#[derive(Debug)]
pub struct Station {
    pub x: usize,
    pub y: usize,
    pub discoveries: Vec<(usize, usize, Tile)>,
}

impl Station {
    /// The discoveries as a mathematical set.
    pub open spec fn disc_set(self) -> Set<(usize, usize, Tile)> {
        self.discoveries@.to_set()
    }

    /// The backing list never holds a triple twice, so its length is
    /// the size of the set.
    pub open spec fn wf(self) -> bool {
        self.discoveries@.no_duplicates()
    }

    pub fn new(x: usize, y: usize) -> (s: Station)
        ensures
            s.x == x,
            s.y == y,
            s.discoveries@ == Seq::<(usize, usize, Tile)>::empty(),
            s.wf(),
    {
        Station { x, y, discoveries: Vec::new() }
    }

    /// Whether a triple has already been accepted.
    pub fn contains_discovery(&self, d: (usize, usize, Tile)) -> (r: bool)
        ensures
            r == self.discoveries@.contains(d),
    {
        let mut i: usize = 0;
        while i < self.discoveries.len()
            invariant
                i <= self.discoveries@.len(),
                forall|k: int| 0 <= k < i ==> self.discoveries@[k] != d,
            decreases self.discoveries@.len() - i,
        {
            let e = self.discoveries[i];
            if e.0 == d.0 && e.1 == d.1 && e.2 == d.2 {
                assert(self.discoveries@[i as int] == d);
                return true;
            }
            i += 1;
        }
        false
    }

    /// Accept one triple with set semantics: a triple already present
    /// leaves the station unchanged, so the size does not grow.
    pub fn insert_discovery(&mut self, d: (usize, usize, Tile))
        requires
            old(self).wf(),
        ensures
            final(self).wf(),
            final(self).x == old(self).x,
            final(self).y == old(self).y,
            final(self).disc_set() == old(self).disc_set().insert(d),
            old(self).disc_set().contains(d) ==> *final(self) == *old(self),
            !old(self).disc_set().contains(d) ==> final(self).discoveries@
                == old(self).discoveries@.push(d),
    {
        if !self.contains_discovery(d) {
            self.discoveries.push(d);
            proof {
                let olds = old(self).discoveries@;
                let news = self.discoveries@;
                assert forall|e: (usize, usize, Tile)|
                    news.contains(e) <==> (olds.contains(e) || e == d) by {
                    if news.contains(e) {
                        let k = choose|k: int| 0 <= k < news.len() && news[k] == e;
                        if k < olds.len() {
                            assert(olds[k] == e);
                        }
                    }
                    if olds.contains(e) {
                        let k = choose|k: int| 0 <= k < olds.len() && olds[k] == e;
                        assert(news[k] == e);
                    }
                    if e == d {
                        assert(news[news.len() - 1] == e);
                    }
                }
                assert(self.disc_set() =~= old(self).disc_set().insert(d));
            }
        } else {
            assert(self.disc_set() =~= old(self).disc_set().insert(d));
        }
    }

    /// Move every entry of the robot's buffer into the station's set
    /// (duplicates collapse) and clear the buffer; nothing else of the
    /// robot or the station changes.
    pub fn collect_discoveries(&mut self, robot: &mut Robot)
        requires
            old(self).wf(),
        ensures
            final(self).wf(),
            final(self).x == old(self).x,
            final(self).y == old(self).y,
            final(self).disc_set() == old(self).disc_set() + old(robot).discoveries@.to_set(),
            final(robot).discoveries@ == Seq::<(usize, usize, Tile)>::empty(),
            final(robot).x == old(robot).x,
            final(robot).y == old(robot).y,
            final(robot).robot_type == old(robot).robot_type,
            final(robot).energy == old(robot).energy,
            final(robot).returning == old(robot).returning,
    {
        let mut i: usize = 0;
        while i < robot.discoveries.len()
            invariant
                i <= robot.discoveries@.len(),
                robot.discoveries@ == old(robot).discoveries@,
                self.wf(),
                self.x == old(self).x,
                self.y == old(self).y,
                self.disc_set() == old(self).disc_set()
                    + old(robot).discoveries@.take(i as int).to_set(),
            decreases robot.discoveries@.len() - i,
        {
            let d = robot.discoveries[i];
            self.insert_discovery(d);
            proof {
                assert(old(robot).discoveries@.take(i + 1).drop_last()
                    =~= old(robot).discoveries@.take(i as int));
                assert(old(robot).discoveries@.take(i + 1).last() == d);
                assert forall|e: (usize, usize, Tile)|
                    old(robot).discoveries@.take(i + 1).to_set().contains(e)
                    <==> old(robot).discoveries@.take(i as int).to_set().insert(d).contains(e) by {
                    let s = old(robot).discoveries@.take(i + 1);
                    if s.to_set().contains(e) {
                        let k = choose|k: int| 0 <= k < s.len() && s[k] == e;
                        if k < i {
                            assert(old(robot).discoveries@.take(i as int)[k] == e);
                        }
                    } else {
                    }
                    if old(robot).discoveries@.take(i as int).contains(e) {
                        let k = choose|k: int|
                            0 <= k < i && old(robot).discoveries@.take(i as int)[k] == e;
                        assert(s[k] == e);
                    }
                }
                assert(old(robot).discoveries@.take(i + 1).to_set()
                    =~= old(robot).discoveries@.take(i as int).to_set().insert(d));
                assert(self.disc_set() =~= old(self).disc_set()
                    + old(robot).discoveries@.take(i + 1).to_set());
            }
            i += 1;
        }
        assert(old(robot).discoveries@.take(robot.discoveries@.len() as int)
            =~= old(robot).discoveries@);
        robot.discoveries.clear();
    }

    /// How many accepted discoveries carry each resource kind, in the
    /// order energy, mineral, scientific.
    pub fn summarize(&self) -> (c: (usize, usize, usize))
        ensures
            c.0 == count_kind(self.discoveries@, Tile::Energy),
            c.1 == count_kind(self.discoveries@, Tile::Mineral),
            c.2 == count_kind(self.discoveries@, Tile::Scientific),
    {
        let mut e: usize = 0;
        let mut m: usize = 0;
        let mut s: usize = 0;
        let mut i: usize = 0;
        while i < self.discoveries.len()
            invariant
                i <= self.discoveries@.len(),
                e == count_kind(self.discoveries@.take(i as int), Tile::Energy),
                m == count_kind(self.discoveries@.take(i as int), Tile::Mineral),
                s == count_kind(self.discoveries@.take(i as int), Tile::Scientific),
                e <= i && m <= i && s <= i,
            decreases self.discoveries@.len() - i,
        {
            proof {
                assert(self.discoveries@.take(i + 1).drop_last()
                    =~= self.discoveries@.take(i as int));
                assert(self.discoveries@.take(i + 1).last() == self.discoveries@[i as int]);
            }
            let d = self.discoveries[i];
            if matches!(d.2, Tile::Energy) {
                e += 1;
            } else if matches!(d.2, Tile::Mineral) {
                m += 1;
            } else if matches!(d.2, Tile::Scientific) {
                s += 1;
            }
            i += 1;
        }
        assert(self.discoveries@.take(self.discoveries@.len() as int) =~= self.discoveries@);
        (e, m, s)
    }
}

/// Discovery dedup: inserting a triple that the set already absorbed
/// changes neither the set nor its size.
pub proof fn lemma_discovery_dedup(s: Set<(usize, usize, Tile)>, d: (usize, usize, Tile))
    ensures
        s.insert(d).insert(d) == s.insert(d),
        s.insert(d).insert(d).len() == s.insert(d).len(),
{
    assert(s.insert(d).insert(d) =~= s.insert(d));
}

/// How many entries of a discovery list carry the given tile kind.
pub open spec fn count_kind(s: Seq<(usize, usize, Tile)>, t: Tile) -> int
    decreases s.len(),
{
    if s.len() == 0 {
        0
    } else {
        count_kind(s.drop_last(), t) + if s.last().2 == t { 1int } else { 0int }
    }
}

} // verus!
