use vstd::prelude::*;

use crate::random::{random_below, sample_indices};
use crate::rules::{
    Motion, Nudge, any_catchable, catchable, consistent, first_catch, lemma_blocked_agent_stays,
    lemma_left_wall_bounce, lemma_occupant, lemma_view_box, lemma_walk_step, nearer_or_first,
    lemma_walk_upto_len, nearest, one_tagged, row_major_le, scanned, seen, sees_any, sighted,
    sole_tagged, sq_dist, steered, tag_passed, walk_step, walk_target, walk_upto,
};
use crate::world_grid::{
    WorldGrid, cell_at, cell_index, lemma_cell_at, lemma_cell_index_bounds,
    lemma_cell_index_injective,
};

pub mod masks;

verus! {

/// Half-width of the square scanned for agents that can take the tag.
pub const TAG_RADIUS: u32 = 2;

/// Radius of the circle in which the tagged agent sees the others.
pub const AGENT_VIEW_DISTANCE: u32 = 8;

/// Largest speed of an agent along either axis.
pub const MAX_VELOCITY: i32 = 1;

/// Each tick, an agent turns at random with one chance in this many.
pub const TURN_ODDS: u32 = 10;

/// A 2-dimensional vector for non-negative integers
#[derive(Debug, Copy, Clone, PartialEq, Eq, Structural)]
pub struct Coord {
    pub x: u32,
    pub y: u32,
}

/// A 2-dimensional vector for integers
#[derive(Debug, Copy, Clone, PartialEq, Eq, Structural)]
pub struct Vec2 {
    pub x: i32,
    pub y: i32,
}

/// `v` brought into `[lo, hi]`: values above `hi` become `hi`, then values below `lo` become `lo`.
pub open spec fn clamp_int(v: int, lo: int, hi: int) -> int {
    if v > hi {
        hi
    } else if v < lo {
        lo
    } else {
        v
    }
}

/// The step of at most one cell per axis that leads from `from` towards `to`.
pub open spec fn heading(from: Coord, to: Coord) -> Vec2 {
    Vec2 {
        x: clamp_int(to.x - from.x, -MAX_VELOCITY, MAX_VELOCITY as int) as i32,
        y: clamp_int(to.y - from.y, -MAX_VELOCITY, MAX_VELOCITY as int) as i32,
    }
}

/// Whether `v` is no faster than `MAX_VELOCITY` along either axis.
pub open spec fn within_speed(v: Vec2) -> bool {
    -MAX_VELOCITY <= v.x <= MAX_VELOCITY && -MAX_VELOCITY <= v.y <= MAX_VELOCITY
}

impl Vec2 {
    /// Clamps each component into `[min, max]` independently.
    #[inline]
    pub fn clamp(&mut self, min: i32, max: i32)
        ensures
            final(self).x == clamp_int(old(self).x as int, min as int, max as int),
            final(self).y == clamp_int(old(self).y as int, min as int, max as int),
    {
        if self.x > max {
            self.x = max;
        } else if self.x < min {
            self.x = min;
        }
        if self.y > max {
            self.y = max;
        } else if self.y < min {
            self.y = min;
        }
    }
}

/// The vector that leads from `pos_1` to `pos_2`.
pub fn calc_vector(pos_1: Coord, pos_2: Coord) -> (r: Vec2)
    requires
        i32::MIN <= pos_2.x - pos_1.x <= i32::MAX,
        i32::MIN <= pos_2.y - pos_1.y <= i32::MAX,
    ensures
        r.x == pos_2.x - pos_1.x,
        r.y == pos_2.y - pos_1.y,
{
    Vec2 { x: (pos_2.x as i64 - pos_1.x as i64) as i32, y: (pos_2.y as i64 - pos_1.y as i64) as i32 }
}

/// The agents, stored as parallel arrays indexed by agent id.
#[derive(Debug, Clone)]
pub struct Agents {
    pub tagged: Vec<bool>,
    pub pos: Vec<Coord>,
    pub vel: Vec<Vec2>,
    pub has_tagged_in_sight: Vec<bool>,
    pub last_tagged: u32,
}

impl Agents {
    /// Number of agents.
    pub open spec fn count(&self) -> nat {
        self.pos@.len()
    }

    /// Positions, velocities and the grid's slots.
    pub open spec fn motion(&self, grid: &WorldGrid) -> Motion {
        Motion { pos: self.pos@, vel: self.vel@, cells: grid.agents@ }
    }

    /// The arrays have one entry per agent, positions and grid agree, every agent keeps
    /// within the speed limit, and exactly one agent holds the tag.
    pub open spec fn well_formed(&self, grid: &WorldGrid) -> bool {
        &&& grid.wf()
        &&& self.tagged@.len() == self.count()
        &&& self.vel@.len() == self.count()
        &&& self.has_tagged_in_sight@.len() == self.count()
        &&& consistent(self.pos@, grid.agents@, grid.width as int, grid.height as int)
        &&& forall|j: int| 0 <= j < self.count() ==> within_speed(#[trigger] self.vel@[j])
        &&& one_tagged(self.tagged@)
    }

    /// Agent `i` takes its walk: it turns by `nudge`, bounces off the walls, and moves
    /// into the cell it aims at when that cell is free.
    fn walk_agent(&mut self, world_grid: &mut WorldGrid, i: usize, nudge: Option<Nudge>)
        requires
            i < old(self).count(),
            old(self).vel@.len() == old(self).count(),
            old(world_grid).wf(),
            consistent(
                old(self).pos@,
                old(world_grid).agents@,
                old(world_grid).width as int,
                old(world_grid).height as int,
            ),
            within_speed(old(self).vel@[i as int]),
        ensures
            final(self).motion(final(world_grid)) == walk_step(
                old(self).motion(old(world_grid)),
                old(world_grid).width as int,
                old(world_grid).height as int,
                i as int,
                nudge,
            ),
            final(world_grid).wf(),
            final(world_grid).width == old(world_grid).width,
            final(world_grid).height == old(world_grid).height,
            final(self).tagged == old(self).tagged,
            final(self).has_tagged_in_sight == old(self).has_tagged_in_sight,
            final(self).last_tagged == old(self).last_tagged,
    {
        let ghost m = self.motion(world_grid);
        let ghost w = world_grid.width as int;
        let ghost h = world_grid.height as int;
        proof {
            lemma_walk_step(m, w, h, i as int, nudge);
        }
        let mut vel = self.vel[i];
        match nudge {
            Some(Nudge::Left) => {
                vel.x = vel.x - 1;
                vel.clamp(-1 * MAX_VELOCITY, MAX_VELOCITY);
            },
            Some(Nudge::Right) => {
                vel.x = vel.x + 1;
                vel.clamp(-1 * MAX_VELOCITY, MAX_VELOCITY);
            },
            Some(Nudge::Up) => {
                vel.y = vel.y - 1;
                vel.clamp(-1 * MAX_VELOCITY, MAX_VELOCITY);
            },
            Some(Nudge::Down) => {
                vel.y = vel.y + 1;
                vel.clamp(-1 * MAX_VELOCITY, MAX_VELOCITY);
            },
            None => {},
        }
        let pos = self.pos[i];
        let mut new_x: i64 = pos.x as i64 + vel.x as i64;
        let mut new_y: i64 = pos.y as i64 + vel.y as i64;
        if new_x >= world_grid.width as i64 {
            new_x = world_grid.width as i64 - 1;
            vel.x = -vel.x;
        }
        if new_x < 0 {
            new_x = 0;
            vel.x = -vel.x;
        }
        if new_y >= world_grid.height as i64 {
            new_y = world_grid.height as i64 - 1;
            vel.y = -vel.y;
        }
        if new_y < 0 {
            new_y = 0;
            vel.y = -vel.y;
        }
        self.vel.set(i, vel);
        let dest = Coord { x: new_x as u32, y: new_y as u32 };
        assert(dest == walk_target(m, w, h, i as int, nudge));
        if world_grid.get(dest).is_none() {
            world_grid.clear(pos);
            self.pos.set(i, dest);
            world_grid.set(dest, i as u32);
        }
        proof {
            let r = walk_step(m, w, h, i as int, nudge);
            assert(self.pos@ =~= r.pos);
            assert(self.vel@ =~= r.vel);
            assert(world_grid.agents@ =~= r.cells);
        }
    }

    /// Agents at the given distinct cells with the given velocities, recorded in the empty
    /// `world_grid`; agent 0 holds the tag, nobody is seen yet, and the cooldown names agent 0.
    pub fn with_positions(world_grid: &mut WorldGrid, positions: &Vec<Coord>, velocities: Vec<Vec2>) -> (r: Self)
        requires
            old(world_grid).wf(),
            forall|c: int| 0 <= c < old(world_grid).agents@.len() ==> old(world_grid).agents@[c] is None,
            0 < positions@.len() <= u32::MAX,
            velocities@.len() == positions@.len(),
            forall|i: int| 0 <= i < positions@.len() ==> old(world_grid).contains(#[trigger] positions@[i]),
            forall|i: int| 0 <= i < velocities@.len() ==> within_speed(#[trigger] velocities@[i]),
            forall|i: int, j: int| 0 <= i < j < positions@.len() ==> positions@[i] != positions@[j],
        ensures
            r.well_formed(final(world_grid)),
            final(world_grid).width == old(world_grid).width,
            final(world_grid).height == old(world_grid).height,
            r.pos@ == positions@,
            r.vel@ == velocities@,
            sole_tagged(r.tagged@, 0),
            forall|j: int| 0 <= j < r.count() ==> !r.has_tagged_in_sight@[j],
            r.last_tagged == 0,
    {
        let ghost w = world_grid.width as int;
        let ghost h = world_grid.height as int;
        let n = positions.len();
        let mut i: usize = 0;
        while i < n
            invariant
                i <= n,
                n == positions@.len(),
                n <= u32::MAX,
                world_grid.wf(),
                world_grid.width == w,
                world_grid.height == h,
                forall|k: int| 0 <= k < n ==> world_grid.contains(#[trigger] positions@[k]),
                forall|a: int, b: int| 0 <= a < b < n ==> positions@[a] != positions@[b],
                forall|k: int|
                    0 <= k < i ==> world_grid.agents@[cell_index(#[trigger] positions@[k], w)]
                        == Some(k as u32),
                forall|c: int|
                    0 <= c < world_grid.agents@.len() && (#[trigger] world_grid.agents@[c]) is Some
                        ==> {
                        &&& world_grid.agents@[c]->0 < i
                        &&& cell_index(positions@[world_grid.agents@[c]->0 as int], w) == c
                    },
            decreases n - i,
        {
            let ghost before = world_grid.agents@;
            let p = positions[i];
            proof {
                lemma_cell_index_bounds(p, w, h);
                assert forall|k: int| 0 <= k < i implies cell_index(positions@[k], w) != cell_index(
                    p,
                    w,
                ) by {
                    if cell_index(positions@[k], w) == cell_index(p, w) {
                        lemma_cell_index_injective(positions@[k], p, w);
                    }
                }
            }
            world_grid.set(p, i as u32);
            proof {
                assert forall|k: int| 0 <= k < i + 1 implies world_grid.agents@[cell_index(
                    #[trigger] positions@[k],
                    w,
                )] == Some(k as u32) by {
                    lemma_cell_index_bounds(positions@[k], w, h);
                    if k < i {
                        assert(before[cell_index(positions@[k], w)] == Some(k as u32));
                    }
                }
                assert forall|c: int|
                    0 <= c < world_grid.agents@.len() && (#[trigger] world_grid.agents@[c]) is Some
                        implies {
                        &&& world_grid.agents@[c]->0 < i + 1
                        &&& cell_index(positions@[world_grid.agents@[c]->0 as int], w) == c
                    } by {
                    if c != cell_index(p, w) {
                        assert(before[c] is Some);
                    }
                }
            }
            i = i + 1;
        }
        let mut tagged = vec![false; n];
        // The first agent starts with the tag
        tagged.set(0, true);
        let sight = vec![false; n];
        let r = Self {
            tagged,
            pos: positions.clone(),
            vel: velocities,
            has_tagged_in_sight: sight,
            last_tagged: 0,
        };
        proof {
            assert(r.pos@ =~= positions@);
            assert(sole_tagged(r.tagged@, 0));
        }
        r
    }

    /// `num_agents` agents at distinct cells of the empty `world_grid`, drawn uniformly at
    /// random, each with a random velocity of at most one step per axis; agent 0 holds the tag.
    pub fn new(num_agents: u32, world_grid: &mut WorldGrid) -> (r: Self)
        requires
            old(world_grid).wf(),
            forall|c: int| 0 <= c < old(world_grid).agents@.len() ==> old(world_grid).agents@[c] is None,
            0 < num_agents <= old(world_grid).width * old(world_grid).height,
        ensures
            r.well_formed(final(world_grid)),
            final(world_grid).width == old(world_grid).width,
            final(world_grid).height == old(world_grid).height,
            r.count() == num_agents,
            sole_tagged(r.tagged@, 0),
            forall|j: int| 0 <= j < r.count() ==> !r.has_tagged_in_sight@[j],
            r.last_tagged == 0,
    {
        let ghost w = world_grid.width as int;
        let ghost h = world_grid.height as int;
        let n = num_agents as usize;
        let cells = sample_indices(world_grid.agents.len(), n);
        let width = world_grid.width as usize;
        let mut pos: Vec<Coord> = Vec::with_capacity(n);
        let mut vel: Vec<Vec2> = Vec::with_capacity(n);
        let mut i: usize = 0;
        while i < n
            invariant
                i <= n,
                n == num_agents,
                cells@.len() == n,
                width == w,
                world_grid.width == w,
                world_grid.height == h,
                0 < n <= w * h,
                world_grid.agents@.len() == w * h,
                w <= u32::MAX,
                h <= u32::MAX,
                forall|k: int| 0 <= k < n ==> cells@[k] < w * h,
                pos@.len() == i,
                vel@.len() == i,
                forall|k: int| 0 <= k < i ==> #[trigger] pos@[k] == cell_at(cells@[k] as int, w),
                forall|k: int| 0 <= k < i ==> within_speed(#[trigger] vel@[k]),
            decreases n - i,
        {
            let idx = cells[i];
            proof {
                lemma_cell_at(idx as int, w, h);
            }
            let y = idx / width;
            let x = idx % width;
            pos.push(Coord { x: x as u32, y: y as u32 });
            let dx = random_below(3) as i32 - 1;
            let dy = random_below(3) as i32 - 1;
            vel.push(Vec2 { x: dx, y: dy });
            i = i + 1;
        }
        proof {
            assert forall|k: int| 0 <= k < n implies world_grid.contains(#[trigger] pos@[k]) by {
                lemma_cell_at(cells@[k] as int, w, h);
            }
            assert forall|a: int, b: int| 0 <= a < b < n implies pos@[a] != pos@[b] by {
                lemma_cell_at(cells@[a] as int, w, h);
                lemma_cell_at(cells@[b] as int, w, h);
            }
        }
        Self::with_positions(world_grid, &pos, vel)
    }

    /// `next` and `next_grid` are what one tick makes of `self` and `grid` when agent `i`
    /// turns by `nudges[i]`, and `passed` reports whether the tag changed hands.
    pub open spec fn ticked(
        &self,
        grid: &WorldGrid,
        next: &Agents,
        next_grid: &WorldGrid,
        nudges: Seq<Option<Nudge>>,
        passed: bool,
    ) -> bool {
        let walked = walk_upto(
            self.motion(grid),
            grid.width as int,
            grid.height as int,
            nudges,
            self.count(),
        );
        &&& next_grid.width == grid.width
        &&& next_grid.height == grid.height
        &&& next.pos@ == walked.pos
        &&& next_grid.agents@ == walked.cells
        &&& forall|t: int|
            #![trigger sole_tagged(self.tagged@, t)]
            sole_tagged(self.tagged@, t) ==> {
                &&& sighted(walked.pos, t, next.has_tagged_in_sight@)
                &&& steered(walked.pos, t, walked.vel, next.vel@)
                &&& tag_passed(
                    walked.pos,
                    t,
                    self.last_tagged,
                    self.tagged@,
                    next.tagged@,
                    next.last_tagged,
                    passed,
                )
            }
    }

    /// The id of the tagged agent.
    fn tagged_index(&self) -> (t: usize)
        requires
            one_tagged(self.tagged@),
        ensures
            sole_tagged(self.tagged@, t as int),
    {
        let ghost holder = choose|k: int| sole_tagged(self.tagged@, k);
        let mut i: usize = 0;
        while i < self.tagged.len()
            invariant
                i <= self.tagged@.len(),
                sole_tagged(self.tagged@, holder),
                holder >= i,
            decreases self.tagged@.len() - i,
        {
            if self.tagged[i] {
                return i;
            }
            i = i + 1;
        }
        0
    }

    /// One tick: every agent walks, in ascending id order, with the turn `nudges[i]`;
    /// then the tagged agent looks around, the agents it sees flee and it chases the
    /// nearest of them; then the tag passes to the first agent in row-major order
    /// within `TAG_RADIUS` of it that did not just hand it on.
    /// Returns whether the tag changed hands.
    pub fn update_with(&mut self, world_grid: &mut WorldGrid, nudges: &Vec<Option<Nudge>>) -> (tagged_this_tick: bool)
        requires
            old(self).well_formed(old(world_grid)),
            nudges@.len() == old(self).count(),
        ensures
            final(self).well_formed(final(world_grid)),
            old(self).ticked(
                old(world_grid),
                final(self),
                final(world_grid),
                nudges@,
                tagged_this_tick,
            ),
    {
        self.walk(world_grid, nudges);
        let ghost walked = self.motion(world_grid);
        let n = self.pos.len();
        self.has_tagged_in_sight = vec![false; n];
        let t = self.tagged_index();
        let tagged_pos = self.pos[t];
        let closest = self.look_around(world_grid, t);
        if let Some(pos) = closest {
            proof {
                let k = choose|k: int| nearest(walked.pos, t as int, k) && walked.pos[k] == pos;
                assert(seen(walked.pos, t as int, k));
                lemma_view_box(tagged_pos, pos);
            }
            let mut chase_vec = calc_vector(tagged_pos, pos);
            chase_vec.clamp(-1 * MAX_VELOCITY, MAX_VELOCITY);
            self.vel.set(t, chase_vec);
        }
        match self.find_capture(world_grid, t) {
            Some(k) => {
                self.tagged.set(t, false);
                self.tagged.set(k, true);
                self.last_tagged = t as u32;
                proof {
                    assert(sole_tagged(self.tagged@, k as int));
                }
                true
            },
            None => false,
        }
    }

    /// One tick, with each agent turning at random: one chance in `TURN_ODDS`, and then
    /// each of the four turns equally likely. Returns whether the tag changed hands.
    pub fn update(&mut self, world_grid: &mut WorldGrid) -> (tagged_this_tick: bool)
        requires
            old(self).well_formed(old(world_grid)),
        ensures
            final(self).well_formed(final(world_grid)),
            exists|nudges: Seq<Option<Nudge>>|
                nudges.len() == old(self).count() && old(self).ticked(
                    old(world_grid),
                    final(self),
                    final(world_grid),
                    nudges,
                    tagged_this_tick,
                ),
    {
        let n = self.pos.len();
        let mut nudges: Vec<Option<Nudge>> = Vec::with_capacity(n);
        let mut i: usize = 0;
        while i < n
            invariant
                i <= n,
                nudges@.len() == i,
            decreases n - i,
        {
            let nudge = if random_below(TURN_ODDS) == 0 {
                match random_below(4) {
                    0 => Some(Nudge::Left),
                    1 => Some(Nudge::Right),
                    2 => Some(Nudge::Up),
                    _ => Some(Nudge::Down),
                }
            } else {
                None
            };
            nudges.push(nudge);
            i = i + 1;
        }
        self.update_with(world_grid, &nudges)
    }

    /// The tagged agent `t` looks around: every agent inside its circle of sight is marked
    /// as seen and turns to flee straight away from it. Returns the position of the nearest
    /// of them (the first in row-major order among equals), if any.
    fn look_around(&mut self, world_grid: &WorldGrid, t: usize) -> (closest: Option<Coord>)
        requires
            old(self).well_formed(world_grid),
            sole_tagged(old(self).tagged@, t as int),
            forall|j: int| 0 <= j < old(self).count() ==> !old(self).has_tagged_in_sight@[j],
        ensures
            final(self).well_formed(world_grid),
            final(self).pos@ == old(self).pos@,
            final(self).tagged@ == old(self).tagged@,
            final(self).last_tagged == old(self).last_tagged,
            sighted(old(self).pos@, t as int, final(self).has_tagged_in_sight@),
            final(self).vel@.len() == old(self).vel@.len(),
            forall|j: int|
                0 <= j < old(self).count() && j != t ==> final(self).vel@[j] == (if seen(
                    old(self).pos@,
                    t as int,
                    j,
                ) {
                    heading(old(self).pos@[t as int], old(self).pos@[j])
                } else {
                    old(self).vel@[j]
                }),
            final(self).vel@[t as int] == old(self).vel@[t as int],
            closest is None <==> !sees_any(old(self).pos@, t as int),
            closest matches Some(c) ==> exists|k: int|
                nearest(old(self).pos@, t as int, k) && old(self).pos@[k] == c,
    {
        let ghost pos = self.pos@;
        let ghost n = pos.len() as int;
        let ghost vel0 = self.vel@;
        let ghost w = world_grid.width as int;
        let ghost h = world_grid.height as int;
        let ghost ti = t as int;
        let tp = self.pos[t];
        let y_end = tp.y.saturating_add(AGENT_VIEW_DISTANCE + 1);
        let x_start = tp.x.saturating_sub(AGENT_VIEW_DISTANCE);
        let x_end = tp.x.saturating_add(AGENT_VIEW_DISTANCE + 1);
        let mut closest_dist: i64 = i64::MAX;
        let mut closest_pos: Option<Coord> = None;
        let ghost mut closest_id: int = 0;
        let mut y = tp.y.saturating_sub(AGENT_VIEW_DISTANCE);
        proof {
            assert forall|j: int| 0 <= j < n && seen(pos, ti, j) implies pos[j].y >= y by {
                lemma_view_box(tp, pos[j]);
            }
        }
        while y < y_end
            invariant
                tp == pos[ti],
                0 <= ti < n,
                ti == t,
                n == pos.len(),
                y_end == u32::MAX || y_end > tp.y + AGENT_VIEW_DISTANCE,
                y_end <= tp.y + AGENT_VIEW_DISTANCE + 1,
                x_start == 0 || x_start == tp.x - AGENT_VIEW_DISTANCE,
                x_start >= tp.x - AGENT_VIEW_DISTANCE,
                x_end == u32::MAX || x_end > tp.x + AGENT_VIEW_DISTANCE,
                x_end <= tp.x + AGENT_VIEW_DISTANCE + 1,
                tp.y - AGENT_VIEW_DISTANCE <= y <= y_end,
                self.well_formed(world_grid),
                world_grid.width == w,
                world_grid.height == h,
                self.pos == old(self).pos,
                self.pos@ == pos,
                self.tagged == old(self).tagged,
                self.last_tagged == old(self).last_tagged,
                vel0.len() == n,
                forall|j: int|
                    0 <= j < n ==> self.has_tagged_in_sight@[j] == (seen(pos, ti, j) && pos[j].y
                        < y),
                forall|j: int|
                    0 <= j < n && j != ti ==> self.vel@[j] == (if seen(pos, ti, j) && pos[j].y
                        < y {
                        heading(tp, pos[j])
                    } else {
                        vel0[j]
                    }),
                self.vel@[ti] == vel0[ti],
                closest_pos is None ==> closest_dist == i64::MAX,
                closest_pos is None ==> forall|j: int|
                    0 <= j < n ==> !(seen(pos, ti, j) && pos[j].y < y),
                closest_pos matches Some(c) ==> {
                    &&& 0 <= closest_id < n
                    &&& seen(pos, ti, closest_id)
                    &&& pos[closest_id].y < y
                    &&& pos[closest_id] == c
                    &&& closest_dist == sq_dist(tp, c)
                    &&& forall|j: int|
                        0 <= j < n && seen(pos, ti, j) && pos[j].y < y ==> nearer_or_first(
                            pos,
                            ti,
                            closest_id,
                            j,
                        )
                },
            decreases y_end - y,
        {
            let mut x = x_start;
            proof {
                assert forall|j: int| 0 <= j < n implies (seen(pos, ti, j) && scanned(
                    pos[j],
                    y as int,
                    x as int,
                )) == (seen(pos, ti, j) && pos[j].y < y) by {
                    if seen(pos, ti, j) {
                        lemma_view_box(tp, pos[j]);
                    }
                }
            }
            while x < x_end
                invariant
                    tp == pos[ti],
                    0 <= ti < n,
                    ti == t,
                ti == t,
                    n == pos.len(),
                    y_end == u32::MAX || y_end > tp.y + AGENT_VIEW_DISTANCE,
                    y_end <= tp.y + AGENT_VIEW_DISTANCE + 1,
                    x_end == u32::MAX || x_end > tp.x + AGENT_VIEW_DISTANCE,
                    x_end <= tp.x + AGENT_VIEW_DISTANCE + 1,
                    tp.y - AGENT_VIEW_DISTANCE <= y < y_end,
                    tp.x - AGENT_VIEW_DISTANCE <= x <= x_end,
                    self.well_formed(world_grid),
                    world_grid.width == w,
                    world_grid.height == h,
                    self.pos == old(self).pos,
                    self.pos@ == pos,
                    self.tagged == old(self).tagged,
                    self.last_tagged == old(self).last_tagged,
                    vel0.len() == n,
                    forall|j: int|
                        0 <= j < n ==> self.has_tagged_in_sight@[j] == (seen(pos, ti, j) && scanned(
                            pos[j],
                            y as int,
                            x as int,
                        )),
                    forall|j: int|
                        0 <= j < n && j != ti ==> self.vel@[j] == (if seen(pos, ti, j) && scanned(
                            pos[j],
                            y as int,
                            x as int,
                        ) {
                            heading(tp, pos[j])
                        } else {
                            vel0[j]
                        }),
                    self.vel@[ti] == vel0[ti],
                    closest_pos is None ==> closest_dist == i64::MAX,
                    closest_pos is None ==> forall|j: int|
                        0 <= j < n ==> !(seen(pos, ti, j) && scanned(pos[j], y as int, x as int)),
                    closest_pos matches Some(c) ==> {
                        &&& 0 <= closest_id < n
                        &&& seen(pos, ti, closest_id)
                        &&& scanned(pos[closest_id], y as int, x as int)
                        &&& pos[closest_id] == c
                        &&& closest_dist == sq_dist(tp, c)
                        &&& forall|j: int|
                            0 <= j < n && seen(pos, ti, j) && scanned(pos[j], y as int, x as int)
                                ==> nearer_or_first(pos, ti, closest_id, j)
                    },
                decreases x_end - x,
            {
                let ghost here = Coord { x, y };
                let ghost sight0 = self.has_tagged_in_sight@;
                let ghost vel1 = self.vel@;
                let ghost mut hit: int = -1;
                assert(forall|j: int|
                    0 <= j < n ==> sight0[j] == (seen(pos, ti, j) && scanned(
                        pos[j],
                        y as int,
                        x as int,
                    )));
                if x < world_grid.width && y < world_grid.height {
                    proof {
                        lemma_cell_index_bounds(here, w, h);
                    }
                    let dx: i64 = tp.x as i64 - x as i64;
                    let dy: i64 = tp.y as i64 - y as i64;
                    assert(0 <= dx * dx <= 64 && 0 <= dy * dy <= 64) by (nonlinear_arith)
                        requires
                            -8 <= dx <= 8,
                            -8 <= dy <= 8,
                    ;
                    let sq: i64 = dx * dx + dy * dy;
                    assert(sq == sq_dist(tp, here));
                    if sq < (AGENT_VIEW_DISTANCE * AGENT_VIEW_DISTANCE) as i64 {
                        let nearby_coord = Coord { x, y };
                        if let Some(agent_idx) = world_grid.get(nearby_coord) {
                            let nearby_idx = agent_idx as usize;
                            proof {
                                lemma_occupant(pos, world_grid.agents@, w, h, here, nearby_idx as int);
                            }
                            if nearby_idx != t {
                                if sq < closest_dist {
                                    closest_dist = sq;
                                    closest_pos = Some(nearby_coord);
                                    proof {
                                        closest_id = nearby_idx as int;
                                    }
                                }
                                self.has_tagged_in_sight.set(nearby_idx, true);
                                let mut run_away_vec = calc_vector(tp, nearby_coord);
                                run_away_vec.clamp(-1 * MAX_VELOCITY, MAX_VELOCITY);
                                self.vel.set(nearby_idx, run_away_vec);
                                proof {
                                    hit = nearby_idx as int;
                                }
                            }
                        }
                    }
                }
                proof {
                    assert forall|j: int| 0 <= j < n && pos[j] == here implies x < w && y < h
                        && world_grid.agents@[cell_index(here, w)] == Some(
                        j as u32,
                    ) by {
                        lemma_cell_index_bounds(here, w, h);
                    }
                    if hit >= 0 {
                        assert(0 <= hit < n && pos[hit] == here && seen(pos, ti, hit));
                        assert(self.has_tagged_in_sight@ == sight0.update(hit, true));
                        assert(self.vel@ == vel1.update(hit, heading(tp, here)));
                        assert forall|j: int| 0 <= j < n && pos[j] == here implies j == hit by {}
                    } else {
                        assert(self.has_tagged_in_sight@ == sight0);
                        assert(self.vel@ == vel1);
                        assert forall|j: int| 0 <= j < n && pos[j] == here implies !seen(pos, ti, j) by {}
                    }
                    assert forall|j: int| 0 <= j < n implies scanned(pos[j], y as int, x + 1) == (
                    scanned(pos[j], y as int, x as int) || pos[j] == here) by {}
                    assert forall|j: int| 0 <= j < n implies self.has_tagged_in_sight@[j] == (seen(
                        pos,
                        ti,
                        j,
                    ) && scanned(pos[j], y as int, x + 1)) by {
                        assert(sight0[j] == (seen(pos, ti, j) && scanned(pos[j], y as int, x as int)));
                        if pos[j] == here {
                            assert(!scanned(pos[j], y as int, x as int));
                        }
                    }
                    assert forall|j: int| 0 <= j < n && j != ti implies self.vel@[j] == (if seen(
                        pos,
                        ti,
                        j,
                    ) && scanned(pos[j], y as int, x + 1) {
                        heading(tp, pos[j])
                    } else {
                        vel0[j]
                    }) by {
                        assert(vel1[j] == (if seen(pos, ti, j) && scanned(pos[j], y as int, x as int) {
                            heading(tp, pos[j])
                        } else {
                            vel0[j]
                        }));
                        if pos[j] == here {
                            assert(!scanned(pos[j], y as int, x as int));
                        }
                    }
                }
                x = x + 1;
            }
            let ghost row = y as int;
            y = y + 1;
            proof {
                assert forall|j: int| 0 <= j < n implies (seen(pos, ti, j) && scanned(
                    pos[j],
                    row,
                    x as int,
                )) == (seen(pos, ti, j) && pos[j].y < y) by {
                    if seen(pos, ti, j) {
                        lemma_view_box(tp, pos[j]);
                    }
                }
                assert forall|j: int| 0 <= j < n implies self.has_tagged_in_sight@[j] == (seen(
                    pos,
                    ti,
                    j,
                ) && pos[j].y < y) by {
                    assert(self.has_tagged_in_sight@[j] == (seen(pos, ti, j) && scanned(pos[j], row, x as int)));
                }
                assert forall|j: int| 0 <= j < n && j != ti implies self.vel@[j] == (if seen(
                    pos,
                    ti,
                    j,
                ) && pos[j].y < y {
                    heading(tp, pos[j])
                } else {
                    vel0[j]
                }) by {
                    assert(self.vel@[j] == (if seen(pos, ti, j) && scanned(pos[j], row, x as int) {
                        heading(tp, pos[j])
                    } else {
                        vel0[j]
                    }));
                }
            }
        }
        proof {
            assert forall|j: int| 0 <= j < n && seen(pos, ti, j) implies pos[j].y < y by {
                lemma_view_box(tp, pos[j]);
            }
            if closest_pos is Some {
                assert(nearest(pos, ti, closest_id));
            }
        }
        closest_pos
    }

    /// The agent that takes the tag from `t`: the first occupant, in row-major order, of the
    /// square of half-width `TAG_RADIUS` around `t` that is neither `t` nor `last_tagged`.
    fn find_capture(&self, world_grid: &WorldGrid, t: usize) -> (r: Option<usize>)
        requires
            self.well_formed(world_grid),
            sole_tagged(self.tagged@, t as int),
        ensures
            r is None <==> !any_catchable(self.pos@, t as int, self.last_tagged as int),
            r matches Some(k) ==> first_catch(self.pos@, t as int, self.last_tagged as int, k as int),
    {
        let ghost pos = self.pos@;
        let ghost n = pos.len() as int;
        let ghost w = world_grid.width as int;
        let ghost h = world_grid.height as int;
        let ghost ti = t as int;
        let ghost last = self.last_tagged as int;
        let tp = self.pos[t];
        let y_end = tp.y.saturating_add(TAG_RADIUS + 1);
        let x_start = tp.x.saturating_sub(TAG_RADIUS);
        let x_end = tp.x.saturating_add(TAG_RADIUS + 1);
        let mut y = tp.y.saturating_sub(TAG_RADIUS);
        while y < y_end
            invariant
                tp == pos[ti],
                0 <= ti < n,
                ti == t,
                n == pos.len(),
                last == self.last_tagged,
                y_end == u32::MAX || y_end > tp.y + TAG_RADIUS,
                y_end <= tp.y + TAG_RADIUS + 1,
                x_start == 0 || x_start == tp.x - TAG_RADIUS,
                x_start >= tp.x - TAG_RADIUS,
                x_end == u32::MAX || x_end > tp.x + TAG_RADIUS,
                x_end <= tp.x + TAG_RADIUS + 1,
                tp.y - TAG_RADIUS <= y <= y_end,
                self.well_formed(world_grid),
                world_grid.width == w,
                world_grid.height == h,
                self.pos@ == pos,
                forall|j: int| 0 <= j < n && catchable(pos, ti, last, j) ==> pos[j].y >= y,
            decreases y_end - y,
        {
            let mut x = x_start;
            while x < x_end
                invariant
                    tp == pos[ti],
                    0 <= ti < n,
                    ti == t,
                    n == pos.len(),
                    last == self.last_tagged,
                    y_end == u32::MAX || y_end > tp.y + TAG_RADIUS,
                    y_end <= tp.y + TAG_RADIUS + 1,
                    x_end == u32::MAX || x_end > tp.x + TAG_RADIUS,
                    x_end <= tp.x + TAG_RADIUS + 1,
                    tp.y - TAG_RADIUS <= y < y_end,
                    tp.x - TAG_RADIUS <= x <= x_end,
                    self.well_formed(world_grid),
                    world_grid.width == w,
                    world_grid.height == h,
                    self.pos@ == pos,
                    forall|j: int|
                        0 <= j < n && catchable(pos, ti, last, j) ==> !scanned(
                            pos[j],
                            y as int,
                            x as int,
                        ),
                decreases x_end - x,
            {
                let ghost here = Coord { x, y };
                if x < world_grid.width && y < world_grid.height {
                    proof {
                        lemma_cell_index_bounds(here, w, h);
                    }
                    if let Some(agent_idx) = world_grid.get(Coord { x, y }) {
                        proof {
                            lemma_occupant(pos, world_grid.agents@, w, h, here, agent_idx as int);
                        }
                        // Neither the tagged agent itself nor the one that just handed the tag on
                        if agent_idx as usize != t && agent_idx != self.last_tagged {
                            proof {
                                assert forall|j: int|
                                    0 <= j < n && catchable(pos, ti, last, j) implies row_major_le(
                                    pos[agent_idx as int],
                                    pos[j],
                                ) by {
                                    assert(!scanned(pos[j], y as int, x as int));
                                }
                                assert(catchable(pos, ti, last, agent_idx as int));
                            }
                            return Some(agent_idx as usize);
                        }
                    }
                }
                proof {
                    assert forall|j: int| 0 <= j < n && pos[j] == here implies x < w && y < h
                        && world_grid.agents@[cell_index(here, w)] == Some(
                        j as u32,
                    ) by {
                        lemma_cell_index_bounds(here, w, h);
                    }
                    assert forall|j: int|
                        0 <= j < n && catchable(pos, ti, last, j) implies !scanned(
                        pos[j],
                        y as int,
                        x + 1,
                    ) by {
                        assert(!scanned(pos[j], y as int, x as int));
                    }
                }
                x = x + 1;
            }
            let ghost row = y as int;
            y = y + 1;
            proof {
                assert forall|j: int| 0 <= j < n && catchable(pos, ti, last, j) implies pos[j].y >= y by {
                    assert(!scanned(pos[j], row, x as int));
                }
            }
        }
        None
    }

    /// Every agent, in ascending id order, takes its walk with the turn `nudges[i]`;
    /// each sees the moves of the agents before it.
    fn walk(&mut self, world_grid: &mut WorldGrid, nudges: &Vec<Option<Nudge>>)
        requires
            old(self).well_formed(old(world_grid)),
            nudges@.len() == old(self).count(),
        ensures
            final(self).motion(final(world_grid)) == walk_upto(
                old(self).motion(old(world_grid)),
                old(world_grid).width as int,
                old(world_grid).height as int,
                nudges@,
                old(self).count(),
            ),
            final(self).well_formed(final(world_grid)),
            final(world_grid).width == old(world_grid).width,
            final(world_grid).height == old(world_grid).height,
            final(self).tagged == old(self).tagged,
            final(self).has_tagged_in_sight == old(self).has_tagged_in_sight,
            final(self).last_tagged == old(self).last_tagged,
    {
        let ghost m0 = self.motion(world_grid);
        let ghost w = world_grid.width as int;
        let ghost h = world_grid.height as int;
        let n = self.pos.len();
        let mut i: usize = 0;
        while i < n
            invariant
                0 <= i <= n,
                n == self.count(),
                nudges@.len() == n,
                self.well_formed(world_grid),
                world_grid.width == w,
                world_grid.height == h,
                self.motion(world_grid) == walk_upto(m0, w, h, nudges@, i as nat),
                self.tagged == old(self).tagged,
                self.has_tagged_in_sight == old(self).has_tagged_in_sight,
                self.last_tagged == old(self).last_tagged,
            decreases n - i,
        {
            let ghost before = self.motion(world_grid);
            proof {
                lemma_walk_step(before, w, h, i as int, nudges@[i as int]);
            }
            self.walk_agent(world_grid, i, nudges[i]);
            i = i + 1;
        }
    }
}

/// An agent whose target cell is taken when its turn to walk comes ends the tick where
/// it started.
pub proof fn lemma_tick_blocked_agent_stays(
    agents: Agents,
    grid: WorldGrid,
    next: Agents,
    next_grid: WorldGrid,
    nudges: Seq<Option<Nudge>>,
    passed: bool,
    i: int,
)
    requires
        agents.well_formed(&grid),
        nudges.len() == agents.count(),
        agents.ticked(&grid, &next, &next_grid, nudges, passed),
        0 <= i < agents.count(),
        ({
            let before = walk_upto(
                agents.motion(&grid),
                grid.width as int,
                grid.height as int,
                nudges,
                i as nat,
            );
            before.cells[cell_index(
                walk_target(before, grid.width as int, grid.height as int, i, nudges[i]),
                grid.width as int,
            )] is Some
        }),
    ensures
        next.pos@[i] == agents.pos@[i],
{
    lemma_blocked_agent_stays(agents.motion(&grid), grid.width as int, grid.height as int, nudges, i);
}

/// An agent on the left wall moving left, that does not turn right, ends the tick on the
/// left wall moving right, unless the tagged agent's sight turns it: unless it is seen,
/// or it holds the tag and sees someone.
pub proof fn lemma_tick_left_wall_bounce(
    agents: Agents,
    grid: WorldGrid,
    next: Agents,
    next_grid: WorldGrid,
    nudges: Seq<Option<Nudge>>,
    passed: bool,
    i: int,
)
    requires
        agents.well_formed(&grid),
        nudges.len() == agents.count(),
        agents.ticked(&grid, &next, &next_grid, nudges, passed),
        0 <= i < agents.count(),
        agents.pos@[i].x == 0,
        agents.vel@[i].x == -1,
        nudges[i] != Some(Nudge::Right),
        !next.has_tagged_in_sight@[i],
        agents.tagged@[i] ==> forall|j: int| 0 <= j < agents.count() ==> !next.has_tagged_in_sight@[j],
    ensures
        next.pos@[i].x == 0,
        next.vel@[i].x == 1,
{
    let m = agents.motion(&grid);
    let w = grid.width as int;
    let h = grid.height as int;
    let walked = walk_upto(m, w, h, nudges, agents.count());
    lemma_left_wall_bounce(m, w, h, nudges, i);
    lemma_walk_upto_len(m, w, h, nudges, agents.count());
    let t = choose|t: int| sole_tagged(agents.tagged@, t);
    assert(sole_tagged(agents.tagged@, t));
    assert(sighted(walked.pos, t, next.has_tagged_in_sight@));
    assert(!seen(walked.pos, t, i));
    if i == t {
        if sees_any(walked.pos, t) {
            let j = choose|j: int| 0 <= j < walked.pos.len() && seen(walked.pos, t, j);
            assert(next.has_tagged_in_sight@[j]);
        }
    } else {
        assert(steered(walked.pos, t, walked.vel, next.vel@));
    }
}

} // verus!
