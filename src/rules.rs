use vstd::prelude::*;
use vstd::relations::injective_on;
use vstd::set_lib::{lemma_int_range, lemma_map_size, lemma_subset_equality, set_int_range};

use crate::agents::{Coord, Vec2, AGENT_VIEW_DISTANCE, TAG_RADIUS, clamp_int, heading, within_speed};
use crate::world_grid::{cell_index, lemma_cell_index_bounds, lemma_cell_index_injective};

verus! {

/// A random turn of an agent: one axis changes by one step.
#[derive(Debug, Copy, Clone, PartialEq, Eq, Structural)]
pub enum Nudge {
    /// One step less along x.
    Left,
    /// One step more along x.
    Right,
    /// One step less along y.
    Up,
    /// One step more along y.
    Down,
}

/// Velocity `v` after the turn `n`, if any, with both components clamped to one step.
pub open spec fn nudged(v: Vec2, n: Option<Nudge>) -> Vec2 {
    match n {
        None => v,
        Some(d) => {
            let dx: int = match d {
                Nudge::Left => -1,
                Nudge::Right => 1,
                _ => 0,
            };
            let dy: int = match d {
                Nudge::Up => -1,
                Nudge::Down => 1,
                _ => 0,
            };
            Vec2 { x: clamp_int(v.x + dx, -1, 1) as i32, y: clamp_int(v.y + dy, -1, 1) as i32 }
        },
    }
}

/// Whether a step of `v` from `p` leaves `[0, bound)`.
pub open spec fn bounces(p: int, v: int, bound: int) -> bool {
    p + v >= bound || p + v < 0
}

/// Where a step of `v` from `p` ends along one axis, held inside `[0, bound)`.
pub open spec fn reflected_pos(p: int, v: int, bound: int) -> int {
    if p + v >= bound {
        bound - 1
    } else if p + v < 0 {
        0
    } else {
        p + v
    }
}

/// The speed along one axis after a step of `v` from `p`: reversed where the step hits a wall.
pub open spec fn reflected_vel(p: int, v: int, bound: int) -> int {
    if bounces(p, v, bound) {
        -v
    } else {
        v
    }
}

/// Positions, velocities and grid slots: the part of the state that the walk changes.
pub struct Motion {
    pub pos: Seq<Coord>,
    pub vel: Seq<Vec2>,
    pub cells: Seq<Option<u32>>,
}

/// The velocity of agent `i` after its turn and any bounce, in a `w` by `h` grid.
pub open spec fn walk_vel(m: Motion, w: int, h: int, i: int, n: Option<Nudge>) -> Vec2 {
    let v = nudged(m.vel[i], n);
    let p = m.pos[i];
    Vec2 { x: reflected_vel(p.x as int, v.x as int, w) as i32, y: reflected_vel(p.y as int, v.y as int, h) as i32 }
}

/// The cell that agent `i` tries to enter, in a `w` by `h` grid.
pub open spec fn walk_target(m: Motion, w: int, h: int, i: int, n: Option<Nudge>) -> Coord {
    let v = nudged(m.vel[i], n);
    let p = m.pos[i];
    Coord { x: reflected_pos(p.x as int, v.x as int, w) as u32, y: reflected_pos(p.y as int, v.y as int, h) as u32 }
}

/// The walk of agent `i`: it turns, bounces off the walls, and moves when its target cell is free.
pub open spec fn walk_step(m: Motion, w: int, h: int, i: int, n: Option<Nudge>) -> Motion {
    let dest = walk_target(m, w, h, i, n);
    let vel = m.vel.update(i, walk_vel(m, w, h, i, n));
    if m.cells[cell_index(dest, w)] is None {
        Motion {
            pos: m.pos.update(i, dest),
            vel,
            cells: m.cells.update(cell_index(m.pos[i], w), None).update(cell_index(dest, w), Some(i as u32)),
        }
    } else {
        Motion { pos: m.pos, vel, cells: m.cells }
    }
}

/// The walk of agents `0..k`, one after the other, each seeing the moves made before it.
pub open spec fn walk_upto(m: Motion, w: int, h: int, nudges: Seq<Option<Nudge>>, k: nat) -> Motion
    decreases k,
{
    if k == 0 {
        m
    } else {
        let prev = walk_upto(m, w, h, nudges, (k - 1) as nat);
        walk_step(prev, w, h, k - 1, nudges[k - 1])
    }
}

/// Positions and grid slots agree: each agent sits in its cell, and each occupied cell names its agent.
pub open spec fn consistent(pos: Seq<Coord>, cells: Seq<Option<u32>>, w: int, h: int) -> bool {
    &&& cells.len() == w * h
    &&& pos.len() <= u32::MAX
    &&& forall|j: int|
        0 <= j < pos.len() ==> {
            &&& (#[trigger] pos[j]).x < w
            &&& pos[j].y < h
            &&& cells[cell_index(pos[j], w)] == Some(j as u32)
        }
    &&& forall|c: int|
        0 <= c < cells.len() && (#[trigger] cells[c]) is Some ==> {
            &&& cells[c]->0 < pos.len()
            &&& cell_index(pos[cells[c]->0 as int], w) == c
        }
}

/// Agent `t` is the only one holding the tag.
pub open spec fn sole_tagged(tagged: Seq<bool>, t: int) -> bool {
    &&& 0 <= t < tagged.len()
    &&& tagged[t]
    &&& forall|j: int| 0 <= j < tagged.len() && j != t ==> !(#[trigger] tagged[j])
}

/// Exactly one agent holds the tag.
pub open spec fn one_tagged(tagged: Seq<bool>) -> bool {
    exists|t: int| sole_tagged(tagged, t)
}

/// Squared Euclidean distance between two cells.
pub open spec fn sq_dist(a: Coord, b: Coord) -> int {
    (a.x - b.x) * (a.x - b.x) + (a.y - b.y) * (a.y - b.y)
}

/// Whether `p` lies inside the circle of sight around `centre`.
pub open spec fn in_view(centre: Coord, p: Coord) -> bool {
    sq_dist(centre, p) < AGENT_VIEW_DISTANCE * AGENT_VIEW_DISTANCE
}

/// Whether agent `j` is seen by the tagged agent `t`.
pub open spec fn seen(pos: Seq<Coord>, t: int, j: int) -> bool {
    j != t && in_view(pos[t], pos[j])
}

/// Whether `a` comes no later than `b` in row-major order (by row, then by column).
pub open spec fn row_major_le(a: Coord, b: Coord) -> bool {
    a.y < b.y || (a.y == b.y && a.x <= b.x)
}

/// Agent `k` is at least as near to `t` as agent `j`, and first in row-major order on a tie.
pub open spec fn nearer_or_first(pos: Seq<Coord>, t: int, k: int, j: int) -> bool {
    sq_dist(pos[t], pos[k]) < sq_dist(pos[t], pos[j]) || (sq_dist(pos[t], pos[k]) == sq_dist(
        pos[t],
        pos[j],
    ) && row_major_le(pos[k], pos[j]))
}

/// Agent `k` is the one the tagged agent `t` chases: the nearest it sees, first in row-major order on a tie.
pub open spec fn nearest(pos: Seq<Coord>, t: int, k: int) -> bool {
    &&& 0 <= k < pos.len()
    &&& seen(pos, t, k)
    &&& forall|j: int| 0 <= j < pos.len() && seen(pos, t, j) ==> nearer_or_first(pos, t, k, j)
}

/// Whether the tagged agent `t` sees anyone.
pub open spec fn sees_any(pos: Seq<Coord>, t: int) -> bool {
    exists|j: int| 0 <= j < pos.len() && seen(pos, t, j)
}

/// Whether `p` lies in the square around `centre` inside which the tag can pass.
pub open spec fn in_reach(centre: Coord, p: Coord) -> bool {
    &&& centre.x - TAG_RADIUS <= p.x <= centre.x + TAG_RADIUS
    &&& centre.y - TAG_RADIUS <= p.y <= centre.y + TAG_RADIUS
}

/// Whether agent `j` can take the tag from `t`: near enough, and not the agent that last handed it on.
pub open spec fn catchable(pos: Seq<Coord>, t: int, last: int, j: int) -> bool {
    &&& j != t
    &&& j != last
    &&& in_reach(pos[t], pos[j])
}

/// Whether some agent can take the tag from `t`.
pub open spec fn any_catchable(pos: Seq<Coord>, t: int, last: int) -> bool {
    exists|j: int| 0 <= j < pos.len() && catchable(pos, t, last, j)
}

/// Agent `k` is the one that takes the tag: the first that can, in row-major order.
pub open spec fn first_catch(pos: Seq<Coord>, t: int, last: int, k: int) -> bool {
    &&& 0 <= k < pos.len()
    &&& catchable(pos, t, last, k)
    &&& forall|j: int|
        0 <= j < pos.len() && catchable(pos, t, last, j) ==> row_major_le(pos[k], pos[j])
}

/// Whether cell `p` comes before cell `(x, y)` in row-major order.
pub open spec fn scanned(p: Coord, y: int, x: int) -> bool {
    p.y < y || (p.y == y && p.x < x)
}

/// `sight` marks exactly the agents that the tagged agent `t` sees.
pub open spec fn sighted(pos: Seq<Coord>, t: int, sight: Seq<bool>) -> bool {
    &&& sight.len() == pos.len()
    &&& forall|j: int| 0 <= j < pos.len() ==> sight[j] == seen(pos, t, j)
}

/// The velocities `after` follow from `before` once the tagged agent `t` has looked around:
/// each agent it sees heads straight away from it, and it heads for the nearest of them;
/// every other velocity stays.
pub open spec fn steered(pos: Seq<Coord>, t: int, before: Seq<Vec2>, after: Seq<Vec2>) -> bool {
    &&& after.len() == before.len()
    &&& forall|j: int|
        0 <= j < before.len() && j != t ==> after[j] == (if seen(pos, t, j) {
            heading(pos[t], pos[j])
        } else {
            before[j]
        })
    &&& !sees_any(pos, t) ==> after[t] == before[t]
    &&& sees_any(pos, t) ==> exists|k: int| nearest(pos, t, k) && after[t] == heading(pos[t], pos[k])
}

/// The tag flags `after`, the cooldown `last_after` and the report `passed` follow from
/// `before` and `last` once the tagged agent `t` has tried to hand the tag on: the first
/// agent in row-major order that can take it does so, and `t` becomes the cooldown;
/// when no agent can, nothing changes.
pub open spec fn tag_passed(
    pos: Seq<Coord>,
    t: int,
    last: u32,
    before: Seq<bool>,
    after: Seq<bool>,
    last_after: u32,
    passed: bool,
) -> bool {
    if any_catchable(pos, t, last as int) {
        &&& passed
        &&& last_after == t
        &&& exists|k: int|
            first_catch(pos, t, last as int, k) && after == before.update(t, false).update(k, true)
    } else {
        &&& !passed
        &&& last_after == last
        &&& after == before
    }
}

/// A cell in view of `c` lies less than the view distance from it along each axis.
pub proof fn lemma_view_box(c: Coord, p: Coord)
    requires
        in_view(c, p),
    ensures
        c.x - AGENT_VIEW_DISTANCE < p.x < c.x + AGENT_VIEW_DISTANCE,
        c.y - AGENT_VIEW_DISTANCE < p.y < c.y + AGENT_VIEW_DISTANCE,
{
    let dx = c.x - p.x;
    let dy = c.y - p.y;
    assert(-8 < dx < 8 && -8 < dy < 8) by (nonlinear_arith)
        requires
            dx * dx + dy * dy < 64,
    {
        assert(dx * dx >= 0);
        assert(dy * dy >= 0);
        if dx >= 8 || dx <= -8 {
            assert(dx * dx >= 64);
        }
        if dy >= 8 || dy <= -8 {
            assert(dy * dy >= 64);
        }
    }
}

/// In consistent state, agent `j` is at cell `c` exactly when the grid names `j` there.
pub proof fn lemma_occupant(pos: Seq<Coord>, cells: Seq<Option<u32>>, w: int, h: int, c: Coord, j: int)
    requires
        consistent(pos, cells, w, h),
        c.x < w,
        c.y < h,
        0 <= j < pos.len(),
    ensures
        pos[j] == c <==> cells[cell_index(c, w)] == Some(j as u32),
{
    lemma_cell_index_bounds(c, w, h);
    if cells[cell_index(c, w)] == Some(j as u32) {
        let k = cells[cell_index(c, w)]->0 as int;
        assert(k == j);
        lemma_cell_index_injective(pos[j], c, w);
    }
}

/// A turn keeps the speed within one step per axis.
pub proof fn lemma_nudged_speed(v: Vec2, n: Option<Nudge>)
    requires
        within_speed(v),
    ensures
        within_speed(nudged(v, n)),
{
}

/// One agent's walk keeps the grid consistent with the positions, and its speed within bounds.
pub proof fn lemma_walk_step(m: Motion, w: int, h: int, i: int, n: Option<Nudge>)
    requires
        consistent(m.pos, m.cells, w, h),
        m.vel.len() == m.pos.len(),
        0 <= i < m.pos.len(),
        within_speed(m.vel[i]),
    ensures
        ({
            let r = walk_step(m, w, h, i, n);
            &&& consistent(r.pos, r.cells, w, h)
            &&& r.pos.len() == m.pos.len()
            &&& r.vel.len() == m.vel.len()
            &&& within_speed(r.vel[i])
            &&& forall|j: int| 0 <= j < m.vel.len() && j != i ==> r.vel[j] == m.vel[j]
        }),
{
    lemma_nudged_speed(m.vel[i], n);
    let r = walk_step(m, w, h, i, n);
    let p = m.pos[i];
    let dest = walk_target(m, w, h, i, n);
    lemma_cell_index_bounds(p, w, h);
    lemma_cell_index_bounds(dest, w, h);
    if m.cells[cell_index(dest, w)] is None {
        let ip = cell_index(p, w);
        let id = cell_index(dest, w);
        assert(ip != id);
        assert forall|j: int| 0 <= j < r.pos.len() implies {
            &&& (#[trigger] r.pos[j]).x < w
            &&& r.pos[j].y < h
            &&& r.cells[cell_index(r.pos[j], w)] == Some(j as u32)
        } by {
            if j != i {
                lemma_cell_index_bounds(m.pos[j], w, h);
                assert(m.cells[cell_index(m.pos[j], w)] == Some(j as u32));
                assert(cell_index(m.pos[j], w) != ip);
                assert(cell_index(m.pos[j], w) != id);
            }
        }
        assert forall|c: int| 0 <= c < r.cells.len() && (#[trigger] r.cells[c]) is Some implies {
            &&& r.cells[c]->0 < r.pos.len()
            &&& cell_index(r.pos[r.cells[c]->0 as int], w) == c
        } by {
            if c != id && c != ip {
                assert(m.cells[c] is Some);
                let k = m.cells[c]->0 as int;
                assert(k != i);
            }
        }
    }
}

/// The walks of agents `0..k` keep the lengths of the position and velocity sequences.
pub proof fn lemma_walk_upto_len(m: Motion, w: int, h: int, nudges: Seq<Option<Nudge>>, k: nat)
    requires
        m.vel.len() == m.pos.len(),
        k <= m.pos.len(),
    ensures
        walk_upto(m, w, h, nudges, k).pos.len() == m.pos.len(),
        walk_upto(m, w, h, nudges, k).vel.len() == m.pos.len(),
    decreases k,
{
    if k > 0 {
        lemma_walk_upto_len(m, w, h, nudges, (k - 1) as nat);
    }
}

/// The walks of agents other than `i` leave the position and velocity of `i` alone:
/// after the walks of agents `0..k`, agent `i` is where its own walk left it
/// (or where it started, when `k <= i`).
pub proof fn lemma_walk_upto_others(
    m: Motion,
    w: int,
    h: int,
    nudges: Seq<Option<Nudge>>,
    k: nat,
    i: int,
)
    requires
        m.vel.len() == m.pos.len(),
        k <= m.pos.len(),
        0 <= i < m.pos.len(),
    ensures
        ({
            let r = walk_upto(m, w, h, nudges, k);
            let own = if k <= i {
                m
            } else {
                walk_upto(m, w, h, nudges, (i + 1) as nat)
            };
            r.pos[i] == own.pos[i] && r.vel[i] == own.vel[i]
        }),
    decreases k,
{
    if k > 0 {
        lemma_walk_upto_others(m, w, h, nudges, (k - 1) as nat, i);
        lemma_walk_upto_len(m, w, h, nudges, (k - 1) as nat);
    }
}

/// An agent whose target cell is taken when its turn to walk comes does not move that
/// tick: after the walks of all agents, it is still where it started.
pub proof fn lemma_blocked_agent_stays(
    m: Motion,
    w: int,
    h: int,
    nudges: Seq<Option<Nudge>>,
    i: int,
)
    requires
        m.vel.len() == m.pos.len(),
        0 <= i < m.pos.len(),
        ({
            let before = walk_upto(m, w, h, nudges, i as nat);
            before.cells[cell_index(walk_target(before, w, h, i, nudges[i]), w)] is Some
        }),
    ensures
        walk_upto(m, w, h, nudges, m.pos.len()).pos[i] == m.pos[i],
{
    lemma_walk_upto_others(m, w, h, nudges, m.pos.len(), i);
    lemma_walk_upto_others(m, w, h, nudges, i as nat, i);
    lemma_walk_upto_len(m, w, h, nudges, i as nat);
}

/// An agent on the left wall moving left, that does not turn right, bounces: after the
/// walks of all agents it is still on the left wall and moves right.
pub proof fn lemma_left_wall_bounce(
    m: Motion,
    w: int,
    h: int,
    nudges: Seq<Option<Nudge>>,
    i: int,
)
    requires
        consistent(m.pos, m.cells, w, h),
        m.vel.len() == m.pos.len(),
        0 <= i < m.pos.len(),
        m.pos[i].x == 0,
        m.vel[i].x == -1,
        within_speed(m.vel[i]),
        nudges[i] != Some(Nudge::Right),
    ensures
        walk_upto(m, w, h, nudges, m.pos.len()).pos[i].x == 0,
        walk_upto(m, w, h, nudges, m.pos.len()).vel[i].x == 1,
{
    lemma_walk_upto_others(m, w, h, nudges, m.pos.len(), i);
    lemma_walk_upto_others(m, w, h, nudges, i as nat, i);
    lemma_walk_upto_len(m, w, h, nudges, i as nat);
}

/// On a grid with every cell taken, nobody can move: the walks of agents `0..k` leave
/// every position and every grid slot as it was.
pub proof fn lemma_full_grid_frozen(m: Motion, w: int, h: int, nudges: Seq<Option<Nudge>>, k: nat)
    requires
        consistent(m.pos, m.cells, w, h),
        m.vel.len() == m.pos.len(),
        k <= m.pos.len(),
        forall|c: int| 0 <= c < m.cells.len() ==> (#[trigger] m.cells[c]) is Some,
        forall|j: int| 0 <= j < m.vel.len() ==> within_speed(#[trigger] m.vel[j]),
    ensures
        walk_upto(m, w, h, nudges, k).pos == m.pos,
        walk_upto(m, w, h, nudges, k).cells == m.cells,
    decreases k,
{
    if k > 0 {
        lemma_full_grid_frozen(m, w, h, nudges, (k - 1) as nat);
        let prev = walk_upto(m, w, h, nudges, (k - 1) as nat);
        let i = k - 1;
        lemma_walk_upto_others(m, w, h, nudges, (k - 1) as nat, i);
        lemma_walk_upto_len(m, w, h, nudges, (k - 1) as nat);
        lemma_nudged_speed(prev.vel[i], nudges[i]);
        lemma_cell_index_bounds(walk_target(prev, w, h, i, nudges[i]), w, h);
    }
}

/// When there are as many agents as cells, every cell is taken.
pub proof fn lemma_crowded_grid_is_full(pos: Seq<Coord>, cells: Seq<Option<u32>>, w: int, h: int)
    requires
        consistent(pos, cells, w, h),
        pos.len() == w * h,
    ensures
        forall|c: int| 0 <= c < cells.len() ==> (#[trigger] cells[c]) is Some,
{
    let n = pos.len() as int;
    let agents = set_int_range(0, n);
    let slot = |j: int| cell_index(pos[j], w);
    let taken = agents.map(slot);
    let all = set_int_range(0, cells.len() as int);
    lemma_int_range(0, n);
    lemma_int_range(0, cells.len() as int);
    assert(injective_on(slot, agents)) by {
        assert forall|a: int, b: int|
            agents.contains(a) && agents.contains(b) && #[trigger] slot(a) == #[trigger] slot(b)
            implies a == b by {
            lemma_cell_index_injective(pos[a], pos[b], w);
        }
    }
    lemma_map_size(agents, taken, slot);
    assert(taken.subset_of(all)) by {
        assert forall|c: int| taken.contains(c) implies all.contains(c) by {
            let j = choose|j: int| agents.contains(j) && slot(j) == c;
            lemma_cell_index_bounds(pos[j], w, h);
        }
    }
    lemma_subset_equality(taken, all);
    assert forall|c: int| 0 <= c < cells.len() implies (#[trigger] cells[c]) is Some by {
        assert(all.contains(c));
        assert(taken.contains(c));
        let j = choose|j: int| agents.contains(j) && slot(j) == c;
        assert(cells[cell_index(pos[j], w)] == Some(j as u32));
    }
}

} // verus!
