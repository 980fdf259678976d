use rust_tag::agents::{Agents, Coord, Vec2};
use rust_tag::rules::Nudge;
use rust_tag::world_grid::WorldGrid;

fn c(x: u32, y: u32) -> Coord {
    Coord { x, y }
}

fn v(x: i32, y: i32) -> Vec2 {
    Vec2 { x, y }
}

/// Places agents at `cells` with `vels` on an empty `width` by `height` grid.
fn place(width: u32, height: u32, cells: &[Coord], vels: &[Vec2]) -> (WorldGrid, Agents) {
    let mut grid = WorldGrid::new(width, height);
    let agents = Agents::with_positions(&mut grid, &cells.to_vec(), vels.to_vec());
    (grid, agents)
}

fn still(n: usize) -> Vec<Option<Nudge>> {
    vec![None; n]
}

fn tagged_ids(agents: &Agents) -> Vec<usize> {
    (0..agents.tagged.len()).filter(|&i| agents.tagged[i]).collect()
}

/// Every agent sits in its cell, and every occupied cell names an agent that sits there.
fn assert_consistent(grid: &WorldGrid, agents: &Agents) {
    let mut occupied = 0;
    for (i, p) in agents.pos.iter().enumerate() {
        assert!(p.x < grid.width && p.y < grid.height);
        assert_eq!(grid.get(*p), Some(i as u32));
    }
    for y in 0..grid.height {
        for x in 0..grid.width {
            if let Some(id) = grid.get(c(x, y)) {
                occupied += 1;
                let p = agents.pos[id as usize];
                assert_eq!((p.x, p.y), (x, y));
            }
        }
    }
    assert_eq!(occupied, agents.pos.len());
}

#[test]
fn placement_records_every_agent_in_the_grid() {
    let (grid, agents) = place(4, 3, &[c(0, 0), c(3, 2), c(1, 1)], &[v(0, 0), v(1, -1), v(-1, 1)]);
    assert_consistent(&grid, &agents);
    assert_eq!(agents.tagged, vec![true, false, false]);
    assert_eq!(agents.has_tagged_in_sight, vec![false, false, false]);
    assert_eq!(agents.last_tagged, 0);
    assert_eq!(agents.vel[1], v(1, -1));
    assert_eq!(grid.get(c(2, 2)), None);
}

#[test]
fn tag_passes_to_the_only_agent_in_reach() {
    let (mut grid, mut agents) = place(10, 10, &[c(9, 0), c(2, 2), c(3, 3)], &[v(0, 0); 3]);
    agents.tagged = vec![false, true, false];
    agents.last_tagged = 0;
    let passed = agents.update_with(&mut grid, &still(3));
    assert!(passed);
    assert_eq!(agents.tagged, vec![false, false, true]);
    assert_eq!(agents.last_tagged, 1);
    assert_eq!(tagged_ids(&agents).len(), 1);
}

#[test]
fn tag_goes_to_the_first_candidate_by_row() {
    let (mut grid, mut agents) =
        place(12, 12, &[c(5, 5), c(4, 6), c(6, 4)], &[v(0, 0); 3]);
    let passed = agents.update_with(&mut grid, &still(3));
    assert!(passed);
    // (6, 4) lies on an earlier row than (4, 6), whatever the ids.
    assert_eq!(agents.tagged, vec![false, false, true]);
    assert_eq!(agents.last_tagged, 0);
}

#[test]
fn tag_goes_to_the_first_candidate_by_column_within_a_row() {
    let (mut grid, mut agents) =
        place(12, 12, &[c(5, 5), c(7, 5), c(3, 5)], &[v(0, 0); 3]);
    let passed = agents.update_with(&mut grid, &still(3));
    assert!(passed);
    assert_eq!(agents.tagged, vec![false, false, true]);
}

#[test]
fn cooldown_agent_cannot_take_the_tag_back() {
    let (mut grid, mut agents) =
        place(12, 12, &[c(5, 4), c(5, 5), c(6, 6)], &[v(0, 0); 3]);
    agents.tagged = vec![false, true, false];
    agents.last_tagged = 0;
    let passed = agents.update_with(&mut grid, &still(3));
    assert!(passed);
    // Agent 0 comes first in row order but just handed the tag on.
    assert_eq!(agents.tagged, vec![false, false, true]);
    assert_eq!(agents.last_tagged, 1);
}

#[test]
fn only_the_cooldown_agent_in_reach_keeps_the_tag_where_it_is() {
    let (mut grid, mut agents) = place(12, 12, &[c(5, 4), c(5, 5)], &[v(0, 0); 2]);
    agents.tagged = vec![false, true];
    agents.last_tagged = 0;
    let passed = agents.update_with(&mut grid, &still(2));
    assert!(!passed);
    assert_eq!(agents.tagged, vec![false, true]);
    assert_eq!(agents.last_tagged, 0);
}

#[test]
fn no_agent_in_reach_leaves_the_tag() {
    let (mut grid, mut agents) = place(20, 20, &[c(5, 5), c(8, 5)], &[v(0, 0); 2]);
    let passed = agents.update_with(&mut grid, &still(2));
    assert!(!passed);
    assert_eq!(agents.tagged, vec![true, false]);
    assert_eq!(agents.last_tagged, 0);
}

#[test]
fn seen_agents_flee_and_the_tagged_agent_chases_the_nearest() {
    // Tagged agent at (5, 5); (5, 12) is at squared distance 49, (10, 10) at 50,
    // (5, 13) at 64, which is outside the circle of sight.
    let (mut grid, mut agents) = place(
        20,
        20,
        &[c(5, 5), c(5, 12), c(10, 10), c(5, 13)],
        &[v(0, 0), v(0, 0), v(0, 0), v(-1, 0)],
    );
    agents.last_tagged = 3;
    let passed = agents.update_with(&mut grid, &still(4));
    assert!(!passed);
    assert_eq!(agents.has_tagged_in_sight, vec![false, true, true, false]);
    assert_eq!(agents.vel[1], v(0, 1));
    assert_eq!(agents.vel[2], v(1, 1));
    // Agent 3 is unseen and keeps the velocity of its walk.
    assert_eq!(agents.vel[3], v(-1, 0));
    assert_eq!(agents.pos[3], c(4, 13));
    // The nearest seen agent is agent 1, straight below.
    assert_eq!(agents.vel[0], v(0, 1));
}

#[test]
fn nearest_tie_goes_to_the_earlier_cell_by_row() {
    // (5, 2) and (5, 8) are both at squared distance 9 from (5, 5).
    let (mut grid, mut agents) = place(20, 20, &[c(5, 5), c(5, 8), c(5, 2)], &[v(0, 0); 3]);
    agents.update_with(&mut grid, &still(3));
    assert_eq!(agents.vel[0], v(0, -1));
    assert_eq!(agents.vel[1], v(0, 1));
    assert_eq!(agents.vel[2], v(0, -1));
}

#[test]
fn lone_tagged_agent_keeps_its_walk() {
    let (mut grid, mut agents) = place(20, 20, &[c(5, 5)], &[v(1, -1)]);
    let passed = agents.update_with(&mut grid, &still(1));
    assert!(!passed);
    assert_eq!(agents.pos[0], c(6, 4));
    assert_eq!(agents.vel[0], v(1, -1));
    assert_eq!(agents.has_tagged_in_sight, vec![false]);
}

#[test]
fn left_wall_reverses_the_agent() {
    let (mut grid, mut agents) = place(20, 20, &[c(19, 19), c(0, 5)], &[v(0, 0), v(-1, 0)]);
    agents.update_with(&mut grid, &still(2));
    assert_eq!(agents.pos[1], c(0, 5));
    assert_eq!(agents.vel[1], v(1, 0));
    agents.update_with(&mut grid, &still(2));
    assert_eq!(agents.pos[1], c(1, 5));
    assert_eq!(agents.vel[1], v(1, 0));
}

#[test]
fn bottom_right_corner_reverses_both_axes() {
    let (mut grid, mut agents) = place(20, 20, &[c(0, 0), c(19, 19)], &[v(0, 0), v(1, 1)]);
    agents.update_with(&mut grid, &still(2));
    assert_eq!(agents.pos[1], c(19, 19));
    assert_eq!(agents.vel[1], v(-1, -1));
}

#[test]
fn blocked_agent_stays_but_keeps_its_new_velocity() {
    let (mut grid, mut agents) =
        place(20, 20, &[c(19, 19), c(1, 1), c(2, 1)], &[v(0, 0), v(1, 0), v(0, 0)]);
    agents.update_with(&mut grid, &still(3));
    assert_eq!(agents.pos[1], c(1, 1));
    assert_eq!(agents.vel[1], v(1, 0));
    assert_eq!(agents.pos[2], c(2, 1));
    assert_consistent(&grid, &agents);
}

#[test]
fn first_mover_wins_a_contested_cell() {
    let (mut grid, mut agents) =
        place(20, 20, &[c(19, 19), c(1, 1), c(3, 1)], &[v(0, 0), v(1, 0), v(-1, 0)]);
    agents.update_with(&mut grid, &still(3));
    assert_eq!(agents.pos[1], c(2, 1));
    assert_eq!(agents.pos[2], c(3, 1));
    assert_eq!(grid.get(c(1, 1)), None);
    assert_eq!(grid.get(c(2, 1)), Some(1));
    assert_consistent(&grid, &agents);
}

#[test]
fn later_agent_sees_an_earlier_agent_leave() {
    let (mut grid, mut agents) =
        place(20, 20, &[c(19, 19), c(2, 1), c(1, 1)], &[v(0, 0), v(1, 0), v(1, 0)]);
    agents.update_with(&mut grid, &still(3));
    assert_eq!(agents.pos[1], c(3, 1));
    assert_eq!(agents.pos[2], c(2, 1));
    assert_consistent(&grid, &agents);
}

#[test]
fn nudges_turn_before_the_step() {
    let (mut grid, mut agents) = place(
        30,
        30,
        &[c(29, 29), c(5, 5), c(10, 5), c(15, 5), c(20, 5)],
        &[v(0, 0), v(0, 0), v(0, 0), v(1, 1), v(-1, 0)],
    );
    let nudges = vec![None, Some(Nudge::Left), Some(Nudge::Down), Some(Nudge::Right), Some(Nudge::Up)];
    agents.update_with(&mut grid, &nudges);
    assert_eq!(agents.vel[1], v(-1, 0));
    assert_eq!(agents.pos[1], c(4, 5));
    assert_eq!(agents.vel[2], v(0, 1));
    assert_eq!(agents.pos[2], c(10, 6));
    // Already at full speed: the turn is clamped away.
    assert_eq!(agents.vel[3], v(1, 1));
    assert_eq!(agents.pos[3], c(16, 6));
    assert_eq!(agents.vel[4], v(-1, -1));
    assert_eq!(agents.pos[4], c(19, 4));
}

#[test]
fn random_ticks_keep_one_tag_and_a_consistent_grid() {
    let mut grid = WorldGrid::new(15, 10);
    let mut agents = Agents::new(40, &mut grid);
    assert_consistent(&grid, &agents);
    for _ in 0..200 {
        agents.update(&mut grid);
        assert_eq!(tagged_ids(&agents).len(), 1);
        assert_consistent(&grid, &agents);
        for vel in &agents.vel {
            assert!((-1..=1).contains(&vel.x) && (-1..=1).contains(&vel.y));
        }
    }
}
