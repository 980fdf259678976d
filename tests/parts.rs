use rust_tag::agent::Agent;
use rust_tag::agents::masks::Masks;
use rust_tag::agents::{Agents, Coord, Vec2, calc_vector};
use rust_tag::simulation::{ConfigurationError, Simulation};
use rust_tag::world_grid::{NORMAL_COLOUR, SEEN_COLOUR, TAGGED_COLOUR, WorldGrid};

fn c(x: u32, y: u32) -> Coord {
    Coord { x, y }
}

#[test]
fn default_agent_is_not_tagged() {
    assert!(!Agent::default().tagged);
}

#[test]
fn clamp_bounds_each_component() {
    let mut a = Vec2 { x: 5, y: -7 };
    a.clamp(-1, 1);
    assert_eq!(a, Vec2 { x: 1, y: -1 });
    let mut b = Vec2 { x: 0, y: 1 };
    b.clamp(-1, 1);
    assert_eq!(b, Vec2 { x: 0, y: 1 });
    let mut d = Vec2 { x: -3, y: 3 };
    d.clamp(-2, 2);
    assert_eq!(d, Vec2 { x: -2, y: 2 });
}

#[test]
fn calc_vector_points_from_first_to_second() {
    assert_eq!(calc_vector(c(3, 7), c(10, 2)), Vec2 { x: 7, y: -5 });
    assert_eq!(calc_vector(c(4, 4), c(4, 4)), Vec2 { x: 0, y: 0 });
}

#[test]
fn grid_starts_empty_and_indexes_row_major() {
    let mut grid = WorldGrid::new(4, 3);
    assert_eq!(grid.agents.len(), 12);
    assert!(grid.agents.iter().all(|a| a.is_none()));
    assert_eq!(grid.coord_to_idx(&c(1, 2)), 9);
    assert_eq!(grid.coord_to_idx(&c(3, 0)), 3);
    grid.set(c(1, 2), 7);
    assert_eq!(grid.get(c(1, 2)), Some(7));
    assert_eq!(grid.agents[9], Some(7));
    grid.clear(c(1, 2));
    assert_eq!(grid.get(c(1, 2)), None);
}

#[test]
fn buffer_colours_cells_by_role() {
    let mut grid = WorldGrid::new(3, 2);
    let mut agents = Agents::with_positions(
        &mut grid,
        &vec![c(0, 0), c(2, 0), c(1, 1)],
        vec![Vec2 { x: 0, y: 0 }; 3],
    );
    agents.has_tagged_in_sight = vec![false, true, false];
    let buffer = grid.as_buffer(&agents);
    assert_eq!(buffer, vec![TAGGED_COLOUR, 0, SEEN_COLOUR, 0, NORMAL_COLOUR, 0]);
    assert_eq!((TAGGED_COLOUR, NORMAL_COLOUR, SEEN_COLOUR), (16711680, 65280, 255));
}

#[test]
fn masks_can_be_allocated() {
    let _masks = Masks::new(5, 4, 3);
}

#[test]
fn configuration_errors() {
    assert_eq!(Simulation::new(0, 5, 1).err(), Some(ConfigurationError::EmptyGrid));
    assert_eq!(Simulation::new(5, 0, 1).err(), Some(ConfigurationError::EmptyGrid));
    assert_eq!(Simulation::new(3, 3, 0).err(), Some(ConfigurationError::NoAgents));
    assert_eq!(Simulation::new(3, 3, 10).err(), Some(ConfigurationError::TooManyAgents));
    assert!(Simulation::new(3, 3, 9).is_ok());
}

#[test]
fn random_placement_uses_distinct_cells_and_slow_velocities() {
    let mut grid = WorldGrid::new(7, 5);
    let agents = Agents::new(30, &mut grid);
    assert_eq!(agents.pos.len(), 30);
    let mut seen = std::collections::HashSet::new();
    for (i, p) in agents.pos.iter().enumerate() {
        assert!(p.x < 7 && p.y < 5);
        assert!(seen.insert((p.x, p.y)));
        assert_eq!(grid.get(*p), Some(i as u32));
    }
    for vel in &agents.vel {
        assert!((-1..=1).contains(&vel.x) && (-1..=1).contains(&vel.y));
    }
    assert_eq!(agents.tagged.iter().filter(|&&t| t).count(), 1);
    assert!(agents.tagged[0]);
}

#[test]
fn full_grid_is_filled_and_frozen() {
    let mut sim = Simulation::new(4, 3, 12).unwrap();
    assert!(sim.world.agents.iter().all(|a| a.is_some()));
    let start = sim.agents.pos.clone();
    for _ in 0..50 {
        sim.tick();
        assert_eq!(sim.agents.pos, start);
        assert!(sim.world.agents.iter().all(|a| a.is_some()));
        assert_eq!(sim.agents.tagged.iter().filter(|&&t| t).count(), 1);
    }
}

#[test]
fn tiny_grids_keep_one_tag() {
    for (w, h, n) in [(1, 1, 1), (2, 1, 2), (1, 2, 1), (2, 2, 3), (3, 1, 2)] {
        let mut sim = Simulation::new(w, h, n).unwrap();
        for _ in 0..100 {
            sim.tick();
            assert_eq!(sim.agents.tagged.iter().filter(|&&t| t).count(), 1);
            for (i, p) in sim.agents.pos.iter().enumerate() {
                assert!(p.x < w && p.y < h);
                assert_eq!(sim.world.get(*p), Some(i as u32));
            }
        }
    }
}

#[test]
fn two_agents_in_one_row_trade_the_tag_only_after_the_cooldown_moves_on() {
    let mut sim = Simulation::new(2, 1, 2).unwrap();
    // Both agents are always within reach; agent 0 starts with the tag and is the cooldown.
    assert!(sim.tick());
    assert_eq!(sim.agents.tagged, vec![false, true]);
    assert_eq!(sim.agents.last_tagged, 0);
    assert!(!sim.tick());
    assert_eq!(sim.agents.tagged, vec![false, true]);
}
