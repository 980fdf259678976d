use vstd::prelude::*;

use crate::agents::Agents;
use crate::rules::{Nudge, lemma_crowded_grid_is_full, lemma_full_grid_frozen, sole_tagged};
use crate::world_grid::WorldGrid;

verus! {

/// Why a simulation cannot be set up with the requested sizes.
#[derive(Debug, Clone, Copy, PartialEq, Eq, Structural)]
pub enum ConfigurationError {
    /// The grid has no cells: its width or its height is zero.
    EmptyGrid,
    /// The grid has more cells than this machine can index.
    GridTooLarge,
    /// No agent was asked for, so nobody could hold the tag.
    NoAgents,
    /// More agents were asked for than the grid has cells.
    TooManyAgents,
}

/// The grid and its agents, advanced together one tick at a time.
#[derive(Debug)]
pub struct Simulation {
    pub world: WorldGrid,
    pub agents: Agents,
}

impl Simulation {
    /// The agents and the grid agree, and exactly one agent holds the tag.
    pub open spec fn well_formed(&self) -> bool {
        self.agents.well_formed(&self.world)
    }

    /// A `width` by `height` grid holding `num_agents` agents at distinct random cells;
    /// agent 0 holds the tag.
    pub fn new(width: u32, height: u32, num_agents: u32) -> (r: Result<Simulation, ConfigurationError>)
        ensures
            (width == 0 || height == 0) <==> r == Err::<Simulation, ConfigurationError>(
                ConfigurationError::EmptyGrid,
            ),
            (width > 0 && height > 0 && width * height > usize::MAX) <==> r == Err::<
                Simulation,
                ConfigurationError,
            >(ConfigurationError::GridTooLarge),
            (width > 0 && height > 0 && width * height <= usize::MAX && num_agents == 0) <==> r
                == Err::<Simulation, ConfigurationError>(ConfigurationError::NoAgents),
            (width > 0 && height > 0 && width * height <= usize::MAX && num_agents > width
                * height) <==> r == Err::<Simulation, ConfigurationError>(
                ConfigurationError::TooManyAgents,
            ),
            r matches Ok(s) ==> {
                &&& s.well_formed()
                &&& s.world.width == width
                &&& s.world.height == height
                &&& s.agents.count() == num_agents
                &&& sole_tagged(s.agents.tagged@, 0)
                &&& s.agents.last_tagged == 0
            },
    {
        if width == 0 || height == 0 {
            return Err(ConfigurationError::EmptyGrid);
        }
        assert(width * height <= u32::MAX * u32::MAX) by (nonlinear_arith)
            requires
                width <= u32::MAX,
                height <= u32::MAX,
        ;
        let cells: u64 = width as u64 * height as u64;
        if cells > usize::MAX as u64 {
            return Err(ConfigurationError::GridTooLarge);
        }
        if num_agents == 0 {
            return Err(ConfigurationError::NoAgents);
        }
        if num_agents as u64 > cells {
            return Err(ConfigurationError::TooManyAgents);
        }
        let mut world = WorldGrid::new(width, height);
        let agents = Agents::new(num_agents, &mut world);
        Ok(Simulation { world, agents })
    }

    /// Advances one tick, with random turns; returns whether the tag changed hands.
    pub fn tick(&mut self) -> (tagged_this_tick: bool)
        requires
            old(self).well_formed(),
        ensures
            final(self).well_formed(),
            exists|nudges: Seq<Option<Nudge>>|
                nudges.len() == old(self).agents.count() && old(self).agents.ticked(
                    &old(self).world,
                    &final(self).agents,
                    &final(self).world,
                    nudges,
                    tagged_this_tick,
                ),
    {
        self.agents.update(&mut self.world)
    }

    /// Advances one tick in which agent `i` turns by `nudges[i]`; returns whether the tag
    /// changed hands.
    pub fn tick_with(&mut self, nudges: &Vec<Option<Nudge>>) -> (tagged_this_tick: bool)
        requires
            old(self).well_formed(),
            nudges@.len() == old(self).agents.count(),
        ensures
            final(self).well_formed(),
            old(self).agents.ticked(
                &old(self).world,
                &final(self).agents,
                &final(self).world,
                nudges@,
                tagged_this_tick,
            ),
    {
        self.agents.update_with(&mut self.world, nudges)
    }
}

/// A simulation with as many agents as cells has every cell taken, and no tick can move
/// any agent: positions and grid slots stay as they are.
pub proof fn lemma_saturated_simulation_is_frozen(
    sim: Simulation,
    next: Simulation,
    nudges: Seq<Option<Nudge>>,
    passed: bool,
)
    requires
        sim.well_formed(),
        sim.agents.count() == sim.world.width * sim.world.height,
        nudges.len() == sim.agents.count(),
        sim.agents.ticked(&sim.world, &next.agents, &next.world, nudges, passed),
    ensures
        forall|c: int| 0 <= c < sim.world.agents@.len() ==> (#[trigger] sim.world.agents@[c]) is Some,
        next.agents.pos@ == sim.agents.pos@,
        next.world.agents@ == sim.world.agents@,
{
    let w = sim.world.width as int;
    let h = sim.world.height as int;
    lemma_crowded_grid_is_full(sim.agents.pos@, sim.world.agents@, w, h);
    lemma_full_grid_frozen(sim.agents.motion(&sim.world), w, h, nudges, sim.agents.count());
}

} // verus!
