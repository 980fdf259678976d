use vstd::prelude::*;

verus! {

/// One presence bitmask over the whole grid per agent, kept in a single contiguous array.
pub struct Masks {
    _v: Vec<bool>,
    window_length: usize,
}

impl Masks {
    /// Number of cells each mask covers.
    pub closed spec fn window(&self) -> nat {
        self.window_length as nat
    }

    /// All the masks, one after the other.
    pub closed spec fn bits(&self) -> Seq<bool> {
        self._v@
    }

    /// `num_agents` masks over a `world_width` by `world_height` grid, all clear.
    pub fn new(world_width: u32, world_height: u32, num_agents: u32) -> (r: Self)
        requires
            world_width * world_height <= usize::MAX,
            world_width * world_height * num_agents <= usize::MAX,
        ensures
            r.window() == world_width * world_height,
            r.bits().len() == world_width * world_height * num_agents,
            forall|i: int| 0 <= i < r.bits().len() ==> !r.bits()[i],
    {
        let window_length: usize = world_width as usize * world_height as usize;
        let total = window_length * num_agents as usize;
        Self { _v: vec![false; total], window_length }
    }
}

} // verus!
