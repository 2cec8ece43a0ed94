//! A simulation: ants that share a grid size and advance in lockstep.

use vstd::prelude::*;
use crate::ant::{AntState, LangtonsAnt};

verus! {

/// The states that a sequence of ants stands for, in the same order.
pub open spec fn states(ants: Seq<LangtonsAnt>) -> Seq<AntState> {
    Seq::new(ants.len(), |i: int| ants[i]@)
}

/// The states after one tick of each ant.
pub open spec fn stepped(before: Seq<AntState>) -> Seq<AntState> {
    Seq::new(before.len(), |i: int| before[i].step())
}

/// Whether every state has a grid of side `grid_size`.
pub open spec fn share_size(ants: Seq<AntState>, grid_size: int) -> bool {
    forall|i: int| 0 <= i < ants.len() ==> (#[trigger] ants[i]).size() == grid_size
}

/// Makes `num_ants` new ants, each on an all-off grid of side `grid_size`,
/// facing up from a cell drawn at random.
pub fn initialize_ants(num_ants: usize, grid_size: usize) -> (ants: Vec<LangtonsAnt>)
    requires
        num_ants > 0 ==> grid_size > 0,
    ensures
        ants@.len() == num_ants,
        forall|i: int| 0 <= i < num_ants ==> (#[trigger] states(ants@)[i]).fresh(grid_size as int),
{
    let mut ants: Vec<LangtonsAnt> = Vec::new();
    let mut made: usize = 0;
    while made < num_ants
        invariant
            made <= num_ants,
            num_ants > 0 ==> grid_size > 0,
            ants@.len() == made,
            forall|i: int| 0 <= i < made ==> (#[trigger] states(ants@)[i]).fresh(grid_size as int),
        decreases num_ants - made,
    {
        let ghost before = ants@;
        let ant = LangtonsAnt::new(grid_size);
        ants.push(ant);
        made += 1;
        assert forall|i: int| 0 <= i < made implies (#[trigger] states(ants@)[i]).fresh(grid_size as int) by {
            if i < made - 1 {
                assert(states(before)[i].fresh(grid_size as int));
            }
        }
    }
    ants
}

/// Advances every ant by one tick, in sequence order. The ants do not
/// interact: each one reads and writes its own grid only.
pub fn perform_steps(ants: &mut [LangtonsAnt])
    ensures
        states(final(ants)@) == stepped(states(old(ants)@)),
        forall|i: int|
            0 <= i < old(ants)@.len() ==> (#[trigger] states(final(ants)@)[i]).wf() && states(
                final(ants)@,
            )[i].size() == states(old(ants)@)[i].size(),
{
    let count = ants.len();
    let mut i: usize = 0;
    while i < count
        invariant
            i <= count,
            count == ants@.len(),
            ants@.len() == old(ants)@.len(),
            forall|k: int|
                0 <= k < i ==> (#[trigger] ants@[k])@ == old(ants)@[k]@.step() && ants@[k]@.wf()
                    && ants@[k]@.size() == old(ants)@[k]@.size(),
            forall|k: int| i <= k < count ==> #[trigger] ants@[k] == old(ants)@[k],
        decreases count - i,
    {
        ants[i].step();
        i += 1;
    }
    assert(states(ants@) =~= stepped(states(old(ants)@)));
}

} // verus!
