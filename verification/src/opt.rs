pub mod constant;
pub mod dce;
pub mod forward;
pub mod inline;
pub mod mut2ssa;
pub mod redundant;
pub mod redundant_obj;
pub mod sroa;
pub mod unroll;
pub mod writeonly;

use vstd::prelude::*;

use crate::ir::Block;
use crate::opt::constant::{cp_block_rel, evaluator_ok, ConstProp, NumOp};
use crate::opt::dce::{dce_drops_block, dce_reaches, Dce};
use crate::opt::forward::{fwd_block_rel, remappings_of, Reads};
use crate::opt::mut2ssa::{m2s_block_rel, replacements_of, Mut2Ssa};

verus! {

/// `r` is what the pass pipeline makes of `ir`: dead code eliminated until nothing more
/// drops, mutables turned into SSA values, reads forwarded, constants propagated, and dead
/// code eliminated again until nothing more drops.
pub open spec fn passes_rel<F: Fn(NumOp, u64, u64) -> u64>(ir: Block, r: Block, f: F) -> bool {
    exists|b1: Block, b2: Block, b3: Block, b4: Block|
        #![trigger dce_reaches(ir, b1), m2s_block_rel(b1, b2, replacements_of(b1)), fwd_block_rel(b2, b3, remappings_of(b2)), cp_block_rel(b3, b4, Map::empty(), f)]
        {
            &&& dce_reaches(ir, b1)
            &&& !dce_drops_block(b1, b1)
            &&& m2s_block_rel(b1, b2, replacements_of(b1))
            &&& fwd_block_rel(b2, b3, remappings_of(b2))
            &&& cp_block_rel(b3, b4, Map::empty(), f)
            &&& dce_reaches(b4, r)
            &&& !dce_drops_block(r, r)
        }
}

/// Runs the optimization passes over a program; `f` evaluates operations on numbers.
pub fn run_passes<F: Fn(NumOp, u64, u64) -> u64>(ir: Block, f: &F) -> (r: Block)
    requires
        evaluator_ok(*f),
    ensures
        passes_rel(ir, r, *f),
{
    let ghost ir0 = ir;
    let b1 = Dce::converge(ir);
    let ghost g1 = b1;
    let b2 = Mut2Ssa::run(b1);
    let ghost g2 = b2;
    let b3 = Reads::run(b2);
    let ghost g3 = b3;
    let b4 = ConstProp::run(b3, f);
    let ghost g4 = b4;
    let r = Dce::converge(b4);
    assert(dce_reaches(ir0, g1) && m2s_block_rel(g1, g2, replacements_of(g1)) && fwd_block_rel(g2, g3, remappings_of(g2)) && cp_block_rel(g3, g4, Map::empty(), *f));
    r
}

} // verus!
