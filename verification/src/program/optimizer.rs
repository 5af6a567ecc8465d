//! The fixed-point driver of the optimizer: repeat a pass — coalescing, then
//! clear-loop folding, each at every nesting level — until a pass changes
//! nothing, or a fixed budget of passes is spent. A fold in one pass can
//! expose a new adjacency for the next, which is why a single pass is not
//! enough.

use vstd::prelude::*;

use crate::program::clear_loop;
use crate::program::clear_loop::cleared;
use crate::program::combine_instructions;
use crate::program::combine_instructions::combined;
use crate::program::{clone_vec, seq_view, vec_eq, Instr, Instruction};

verus! {

broadcast use vstd::std_specs::vec::group_vec_axioms, vstd::seq::group_seq_axioms;

/// One optimizer pass: coalesce adjacent instructions everywhere, then fold
/// clear loops everywhere, in that order, so that a merged `Add(2)` can
/// never spuriously match the magnitude-one clear-loop shape.
pub open spec fn pass(s: Seq<Instr>) -> Seq<Instr> {
    cleared(combined(s))
}

/// The result of iterating passes from `s`: stop at the first pass that
/// changes nothing, or when the budget runs out.
pub open spec fn optimized_from(s: Seq<Instr>, budget: nat) -> Seq<Instr>
    decreases budget,
{
    if budget == 0 {
        s
    } else if pass(s) == s {
        s
    } else {
        optimized_from(pass(s), (budget - 1) as nat)
    }
}

/// Applies one pass in place and reports whether it changed the program,
/// detected by an explicit structural comparison of the models.
fn optimize_once(instructions: &mut Vec<Instruction>) -> (changed: bool)
    ensures
        seq_view(final(instructions)@) == pass(seq_view(old(instructions)@)),
        changed <==> (seq_view(final(instructions)@) != seq_view(old(instructions)@)),
{
    let before = clone_vec(instructions);
    combine_instructions::optimize(instructions);
    clear_loop::optimize(instructions);
    !vec_eq(&before, instructions)
}

/// Rewrites the sequence to its optimized form in place: up to 32 passes,
/// stopping early at a fixed point.
pub fn optimize(instructions: &mut Vec<Instruction>)
    ensures
        seq_view(final(instructions)@) == optimized_from(seq_view(old(instructions)@), 32),
{
    let ghost orig = seq_view(old(instructions)@);
    let mut current_pass: usize = 0;
    while current_pass < 32
        invariant
            current_pass <= 32,
            orig == seq_view(old(instructions)@),
            optimized_from(orig, 32) == optimized_from(
                seq_view(instructions@),
                (32 - current_pass) as nat,
            ),
        decreases 32 - current_pass,
    {
        let ghost pre = seq_view(instructions@);
        let ghost budget = (32 - current_pass) as nat;
        let changed = optimize_once(instructions);
        if !changed {
            proof {
                assert(pass(pre) == pre);
                assert(optimized_from(pre, budget) == pre);
            }
            return ;
        }
        proof {
            assert(optimized_from(pre, budget) == optimized_from(pass(pre), (budget - 1) as nat));
        }
        current_pass = current_pass + 1;
    }
    proof {
        assert(optimized_from(seq_view(instructions@), 0) == seq_view(instructions@));
    }
}

/// The second pass settles: after two passes over a well-formed program the
/// result is fully merged and fold-free at every level, so a further pass
/// changes nothing.
pub proof fn lemma_pass_stabilizes(s: Seq<Instr>)
    requires
        crate::program::seq_wf(s),
    ensures
        pass(pass(pass(s))) == pass(pass(s)),
{
    let c1 = combined(s);
    let p1 = cleared(c1);
    combine_instructions::lemma_combined_wf(s);
    clear_loop::lemma_cleared_wf(c1);
    clear_loop::lemma_cleared_nf(c1);
    let c2 = combined(p1);
    combine_instructions::lemma_combined_fm(p1);
    combine_instructions::lemma_combined_nf(p1);
    combine_instructions::lemma_combined_wf(p1);
    clear_loop::lemma_cleared_identity(c2);
    let p2 = cleared(c2);
    assert(p2 == c2);
    combine_instructions::lemma_combined_identity(p2);
    clear_loop::lemma_cleared_identity(combined(p2));
}

/// The optimizer reaches a fixed point on any well-formed program within
/// its pass budget: a further pass over the result changes nothing, so
/// re-optimizing the result is a no-op.
pub proof fn lemma_optimize_fixed_point(s: Seq<Instr>)
    requires
        crate::program::seq_wf(s),
    ensures
        pass(optimized_from(s, 32)) == optimized_from(s, 32),
        optimized_from(optimized_from(s, 32), 32) == optimized_from(s, 32),
{
    lemma_pass_stabilizes(s);
    let r = optimized_from(s, 32);
    if pass(s) == s {
        assert(r == s);
    } else {
        let t1 = pass(s);
        assert(r == optimized_from(t1, 31));
        if pass(t1) == t1 {
            assert(r == t1);
        } else {
            let t2 = pass(t1);
            assert(optimized_from(t1, 31) == optimized_from(t2, 30));
            assert(pass(t2) == t2);
            assert(optimized_from(t2, 30) == t2);
        }
    }
    assert(optimized_from(r, 32) == r);
}

} // verus!
