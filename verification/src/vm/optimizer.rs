//! The optimizer for the flat machine: coalesce adjacent compatible
//! instructions, rewrite clear loops — a bracket pair around one
//! magnitude-one arithmetic instruction — into `Clear`, then relink the
//! brackets, since the rewrites shift every index.

use vstd::prelude::*;
use vstd::pervasive::VecAdditionalExecFns;

use crate::vm::parser::{link_loops, link_scan, Error, LinkScan};
use crate::vm::Instruction;

verus! {

broadcast use vstd::std_specs::vec::group_vec_axioms, vstd::seq::group_seq_axioms;

/// The merge rule for one adjacent pair of flat instructions: equal
/// displacement or arithmetic kinds merge by summing their magnitudes, as
/// long as the sum is representable, and two clears collapse into one.
pub open spec fn merged(a: Instruction, b: Instruction) -> Option<Instruction> {
    match (a, b) {
        (Instruction::MoveRight(x), Instruction::MoveRight(y)) => if x + y <= usize::MAX {
            Some(Instruction::MoveRight((x + y) as usize))
        } else {
            None
        },
        (Instruction::MoveLeft(x), Instruction::MoveLeft(y)) => if x + y <= usize::MAX {
            Some(Instruction::MoveLeft((x + y) as usize))
        } else {
            None
        },
        (Instruction::Add(x), Instruction::Add(y)) => if x + y <= usize::MAX {
            Some(Instruction::Add((x + y) as usize))
        } else {
            None
        },
        (Instruction::Sub(x), Instruction::Sub(y)) => if x + y <= usize::MAX {
            Some(Instruction::Sub((x + y) as usize))
        } else {
            None
        },
        (Instruction::Clear, Instruction::Clear) => Some(Instruction::Clear),
        _ => None,
    }
}

/// One step of the streaming rewrite: the next element either merges into
/// the last element already accumulated or is appended after it.
pub open spec fn coalesce_push(acc: Seq<Instruction>, x: Instruction) -> Seq<Instruction> {
    if acc.len() > 0 {
        match merged(acc.last(), x) {
            Some(m) => acc.drop_last().push(m),
            None => acc.push(x),
        }
    } else {
        acc.push(x)
    }
}

/// The coalesced form of a flat program: the left-to-right streaming
/// rewrite applied to every element in order.
pub open spec fn coalesced(s: Seq<Instruction>) -> Seq<Instruction>
    decreases s,
{
    if s.len() == 0 {
        Seq::empty()
    } else {
        coalesce_push(coalesced(s.drop_last()), s.last())
    }
}

/// Whether a clear loop sits at index `i`: a bracket pair around exactly
/// one magnitude-one arithmetic instruction.
pub open spec fn foldable_at(s: Seq<Instruction>, i: int) -> bool {
    &&& 0 <= i
    &&& i + 3 <= s.len()
    &&& s[i] matches Instruction::JumpIfZero(_)
    &&& (s[i + 1] == Instruction::Add(1usize) || s[i + 1] == Instruction::Sub(1usize))
    &&& s[i + 2] matches Instruction::JumpIfNotZero(_)
}

/// The first index holding a clear loop, or -1 when there is none.
pub open spec fn first_clear_loop(s: Seq<Instruction>) -> int
    decreases s.len(),
{
    if s.len() < 3 {
        -1
    } else if foldable_at(s, 0) {
        0
    } else {
        let r = first_clear_loop(s.drop_first());
        if r < 0 {
            -1
        } else {
            r + 1
        }
    }
}

/// `first_clear_loop` finds the first clear loop and nothing before it.
proof fn lemma_first_clear_loop(s: Seq<Instruction>)
    ensures
        ({
            let r = first_clear_loop(s);
            &&& r == -1 ==> forall|i: int| !foldable_at(s, i)
            &&& r >= 0 ==> foldable_at(s, r) && (forall|i: int| 0 <= i < r ==> !foldable_at(s, i))
        }),
    decreases s.len(),
{
    if s.len() < 3 {
    } else if foldable_at(s, 0) {
    } else {
        lemma_first_clear_loop(s.drop_first());
        assert forall|i: int| 1 <= i && i + 3 <= s.len() implies foldable_at(s, i) == foldable_at(
            s.drop_first(),
            i - 1,
        ) by {
            assert(s.drop_first()[i - 1] == s[i]);
            assert(s.drop_first()[i] == s[i + 1]);
            assert(s.drop_first()[i + 1] == s[i + 2]);
        }
    }
}

/// The clear-loop rewritten form of a flat program: replace the first
/// clear loop by `Clear` and repeat until none is left.
pub open spec fn clear_rewritten(s: Seq<Instruction>) -> Seq<Instruction>
    decreases s.len(),
    via clear_rewritten_decreases
{
    let r = first_clear_loop(s);
    if r < 0 {
        s
    } else {
        clear_rewritten(s.take(r) + seq![Instruction::Clear] + s.skip(r + 3))
    }
}

#[via_fn]
proof fn clear_rewritten_decreases(s: Seq<Instruction>) {
    let r = first_clear_loop(s);
    if r >= 0 {
        lemma_first_clear_loop(s);
        assert((s.take(r) + seq![Instruction::Clear] + s.skip(r + 3)).len() == s.len() - 2);
    }
}

/// Merges adjacent compatible instructions of a flat program.
pub fn combine_instructions(instructions: Vec<Instruction>) -> (r: Vec<Instruction>)
    ensures
        r@ == coalesced(instructions@),
{
    let ghost orig = instructions@;
    if instructions.is_empty() {
        proof {
            assert(orig =~= Seq::<Instruction>::empty());
        }
        return instructions;
    }
    let mut elements = instructions;
    let mut write: usize = 0;
    let mut read: usize = 1;
    proof {
        assert(coalesced(Seq::<Instruction>::empty()) == Seq::<Instruction>::empty());
        assert(orig.take(1).drop_last() =~= Seq::<Instruction>::empty());
        assert(orig.take(1).last() == orig[0]);
        assert(coalesced(orig.take(1)) == Seq::<Instruction>::empty().push(orig[0]));
        assert(elements@.take(1) =~= seq![orig[0]]);
    }
    while read < elements.len()
        invariant
            elements@.len() == orig.len(),
            write < read <= elements@.len(),
            elements@.take(write + 1) == coalesced(orig.take(read as int)),
            forall|j: int| read <= j < orig.len() ==> elements@[j] == orig[j],
        decreases elements@.len() - read,
    {
        let ghost acc = coalesced(orig.take(read as int));
        proof {
            assert(orig.take(read + 1).drop_last() =~= orig.take(read as int));
            assert(orig.take(read + 1).last() == orig[read as int]);
            assert(coalesced(orig.take(read + 1)) == coalesce_push(acc, orig[read as int]));
            assert(acc.last() == elements@.take(write + 1)[write as int]);
            assert(acc.last() == elements@[write as int]);
        }
        let current = elements[write];
        let next = elements[read];
        let merge_result = match (current, next) {
            (Instruction::MoveRight(x), Instruction::MoveRight(y)) => if x <= usize::MAX - y {
                Some(Instruction::MoveRight(x + y))
            } else {
                None
            },
            (Instruction::MoveLeft(x), Instruction::MoveLeft(y)) => if x <= usize::MAX - y {
                Some(Instruction::MoveLeft(x + y))
            } else {
                None
            },
            (Instruction::Add(x), Instruction::Add(y)) => if x <= usize::MAX - y {
                Some(Instruction::Add(x + y))
            } else {
                None
            },
            (Instruction::Sub(x), Instruction::Sub(y)) => if x <= usize::MAX - y {
                Some(Instruction::Sub(x + y))
            } else {
                None
            },
            (Instruction::Clear, Instruction::Clear) => Some(Instruction::Clear),
            _ => None,
        };
        proof {
            match merge_result {
                Some(m) => {
                    assert(merged(current, next) == Some(m));
                },
                None => {
                    assert(merged(current, next) is None);
                },
            }
        }
        match merge_result {
            Some(m) => {
                elements.set(write, m);
                proof {
                    assert(elements@.take(write + 1) =~= acc.drop_last().push(m));
                }
            },
            None => {
                write = write + 1;
                elements.set(write, next);
                proof {
                    assert(elements@.take(write + 1) =~= acc.push(orig[read as int]));
                }
            },
        }
        read = read + 1;
    }
    proof {
        assert(orig.take(orig.len() as int) =~= orig);
    }
    elements.truncate(write + 1);
    elements
}

/// The first clear loop of the vector, if any.
fn find_clear_loop(instructions: &Vec<Instruction>) -> (r: Option<usize>)
    ensures
        match r {
            Some(i) => first_clear_loop(instructions@) == i as int,
            None => first_clear_loop(instructions@) == -1,
        },
{
    proof {
        lemma_first_clear_loop(instructions@);
    }
    if instructions.len() < 3 {
        return None;
    }
    let mut i: usize = 0;
    while i < instructions.len() - 2
        invariant
            instructions@.len() >= 3,
            i + 2 <= instructions@.len(),
            forall|j: int| 0 <= j < i ==> !foldable_at(instructions@, j),
        decreases instructions@.len() - i,
    {
        let is_open = matches!(instructions[i], Instruction::JumpIfZero(_));
        let is_unit = match instructions[i + 1] {
            Instruction::Add(n) => n == 1,
            Instruction::Sub(n) => n == 1,
            _ => false,
        };
        let is_close = matches!(instructions[i + 2], Instruction::JumpIfNotZero(_));
        if is_open && is_unit && is_close {
            proof {
                assert(foldable_at(instructions@, i as int));
                lemma_first_clear_loop(instructions@);
                if first_clear_loop(instructions@) < i as int {
                    assert(!foldable_at(instructions@, first_clear_loop(instructions@)));
                }
            }
            return Some(i);
        }
        proof {
            assert(!foldable_at(instructions@, i as int));
        }
        i = i + 1;
    }
    proof {
        assert forall|j: int| !foldable_at(instructions@, j) by {
            if 0 <= j && j + 3 <= instructions@.len() {
                assert(j < i);
            }
        }
        lemma_first_clear_loop(instructions@);
        if first_clear_loop(instructions@) >= 0 {
            assert(foldable_at(instructions@, first_clear_loop(instructions@)));
        }
    }
    None
}

/// Replaces every clear loop of a flat program by `Clear`, first one
/// first, until none is left.
pub fn optimize_clear_loop(instructions: Vec<Instruction>) -> (r: Vec<Instruction>)
    ensures
        r@ == clear_rewritten(instructions@),
{
    let mut elements = instructions;
    loop
        invariant
            clear_rewritten(elements@) == clear_rewritten(instructions@),
        decreases elements@.len(),
    {
        let ghost before = elements@;
        match find_clear_loop(&elements) {
            Some(i) => {
                proof {
                    lemma_first_clear_loop(before);
                }
                let total = elements.len();
                proof {
                    assert(i + 3 <= total);
                }
                elements.set(i, Instruction::Clear);
                elements.remove(i + 1);
                elements.remove(i + 1);
                proof {
                    assert(elements@ =~= before.take(i as int) + seq![Instruction::Clear]
                        + before.skip(i + 3));
                    assert(clear_rewritten(before) == clear_rewritten(elements@));
                }
            },
            None => {
                proof {
                    assert(clear_rewritten(elements@) == elements@);
                }
                return elements;
            },
        }
    }
}

/// Optimizes a flat program: coalesce, fold clear loops, then relink the
/// brackets of the rewritten program. The caller guarantees that the
/// rewritten program links, which holds of every program whose brackets
/// were balanced to begin with.
pub fn optimize(instructions: Vec<Instruction>) -> (r: Vec<Instruction>)
    requires
        ({
            let rewritten = clear_rewritten(coalesced(instructions@));
            link_scan(rewritten, Seq::empty(), 0) matches LinkScan::Complete(_, st) && st.len()
                == 0
        }),
    ensures
        link_scan(clear_rewritten(coalesced(instructions@)), Seq::empty(), 0) matches
            LinkScan::Complete(linked, _) && r@ == linked,
        crate::vm::jumps_wf(r@),
{
    let combined = combine_instructions(instructions);
    let folded = optimize_clear_loop(combined);
    let mut rewritten = folded;
    match link_loops(&mut rewritten) {
        Ok(linked) => linked,
        Err(_) => {
            proof {
                assert(false);
            }
            vstd::pervasive::unreached()
        },
    }
}

} // verus!
