//! The coalescing primitive of the optimizer: a single left-to-right
//! streaming rewrite that merges adjacent instructions of the same
//! displacement or arithmetic kind, so that runs of compatible instructions
//! collapse into one.

use vstd::prelude::*;
use vstd::pervasive::VecAdditionalExecFns;

use crate::program::{lemma_seq_view_index, seq_view, Instr, Instruction};

verus! {

broadcast use vstd::std_specs::vec::group_vec_axioms, vstd::seq::group_seq_axioms;

/// The merge rule for one adjacent pair: equal displacement or arithmetic
/// kinds merge by summing their magnitudes, as long as the sum is
/// representable; a stored literal is dead before another stored literal, so
/// the second wins. No other pair merges.
pub open spec fn merged(a: Instr, b: Instr) -> Option<Instr> {
    match (a, b) {
        (Instr::MoveRight(x), Instr::MoveRight(y)) => if x + y <= usize::MAX {
            Some(Instr::MoveRight((x + y) as nat))
        } else {
            None
        },
        (Instr::MoveLeft(x), Instr::MoveLeft(y)) => if x + y <= usize::MAX {
            Some(Instr::MoveLeft((x + y) as nat))
        } else {
            None
        },
        (Instr::Add(x), Instr::Add(y)) => if x + y <= usize::MAX {
            Some(Instr::Add((x + y) as nat))
        } else {
            None
        },
        (Instr::Sub(x), Instr::Sub(y)) => if x + y <= usize::MAX {
            Some(Instr::Sub((x + y) as nat))
        } else {
            None
        },
        (Instr::Store(_), Instr::Store(y)) => Some(Instr::Store(y)),
        _ => None,
    }
}

/// One step of the streaming rewrite: the next element either merges into
/// the last element already accumulated or is appended after it.
pub open spec fn coalesce_push(acc: Seq<Instr>, x: Instr) -> Seq<Instr> {
    if acc.len() > 0 {
        match merged(acc.last(), x) {
            Some(m) => acc.drop_last().push(m),
            None => acc.push(x),
        }
    } else {
        acc.push(x)
    }
}

/// The coalesced form of a sequence: the left-to-right streaming rewrite
/// applied to every element in order.
pub open spec fn coalesced(s: Seq<Instr>) -> Seq<Instr>
    decreases s,
{
    if s.len() == 0 {
        Seq::empty()
    } else {
        coalesce_push(coalesced(s.drop_last()), s.last())
    }
}

/// No two adjacent elements of the sequence can merge.
pub open spec fn no_adjacent_merge(s: Seq<Instr>) -> bool {
    forall|i: int| 0 <= i < s.len() - 1 ==> merged(#[trigger] s[i], s[i + 1]) is None
}

/// A merge result absorbs its right operand: whatever could not merge with
/// the left operand still cannot merge with the merge result.
proof fn lemma_merge_absorbs(a: Instr, b: Instr, x: Instr, m: Instr)
    requires
        merged(a, b) is None,
        merged(b, x) == Some(m),
    ensures
        merged(a, m) is None,
{
}

/// The streaming rewrite leaves no adjacent pair that could still merge.
pub proof fn lemma_coalesced_no_adjacent(s: Seq<Instr>)
    ensures
        no_adjacent_merge(coalesced(s)),
    decreases s,
{
    if s.len() == 0 {
    } else {
        lemma_coalesced_no_adjacent(s.drop_last());
        let acc = coalesced(s.drop_last());
        let x = s.last();
        let c = coalesced(s);
        assert(c == coalesce_push(acc, x));
        if acc.len() == 0 {
            assert(c == acc.push(x));
            assert(no_adjacent_merge(c));
        } else {
            match merged(acc.last(), x) {
                Some(m) => {
                    assert(c == acc.drop_last().push(m));
                    assert(c.len() == acc.len());
                    assert forall|i: int| 0 <= i < c.len() - 1 implies merged(
                        #[trigger] c[i],
                        c[i + 1],
                    ) is None by {
                        if i < c.len() - 2 {
                            assert(c[i] == acc[i] && c[i + 1] == acc[i + 1]);
                        } else {
                            assert(c[i] == acc[i] && c[i + 1] == m);
                            assert(acc[i + 1] == acc.last());
                            assert(merged(acc[i], acc[i + 1]) is None);
                            lemma_merge_absorbs(acc[i], acc.last(), x, m);
                        }
                    }
                },
                None => {
                    assert(c == acc.push(x));
                    assert forall|i: int| 0 <= i < c.len() - 1 implies merged(
                        #[trigger] c[i],
                        c[i + 1],
                    ) is None by {
                        if i < c.len() - 2 {
                            assert(c[i] == acc[i] && c[i + 1] == acc[i + 1]);
                        } else {
                            assert(c[i] == acc.last() && c[i + 1] == x);
                        }
                    }
                },
            }
        }
    }
}

/// A sequence with no mergeable adjacent pair is already coalesced.
pub proof fn lemma_coalesce_fixed(s: Seq<Instr>)
    requires
        no_adjacent_merge(s),
    ensures
        coalesced(s) == s,
    decreases s,
{
    if s.len() == 0 {
        assert(coalesced(s) =~= s);
    } else {
        assert forall|i: int| 0 <= i < s.drop_last().len() - 1 implies merged(
            #[trigger] s.drop_last()[i],
            s.drop_last()[i + 1],
        ) is None by {
            assert(s.drop_last()[i] == s[i] && s.drop_last()[i + 1] == s[i + 1]);
            assert(merged(s[i], s[i + 1]) is None);
        }
        lemma_coalesce_fixed(s.drop_last());
        if s.len() == 1 {
            assert(coalesced(s) =~= s);
        } else {
            assert(s.drop_last().last() == s[s.len() - 2]);
            assert(merged(s[s.len() - 2], s[s.len() - 1]) is None);
            assert(coalesced(s) == s.drop_last().push(s.last()));
            assert(coalesced(s) =~= s);
        }
    }
}

/// Coalescing is idempotent: coalescing an already coalesced sequence
/// changes nothing.
pub proof fn lemma_coalesce_idempotent(s: Seq<Instr>)
    ensures
        coalesced(coalesced(s)) == coalesced(s),
{
    lemma_coalesced_no_adjacent(s);
    lemma_coalesce_fixed(coalesced(s));
}

/// A node is fully merged when every loop body below it is a fully
/// coalesced sequence.
pub open spec fn fm_instr(i: Instr) -> bool
    decreases i, 2int,
{
    match i {
        Instr::Loop(b) => fully_merged(b),
        _ => true,
    }
}

/// Every node of the sequence is fully merged.
pub open spec fn elements_fm(s: Seq<Instr>) -> bool
    decreases s, 0int,
{
    if s.len() == 0 {
        true
    } else {
        elements_fm(s.drop_last()) && fm_instr(s.last())
    }
}

/// A sequence is fully merged when no adjacent pair can merge and every
/// loop body below it is fully merged too.
pub open spec fn fully_merged(s: Seq<Instr>) -> bool
    decreases s, 1int,
{
    no_adjacent_merge(s) && elements_fm(s)
}

/// A sequence's nodes are fully merged exactly when each of them is.
pub proof fn lemma_elements_fm_index(s: Seq<Instr>)
    ensures
        elements_fm(s) <==> (forall|i: int| 0 <= i < s.len() ==> fm_instr(#[trigger] s[i])),
    decreases s.len(),
{
    if s.len() > 0 {
        lemma_elements_fm_index(s.drop_last());
        if elements_fm(s) {
            assert forall|i: int| 0 <= i < s.len() implies fm_instr(s[i]) by {
                if i < s.len() - 1 {
                    assert(s.drop_last()[i] == s[i]);
                } else {
                    assert(s.last() == s[i]);
                }
            }
        }
        if forall|i: int| 0 <= i < s.len() ==> fm_instr(#[trigger] s[i]) {
            assert forall|i: int| 0 <= i < s.drop_last().len() implies fm_instr(
                s.drop_last()[i],
            ) by {
                assert(s.drop_last()[i] == s[i]);
            }
            assert(fm_instr(s.last()));
        }
    }
}

/// Coalescing keeps the sequence well formed: merged magnitudes stay at
/// least 1 and merged stored literals keep their byte value.
pub proof fn lemma_coalesced_wf(s: Seq<Instr>)
    requires
        crate::program::seq_wf(s),
    ensures
        crate::program::seq_wf(coalesced(s)),
    decreases s,
{
    crate::program::lemma_seq_wf_index(s);
    if s.len() > 0 {
        assert forall|i: int| 0 <= i < s.drop_last().len() implies crate::program::instr_wf(
            #[trigger] s.drop_last()[i],
        ) by {
            assert(s.drop_last()[i] == s[i]);
        }
        crate::program::lemma_seq_wf_index(s.drop_last());
        lemma_coalesced_wf(s.drop_last());
        let acc = coalesced(s.drop_last());
        let x = s.last();
        crate::program::lemma_seq_wf_index(acc);
        crate::program::lemma_seq_wf_index(coalesced(s));
        if acc.len() > 0 {
            match merged(acc.last(), x) {
                Some(m) => {
                    assert(crate::program::instr_wf(acc[acc.len() - 1]));
                    assert(crate::program::instr_wf(m));
                    assert forall|i: int|
                        0 <= i < coalesced(s).len() implies crate::program::instr_wf(
                        #[trigger] coalesced(s)[i],
                    ) by {
                        if i < coalesced(s).len() - 1 {
                            assert(coalesced(s)[i] == acc[i]);
                        } else {
                            assert(coalesced(s)[i] == m);
                        }
                    }
                },
                None => {
                    assert forall|i: int|
                        0 <= i < coalesced(s).len() implies crate::program::instr_wf(
                        #[trigger] coalesced(s)[i],
                    ) by {
                        if i < coalesced(s).len() - 1 {
                            assert(coalesced(s)[i] == acc[i]);
                        } else {
                            assert(coalesced(s)[i] == x);
                        }
                    }
                },
            }
        } else {
            assert(coalesced(s) == acc.push(x));
        }
    }
}

/// Coalescing keeps every node fully merged below its own level: a merge
/// result is never a loop, and the loops that remain were already there.
pub proof fn lemma_coalesced_fm_elements(s: Seq<Instr>)
    requires
        elements_fm(s),
    ensures
        elements_fm(coalesced(s)),
    decreases s,
{
    lemma_elements_fm_index(s);
    if s.len() > 0 {
        assert forall|i: int| 0 <= i < s.drop_last().len() implies fm_instr(
            #[trigger] s.drop_last()[i],
        ) by {
            assert(s.drop_last()[i] == s[i]);
        }
        lemma_elements_fm_index(s.drop_last());
        lemma_coalesced_fm_elements(s.drop_last());
        let acc = coalesced(s.drop_last());
        let x = s.last();
        lemma_elements_fm_index(acc);
        lemma_elements_fm_index(coalesced(s));
        if acc.len() > 0 {
            match merged(acc.last(), x) {
                Some(m) => {
                    assert(!(m matches Instr::Loop(_)));
                    assert(fm_instr(m));
                    assert forall|i: int| 0 <= i < coalesced(s).len() implies fm_instr(
                        #[trigger] coalesced(s)[i],
                    ) by {
                        if i < coalesced(s).len() - 1 {
                            assert(coalesced(s)[i] == acc[i]);
                        } else {
                            assert(coalesced(s)[i] == m);
                        }
                    }
                },
                None => {
                    assert forall|i: int| 0 <= i < coalesced(s).len() implies fm_instr(
                        #[trigger] coalesced(s)[i],
                    ) by {
                        if i < coalesced(s).len() - 1 {
                            assert(coalesced(s)[i] == acc[i]);
                        } else {
                            assert(coalesced(s)[i] == x);
                        }
                    }
                },
            }
        } else {
            assert(coalesced(s) == acc.push(x));
        }
    }
}

/// Coalescing returns an empty sequence only for an empty sequence.
pub proof fn lemma_coalesced_nonempty(s: Seq<Instr>)
    requires
        s.len() > 0,
    ensures
        coalesced(s).len() > 0,
    decreases s,
{
    let acc = coalesced(s.drop_last());
    if acc.len() > 0 {
        match merged(acc.last(), s.last()) {
            Some(m) => {
                assert(coalesced(s) == acc.drop_last().push(m));
            },
            None => {},
        }
    }
}

/// On a well-formed sequence, coalescing yields a single magnitude-one
/// arithmetic node only when the sequence was exactly that node: a merge
/// always sums two magnitudes of at least one each.
pub proof fn lemma_coalesced_unit_singleton(s: Seq<Instr>)
    requires
        crate::program::seq_wf(s),
    ensures
        coalesced(s) == seq![Instr::Add(1 as nat)] ==> s == seq![Instr::Add(1 as nat)],
        coalesced(s) == seq![Instr::Sub(1 as nat)] ==> s == seq![Instr::Sub(1 as nat)],
    decreases s,
{
    crate::program::lemma_seq_wf_index(s);
    assert(seq![Instr::Add(1 as nat)].len() == 1);
    assert(seq![Instr::Add(1 as nat)][0] == Instr::Add(1 as nat));
    assert(seq![Instr::Sub(1 as nat)][0] == Instr::Sub(1 as nat));
    if s.len() == 0 {
    } else {
        assert forall|i: int| 0 <= i < s.drop_last().len() implies crate::program::instr_wf(
            #[trigger] s.drop_last()[i],
        ) by {
            assert(s.drop_last()[i] == s[i]);
        }
        crate::program::lemma_seq_wf_index(s.drop_last());
        let acc = coalesced(s.drop_last());
        let x = s.last();
        if acc.len() == 0 {
            if s.drop_last().len() > 0 {
                lemma_coalesced_nonempty(s.drop_last());
            }
            assert(s.drop_last().len() == 0);
            assert(coalesced(s) == acc.push(x));
            if coalesced(s) == seq![Instr::Add(1 as nat)] {
                assert(acc.push(x)[0] == x);
                assert(x == Instr::Add(1 as nat));
                assert(s =~= seq![Instr::Add(1 as nat)]);
            }
            if coalesced(s) == seq![Instr::Sub(1 as nat)] {
                assert(acc.push(x)[0] == x);
                assert(x == Instr::Sub(1 as nat));
                assert(s =~= seq![Instr::Sub(1 as nat)]);
            }
        } else {
            crate::program::lemma_seq_wf_index(acc);
            lemma_coalesced_wf(s.drop_last());
            match merged(acc.last(), x) {
                Some(m) => {
                    assert(coalesced(s) == acc.drop_last().push(m));
                    assert(crate::program::instr_wf(acc[acc.len() - 1]));
                    assert(crate::program::instr_wf(x));
                    assert(!(m == Instr::Add(1 as nat)));
                    assert(!(m == Instr::Sub(1 as nat)));
                    if coalesced(s) == seq![Instr::Add(1 as nat)] {
                        assert(coalesced(s)[0] == m);
                    }
                    if coalesced(s) == seq![Instr::Sub(1 as nat)] {
                        assert(coalesced(s)[0] == m);
                    }
                },
                None => {
                    assert(coalesced(s) == acc.push(x));
                    assert(coalesced(s).len() >= 2);
                },
            }
        }
    }
}

/// The merge rule specialized to executable instructions.
fn merge_pair(a: &Instruction, b: &Instruction) -> (r: Option<Instruction>)
    ensures
        match r {
            Some(m) => merged(a@, b@) == Some(m@),
            None => merged(a@, b@) is None,
        },
{
    match (a, b) {
        (Instruction::MoveRight(x), Instruction::MoveRight(y)) => if *x <= usize::MAX - *y {
            Some(Instruction::MoveRight(*x + *y))
        } else {
            None
        },
        (Instruction::MoveLeft(x), Instruction::MoveLeft(y)) => if *x <= usize::MAX - *y {
            Some(Instruction::MoveLeft(*x + *y))
        } else {
            None
        },
        (Instruction::Add(x), Instruction::Add(y)) => if *x <= usize::MAX - *y {
            Some(Instruction::Add(*x + *y))
        } else {
            None
        },
        (Instruction::Sub(x), Instruction::Sub(y)) => if *x <= usize::MAX - *y {
            Some(Instruction::Sub(*x + *y))
        } else {
            None
        },
        (Instruction::Store(_), Instruction::Store(y)) => Some(Instruction::Store(*y)),
        _ => None,
    }
}

/// Rewrites the vector to its coalesced form in place, compacting with a
/// write cursor that trails the read cursor.
pub fn coalesce(elements: &mut Vec<Instruction>)
    ensures
        seq_view(final(elements)@) == coalesced(seq_view(old(elements)@)),
{
    let ghost orig = seq_view(old(elements)@);
    proof {
        lemma_seq_view_index(old(elements)@);
    }
    if elements.is_empty() {
        proof {
            assert(orig =~= Seq::<Instr>::empty());
            assert(seq_view(elements@) =~= Seq::<Instr>::empty());
        }
        return ;
    }
    let mut write: usize = 0;
    let mut read: usize = 1;
    proof {
        assert(coalesced(Seq::<Instr>::empty()) == Seq::<Instr>::empty());
        assert(seq_view(Seq::<Instruction>::empty()) == Seq::<Instr>::empty());
        assert(orig.take(1).drop_last() =~= Seq::<Instr>::empty());
        assert(orig.take(1).last() == orig[0]);
        assert(coalesced(orig.take(1)) == Seq::<Instr>::empty().push(orig[0]));
        assert(elements@.take(1).drop_last() =~= Seq::<Instruction>::empty());
        assert(seq_view(elements@.take(1)) == Seq::<Instr>::empty().push(elements@.take(1).last()@));
        assert(elements@.take(1).last() == elements@[0]);
        assert(elements@[0]@ == orig[0]);
    }
    while read < elements.len()
        invariant
            elements@.len() == old(elements)@.len(),
            orig == seq_view(old(elements)@),
            orig.len() == old(elements)@.len(),
            forall|j: int| 0 <= j < orig.len() ==> orig[j] == old(elements)@[j]@,
            write < read <= elements@.len(),
            seq_view(elements@.take(write + 1)) == coalesced(orig.take(read as int)),
            forall|j: int| read <= j < elements@.len() ==> elements@[j] == old(elements)@[j],
        decreases elements@.len() - read,
    {
        let ghost acc = coalesced(orig.take(read as int));
        proof {
            lemma_seq_view_index(elements@.take(write + 1));
            assert(orig.take(read + 1).drop_last() =~= orig.take(read as int));
            assert(orig.take(read + 1).last() == orig[read as int]);
            assert(coalesced(orig.take(read + 1)) == coalesce_push(acc, orig[read as int]));
            assert(acc.len() == write + 1);
            assert(acc.last() == seq_view(elements@.take(write + 1)).last());
            assert(elements@.take(write + 1)[write as int] == elements@[write as int]);
            assert(acc.last() == elements@[write as int]@);
            assert(elements@[read as int]@ == orig[read as int]);
        }
        match merge_pair(&elements[write], &elements[read]) {
            Some(m) => {
                proof {
                    assert(merged(acc.last(), orig[read as int]) == Some(m@));
                }
                elements.set(write, m);
                proof {
                    lemma_seq_view_index(elements@.take(write + 1));
                    assert(seq_view(elements@.take(write + 1)) =~= acc.drop_last().push(m@));
                }
            },
            None => {
                let kept = elements[read].clone();
                write = write + 1;
                elements.set(write, kept);
                proof {
                    lemma_seq_view_index(elements@.take(write + 1));
                    assert(seq_view(elements@.take(write + 1)) =~= acc.push(
                        old(elements)@[read as int]@,
                    ));
                }
            },
        }
        read = read + 1;
    }
    proof {
        assert(orig.take(orig.len() as int) =~= orig);
    }
    let ghost before_truncate = elements@;
    elements.truncate(write + 1);
    proof {
        assert(elements@ == before_truncate.take(write + 1));
        assert(seq_view(elements@) == coalesced(orig));
    }
}

} // verus!
