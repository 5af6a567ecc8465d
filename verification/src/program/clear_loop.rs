//! The second rewrite of an optimizer pass: fold every loop whose body is
//! exactly one magnitude-one increment or decrement into a stored zero.
//! Under wrapping byte arithmetic such a loop always drives its cell to
//! zero, so the fusion preserves semantics; any other body shape is left
//! alone and only recursed into.

use vstd::prelude::*;

use crate::program::{lemma_seq_view_index, lemma_seq_view_push, seq_view, Instr, Instruction};

verus! {

broadcast use vstd::std_specs::vec::group_vec_axioms, vstd::seq::group_seq_axioms;

/// The model body shapes that fold: a single `Add(1)` or a single `Sub(1)`.
pub open spec fn foldable_body(b: Seq<Instr>) -> bool {
    b == seq![Instr::Add(1 as nat)] || b == seq![Instr::Sub(1 as nat)]
}

/// The cleared form of one node: a loop with a foldable body becomes a
/// stored zero, any other loop keeps its shape and is recursed into, and
/// every other node is untouched.
pub open spec fn cleared_instr(i: Instr) -> Instr
    decreases i, 1int,
{
    match i {
        Instr::Loop(b) => if foldable_body(b) {
            Instr::Store(0)
        } else {
            Instr::Loop(cleared(b))
        },
        _ => i,
    }
}

/// The cleared forms of the nodes of a sequence, element by element.
pub open spec fn cleared(s: Seq<Instr>) -> Seq<Instr>
    decreases s, 0int,
{
    if s.len() == 0 {
        Seq::empty()
    } else {
        cleared(s.drop_last()).push(cleared_instr(s.last()))
    }
}

/// The cleared form of one executable node.
fn clear_node(node: &Instruction) -> (r: Instruction)
    ensures
        r@ == cleared_instr(node@),
    decreases node,
{
    match node {
        Instruction::Loop { body } => {
            let foldable = if body.len() == 1 {
                match &body[0] {
                    Instruction::Add(n) => *n == 1,
                    Instruction::Sub(n) => *n == 1,
                    _ => false,
                }
            } else {
                false
            };
            proof {
                lemma_seq_view_index(body@);
                assert(seq![Instr::Add(1 as nat)][0] == Instr::Add(1 as nat));
                assert(seq![Instr::Sub(1 as nat)][0] == Instr::Sub(1 as nat));
                if body@.len() == 1 {
                    assert(seq_view(body@) =~= seq![body@[0]@]);
                    assert(seq_view(body@)[0] == body@[0]@);
                }
                if foldable {
                    assert(foldable_body(seq_view(body@)));
                } else {
                    assert(!foldable_body(seq_view(body@)));
                }
            }
            if foldable {
                Instruction::Store(0)
            } else {
                Instruction::Loop { body: clear_seq(body) }
            }
        },
        _ => node.clone(),
    }
}

/// The cleared form of an executable instruction vector.
fn clear_seq(v: &Vec<Instruction>) -> (r: Vec<Instruction>)
    ensures
        seq_view(r@) == cleared(seq_view(v@)),
    decreases v,
{
    let ghost sv = seq_view(v@);
    proof {
        lemma_seq_view_index(v@);
    }
    let mut out: Vec<Instruction> = Vec::new();
    let mut i: usize = 0;
    while i < v.len()
        invariant
            i <= v.len(),
            sv == seq_view(v@),
            sv.len() == v@.len(),
            forall|j: int| 0 <= j < sv.len() ==> sv[j] == v@[j]@,
            seq_view(out@) == cleared(sv.take(i as int)),
        decreases v.len() - i,
    {
        let node = clear_node(&v[i]);
        proof {
            assert(sv.take(i + 1).drop_last() =~= sv.take(i as int));
            assert(sv.take(i + 1).last() == sv[i as int]);
            assert(cleared(sv.take(i + 1)) == cleared(sv.take(i as int)).push(
                cleared_instr(sv[i as int]),
            ));
            lemma_seq_view_push(out@, node);
        }
        out.push(node);
        i = i + 1;
    }
    proof {
        assert(sv.take(sv.len() as int) =~= sv);
    }
    out
}

/// Folds every clear loop at every nesting level of the sequence, in place.
pub fn optimize(instructions: &mut Vec<Instruction>)
    ensures
        seq_view(final(instructions)@) == cleared(seq_view(old(instructions)@)),
{
    let result = clear_seq(instructions);
    *instructions = result;
}

/// A node is fold-free when no loop below it, itself included, has a
/// foldable body.
pub open spec fn nf_instr(i: Instr) -> bool
    decreases i, 1int,
{
    match i {
        Instr::Loop(b) => !foldable_body(b) && no_fold(b),
        _ => true,
    }
}

/// Every node of the sequence is fold-free.
pub open spec fn no_fold(s: Seq<Instr>) -> bool
    decreases s, 0int,
{
    if s.len() == 0 {
        true
    } else {
        no_fold(s.drop_last()) && nf_instr(s.last())
    }
}

/// A sequence is fold-free exactly when each of its nodes is.
pub proof fn lemma_no_fold_index(s: Seq<Instr>)
    ensures
        no_fold(s) <==> (forall|i: int| 0 <= i < s.len() ==> nf_instr(#[trigger] s[i])),
    decreases s.len(),
{
    if s.len() > 0 {
        lemma_no_fold_index(s.drop_last());
        if no_fold(s) {
            assert forall|i: int| 0 <= i < s.len() implies nf_instr(s[i]) by {
                if i < s.len() - 1 {
                    assert(s.drop_last()[i] == s[i]);
                } else {
                    assert(s.last() == s[i]);
                }
            }
        }
        if forall|i: int| 0 <= i < s.len() ==> nf_instr(#[trigger] s[i]) {
            assert forall|i: int| 0 <= i < s.drop_last().len() implies nf_instr(
                s.drop_last()[i],
            ) by {
                assert(s.drop_last()[i] == s[i]);
            }
            assert(nf_instr(s.last()));
        }
    }
}

/// Clearing maps the sequence element by element.
pub proof fn lemma_cleared_index(s: Seq<Instr>)
    ensures
        cleared(s).len() == s.len(),
        forall|i: int| 0 <= i < s.len() ==> cleared(s)[i] == cleared_instr(#[trigger] s[i]),
    decreases s.len(),
{
    if s.len() > 0 {
        lemma_cleared_index(s.drop_last());
        assert forall|i: int| 0 <= i < s.len() implies cleared(s)[i] == cleared_instr(
            s[i],
        ) by {
            if i < s.len() - 1 {
                assert(s.drop_last()[i] == s[i]);
                assert(cleared(s)[i] == cleared(s.drop_last())[i]);
            } else {
                assert(s.last() == s[i]);
            }
        }
    }
}

/// Clearing a node yields a magnitude-one arithmetic node only if the node
/// already was one.
proof fn lemma_cleared_instr_unit(i: Instr)
    ensures
        cleared_instr(i) == Instr::Add(1 as nat) ==> i == Instr::Add(1 as nat),
        cleared_instr(i) == Instr::Sub(1 as nat) ==> i == Instr::Sub(1 as nat),
{
}

/// Clearing one node keeps it well formed.
pub proof fn lemma_cleared_instr_wf(i: Instr)
    requires
        crate::program::instr_wf(i),
    ensures
        crate::program::instr_wf(cleared_instr(i)),
    decreases i, 1int,
{
    match i {
        Instr::Loop(b) => {
            if !foldable_body(b) {
                lemma_cleared_wf(b);
            }
        },
        _ => {},
    }
}

/// Clearing keeps the sequence well formed.
pub proof fn lemma_cleared_wf(s: Seq<Instr>)
    requires
        crate::program::seq_wf(s),
    ensures
        crate::program::seq_wf(cleared(s)),
    decreases s, 0int,
{
    crate::program::lemma_seq_wf_index(s);
    crate::program::lemma_seq_wf_index(cleared(s));
    lemma_cleared_index(s);
    assert forall|i: int| 0 <= i < cleared(s).len() implies crate::program::instr_wf(
        #[trigger] cleared(s)[i],
    ) by {
        lemma_cleared_instr_wf(s[i]);
    }
}

/// After one clearing sweep no foldable loop remains anywhere: every body
/// that was foldable became a stored zero, and clearing cannot make a body
/// foldable.
pub proof fn lemma_cleared_instr_nf(i: Instr)
    ensures
        nf_instr(cleared_instr(i)),
    decreases i, 1int,
{
    match i {
        Instr::Loop(b) => {
            if !foldable_body(b) {
                lemma_cleared_nf(b);
                lemma_cleared_index(b);
                assert(seq![Instr::Add(1 as nat)][0] == Instr::Add(1 as nat));
                assert(seq![Instr::Sub(1 as nat)][0] == Instr::Sub(1 as nat));
                if foldable_body(cleared(b)) {
                    assert(cleared(b).len() == 1);
                    assert(cleared(b)[0] == cleared_instr(b[0]));
                    lemma_cleared_instr_unit(b[0]);
                    assert(b =~= seq![b[0]]);
                    assert(foldable_body(b));
                }
            }
        },
        _ => {},
    }
}

/// After one clearing sweep the whole sequence is fold-free.
pub proof fn lemma_cleared_nf(s: Seq<Instr>)
    ensures
        no_fold(cleared(s)),
    decreases s, 0int,
{
    lemma_no_fold_index(cleared(s));
    lemma_cleared_index(s);
    assert forall|i: int| 0 <= i < cleared(s).len() implies nf_instr(
        #[trigger] cleared(s)[i],
    ) by {
        lemma_cleared_instr_nf(s[i]);
    }
}

/// Clearing a fold-free node changes nothing.
pub proof fn lemma_cleared_instr_identity(i: Instr)
    requires
        nf_instr(i),
    ensures
        cleared_instr(i) == i,
    decreases i, 1int,
{
    match i {
        Instr::Loop(b) => {
            lemma_cleared_identity(b);
        },
        _ => {},
    }
}

/// Clearing a fold-free sequence changes nothing.
pub proof fn lemma_cleared_identity(s: Seq<Instr>)
    requires
        no_fold(s),
    ensures
        cleared(s) == s,
    decreases s, 0int,
{
    lemma_no_fold_index(s);
    lemma_cleared_index(s);
    assert forall|i: int| 0 <= i < s.len() implies cleared(s)[i] == s[i] by {
        lemma_cleared_instr_identity(s[i]);
    }
    assert(cleared(s) =~= s);
}

/// A loop body folds to a stored zero exactly when it is a single
/// magnitude-one increment or decrement: both unit shapes fold, a single
/// arithmetic node of any larger magnitude stays, and a body of two or more
/// nodes stays.
pub proof fn lemma_fold_only_unit(n: nat, b: Seq<Instr>)
    ensures
        cleared_instr(Instr::Loop(seq![Instr::Add(1 as nat)])) == Instr::Store(0),
        cleared_instr(Instr::Loop(seq![Instr::Sub(1 as nat)])) == Instr::Store(0),
        n > 1 ==> cleared_instr(Instr::Loop(seq![Instr::Add(n)])) == Instr::Loop(
            seq![Instr::Add(n)],
        ),
        n > 1 ==> cleared_instr(Instr::Loop(seq![Instr::Sub(n)])) == Instr::Loop(
            seq![Instr::Sub(n)],
        ),
        b.len() >= 2 ==> cleared_instr(Instr::Loop(b)) == Instr::Loop(cleared(b)),
{
    assert(cleared(Seq::<Instr>::empty()) == Seq::<Instr>::empty());
    assert(seq![Instr::Add(1 as nat)][0] == Instr::Add(1 as nat));
    assert(seq![Instr::Sub(1 as nat)][0] == Instr::Sub(1 as nat));
    if n > 1 {
        let a = seq![Instr::Add(n)];
        assert(a[0] == Instr::Add(n));
        assert(!foldable_body(a));
        assert(a.drop_last() =~= Seq::<Instr>::empty());
        assert(a.last() == Instr::Add(n));
        assert(cleared(a) == Seq::<Instr>::empty().push(cleared_instr(Instr::Add(n))));
        assert(cleared(a) =~= a);
        let s = seq![Instr::Sub(n)];
        assert(s[0] == Instr::Sub(n));
        assert(!foldable_body(s));
        assert(s.drop_last() =~= Seq::<Instr>::empty());
        assert(s.last() == Instr::Sub(n));
        assert(cleared(s) == Seq::<Instr>::empty().push(cleared_instr(Instr::Sub(n))));
        assert(cleared(s) =~= s);
    }
    if b.len() >= 2 {
        assert(!foldable_body(b));
    }
}

} // verus!
