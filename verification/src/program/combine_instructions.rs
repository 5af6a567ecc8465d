//! The first rewrite of an optimizer pass: coalesce adjacent compatible
//! instructions at every nesting level, loop bodies included.

use vstd::prelude::*;

use crate::program::util::{coalesce, coalesced};
use crate::program::{lemma_seq_view_index, lemma_seq_view_push, seq_view, Instr, Instruction};

verus! {

broadcast use vstd::std_specs::vec::group_vec_axioms, vstd::seq::group_seq_axioms;

/// The combined form of one node: a loop's body is combined recursively,
/// every other node is untouched.
pub open spec fn combined_instr(i: Instr) -> Instr
    decreases i, 2int,
{
    match i {
        Instr::Loop(b) => Instr::Loop(combined(b)),
        _ => i,
    }
}

/// The combined forms of the nodes of a sequence, element by element,
/// before the sequence itself is coalesced.
pub open spec fn children_combined(s: Seq<Instr>) -> Seq<Instr>
    decreases s, 0int,
{
    if s.len() == 0 {
        Seq::empty()
    } else {
        children_combined(s.drop_last()).push(combined_instr(s.last()))
    }
}

/// The combined form of a sequence: every loop body combined recursively,
/// then the sequence itself coalesced.
pub open spec fn combined(s: Seq<Instr>) -> Seq<Instr>
    decreases s, 1int,
{
    coalesced(children_combined(s))
}

/// The per-node rewrite of combining maps the sequence element by element.
pub proof fn lemma_children_index(s: Seq<Instr>)
    ensures
        children_combined(s).len() == s.len(),
        forall|i: int|
            0 <= i < s.len() ==> children_combined(s)[i] == combined_instr(#[trigger] s[i]),
    decreases s.len(),
{
    if s.len() > 0 {
        lemma_children_index(s.drop_last());
        assert forall|i: int| 0 <= i < s.len() implies children_combined(s)[i] == combined_instr(
            s[i],
        ) by {
            if i < s.len() - 1 {
                assert(s.drop_last()[i] == s[i]);
                assert(children_combined(s)[i] == children_combined(s.drop_last())[i]);
            } else {
                assert(s.last() == s[i]);
            }
        }
    }
}

/// Combining one node keeps it well formed.
pub proof fn lemma_combined_instr_wf(i: Instr)
    requires
        crate::program::instr_wf(i),
    ensures
        crate::program::instr_wf(combined_instr(i)),
    decreases i, 2int,
{
    match i {
        Instr::Loop(b) => {
            lemma_combined_wf(b);
        },
        _ => {},
    }
}

/// Combining keeps the sequence well formed.
pub proof fn lemma_combined_wf(s: Seq<Instr>)
    requires
        crate::program::seq_wf(s),
    ensures
        crate::program::seq_wf(combined(s)),
    decreases s, 1int,
{
    crate::program::lemma_seq_wf_index(s);
    lemma_children_index(s);
    crate::program::lemma_seq_wf_index(children_combined(s));
    assert forall|i: int| 0 <= i < children_combined(s).len() implies crate::program::instr_wf(
        #[trigger] children_combined(s)[i],
    ) by {
        lemma_combined_instr_wf(s[i]);
    }
    crate::program::util::lemma_coalesced_wf(children_combined(s));
}

/// The combined form of one node is fully merged.
pub proof fn lemma_combined_instr_fm(i: Instr)
    ensures
        crate::program::util::fm_instr(combined_instr(i)),
    decreases i, 2int,
{
    match i {
        Instr::Loop(b) => {
            lemma_combined_fm(b);
        },
        _ => {},
    }
}

/// The combined form of a sequence is fully merged: coalescing leaves no
/// adjacent mergeable pair, and every loop body below was combined first.
pub proof fn lemma_combined_fm(s: Seq<Instr>)
    ensures
        crate::program::util::fully_merged(combined(s)),
    decreases s, 1int,
{
    lemma_children_index(s);
    crate::program::util::lemma_elements_fm_index(children_combined(s));
    assert forall|i: int|
        0 <= i < children_combined(s).len() implies crate::program::util::fm_instr(
        #[trigger] children_combined(s)[i],
    ) by {
        lemma_combined_instr_fm(s[i]);
    }
    crate::program::util::lemma_coalesced_fm_elements(children_combined(s));
    crate::program::util::lemma_coalesced_no_adjacent(children_combined(s));
}

/// Combining a fully merged node changes nothing.
pub proof fn lemma_combined_instr_identity(i: Instr)
    requires
        crate::program::util::fm_instr(i),
    ensures
        combined_instr(i) == i,
    decreases i, 2int,
{
    match i {
        Instr::Loop(b) => {
            lemma_combined_identity(b);
        },
        _ => {},
    }
}

/// Combining a fully merged sequence changes nothing.
pub proof fn lemma_combined_identity(s: Seq<Instr>)
    requires
        crate::program::util::fully_merged(s),
    ensures
        combined(s) == s,
    decreases s, 1int,
{
    lemma_children_index(s);
    crate::program::util::lemma_elements_fm_index(s);
    assert forall|i: int| 0 <= i < s.len() implies children_combined(s)[i] == s[i] by {
        lemma_combined_instr_identity(s[i]);
    }
    assert(children_combined(s) =~= s);
    crate::program::util::lemma_coalesce_fixed(s);
}

/// On a well-formed sequence, combining yields a single magnitude-one
/// arithmetic node only when the sequence was exactly that node.
pub proof fn lemma_combined_unit_singleton(s: Seq<Instr>)
    requires
        crate::program::seq_wf(s),
    ensures
        combined(s) == seq![Instr::Add(1 as nat)] ==> s == seq![Instr::Add(1 as nat)],
        combined(s) == seq![Instr::Sub(1 as nat)] ==> s == seq![Instr::Sub(1 as nat)],
    decreases s, 1int,
{
    crate::program::lemma_seq_wf_index(s);
    lemma_children_index(s);
    crate::program::lemma_seq_wf_index(children_combined(s));
    assert forall|i: int| 0 <= i < children_combined(s).len() implies crate::program::instr_wf(
        #[trigger] children_combined(s)[i],
    ) by {
        lemma_combined_instr_wf(s[i]);
    }
    crate::program::util::lemma_coalesced_unit_singleton(children_combined(s));
    assert(seq![Instr::Add(1 as nat)][0] == Instr::Add(1 as nat));
    assert(seq![Instr::Sub(1 as nat)][0] == Instr::Sub(1 as nat));
    if combined(s) == seq![Instr::Add(1 as nat)] {
        assert(children_combined(s) == seq![Instr::Add(1 as nat)]);
        assert(s.len() == 1);
        assert(combined_instr(s[0]) == Instr::Add(1 as nat));
        assert(s[0] == Instr::Add(1 as nat));
        assert(s =~= seq![Instr::Add(1 as nat)]);
    }
    if combined(s) == seq![Instr::Sub(1 as nat)] {
        assert(children_combined(s) == seq![Instr::Sub(1 as nat)]);
        assert(s.len() == 1);
        assert(combined_instr(s[0]) == Instr::Sub(1 as nat));
        assert(s[0] == Instr::Sub(1 as nat));
        assert(s =~= seq![Instr::Sub(1 as nat)]);
    }
}

/// Coalescing keeps a sequence of fold-free nodes fold-free: a merge
/// result is never a loop.
proof fn lemma_coalesced_nf_elements(s: Seq<Instr>)
    requires
        crate::program::clear_loop::no_fold(s),
    ensures
        crate::program::clear_loop::no_fold(coalesced(s)),
    decreases s,
{
    crate::program::clear_loop::lemma_no_fold_index(s);
    if s.len() > 0 {
        assert forall|i: int|
            0 <= i < s.drop_last().len() implies crate::program::clear_loop::nf_instr(
            #[trigger] s.drop_last()[i],
        ) by {
            assert(s.drop_last()[i] == s[i]);
        }
        crate::program::clear_loop::lemma_no_fold_index(s.drop_last());
        lemma_coalesced_nf_elements(s.drop_last());
        let acc = coalesced(s.drop_last());
        let x = s.last();
        crate::program::clear_loop::lemma_no_fold_index(acc);
        crate::program::clear_loop::lemma_no_fold_index(coalesced(s));
        if acc.len() > 0 {
            match crate::program::util::merged(acc.last(), x) {
                Some(m) => {
                    assert(!(m matches Instr::Loop(_)));
                    assert forall|i: int|
                        0 <= i < coalesced(s).len() implies crate::program::clear_loop::nf_instr(
                        #[trigger] coalesced(s)[i],
                    ) by {
                        if i < coalesced(s).len() - 1 {
                            assert(coalesced(s)[i] == acc[i]);
                        } else {
                            assert(coalesced(s)[i] == m);
                        }
                    }
                },
                None => {
                    assert forall|i: int|
                        0 <= i < coalesced(s).len() implies crate::program::clear_loop::nf_instr(
                        #[trigger] coalesced(s)[i],
                    ) by {
                        if i < coalesced(s).len() - 1 {
                            assert(coalesced(s)[i] == acc[i]);
                        } else {
                            assert(coalesced(s)[i] == x);
                        }
                    }
                },
            }
        } else {
            assert(coalesced(s) == acc.push(x));
        }
    }
}

/// Combining a well-formed fold-free node keeps it fold-free: merged
/// magnitudes are at least 2, so no body becomes foldable.
pub proof fn lemma_combined_instr_nf(i: Instr)
    requires
        crate::program::instr_wf(i),
        crate::program::clear_loop::nf_instr(i),
    ensures
        crate::program::clear_loop::nf_instr(combined_instr(i)),
    decreases i, 2int,
{
    match i {
        Instr::Loop(b) => {
            lemma_combined_nf(b);
            lemma_combined_unit_singleton(b);
        },
        _ => {},
    }
}

/// Combining a well-formed fold-free sequence keeps it fold-free.
pub proof fn lemma_combined_nf(s: Seq<Instr>)
    requires
        crate::program::seq_wf(s),
        crate::program::clear_loop::no_fold(s),
    ensures
        crate::program::clear_loop::no_fold(combined(s)),
    decreases s, 1int,
{
    crate::program::lemma_seq_wf_index(s);
    crate::program::clear_loop::lemma_no_fold_index(s);
    lemma_children_index(s);
    crate::program::clear_loop::lemma_no_fold_index(children_combined(s));
    assert forall|i: int|
        0 <= i < children_combined(s).len() implies crate::program::clear_loop::nf_instr(
        #[trigger] children_combined(s)[i],
    ) by {
        lemma_combined_instr_nf(s[i]);
    }
    lemma_coalesced_nf_elements(children_combined(s));
}

/// The combined form of one executable node.
fn combine_node(node: &Instruction) -> (r: Instruction)
    ensures
        r@ == combined_instr(node@),
    decreases node,
{
    match node {
        Instruction::Loop { body } => Instruction::Loop { body: combine_seq(body) },
        _ => node.clone(),
    }
}

/// The combined form of an executable instruction vector.
fn combine_seq(v: &Vec<Instruction>) -> (r: Vec<Instruction>)
    ensures
        seq_view(r@) == combined(seq_view(v@)),
    decreases v,
{
    let ghost sv = seq_view(v@);
    proof {
        lemma_seq_view_index(v@);
    }
    let mut out: Vec<Instruction> = Vec::new();
    let mut i: usize = 0;
    while i < v.len()
        invariant
            i <= v.len(),
            sv == seq_view(v@),
            sv.len() == v@.len(),
            forall|j: int| 0 <= j < sv.len() ==> sv[j] == v@[j]@,
            seq_view(out@) == children_combined(sv.take(i as int)),
        decreases v.len() - i,
    {
        let node = combine_node(&v[i]);
        proof {
            assert(sv.take(i + 1).drop_last() =~= sv.take(i as int));
            assert(sv.take(i + 1).last() == sv[i as int]);
            assert(children_combined(sv.take(i + 1)) == children_combined(sv.take(i as int)).push(
                combined_instr(sv[i as int]),
            ));
            lemma_seq_view_push(out@, node);
        }
        out.push(node);
        i = i + 1;
    }
    proof {
        assert(sv.take(sv.len() as int) =~= sv);
    }
    coalesce(&mut out);
    out
}

/// Coalesces adjacent compatible instructions at every nesting level of the
/// sequence, in place.
pub fn optimize(instructions: &mut Vec<Instruction>)
    ensures
        seq_view(final(instructions)@) == combined(seq_view(old(instructions)@)),
{
    let result = combine_seq(instructions);
    *instructions = result;
}

} // verus!
