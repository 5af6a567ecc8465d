//! Linking for the flat machine: commands become unit instructions, and a
//! single scan resolves each bracket pair into mutual jump targets.

use vstd::prelude::*;
use vstd::pervasive::VecAdditionalExecFns;

use crate::lexer::Command;
use crate::vm::Instruction;

verus! {

broadcast use vstd::std_specs::vec::group_vec_axioms, vstd::seq::group_seq_axioms;

/// A linking failure: the brackets of the program are not balanced.
#[derive(Debug)]
pub enum Error {
    Syntax(String),
}

/// The unit instruction one command stands for; brackets start with
/// placeholder targets that linking resolves.
pub open spec fn unit_instr(c: Command) -> Instruction {
    match c {
        Command::MoveRight => Instruction::MoveRight(1),
        Command::MoveLeft => Instruction::MoveLeft(1),
        Command::Add => Instruction::Add(1),
        Command::Sub => Instruction::Sub(1),
        Command::JumpIfZero => Instruction::JumpIfZero(0),
        Command::JumpIfNotZero => Instruction::JumpIfNotZero(0),
        Command::Print => Instruction::Print,
        Command::Read => Instruction::Read,
    }
}

/// The unit instructions of a command sequence, in order.
pub open spec fn units(cs: Seq<Command>) -> Seq<Instruction> {
    cs.map_values(|c: Command| unit_instr(c))
}

/// How the linking scan ends: the whole program scanned, with the indices
/// of still-unmatched opening brackets; or a closing bracket found with
/// nothing to match it, at the given position.
pub enum LinkScan {
    Complete(Seq<Instruction>, Seq<usize>),
    UnexpectedClose(Seq<Instruction>, int),
}

/// The linking scan from position `k` with the unmatched opening brackets
/// collected so far: an opening bracket is stacked, a closing bracket pops
/// its partner and the two are rewritten to point at each other.
pub open spec fn link_scan(prog: Seq<Instruction>, stack: Seq<usize>, k: int) -> LinkScan
    decreases prog.len() - k,
    via link_scan_decreases
{
    if k < 0 || k >= prog.len() {
        LinkScan::Complete(prog, stack)
    } else {
        match prog[k] {
            Instruction::JumpIfZero(_) => link_scan(prog, stack.push(k as usize), k + 1),
            Instruction::JumpIfNotZero(_) => if stack.len() == 0 {
                LinkScan::UnexpectedClose(prog, k)
            } else {
                let j = stack.last();
                let rewritten = if (j as int) < prog.len() {
                    prog.update(k, Instruction::JumpIfNotZero(j)).update(
                        j as int,
                        Instruction::JumpIfZero(k as usize),
                    )
                } else {
                    prog
                };
                link_scan(rewritten, stack.drop_last(), k + 1)
            },
            _ => link_scan(prog, stack, k + 1),
        }
    }
}

#[via_fn]
proof fn link_scan_decreases(prog: Seq<Instruction>, stack: Seq<usize>, k: int) {
    if 0 <= k < prog.len() {
        match prog[k] {
            Instruction::JumpIfNotZero(_) => {
                if stack.len() > 0 {
                    let j = stack.last();
                    if (j as int) < prog.len() {
                        assert(prog.update(k, Instruction::JumpIfNotZero(j)).update(
                            j as int,
                            Instruction::JumpIfZero(k as usize),
                        ).len() == prog.len());
                    }
                }
            },
            _ => {},
        }
    }
}

/// Every already scanned position carries an in-range jump target, except
/// the opening brackets still waiting on the stack.
spec fn scanned_wf(prog: Seq<Instruction>, stack: Seq<usize>, k: int) -> bool {
    forall|i: int|
        0 <= i < k ==> match #[trigger] prog[i] {
            Instruction::JumpIfZero(t) => (exists|u: int|
                0 <= u < stack.len() && stack[u] == i) || t < prog.len(),
            Instruction::JumpIfNotZero(t) => t < prog.len(),
            _ => true,
        }
}

/// A completed scan that matched every bracket leaves every jump target
/// pointing into the program.
proof fn lemma_link_scan_jumps_wf(prog: Seq<Instruction>, stack: Seq<usize>, k: int)
    requires
        0 <= k,
        scanned_wf(prog, stack, k),
        forall|u: int| 0 <= u < stack.len() ==> (#[trigger] stack[u]) < k,
    ensures
        match link_scan(prog, stack, k) {
            LinkScan::Complete(p, st) => st.len() == 0 ==> crate::vm::jumps_wf(p),
            LinkScan::UnexpectedClose(_, _) => true,
        },
    decreases prog.len() - k,
{
    if k >= prog.len() {
        if stack.len() == 0 {
            assert forall|i: int| 0 <= i < prog.len() implies match #[trigger] prog[i] {
                Instruction::JumpIfZero(j) => j < prog.len(),
                Instruction::JumpIfNotZero(j) => j < prog.len(),
                _ => true,
            } by {
                assert(i < k);
            }
        }
    } else {
        match prog[k] {
            Instruction::JumpIfZero(_) => {
                let stack2 = stack.push(k as usize);
                assert forall|i: int| 0 <= i < k + 1 implies match #[trigger] prog[i] {
                    Instruction::JumpIfZero(t) => (exists|u: int|
                        0 <= u < stack2.len() && stack2[u] == i) || t < prog.len(),
                    Instruction::JumpIfNotZero(t) => t < prog.len(),
                    _ => true,
                } by {
                    if i == k {
                        assert(stack2[stack2.len() - 1] == k as usize);
                    } else {
                        match prog[i] {
                            Instruction::JumpIfZero(t) => {
                                if exists|u: int| 0 <= u < stack.len() && stack[u] == i {
                                    let u = choose|u: int|
                                        0 <= u < stack.len() && stack[u] == i;
                                    assert(stack2[u] == i);
                                }
                            },
                            _ => {},
                        }
                    }
                }
                lemma_link_scan_jumps_wf(prog, stack2, k + 1);
            },
            Instruction::JumpIfNotZero(_) => {
                if stack.len() > 0 {
                    let j = stack.last();
                    assert(j < k);
                    let p2 = prog.update(k, Instruction::JumpIfNotZero(j)).update(
                        j as int,
                        Instruction::JumpIfZero(k as usize),
                    );
                    assert(p2.len() == prog.len());
                    let stack2 = stack.drop_last();
                    assert forall|i: int| 0 <= i < k + 1 implies match #[trigger] p2[i] {
                        Instruction::JumpIfZero(t) => (exists|u: int|
                            0 <= u < stack2.len() && stack2[u] == i) || t < p2.len(),
                        Instruction::JumpIfNotZero(t) => t < p2.len(),
                        _ => true,
                    } by {
                        if i == k {
                            assert(p2[i] == Instruction::JumpIfNotZero(j));
                        } else if i == j {
                            assert(p2[i] == Instruction::JumpIfZero(k as usize));
                        } else {
                            assert(p2[i] == prog[i]);
                            match prog[i] {
                                Instruction::JumpIfZero(t) => {
                                    if exists|u: int| 0 <= u < stack.len() && stack[u] == i {
                                        let u = choose|u: int|
                                            0 <= u < stack.len() && stack[u] == i;
                                        assert(u < stack.len() - 1);
                                        assert(stack2[u] == i);
                                    }
                                },
                                _ => {},
                            }
                        }
                    }
                    lemma_link_scan_jumps_wf(p2, stack2, k + 1);
                }
            },
            _ => {
                lemma_link_scan_jumps_wf(prog, stack, k + 1);
            },
        }
    }
}

/// Resolves every bracket pair of the program in place and returns the
/// linked program; fails exactly when the scan meets an unmatched closing
/// bracket or leaves an opening bracket unmatched, with a distinct message
/// for each.
pub fn link_loops(program: &mut Vec<Instruction>) -> (r: Result<Vec<Instruction>, Error>)
    ensures
        ({
            let scan = link_scan(old(program)@, Seq::empty(), 0);
            match r {
                Ok(p) => scan == LinkScan::Complete(final(program)@, Seq::<usize>::empty())
                    && p@ == final(program)@ && crate::vm::jumps_wf(p@),
                Err(Error::Syntax(m)) => match scan {
                    LinkScan::Complete(p, st) => st.len() > 0 && final(program)@ == p && m@
                        == "Opening bracket missing closing bracket"@,
                    LinkScan::UnexpectedClose(p, _) => final(program)@ == p && m@
                        == "Unexpected closing bracket"@,
                },
            }
        }),
{
    let mut jump_stack: Vec<usize> = Vec::new();
    let mut i: usize = 0;
    while i < program.len()
        invariant
            i <= program@.len(),
            forall|t: int| 0 <= t < jump_stack@.len() ==> #[trigger] jump_stack@[t] < i,
            link_scan(program@, jump_stack@, i as int) == link_scan(
                old(program)@,
                Seq::<usize>::empty(),
                0,
            ),
        decreases program@.len() - i,
    {
        let ghost prev_prog = program@;
        let ghost prev_stack = jump_stack@;
        match program[i] {
            Instruction::JumpIfZero(_) => {
                jump_stack.push(i);
            },
            Instruction::JumpIfNotZero(_) => {
                match jump_stack.pop() {
                    Some(jump_index) => {
                        proof {
                            assert(jump_index == prev_stack.last());
                            assert(jump_stack@ == prev_stack.drop_last());
                        }
                        program.set(i, Instruction::JumpIfNotZero(jump_index));
                        program.set(jump_index, Instruction::JumpIfZero(i));
                        proof {
                            assert(program@ == prev_prog.update(
                                i as int,
                                Instruction::JumpIfNotZero(jump_index),
                            ).update(jump_index as int, Instruction::JumpIfZero(i)));
                        }
                    },
                    None => {
                        proof {
                            assert(link_scan(prev_prog, prev_stack, i as int)
                                == LinkScan::UnexpectedClose(prev_prog, i as int));
                        }
                        return Err(Error::Syntax("Unexpected closing bracket".to_owned()));
                    },
                }
            },
            _ => {},
        }
        i = i + 1;
    }
    proof {
        assert(link_scan(program@, jump_stack@, i as int) == LinkScan::Complete(
            program@,
            jump_stack@,
        ));
    }
    if jump_stack.len() > 0 {
        return Err(Error::Syntax("Opening bracket missing closing bracket".to_owned()));
    }
    proof {
        assert(jump_stack@ =~= Seq::<usize>::empty());
        lemma_link_scan_jumps_wf(old(program)@, Seq::empty(), 0);
    }
    let copy = vstd::slice::slice_to_vec(program.as_slice());
    Ok(copy)
}

/// Turns a command sequence into a linked flat program: each command
/// becomes its unit instruction and the brackets are resolved as
/// [`link_loops`] describes.
pub fn parse(commands: Vec<Command>) -> (r: Result<Vec<Instruction>, Error>)
    ensures
        ({
            let scan = link_scan(units(commands@), Seq::empty(), 0);
            match r {
                Ok(p) => scan matches LinkScan::Complete(linked, st) && st.len() == 0 && p@
                    == linked && crate::vm::jumps_wf(p@),
                Err(Error::Syntax(m)) => match scan {
                    LinkScan::Complete(_, st) => st.len() > 0 && m@
                        == "Opening bracket missing closing bracket"@,
                    LinkScan::UnexpectedClose(_, _) => m@ == "Unexpected closing bracket"@,
                },
            }
        }),
{
    let mut instructions: Vec<Instruction> = Vec::new();
    let mut i: usize = 0;
    while i < commands.len()
        invariant
            i <= commands@.len(),
            instructions@ == units(commands@.take(i as int)),
        decreases commands@.len() - i,
    {
        let node = match commands[i] {
            Command::MoveRight => Instruction::MoveRight(1),
            Command::MoveLeft => Instruction::MoveLeft(1),
            Command::Add => Instruction::Add(1),
            Command::Sub => Instruction::Sub(1),
            Command::JumpIfZero => Instruction::JumpIfZero(0),
            Command::JumpIfNotZero => Instruction::JumpIfNotZero(0),
            Command::Print => Instruction::Print,
            Command::Read => Instruction::Read,
        };
        instructions.push(node);
        proof {
            assert(instructions@ =~= units(commands@.take(i + 1)));
        }
        i = i + 1;
    }
    proof {
        assert(commands@.take(commands@.len() as int) =~= commands@);
    }
    link_loops(&mut instructions)
}

} // verus!
