//! Structural parsing: turns the flat command sequence of a source text into
//! the tree-shaped representation, resolving bracket nesting with a stack of
//! instruction sequences under construction.

use vstd::prelude::*;

use crate::lexer::{lex, commands_of, Command};
use crate::program::{seq_view, Instr, Instruction};

verus! {

broadcast use vstd::std_specs::vec::group_vec_axioms, vstd::seq::group_seq_axioms;

/// A parse failure: the brackets of the source text are not balanced.
#[derive(Debug)]
pub enum Error {
    Syntax(String),
}

/// True of the nodes the parser itself builds: displacements and arithmetic
/// deltas of exactly 1, no stored literals, loop bodies recursively of the
/// same shape.
pub open spec fn instr_unit(i: Instr) -> bool
    decreases i,
{
    match i {
        Instr::MoveRight(n) => n == 1,
        Instr::MoveLeft(n) => n == 1,
        Instr::Add(n) => n == 1,
        Instr::Sub(n) => n == 1,
        Instr::Loop(b) => seq_unit(b),
        Instr::Print => true,
        Instr::Read => true,
        Instr::Store(_) => false,
    }
}

/// True when every node of the sequence is a unit node.
pub open spec fn seq_unit(s: Seq<Instr>) -> bool
    decreases s,
{
    if s.len() == 0 {
        true
    } else {
        seq_unit(s.drop_last()) && instr_unit(s.last())
    }
}

/// A unit node is well formed: magnitudes of exactly 1 are in particular
/// at least 1, and no unit node stores a literal.
pub proof fn lemma_unit_instr_wf(i: Instr)
    requires
        instr_unit(i),
    ensures
        crate::program::instr_wf(i),
    decreases i, 0int,
{
    match i {
        Instr::Loop(b) => {
            lemma_unit_seq_wf(b);
        },
        _ => {},
    }
}

/// A unit program is well formed, so everything proved of well-formed
/// programs holds of parser output.
pub proof fn lemma_unit_seq_wf(s: Seq<Instr>)
    requires
        seq_unit(s),
    ensures
        crate::program::seq_wf(s),
    decreases s, 1int,
{
    if s.len() > 0 {
        lemma_unit_seq_wf(s.drop_last());
        lemma_unit_instr_wf(s.last());
    }
}

/// The command sequence a model node stands for: magnitudes expand to that
/// many copies of the command, and a loop wraps its body in one bracket pair.
/// A stored literal has no source syntax and contributes nothing.
pub open spec fn instr_commands(i: Instr) -> Seq<Command>
    decreases i,
{
    match i {
        Instr::MoveRight(n) => Seq::new(n, |j: int| Command::MoveRight),
        Instr::MoveLeft(n) => Seq::new(n, |j: int| Command::MoveLeft),
        Instr::Add(n) => Seq::new(n, |j: int| Command::Add),
        Instr::Sub(n) => Seq::new(n, |j: int| Command::Sub),
        Instr::Loop(b) => seq![Command::JumpIfZero] + seq_commands(b) + seq![
            Command::JumpIfNotZero,
        ],
        Instr::Print => seq![Command::Print],
        Instr::Read => seq![Command::Read],
        Instr::Store(_) => Seq::empty(),
    }
}

/// The command sequence a model program stands for, in order.
pub open spec fn seq_commands(s: Seq<Instr>) -> Seq<Command>
    decreases s,
{
    if s.len() == 0 {
        Seq::empty()
    } else {
        seq_commands(s.drop_last()) + instr_commands(s.last())
    }
}

/// The nesting contribution of one command: an opening bracket deepens the
/// nesting by one, a closing bracket undoes one level, anything else is flat.
pub open spec fn delta(c: Command) -> int {
    match c {
        Command::JumpIfZero => 1,
        Command::JumpIfNotZero => -1,
        _ => 0,
    }
}

/// The total nesting depth change of a command sequence.
pub open spec fn depth(s: Seq<Command>) -> int
    decreases s,
{
    if s.len() == 0 {
        0int
    } else {
        depth(s.drop_last()) + delta(s.last())
    }
}

/// No prefix of the sequence closes more brackets than it has opened.
pub open spec fn prefixes_nonneg(s: Seq<Command>) -> bool {
    forall|i: int| 0 <= i <= s.len() ==> depth(#[trigger] s.take(i)) >= 0
}

/// A command sequence is balanced when its brackets match exactly: no prefix
/// dips below the surface and the whole sequence returns to it.
pub open spec fn balanced(s: Seq<Command>) -> bool {
    depth(s) == 0 && prefixes_nonneg(s)
}

/// Concatenation adds depths.
proof fn lemma_depth_concat(x: Seq<Command>, y: Seq<Command>)
    ensures
        depth(x + y) == depth(x) + depth(y),
    decreases y.len(),
{
    if y.len() == 0 {
        assert(x + y =~= x);
    } else {
        assert((x + y).drop_last() =~= x + y.drop_last());
        assert((x + y).last() == y.last());
        lemma_depth_concat(x, y.drop_last());
    }
}

/// Concatenation preserves balance.
proof fn lemma_balanced_concat(x: Seq<Command>, y: Seq<Command>)
    requires
        balanced(x),
        balanced(y),
    ensures
        balanced(x + y),
{
    lemma_depth_concat(x, y);
    assert forall|k: int| 0 <= k <= (x + y).len() implies depth(#[trigger] (x + y).take(k))
        >= 0 by {
        if k <= x.len() {
            assert((x + y).take(k) =~= x.take(k));
            assert(depth(x.take(k)) >= 0);
        } else {
            assert((x + y).take(k) =~= x + y.take(k - x.len()));
            lemma_depth_concat(x, y.take(k - x.len()));
            assert(depth(y.take(k - x.len())) >= 0);
        }
    }
}

/// The commands of a unit node: at least one of them, and balanced.
proof fn lemma_unit_instr_commands(i: Instr)
    requires
        instr_unit(i),
    ensures
        instr_commands(i).len() >= 1,
        balanced(instr_commands(i)),
    decreases i,
{
    let w = instr_commands(i);
    match i {
        Instr::Loop(b) => {
            lemma_unit_seq_commands(b);
            let opening = seq![Command::JumpIfZero];
            let closing = seq![Command::JumpIfNotZero];
            assert(depth(Seq::<Command>::empty()) == 0);
            assert(opening.drop_last() =~= Seq::<Command>::empty());
            assert(opening.last() == Command::JumpIfZero);
            assert(depth(opening) == 1);
            assert(closing.drop_last() =~= Seq::<Command>::empty());
            assert(closing.last() == Command::JumpIfNotZero);
            assert(depth(closing) == -1);
            lemma_depth_concat(opening, seq_commands(b));
            lemma_depth_concat(opening + seq_commands(b), closing);
            assert(depth(w) == 0);
            assert forall|k: int| 0 <= k <= w.len() implies depth(#[trigger] w.take(k)) >= 0 by {
                if k == 0 {
                    assert(w.take(0) =~= Seq::<Command>::empty());
                } else if k <= 1 + seq_commands(b).len() {
                    assert(w.take(k) =~= opening + seq_commands(b).take(k - 1));
                    lemma_depth_concat(opening, seq_commands(b).take(k - 1));
                    assert(depth(seq_commands(b).take(k - 1)) >= 0);
                } else {
                    assert(w.take(k) =~= w);
                }
            }
        },
        _ => {
            assert(w.len() == 1);
            assert(depth(Seq::<Command>::empty()) == 0);
            assert(w.drop_last() =~= Seq::<Command>::empty());
            assert(delta(w.last()) == 0);
            assert(depth(w) == 0);
            assert forall|k: int| 0 <= k <= w.len() implies depth(#[trigger] w.take(k)) >= 0 by {
                if k == 0 {
                    assert(w.take(0) =~= Seq::<Command>::empty());
                } else {
                    assert(w.take(k) =~= w);
                }
            }
        },
    }
}

/// The commands of a unit program: balanced, and nonempty when the program
/// is.
proof fn lemma_unit_seq_commands(s: Seq<Instr>)
    requires
        seq_unit(s),
    ensures
        balanced(seq_commands(s)),
        s.len() > 0 ==> seq_commands(s).len() >= 1,
    decreases s,
{
    if s.len() == 0 {
        assert(seq_commands(s).take(0) =~= Seq::<Command>::empty());
        assert forall|k: int| 0 <= k <= seq_commands(s).len() implies depth(
            #[trigger] seq_commands(s).take(k),
        ) >= 0 by {
            assert(seq_commands(s).take(k) =~= Seq::<Command>::empty());
        }
    } else {
        lemma_unit_seq_commands(s.drop_last());
        lemma_unit_instr_commands(s.last());
        lemma_balanced_concat(seq_commands(s.drop_last()), instr_commands(s.last()));
    }
}

/// The last command of a unit node's serialization identifies the node: a
/// loop ends in its closing bracket, every other unit node is its own
/// single command, and no unit node ends in an opening bracket.
proof fn lemma_unit_last_cmd(i: Instr)
    requires
        instr_unit(i),
    ensures
        ({
            let l = instr_commands(i).last();
            &&& (l == Command::MoveRight <==> i == Instr::MoveRight(1 as nat))
            &&& (l == Command::MoveLeft <==> i == Instr::MoveLeft(1 as nat))
            &&& (l == Command::Add <==> i == Instr::Add(1 as nat))
            &&& (l == Command::Sub <==> i == Instr::Sub(1 as nat))
            &&& (l == Command::Print <==> i == Instr::Print)
            &&& (l == Command::Read <==> i == Instr::Read)
            &&& (l == Command::JumpIfNotZero <==> i matches Instr::Loop(_))
            &&& l != Command::JumpIfZero
        }),
{
    lemma_unit_instr_commands(i);
    let w = instr_commands(i);
    match i {
        Instr::Loop(b) => {
            assert(w.last() == Command::JumpIfNotZero);
        },
        _ => {
            assert(w.last() == w[0]);
        },
    }
}

/// Serialization is injective on unit programs: a command sequence is the
/// serialization of at most one unit program, so the parser's contract
/// determines its result uniquely.
pub proof fn lemma_serialization_injective(a: Seq<Instr>, b: Seq<Instr>)
    requires
        seq_unit(a),
        seq_unit(b),
        seq_commands(a) == seq_commands(b),
    ensures
        a == b,
    decreases seq_commands(a).len(),
{
    if a.len() == 0 && b.len() == 0 {
        assert(a =~= b);
    } else if a.len() == 0 {
        lemma_unit_seq_commands(b);
        assert(seq_commands(a) == Seq::<Command>::empty());
        assert(false);
    } else if b.len() == 0 {
        lemma_unit_seq_commands(a);
        assert(seq_commands(b) == Seq::<Command>::empty());
        assert(false);
    } else {
        let w = seq_commands(a);
        let a1 = a.last();
        let b1 = b.last();
        let ca = seq_commands(a.drop_last());
        let cb = seq_commands(b.drop_last());
        let wa = instr_commands(a1);
        let wb = instr_commands(b1);
        assert(w == ca + wa);
        assert(seq_commands(b) == cb + wb);
        lemma_unit_instr_commands(a1);
        lemma_unit_instr_commands(b1);
        assert((ca + wa).last() == wa.last());
        assert((cb + wb).last() == wb.last());
        lemma_unit_last_cmd(a1);
        lemma_unit_last_cmd(b1);
        if !(a1 matches Instr::Loop(_)) {
            assert(a1 == b1);
            assert(wa == wb);
            assert(ca.len() == cb.len());
            assert forall|t: int| 0 <= t < ca.len() implies ca[t] == cb[t] by {
                assert((ca + wa)[t] == ca[t]);
                assert((cb + wb)[t] == cb[t]);
            }
            assert(ca =~= cb);
            lemma_serialization_injective(a.drop_last(), b.drop_last());
            assert(a.len() == b.len());
            assert forall|t: int| 0 <= t < a.len() implies a[t] == b[t] by {
                if t < a.len() - 1 {
                    assert(a.drop_last()[t] == a[t]);
                    assert(b.drop_last()[t] == b[t]);
                }
            }
            assert(a =~= b);
        } else {
            match (a1, b1) {
                (Instr::Loop(ba), Instr::Loop(bb)) => {
                    assert(instr_unit(a1));
                    assert(instr_unit(b1));
                    assert(seq_unit(ba));
                    assert(seq_unit(bb));
                    lemma_unit_seq_commands(a.drop_last());
                    lemma_unit_seq_commands(b.drop_last());
                    lemma_unit_seq_commands(ba);
                    lemma_unit_seq_commands(bb);
                    let cba = seq_commands(ba);
                    let cbb = seq_commands(bb);
                    let opening = seq![Command::JumpIfZero];
                    assert(wa == opening + cba + seq![Command::JumpIfNotZero]);
                    assert(wb == opening + cbb + seq![Command::JumpIfNotZero]);
                    assert(w.len() == ca.len() + 1 + cba.len() + 1);
                    assert(w.len() == cb.len() + 1 + cbb.len() + 1);
                    assert(depth(Seq::<Command>::empty()) == 0);
                    assert(opening.drop_last() =~= Seq::<Command>::empty());
                    assert(opening.last() == Command::JumpIfZero);
                    assert(depth(opening) == 1);
                    if ca.len() < cb.len() {
                        let k = cb.len() - ca.len() - 1;
                        assert(0 <= k <= cba.len());
                        assert(w.take(cb.len() as int) =~= ca + opening + cba.take(k as int));
                        lemma_depth_concat(ca, opening);
                        lemma_depth_concat(ca + opening, cba.take(k as int));
                        assert(depth(cba.take(k as int)) >= 0);
                        assert(cb =~= (cb + wb).take(cb.len() as int));
                        assert(depth(cb) >= 1);
                        assert(false);
                    }
                    if cb.len() < ca.len() {
                        let k = ca.len() - cb.len() - 1;
                        assert(0 <= k <= cbb.len());
                        assert(w.take(ca.len() as int) =~= cb + opening + cbb.take(k as int));
                        lemma_depth_concat(cb, opening);
                        lemma_depth_concat(cb + opening, cbb.take(k as int));
                        assert(depth(cbb.take(k as int)) >= 0);
                        assert(ca =~= (ca + wa).take(ca.len() as int));
                        assert(depth(ca) >= 1);
                        assert(false);
                    }
                    assert(ca.len() == cb.len());
                    assert forall|t: int| 0 <= t < ca.len() implies ca[t] == cb[t] by {
                        assert((ca + wa)[t] == ca[t]);
                        assert((cb + wb)[t] == cb[t]);
                    }
                    assert(ca =~= cb);
                    assert(cba.len() == cbb.len());
                    assert forall|t: int| 0 <= t < cba.len() implies cba[t] == cbb[t] by {
                        assert((ca + wa)[ca.len() + 1 + t] == wa[1 + t]);
                        assert(wa[1 + t] == cba[t]);
                        assert((cb + wb)[cb.len() + 1 + t] == wb[1 + t]);
                        assert(wb[1 + t] == cbb[t]);
                    }
                    assert(cba =~= cbb);
                    lemma_serialization_injective(ba, bb);
                    lemma_serialization_injective(a.drop_last(), b.drop_last());
                    assert(a1 == b1);
                    assert(a.len() == b.len());
                    assert forall|t: int| 0 <= t < a.len() implies a[t] == b[t] by {
                        if t < a.len() - 1 {
                            assert(a.drop_last()[t] == a[t]);
                            assert(b.drop_last()[t] == b[t]);
                        }
                    }
                    assert(a =~= b);
                },
                _ => {
                    assert(false);
                },
            }
        }
    }
}

/// Appending one node extends the serialized commands by that node's
/// commands, and preserves unitness accordingly.
proof fn lemma_push_node(s: Seq<Instr>, i: Instr)
    ensures
        seq_commands(s.push(i)) == seq_commands(s) + instr_commands(i),
        seq_unit(s.push(i)) == (seq_unit(s) && instr_unit(i)),
{
    assert(s.push(i).drop_last() =~= s);
    assert(s.push(i).last() == i);
}

/// Pushing an instruction extends the model sequence by its model.
proof fn lemma_view_push(s: Seq<Instruction>, x: Instruction)
    ensures
        seq_view(s.push(x)) == seq_view(s).push(x@),
{
    assert(s.push(x).drop_last() =~= s);
    assert(s.push(x).last() == x);
}

/// Appending one command changes the depth by that command's contribution.
proof fn lemma_depth_push(s: Seq<Command>, c: Command)
    ensures
        depth(s.push(c)) == depth(s) + delta(c),
{
    assert(s.push(c).drop_last() =~= s);
    assert(s.push(c).last() == c);
}

/// The commands of the open loop frames on the parser stack, bottom first:
/// each frame's own commands followed by the opening bracket that began the
/// frame above it.
pub open spec fn stack_commands(st: Seq<Seq<Instr>>) -> Seq<Command>
    decreases st,
{
    if st.len() == 0 {
        Seq::empty()
    } else {
        stack_commands(st.drop_last()) + seq_commands(st.last()) + seq![Command::JumpIfZero]
    }
}

/// Every frame on the parser stack holds unit nodes only.
pub open spec fn stack_unit(st: Seq<Seq<Instr>>) -> bool
    decreases st,
{
    if st.len() == 0 {
        true
    } else {
        stack_unit(st.drop_last()) && seq_unit(st.last())
    }
}

/// The models of the frames of the executable parser stack, bottom first.
pub open spec fn stack_views(st: Seq<Vec<Instruction>>) -> Seq<Seq<Instr>>
    decreases st,
{
    if st.len() == 0 {
        Seq::empty()
    } else {
        stack_views(st.drop_last()).push(seq_view(st.last()@))
    }
}

/// Parses a source text into the instruction tree.
///
/// Succeeds exactly on texts whose bracket commands are balanced; the result
/// is the unique unit program whose serialization is the text's command
/// sequence. A text that closes a bracket it never opened fails with the
/// missing-opening message; one that leaves a bracket open fails with the
/// missing-closing message.
pub fn parse(text: &str) -> (r: Result<Vec<Instruction>, Error>)
    ensures
        ({
            let cmds = commands_of(text@);
            match r {
                Ok(p) => balanced(cmds) && seq_unit(seq_view(p@)) && seq_commands(seq_view(p@))
                    == cmds,
                Err(Error::Syntax(m)) => !balanced(cmds) && (if prefixes_nonneg(cmds) {
                    m@ == "Missing closing bracket"@
                } else {
                    m@ == "Missing opening bracket"@
                }),
            }
        }),
{
    let commands = lex(text);
    let ghost cmds = commands_of(text@);
    let mut instructions: Vec<Instruction> = Vec::new();
    let mut loop_stack: Vec<Vec<Instruction>> = Vec::new();

    let mut k: usize = 0;
    while k < commands.len()
        invariant
            commands@ == cmds,
            cmds == commands_of(text@),
            k <= cmds.len(),
            stack_commands(stack_views(loop_stack@)) + seq_commands(seq_view(instructions@))
                == cmds.take(k as int),
            loop_stack@.len() == depth(cmds.take(k as int)),
            prefixes_nonneg(cmds.take(k as int)),
            stack_unit(stack_views(loop_stack@)),
            seq_unit(seq_view(instructions@)),
        decreases cmds.len() - k,
    {
        let ghost consumed = cmds.take(k as int);
        let ghost prev_stack = loop_stack@;
        let ghost stv = stack_views(loop_stack@);
        let ghost cur = seq_view(instructions@);
        proof {
            assert(cmds.take(k + 1) =~= consumed.push(cmds[k as int]));
            lemma_depth_push(consumed, cmds[k as int]);
        }
        let cmd = commands[k];
        match cmd {
            Command::MoveRight => {
                push_unit(&mut instructions, Instruction::MoveRight(1));
            },
            Command::MoveLeft => {
                push_unit(&mut instructions, Instruction::MoveLeft(1));
            },
            Command::Add => {
                push_unit(&mut instructions, Instruction::Add(1));
            },
            Command::Sub => {
                push_unit(&mut instructions, Instruction::Sub(1));
            },
            Command::Print => {
                push_unit(&mut instructions, Instruction::Print);
            },
            Command::Read => {
                push_unit(&mut instructions, Instruction::Read);
            },
            Command::JumpIfZero => {
                loop_stack.push(instructions);
                instructions = Vec::new();
                proof {
                    assert(loop_stack@.drop_last() =~= prev_stack);
                    assert(loop_stack@.last()@ == prev_stack.push(loop_stack@.last()).last()@);
                    assert(stack_views(loop_stack@) == stv.push(seq_view(loop_stack@.last()@)));
                    assert(seq_view(loop_stack@.last()@) == cur);
                    assert((stv.push(cur)).drop_last() =~= stv);
                    assert(stack_commands(stv.push(cur)) == stack_commands(stv) + seq_commands(cur)
                        + seq![Command::JumpIfZero]);
                    assert(seq_view(instructions@) =~= Seq::<Instr>::empty());
                    assert(stack_commands(stack_views(loop_stack@)) + seq_commands(
                        seq_view(instructions@),
                    ) =~= cmds.take(k + 1));
                    assert(stack_unit(stv.push(cur)));
                }
            },
            Command::JumpIfNotZero => {
                match loop_stack.pop() {
                    Some(mut parent) => {
                        proof {
                            assert(prev_stack.len() > 0);
                            assert(loop_stack@ == prev_stack.drop_last());
                            assert(parent == prev_stack.last());
                            assert(stv == stack_views(prev_stack.drop_last()).push(
                                seq_view(parent@),
                            ));
                            assert(stv.drop_last() =~= stack_views(loop_stack@));
                            assert(stack_commands(stv) == stack_commands(stack_views(loop_stack@))
                                + seq_commands(seq_view(parent@)) + seq![Command::JumpIfZero]);
                            assert(seq_unit(seq_view(parent@)));
                            lemma_push_node(seq_view(parent@), Instr::Loop(cur));
                            lemma_view_push(parent@, Instruction::Loop { body: instructions });
                        }
                        parent.push(Instruction::Loop { body: instructions });
                        instructions = parent;
                        proof {
                            assert(seq_view(instructions@)
                                == seq_view(prev_stack.last()@).push(Instr::Loop(cur)));
                            assert(instr_commands(Instr::Loop(cur)) == seq![Command::JumpIfZero]
                                + seq_commands(cur) + seq![Command::JumpIfNotZero]);
                            assert(stack_commands(stack_views(loop_stack@)) + seq_commands(
                                seq_view(instructions@),
                            ) =~= cmds.take(k + 1));
                        }
                    },
                    None => {
                        proof {
                            assert(depth(cmds.take(k + 1)) == -1);
                            assert(!prefixes_nonneg(cmds));
                            assert(!balanced(cmds));
                        }
                        return Err(Error::Syntax("Missing opening bracket".to_owned()));
                    },
                }
            },
        }
        proof {
            match cmd {
                Command::JumpIfNotZero => {
                    assert(loop_stack@ == prev_stack.drop_last());
                    assert(depth(cmds.take(k + 1)) == prev_stack.len() - 1);
                },
                _ => {
                    assert(delta(cmds[k as int]) >= 0);
                },
            }
            assert(depth(cmds.take(k + 1)) >= 0);
            lemma_prefix_step(cmds, k as int);
        }
        k = k + 1;
    }
    proof {
        assert(cmds.take(cmds.len() as int) =~= cmds);
    }
    if loop_stack.len() > 0 {
        proof {
            assert(depth(cmds) > 0);
            assert(!balanced(cmds));
        }
        return Err(Error::Syntax("Missing closing bracket".to_owned()));
    }
    proof {
        assert(stack_views(loop_stack@) =~= Seq::<Seq<Instr>>::empty());
        assert(stack_commands(stack_views(loop_stack@)) =~= Seq::<Command>::empty());
        assert(seq_commands(seq_view(instructions@)) =~= cmds);
    }
    Ok(instructions)
}

/// A step that keeps the running depth non-negative keeps every prefix
/// non-negative.
proof fn lemma_prefix_step(cmds: Seq<Command>, k: int)
    requires
        0 <= k < cmds.len(),
        prefixes_nonneg(cmds.take(k)),
        depth(cmds.take(k + 1)) >= 0,
    ensures
        prefixes_nonneg(cmds.take(k + 1)),
{
    assert forall|i: int| 0 <= i <= k + 1 implies depth(#[trigger] cmds.take(k + 1).take(i)) >= 0 by {
        assert(cmds.take(k + 1).take(i) =~= cmds.take(i));
        if i <= k {
            assert(cmds.take(k).take(i) =~= cmds.take(i));
        } else {
            assert(cmds.take(i) =~= cmds.take(k + 1));
        }
    }
}

/// Appends one freshly built unit node to the sequence under construction.
fn push_unit(instructions: &mut Vec<Instruction>, node: Instruction)
    requires
        instr_unit(node@),
    ensures
        final(instructions)@ == old(instructions)@.push(node),
        seq_view(final(instructions)@) == seq_view(old(instructions)@).push(node@),
        seq_commands(seq_view(final(instructions)@)) == seq_commands(seq_view(old(instructions)@))
            + instr_commands(node@),
        seq_unit(seq_view(final(instructions)@)) == seq_unit(seq_view(old(instructions)@)),
{
    proof {
        lemma_view_push(old(instructions)@, node);
        lemma_push_node(seq_view(old(instructions)@), node@);
    }
    instructions.push(node);
}

} // verus!
