//! The tree-walking executor: runs the instructions of a program against a
//! tape, mirroring the fuel-indexed evaluator of the parent module step by
//! step.

use vstd::prelude::*;

use crate::interpreter::tape::Tape;
use crate::interpreter::{init_state, run_instr, run_seq, Error, Outcome};
use crate::program::{lemma_seq_view_index, seq_view, Instr, Instruction, Program};

verus! {

broadcast use vstd::std_specs::vec::group_vec_axioms, vstd::seq::group_seq_axioms;

/// Runs one instruction on the tape with the given loop budget; the result
/// and the tape afterwards are exactly what the evaluator says: `Ok(true)`
/// when the instruction completed, `Ok(false)` when the budget ran out, and
/// the error of the first failing movement otherwise.
fn execute_instruction(tape: &mut Tape, instruction: &Instruction, budget: u64) -> (r: Result<
    bool,
    Error,
>)
    requires
        old(tape).wf(),
    ensures
        final(tape).wf(),
        ({
            let o = run_instr(instruction@, old(tape)@, budget as nat);
            match o {
                Outcome::Done(st) => r == Ok::<bool, Error>(true) && final(tape)@ == st,
                Outcome::Exhausted(st) => r == Ok::<bool, Error>(false) && final(tape)@ == st,
                Outcome::Failed(e, st) => r == Err::<bool, Error>(e) && final(tape)@ == st,
            }
        }),
    decreases budget, 0int,
{
    match instruction {
        Instruction::MoveRight(value) => match tape.move_pointer_right(*value) {
            Ok(_) => Ok(true),
            Err(e) => Err(e),
        },
        Instruction::MoveLeft(value) => match tape.move_pointer_left(*value) {
            Ok(_) => Ok(true),
            Err(e) => Err(e),
        },
        Instruction::Add(value) => {
            let delta = (*value % 256) as u8;
            proof {
                let cell = old(tape)@.mem[old(tape)@.cursor as int];
                assert((cell + delta) % 256 == (cell + *value) % 256) by (nonlinear_arith)
                    requires
                        delta == *value % 256,
                        0 <= cell < 256,
                ;
            }
            tape.increment_current_cell(delta);
            Ok(true)
        },
        Instruction::Sub(value) => {
            let delta = (*value % 256) as u8;
            proof {
                let cell = old(tape)@.mem[old(tape)@.cursor as int];
                assert((cell - delta) % 256 == (cell - *value) % 256) by (nonlinear_arith)
                    requires
                        delta == *value % 256,
                        0 <= cell < 256,
                ;
            }
            tape.decrement_current_cell(delta);
            Ok(true)
        },
        Instruction::Store(value) => {
            let literal = (*value % 256) as u8;
            tape.write_current_cell(literal);
            Ok(true)
        },
        Instruction::Print => match tape.print() {
            Ok(_) => Ok(true),
            Err(e) => Err(e),
        },
        Instruction::Read => match tape.read() {
            Ok(_) => Ok(true),
            Err(e) => Err(e),
        },
        Instruction::Loop { body } => {
            let ghost node = instruction@;
            let ghost entry = old(tape)@;
            let mut remaining = budget;
            loop
                invariant
                    tape.wf(),
                    remaining <= budget,
                    entry == old(tape)@,
                    node == instruction@,
                    node matches Instr::Loop(b) && b == seq_view(body@),
                    run_instr(node, tape@, remaining as nat) == run_instr(
                        node,
                        entry,
                        budget as nat,
                    ),
                decreases remaining,
            {
                if tape.read_current_cell() == 0 {
                    proof {
                        assert(run_instr(node, tape@, remaining as nat) == Outcome::Done(tape@));
                    }
                    return Ok(true);
                }
                if remaining == 0 {
                    proof {
                        assert(run_instr(node, tape@, remaining as nat) == Outcome::Exhausted(
                            tape@,
                        ));
                    }
                    return Ok(false);
                }
                remaining = remaining - 1;
                let ghost before_body = tape@;
                match execute_instructions(tape, body, remaining) {
                    Ok(true) => {
                        proof {
                            assert(run_seq(seq_view(body@), before_body, remaining as nat)
                                == Outcome::Done(tape@));
                            assert(run_instr(node, before_body, (remaining + 1) as nat)
                                == run_instr(node, tape@, remaining as nat));
                        }
                    },
                    Ok(false) => {
                        proof {
                            assert(run_instr(node, before_body, (remaining + 1) as nat)
                                == Outcome::Exhausted(tape@));
                        }
                        return Ok(false);
                    },
                    Err(e) => {
                        proof {
                            assert(run_instr(node, before_body, (remaining + 1) as nat)
                                == Outcome::Failed(e, tape@));
                        }
                        return Err(e);
                    },
                }
            }
        },
    }
}

/// Runs a sequence of instructions on the tape in order, with the given
/// loop budget; the result and the tape afterwards are exactly what the
/// evaluator says.
fn execute_instructions(tape: &mut Tape, instructions: &[Instruction], budget: u64) -> (r: Result<
    bool,
    Error,
>)
    requires
        old(tape).wf(),
    ensures
        final(tape).wf(),
        ({
            let o = run_seq(seq_view(instructions@), old(tape)@, budget as nat);
            match o {
                Outcome::Done(st) => r == Ok::<bool, Error>(true) && final(tape)@ == st,
                Outcome::Exhausted(st) => r == Ok::<bool, Error>(false) && final(tape)@ == st,
                Outcome::Failed(e, st) => r == Err::<bool, Error>(e) && final(tape)@ == st,
            }
        }),
    decreases budget, 1int,
{
    let ghost smodel = seq_view(instructions@);
    let ghost entry = old(tape)@;
    proof {
        lemma_seq_view_index(instructions@);
    }
    let mut i: usize = 0;
    proof {
        assert(smodel.skip(0) =~= smodel);
    }
    while i < instructions.len()
        invariant
            tape.wf(),
            entry == old(tape)@,
            i <= instructions@.len(),
            smodel == seq_view(instructions@),
            smodel.len() == instructions@.len(),
            forall|j: int| 0 <= j < smodel.len() ==> smodel[j] == instructions@[j]@,
            run_seq(smodel, entry, budget as nat) == run_seq(
                smodel.skip(i as int),
                tape@,
                budget as nat,
            ),
        decreases instructions@.len() - i,
    {
        let ghost before = tape@;
        let r = execute_instruction(tape, &instructions[i], budget);
        proof {
            assert(smodel.skip(i as int).len() > 0);
            assert(smodel.skip(i as int).first() == smodel[i as int]);
            assert(smodel.skip(i as int).drop_first() =~= smodel.skip(i + 1));
        }
        match r {
            Ok(true) => {},
            Ok(false) => {
                return Ok(false);
            },
            Err(e) => {
                return Err(e);
            },
        }
        i = i + 1;
    }
    proof {
        assert(smodel.skip(smodel.len() as int) =~= Seq::<Instr>::empty());
    }
    Ok(true)
}

/// Executes a program against a fresh tape of `memory_size` cells, reading
/// from `input` and appending everything printed to `output`.
///
/// `budget` bounds how often any one loop entry may iterate; `Ok(true)`
/// means the program ran to completion, `Ok(false)` that the budget ran out
/// first. On any outcome the output already written stands, exactly as the
/// evaluator describes.
pub fn execute(
    program: &Program,
    input: &[u8],
    output: &mut Vec<u8>,
    memory_size: usize,
    budget: u64,
) -> (r: Result<bool, Error>)
    requires
        memory_size >= 1,
    ensures
        ({
            let o = run_seq(program@, init_state(input@, memory_size as nat), budget as nat);
            match o {
                Outcome::Done(st) => r == Ok::<bool, Error>(true) && final(output)@ == old(
                    output,
                )@ + st.output,
                Outcome::Exhausted(st) => r == Ok::<bool, Error>(false) && final(output)@ == old(
                    output,
                )@ + st.output,
                Outcome::Failed(e, st) => r == Err::<bool, Error>(e) && final(output)@ == old(
                    output,
                )@ + st.output,
            }
        }),
{
    let owned_input = vstd::slice::slice_to_vec(input);
    let mut tape = Tape::new(owned_input, memory_size);
    let result = execute_instructions(&mut tape, program.instructions(), budget);
    let mut produced = tape.into_output();
    output.append(&mut produced);
    match result {
        Ok(done) => Ok(done),
        Err(e) => Err(e),
    }
}

} // verus!
