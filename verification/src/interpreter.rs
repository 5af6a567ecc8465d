//! The tree-walking execution engine: runs a program against a bounded byte
//! tape and in-memory I/O buffers.
//!
//! The mathematical semantics is a fuel-indexed big-step evaluator over
//! [`State`]: one unit of fuel is spent each time a loop body is entered, so
//! the evaluator is total, and the executable engine takes the fuel budget
//! as an explicit argument and reports when it runs out. With enough fuel
//! the budget is unobservable; it exists because every run of the engine
//! must provably terminate.

use vstd::prelude::*;

pub mod basic;
pub mod profiler;
pub mod tape;

pub use basic::execute;
pub use profiler::{profile, Analytics};
pub use tape::Tape;

use crate::program::Instr;

verus! {

/// A runtime failure: the cursor left the tape. The tape has no wraparound;
/// moving past either end aborts the run.
#[derive(Clone, Copy, Debug, PartialEq, Eq, Structural)]
pub enum Error {
    PointerOverflow,
    PointerUnderflow,
}

/// The mathematical state of one execution: the tape contents, the cursor,
/// the input bytes not yet consumed, and the output bytes written so far.
pub struct State {
    pub mem: Seq<u8>,
    pub cursor: nat,
    pub input: Seq<u8>,
    pub output: Seq<u8>,
}

impl State {
    /// The cursor stays on the tape.
    pub open spec fn wf(self) -> bool {
        self.cursor < self.mem.len()
    }
}

/// The state a run starts from: a zeroed tape of the given size, the cursor
/// at the left end, the whole input ahead and no output yet.
pub open spec fn init_state(input: Seq<u8>, memory_size: nat) -> State {
    State { mem: Seq::new(memory_size, |i: int| 0u8), cursor: 0, input, output: Seq::empty() }
}

/// How one evaluation ends: the program ran to completion, it failed with a
/// runtime error, or the fuel ran out mid-loop. Each case carries the state
/// at that point; output already written stands.
pub enum Outcome {
    Done(State),
    Failed(Error, State),
    Exhausted(State),
}

/// Evaluates one instruction from `st` with the given fuel.
pub open spec fn run_instr(i: Instr, st: State, fuel: nat) -> Outcome
    decreases fuel, i, 0int,
{
    match i {
        Instr::MoveRight(n) => if st.cursor + n >= st.mem.len() {
            Outcome::Failed(Error::PointerOverflow, st)
        } else {
            Outcome::Done(State { cursor: (st.cursor + n) as nat, ..st })
        },
        Instr::MoveLeft(n) => if st.cursor < n {
            Outcome::Failed(Error::PointerUnderflow, st)
        } else {
            Outcome::Done(State { cursor: (st.cursor - n) as nat, ..st })
        },
        Instr::Add(n) => Outcome::Done(
            State {
                mem: st.mem.update(
                    st.cursor as int,
                    ((st.mem[st.cursor as int] + n) % 256) as u8,
                ),
                ..st
            },
        ),
        Instr::Sub(n) => Outcome::Done(
            State {
                mem: st.mem.update(
                    st.cursor as int,
                    ((st.mem[st.cursor as int] - n) % 256) as u8,
                ),
                ..st
            },
        ),
        Instr::Store(v) => Outcome::Done(
            State { mem: st.mem.update(st.cursor as int, (v % 256) as u8), ..st },
        ),
        Instr::Print => Outcome::Done(
            State { output: st.output.push(st.mem[st.cursor as int]), ..st },
        ),
        Instr::Read => if st.input.len() > 0 {
            Outcome::Done(
                State {
                    mem: st.mem.update(st.cursor as int, st.input[0]),
                    input: st.input.drop_first(),
                    ..st
                },
            )
        } else {
            Outcome::Done(State { mem: st.mem.update(st.cursor as int, 0u8), ..st })
        },
        Instr::Loop(b) => if st.mem[st.cursor as int] == 0 {
            Outcome::Done(st)
        } else if fuel == 0 {
            Outcome::Exhausted(st)
        } else {
            match run_seq(b, st, (fuel - 1) as nat) {
                Outcome::Done(st2) => run_instr(i, st2, (fuel - 1) as nat),
                other => other,
            }
        },
    }
}

/// Evaluates a sequence of instructions in order from `st` with the given
/// fuel.
pub open spec fn run_seq(s: Seq<Instr>, st: State, fuel: nat) -> Outcome
    decreases fuel, s, 1int,
{
    if s.len() == 0 {
        Outcome::Done(st)
    } else {
        match run_instr(s.first(), st, fuel) {
            Outcome::Done(st2) => run_seq(s.drop_first(), st2, fuel),
            other => other,
        }
    }
}

/// The fuel budget is unobservable once it is large enough: an evaluation
/// of one instruction that did not run out of fuel is unchanged by any
/// larger budget.
pub proof fn lemma_run_instr_monotone(i: Instr, st: State, fuel: nat, more: nat)
    requires
        fuel <= more,
        !(run_instr(i, st, fuel) matches Outcome::Exhausted(_)),
    ensures
        run_instr(i, st, more) == run_instr(i, st, fuel),
    decreases fuel, i, 0int,
{
    match i {
        Instr::Loop(b) => {
            if st.mem[st.cursor as int] != 0 {
                lemma_run_seq_monotone(b, st, (fuel - 1) as nat, (more - 1) as nat);
                match run_seq(b, st, (fuel - 1) as nat) {
                    Outcome::Done(st2) => {
                        lemma_run_instr_monotone(i, st2, (fuel - 1) as nat, (more - 1) as nat);
                    },
                    _ => {},
                }
            }
        },
        _ => {},
    }
}

/// The fuel budget is unobservable once it is large enough: an evaluation
/// of a sequence that did not run out of fuel is unchanged by any larger
/// budget.
pub proof fn lemma_run_seq_monotone(s: Seq<Instr>, st: State, fuel: nat, more: nat)
    requires
        fuel <= more,
        !(run_seq(s, st, fuel) matches Outcome::Exhausted(_)),
    ensures
        run_seq(s, st, more) == run_seq(s, st, fuel),
    decreases fuel, s, 1int,
{
    if s.len() > 0 {
        lemma_run_instr_monotone(s.first(), st, fuel, more);
        match run_instr(s.first(), st, fuel) {
            Outcome::Done(st2) => {
                lemma_run_seq_monotone(s.drop_first(), st2, fuel, more);
            },
            _ => {},
        }
    }
}

/// Reading at end of input stores 0 in the current cell and succeeds; input
/// exhaustion is not an error.
pub proof fn lemma_read_at_end_of_input(st: State, fuel: nat)
    requires
        st.input.len() == 0,
    ensures
        run_instr(Instr::Read, st, fuel) == Outcome::Done(
            (State { mem: st.mem.update(st.cursor as int, 0u8), ..st }),
        ),
{
}

/// Moving right one cell at a time sweeps the tape: as many unit moves as
/// there are cells ahead still succeed, and one more fails with a pointer
/// overflow at the last valid cell.
pub proof fn lemma_repeated_move_right(k: nat, st: State, fuel: nat)
    requires
        st.wf(),
    ensures
        ({
            let s = Seq::new(k, |i: int| Instr::MoveRight(1));
            if st.cursor + k >= st.mem.len() {
                run_seq(s, st, fuel) == Outcome::Failed(
                    Error::PointerOverflow,
                    (State { cursor: (st.mem.len() - 1) as nat, ..st }),
                )
            } else {
                run_seq(s, st, fuel) == Outcome::Done(
                    (State { cursor: (st.cursor + k) as nat, ..st }),
                )
            }
        }),
    decreases k,
{
    let s = Seq::new(k, |i: int| Instr::MoveRight(1));
    if k == 0 {
    } else {
        assert(s.first() == Instr::MoveRight(1));
        if st.cursor + 1 >= st.mem.len() {
            assert(st.cursor == st.mem.len() - 1);
            assert(run_instr(s.first(), st, fuel) == Outcome::Failed(
                Error::PointerOverflow,
                st,
            ));
            assert(st == (State { cursor: (st.mem.len() - 1) as nat, ..st }));
        } else {
            let st2 = State { cursor: (st.cursor + 1) as nat, ..st };
            assert(run_instr(s.first(), st, fuel) == Outcome::Done(st2));
            lemma_repeated_move_right((k - 1) as nat, st2, fuel);
            assert(s.drop_first() =~= Seq::new((k - 1) as nat, |i: int| Instr::MoveRight(1)));
        }
    }
}

/// A program whose tape has as many cells as the program has unit right
/// moves fails with a pointer overflow.
pub proof fn lemma_full_sweep_overflows(m: nat, input: Seq<u8>, fuel: nat)
    requires
        m >= 1,
    ensures
        run_seq(
            Seq::new(m, |i: int| Instr::MoveRight(1)),
            init_state(input, m),
            fuel,
        ) matches Outcome::Failed(e, _) && e == Error::PointerOverflow,
{
    lemma_repeated_move_right(m, init_state(input, m), fuel);
}

/// A program that starts by moving left fails at once with a pointer
/// underflow, whatever follows.
pub proof fn lemma_first_move_left_underflows(n: nat, rest: Seq<Instr>, st: State, fuel: nat)
    requires
        st.cursor == 0,
        n >= 1,
    ensures
        run_seq(seq![Instr::MoveLeft(n)] + rest, st, fuel) == Outcome::Failed(
            Error::PointerUnderflow,
            st,
        ),
{
    let s = seq![Instr::MoveLeft(n)] + rest;
    assert(s.len() == 1 + rest.len());
    assert(s.first() == Instr::MoveLeft(n));
    assert(run_instr(s.first(), st, fuel) == Outcome::Failed(Error::PointerUnderflow, st));
}

} // verus!
