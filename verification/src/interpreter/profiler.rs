//! The profiler: wraps the executor's dispatch to collect per-kind
//! instruction counts, a frequency table of distinct leaf loop-body shapes,
//! and the highest cursor index ever reached — without altering the
//! observable output or error behaviour of the underlying execution, which
//! follows from its contract naming the very same evaluator as the plain
//! executor's.

use vstd::prelude::*;

use crate::interpreter::tape::Tape;
use crate::interpreter::{init_state, run_instr, run_seq, Error, Outcome, State};
use crate::program::{
    clone_vec, lemma_seq_view_index, seq_view, vec_eq, vec_view, Instr, Instruction, Program,
};

verus! {

broadcast use vstd::std_specs::vec::group_vec_axioms, vstd::seq::group_seq_axioms;

/// The metrics of one profiled run.
///
/// The arithmetic and movement counters weigh each executed instruction by
/// its magnitude; `print`, `read` and `store` count executions. Counters
/// saturate instead of wrapping. `loop_patterns` counts, per distinct leaf
/// loop body (one containing no nested loop), how often that loop
/// instruction was executed, in first-encounter order.
pub struct Analytics {
    pub move_right: u64,
    pub move_left: u64,
    pub add: u64,
    pub sub: u64,
    pub print: u64,
    pub read: u64,
    pub store: u64,
    pub loop_patterns: Vec<(Vec<Instruction>, u64)>,
    pub highest_memory_access: usize,
}

/// The mathematical model of [`Analytics`].
pub struct Stats {
    pub move_right: nat,
    pub move_left: nat,
    pub add: nat,
    pub sub: nat,
    pub print: nat,
    pub read: nat,
    pub store: nat,
    pub loop_patterns: Seq<(Seq<Instr>, nat)>,
    pub highest_memory_access: nat,
}

/// The models of the stored loop patterns, element by element.
pub open spec fn patterns_view(v: Seq<(Vec<Instruction>, u64)>) -> Seq<(Seq<Instr>, nat)>
    decreases v,
{
    if v.len() == 0 {
        Seq::empty()
    } else {
        patterns_view(v.drop_last()).push((vec_view(v.last().0), v.last().1 as nat))
    }
}

/// `patterns_view` maps the sequence element by element.
proof fn lemma_patterns_view_index(v: Seq<(Vec<Instruction>, u64)>)
    ensures
        patterns_view(v).len() == v.len(),
        forall|i: int| 0 <= i < v.len() ==> patterns_view(v)[i] == (
        vec_view(v[i].0),
        v[i].1 as nat,
        ),
    decreases v.len(),
{
    if v.len() > 0 {
        lemma_patterns_view_index(v.drop_last());
        assert forall|i: int| 0 <= i < v.len() implies patterns_view(v)[i] == (
            vec_view(v[i].0),
            v[i].1 as nat,
        ) by {
            if i < v.len() - 1 {
                assert(v.drop_last()[i] == v[i]);
            } else {
                assert(v.last() == v[i]);
            }
        }
    }
}

impl View for Analytics {
    type V = Stats;

    open spec fn view(&self) -> Stats {
        Stats {
            move_right: self.move_right as nat,
            move_left: self.move_left as nat,
            add: self.add as nat,
            sub: self.sub as nat,
            print: self.print as nat,
            read: self.read as nat,
            store: self.store as nat,
            loop_patterns: patterns_view(self.loop_patterns@),
            highest_memory_access: self.highest_memory_access as nat,
        }
    }
}

/// The stats of a run that has not executed anything yet.
pub open spec fn init_stats() -> Stats {
    Stats {
        move_right: 0,
        move_left: 0,
        add: 0,
        sub: 0,
        print: 0,
        read: 0,
        store: 0,
        loop_patterns: Seq::empty(),
        highest_memory_access: 0,
    }
}

impl Default for Analytics {
    /// Fresh metrics: every counter zero, no patterns yet.
    fn default() -> (r: Self)
        ensures
            r@ == init_stats(),
    {
        let r = Analytics {
            move_right: 0,
            move_left: 0,
            add: 0,
            sub: 0,
            print: 0,
            read: 0,
            store: 0,
            loop_patterns: Vec::new(),
            highest_memory_access: 0,
        };
        proof {
            assert(r@.loop_patterns =~= Seq::<(Seq<Instr>, nat)>::empty());
        }
        r
    }
}

/// Addition that sticks at the largest representable counter value.
pub open spec fn sat_add(a: nat, b: nat) -> nat {
    if a + b > u64::MAX {
        u64::MAX as nat
    } else {
        a + b
    }
}

/// Whether a sequence holds a loop at its own level.
pub open spec fn has_loop(s: Seq<Instr>) -> bool {
    exists|j: int| 0 <= j < s.len() && (#[trigger] s[j]) matches Instr::Loop(_)
}

/// The first index holding the given pattern key, or -1 when absent.
pub open spec fn find_pattern(ps: Seq<(Seq<Instr>, nat)>, key: Seq<Instr>) -> int
    decreases ps.len(),
{
    if ps.len() == 0 {
        -1
    } else if ps.first().0 == key {
        0
    } else {
        let r = find_pattern(ps.drop_first(), key);
        if r < 0 {
            -1
        } else {
            r + 1
        }
    }
}

/// `find_pattern` finds the first matching index and nothing before it.
proof fn lemma_find_pattern(ps: Seq<(Seq<Instr>, nat)>, key: Seq<Instr>)
    ensures
        ({
            let r = find_pattern(ps, key);
            &&& r == -1 ==> forall|j: int| 0 <= j < ps.len() ==> (#[trigger] ps[j]).0 != key
            &&& r >= 0 ==> 0 <= r < ps.len() && ps[r].0 == key && (forall|j: int|
                0 <= j < r ==> (#[trigger] ps[j]).0 != key)
        }),
    decreases ps.len(),
{
    if ps.len() > 0 && ps.first().0 != key {
        lemma_find_pattern(ps.drop_first(), key);
        let r = find_pattern(ps.drop_first(), key);
        assert forall|j: int| 1 <= j < ps.len() implies ps[j] == ps.drop_first()[j - 1] by {}
    }
}

/// One more sighting of a leaf loop body: its counter grows by one, or a
/// new entry starts at one.
pub open spec fn bump_pattern(ps: Seq<(Seq<Instr>, nat)>, key: Seq<Instr>) -> Seq<
    (Seq<Instr>, nat),
> {
    let r = find_pattern(ps, key);
    if r >= 0 {
        ps.update(r, (key, sat_add(ps[r].1, 1)))
    } else {
        ps.push((key, 1))
    }
}

/// The metrics after one more successfully executed instruction, sampled
/// with the cursor position right after it.
pub open spec fn bump(acc: Stats, i: Instr, cursor_after: nat) -> Stats {
    let counted = match i {
        Instr::MoveRight(n) => Stats { move_right: sat_add(acc.move_right, n), ..acc },
        Instr::MoveLeft(n) => Stats { move_left: sat_add(acc.move_left, n), ..acc },
        Instr::Add(n) => Stats { add: sat_add(acc.add, n), ..acc },
        Instr::Sub(n) => Stats { sub: sat_add(acc.sub, n), ..acc },
        Instr::Print => Stats { print: sat_add(acc.print, 1), ..acc },
        Instr::Read => Stats { read: sat_add(acc.read, 1), ..acc },
        Instr::Store(_) => Stats { store: sat_add(acc.store, 1), ..acc },
        Instr::Loop(b) => if !has_loop(b) {
            Stats { loop_patterns: bump_pattern(acc.loop_patterns, b), ..acc }
        } else {
            acc
        },
    };
    if cursor_after > counted.highest_memory_access {
        Stats { highest_memory_access: cursor_after, ..counted }
    } else {
        counted
    }
}

/// The metrics accumulated by evaluating one instruction, as far as the
/// evaluation gets; the per-encounter count of the instruction itself is
/// added by the enclosing sequence on success.
pub open spec fn stats_instr(i: Instr, st: State, fuel: nat, acc: Stats) -> Stats
    decreases fuel, i, 0int,
{
    match i {
        Instr::Loop(b) => if st.mem[st.cursor as int] == 0 || fuel == 0 {
            acc
        } else {
            let inner = stats_seq(b, st, (fuel - 1) as nat, acc);
            match run_seq(b, st, (fuel - 1) as nat) {
                Outcome::Done(st2) => stats_instr(i, st2, (fuel - 1) as nat, inner),
                _ => inner,
            }
        },
        _ => acc,
    }
}

/// The metrics accumulated by evaluating a sequence, as far as the
/// evaluation gets.
pub open spec fn stats_seq(s: Seq<Instr>, st: State, fuel: nat, acc: Stats) -> Stats
    decreases fuel, s, 1int,
{
    if s.len() == 0 {
        acc
    } else {
        let after_first = stats_instr(s.first(), st, fuel, acc);
        match run_instr(s.first(), st, fuel) {
            Outcome::Done(st2) => stats_seq(
                s.drop_first(),
                st2,
                fuel,
                bump(after_first, s.first(), st2.cursor),
            ),
            _ => after_first,
        }
    }
}

/// Whether the vector holds a loop at its own level.
fn contains_loop(instructions: &Vec<Instruction>) -> (r: bool)
    ensures
        r == has_loop(seq_view(instructions@)),
{
    proof {
        lemma_seq_view_index(instructions@);
    }
    let ghost smodel = seq_view(instructions@);
    let mut i: usize = 0;
    while i < instructions.len()
        invariant
            i <= instructions@.len(),
            smodel == seq_view(instructions@),
            smodel.len() == instructions@.len(),
            forall|j: int| 0 <= j < smodel.len() ==> smodel[j] == instructions@[j]@,
            forall|j: int| 0 <= j < i ==> !((#[trigger] smodel[j]) matches Instr::Loop(_)),
        decreases instructions@.len() - i,
    {
        if let Instruction::Loop { body: _ } = &instructions[i] {
            proof {
                assert(smodel[i as int] matches Instr::Loop(_));
            }
            return true;
        }
        i = i + 1;
    }
    false
}

/// Counts one more sighting of a leaf loop body.
fn note_pattern(patterns: &mut Vec<(Vec<Instruction>, u64)>, body: &Vec<Instruction>)
    ensures
        patterns_view(final(patterns)@) == bump_pattern(
            patterns_view(old(patterns)@),
            vec_view(*body),
        ),
{
    let ghost ps = patterns_view(old(patterns)@);
    let ghost key = vec_view(*body);
    proof {
        lemma_patterns_view_index(old(patterns)@);
        lemma_find_pattern(ps, key);
    }
    let mut i: usize = 0;
    while i < patterns.len()
        invariant
            i <= patterns@.len(),
            patterns@ == old(patterns)@,
            ps == patterns_view(patterns@),
            ps.len() == patterns@.len(),
            key == vec_view(*body),
            forall|j: int| 0 <= j < patterns@.len() ==> ps[j] == (
            vec_view(patterns@[j].0),
            patterns@[j].1 as nat,
            ),
            forall|j: int| 0 <= j < i ==> (#[trigger] ps[j]).0 != key,
        decreases patterns@.len() - i,
    {
        if vec_eq(&patterns[i].0, body) {
            proof {
                assert(ps[i as int].0 == key);
                assert(find_pattern(ps, key) == i as int) by {
                    lemma_find_pattern(ps, key);
                }
            }
            let stored_key = clone_vec(&patterns[i].0);
            let count = patterns[i].1.saturating_add(1);
            patterns.set(i, (stored_key, count));
            proof {
                lemma_patterns_view_index(patterns@);
                assert(patterns_view(patterns@) =~= ps.update(i as int, (key, sat_add(
                    ps[i as int].1,
                    1,
                ))));
            }
            return ;
        }
        i = i + 1;
    }
    proof {
        assert(find_pattern(ps, key) == -1) by {
            lemma_find_pattern(ps, key);
            if find_pattern(ps, key) >= 0 {
                assert(ps[find_pattern(ps, key)].0 == key);
            }
        }
    }
    let stored_key = clone_vec(body);
    patterns.push((stored_key, 1));
    proof {
        assert(patterns@.drop_last() =~= old(patterns)@);
        assert(patterns_view(patterns@) =~= ps.push((key, 1)));
    }
}

/// Records one successfully executed instruction, sampled with the cursor
/// right after it.
fn record(analytics: &mut Analytics, instruction: &Instruction, cursor: usize)
    ensures
        final(analytics)@ == bump(old(analytics)@, instruction@, cursor as nat),
{
    match instruction {
        Instruction::MoveRight(n) => {
            analytics.move_right = analytics.move_right.saturating_add(*n as u64);
        },
        Instruction::MoveLeft(n) => {
            analytics.move_left = analytics.move_left.saturating_add(*n as u64);
        },
        Instruction::Add(n) => {
            analytics.add = analytics.add.saturating_add(*n as u64);
        },
        Instruction::Sub(n) => {
            analytics.sub = analytics.sub.saturating_add(*n as u64);
        },
        Instruction::Print => {
            analytics.print = analytics.print.saturating_add(1);
        },
        Instruction::Read => {
            analytics.read = analytics.read.saturating_add(1);
        },
        Instruction::Store(_) => {
            analytics.store = analytics.store.saturating_add(1);
        },
        Instruction::Loop { body } => {
            if !contains_loop(body) {
                note_pattern(&mut analytics.loop_patterns, body);
            }
        },
    }
    if cursor > analytics.highest_memory_access {
        analytics.highest_memory_access = cursor;
    }
}

/// Runs one instruction on the tape, as the plain executor does, while
/// accumulating metrics exactly as the stats model says.
fn profile_instruction(
    tape: &mut Tape,
    analytics: &mut Analytics,
    instruction: &Instruction,
    budget: u64,
) -> (r: Result<bool, Error>)
    requires
        old(tape).wf(),
    ensures
        final(tape).wf(),
        final(analytics)@ == stats_instr(
            instruction@,
            old(tape)@,
            budget as nat,
            old(analytics)@,
        ),
        ({
            let o = run_instr(instruction@, old(tape)@, budget as nat);
            match o {
                Outcome::Done(st) => r == Ok::<bool, Error>(true) && final(tape)@ == st,
                Outcome::Exhausted(st) => r == Ok::<bool, Error>(false) && final(tape)@ == st,
                Outcome::Failed(e, st) => r == Err::<bool, Error>(e) && final(tape)@ == st,
            }
        }),
    decreases budget, 0int,
{
    match instruction {
        Instruction::MoveRight(value) => match tape.move_pointer_right(*value) {
            Ok(_) => Ok(true),
            Err(e) => Err(e),
        },
        Instruction::MoveLeft(value) => match tape.move_pointer_left(*value) {
            Ok(_) => Ok(true),
            Err(e) => Err(e),
        },
        Instruction::Add(value) => {
            let delta = (*value % 256) as u8;
            proof {
                let cell = old(tape)@.mem[old(tape)@.cursor as int];
                assert((cell + delta) % 256 == (cell + *value) % 256) by (nonlinear_arith)
                    requires
                        delta == *value % 256,
                        0 <= cell < 256,
                ;
            }
            tape.increment_current_cell(delta);
            Ok(true)
        },
        Instruction::Sub(value) => {
            let delta = (*value % 256) as u8;
            proof {
                let cell = old(tape)@.mem[old(tape)@.cursor as int];
                assert((cell - delta) % 256 == (cell - *value) % 256) by (nonlinear_arith)
                    requires
                        delta == *value % 256,
                        0 <= cell < 256,
                ;
            }
            tape.decrement_current_cell(delta);
            Ok(true)
        },
        Instruction::Store(value) => {
            let literal = (*value % 256) as u8;
            tape.write_current_cell(literal);
            Ok(true)
        },
        Instruction::Print => match tape.print() {
            Ok(_) => Ok(true),
            Err(e) => Err(e),
        },
        Instruction::Read => match tape.read() {
            Ok(_) => Ok(true),
            Err(e) => Err(e),
        },
        Instruction::Loop { body } => {
            let ghost node = instruction@;
            let ghost entry = old(tape)@;
            let ghost acc0 = old(analytics)@;
            let mut remaining = budget;
            loop
                invariant
                    tape.wf(),
                    remaining <= budget,
                    entry == old(tape)@,
                    acc0 == old(analytics)@,
                    node == instruction@,
                    node matches Instr::Loop(b) && b == seq_view(body@),
                    run_instr(node, tape@, remaining as nat) == run_instr(
                        node,
                        entry,
                        budget as nat,
                    ),
                    stats_instr(node, tape@, remaining as nat, analytics@) == stats_instr(
                        node,
                        entry,
                        budget as nat,
                        acc0,
                    ),
                decreases remaining,
            {
                if tape.read_current_cell() == 0 {
                    proof {
                        assert(run_instr(node, tape@, remaining as nat) == Outcome::Done(tape@));
                        assert(stats_instr(node, tape@, remaining as nat, analytics@)
                            == analytics@);
                    }
                    return Ok(true);
                }
                if remaining == 0 {
                    proof {
                        assert(run_instr(node, tape@, remaining as nat) == Outcome::Exhausted(
                            tape@,
                        ));
                        assert(stats_instr(node, tape@, remaining as nat, analytics@)
                            == analytics@);
                    }
                    return Ok(false);
                }
                remaining = remaining - 1;
                let ghost before_body = tape@;
                let ghost before_stats = analytics@;
                match profile_instructions(tape, analytics, body, remaining) {
                    Ok(true) => {
                        proof {
                            assert(run_seq(seq_view(body@), before_body, remaining as nat)
                                == Outcome::Done(tape@));
                            assert(run_instr(node, before_body, (remaining + 1) as nat)
                                == run_instr(node, tape@, remaining as nat));
                            assert(stats_instr(node, before_body, (remaining + 1) as nat,
                            before_stats) == stats_instr(node, tape@, remaining as nat,
                            analytics@));
                        }
                    },
                    Ok(false) => {
                        proof {
                            assert(run_instr(node, before_body, (remaining + 1) as nat)
                                == Outcome::Exhausted(tape@));
                            assert(stats_instr(node, before_body, (remaining + 1) as nat,
                            before_stats) == analytics@);
                        }
                        return Ok(false);
                    },
                    Err(e) => {
                        proof {
                            assert(run_instr(node, before_body, (remaining + 1) as nat)
                                == Outcome::Failed(e, tape@));
                            assert(stats_instr(node, before_body, (remaining + 1) as nat,
                            before_stats) == analytics@);
                        }
                        return Err(e);
                    },
                }
            }
        },
    }
}

/// Runs a sequence of instructions on the tape, as the plain executor does,
/// while accumulating metrics exactly as the stats model says.
fn profile_instructions(
    tape: &mut Tape,
    analytics: &mut Analytics,
    instructions: &Vec<Instruction>,
    budget: u64,
) -> (r: Result<bool, Error>)
    requires
        old(tape).wf(),
    ensures
        final(tape).wf(),
        final(analytics)@ == stats_seq(
            seq_view(instructions@),
            old(tape)@,
            budget as nat,
            old(analytics)@,
        ),
        ({
            let o = run_seq(seq_view(instructions@), old(tape)@, budget as nat);
            match o {
                Outcome::Done(st) => r == Ok::<bool, Error>(true) && final(tape)@ == st,
                Outcome::Exhausted(st) => r == Ok::<bool, Error>(false) && final(tape)@ == st,
                Outcome::Failed(e, st) => r == Err::<bool, Error>(e) && final(tape)@ == st,
            }
        }),
    decreases budget, 1int,
{
    let ghost smodel = seq_view(instructions@);
    let ghost entry = old(tape)@;
    let ghost acc0 = old(analytics)@;
    proof {
        lemma_seq_view_index(instructions@);
        assert(smodel.skip(0) =~= smodel);
    }
    let mut i: usize = 0;
    while i < instructions.len()
        invariant
            tape.wf(),
            entry == old(tape)@,
            acc0 == old(analytics)@,
            i <= instructions@.len(),
            smodel == seq_view(instructions@),
            smodel.len() == instructions@.len(),
            forall|j: int| 0 <= j < smodel.len() ==> smodel[j] == instructions@[j]@,
            run_seq(smodel, entry, budget as nat) == run_seq(
                smodel.skip(i as int),
                tape@,
                budget as nat,
            ),
            stats_seq(smodel, entry, budget as nat, acc0) == stats_seq(
                smodel.skip(i as int),
                tape@,
                budget as nat,
                analytics@,
            ),
        decreases instructions@.len() - i,
    {
        let ghost before = tape@;
        let ghost before_stats = analytics@;
        let r = profile_instruction(tape, analytics, &instructions[i], budget);
        proof {
            assert(smodel.skip(i as int).len() > 0);
            assert(smodel.skip(i as int).first() == smodel[i as int]);
            assert(smodel.skip(i as int).drop_first() =~= smodel.skip(i + 1));
        }
        match r {
            Ok(true) => {
                let cursor = tape.pointer();
                record(analytics, &instructions[i], cursor);
            },
            Ok(false) => {
                return Ok(false);
            },
            Err(e) => {
                return Err(e);
            },
        }
        i = i + 1;
    }
    proof {
        assert(smodel.skip(smodel.len() as int) =~= Seq::<Instr>::empty());
    }
    Ok(true)
}

/// Profiles a program: executes it exactly as [`crate::interpreter::execute`]
/// would — same output, same error, same budget behaviour — and returns the
/// metrics of the run. A run that fails with a pointer error yields the
/// error instead; a run that exhausts its budget yields the metrics
/// accumulated up to that point.
pub fn profile(
    program: &Program,
    input: &[u8],
    output: &mut Vec<u8>,
    memory_size: usize,
    budget: u64,
) -> (r: Result<Analytics, Error>)
    requires
        memory_size >= 1,
    ensures
        ({
            let init = init_state(input@, memory_size as nat);
            let o = run_seq(program@, init, budget as nat);
            let stats = stats_seq(program@, init, budget as nat, init_stats());
            match o {
                Outcome::Done(st) => (r matches Ok(a) && a@ == stats) && final(output)@ == old(
                    output,
                )@ + st.output,
                Outcome::Exhausted(st) => (r matches Ok(a) && a@ == stats) && final(output)@ == old(
                    output,
                )@ + st.output,
                Outcome::Failed(e, st) => r == Err::<Analytics, Error>(e) && final(output)@ == old(
                    output,
                )@ + st.output,
            }
        }),
{
    let owned_input = vstd::slice::slice_to_vec(input);
    let mut tape = Tape::new(owned_input, memory_size);
    let mut analytics = Analytics::default();
    let instructions = clone_vec_of_slice(program.instructions());
    proof {
        lemma_seq_view_index(instructions@);
    }
    let result = profile_instructions(&mut tape, &mut analytics, &instructions, budget);
    let mut produced = tape.into_output();
    output.append(&mut produced);
    match result {
        Ok(_) => Ok(analytics),
        Err(e) => Err(e),
    }
}

/// A deep copy of a borrowed instruction slice, abstracting to the same
/// model.
fn clone_vec_of_slice(v: &[Instruction]) -> (r: Vec<Instruction>)
    ensures
        seq_view(r@) == seq_view(v@),
{
    let mut copy: Vec<Instruction> = Vec::new();
    let mut i: usize = 0;
    while i < v.len()
        invariant
            i <= v@.len(),
            copy.len() == i,
            forall|j: int| 0 <= j < i ==> copy@[j]@ == v@[j]@,
        decreases v@.len() - i,
    {
        let node = v[i].clone();
        copy.push(node);
        i = i + 1;
    }
    proof {
        lemma_seq_view_index(copy@);
        lemma_seq_view_index(v@);
        assert(seq_view(copy@) =~= seq_view(v@));
    }
    copy
}

} // verus!
