//! The flat virtual machine: a jump-linked form of the execution engine.
//! A program is a flat instruction list whose brackets carry the index of
//! their partner; execution is a single dispatch loop over a program
//! counter. The machine semantics is a fuel-indexed evaluator, one
//! unit of fuel per executed instruction, and the executable interpreter
//! takes the fuel budget as an explicit argument and reports when it runs
//! out.

use vstd::prelude::*;
use vstd::pervasive::VecAdditionalExecFns;

pub mod optimizer;
pub mod parser;

verus! {

/// One flat instruction. `JumpIfZero(j)`/`JumpIfNotZero(j)` carry the index
/// of the matching partner bracket; execution resumes right after it.
/// `Clear` zeroes the cell at the cursor.
#[derive(Debug, Clone, Copy, PartialEq, Eq, Structural)]
pub enum Instruction {
    MoveRight(usize),
    MoveLeft(usize),
    Add(usize),
    Sub(usize),
    JumpIfZero(usize),
    JumpIfNotZero(usize),
    Print,
    Read,
    Clear,
}

/// A runtime failure of the flat machine: the cursor left the tape.
#[derive(Debug, Clone, Copy, PartialEq, Eq, Structural)]
pub enum Error {
    PointerOverflow,
    PointerUnderflow,
}

/// The mathematical state of the flat machine: the program counter, the
/// tape, the cursor, the input not yet consumed and the output written.
pub struct Machine {
    pub pc: nat,
    pub mem: Seq<u8>,
    pub cursor: nat,
    pub input: Seq<u8>,
    pub output: Seq<u8>,
}

/// How one evaluation of the flat machine ends.
pub enum Outcome {
    Done(Machine),
    Failed(Error, Machine),
    Exhausted(Machine),
}

/// Every jump target points into the program.
pub open spec fn jumps_wf(prog: Seq<Instruction>) -> bool {
    forall|i: int|
        0 <= i < prog.len() ==> match #[trigger] prog[i] {
            Instruction::JumpIfZero(j) => j < prog.len(),
            Instruction::JumpIfNotZero(j) => j < prog.len(),
            _ => true,
        }
}

/// Evaluates the flat machine: dispatch on the instruction under the
/// program counter until the counter runs off the end, a movement fails, or
/// the fuel is spent. One unit of fuel is one executed instruction.
pub open spec fn vm_run(prog: Seq<Instruction>, m: Machine, fuel: nat) -> Outcome
    decreases fuel,
{
    if m.pc >= prog.len() {
        Outcome::Done(m)
    } else if fuel == 0 {
        Outcome::Exhausted(m)
    } else {
        match prog[m.pc as int] {
            Instruction::MoveRight(steps) => if m.cursor + steps >= m.mem.len() {
                Outcome::Failed(Error::PointerOverflow, m)
            } else {
                vm_run(
                    prog,
                    Machine { pc: m.pc + 1, cursor: (m.cursor + steps) as nat, ..m },
                    (fuel - 1) as nat,
                )
            },
            Instruction::MoveLeft(steps) => if m.cursor < steps {
                Outcome::Failed(Error::PointerUnderflow, m)
            } else {
                vm_run(
                    prog,
                    Machine { pc: m.pc + 1, cursor: (m.cursor - steps) as nat, ..m },
                    (fuel - 1) as nat,
                )
            },
            Instruction::Add(term) => vm_run(
                prog,
                Machine {
                    pc: m.pc + 1,
                    mem: m.mem.update(
                        m.cursor as int,
                        ((m.mem[m.cursor as int] + term) % 256) as u8,
                    ),
                    ..m
                },
                (fuel - 1) as nat,
            ),
            Instruction::Sub(term) => vm_run(
                prog,
                Machine {
                    pc: m.pc + 1,
                    mem: m.mem.update(
                        m.cursor as int,
                        ((m.mem[m.cursor as int] - term) % 256) as u8,
                    ),
                    ..m
                },
                (fuel - 1) as nat,
            ),
            Instruction::JumpIfZero(target) => vm_run(
                prog,
                Machine {
                    pc: if m.mem[m.cursor as int] == 0 {
                        (target + 1) as nat
                    } else {
                        m.pc + 1
                    },
                    ..m
                },
                (fuel - 1) as nat,
            ),
            Instruction::JumpIfNotZero(target) => vm_run(
                prog,
                Machine {
                    pc: if m.mem[m.cursor as int] != 0 {
                        (target + 1) as nat
                    } else {
                        m.pc + 1
                    },
                    ..m
                },
                (fuel - 1) as nat,
            ),
            Instruction::Print => vm_run(
                prog,
                Machine { pc: m.pc + 1, output: m.output.push(m.mem[m.cursor as int]), ..m },
                (fuel - 1) as nat,
            ),
            Instruction::Read => if m.input.len() > 0 {
                vm_run(
                    prog,
                    Machine {
                        pc: m.pc + 1,
                        mem: m.mem.update(m.cursor as int, m.input[0]),
                        input: m.input.drop_first(),
                        ..m
                    },
                    (fuel - 1) as nat,
                )
            } else {
                vm_run(
                    prog,
                    Machine { pc: m.pc + 1, mem: m.mem.update(m.cursor as int, 0u8), ..m },
                    (fuel - 1) as nat,
                )
            },
            Instruction::Clear => vm_run(
                prog,
                Machine { pc: m.pc + 1, mem: m.mem.update(m.cursor as int, 0u8), ..m },
                (fuel - 1) as nat,
            ),
        }
    }
}

/// The flat interpreter: a tape and a cursor that persist across runs.
pub struct Interpreter {
    memory: Vec<u8>,
    pointer: usize,
}

impl Interpreter {
    /// The cursor stays on the tape.
    pub closed spec fn wf(self) -> bool {
        self.pointer < self.memory.len()
    }

    /// The tape contents.
    pub closed spec fn mem(self) -> Seq<u8> {
        self.memory@
    }

    /// The cursor position.
    pub closed spec fn cursor(self) -> nat {
        self.pointer as nat
    }

    /// A fresh interpreter: a zeroed tape of the given size, cursor at the
    /// left end.
    #[must_use]
    pub fn new(memory_size: usize) -> (r: Self)
        requires
            memory_size >= 1,
        ensures
            r.wf(),
            r.mem() == Seq::new(memory_size as nat, |i: int| 0u8),
            r.cursor() == 0,
    {
        let r = Interpreter { memory: vec![0u8; memory_size], pointer: 0 };
        proof {
            assert(r.memory@ =~= Seq::new(memory_size as nat, |i: int| 0u8));
        }
        r
    }

    /// The byte in the cell at the cursor.
    fn read_current_cell(&self) -> (r: u8)
        requires
            self.wf(),
        ensures
            r == self.mem()[self.cursor() as int],
    {
        self.memory[self.pointer]
    }

    /// Overwrites the cell at the cursor.
    fn write_current_cell(&mut self, value: u8)
        requires
            old(self).wf(),
        ensures
            final(self).wf(),
            final(self).mem() == old(self).mem().update(old(self).cursor() as int, value),
            final(self).cursor() == old(self).cursor(),
    {
        self.memory.set(self.pointer, value);
    }

    /// Runs a jump-linked program against this tape with the given fuel
    /// budget, reading from `input` and appending everything printed to
    /// `output`. The result, the tape and the output afterwards are exactly
    /// what the machine evaluator says: `Ok(true)` when the program ran off
    /// its end, `Ok(false)` when the budget ran out first, and the error of
    /// the first failing movement otherwise.
    pub fn run(
        &mut self,
        program: &[Instruction],
        input: &[u8],
        output: &mut Vec<u8>,
        budget: u64,
    ) -> (r: Result<bool, Error>)
        requires
            old(self).wf(),
            jumps_wf(program@),
        ensures
            final(self).wf(),
            ({
                let m0 = Machine {
                    pc: 0,
                    mem: old(self).mem(),
                    cursor: old(self).cursor(),
                    input: input@,
                    output: Seq::empty(),
                };
                let o = vm_run(program@, m0, budget as nat);
                match o {
                    Outcome::Done(m) => r == Ok::<bool, Error>(true) && final(self).mem() == m.mem
                        && final(self).cursor() == m.cursor && final(output)@ == old(output)@
                        + m.output,
                    Outcome::Exhausted(m) => r == Ok::<bool, Error>(false) && final(self).mem()
                        == m.mem && final(self).cursor() == m.cursor && final(output)@ == old(
                        output,
                    )@ + m.output,
                    Outcome::Failed(e, m) => r == Err::<bool, Error>(e) && final(self).mem()
                        == m.mem && final(self).cursor() == m.cursor && final(output)@ == old(
                        output,
                    )@ + m.output,
                }
            }),
    {
        let ghost m0 = Machine {
            pc: 0,
            mem: old(self).mem(),
            cursor: old(self).cursor(),
            input: input@,
            output: Seq::empty(),
        };
        let ghost base = old(output)@.len() as int;
        let mut next_instruction: usize = 0;
        let mut in_pos: usize = 0;
        let mut remaining = budget;
        proof {
            assert(input@.skip(0) =~= input@);
            assert(output@.skip(base) =~= Seq::<u8>::empty());
            assert(output@.take(base) =~= old(output)@);
            assert((Machine {
                pc: 0 as nat,
                mem: self.mem(),
                cursor: self.cursor(),
                input: input@.skip(0),
                output: output@.skip(base),
            }) == m0);
        }

        while next_instruction < program.len()
            invariant
                self.wf(),
                jumps_wf(program@),
                in_pos <= input@.len(),
                base == old(output)@.len(),
                output@.len() >= base,
                output@.take(base) == old(output)@,
                m0 == (Machine {
                    pc: 0,
                    mem: old(self).mem(),
                    cursor: old(self).cursor(),
                    input: input@,
                    output: Seq::empty(),
                }),
                vm_run(
                    program@,
                    Machine {
                        pc: next_instruction as nat,
                        mem: self.mem(),
                        cursor: self.cursor(),
                        input: input@.skip(in_pos as int),
                        output: output@.skip(base),
                    },
                    remaining as nat,
                ) == vm_run(program@, m0, budget as nat),
            decreases remaining,
        {
            let ghost mnow = Machine {
                pc: next_instruction as nat,
                mem: self.mem(),
                cursor: self.cursor(),
                input: input@.skip(in_pos as int),
                output: output@.skip(base),
            };
            if remaining == 0 {
                proof {
                    assert(vm_run(program@, mnow, 0) == Outcome::Exhausted(mnow));
                }
                return Ok(false);
            }
            remaining = remaining - 1;
            match program[next_instruction] {
                Instruction::MoveRight(steps) => {
                    if steps >= self.memory.len() - self.pointer {
                        proof {
                            assert(vm_run(program@, mnow, (remaining + 1) as nat)
                                == Outcome::Failed(Error::PointerOverflow, mnow));
                        }
                        return Err(Error::PointerOverflow);
                    }
                    self.pointer = self.pointer + steps;
                },
                Instruction::MoveLeft(steps) => {
                    if self.pointer < steps {
                        proof {
                            assert(vm_run(program@, mnow, (remaining + 1) as nat)
                                == Outcome::Failed(Error::PointerUnderflow, mnow));
                        }
                        return Err(Error::PointerUnderflow);
                    }
                    self.pointer = self.pointer - steps;
                },
                Instruction::Add(term) => {
                    let delta = (term % 256) as u8;
                    let cell = self.read_current_cell();
                    let value = cell.wrapping_add(delta);
                    proof {
                        assert(value == ((cell + term) % 256) as u8) by (nonlinear_arith)
                            requires
                                value == vstd::wrapping::u8_specs::wrapping_add(cell, delta),
                                delta == term % 256,
                                0 <= cell < 256,
                        ;
                    }
                    self.write_current_cell(value);
                },
                Instruction::Sub(term) => {
                    let delta = (term % 256) as u8;
                    let cell = self.read_current_cell();
                    let value = cell.wrapping_sub(delta);
                    proof {
                        assert(value == ((cell - term) % 256) as u8) by (nonlinear_arith)
                            requires
                                value == vstd::wrapping::u8_specs::wrapping_sub(cell, delta),
                                delta == term % 256,
                                0 <= cell < 256,
                        ;
                    }
                    self.write_current_cell(value);
                },
                Instruction::JumpIfZero(target) => {
                    if self.read_current_cell() == 0 {
                        next_instruction = target;
                    }
                },
                Instruction::JumpIfNotZero(target) => {
                    if self.read_current_cell() != 0 {
                        next_instruction = target;
                    }
                },
                Instruction::Print => {
                    let cell = self.read_current_cell();
                    output.push(cell);
                    proof {
                        assert(output@.take(base) =~= old(output)@);
                        assert(output@.skip(base) =~= mnow.output.push(cell));
                    }
                },
                Instruction::Read => {
                    if in_pos < input.len() {
                        let value = input[in_pos];
                        in_pos = in_pos + 1;
                        self.write_current_cell(value);
                        proof {
                            assert(input@.skip(in_pos as int) =~= mnow.input.drop_first());
                            assert(mnow.input[0] == value);
                        }
                    } else {
                        proof {
                            assert(mnow.input.len() == 0);
                        }
                        self.write_current_cell(0);
                    }
                },
                Instruction::Clear => {
                    self.write_current_cell(0);
                },
            }
            next_instruction = next_instruction + 1;
        }
        proof {
            let mend = Machine {
                pc: next_instruction as nat,
                mem: self.mem(),
                cursor: self.cursor(),
                input: input@.skip(in_pos as int),
                output: output@.skip(base),
            };
            assert(vm_run(program@, mend, remaining as nat) == Outcome::Done(mend));
            assert(output@ =~= old(output)@ + output@.skip(base));
        }
        Ok(true)
    }
}

} // verus!
