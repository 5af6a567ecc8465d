//! The tape: a bounded byte array, a cursor, and the two in-memory I/O
//! buffers of one execution. Every cell operation works at the cursor; the
//! cursor moves only through the explicit displacement methods, which are
//! the only operations that can fail.

use vstd::prelude::*;
use vstd::pervasive::VecAdditionalExecFns;

use crate::interpreter::{init_state, Error, State};

verus! {

/// The exclusively owned state of one execution run.
pub struct Tape {
    input: Vec<u8>,
    input_pos: usize,
    output: Vec<u8>,
    memory: Vec<u8>,
    pointer: usize,
}

impl View for Tape {
    type V = State;

    closed spec fn view(&self) -> State {
        State {
            mem: self.memory@,
            cursor: self.pointer as nat,
            input: self.input@.skip(self.input_pos as int),
            output: self.output@,
        }
    }
}

impl Tape {
    /// The cursor stays on the tape and the input position inside the
    /// input buffer.
    pub closed spec fn wf(self) -> bool {
        self.pointer < self.memory.len() && self.input_pos <= self.input.len()
    }

    /// A fresh tape: zeroed memory of the given size, the cursor at the
    /// left end, the given input ahead and no output yet.
    #[must_use]
    pub fn new(input: Vec<u8>, memory_size: usize) -> (r: Self)
        requires
            memory_size >= 1,
        ensures
            r.wf(),
            r@ == init_state(input@, memory_size as nat),
    {
        let ghost given = input@;
        let r = Tape {
            input,
            input_pos: 0,
            output: Vec::new(),
            memory: vec![0u8; memory_size],
            pointer: 0,
        };
        proof {
            assert(r@.mem =~= Seq::new(memory_size as nat, |i: int| 0u8));
            assert(r@.input =~= given);
            assert(r@.output =~= Seq::<u8>::empty());
        }
        r
    }

    /// The byte in the cell at the cursor.
    pub fn read_current_cell(&self) -> (r: u8)
        requires
            self.wf(),
        ensures
            r == self@.mem[self@.cursor as int],
    {
        self.memory[self.pointer]
    }

    /// Overwrites the cell at the cursor.
    pub fn write_current_cell(&mut self, value: u8)
        requires
            old(self).wf(),
        ensures
            final(self).wf(),
            final(self)@ == (State {
                mem: old(self)@.mem.update(old(self)@.cursor as int, value),
                ..old(self)@
            }),
    {
        self.memory.set(self.pointer, value);
    }

    /// Adds to the cell at the cursor, wrapping modulo 256.
    pub fn increment_current_cell(&mut self, value: u8)
        requires
            old(self).wf(),
        ensures
            final(self).wf(),
            final(self)@ == (State {
                mem: old(self)@.mem.update(
                    old(self)@.cursor as int,
                    ((old(self)@.mem[old(self)@.cursor as int] + value) % 256) as u8,
                ),
                ..old(self)@
            }),
    {
        let cell = self.read_current_cell();
        let sum = cell.wrapping_add(value);
        proof {
            assert(sum == ((cell + value) % 256) as u8) by (nonlinear_arith)
                requires
                    sum == vstd::wrapping::u8_specs::wrapping_add(cell, value),
            ;
        }
        self.write_current_cell(sum);
    }

    /// Subtracts from the cell at the cursor, wrapping modulo 256.
    pub fn decrement_current_cell(&mut self, value: u8)
        requires
            old(self).wf(),
        ensures
            final(self).wf(),
            final(self)@ == (State {
                mem: old(self)@.mem.update(
                    old(self)@.cursor as int,
                    ((old(self)@.mem[old(self)@.cursor as int] - value) % 256) as u8,
                ),
                ..old(self)@
            }),
    {
        let cell = self.read_current_cell();
        let diff = cell.wrapping_sub(value);
        proof {
            assert(diff == ((cell - value) % 256) as u8) by (nonlinear_arith)
                requires
                    diff == vstd::wrapping::u8_specs::wrapping_sub(cell, value),
            ;
        }
        self.write_current_cell(diff);
    }

    /// Moves the cursor right; moving to the last valid index is allowed,
    /// moving past it fails and leaves the tape untouched.
    pub fn move_pointer_right(&mut self, steps: usize) -> (r: Result<(), Error>)
        requires
            old(self).wf(),
        ensures
            final(self).wf(),
            ({
                let st = old(self)@;
                if st.cursor + steps >= st.mem.len() {
                    r == Err::<(), Error>(Error::PointerOverflow) && final(self)@ == st
                } else {
                    r == Ok::<(), Error>(()) && final(self)@ == (State {
                        cursor: (st.cursor + steps) as nat,
                        ..st
                    })
                }
            }),
    {
        if steps >= self.memory.len() - self.pointer {
            return Err(Error::PointerOverflow);
        }
        self.pointer = self.pointer + steps;
        Ok(())
    }

    /// Moves the cursor left; moving before the first index fails and
    /// leaves the tape untouched.
    pub fn move_pointer_left(&mut self, steps: usize) -> (r: Result<(), Error>)
        requires
            old(self).wf(),
        ensures
            final(self).wf(),
            ({
                let st = old(self)@;
                if st.cursor < steps {
                    r == Err::<(), Error>(Error::PointerUnderflow) && final(self)@ == st
                } else {
                    r == Ok::<(), Error>(()) && final(self)@ == (State {
                        cursor: (st.cursor - steps) as nat,
                        ..st
                    })
                }
            }),
    {
        if self.pointer < steps {
            return Err(Error::PointerUnderflow);
        }
        self.pointer = self.pointer - steps;
        Ok(())
    }

    /// Writes the byte at the cursor to the output buffer. Writing to an
    /// in-memory buffer cannot fail.
    pub fn print(&mut self) -> (r: Result<(), Error>)
        requires
            old(self).wf(),
        ensures
            final(self).wf(),
            r == Ok::<(), Error>(()),
            final(self)@ == (State {
                output: old(self)@.output.push(old(self)@.mem[old(self)@.cursor as int]),
                ..old(self)@
            }),
    {
        let cell = self.read_current_cell();
        self.output.push(cell);
        Ok(())
    }

    /// Reads one byte from the input buffer into the cell at the cursor;
    /// at end of input the cell is set to 0, which is not an error.
    pub fn read(&mut self) -> (r: Result<(), Error>)
        requires
            old(self).wf(),
        ensures
            final(self).wf(),
            r == Ok::<(), Error>(()),
            ({
                let st = old(self)@;
                if st.input.len() > 0 {
                    final(self)@ == (State {
                        mem: st.mem.update(st.cursor as int, st.input[0]),
                        input: st.input.drop_first(),
                        ..st
                    })
                } else {
                    final(self)@ == (State { mem: st.mem.update(st.cursor as int, 0u8), ..st })
                }
            }),
    {
        if self.input_pos < self.input.len() {
            let value = self.input[self.input_pos];
            self.input_pos = self.input_pos + 1;
            self.write_current_cell(value);
            proof {
                assert(self@.input =~= old(self)@.input.drop_first());
            }
        } else {
            self.write_current_cell(0);
        }
        Ok(())
    }

    /// The cursor's current index.
    #[must_use]
    pub fn pointer(&self) -> (r: usize)
        ensures
            r as nat == self@.cursor,
    {
        self.pointer
    }

    /// Ends the run and hands back everything the program printed.
    #[must_use]
    pub fn into_output(self) -> (r: Vec<u8>)
        ensures
            r@ == self@.output,
    {
        self.output
    }
}

} // verus!
