//! The source-to-source code generator: translates an optimized program
//! into host-language source text that, compiled against the same memory
//! size and I/O boundaries, reproduces the program's output byte for byte.
//! Loops become native while-loops on the cell at the cursor, arithmetic
//! uses native wrapping byte operations.

use vstd::prelude::*;
use vstd::string::StringExecFns;

use crate::program::{lemma_seq_view_index, seq_view, Instr, Instruction, Program};

verus! {

broadcast use vstd::std_specs::vec::group_vec_axioms, vstd::seq::group_seq_axioms;

/// The decimal digit character for one value below ten.
pub open spec fn digit_char(d: nat) -> Seq<char> {
    if d == 0 {
        "0"@
    } else if d == 1 {
        "1"@
    } else if d == 2 {
        "2"@
    } else if d == 3 {
        "3"@
    } else if d == 4 {
        "4"@
    } else if d == 5 {
        "5"@
    } else if d == 6 {
        "6"@
    } else if d == 7 {
        "7"@
    } else if d == 8 {
        "8"@
    } else {
        "9"@
    }
}

/// The decimal notation of a number, most significant digit first.
pub open spec fn decimal(n: nat) -> Seq<char>
    decreases n,
{
    if n < 10 {
        digit_char(n)
    } else {
        decimal(n / 10) + digit_char(n % 10)
    }
}

/// The source text one node translates to, at the given indentation.
pub open spec fn instr_text(i: Instr, ind: Seq<char>) -> Seq<char>
    decreases i, 0int,
{
    match i {
        Instr::MoveRight(n) => ind + "pointer += "@ + decimal(n) + ";\n"@,
        Instr::MoveLeft(n) => ind + "pointer -= "@ + decimal(n) + ";\n"@,
        Instr::Add(n) => ind + "memory[pointer] = memory[pointer].wrapping_add("@ + decimal(n)
            + ");\n"@,
        Instr::Sub(n) => ind + "memory[pointer] = memory[pointer].wrapping_sub("@ + decimal(n)
            + ");\n"@,
        Instr::Print => ind + "print(memory[pointer]);\n"@,
        Instr::Read => ind + "memory[pointer] = read();\n"@,
        Instr::Store(n) => ind + "memory[pointer] = "@ + decimal(n) + ";\n"@,
        Instr::Loop(b) => ind + "while memory[pointer] != 0 {\n"@ + seq_text(b, ind + "    "@)
            + ind + "}\n"@,
    }
}

/// The source text a sequence of nodes translates to, in order.
pub open spec fn seq_text(s: Seq<Instr>, ind: Seq<char>) -> Seq<char>
    decreases s, 1int,
{
    if s.len() == 0 {
        Seq::empty()
    } else {
        seq_text(s.drop_last(), ind) + instr_text(s.last(), ind)
    }
}

/// The fixed prelude of every generated program: the I/O helpers and the
/// head of `main` with the tape and the cursor.
pub open spec fn header_text() -> Seq<char> {
    "use std::io::{self, Read, Write};\n\n"@
        + "fn read() -> u8 {\n    let mut buffer = [0; 1];\n    let bytes = io::stdin().read(&mut buffer).unwrap();\n    if bytes > 0 { buffer[0] } else { 0 }\n}\n\n"@
        + "fn print(value: u8) {\n    io::stdout().write_all(&[value]).unwrap();\n}\n\n"@
        + "fn main() {\n    let mut memory = [0u8; 32768];\n    let mut pointer = 0usize;\n\n"@
}

/// The whole source text a program translates to.
pub open spec fn generated(p: Seq<Instr>) -> Seq<char> {
    header_text() + seq_text(p, "    "@) + "}\n"@
}

/// Appends the decimal notation of `n`.
fn push_decimal(out: &mut String, n: usize)
    ensures
        final(out)@ == old(out)@ + decimal(n as nat),
    decreases n,
{
    let ghost prefix = out@;
    if n >= 10 {
        push_decimal(out, n / 10);
    }
    let d = n % 10;
    match d {
        0 => out.append("0"),
        1 => out.append("1"),
        2 => out.append("2"),
        3 => out.append("3"),
        4 => out.append("4"),
        5 => out.append("5"),
        6 => out.append("6"),
        7 => out.append("7"),
        8 => out.append("8"),
        _ => out.append("9"),
    }
    proof {
        assert(out@ =~= prefix + decimal(n as nat));
    }
}

/// Appends the translation of one node at the given indentation.
fn gen_instruction(out: &mut String, instruction: &Instruction, indent: &str)
    ensures
        final(out)@ == old(out)@ + instr_text(instruction@, indent@),
    decreases instruction,
{
    let ghost prefix = out@;
    match instruction {
        Instruction::MoveRight(n) => {
            out.append(indent);
            out.append("pointer += ");
            push_decimal(out, *n);
            out.append(";\n");
        },
        Instruction::MoveLeft(n) => {
            out.append(indent);
            out.append("pointer -= ");
            push_decimal(out, *n);
            out.append(";\n");
        },
        Instruction::Add(n) => {
            out.append(indent);
            out.append("memory[pointer] = memory[pointer].wrapping_add(");
            push_decimal(out, *n);
            out.append(");\n");
        },
        Instruction::Sub(n) => {
            out.append(indent);
            out.append("memory[pointer] = memory[pointer].wrapping_sub(");
            push_decimal(out, *n);
            out.append(");\n");
        },
        Instruction::Print => {
            out.append(indent);
            out.append("print(memory[pointer]);\n");
        },
        Instruction::Read => {
            out.append(indent);
            out.append("memory[pointer] = read();\n");
        },
        Instruction::Store(n) => {
            out.append(indent);
            out.append("memory[pointer] = ");
            push_decimal(out, *n);
            out.append(";\n");
        },
        Instruction::Loop { body } => {
            out.append(indent);
            out.append("while memory[pointer] != 0 {\n");
            let mut deeper = indent.to_owned();
            deeper.append("    ");
            gen_instructions(out, body, deeper.as_str());
            out.append(indent);
            out.append("}\n");
        },
    }
    proof {
        assert(out@ =~= prefix + instr_text(instruction@, indent@));
    }
}

/// Appends the translation of a vector of nodes, in order.
fn gen_instructions(out: &mut String, instructions: &Vec<Instruction>, indent: &str)
    ensures
        final(out)@ == old(out)@ + seq_text(seq_view(instructions@), indent@),
    decreases instructions,
{
    let ghost prefix = out@;
    let ghost smodel = seq_view(instructions@);
    proof {
        lemma_seq_view_index(instructions@);
    }
    let mut i: usize = 0;
    while i < instructions.len()
        invariant
            i <= instructions@.len(),
            smodel == seq_view(instructions@),
            smodel.len() == instructions@.len(),
            forall|j: int| 0 <= j < smodel.len() ==> smodel[j] == instructions@[j]@,
            out@ == prefix + seq_text(smodel.take(i as int), indent@),
        decreases instructions@.len() - i,
    {
        gen_instruction(out, &instructions[i], indent);
        proof {
            assert(smodel.take(i + 1).drop_last() =~= smodel.take(i as int));
            assert(smodel.take(i + 1).last() == smodel[i as int]);
            assert(out@ =~= prefix + seq_text(smodel.take(i + 1), indent@));
        }
        i = i + 1;
    }
    proof {
        assert(smodel.take(smodel.len() as int) =~= smodel);
    }
}

/// Translates a program into host-language source text; the result is
/// exactly the text the translation scheme assigns to the program's model.
#[must_use]
pub fn generate_code(program: &Program) -> (r: String)
    ensures
        r@ == generated(program@),
{
    let mut out = String::new();
    out.append("use std::io::{self, Read, Write};\n\n");
    out.append(
        "fn read() -> u8 {\n    let mut buffer = [0; 1];\n    let bytes = io::stdin().read(&mut buffer).unwrap();\n    if bytes > 0 { buffer[0] } else { 0 }\n}\n\n",
    );
    out.append("fn print(value: u8) {\n    io::stdout().write_all(&[value]).unwrap();\n}\n\n");
    out.append("fn main() {\n    let mut memory = [0u8; 32768];\n    let mut pointer = 0usize;\n\n");
    let ghost header_done = out@;
    proof {
        assert(header_done =~= header_text());
    }
    let instructions = program.instructions();
    let ghost pmodel = program@;
    proof {
        lemma_seq_view_index(instructions@);
    }
    let mut i: usize = 0;
    while i < instructions.len()
        invariant
            i <= instructions@.len(),
            pmodel == seq_view(instructions@),
            pmodel.len() == instructions@.len(),
            forall|j: int| 0 <= j < pmodel.len() ==> pmodel[j] == instructions@[j]@,
            header_done == header_text(),
            out@ == header_done + seq_text(pmodel.take(i as int), "    "@),
        decreases instructions@.len() - i,
    {
        gen_instruction(&mut out, &instructions[i], "    ");
        proof {
            assert(pmodel.take(i + 1).drop_last() =~= pmodel.take(i as int));
            assert(pmodel.take(i + 1).last() == pmodel[i as int]);
            assert(out@ =~= header_done + seq_text(pmodel.take(i + 1), "    "@));
        }
        i = i + 1;
    }
    out.append("}\n");
    proof {
        assert(pmodel.take(pmodel.len() as int) =~= pmodel);
        assert(out@ =~= generated(pmodel));
    }
    out
}

} // verus!
