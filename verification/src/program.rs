//! The tree-shaped intermediate representation: a program is an ordered
//! sequence of instructions, and a loop owns its body exclusively, so the
//! representation is a tree by construction.

use vstd::prelude::*;

pub mod clear_loop;
pub mod combine_instructions;
pub mod optimizer;
pub mod parser;
pub mod util;

pub use parser::Error;



verus! {

broadcast use vstd::std_specs::vec::group_vec_axioms, vstd::seq::group_seq_axioms;

/// Mathematical model of one IR node.
///
/// Loop bodies are sequences of nested nodes; magnitudes are unbounded
/// naturals. Executable [`Instruction`] values are abstracted to this type
/// by their view, and every contract in the crate speaks of it.
pub enum Instr {
    MoveRight(nat),
    MoveLeft(nat),
    Add(nat),
    Sub(nat),
    Loop(Seq<Instr>),
    Print,
    Read,
    Store(nat),
}

/// One node of the intermediate representation.
///
/// `MoveRight(n)`/`MoveLeft(n)` displace the cursor, `Add(n)`/`Sub(n)` change
/// the cell at the cursor modulo 256, `Loop` runs its body while the cell at
/// the cursor is non-zero, `Store(v)` assigns the cell, and `Print`/`Read` are
/// the two I/O operations.
#[derive(Debug, PartialEq, Eq)]
pub enum Instruction {
    MoveRight(usize),
    MoveLeft(usize),
    Add(usize),
    Sub(usize),
    Loop { body: Vec<Instruction> },
    Print,
    Read,
    Store(usize),
}

impl View for Instruction {
    type V = Instr;

    open spec fn view(&self) -> Instr
        decreases self,
    {
        match self {
            Instruction::MoveRight(n) => Instr::MoveRight(*n as nat),
            Instruction::MoveLeft(n) => Instr::MoveLeft(*n as nat),
            Instruction::Add(n) => Instr::Add(*n as nat),
            Instruction::Sub(n) => Instr::Sub(*n as nat),
            Instruction::Loop { body } => Instr::Loop(vec_view(*body)),
            Instruction::Print => Instr::Print,
            Instruction::Read => Instr::Read,
            Instruction::Store(v) => Instr::Store(*v as nat),
        }
    }
}

/// The models of the instructions a vector holds, element by element.
pub open spec fn vec_view(v: Vec<Instruction>) -> Seq<Instr>
    decreases v,
{
    seq_view(v@)
}

/// The models of a sequence of instructions, element by element.
pub open spec fn seq_view(s: Seq<Instruction>) -> Seq<Instr>
    decreases s,
{
    if s.len() == 0 {
        Seq::empty()
    } else {
        seq_view(s.drop_last()).push(s.last()@)
    }
}

/// `seq_view` maps the sequence element by element.
pub broadcast proof fn lemma_seq_view_index(s: Seq<Instruction>)
    ensures
        (#[trigger] seq_view(s)).len() == s.len(),
        forall|i: int| 0 <= i < s.len() ==> seq_view(s)[i] == s[i]@,
    decreases s.len(),
{
    if s.len() == 0 {
        assert(seq_view(s) == Seq::<Instr>::empty());
    } else {
        lemma_seq_view_index(s.drop_last());
        assert(seq_view(s) == seq_view(s.drop_last()).push(s.last()@));
        assert(seq_view(s).len() == s.len());
        assert forall|i: int| 0 <= i < s.len() implies seq_view(s)[i] == s[i]@ by {
            if i < s.len() - 1 {
                assert(s.drop_last()[i] == s[i]);
            } else {
                assert(s.last() == s[i]);
            }
        }
    }
}

/// Pushing an instruction extends the model sequence by its model.
pub proof fn lemma_seq_view_push(s: Seq<Instruction>, x: Instruction)
    ensures
        seq_view(s.push(x)) == seq_view(s).push(x@),
{
    assert(s.push(x).drop_last() =~= s);
    assert(s.push(x).last() == x);
}

/// Well-formedness of one model node: displacement and arithmetic magnitudes
/// are at least 1, stored literals fit in a byte, and loop bodies are
/// recursively well formed.
pub open spec fn instr_wf(i: Instr) -> bool
    decreases i,
{
    match i {
        Instr::MoveRight(n) => n >= 1,
        Instr::MoveLeft(n) => n >= 1,
        Instr::Add(n) => n >= 1,
        Instr::Sub(n) => n >= 1,
        Instr::Loop(b) => seq_wf(b),
        Instr::Print => true,
        Instr::Read => true,
        Instr::Store(v) => v <= 255,
    }
}

/// Well-formedness of every node of a model sequence.
pub open spec fn seq_wf(s: Seq<Instr>) -> bool
    decreases s,
{
    if s.len() == 0 {
        true
    } else {
        seq_wf(s.drop_last()) && instr_wf(s.last())
    }
}

/// A sequence is well formed exactly when each of its nodes is.
pub broadcast proof fn lemma_seq_wf_index(s: Seq<Instr>)
    ensures
        #[trigger] seq_wf(s) <==> (forall|i: int| 0 <= i < s.len() ==> instr_wf(#[trigger] s[i])),
    decreases s.len(),
{
    if s.len() == 0 {
        assert(seq_wf(s));
    } else {
        lemma_seq_wf_index(s.drop_last());
        assert(seq_wf(s) == (seq_wf(s.drop_last()) && instr_wf(s.last())));
        if seq_wf(s) {
            assert forall|i: int| 0 <= i < s.len() implies instr_wf(s[i]) by {
                if i < s.len() - 1 {
                    assert(s.drop_last()[i] == s[i]);
                } else {
                    assert(s.last() == s[i]);
                }
            }
        }
        if forall|i: int| 0 <= i < s.len() ==> instr_wf(#[trigger] s[i]) {
            assert forall|i: int| 0 <= i < s.drop_last().len() implies instr_wf(
                s.drop_last()[i],
            ) by {
                assert(s.drop_last()[i] == s[i]);
            }
            assert(instr_wf(s.last()));
        }
    }
}

impl Clone for Instruction {
    /// A clone abstracts to the same model as the original.
    fn clone(&self) -> (r: Self)
        ensures
            r@ == self@,
        decreases self,
    {
        match self {
            Instruction::MoveRight(n) => Instruction::MoveRight(*n),
            Instruction::MoveLeft(n) => Instruction::MoveLeft(*n),
            Instruction::Add(n) => Instruction::Add(*n),
            Instruction::Sub(n) => Instruction::Sub(*n),
            Instruction::Loop { body } => Instruction::Loop { body: clone_vec(body) },
            Instruction::Print => Instruction::Print,
            Instruction::Read => Instruction::Read,
            Instruction::Store(v) => Instruction::Store(*v),
        }
    }
}

/// A deep copy of an instruction vector, abstracting to the same model.
pub fn clone_vec(v: &Vec<Instruction>) -> (r: Vec<Instruction>)
    ensures
        vec_view(r) == vec_view(*v),
    decreases v,
{
    let mut copy: Vec<Instruction> = Vec::new();
    let mut i: usize = 0;
    while i < v.len()
        invariant
            i <= v.len(),
            copy.len() == i,
            forall|j: int| 0 <= j < i ==> copy@[j]@ == v@[j]@,
        decreases v.len() - i,
    {
        copy.push(v[i].clone());
        i = i + 1;
    }
    proof {
        lemma_seq_view_index(copy@);
        lemma_seq_view_index(v@);
        assert(seq_view(copy@) =~= seq_view(v@));
    }
    copy
}

/// Structural equality of two instructions: true exactly when the two
/// abstract to the same model.
pub fn instr_eq(a: &Instruction, b: &Instruction) -> (r: bool)
    ensures
        r <==> (a@ == b@),
    decreases a,
{
    match (a, b) {
        (Instruction::MoveRight(x), Instruction::MoveRight(y)) => x == y,
        (Instruction::MoveLeft(x), Instruction::MoveLeft(y)) => x == y,
        (Instruction::Add(x), Instruction::Add(y)) => x == y,
        (Instruction::Sub(x), Instruction::Sub(y)) => x == y,
        (Instruction::Loop { body: ba }, Instruction::Loop { body: bb }) => vec_eq(ba, bb),
        (Instruction::Print, Instruction::Print) => true,
        (Instruction::Read, Instruction::Read) => true,
        (Instruction::Store(x), Instruction::Store(y)) => x == y,
        _ => false,
    }
}

/// Structural equality of two instruction vectors, by their models.
pub fn vec_eq(a: &Vec<Instruction>, b: &Vec<Instruction>) -> (r: bool)
    ensures
        r <==> (vec_view(*a) == vec_view(*b)),
    decreases a,
{
    proof {
        lemma_seq_view_index(a@);
        lemma_seq_view_index(b@);
    }
    if a.len() != b.len() {
        return false;
    }
    let mut i: usize = 0;
    while i < a.len()
        invariant
            i <= a.len(),
            a.len() == b.len(),
            forall|j: int| 0 <= j < i ==> a@[j]@ == b@[j]@,
        decreases a.len() - i,
    {
        if !instr_eq(&a[i], &b[i]) {
            proof {
                lemma_seq_view_index(a@);
                lemma_seq_view_index(b@);
                assert(seq_view(a@)[i as int] != seq_view(b@)[i as int]);
            }
            return false;
        }
        i = i + 1;
    }
    proof {
        lemma_seq_view_index(a@);
        lemma_seq_view_index(b@);
        assert(seq_view(a@) =~= seq_view(b@));
    }
    true
}

/// A parsed program: an ordered sequence of top-level instructions, owned
/// as a tree. Its model is the sequence of its instruction models.
#[derive(Debug, PartialEq, Eq)]
pub struct Program {
    instructions: Vec<Instruction>,
}

impl View for Program {
    type V = Seq<Instr>;

    closed spec fn view(&self) -> Seq<Instr> {
        seq_view(self.instructions@)
    }
}

impl Clone for Program {
    /// A clone abstracts to the same model as the original.
    fn clone(&self) -> (r: Self)
        ensures
            r@ == self@,
    {
        Program { instructions: clone_vec(&self.instructions) }
    }
}

impl From<Vec<Instruction>> for Program {
    /// Wraps an instruction vector as a program, unchanged.
    fn from(instructions: Vec<Instruction>) -> (r: Self)
        ensures
            r@ == seq_view(instructions@),
    {
        Program { instructions }
    }
}

impl vstd::std_specs::convert::FromSpecImpl<Vec<Instruction>> for Program {
    open spec fn obeys_from_spec() -> bool {
        true
    }

    closed spec fn from_spec(instructions: Vec<Instruction>) -> Program {
        Program { instructions }
    }
}

impl Program {
    /// Parses a source text into a program; the contract of
    /// [`parser::parse`] carries over unchanged.
    pub fn parse(input: &str) -> (r: Result<Self, parser::Error>)
        ensures
            ({
                let cmds = crate::lexer::commands_of(input@);
                match r {
                    Ok(p) => parser::balanced(cmds) && parser::seq_unit(p@)
                        && parser::seq_commands(p@) == cmds,
                    Err(parser::Error::Syntax(m)) => !parser::balanced(cmds) && (
                    if parser::prefixes_nonneg(cmds) {
                        m@ == "Missing closing bracket"@
                    } else {
                        m@ == "Missing opening bracket"@
                    }),
                }
            }),
    {
        match parser::parse(input) {
            Ok(instructions) => Ok(Program { instructions }),
            Err(e) => Err(e),
        }
    }

    /// The optimized form of this program, as a new value; the original is
    /// left unchanged.
    #[must_use]
    pub fn optimized(&self) -> (r: Self)
        ensures
            r@ == optimizer::optimized_from(self@, 32),
    {
        let mut instructions = clone_vec(&self.instructions);
        optimizer::optimize(&mut instructions);
        Program { instructions }
    }

    /// The instructions of this program, in order.
    #[must_use]
    pub fn instructions(&self) -> (r: &[Instruction])
        ensures
            seq_view(r@) == self@,
    {
        self.instructions.as_slice()
    }
}

} // verus!
