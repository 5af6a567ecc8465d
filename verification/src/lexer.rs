//! Character classification: maps source text to the eight command symbols,
//! silently dropping every other character.

use vstd::prelude::*;
use vstd::string::StrSliceExecFns;

verus! {

/// One of the eight command symbols of the source language.
#[derive(Clone, Copy, Debug, PartialEq, Eq, Structural)]
pub enum Command {
    MoveRight,
    MoveLeft,
    Add,
    Sub,
    JumpIfZero,
    JumpIfNotZero,
    Print,
    Read,
}

/// The command a single source character stands for, if any.
pub open spec fn char_command(c: char) -> Option<Command> {
    if c == '>' {
        Some(Command::MoveRight)
    } else if c == '<' {
        Some(Command::MoveLeft)
    } else if c == '+' {
        Some(Command::Add)
    } else if c == '-' {
        Some(Command::Sub)
    } else if c == '[' {
        Some(Command::JumpIfZero)
    } else if c == ']' {
        Some(Command::JumpIfNotZero)
    } else if c == '.' {
        Some(Command::Print)
    } else if c == ',' {
        Some(Command::Read)
    } else {
        None
    }
}

/// The command sequence of a source text: the commands of its mapped
/// characters in order, every unmapped character dropped.
pub open spec fn commands_of(s: Seq<char>) -> Seq<Command>
    decreases s.len(),
{
    if s.len() == 0 {
        Seq::empty()
    } else {
        match char_command(s.last()) {
            Some(c) => commands_of(s.drop_last()).push(c),
            None => commands_of(s.drop_last()),
        }
    }
}

fn lex_char(chr: char) -> (r: Option<Command>)
    ensures
        r == char_command(chr),
{
    match chr {
        '>' => Some(Command::MoveRight),
        '<' => Some(Command::MoveLeft),
        '+' => Some(Command::Add),
        '-' => Some(Command::Sub),
        '[' => Some(Command::JumpIfZero),
        ']' => Some(Command::JumpIfNotZero),
        '.' => Some(Command::Print),
        ',' => Some(Command::Read),
        _ => None,
    }
}

/// Lexes a source text into its command sequence.
pub fn lex(text: &str) -> (r: Vec<Command>)
    ensures
        r@ == commands_of(text@),
{
    let len = text.unicode_len();
    let mut out: Vec<Command> = Vec::new();
    let mut i: usize = 0;
    while i < len
        invariant
            i <= len,
            len == text@.len(),
            out@ == commands_of(text@.subrange(0, i as int)),
        decreases len - i,
    {
        let c = text.get_char(i);
        proof {
            let pre = text@.subrange(0, i + 1);
            assert(pre.drop_last() =~= text@.subrange(0, i as int));
            assert(pre.last() == c);
        }
        if let Some(cmd) = lex_char(c) {
            out.push(cmd);
        }
        i = i + 1;
    }
    proof {
        assert(text@.subrange(0, len as int) =~= text@);
    }
    out
}

} // verus!
