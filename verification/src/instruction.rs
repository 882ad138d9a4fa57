//! The instruction alphabet and the parser from program text.

use vstd::prelude::*;

verus! {

/// One of the eight primitive operations of the language.
#[derive(Copy, Clone, PartialEq, Eq, Debug, Structural)]
pub enum Instruction {
    /// `>`: move the cursor one cell to the right.
    MoveRight,
    /// `<`: move the cursor one cell to the left.
    MoveLeft,
    /// `+`: add one to the current cell, wrapping from 255 to 0.
    Increment,
    /// `-`: subtract one from the current cell, stopping at 0.
    Decrement,
    /// `.`: emit the current cell.
    Output,
    /// `,`: store one byte of input in the current cell.
    Input,
    /// `[`: jump past the matching `]` if the current cell is zero.
    LoopStart,
    /// `]`: jump back past the matching `[` if the current cell is not zero.
    LoopEnd,
}

impl Instruction {
    /// The instruction that a character of program text stands for, if any.
    pub open spec fn decode(c: char) -> Option<Instruction> {
        if c == '>' {
            Some(Instruction::MoveRight)
        } else if c == '<' {
            Some(Instruction::MoveLeft)
        } else if c == '+' {
            Some(Instruction::Increment)
        } else if c == '-' {
            Some(Instruction::Decrement)
        } else if c == '.' {
            Some(Instruction::Output)
        } else if c == ',' {
            Some(Instruction::Input)
        } else if c == '[' {
            Some(Instruction::LoopStart)
        } else if c == ']' {
            Some(Instruction::LoopEnd)
        } else {
            None
        }
    }

    /// The character is one of the eight that stand for an instruction.
    pub open spec fn is_recognized(c: char) -> bool {
        Instruction::decode(c) is Some
    }

    /// The program that a text denotes: the instructions of its recognized
    /// characters, in the order of the text.  Every other character is a
    /// comment and contributes nothing.
    pub open spec fn parse_spec(source: Seq<char>) -> Seq<Instruction> {
        source.filter_map(|c: char| Instruction::decode(c))
    }

    /// Executable form of [`Instruction::decode`].
    pub fn from_char(c: char) -> (r: Option<Instruction>)
        ensures
            r == Instruction::decode(c),
    {
        match c {
            '>' => Some(Instruction::MoveRight),
            '<' => Some(Instruction::MoveLeft),
            '+' => Some(Instruction::Increment),
            '-' => Some(Instruction::Decrement),
            '.' => Some(Instruction::Output),
            ',' => Some(Instruction::Input),
            '[' => Some(Instruction::LoopStart),
            ']' => Some(Instruction::LoopEnd),
            _ => None,
        }
    }

    /// Parses a program text.  No text is rejected; bracket balance is not
    /// examined here.
    pub fn parse(s: &str) -> (program: Vec<Instruction>)
        ensures
            program@ == Instruction::parse_spec(s@),
            program@.len() == s@.filter(|c: char| Instruction::is_recognized(c)).len(),
    {
        let mut program: Vec<Instruction> = Vec::with_capacity(s.len());
        let ghost decode = |c: char| Instruction::decode(c);
        for c in it: s.chars()
            invariant
                it.seq() == s@,
                decode == (|c: char| Instruction::decode(c)),
                program@ == s@.take(it.index()).filter_map(decode),
        {
            proof {
                s@.lemma_filter_map_take_succ(decode, it.index());
            }
            match Instruction::from_char(c) {
                Some(i) => program.push(i),
                None => {},
            }
        }
        proof {
            assert(s@.take(s@.len() as int) == s@);
            lemma_parse_keeps_recognized(s@);
        }
        program
    }
}

/// Parsing keeps the recognized characters of the text, in their order, and
/// replaces each by its instruction.  So the program has as many instructions
/// as the text has recognized characters.
pub proof fn lemma_parse_keeps_recognized(source: Seq<char>)
    ensures
        Instruction::parse_spec(source) == source.filter(
            |c: char| Instruction::is_recognized(c),
        ).map_values(|c: char| Instruction::decode(c).unwrap()),
        Instruction::parse_spec(source).len() == source.filter(
            |c: char| Instruction::is_recognized(c),
        ).len(),
    decreases source.len(),
{
    let keep = |c: char| Instruction::is_recognized(c);
    let instruction = |c: char| Instruction::decode(c).unwrap();
    reveal(Seq::filter);
    if source.len() > 0 {
        let rest = source.drop_last();
        lemma_parse_keeps_recognized(rest);
        if keep(source.last()) {
            rest.filter(keep).lemma_push_map_commute(instruction, source.last());
        }
    }
}

/// Parsing a text in two parts gives the two programs one after the other.
pub proof fn lemma_parse_concat(first: Seq<char>, second: Seq<char>)
    ensures
        Instruction::parse_spec(first + second) == Instruction::parse_spec(first)
            + Instruction::parse_spec(second),
    decreases second.len(),
{
    if second.len() > 0 {
        lemma_parse_concat(first, second.drop_last());
        assert((first + second).drop_last() =~= first + second.drop_last());
    }
}

/// A text of recognized characters only is parsed character by character:
/// the program is as long as the text, and each instruction is the one that
/// the character at its position stands for.
pub proof fn lemma_parse_recognized_only(source: Seq<char>)
    requires
        forall|i: int| 0 <= i < source.len() ==> Instruction::is_recognized(#[trigger] source[i]),
    ensures
        Instruction::parse_spec(source).len() == source.len(),
        forall|i: int|
            0 <= i < source.len() ==> Instruction::decode(source[i]) == Some(
                #[trigger] Instruction::parse_spec(source)[i],
            ),
    decreases source.len(),
{
    if source.len() > 0 {
        lemma_parse_recognized_only(source.drop_last());
    }
}

/// A text without a recognized character is all comment: its program is
/// empty.
pub proof fn lemma_parse_comment_only(source: Seq<char>)
    requires
        forall|i: int| 0 <= i < source.len() ==> !Instruction::is_recognized(#[trigger] source[i]),
    ensures
        Instruction::parse_spec(source).len() == 0,
    decreases source.len(),
{
    if source.len() > 0 {
        lemma_parse_comment_only(source.drop_last());
    }
}

} // verus!
