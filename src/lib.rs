//! Parsing and materialization of simai-style chart notation.
//!
//! Text is turned into a list of span-tagged instructions by [`insn::parse_maidata_insns`],
//! and instructions are replayed into absolutely timed notes by
//! [`materialize::MaterializationContext`]. All timing is exact rational arithmetic.
use vstd::prelude::*;

pub mod container;
pub mod insn;
pub mod lemmas;
pub mod materialize;
pub mod number;
pub mod span;

pub use span::{Sp, Span};

verus! {

/// One of the seven difficulty slots of a chart.
#[derive(Copy, Clone, Eq, PartialEq, Hash, Debug, Structural)]
pub enum Difficulty {
    /// The EASY difficulty.
    Easy,
    /// The BASIC difficulty.
    Basic,
    /// The ADVANCED difficulty.
    Advanced,
    /// The EXPERT difficulty.
    Expert,
    /// The MASTER difficulty.
    Master,
    /// The Re:MASTER difficulty.
    ReMaster,
    /// The ORIGINAL difficulty, previously called mai:EDIT in 2simai.
    Original,
}

/// The difficulty that a digit `1` to `7` names in key names of the container format.
pub open spec fn difficulty_of(c: char) -> Option<Difficulty> {
    if c == '1' {
        Some(Difficulty::Easy)
    } else if c == '2' {
        Some(Difficulty::Basic)
    } else if c == '3' {
        Some(Difficulty::Advanced)
    } else if c == '4' {
        Some(Difficulty::Expert)
    } else if c == '5' {
        Some(Difficulty::Master)
    } else if c == '6' {
        Some(Difficulty::ReMaster)
    } else if c == '7' {
        Some(Difficulty::Original)
    } else {
        None
    }
}

impl Difficulty {
    /// The position of the difficulty, from 0 for EASY to 6 for ORIGINAL.
    pub open spec fn spec_index(self) -> nat {
        match self {
            Difficulty::Easy => 0,
            Difficulty::Basic => 1,
            Difficulty::Advanced => 2,
            Difficulty::Expert => 3,
            Difficulty::Master => 4,
            Difficulty::ReMaster => 5,
            Difficulty::Original => 6,
        }
    }

    /// The position of the difficulty, from 0 for EASY to 6 for ORIGINAL.
    pub fn index(&self) -> (r: usize)
        ensures
            r == self.spec_index(),
    {
        match self {
            Difficulty::Easy => 0,
            Difficulty::Basic => 1,
            Difficulty::Advanced => 2,
            Difficulty::Expert => 3,
            Difficulty::Master => 4,
            Difficulty::ReMaster => 5,
            Difficulty::Original => 6,
        }
    }

    /// The difficulty that a digit names.
    pub fn from_digit(c: char) -> (r: Option<Difficulty>)
        ensures
            r == difficulty_of(c),
    {
        match c {
            '1' => Some(Difficulty::Easy),
            '2' => Some(Difficulty::Basic),
            '3' => Some(Difficulty::Advanced),
            '4' => Some(Difficulty::Expert),
            '5' => Some(Difficulty::Master),
            '6' => Some(Difficulty::ReMaster),
            '7' => Some(Difficulty::Original),
            _ => None,
        }
    }
}

/// The displayed level of a difficulty.
#[derive(Copy, Clone, Eq, PartialEq, Hash, Debug, Structural)]
pub enum Level {
    /// The "Lv.X" form.
    Normal(u8),
    /// The "Lv.X+" form.
    Plus(u8),
    /// The special "Lv.<any char>" form.
    Char(char),
}

/// The decimal digit of `d`, below ten.
pub open spec fn digit_char(d: nat) -> char {
    ('0' as u32 + d) as char
}

/// The decimal notation of `n`.
pub open spec fn decimal_text(n: nat) -> Seq<char>
    decreases n,
{
    if n < 10 {
        seq![digit_char(n)]
    } else {
        decimal_text(n / 10).push(digit_char(n % 10))
    }
}

/// How a level is shown: `13`, `13+`, or the special character.
pub open spec fn level_text(l: Level) -> Seq<char> {
    match l {
        Level::Normal(n) => decimal_text(n as nat),
        Level::Plus(n) => decimal_text(n as nat).push('+'),
        Level::Char(c) => seq![c],
    }
}

fn push_decimal(out: &mut Vec<char>, n: u8)
    ensures
        final(out)@ == old(out)@ + decimal_text(n as nat),
{
    proof {
        reveal_with_fuel(decimal_text, 3);
    }
    if n >= 100 {
        out.push(((n / 100) + 48) as char);
    }
    if n >= 10 {
        out.push((((n / 10) % 10) + 48) as char);
    }
    out.push(((n % 10) + 48) as char);
    proof {
        if n >= 100 {
            assert(decimal_text(n as nat) =~= seq![
                digit_char((n / 100) as nat),
                digit_char(((n / 10) % 10) as nat),
                digit_char((n % 10) as nat),
            ]);
        } else if n >= 10 {
            assert(decimal_text(n as nat) =~= seq![
                digit_char((n / 10) as nat),
                digit_char((n % 10) as nat),
            ]);
        }
    }
    assert(out@ =~= old(out)@ + decimal_text(n as nat));
}

impl Level {
    /// How the level is shown: `13`, `13+`, or the special character.
    pub fn to_text(&self) -> (r: Vec<char>)
        ensures
            r@ == level_text(*self),
    {
        let mut out: Vec<char> = Vec::new();
        match self {
            Level::Normal(n) => push_decimal(&mut out, *n),
            Level::Plus(n) => {
                push_decimal(&mut out, *n);
                out.push('+');
            },
            Level::Char(c) => out.push(*c),
        }
        assert(out@ =~= level_text(*self));
        out
    }
}

} // verus!
