//! Practice sessions.

use vstd::prelude::*;
use crate::pattern::pattern_string;
use crate::script::MorseCharacterSet;

verus! {

/// One item of a practice session: a character to be recognised, with its
/// pattern.
#[derive(Debug, Clone, PartialEq, Eq, PartialOrd, Ord)]
pub struct PracticeItem {
    /// The pattern, written with `0` for a short and `1` for a long mark.
    pub morse_code: String,
    /// The character that the pattern stands for.
    pub character: char,
    /// The speed to aim at, in words per minute.
    pub wpm_target: u32,
    /// How often the item was answered correctly.
    pub success_count: u32,
    /// When the item was last asked, as a timestamp.
    pub last_tested: u64,
}

/// The speed that a new practice item aims at, in words per minute.
pub const DEFAULT_WPM_TARGET: u32 = 20;

/// The practice sessions.
#[derive(Default)]
pub struct Learning {}

impl Learning {
    /// A new set of practice sessions.
    pub fn new() -> (r: Learning)
        ensures
            r == (Learning {  }),
    {
        Learning {  }
    }

    /// The items of a quiz: one item, the letter `A` with its pattern, never
    /// asked before, whatever scripts and count are given.
    pub fn start_quiz_challenge(&self, sets: Vec<MorseCharacterSet>, count: u32) -> (r: Vec<
        PracticeItem,
    >)
        ensures
            r@.len() == 1,
            r@[0].morse_code@ == seq!['0', '1'],
            r@[0].character == 'A',
            r@[0].wpm_target == DEFAULT_WPM_TARGET,
            r@[0].success_count == 0,
            r@[0].last_tested == 0,
    {
        let morse_code = pattern_string(0b1_01);
        proof {
            reveal_with_fuel(crate::pattern::marks, 4);
            assert(crate::pattern::marks(0b1_01) =~= seq!['0', '1']);
        }
        let mut items: Vec<PracticeItem> = Vec::new();
        items.push(
            PracticeItem {
                morse_code,
                character: 'A',
                wpm_target: DEFAULT_WPM_TARGET,
                success_count: 0,
                last_tested: 0,
            },
        );
        items
    }
}

} // verus!
