//! The scripts whose characters have Morse patterns.

use vstd::prelude::*;

verus! {

/// A named alphabet. The declaration order is the enumeration order: it is the
/// priority that a script has when no other order is asked for.
#[derive(Debug, Clone, Copy, PartialEq, Eq, PartialOrd, Ord, Hash, Structural)]
pub enum MorseCharacterSet {
    /// The basic Latin alphabet, upper case.
    Latin,
    /// The decimal digits.
    Numbers,
    /// Punctuation marks.
    Punctuation,
    /// Latin letters with diacritics.
    LatinExtended,
    /// The Cyrillic alphabet.
    Cyrillic,
    /// The Greek alphabet.
    Greek,
    /// The Hebrew alphabet.
    Hebrew,
    /// The Arabic alphabet.
    Arabic,
    /// The Persian alphabet.
    Persian,
    /// Japanese katakana (Wabun code).
    Japanese,
    /// Korean jamo (SKATS).
    Korean,
    /// The Thai alphabet.
    Thai,
}

/// How many scripts there are.
pub const SCRIPT_COUNT: usize = 12;

/// All scripts in enumeration order.
pub open spec fn all_scripts() -> Seq<MorseCharacterSet> {
    seq![
        MorseCharacterSet::Latin,
        MorseCharacterSet::Numbers,
        MorseCharacterSet::Punctuation,
        MorseCharacterSet::LatinExtended,
        MorseCharacterSet::Cyrillic,
        MorseCharacterSet::Greek,
        MorseCharacterSet::Hebrew,
        MorseCharacterSet::Arabic,
        MorseCharacterSet::Persian,
        MorseCharacterSet::Japanese,
        MorseCharacterSet::Korean,
        MorseCharacterSet::Thai,
    ]
}

impl MorseCharacterSet {
    /// The position of the script in the enumeration order.
    pub open spec fn rank(self) -> int {
        match self {
            MorseCharacterSet::Latin => 0,
            MorseCharacterSet::Numbers => 1,
            MorseCharacterSet::Punctuation => 2,
            MorseCharacterSet::LatinExtended => 3,
            MorseCharacterSet::Cyrillic => 4,
            MorseCharacterSet::Greek => 5,
            MorseCharacterSet::Hebrew => 6,
            MorseCharacterSet::Arabic => 7,
            MorseCharacterSet::Persian => 8,
            MorseCharacterSet::Japanese => 9,
            MorseCharacterSet::Korean => 10,
            MorseCharacterSet::Thai => 11,
        }
    }

    /// The position of the script in the enumeration order.
    pub fn ordinal(self) -> (r: usize)
        ensures
            r == self.rank(),
            r < SCRIPT_COUNT,
            all_scripts()[r as int] == self,
    {
        match self {
            MorseCharacterSet::Latin => 0,
            MorseCharacterSet::Numbers => 1,
            MorseCharacterSet::Punctuation => 2,
            MorseCharacterSet::LatinExtended => 3,
            MorseCharacterSet::Cyrillic => 4,
            MorseCharacterSet::Greek => 5,
            MorseCharacterSet::Hebrew => 6,
            MorseCharacterSet::Arabic => 7,
            MorseCharacterSet::Persian => 8,
            MorseCharacterSet::Japanese => 9,
            MorseCharacterSet::Korean => 10,
            MorseCharacterSet::Thai => 11,
        }
    }

    /// The script at a position of the enumeration order, if there is one.
    pub fn from_ordinal(index: usize) -> (r: Option<MorseCharacterSet>)
        ensures
            index < SCRIPT_COUNT ==> r == Some(all_scripts()[index as int]),
            index >= SCRIPT_COUNT ==> r is None,
    {
        match index {
            0 => Some(MorseCharacterSet::Latin),
            1 => Some(MorseCharacterSet::Numbers),
            2 => Some(MorseCharacterSet::Punctuation),
            3 => Some(MorseCharacterSet::LatinExtended),
            4 => Some(MorseCharacterSet::Cyrillic),
            5 => Some(MorseCharacterSet::Greek),
            6 => Some(MorseCharacterSet::Hebrew),
            7 => Some(MorseCharacterSet::Arabic),
            8 => Some(MorseCharacterSet::Persian),
            9 => Some(MorseCharacterSet::Japanese),
            10 => Some(MorseCharacterSet::Korean),
            11 => Some(MorseCharacterSet::Thai),
            _ => None,
        }
    }
}

/// Every script stands in the enumeration, at the position of its rank, and
/// nowhere else.
pub proof fn lemma_all_scripts()
    ensures
        all_scripts().len() == SCRIPT_COUNT,
        all_scripts().no_duplicates(),
        forall|s: MorseCharacterSet| 0 <= s.rank() < 12 && #[trigger] all_scripts()[s.rank()] == s,
        forall|s: MorseCharacterSet| #[trigger] all_scripts().contains(s),
{
    assert forall|s: MorseCharacterSet| 0 <= s.rank() < 12 && #[trigger] all_scripts()[s.rank()] == s by {}
    assert forall|s: MorseCharacterSet| #[trigger] all_scripts().contains(s) by {
        assert(all_scripts()[s.rank()] == s);
    }
    assert forall|i: int, j: int|
        0 <= i < all_scripts().len() && 0 <= j < all_scripts().len() && i != j implies all_scripts()[i]
        != all_scripts()[j] by {
        assert(all_scripts()[i].rank() == i);
        assert(all_scripts()[j].rank() == j);
    }
}

} // verus!
