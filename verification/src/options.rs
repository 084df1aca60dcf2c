//! The configuration of an encoder and decoder.

use vstd::prelude::*;
use crate::pattern::{LONG, SHORT};
use crate::script::{all_scripts, MorseCharacterSet};
use crate::text::{is_whitespace, white_space};

verus! {

/// What to write for a character that no table maps.
pub trait InvalidCharCallback: Send + Sync {
    /// The character that this policy writes in place of `character`.
    spec fn replacement(&self, character: char) -> char;

    /// The character written in place of `character`.
    fn invalid_char_callback(&self, character: char) -> (r: char)
        ensures
            r == self.replacement(character),
    ;
}

/// The symbols that an encoded string is written with, and the priority
/// order of the scripts.
#[derive(Debug, PartialEq, Eq, PartialOrd, Ord)]
pub struct Options {
    /// The symbol for a long mark.
    pub dash: char,
    /// The symbol for a short mark.
    pub dot: char,
    /// The symbol that stands for a space between words.
    pub space: char,
    /// The symbol that separates the patterns of two characters.
    pub separator: char,
    /// The scripts in the order in which they claim a character or a pattern.
    /// The scripts that are not listed follow the listed ones, in enumeration
    /// order.
    pub character_set_order: Vec<MorseCharacterSet>,
}

/// The mathematical content of a configuration.
pub struct OptionsView {
    /// The symbol for a long mark.
    pub dash: char,
    /// The symbol for a short mark.
    pub dot: char,
    /// The symbol that stands for a space between words.
    pub space: char,
    /// The symbol that separates the patterns of two characters.
    pub separator: char,
    /// The configured order of the scripts.
    pub order: Seq<MorseCharacterSet>,
}

impl View for Options {
    type V = OptionsView;

    open spec fn view(&self) -> OptionsView {
        OptionsView {
            dash: self.dash,
            dot: self.dot,
            space: self.space,
            separator: self.separator,
            order: self.character_set_order@,
        }
    }
}

impl OptionsView {
    /// The four symbols differ from each other.
    pub open spec fn symbols_distinct(self) -> bool {
        &&& self.dot != self.dash
        &&& self.dot != self.space
        &&& self.dot != self.separator
        &&& self.dash != self.space
        &&& self.dash != self.separator
        &&& self.space != self.separator
    }

    /// None of the four symbols is one of the two characters that stand for
    /// the marks before substitution.
    pub open spec fn symbols_plain(self) -> bool {
        &&& self.dot != SHORT && self.dot != LONG
        &&& self.dash != SHORT && self.dash != LONG
        &&& self.space != SHORT && self.space != LONG
        &&& self.separator != SHORT && self.separator != LONG
    }

    /// The dot is not `0`, and the dash is neither `0` nor `1`: the condition
    /// on which no `0` and no `1` is left in an encoded text.
    pub open spec fn leaves_no_marks(self) -> bool {
        self.dot != SHORT && self.dash != SHORT && self.dash != LONG
    }

    /// The symbols are such that an encoded text can be read back: the four
    /// differ from each other, none is `0` or `1`, and the dot, the dash and
    /// the space symbol are not white space.
    pub open spec fn readable(self) -> bool {
        &&& self.symbols_distinct()
        &&& self.symbols_plain()
        &&& !white_space(self.dot)
        &&& !white_space(self.dash)
        &&& !white_space(self.space)
    }

    /// The default configuration: dot `.`, dash `-`, space `/`, separator a
    /// blank, and all scripts in enumeration order.
    pub open spec fn default_view() -> OptionsView {
        OptionsView { dash: '-', dot: '.', space: '/', separator: ' ', order: all_scripts() }
    }
}

impl Options {
    /// Whether the symbols are such that an encoded text can be read back:
    /// the four differ from each other, none is `0` or `1`, and the dot, the
    /// dash and the space symbol are not white space.
    pub fn is_readable(&self) -> (r: bool)
        ensures
            r == self@.readable(),
    {
        let distinct = self.dot != self.dash && self.dot != self.space && self.dot
            != self.separator && self.dash != self.space && self.dash != self.separator
            && self.space != self.separator;
        let plain = self.dot != SHORT && self.dot != LONG && self.dash != SHORT && self.dash
            != LONG && self.space != SHORT && self.space != LONG && self.separator != SHORT
            && self.separator != LONG;
        distinct && plain && !is_whitespace(self.dot) && !is_whitespace(self.dash)
            && !is_whitespace(self.space)
    }
}

impl InvalidCharCallback for Options {
    /// An unmapped character is written as it is.
    open spec fn replacement(&self, character: char) -> char {
        character
    }

    fn invalid_char_callback(&self, character: char) -> (r: char)
        ensures
            r == character,
    {
        character
    }
}

impl Default for Options {
    /// Dot `.`, dash `-`, space `/`, separator a blank, and all scripts in
    /// enumeration order.
    fn default() -> (r: Options)
        ensures
            r@ == OptionsView::default_view(),
    {
        let mut order: Vec<MorseCharacterSet> = Vec::new();
        order.push(MorseCharacterSet::Latin);
        order.push(MorseCharacterSet::Numbers);
        order.push(MorseCharacterSet::Punctuation);
        order.push(MorseCharacterSet::LatinExtended);
        order.push(MorseCharacterSet::Cyrillic);
        order.push(MorseCharacterSet::Greek);
        order.push(MorseCharacterSet::Hebrew);
        order.push(MorseCharacterSet::Arabic);
        order.push(MorseCharacterSet::Persian);
        order.push(MorseCharacterSet::Japanese);
        order.push(MorseCharacterSet::Korean);
        order.push(MorseCharacterSet::Thai);
        assert(order@ =~= all_scripts());
        Options { dash: '-', dot: '.', space: '/', separator: ' ', character_set_order: order }
    }
}

impl Clone for Options {
    fn clone(&self) -> (r: Options)
        ensures
            r@ == self@,
    {
        let mut order: Vec<MorseCharacterSet> = Vec::new();
        let mut i: usize = 0;
        while i < self.character_set_order.len()
            invariant
                i <= self.character_set_order.len(),
                order@ == self.character_set_order@.take(i as int),
            decreases self.character_set_order.len() - i,
        {
            order.push(self.character_set_order[i]);
            assert(order@ =~= self.character_set_order@.take(i + 1));
            i += 1;
        }
        assert(order@ =~= self.character_set_order@);
        Options {
            dash: self.dash,
            dot: self.dot,
            space: self.space,
            separator: self.separator,
            character_set_order: order,
        }
    }
}

} // verus!
