//! The encoder and decoder.

use vstd::prelude::*;
use crate::characters::{get_characters, lookup, mapped, merged, Characters, TableSet};
use crate::options::{InvalidCharCallback, Options, OptionsView};
use crate::pattern::{lemma_substitute_plain, substitute, substitute_symbols, LONG, SHORT};
use crate::reverse::{flatten, lemma_reverse_index_push, reverse_index, ReverseIndex};
use crate::text::{
    chars_of, normalize, normalized, push_all, separate, separate_words, split, split_tokens,
    string_of, texts_of, trim, trim_separator,
};

verus! {

/// What an encoder and decoder offers.
pub trait IEncoderDecoder: Send + Sync {
    /// The Morse code that this encoder gives a text.
    spec fn encoding(&self, text: Seq<char>) -> Seq<char>;

    /// The text that this decoder gives a string in Morse code.
    spec fn decoding(&self, morse: Seq<char>) -> Seq<char>;

    /// The text in Morse code.
    fn encode(&self, text: &str) -> (r: String)
        ensures
            r@ == self.encoding(text@),
    ;

    /// The text that a string in Morse code stands for.
    fn decode(&self, morse: &str) -> (r: String)
        ensures
            r@ == self.decoding(morse@),
    ;
}

/// What is written for one character before the symbols are put in: its
/// pattern where a script maps it, and the character itself where none does.
pub open spec fn raw_token(ts: TableSet, c: char) -> Seq<char> {
    match lookup(ts, c) {
        Some(p) => p,
        None => seq![c],
    }
}

/// What is written for a text before the symbols are put in: for each
/// character what stands for it, followed by the separator.
pub open spec fn raw_text(ts: TableSet, separator: char, text: Seq<char>) -> Seq<char>
    decreases text.len(),
{
    if text.len() == 0 {
        Seq::empty()
    } else {
        raw_text(ts, separator, text.drop_last()) + raw_token(ts, text.last()).push(separator)
    }
}

/// The text without its last character, where that is the separator.
pub open spec fn strip_separator(s: Seq<char>, separator: char) -> Seq<char> {
    if s.len() > 0 && s.last() == separator {
        s.drop_last()
    } else {
        s
    }
}

/// The Morse code of a text that is in the form in which it is encoded.
pub open spec fn encoded_normalized(options: OptionsView, text: Seq<char>) -> Seq<char> {
    strip_separator(
        substitute(
            raw_text(merged(options), options.separator, text),
            options.dot,
            options.dash,
        ),
        options.separator,
    )
}

/// The Morse code of a text.
pub open spec fn encoded(options: OptionsView, text: Seq<char>) -> Seq<char> {
    encoded_normalized(options, normalized(text, options.separator))
}

/// The text holds neither a `0` nor a `1`.
pub open spec fn free_of_marks(s: Seq<char>) -> bool {
    forall|i: int| 0 <= i < s.len() ==> s[i] != SHORT && s[i] != LONG
}

/// The mapping from pattern to character under a configuration, the
/// patterns written with its symbols.
pub open spec fn reverse_index_of(options: OptionsView) -> Map<Seq<char>, char> {
    reverse_index(flatten(mapped(merged(options), options.dot, options.dash)))
}

/// What one piece of a string in Morse code stands for: the character of
/// the pattern where the piece is one, and the piece itself where it is not.
pub open spec fn decoded_token(index: Map<Seq<char>, char>, token: Seq<char>) -> Seq<char> {
    if index.dom().contains(token) {
        seq![index[token]]
    } else {
        token
    }
}

/// What the pieces of a string in Morse code stand for, one after the other.
pub open spec fn decoded_tokens(index: Map<Seq<char>, char>, tokens: Seq<Seq<char>>) -> Seq<char>
    decreases tokens.len(),
{
    if tokens.len() == 0 {
        Seq::empty()
    } else {
        decoded_tokens(index, tokens.drop_last()) + decoded_token(index, tokens.last())
    }
}

/// The text that a string in Morse code stands for.
pub open spec fn decoded(options: OptionsView, morse: Seq<char>) -> Seq<char> {
    decoded_tokens(
        reverse_index_of(options),
        split(
            trim(separate(morse, options.separator), options.separator),
            options.separator,
        ),
    )
}

/// The tables under a configuration, the patterns written with its symbols.
pub fn get_mapped_characters(options: Options) -> (r: Characters)
    ensures
        r.wf(),
        r@ == mapped(merged(options@), options.dot, options.dash),
{
    let characters = get_characters(&options);
    characters.substituted(options.dot, options.dash)
}

/// The mapping from pattern to character under a configuration. Where two
/// entries have the same pattern, the one that comes first in the priority
/// order of the scripts, and within a script by character, decides.
pub fn swap_characters(options: Options) -> (r: ReverseIndex)
    ensures
        r@ == reverse_index_of(options@),
{
    let ghost tables = mapped(merged(options@), options.dot, options.dash);
    let mapped_characters = get_mapped_characters(options);
    let mut swapped = ReverseIndex::new();
    let mut i: usize = 0;
    assert(tables.take(0) =~= TableSet::empty());
    assert(reverse_index(flatten(tables.take(0))) =~= Map::<Seq<char>, char>::empty());
    while i < mapped_characters.len()
        invariant
            i <= tables.len(),
            mapped_characters@ == tables,
            swapped@ == reverse_index(flatten(tables.take(i as int))),
        decreases tables.len() - i,
    {
        let chars = mapped_characters.table_at(i);
        let ghost done = flatten(tables.take(i as int));
        let mut j: usize = 0;
        assert(done + chars@.take(0) =~= done);
        while j < chars.len()
            invariant
                j <= chars@.len(),
                swapped@ == reverse_index(done + chars@.take(j as int)),
            decreases chars@.len() - j,
        {
            let pattern = chars_of(chars.pattern_at(j).as_str());
            proof {
                lemma_reverse_index_push(done + chars@.take(j as int), chars@[j as int]);
                assert((done + chars@.take(j as int)).push(chars@[j as int]) =~= done
                    + chars@.take(j + 1));
            }
            swapped.insert_first(pattern, chars.character_at(j));
            j += 1;
        }
        proof {
            assert(chars@.take(j as int) =~= chars@);
            assert(tables.take(i + 1).drop_last() =~= tables.take(i as int));
            assert(tables.take(i + 1).last() == tables[i as int]);
        }
        i += 1;
    }
    assert(tables.take(i as int) =~= tables);
    swapped
}

/// An encoder and decoder for one configuration.
#[derive(Debug, PartialEq, Eq)]
pub struct MorseCode {
    options: Options,
    characters: Characters,
}

impl View for MorseCode {
    type V = OptionsView;

    closed spec fn view(&self) -> OptionsView {
        self.options@
    }
}

impl MorseCode {
    #[verifier::type_invariant]
    spec fn tables_fit(&self) -> bool {
        self.characters.wf() && self.characters@ == merged(self.options@)
    }

    /// An encoder and decoder for the given configuration.
    #[must_use]
    pub fn new(options: Options) -> (r: MorseCode)
        ensures
            r@ == options@,
    {
        let characters = get_characters(&options);
        MorseCode { options, characters }
    }

    /// The configuration.
    pub fn options(&self) -> (r: &Options)
        ensures
            r@ == self@,
    {
        &self.options
    }

    /// The tables that the encoder reads.
    pub fn characters(&self) -> (r: &Characters)
        ensures
            r.wf(),
            r@ == merged(self@),
    {
        proof {
            use_type_invariant(self);
        }
        &self.characters
    }

    /// The Morse code of a text that is in the form in which it is encoded
    /// already: no white space but the separator, and in upper case.
    ///
    /// For each character the pattern is written that the first script with
    /// an entry for it gives it, or the character itself where no script has
    /// one, and after it the separator. Then the dot is put in place of every
    /// `0` and the dash in place of every `1`, and a separator at the very end
    /// is dropped.
    pub fn encode_normalized(&self, text: &str) -> (r: String)
        ensures
            r@ == encoded_normalized(self@, text@),
            self@.leaves_no_marks() ==> free_of_marks(r@),
    {
        proof {
            use_type_invariant(self);
        }
        let text = chars_of(text);
        let separator = self.options.separator;
        let mut raw: Vec<char> = Vec::new();
        let mut i: usize = 0;
        assert(text@.take(0) =~= Seq::<char>::empty());
        while i < text.len()
            invariant
                i <= text.len(),
                self.characters.wf(),
                self.characters@ == merged(self@),
                separator == self@.separator,
                raw@ == raw_text(merged(self@), separator, text@.take(i as int)),
            decreases text.len() - i,
        {
            let character = text[i];
            proof {
                assert(text@.take(i + 1).drop_last() =~= text@.take(i as int));
                assert(text@.take(i + 1).last() == character);
            }
            let ghost before = raw@;
            match self.characters.lookup(character) {
                Some(pattern) => {
                    let marks = chars_of(pattern.as_str());
                    push_all(&mut raw, &marks);
                },
                None => {
                    raw.push(self.options.invalid_char_callback(character));
                    assert(raw@ =~= before + seq![character]);
                },
            }
            raw.push(separator);
            assert(raw@ =~= before + raw_token(merged(self@), character).push(separator));
            i += 1;
        }
        assert(text@.take(i as int) =~= text@);
        let mut result = substitute_symbols(&raw, self.options.dot, self.options.dash);
        proof {
            if self@.leaves_no_marks() {
                lemma_substitute_plain(raw@, self@.dot, self@.dash);
            }
        }
        if result.len() > 0 && result[result.len() - 1] == separator {
            result.pop();
        }
        string_of(&result)
    }
}

impl Clone for MorseCode {
    /// An encoder and decoder for the same configuration.
    fn clone(&self) -> (r: MorseCode)
        ensures
            r@ == self@,
    {
        MorseCode::new(self.options.clone())
    }
}

impl Default for MorseCode {
    /// An encoder and decoder for the default configuration.
    fn default() -> (r: MorseCode)
        ensures
            r@ == OptionsView::default_view(),
    {
        let options = Options::default();
        let characters = get_characters(&options);
        MorseCode { options, characters }
    }
}

impl IEncoderDecoder for MorseCode {
    open spec fn encoding(&self, text: Seq<char>) -> Seq<char> {
        encoded(self@, text)
    }

    open spec fn decoding(&self, morse: Seq<char>) -> Seq<char> {
        decoded(self@, morse)
    }

    /// The Morse code of a text.
    ///
    /// Every white space character counts as the separator, the separators at
    /// both ends are dropped, and the rest is put in upper case; what comes
    /// of that is encoded character by character.
    fn encode(&self, text: &str) -> (r: String)
        ensures
            r@ == encoded(self@, text@),
            self@.leaves_no_marks() ==> free_of_marks(r@),
    {
        proof {
            use_type_invariant(self);
        }
        let prepared = normalize(text, self.options.separator);
        self.encode_normalized(string_of(&prepared).as_str())
    }

    /// The text that a string in Morse code stands for.
    ///
    /// Every white space character counts as the separator, the separators at
    /// both ends are dropped, and the rest is cut at the separators. A piece
    /// that is a pattern gives the character of the first entry with that
    /// pattern; any other piece stands for itself.
    fn decode(&self, morse: &str) -> (r: String)
        ensures
            r@ == decoded(self@, morse@),
    {
        let swapped = swap_characters(self.options.clone());
        let separator = self.options.separator;
        let separated = separate_words(&chars_of(morse), separator);
        let trimmed = trim_separator(&separated, separator);
        let tokens = split_tokens(&trimmed, separator);
        let mut result: Vec<char> = Vec::new();
        let mut i: usize = 0;
        let ghost pieces = texts_of(tokens@);
        assert(pieces.take(0) =~= Seq::<Seq<char>>::empty());
        while i < tokens.len()
            invariant
                i <= tokens.len(),
                pieces == texts_of(tokens@),
                swapped@ == reverse_index_of(self@),
                result@ == decoded_tokens(swapped@, pieces.take(i as int)),
            decreases tokens.len() - i,
        {
            proof {
                assert(pieces.take(i + 1).drop_last() =~= pieces.take(i as int));
                assert(pieces.take(i + 1).last() == tokens@[i as int]@);
            }
            let ghost before = result@;
            match swapped.get(&tokens[i]) {
                Some(character) => {
                    result.push(character);
                    assert(result@ =~= before + seq![character]);
                },
                None => {
                    push_all(&mut result, &tokens[i]);
                },
            }
            i += 1;
        }
        assert(pieces.take(i as int) =~= pieces);
        string_of(&result)
    }
}

/// What is written for a text before the symbols are put in ends with the
/// separator, unless the text is empty.
pub proof fn lemma_raw_text_ends(ts: TableSet, separator: char, text: Seq<char>)
    ensures
        text.len() == 0 ==> raw_text(ts, separator, text).len() == 0,
        text.len() > 0 ==> raw_text(ts, separator, text).len() > 0 && raw_text(
            ts,
            separator,
            text,
        ).last() == separator,
{
}

} // verus!
