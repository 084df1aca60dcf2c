//! The international code under the default configuration: the Latin
//! letters, the digits and the punctuation marks come back from their Morse
//! code.

use vstd::prelude::*;
use crate::characters::{base_data, base_table, lemma_priority_of_complete, merged};
use crate::codec::{decoded, encoded};
use crate::laws::{
    faithful, lemma_first_of_its_pattern, lemma_normalized_plain, lemma_round_trip_normalized,
};
use crate::options::OptionsView;
use crate::pattern::{is_binary, lemma_marks_binary, lemma_marks_injective, marks};
use crate::script::{all_scripts, lemma_all_scripts, MorseCharacterSet};
use crate::table::{defines, is_lower_bound, lemma_lower_bound_unique};
use crate::tables::{LATIN, NUMBERS, PUNCTUATION};
use crate::text::{normalized, uppercase_of, white_space};

verus! {

/// The scripts of the international code: the Latin letters, the digits and
/// the punctuation marks.
pub open spec fn core_script(set: MorseCharacterSet) -> bool {
    set == MorseCharacterSet::Latin || set == MorseCharacterSet::Numbers || set
        == MorseCharacterSet::Punctuation
}

/// A character of the international code, or the blank.
pub open spec fn core_character(c: char) -> bool {
    ||| c == ' '
    ||| defines(base_table(MorseCharacterSet::Latin), c)
    ||| defines(base_table(MorseCharacterSet::Numbers), c)
    ||| defines(base_table(MorseCharacterSet::Punctuation), c)
}

/// In the international code no two entries have the same character or the
/// same pattern, and no character is the blank.
pub proof fn lemma_core_entries_apart(a: MorseCharacterSet, i: int, b: MorseCharacterSet, j: int)
    requires
        core_script(a),
        core_script(b),
        0 <= i < base_table(a).len(),
        0 <= j < base_table(b).len(),
    ensures
        a != b || i != j ==> base_table(a)[i].0 != base_table(b)[j].0,
        a != b || i != j ==> base_table(a)[i].1 != base_table(b)[j].1,
        base_table(a)[i].0 > ' ',
        is_binary(base_table(a)[i].1),
        base_table(a)[i].1.len() > 0,
{
    let x = base_data(a)[i];
    let y = base_data(b)[j];
    lemma_core_data_apart();
    lemma_marks_binary(x.1 as nat);
    if a != b || i != j {
        assert(x.1 != y.1);
        if marks(x.1 as nat) == marks(y.1 as nat) {
            lemma_marks_injective(x.1 as nat, y.1 as nat);
        }
    }
}

/// The data of the international code: all characters differ, all codes
/// differ and hold a mark, and every character is above the blank.
proof fn lemma_core_data_apart()
    ensures
        forall|i: int, j: int|
            0 <= i < j < LATIN@.len() ==> (#[trigger] LATIN[i]).0 != (#[trigger] LATIN[j]).0
                && LATIN[i].1 != LATIN[j].1,
        forall|i: int, j: int|
            0 <= i < j < NUMBERS@.len() ==> (#[trigger] NUMBERS[i]).0 != (#[trigger] NUMBERS[j]).0
                && NUMBERS[i].1 != NUMBERS[j].1,
        forall|i: int, j: int|
            0 <= i < j < PUNCTUATION@.len() ==> (#[trigger] PUNCTUATION[i]).0 != (
            #[trigger] PUNCTUATION[j]).0 && PUNCTUATION[i].1 != PUNCTUATION[j].1,
        forall|i: int, j: int|
            0 <= i < LATIN@.len() && 0 <= j < NUMBERS@.len() ==> (#[trigger] LATIN[i]).0 != (
            #[trigger] NUMBERS[j]).0 && LATIN[i].1 != NUMBERS[j].1,
        forall|i: int, j: int|
            0 <= i < LATIN@.len() && 0 <= j < PUNCTUATION@.len() ==> (#[trigger] LATIN[i]).0 != (
            #[trigger] PUNCTUATION[j]).0 && LATIN[i].1 != PUNCTUATION[j].1,
        forall|i: int, j: int|
            0 <= i < NUMBERS@.len() && 0 <= j < PUNCTUATION@.len() ==> (#[trigger] NUMBERS[i]).0
                != (#[trigger] PUNCTUATION[j]).0 && NUMBERS[i].1 != PUNCTUATION[j].1,
        forall|i: int| 0 <= i < LATIN@.len() ==> (#[trigger] LATIN[i]).0 > ' ' && LATIN[i].1 >= 2,
        forall|i: int|
            0 <= i < NUMBERS@.len() ==> (#[trigger] NUMBERS[i]).0 > ' ' && NUMBERS[i].1 >= 2,
        forall|i: int|
            0 <= i < PUNCTUATION@.len() ==> (#[trigger] PUNCTUATION[i]).0 > ' ' && PUNCTUATION[i].1
                >= 2,
{
}

/// The first three tables of the default configuration: the Latin letters
/// with the blank before them, which stands for the space symbol; the digits;
/// and the punctuation marks.
pub proof fn lemma_default_tables()
    ensures
        merged(OptionsView::default_view()).len() == 12,
        merged(OptionsView::default_view())[0].1 == base_table(MorseCharacterSet::Latin).insert(
            0,
            (' ', seq!['/']),
        ),
        merged(OptionsView::default_view())[1].1 == base_table(MorseCharacterSet::Numbers),
        merged(OptionsView::default_view())[2].1 == base_table(MorseCharacterSet::Punctuation),
{
    let options = OptionsView::default_view();
    lemma_all_scripts();
    lemma_priority_of_complete(all_scripts());
    let latin = base_table(MorseCharacterSet::Latin);
    assert(all_scripts()[0] == MorseCharacterSet::Latin);
    assert(all_scripts()[1] == MorseCharacterSet::Numbers);
    assert(all_scripts()[2] == MorseCharacterSet::Punctuation);
    assert(options.order.contains(MorseCharacterSet::Latin));
    assert forall|i: int| 0 <= i < latin.len() implies (#[trigger] latin[i]).0 >= ' ' by {
        lemma_core_entries_apart(MorseCharacterSet::Latin, i, MorseCharacterSet::Latin, i);
    }
    assert(is_lower_bound(latin, ' ', 0));
    lemma_lower_bound_unique(latin, ' ', 0);
    lemma_core_entries_apart(MorseCharacterSet::Latin, 0, MorseCharacterSet::Latin, 0);
}

/// Under the default configuration the characters of the international
/// code, and the blank, come back from their own Morse code.
pub proof fn lemma_default_faithful(c: char)
    requires
        core_character(c),
    ensures
        faithful(OptionsView::default_view(), c),
{
    let options = OptionsView::default_view();
    let ts = merged(options);
    let latin = base_table(MorseCharacterSet::Latin);
    let numbers = base_table(MorseCharacterSet::Numbers);
    let punctuation = base_table(MorseCharacterSet::Punctuation);
    lemma_default_tables();
    assert forall|n: int| 0 <= n < ts[0].1.len() implies #[trigger] ts[0].1[n] == (
        if n == 0 {
            (' ', seq!['/'])
        } else {
            latin[n - 1]
        }) by {}
    if c == ' ' {
        lemma_first_of_its_pattern(options, 0, 0);
    } else if defines(latin, c) {
        let m = choose|m: int| 0 <= m < latin.len() && (#[trigger] latin[m]).0 == c;
        assert(ts[0].1[m + 1] == latin[m]);
        assert forall|n: int| 0 <= n < m + 1 implies (#[trigger] ts[0].1[n]).1 != latin[m].1 by {
            lemma_core_entries_apart(MorseCharacterSet::Latin, m, MorseCharacterSet::Latin, m);
            if n == 0 {
                assert(ts[0].1[n].1[0] == '/');
            } else {
                lemma_core_entries_apart(
                    MorseCharacterSet::Latin,
                    n - 1,
                    MorseCharacterSet::Latin,
                    m,
                );
            }
        }
        lemma_first_of_its_pattern(options, 0, m + 1);
    } else if defines(numbers, c) {
        let m = choose|m: int| 0 <= m < numbers.len() && (#[trigger] numbers[m]).0 == c;
        lemma_core_entries_apart(MorseCharacterSet::Numbers, m, MorseCharacterSet::Numbers, m);
        assert forall|n: int| 0 <= n < ts[0].1.len() implies (#[trigger] ts[0].1[n]).0 != c
            && ts[0].1[n].1 != numbers[m].1 by {
            if n == 0 {
                assert(ts[0].1[n].1[0] == '/');
            } else {
                lemma_core_entries_apart(
                    MorseCharacterSet::Latin,
                    n - 1,
                    MorseCharacterSet::Numbers,
                    m,
                );
            }
        }
        assert forall|n: int| 0 <= n < m implies (#[trigger] numbers[n]).1 != numbers[m].1 by {
            lemma_core_entries_apart(MorseCharacterSet::Numbers, n, MorseCharacterSet::Numbers, m);
        }
        assert forall|r: int, n: int| 0 <= r < 1 && 0 <= n < ts[r].1.len() implies (
        #[trigger] ts[r].1[n]).1 != ts[1].1[m].1 by {
            assert(ts[0].1[n].1 != numbers[m].1);
        }
        assert forall|r: int| 0 <= r < 1 implies !defines((#[trigger] ts[r]).1, c) by {}
        lemma_first_of_its_pattern(options, 1, m);
    } else {
        let m = choose|m: int| 0 <= m < punctuation.len() && (#[trigger] punctuation[m]).0 == c;
        lemma_core_entries_apart(
            MorseCharacterSet::Punctuation,
            m,
            MorseCharacterSet::Punctuation,
            m,
        );
        assert forall|n: int| 0 <= n < ts[0].1.len() implies (#[trigger] ts[0].1[n]).0 != c
            && ts[0].1[n].1 != punctuation[m].1 by {
            if n == 0 {
                assert(ts[0].1[n].1[0] == '/');
            } else {
                lemma_core_entries_apart(
                    MorseCharacterSet::Latin,
                    n - 1,
                    MorseCharacterSet::Punctuation,
                    m,
                );
            }
        }
        assert forall|n: int| 0 <= n < numbers.len() implies (#[trigger] numbers[n]).0 != c
            && numbers[n].1 != punctuation[m].1 by {
            lemma_core_entries_apart(
                MorseCharacterSet::Numbers,
                n,
                MorseCharacterSet::Punctuation,
                m,
            );
        }
        assert forall|n: int| 0 <= n < m implies (#[trigger] punctuation[n]).1
            != punctuation[m].1 by {
            lemma_core_entries_apart(
                MorseCharacterSet::Punctuation,
                n,
                MorseCharacterSet::Punctuation,
                m,
            );
        }
        assert forall|r: int, n: int| 0 <= r < 2 && 0 <= n < ts[r].1.len() implies (
        #[trigger] ts[r].1[n]).1 != ts[2].1[m].1 by {
            if r == 0 {
                assert(ts[0].1[n].1 != punctuation[m].1);
            } else {
                assert(numbers[n].1 != punctuation[m].1);
            }
        }
        assert forall|r: int| 0 <= r < 2 implies !defines((#[trigger] ts[r]).1, c) by {}
        lemma_first_of_its_pattern(options, 2, m);
    }
}

/// The text holds nothing but characters of the international code and
/// blanks.
pub open spec fn core_text(text: Seq<char>) -> bool {
    forall|i: int| 0 <= i < text.len() ==> core_character(#[trigger] text[i])
}

/// The only white space of the text is blanks, and the text neither begins
/// nor ends with one.
pub open spec fn blanks_inside(text: Seq<char>) -> bool {
    &&& forall|k: int| 0 <= k < text.len() ==> text[k] == ' ' || !white_space(text[k])
    &&& text.len() > 0 ==> text[0] != ' ' && text.last() != ' '
}

/// Under the default configuration decoding undoes encoding on the
/// international code.
///
/// Where the text in the form in which it is encoded holds nothing but
/// characters of the international code and blanks, its Morse code is decoded
/// to the text in that form. For a text whose only white space is blanks
/// inside it, that form is the text in upper case.
pub proof fn lemma_default_round_trip(text: Seq<char>)
    ensures
        core_text(normalized(text, ' ')) ==> decoded(
            OptionsView::default_view(),
            encoded(OptionsView::default_view(), text),
        ) == normalized(text, ' '),
        blanks_inside(text) ==> normalized(text, ' ') == uppercase_of(text),
        blanks_inside(text) && core_text(uppercase_of(text)) ==> decoded(
            OptionsView::default_view(),
            encoded(OptionsView::default_view(), text),
        ) == uppercase_of(text),
{
    let options = OptionsView::default_view();
    let prepared = normalized(text, ' ');
    if core_text(prepared) {
        assert forall|i: int| 0 <= i < prepared.len() implies faithful(
            options,
            #[trigger] prepared[i],
        ) by {
            lemma_default_faithful(prepared[i]);
        }
        lemma_round_trip_normalized(options, prepared);
    }
    if blanks_inside(text) {
        lemma_normalized_plain(text, ' ');
    }
}

} // verus!
