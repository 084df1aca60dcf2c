//! What holds of encoding and decoding together.

use vstd::prelude::*;
use crate::characters::{
    base_table, lemma_claims, lemma_defined_is_mapped, lemma_merged_ignores_marks,
    lemma_merged_patterns, lemma_merged_wf, lemma_priority_head, lookup, mapped, merged,
    merged_table, scripts_of,
};
use crate::codec::{
    decoded, decoded_token, decoded_tokens, encoded, encoded_normalized, lemma_raw_text_ends,
    raw_text, raw_token, reverse_index_of, strip_separator,
};
use crate::options::OptionsView;
use crate::pattern::{
    is_binary, lemma_substitute_binary, lemma_substitute_concat, lemma_substitute_injective,
    substitute, substitute_char, LONG, SHORT,
};
use crate::reverse::{
    carries, first_carrier, is_first_carrier, lemma_first_carrier, lemma_first_script_decides,
    lemma_first_script_that_carries, lemma_no_script_carries,
};
use crate::script::MorseCharacterSet;
use crate::table::{defines, lemma_pattern_in, mapped_table, patterns_nonempty, sorted};
use crate::text::{
    joined, lemma_joined_chars, lemma_separate_plain, lemma_split_joined, lemma_trim_plain,
    normalized, split, uppercase_of, white_space,
};

verus! {

/// Other symbols for the marks change the marks of an encoded text and
/// nothing else.
///
/// Two configurations that differ in the dot and the dash alone, each with
/// four different symbols of which none is `0` or `1`, encode a text to
/// strings of the same length with the separators at the same places; and
/// where the two strings differ, one has its dot where the other has its dot,
/// or its dash where the other has its dash.
pub proof fn lemma_symbols_change_marks_only(a: OptionsView, b: OptionsView, text: Seq<char>)
    requires
        a.separator == b.separator,
        a.space == b.space,
        a.order == b.order,
        a.symbols_distinct(),
        a.symbols_plain(),
        b.symbols_distinct(),
        b.symbols_plain(),
    ensures
        encoded(a, text).len() == encoded(b, text).len(),
        forall|i: int|
            0 <= i < encoded(a, text).len() ==> (encoded(a, text)[i] == a.separator <==> encoded(
                b,
                text,
            )[i] == b.separator),
        forall|i: int|
            0 <= i < encoded(a, text).len() ==> {
                ||| encoded(a, text)[i] == encoded(b, text)[i]
                ||| encoded(a, text)[i] == a.dot && encoded(b, text)[i] == b.dot
                ||| encoded(a, text)[i] == a.dash && encoded(b, text)[i] == b.dash
            },
{
    lemma_merged_ignores_marks(a, b);
    let prepared = normalized(text, a.separator);
    let raw = raw_text(merged(a), a.separator, prepared);
    lemma_raw_text_ends(merged(a), a.separator, prepared);
    let x = substitute(raw, a.dot, a.dash);
    let y = substitute(raw, b.dot, b.dash);
    assert(encoded(a, text) == strip_separator(x, a.separator));
    assert(encoded(b, text) == strip_separator(y, a.separator));
    if raw.len() > 0 {
        assert(x.last() == substitute_char(raw.last(), a.dot, a.dash));
        assert(y.last() == substitute_char(raw.last(), b.dot, b.dash));
    }
    assert forall|i: int| 0 <= i < encoded(a, text).len() implies (encoded(a, text)[i]
        == a.separator <==> encoded(b, text)[i] == b.separator) && ({
        ||| encoded(a, text)[i] == encoded(b, text)[i]
        ||| encoded(a, text)[i] == a.dot && encoded(b, text)[i] == b.dot
        ||| encoded(a, text)[i] == a.dash && encoded(b, text)[i] == b.dash
    }) by {
        assert(x[i] == substitute_char(raw[i], a.dot, a.dash));
        assert(y[i] == substitute_char(raw[i], b.dot, b.dash));
    }
}

/// The script that the configured order begins with decides what a pattern
/// stands for: a piece of Morse code that is the pattern of an entry of that
/// script is decoded to the character of the first such entry.
pub proof fn lemma_leading_script_decides(options: OptionsView, token: Seq<char>, i: int)
    requires
        options.order.len() > 0,
        is_first_carrier(
            mapped_table(merged_table(options, options.order[0]), options.dot, options.dash),
            token,
            i,
        ),
    ensures
        decoded_token(reverse_index_of(options), token) == seq![
            merged_table(options, options.order[0])[i].0,
        ],
{
    lemma_priority_head(options.order);
    let ts = mapped(merged(options), options.dot, options.dash);
    assert(ts[0].1 == mapped_table(merged_table(options, options.order[0]), options.dot, options.dash));
    lemma_first_script_decides(ts, 0, i, token);
}

/// A string of Morse code without separator and without white space is one
/// piece, and is decoded as that piece is.
pub proof fn lemma_decoded_piece(options: OptionsView, token: Seq<char>)
    requires
        token.len() > 0,
        forall|k: int|
            0 <= k < token.len() ==> token[k] != options.separator && !white_space(token[k]),
    ensures
        decoded(options, token) == decoded_token(reverse_index_of(options), token),
{
    let pieces = seq![token];
    lemma_separate_plain(token, options.separator);
    lemma_trim_plain(token, options.separator);
    assert forall|i: int, k: int|
        0 <= i < pieces.len() && 0 <= k < pieces[i].len() implies #[trigger] pieces[i][k]
        != options.separator by {}
    lemma_split_joined(pieces, options.separator);
    assert(pieces.drop_last() =~= Seq::<Seq<char>>::empty());
    reveal_with_fuel(decoded_tokens, 2);
    assert(decoded_tokens(reverse_index_of(options), pieces) =~= decoded_token(
        reverse_index_of(options),
        token,
    ));
}

/// The order of two scripts that share a pattern decides what the pattern
/// is decoded to.
///
/// Of two configurations with the same symbols, let one list the scripts
/// `first`, `second` and the other `second`, `first`. A piece of Morse code
/// that is a pattern in both scripts is decoded by the one to the character
/// that `first` gives it and by the other to the character that `second`
/// gives it: in each script the character of the first entry with that
/// pattern.
pub proof fn lemma_priority_order(
    a: OptionsView,
    b: OptionsView,
    first: MorseCharacterSet,
    second: MorseCharacterSet,
    token: Seq<char>,
    i: int,
    j: int,
)
    requires
        a.order == seq![first, second],
        b.order == seq![second, first],
        a.dot == b.dot,
        a.dash == b.dash,
        a.space == b.space,
        a.separator == b.separator,
        is_first_carrier(mapped_table(merged_table(a, first), a.dot, a.dash), token, i),
        is_first_carrier(mapped_table(merged_table(a, second), a.dot, a.dash), token, j),
    ensures
        decoded_token(reverse_index_of(a), token) == seq![merged_table(a, first)[i].0],
        decoded_token(reverse_index_of(b), token) == seq![merged_table(a, second)[j].0],
        (forall|k: int|
            0 <= k < token.len() ==> token[k] != a.separator && !white_space(token[k]))
            ==> decoded(a, token) == seq![merged_table(a, first)[i].0] && decoded(b, token)
            == seq![merged_table(a, second)[j].0],
{
    assert(a.order.contains(MorseCharacterSet::Latin) == b.order.contains(
        MorseCharacterSet::Latin,
    )) by {
        if a.order.contains(MorseCharacterSet::Latin) {
            let k = choose|k: int| 0 <= k < a.order.len() && a.order[k] == MorseCharacterSet::Latin;
            assert(b.order[1 - k] == MorseCharacterSet::Latin);
        }
        if b.order.contains(MorseCharacterSet::Latin) {
            let k = choose|k: int| 0 <= k < b.order.len() && b.order[k] == MorseCharacterSet::Latin;
            assert(a.order[1 - k] == MorseCharacterSet::Latin);
        }
    }
    assert(merged_table(b, second) == merged_table(a, second));
    lemma_leading_script_decides(a, token, i);
    lemma_leading_script_decides(b, token, j);
    lemma_merged_wf(a);
    lemma_priority_head(a.order);
    assert(merged(a)[0].1 == merged_table(a, first));
    assert(patterns_nonempty(merged(a)[0].1));
    assert(merged_table(a, first)[i].1.len() > 0);
    assert(token.len() > 0);
    if forall|k: int| 0 <= k < token.len() ==> token[k] != a.separator && !white_space(token[k]) {
        lemma_decoded_piece(a, token);
        lemma_decoded_piece(b, token);
    }
}

/// What is written for one character in an encoded text.
pub open spec fn symbol_token(options: OptionsView, c: char) -> Seq<char> {
    substitute(raw_token(merged(options), c), options.dot, options.dash)
}

/// What is written for the characters of a text, one piece for each.
pub open spec fn symbol_tokens(options: OptionsView, text: Seq<char>) -> Seq<Seq<char>> {
    Seq::new(text.len(), |i: int| symbol_token(options, text[i]))
}

/// A character comes back from its own Morse code: what is written for it
/// is not empty, holds neither the separator nor white space, and is
/// decoded to the character.
pub open spec fn faithful(options: OptionsView, c: char) -> bool {
    let token = symbol_token(options, c);
    &&& token.len() > 0
    &&& forall|k: int|
        0 <= k < token.len() ==> token[k] != options.separator && !white_space(#[trigger] token[k])
    &&& decoded_token(reverse_index_of(options), token) == seq![c]
}

/// An encoded text is what is written for its characters, with one
/// separator between each two.
pub proof fn lemma_encoded_joined(options: OptionsView, text: Seq<char>)
    requires
        options.separator != SHORT,
        options.separator != LONG,
    ensures
        encoded_normalized(options, text) == joined(
            symbol_tokens(options, text),
            options.separator,
        ),
{
    lemma_substituted_raw_text(options, text);
    let tokens = symbol_tokens(options, text);
    let raw = substitute(
        raw_text(merged(options), options.separator, text),
        options.dot,
        options.dash,
    );
    if text.len() > 0 {
        assert(raw.drop_last() =~= joined(tokens, options.separator));
    }
}

/// Before the last separator is dropped, an encoded text is what is written
/// for its characters, each followed by the separator.
proof fn lemma_substituted_raw_text(options: OptionsView, text: Seq<char>)
    requires
        options.separator != SHORT,
        options.separator != LONG,
    ensures
        text.len() == 0 ==> raw_text(merged(options), options.separator, text).len() == 0,
        text.len() > 0 ==> substitute(
            raw_text(merged(options), options.separator, text),
            options.dot,
            options.dash,
        ) == joined(symbol_tokens(options, text), options.separator).push(options.separator),
    decreases text.len(),
{
    if text.len() > 0 {
        let ts = merged(options);
        let front = text.drop_last();
        let tokens = symbol_tokens(options, text);
        lemma_substituted_raw_text(options, front);
        assert(tokens.drop_last() =~= symbol_tokens(options, front));
        assert(tokens.last() == symbol_token(options, text.last()));
        let head = raw_text(ts, options.separator, front);
        let piece = raw_token(ts, text.last()).push(options.separator);
        lemma_substitute_concat(head, piece, options.dot, options.dash);
        assert(substitute(piece, options.dot, options.dash) =~= symbol_token(
            options,
            text.last(),
        ).push(options.separator));
        if front.len() == 0 {
            assert(substitute(head, options.dot, options.dash) =~= Seq::<char>::empty());
            assert(substitute(head + piece, options.dot, options.dash) =~= joined(
                tokens,
                options.separator,
            ).push(options.separator));
        } else {
            assert(substitute(head + piece, options.dot, options.dash) =~= joined(
                tokens,
                options.separator,
            ).push(options.separator));
        }
    }
}

/// Pieces that are each decoded to one character of a text are together
/// decoded to the text.
proof fn lemma_decoded_tokens(index: Map<Seq<char>, char>, tokens: Seq<Seq<char>>, text: Seq<char>)
    requires
        tokens.len() == text.len(),
        forall|i: int| 0 <= i < text.len() ==> decoded_token(index, #[trigger] tokens[i]) == seq![text[i]],
    ensures
        decoded_tokens(index, tokens) == text,
    decreases tokens.len(),
{
    if tokens.len() > 0 {
        lemma_decoded_tokens(index, tokens.drop_last(), text.drop_last());
        assert(decoded_token(index, tokens[tokens.len() - 1]) == seq![text[text.len() - 1]]);
        assert(text.drop_last() + seq![text.last()] =~= text);
    } else {
        assert(text =~= Seq::<char>::empty());
    }
}

/// No pattern is empty, so the empty piece is not in the mapping.
pub proof fn lemma_empty_token(options: OptionsView)
    ensures
        !reverse_index_of(options).dom().contains(Seq::<char>::empty()),
{
    let ts = merged(options);
    let ms = mapped(ts, options.dot, options.dash);
    lemma_merged_wf(options);
    assert forall|r: int| 0 <= r < ms.len() implies !carries(
        (#[trigger] ms[r]).1,
        Seq::<char>::empty(),
    ) by {
        if carries(ms[r].1, Seq::<char>::empty()) {
            let n = choose|n: int|
                0 <= n < ms[r].1.len() && (#[trigger] ms[r].1[n]).1 == Seq::<char>::empty();
            assert(patterns_nonempty(ts[r].1));
            assert(ms[r].1 == mapped_table(ts[r].1, options.dot, options.dash));
            assert(ts[r].1[n].1.len() > 0);
            assert(ms[r].1[n].1 == substitute(ts[r].1[n].1, options.dot, options.dash));
        }
    }
    lemma_no_script_carries(ms, Seq::<char>::empty());
}

/// The empty text is encoded to the empty string, and the empty string is
/// decoded to the empty text.
pub proof fn lemma_empty(options: OptionsView)
    ensures
        encoded_normalized(options, Seq::<char>::empty()) == Seq::<char>::empty(),
        decoded(options, Seq::<char>::empty()) == Seq::<char>::empty(),
{
    let nothing = Seq::<char>::empty();
    lemma_empty_token(options);
    lemma_separate_plain(nothing, options.separator);
    lemma_trim_plain(nothing, options.separator);
    assert(split(nothing, options.separator) =~= seq![nothing]);
    assert(seq![nothing].drop_last() =~= Seq::<Seq<char>>::empty());
    reveal_with_fuel(decoded_tokens, 2);
    assert(decoded_tokens(reverse_index_of(options), seq![nothing]) =~= nothing);
    assert(substitute(nothing, options.dot, options.dash) =~= nothing);
}

/// Decoding undoes encoding on faithful characters.
///
/// A text in the form in which it is encoded, each character of which comes
/// back from its own Morse code, is what its Morse code is decoded to. The
/// separator must be neither `0` nor `1`.
pub proof fn lemma_round_trip_normalized(options: OptionsView, text: Seq<char>)
    requires
        options.separator != SHORT,
        options.separator != LONG,
        forall|i: int| 0 <= i < text.len() ==> faithful(options, #[trigger] text[i]),
    ensures
        decoded(options, encoded_normalized(options, text)) == text,
{
    let separator = options.separator;
    let index = reverse_index_of(options);
    if text.len() == 0 {
        lemma_empty(options);
        assert(text =~= Seq::<char>::empty());
    } else {
        let tokens = symbol_tokens(options, text);
        let morse = joined(tokens, separator);
        lemma_encoded_joined(options, text);
        assert forall|i: int, k: int|
            0 <= i < tokens.len() && 0 <= k < tokens[i].len() implies #[trigger] tokens[i][k]
            != separator && !white_space(tokens[i][k]) by {
            assert(faithful(options, text[i]));
        }
        assert(faithful(options, text[0]));
        assert(faithful(options, text[text.len() - 1]));
        lemma_joined_chars(tokens, separator);
        assert forall|k: int| 0 <= k < morse.len() implies morse[k] == separator || !white_space(
            morse[k],
        ) by {
            if morse[k] != separator {
                let (i, n) = choose|i: int, n: int|
                    0 <= i < tokens.len() && 0 <= n < tokens[i].len() && morse[k]
                        == #[trigger] tokens[i][n];
                assert(!white_space(tokens[i][n]));
            }
        }
        lemma_separate_plain(morse, separator);
        assert(morse[0] == tokens[0][0]);
        assert(morse.last() == tokens.last().last());
        lemma_trim_plain(morse, separator);
        lemma_split_joined(tokens, separator);
        assert forall|i: int| 0 <= i < text.len() implies decoded_token(
            index,
            #[trigger] tokens[i],
        ) == seq![text[i]] by {
            assert(faithful(options, text[i]));
        }
        lemma_decoded_tokens(index, tokens, text);
    }
}

/// Decoding undoes encoding, up to the form in which a text is encoded.
///
/// Where each character of the text in that form comes back from its own
/// Morse code, the Morse code of the text is decoded to the text in that
/// form: with the separator for every white space character, without the
/// separators at its ends, and in upper case. The separator must be neither
/// `0` nor `1`.
pub proof fn lemma_round_trip(options: OptionsView, text: Seq<char>)
    requires
        options.separator != SHORT,
        options.separator != LONG,
    ensures
        (forall|i: int|
            0 <= i < normalized(text, options.separator).len() ==> faithful(
                options,
                #[trigger] normalized(text, options.separator)[i],
            )) ==> decoded(options, encoded(options, text)) == normalized(
            text,
            options.separator,
        ),
{
    let prepared = normalized(text, options.separator);
    if forall|i: int| 0 <= i < prepared.len() ==> faithful(options, #[trigger] prepared[i]) {
        lemma_round_trip_normalized(options, prepared);
    }
}

/// Two different patterns of the tables read differently after the symbols
/// are put in, provided that the symbols are readable.
pub proof fn lemma_patterns_stay_apart(options: OptionsView, p: Seq<char>, q: Seq<char>)
    requires
        options.readable(),
        is_binary(p) || p == seq![options.space],
        is_binary(q) || q == seq![options.space],
        p.len() > 0,
        q.len() > 0,
        p != q,
    ensures
        substitute(p, options.dot, options.dash) != substitute(q, options.dot, options.dash),
{
    let x = substitute(p, options.dot, options.dash);
    let y = substitute(q, options.dot, options.dash);
    if is_binary(p) && is_binary(q) {
        if x == y {
            lemma_substitute_injective(p, q, options.dot, options.dash);
        }
    } else if is_binary(p) {
        lemma_substitute_binary(p, options.dot, options.dash);
        assert(x[0] == options.dot || x[0] == options.dash);
        assert(y[0] == options.space);
    } else if is_binary(q) {
        lemma_substitute_binary(q, options.dot, options.dash);
        assert(y[0] == options.dot || y[0] == options.dash);
        assert(x[0] == options.space);
    }
}

/// No entry before the one at `i` of the script at `s`, in that script or in
/// a script before it, has the same pattern.
pub open spec fn first_of_its_pattern(options: OptionsView, s: int, i: int) -> bool {
    let ts = merged(options);
    &&& forall|r: int, n: int|
        0 <= r < s && 0 <= n < ts[r].1.len() ==> (#[trigger] ts[r].1[n]).1 != ts[s].1[i].1
    &&& forall|n: int| 0 <= n < i ==> (#[trigger] ts[s].1[n]).1 != ts[s].1[i].1
}

/// A character comes back from its own Morse code where it is the first to
/// have its pattern.
///
/// Let the entry at `i` of the script at `s` be the one that gives a
/// character its pattern: no script before it has the character. If no entry
/// before it, in that script or in a script before it, has the same pattern,
/// and the symbols are readable, the character is faithful.
pub proof fn lemma_first_of_its_pattern(options: OptionsView, s: int, i: int)
    requires
        options.readable(),
        0 <= s < merged(options).len(),
        0 <= i < merged(options)[s].1.len(),
        forall|r: int|
            0 <= r < s ==> !defines((#[trigger] merged(options)[r]).1, merged(options)[s].1[i].0),
        first_of_its_pattern(options, s, i),
    ensures
        faithful(options, merged(options)[s].1[i].0),
{
    let ts = merged(options);
    let ms = mapped(ts, options.dot, options.dash);
    let c = ts[s].1[i].0;
    let p = ts[s].1[i].1;
    let token = substitute(p, options.dot, options.dash);
    lemma_merged_wf(options);
    assert(sorted(ts[s].1));
    lemma_pattern_in(ts[s].1, i);
    lemma_claims(ts, s, c);
    assert(raw_token(ts, c) == p);
    assert(symbol_token(options, c) == token);
    lemma_merged_patterns(options, s, i);
    if is_binary(p) {
        lemma_substitute_binary(p, options.dot, options.dash);
    }
    assert forall|k: int| 0 <= k < token.len() implies token[k] != options.separator
        && !white_space(#[trigger] token[k]) by {
        if !is_binary(p) {
            assert(token[k] == options.space);
        }
    }
    assert(ms[s].1 == mapped_table(ts[s].1, options.dot, options.dash));
    assert forall|n: int| 0 <= n < i implies (#[trigger] ms[s].1[n]).1 != token by {
        lemma_merged_patterns(options, s, n);
        assert(ts[s].1[n].1 != p);
        lemma_patterns_stay_apart(options, ts[s].1[n].1, p);
    }
    assert(is_first_carrier(ms[s].1, token, i));
    assert forall|r: int| 0 <= r < s implies !carries((#[trigger] ms[r]).1, token) by {
        assert(ms[r].1 == mapped_table(ts[r].1, options.dot, options.dash));
        if carries(ms[r].1, token) {
            let n = choose|n: int| 0 <= n < ms[r].1.len() && (#[trigger] ms[r].1[n]).1 == token;
            lemma_merged_patterns(options, r, n);
            assert(ts[r].1[n].1 != p);
            lemma_patterns_stay_apart(options, ts[r].1[n].1, p);
        }
    }
    lemma_first_script_decides(ms, s, i, token);
}

/// A character does not come back from its own Morse code where an entry
/// before its own has the same pattern.
///
/// Let the entry at `i` of the script at `s` be the one that gives a
/// character its pattern. If the entry at `n` of the script at `r` comes
/// before it, in that script or in a script before it, and has the same
/// pattern, the Morse code of the character is decoded to another character.
pub proof fn lemma_shared_pattern(options: OptionsView, s: int, i: int, r: int, n: int)
    requires
        0 <= s < merged(options).len(),
        0 <= i < merged(options)[s].1.len(),
        forall|q: int|
            0 <= q < s ==> !defines((#[trigger] merged(options)[q]).1, merged(options)[s].1[i].0),
        0 <= r < s || (r == s && 0 <= n < i),
        0 <= n < merged(options)[r].1.len(),
        merged(options)[r].1[n].1 == merged(options)[s].1[i].1,
    ensures
        !faithful(options, merged(options)[s].1[i].0),
{
    let ts = merged(options);
    let ms = mapped(ts, options.dot, options.dash);
    let c = ts[s].1[i].0;
    let p = ts[s].1[i].1;
    let token = substitute(p, options.dot, options.dash);
    lemma_merged_wf(options);
    assert(sorted(ts[s].1));
    lemma_pattern_in(ts[s].1, i);
    lemma_claims(ts, s, c);
    assert(symbol_token(options, c) == token);
    assert(ms[r].1 == mapped_table(ts[r].1, options.dot, options.dash));
    assert(ms[r].1[n].1 == token);
    assert(carries(ms[r].1, token));
    let first = lemma_first_script_that_carries(ms, r, token);
    assert(ms[first].1 == mapped_table(ts[first].1, options.dot, options.dash));
    let m = choose|m: int| 0 <= m < ms[first].1.len() && (#[trigger] ms[first].1[m]).1 == token;
    lemma_first_carrier(ms[first].1, token, m);
    let k = first_carrier(ms[first].1, token);
    lemma_first_script_decides(ms, first, k, token);
    assert(ms[first].1[k].0 == ts[first].1[k].0);
    if first < s {
        assert(!defines(ts[first].1, c));
        assert(ts[first].1[k].0 != c);
    } else {
        lemma_first_carrier(ms[first].1, token, n);
        assert(k <= n);
        assert(ts[s].1[k].0 < ts[s].1[i].0);
    }
    assert(decoded_token(reverse_index_of(options), token) == seq![ts[first].1[k].0]);
    assert(seq![ts[first].1[k].0][0] != seq![c][0]);
}

/// Which mapped characters come back from their own Morse code: those that
/// are the first to have their pattern, and no others.
///
/// Let the entry at `i` of the script at `s` be the one that gives a
/// character its pattern: no script before it has the character. With
/// readable symbols the character is faithful if, and only if, no entry
/// before that one has the same pattern.
pub proof fn lemma_faithful_characters(options: OptionsView, s: int, i: int)
    requires
        options.readable(),
        0 <= s < merged(options).len(),
        0 <= i < merged(options)[s].1.len(),
        forall|r: int|
            0 <= r < s ==> !defines((#[trigger] merged(options)[r]).1, merged(options)[s].1[i].0),
    ensures
        faithful(options, merged(options)[s].1[i].0) <==> first_of_its_pattern(options, s, i),
{
    let ts = merged(options);
    if first_of_its_pattern(options, s, i) {
        lemma_first_of_its_pattern(options, s, i);
    } else if exists|r: int, n: int|
        0 <= r < s && 0 <= n < ts[r].1.len() && (#[trigger] ts[r].1[n]).1 == ts[s].1[i].1 {
        let (r, n) = choose|r: int, n: int|
            0 <= r < s && 0 <= n < ts[r].1.len() && (#[trigger] ts[r].1[n]).1 == ts[s].1[i].1;
        lemma_shared_pattern(options, s, i, r, n);
    } else {
        let n = choose|n: int| 0 <= n < i && (#[trigger] ts[s].1[n]).1 == ts[s].1[i].1;
        lemma_shared_pattern(options, s, i, s, n);
    }
}

/// Under every configuration `0` and `1` are mapped, so what is written for
/// an unmapped character is never taken for a mark: it is the character
/// itself, also after the symbols are put in.
pub proof fn lemma_unmapped_token(options: OptionsView, c: char)
    requires
        lookup(merged(options), c) is None,
    ensures
        c != SHORT,
        c != LONG,
        symbol_token(options, c) == seq![c],
{
    let ts = merged(options);
    let numbers = base_table(MorseCharacterSet::Numbers);
    lemma_merged_wf(options);
    assert(scripts_of(ts).contains(MorseCharacterSet::Numbers));
    let r = choose|r: int|
        0 <= r < scripts_of(ts).len() && scripts_of(ts)[r] == MorseCharacterSet::Numbers;
    assert(ts[r].1 == numbers);
    assert(numbers[0].0 == SHORT && numbers[1].0 == LONG);
    if c == SHORT || c == LONG {
        lemma_defined_is_mapped(ts, r, c);
    }
    assert(substitute(seq![c], options.dot, options.dash) =~= seq![c]);
}

/// An unmapped character comes back from its own Morse code, unless it is
/// white space or one of the four symbols.
pub proof fn lemma_unmapped_faithful(options: OptionsView, c: char)
    requires
        options.readable(),
        lookup(merged(options), c) is None,
        !white_space(c),
        c != options.separator,
        c != options.dot,
        c != options.dash,
        c != options.space,
    ensures
        faithful(options, c),
{
    let ts = merged(options);
    let ms = mapped(ts, options.dot, options.dash);
    let token = seq![c];
    lemma_unmapped_token(options, c);
    assert forall|r: int| 0 <= r < ms.len() implies !carries((#[trigger] ms[r]).1, token) by {
        assert(ms[r].1 == mapped_table(ts[r].1, options.dot, options.dash));
        if carries(ms[r].1, token) {
            let n = choose|n: int| 0 <= n < ms[r].1.len() && (#[trigger] ms[r].1[n]).1 == token;
            let p = ts[r].1[n].1;
            lemma_merged_patterns(options, r, n);
            assert(substitute(p, options.dot, options.dash)[0] == c);
            if is_binary(p) {
                lemma_substitute_binary(p, options.dot, options.dash);
            }
        }
    }
    lemma_no_script_carries(ms, token);
}

/// A text whose only white space is the separator, and which neither
/// begins nor ends with it, is encoded in its upper case form.
pub proof fn lemma_normalized_plain(text: Seq<char>, separator: char)
    requires
        forall|k: int| 0 <= k < text.len() ==> text[k] == separator || !white_space(text[k]),
        text.len() > 0 ==> text[0] != separator && text.last() != separator,
    ensures
        normalized(text, separator) == uppercase_of(text),
{
    lemma_separate_plain(text, separator);
    lemma_trim_plain(text, separator);
}

} // verus!
