//! Conversions between strings and character buffers, and the text
//! normalisation that precedes encoding and decoding.

use vstd::prelude::*;

verus! {

/// Assumed of the standard library: `String::push` appends the given
/// character to the end of the string and leaves what was there as it is.
pub assume_specification[ String::push ](s: &mut String, ch: char)
    ensures
        final(s)@ == old(s)@.push(ch),
;

/// The characters of a string, in order.
pub fn chars_of(s: &str) -> (v: Vec<char>)
    ensures
        v@ == s@,
{
    let mut v: Vec<char> = Vec::new();
    for c in it: s.chars()
        invariant
            v@ == it.seq().take(it.index()),
            it.seq() == s@,
    {
        v.push(c);
    }
    v
}

/// The string made of the given characters, in order.
pub fn string_of(chars: &Vec<char>) -> (s: String)
    ensures
        s@ == chars@,
{
    let mut s = String::new();
    let mut i: usize = 0;
    while i < chars.len()
        invariant
            i <= chars.len(),
            s@ == chars@.take(i as int),
        decreases chars.len() - i,
    {
        s.push(chars[i]);
        i += 1;
    }
    s
}

/// Whether two buffers hold the same text.
pub fn same_text(a: &Vec<char>, b: &Vec<char>) -> (r: bool)
    ensures
        r == (a@ == b@),
{
    if a.len() != b.len() {
        return false;
    }
    let mut i: usize = 0;
    while i < a.len()
        invariant
            i <= a.len(),
            a.len() == b.len(),
            forall|j: int| 0 <= j < i ==> a@[j] == b@[j],
        decreases a.len() - i,
    {
        if a[i] != b[i] {
            return false;
        }
        i += 1;
    }
    assert(a@ =~= b@);
    true
}

/// Appends a text to a buffer.
pub fn push_all(out: &mut Vec<char>, more: &Vec<char>)
    ensures
        final(out)@ == old(out)@ + more@,
{
    let mut i: usize = 0;
    while i < more.len()
        invariant
            i <= more.len(),
            out@ == old(out)@ + more@.take(i as int),
        decreases more.len() - i,
    {
        out.push(more[i]);
        assert(out@ =~= old(out)@ + more@.take(i + 1));
        i += 1;
    }
    assert(more@.take(i as int) =~= more@);
}

/// The characters with the Unicode property White_Space.
pub open spec fn white_space(c: char) -> bool {
    ||| '\u{9}' <= c <= '\u{d}'
    ||| c == ' '
    ||| c == '\u{85}'
    ||| c == '\u{a0}'
    ||| c == '\u{1680}'
    ||| '\u{2000}' <= c <= '\u{200a}'
    ||| c == '\u{2028}'
    ||| c == '\u{2029}'
    ||| c == '\u{202f}'
    ||| c == '\u{205f}'
    ||| c == '\u{3000}'
}

/// Whether a character has the Unicode property White_Space.
pub fn is_whitespace(c: char) -> (r: bool)
    ensures
        r == white_space(c),
{
    ('\u{9}' <= c && c <= '\u{d}') || c == ' ' || c == '\u{85}' || c == '\u{a0}' || c
        == '\u{1680}' || ('\u{2000}' <= c && c <= '\u{200a}') || c == '\u{2028}' || c
        == '\u{2029}' || c == '\u{202f}' || c == '\u{205f}' || c == '\u{3000}'
}

/// The text with the separator in place of every white space character.
pub open spec fn separate(s: Seq<char>, separator: char) -> Seq<char> {
    Seq::new(
        s.len(),
        |i: int|
            if white_space(s[i]) {
                separator
            } else {
                s[i]
            },
    )
}

/// The text without the separators at its start.
pub open spec fn trim_start(s: Seq<char>, separator: char) -> Seq<char>
    decreases s.len(),
{
    if s.len() > 0 && s[0] == separator {
        trim_start(s.drop_first(), separator)
    } else {
        s
    }
}

/// The text without the separators at its end.
pub open spec fn trim_end(s: Seq<char>, separator: char) -> Seq<char>
    decreases s.len(),
{
    if s.len() > 0 && s.last() == separator {
        trim_end(s.drop_last(), separator)
    } else {
        s
    }
}

/// The text without the separators at its start and at its end.
pub open spec fn trim(s: Seq<char>, separator: char) -> Seq<char> {
    trim_end(trim_start(s, separator), separator)
}

/// The pieces between the separators of a text, in order. A text with `n`
/// separators has `n + 1` pieces, of which any may be empty.
pub open spec fn split(s: Seq<char>, separator: char) -> Seq<Seq<char>>
    decreases s.len(),
{
    if s.len() == 0 {
        seq![Seq::empty()]
    } else {
        let pieces = split(s.drop_last(), separator);
        if s.last() == separator {
            pieces.push(Seq::empty())
        } else {
            pieces.update(pieces.len() - 1, pieces.last().push(s.last()))
        }
    }
}

/// A text always has at least one piece.
pub proof fn lemma_split_len(s: Seq<char>, separator: char)
    ensures
        split(s, separator).len() >= 1,
    decreases s.len(),
{
    if s.len() > 0 {
        lemma_split_len(s.drop_last(), separator);
    }
}

/// What remains when the first `k` characters are separators and the next
/// one is not.
pub proof fn lemma_trim_start(s: Seq<char>, separator: char, k: int)
    requires
        0 <= k <= s.len(),
        forall|j: int| 0 <= j < k ==> s[j] == separator,
        k == s.len() || s[k] != separator,
    ensures
        trim_start(s, separator) == s.skip(k),
    decreases k,
{
    if k == 0 {
        assert(s.skip(0) =~= s);
    } else {
        let rest = s.drop_first();
        assert(s[0] == separator);
        assert forall|j: int| 0 <= j < k - 1 implies rest[j] == separator by {
            assert(rest[j] == s[j + 1]);
        }
        lemma_trim_start(rest, separator, k - 1);
        assert(rest.skip(k - 1) =~= s.skip(k));
    }
}

/// What remains when all characters from `k` on are separators and the one
/// before is not.
pub proof fn lemma_trim_end(s: Seq<char>, separator: char, k: int)
    requires
        0 <= k <= s.len(),
        forall|j: int| k <= j < s.len() ==> s[j] == separator,
        k == 0 || s[k - 1] != separator,
    ensures
        trim_end(s, separator) == s.take(k),
    decreases s.len() - k,
{
    if k == s.len() {
        assert(s.take(k) =~= s);
    } else {
        let rest = s.drop_last();
        assert(s.last() == separator);
        lemma_trim_end(rest, separator, k);
        assert(rest.take(k) =~= s.take(k));
    }
}

/// Replaces every white space character by the separator.
pub fn separate_words(text: &Vec<char>, separator: char) -> (r: Vec<char>)
    ensures
        r@ == separate(text@, separator),
{
    let mut r: Vec<char> = Vec::new();
    let mut i: usize = 0;
    while i < text.len()
        invariant
            i <= text.len(),
            r@ == separate(text@, separator).take(i as int),
        decreases text.len() - i,
    {
        let c = text[i];
        r.push(
            if is_whitespace(c) {
                separator
            } else {
                c
            },
        );
        assert(r@ =~= separate(text@, separator).take(i + 1));
        i += 1;
    }
    assert(r@ =~= separate(text@, separator));
    r
}

/// Removes the separators at the start and at the end of a text.
pub fn trim_separator(text: &Vec<char>, separator: char) -> (r: Vec<char>)
    ensures
        r@ == trim(text@, separator),
{
    let mut start: usize = 0;
    while start < text.len() && text[start] == separator
        invariant
            start <= text.len(),
            forall|j: int| 0 <= j < start ==> text@[j] == separator,
        decreases text.len() - start,
    {
        start += 1;
    }
    let mut end: usize = text.len();
    while end > start && text[end - 1] == separator
        invariant
            start <= end <= text.len(),
            forall|j: int| end <= j < text.len() ==> text@[j] == separator,
        decreases end,
    {
        end -= 1;
    }
    proof {
        lemma_trim_start(text@, separator, start as int);
        let rest = text@.skip(start as int);
        assert forall|j: int| end - start <= j < rest.len() implies rest[j] == separator by {
            assert(rest[j] == text@[j + start]);
        }
        lemma_trim_end(rest, separator, end - start);
        assert(rest.take(end - start) =~= text@.subrange(start as int, end as int));
    }
    let mut r: Vec<char> = Vec::new();
    let mut i: usize = start;
    while i < end
        invariant
            start <= i <= end <= text.len(),
            r@ == text@.subrange(start as int, i as int),
        decreases end - i,
    {
        r.push(text[i]);
        assert(r@ =~= text@.subrange(start as int, i + 1));
        i += 1;
    }
    r
}

/// The texts that a list of character buffers holds.
pub open spec fn texts_of(buffers: Seq<Vec<char>>) -> Seq<Seq<char>> {
    Seq::new(buffers.len(), |i: int| buffers[i]@)
}

/// Cuts a text at every separator.
pub fn split_tokens(text: &Vec<char>, separator: char) -> (r: Vec<Vec<char>>)
    ensures
        texts_of(r@) == split(text@, separator),
{
    let mut done: Vec<Vec<char>> = Vec::new();
    let mut current: Vec<char> = Vec::new();
    let mut i: usize = 0;
    assert(text@.take(0) =~= Seq::<char>::empty());
    assert(texts_of(done@).push(current@) =~= split(text@.take(0), separator));
    while i < text.len()
        invariant
            i <= text.len(),
            texts_of(done@).push(current@) == split(text@.take(i as int), separator),
        decreases text.len() - i,
    {
        let c = text[i];
        let ghost pieces = split(text@.take(i as int), separator);
        assert(text@.take(i + 1).drop_last() =~= text@.take(i as int));
        assert(text@.take(i + 1).last() == c);
        if c == separator {
            done.push(current);
            current = Vec::new();
            assert(texts_of(done@) =~= pieces);
        } else {
            current.push(c);
        }
        assert(texts_of(done@).push(current@) =~= split(text@.take(i + 1), separator));
        i += 1;
    }
    assert(text@.take(i as int) =~= text@);
    let ghost pieces = texts_of(done@).push(current@);
    done.push(current);
    assert(texts_of(done@) =~= pieces);
    done
}

/// The upper case form of a text, as `str::to_uppercase` gives it.
pub uninterp spec fn uppercase_of(s: Seq<char>) -> Seq<char>;

/// Assumed of the standard library: `str::to_uppercase` returns the upper
/// case equivalent of the string as Unicode defines it, which depends on the
/// characters of the argument alone. Nothing more is known of it here; a
/// character may become several, as `ß` becomes `SS`.
#[verifier::external_body]
pub(crate) fn to_uppercase(s: &str) -> (r: String)
    ensures
        r@ == uppercase_of(s@),
{
    s.to_uppercase()
}

/// The text as it is encoded: every white space character replaced by the
/// separator, the separators at both ends removed, and the rest in upper
/// case.
pub open spec fn normalized(text: Seq<char>, separator: char) -> Seq<char> {
    uppercase_of(trim(separate(text, separator), separator))
}

/// Brings a text into the form in which it is encoded.
pub fn normalize(text: &str, separator: char) -> (r: Vec<char>)
    ensures
        r@ == normalized(text@, separator),
{
    let chars = chars_of(text);
    let separated = separate_words(&chars, separator);
    let trimmed = trim_separator(&separated, separator);
    let upper = to_uppercase(string_of(&trimmed).as_str());
    chars_of(upper.as_str())
}

/// A text without white space, but for the separator, stays as it is when
/// the separator is put in place of the white space.
pub proof fn lemma_separate_plain(s: Seq<char>, separator: char)
    requires
        forall|k: int| 0 <= k < s.len() ==> s[k] == separator || !white_space(s[k]),
    ensures
        separate(s, separator) == s,
{
    assert(separate(s, separator) =~= s);
}

/// A text that neither begins nor ends with the separator stays as it is
/// when it is trimmed.
pub proof fn lemma_trim_plain(s: Seq<char>, separator: char)
    requires
        s.len() > 0 ==> s[0] != separator && s.last() != separator,
    ensures
        trim(s, separator) == s,
{
}

/// The pieces put together again, with one separator between each two.
pub open spec fn joined(pieces: Seq<Seq<char>>, separator: char) -> Seq<char>
    decreases pieces.len(),
{
    if pieces.len() == 0 {
        Seq::empty()
    } else if pieces.len() == 1 {
        pieces[0]
    } else {
        joined(pieces.drop_last(), separator).push(separator) + pieces.last()
    }
}

/// No piece holds the separator.
pub open spec fn free_of(pieces: Seq<Seq<char>>, separator: char) -> bool {
    forall|i: int, k: int|
        0 <= i < pieces.len() && 0 <= k < pieces[i].len() ==> #[trigger] pieces[i][k] != separator
}

/// More text without a separator makes the last piece longer and leaves
/// the others as they are.
pub proof fn lemma_split_extend(s: Seq<char>, more: Seq<char>, separator: char)
    requires
        forall|k: int| 0 <= k < more.len() ==> more[k] != separator,
    ensures
        split(s + more, separator).len() == split(s, separator).len(),
        split(s, separator).len() >= 1,
        split(s + more, separator) == split(s, separator).update(
            split(s, separator).len() - 1,
            split(s, separator).last() + more,
        ),
    decreases more.len(),
{
    lemma_split_len(s, separator);
    let pieces = split(s, separator);
    if more.len() == 0 {
        assert(s + more =~= s);
        assert(pieces.last() + more =~= pieces.last());
        assert(pieces =~= pieces.update(pieces.len() - 1, pieces.last()));
    } else {
        let front = more.drop_last();
        lemma_split_extend(s, front, separator);
        assert((s + more).drop_last() =~= s + front);
        assert((s + more).last() == more.last());
        let before = split(s + front, separator);
        assert(before.last().push(more.last()) =~= pieces.last() + more);
        assert(split(s + more, separator) =~= pieces.update(
            pieces.len() - 1,
            pieces.last() + more,
        ));
    }
}

/// Pieces without a separator in them are what a text put together from
/// them is cut into.
pub proof fn lemma_split_joined(pieces: Seq<Seq<char>>, separator: char)
    requires
        pieces.len() >= 1,
        free_of(pieces, separator),
    ensures
        split(joined(pieces, separator), separator) == pieces,
    decreases pieces.len(),
{
    let last = pieces.last();
    assert forall|k: int| 0 <= k < last.len() implies last[k] != separator by {
        assert(pieces[pieces.len() - 1][k] != separator);
    }
    if pieces.len() == 1 {
        lemma_split_extend(Seq::empty(), last, separator);
        assert(Seq::<char>::empty() + last =~= last);
        assert(split(Seq::empty(), separator) =~= seq![Seq::<char>::empty()]);
        assert(split(joined(pieces, separator), separator) =~= pieces);
    } else {
        let front = pieces.drop_last();
        assert forall|i: int, k: int|
            0 <= i < front.len() && 0 <= k < front[i].len() implies #[trigger] front[i][k]
            != separator by {
            assert(pieces[i][k] != separator);
        }
        lemma_split_joined(front, separator);
        let head = joined(front, separator).push(separator);
        assert(head.drop_last() =~= joined(front, separator));
        assert(split(head, separator) == front.push(Seq::<char>::empty()));
        lemma_split_extend(head, last, separator);
        assert(Seq::<char>::empty() + last =~= last);
        assert(split(joined(pieces, separator), separator) =~= pieces);
    }
}

/// A text put together from pieces holds the separator and the characters
/// of the pieces, and nothing else; it begins as the first piece does and
/// ends as the last one does, where these are not empty.
pub proof fn lemma_joined_chars(pieces: Seq<Seq<char>>, separator: char)
    requires
        pieces.len() >= 1,
    ensures
        forall|k: int|
            0 <= k < joined(pieces, separator).len() ==> #[trigger] joined(pieces, separator)[k]
                == separator || exists|i: int, n: int|
                0 <= i < pieces.len() && 0 <= n < pieces[i].len() && joined(pieces, separator)[k]
                    == #[trigger] pieces[i][n],
        pieces[0].len() > 0 ==> joined(pieces, separator).len() > 0 && joined(
            pieces,
            separator,
        )[0] == pieces[0][0],
        pieces.last().len() > 0 ==> joined(pieces, separator).len() > 0 && joined(
            pieces,
            separator,
        ).last() == pieces.last().last(),
    decreases pieces.len(),
{
    let whole = joined(pieces, separator);
    if pieces.len() == 1 {
        assert forall|k: int| 0 <= k < whole.len() implies #[trigger] whole[k] == separator
            || exists|i: int, n: int|
            0 <= i < pieces.len() && 0 <= n < pieces[i].len() && whole[k] == #[trigger] pieces[i][n] by {
            assert(whole[k] == pieces[0][k]);
        }
    } else {
        let front = pieces.drop_last();
        let head = joined(front, separator);
        lemma_joined_chars(front, separator);
        assert forall|k: int| 0 <= k < whole.len() implies #[trigger] whole[k] == separator
            || exists|i: int, n: int|
            0 <= i < pieces.len() && 0 <= n < pieces[i].len() && whole[k] == #[trigger] pieces[i][n] by {
            if k < head.len() {
                assert(whole[k] == head[k]);
                if head[k] != separator {
                    let (i, n) = choose|i: int, n: int|
                        0 <= i < front.len() && 0 <= n < front[i].len() && head[k]
                            == #[trigger] front[i][n];
                    assert(whole[k] == pieces[i][n]);
                }
            } else if k > head.len() {
                assert(whole[k] == pieces[pieces.len() - 1][k - head.len() - 1]);
            }
        }
        if pieces[0].len() > 0 {
            assert(front[0] == pieces[0]);
            assert(whole[0] == head[0]);
        }
    }
}

} // verus!
