//! Patterns of short and long marks, and the substitution of the display
//! symbols for them.

use vstd::prelude::*;
use crate::text::string_of;

verus! {

/// The character that stands for a short mark before substitution.
pub const SHORT: char = '0';

/// The character that stands for a long mark before substitution.
pub const LONG: char = '1';

/// The marks that a pattern code stands for.
///
/// A code is the binary number whose leading one is a sentinel and whose
/// remaining digits are the marks, most significant first: a zero for a short
/// mark, a one for a long mark. So `0b1_01` is short, long.
pub open spec fn marks(code: nat) -> Seq<char>
    decreases code,
{
    if code < 2 {
        Seq::empty()
    } else {
        marks(code / 2).push(
            if code % 2 == 1 {
                LONG
            } else {
                SHORT
            },
        )
    }
}

/// A code is valid when it holds at least one mark.
pub open spec fn valid_code(code: u8) -> bool {
    code >= 2
}

/// A sequence of marks before substitution: nothing but `0` and `1`.
pub open spec fn is_binary(s: Seq<char>) -> bool {
    forall|i: int| 0 <= i < s.len() ==> s[i] == SHORT || s[i] == LONG
}

fn push_marks(code: u8, out: &mut Vec<char>)
    ensures
        final(out)@ == old(out)@ + marks(code as nat),
    decreases code,
{
    if code >= 2 {
        push_marks(code / 2, out);
        out.push(
            if code % 2 == 1 {
                LONG
            } else {
                SHORT
            },
        );
    }
    assert(out@ =~= old(out)@ + marks(code as nat));
}

/// The pattern of a code, written with `0` for short and `1` for long.
pub fn pattern_string(code: u8) -> (r: String)
    ensures
        r@ == marks(code as nat),
{
    let mut buffer: Vec<char> = Vec::new();
    push_marks(code, &mut buffer);
    assert(buffer@ =~= marks(code as nat));
    string_of(&buffer)
}

/// The marks of a code are binary, and a valid code has at least one.
pub proof fn lemma_marks_binary(code: nat)
    ensures
        is_binary(marks(code)),
        code >= 2 ==> marks(code).len() > 0,
    decreases code,
{
    if code >= 2 {
        lemma_marks_binary(code / 2);
    }
}

/// Two codes with the same marks are the same code.
pub proof fn lemma_marks_injective(a: nat, b: nat)
    requires
        a >= 1,
        b >= 1,
        marks(a) == marks(b),
    ensures
        a == b,
    decreases a,
{
    if a >= 2 && b >= 2 {
        assert(marks(a).drop_last() =~= marks(a / 2));
        assert(marks(b).drop_last() =~= marks(b / 2));
        assert(marks(a).last() == (if a % 2 == 1 { LONG } else { SHORT }));
        assert(marks(b).last() == (if b % 2 == 1 { LONG } else { SHORT }));
        lemma_marks_injective(a / 2, b / 2);
        assert(a % 2 == b % 2);
    } else if a >= 2 {
        assert(marks(a).len() == marks(a / 2).len() + 1);
    } else if b >= 2 {
        assert(marks(b).len() == marks(b / 2).len() + 1);
    }
}

/// What one character becomes when the symbols are put in place of the
/// marks: first the dot for `0`, then the dash for `1`. A dot symbol that is
/// itself `1` therefore ends as a dash.
pub open spec fn substitute_char(c: char, dot: char, dash: char) -> char {
    let first = if c == SHORT {
        dot
    } else {
        c
    };
    if first == LONG {
        dash
    } else {
        first
    }
}

/// The text with the dot in place of every `0`, and then the dash in place
/// of every `1`.
pub open spec fn substitute(s: Seq<char>, dot: char, dash: char) -> Seq<char> {
    Seq::new(s.len(), |i: int| substitute_char(s[i], dot, dash))
}

/// Puts the symbols in place of the marks.
pub fn substitute_symbols(text: &Vec<char>, dot: char, dash: char) -> (r: Vec<char>)
    ensures
        r@ == substitute(text@, dot, dash),
{
    let mut r: Vec<char> = Vec::new();
    let mut i: usize = 0;
    while i < text.len()
        invariant
            i <= text.len(),
            r@ == substitute(text@, dot, dash).take(i as int),
        decreases text.len() - i,
    {
        let c = text[i];
        let first = if c == SHORT {
            dot
        } else {
            c
        };
        r.push(
            if first == LONG {
                dash
            } else {
                first
            },
        );
        assert(r@ =~= substitute(text@, dot, dash).take(i + 1));
        i += 1;
    }
    assert(r@ =~= substitute(text@, dot, dash));
    r
}

/// Substitution goes character by character, so it may be done on the parts
/// of a text.
pub proof fn lemma_substitute_concat(a: Seq<char>, b: Seq<char>, dot: char, dash: char)
    ensures
        substitute(a + b, dot, dash) == substitute(a, dot, dash) + substitute(b, dot, dash),
{
    assert(substitute(a + b, dot, dash) =~= substitute(a, dot, dash) + substitute(b, dot, dash));
}

/// After substitution a sequence of marks holds the two symbols only.
pub proof fn lemma_substitute_binary(s: Seq<char>, dot: char, dash: char)
    requires
        is_binary(s),
        dot != LONG,
    ensures
        forall|i: int|
            0 <= i < s.len() ==> #[trigger] substitute(s, dot, dash)[i] == dot || substitute(
                s,
                dot,
                dash,
            )[i] == dash,
{
}

/// With two different symbols, two sequences of marks that read the same
/// after substitution are the same.
pub proof fn lemma_substitute_injective(a: Seq<char>, b: Seq<char>, dot: char, dash: char)
    requires
        is_binary(a),
        is_binary(b),
        dot != dash,
        dot != LONG,
        substitute(a, dot, dash) == substitute(b, dot, dash),
    ensures
        a == b,
{
    assert(a.len() == substitute(a, dot, dash).len());
    assert(b.len() == substitute(b, dot, dash).len());
    assert forall|i: int| 0 <= i < a.len() implies a[i] == b[i] by {
        assert(substitute(a, dot, dash)[i] == substitute_char(a[i], dot, dash));
        assert(substitute(b, dot, dash)[i] == substitute_char(b[i], dot, dash));
        assert(a[i] == SHORT || a[i] == LONG);
        assert(b[i] == SHORT || b[i] == LONG);
    }
    assert(a =~= b);
}

/// Substitution leaves neither a `0` nor a `1` behind, provided that the dot
/// is not `0` and the dash is neither `0` nor `1`.
pub proof fn lemma_substitute_plain(s: Seq<char>, dot: char, dash: char)
    requires
        dot != SHORT,
        dash != SHORT,
        dash != LONG,
    ensures
        forall|i: int|
            0 <= i < s.len() ==> (#[trigger] substitute(s, dot, dash)[i]) != SHORT && substitute(
                s,
                dot,
                dash,
            )[i] != LONG,
{
}

/// What one character becomes when the dash is put in first and the dot
/// after it.
pub open spec fn substitute_char_dash_first(c: char, dot: char, dash: char) -> char {
    let first = if c == LONG {
        dash
    } else {
        c
    };
    if first == SHORT {
        dot
    } else {
        first
    }
}

/// The order in which the two symbols are put in makes no difference,
/// provided that the dot is not `1` and the dash is not `0`.
pub proof fn lemma_substitute_order(c: char, dot: char, dash: char)
    requires
        dot != LONG,
        dash != SHORT,
    ensures
        substitute_char(c, dot, dash) == substitute_char_dash_first(c, dot, dash),
{
}

} // verus!
