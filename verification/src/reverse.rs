//! The mapping from pattern to character that decoding reads: of the entries
//! with one pattern, the first decides.

use vstd::prelude::*;
use crate::characters::TableSet;
use crate::table::Table;
use crate::text::same_text;

verus! {

/// All entries of a set of tables in the order in which they are visited:
/// script by script in priority order, and within a script by character.
pub open spec fn flatten(ts: TableSet) -> Table
    decreases ts.len(),
{
    if ts.len() == 0 {
        Seq::empty()
    } else {
        flatten(ts.drop_last()) + ts.last().1
    }
}

/// Some entry has the given pattern.
pub open spec fn carries(es: Table, token: Seq<char>) -> bool {
    exists|i: int| 0 <= i < es.len() && (#[trigger] es[i]).1 == token
}

/// The entry at `i` has the given pattern and no entry before it has.
pub open spec fn is_first_carrier(es: Table, token: Seq<char>, i: int) -> bool {
    &&& 0 <= i < es.len()
    &&& es[i].1 == token
    &&& forall|j: int| 0 <= j < i ==> (#[trigger] es[j]).1 != token
}

/// The position of the first entry with the given pattern.
pub open spec fn first_carrier(es: Table, token: Seq<char>) -> int {
    choose|i: int| is_first_carrier(es, token, i)
}

/// The mapping from pattern to character that a sequence of entries gives:
/// each pattern goes to the character of the first entry that has it, and
/// the later entries with that pattern count for nothing.
pub open spec fn reverse_index(es: Table) -> Map<Seq<char>, char> {
    Map::new(
        |token: Seq<char>| carries(es, token),
        |token: Seq<char>| es[first_carrier(es, token)].0,
    )
}

/// Among the entries with a pattern there is a first one.
pub proof fn lemma_first_carrier(es: Table, token: Seq<char>, i: int)
    requires
        0 <= i < es.len(),
        es[i].1 == token,
    ensures
        carries(es, token),
        is_first_carrier(es, token, first_carrier(es, token)),
        first_carrier(es, token) <= i,
    decreases i,
{
    if exists|j: int| 0 <= j < i && (#[trigger] es[j]).1 == token {
        let j = choose|j: int| 0 <= j < i && (#[trigger] es[j]).1 == token;
        lemma_first_carrier(es, token, j);
    } else {
        assert(is_first_carrier(es, token, i));
        let k = first_carrier(es, token);
        if k > i {
            assert(es[i].1 != token);
        }
    }
}

/// There is only one first entry with a pattern.
pub proof fn lemma_first_carrier_unique(es: Table, token: Seq<char>, i: int)
    requires
        is_first_carrier(es, token, i),
    ensures
        first_carrier(es, token) == i,
        reverse_index(es).dom().contains(token),
        reverse_index(es)[token] == es[i].0,
{
    let k = first_carrier(es, token);
    assert(is_first_carrier(es, token, k));
    if k < i {
        assert(es[k].1 != token);
    }
    if i < k {
        assert(es[i].1 != token);
    }
}

/// An entry that comes after the others adds its pattern to the mapping
/// only where no earlier entry has that pattern.
pub proof fn lemma_reverse_index_push(es: Table, entry: (char, Seq<char>))
    ensures
        reverse_index(es.push(entry)) == if carries(es, entry.1) {
            reverse_index(es)
        } else {
            reverse_index(es).insert(entry.1, entry.0)
        },
{
    let more = es.push(entry);
    let expected = if carries(es, entry.1) {
        reverse_index(es)
    } else {
        reverse_index(es).insert(entry.1, entry.0)
    };
    assert forall|token: Seq<char>| #[trigger]
        reverse_index(more).dom().contains(token) == expected.dom().contains(token) by {
        if carries(es, token) {
            let i = choose|i: int| 0 <= i < es.len() && (#[trigger] es[i]).1 == token;
            assert(more[i].1 == token);
        }
        if carries(more, token) {
            let i = choose|i: int| 0 <= i < more.len() && (#[trigger] more[i]).1 == token;
            if i < es.len() {
                assert(es[i].1 == token);
            }
        } else if token == entry.1 {
            assert(more[es.len() as int].1 == token);
        }
    }
    assert forall|token: Seq<char>| #[trigger]
        expected.dom().contains(token) implies reverse_index(more)[token] == expected[token] by {
        if carries(es, token) {
            let i = choose|i: int| 0 <= i < es.len() && (#[trigger] es[i]).1 == token;
            lemma_first_carrier(es, token, i);
            let k = first_carrier(es, token);
            assert(more[k] == es[k]);
            assert forall|j: int| 0 <= j < k implies (#[trigger] more[j]).1 != token by {
                assert(more[j] == es[j]);
            }
            assert(is_first_carrier(more, token, k));
            lemma_first_carrier_unique(more, token, k);
        } else {
            let k = es.len() as int;
            assert(more[k] == entry);
            assert forall|j: int| 0 <= j < k implies (#[trigger] more[j]).1 != token by {
                assert(more[j] == es[j]);
            }
            assert(is_first_carrier(more, token, k));
            lemma_first_carrier_unique(more, token, k);
        }
    }
    assert(reverse_index(more) =~= expected);
}

/// The entries of one more script follow those of the scripts before it.
pub proof fn lemma_flatten_step(ts: TableSet, s: int)
    requires
        0 <= s < ts.len(),
    ensures
        flatten(ts.take(s + 1)) == flatten(ts.take(s)) + ts[s].1,
{
    assert(ts.take(s + 1).drop_last() =~= ts.take(s));
    assert(ts.take(s + 1).last() == ts[s]);
}

/// The entries of the first scripts are the first entries of all.
pub proof fn lemma_flatten_prefix(ts: TableSet, s: int)
    requires
        0 <= s <= ts.len(),
    ensures
        flatten(ts.take(s)).len() <= flatten(ts).len(),
        flatten(ts.take(s)) == flatten(ts).take(flatten(ts.take(s)).len() as int),
    decreases ts.len(),
{
    let whole = flatten(ts);
    if s == ts.len() {
        assert(ts.take(s) =~= ts);
        assert(whole.take(whole.len() as int) =~= whole);
    } else {
        let front = ts.drop_last();
        assert(front.take(s) =~= ts.take(s));
        lemma_flatten_prefix(front, s);
        let part = flatten(front.take(s));
        assert(flatten(front).take(part.len() as int) =~= whole.take(part.len() as int));
    }
}

/// Every entry of a set of tables is an entry of one of its tables.
pub proof fn lemma_flatten_source(ts: TableSet, k: int)
    requires
        0 <= k < flatten(ts).len(),
    ensures
        exists|s: int, i: int|
            0 <= s < ts.len() && 0 <= i < ts[s].1.len() && flatten(ts)[k] == #[trigger] ts[s].1[i],
    decreases ts.len(),
{
    let front = ts.drop_last();
    let before = flatten(front);
    if k < before.len() {
        lemma_flatten_source(front, k);
        let (s, i) = choose|s: int, i: int|
            0 <= s < front.len() && 0 <= i < front[s].1.len() && before[k] == #[trigger] front[s].1[i];
        assert(flatten(ts)[k] == ts[s].1[i]);
    } else {
        let s = ts.len() - 1;
        let i = k - before.len();
        assert(flatten(ts)[k] == ts[s].1[i]);
    }
}

/// Where no script before the one at `s` has an entry with a pattern, the
/// first entry with the pattern in the script at `s` gives the pattern its
/// character.
pub proof fn lemma_first_script_decides(ts: TableSet, s: int, i: int, token: Seq<char>)
    requires
        0 <= s < ts.len(),
        is_first_carrier(ts[s].1, token, i),
        forall|r: int| 0 <= r < s ==> !carries((#[trigger] ts[r]).1, token),
    ensures
        reverse_index(flatten(ts)).dom().contains(token),
        reverse_index(flatten(ts))[token] == ts[s].1[i].0,
{
    let whole = flatten(ts);
    let before = flatten(ts.take(s));
    let k = before.len() + i;
    lemma_flatten_step(ts, s);
    lemma_flatten_prefix(ts, s + 1);
    lemma_flatten_prefix(ts, s);
    let upto = flatten(ts.take(s + 1));
    assert(whole.take(upto.len() as int)[k] == whole[k]);
    assert(upto[k] == ts[s].1[i]);
    assert forall|j: int| 0 <= j < k implies (#[trigger] whole[j]).1 != token by {
        assert(whole.take(upto.len() as int)[j] == whole[j]);
        if j < before.len() {
            assert(upto[j] == before[j]);
            lemma_flatten_source(ts.take(s), j);
            let (r, n) = choose|r: int, n: int|
                0 <= r < ts.take(s).len() && 0 <= n < ts.take(s)[r].1.len() && before[j]
                    == #[trigger] ts.take(s)[r].1[n];
            assert(ts.take(s)[r] == ts[r]);
            if whole[j].1 == token {
                assert(ts[r].1[n].1 == token);
                assert(carries(ts[r].1, token));
            }
        } else {
            assert(upto[j] == ts[s].1[j - before.len()]);
        }
    }
    assert(is_first_carrier(whole, token, k));
    lemma_first_carrier_unique(whole, token, k);
}

/// A pattern that no table has an entry for is not in the mapping.
pub proof fn lemma_no_script_carries(ts: TableSet, token: Seq<char>)
    requires
        forall|r: int| 0 <= r < ts.len() ==> !carries((#[trigger] ts[r]).1, token),
    ensures
        !reverse_index(flatten(ts)).dom().contains(token),
{
    if carries(flatten(ts), token) {
        let k = choose|k: int| 0 <= k < flatten(ts).len() && (#[trigger] flatten(ts)[k]).1 == token;
        lemma_flatten_source(ts, k);
        let (r, n) = choose|r: int, n: int|
            0 <= r < ts.len() && 0 <= n < ts[r].1.len() && flatten(ts)[k] == #[trigger] ts[r].1[n];
        assert(ts[r].1[n].1 == token);
        assert(carries(ts[r].1, token));
    }
}

/// Among the scripts that have an entry with a pattern there is a first
/// one.
pub proof fn lemma_first_script_that_carries(ts: TableSet, r: int, token: Seq<char>) -> (first: int)
    requires
        0 <= r < ts.len(),
        carries(ts[r].1, token),
    ensures
        0 <= first <= r,
        carries(ts[first].1, token),
        forall|q: int| 0 <= q < first ==> !carries((#[trigger] ts[q]).1, token),
    decreases r,
{
    if exists|q: int| 0 <= q < r && carries((#[trigger] ts[q]).1, token) {
        let q = choose|q: int| 0 <= q < r && carries((#[trigger] ts[q]).1, token);
        lemma_first_script_that_carries(ts, q, token)
    } else {
        r
    }
}

/// A mapping from pattern to character in which the first entry with a
/// pattern decides.
#[derive(Debug, Clone, PartialEq, Eq)]
pub struct ReverseIndex {
    entries: Vec<(char, Vec<char>)>,
}

impl ReverseIndex {
    /// The entries that decide, in the order in which they were put in.
    spec fn listed(&self) -> Table {
        Seq::new(self.entries@.len(), |i: int| (self.entries@[i].0, self.entries@[i].1@))
    }
}

impl View for ReverseIndex {
    type V = Map<Seq<char>, char>;

    closed spec fn view(&self) -> Map<Seq<char>, char> {
        reverse_index(self.listed())
    }
}

impl ReverseIndex {
    /// The empty mapping.
    pub fn new() -> (r: ReverseIndex)
        ensures
            r@ == Map::<Seq<char>, char>::empty(),
    {
        let r = ReverseIndex { entries: Vec::new() };
        assert(r@ =~= Map::<Seq<char>, char>::empty());
        r
    }

    /// The character of a pattern, if the mapping has the pattern.
    pub fn get(&self, token: &Vec<char>) -> (r: Option<char>)
        ensures
            r == if self@.dom().contains(token@) {
                Some(self@[token@])
            } else {
                None
            },
    {
        let mut i: usize = 0;
        while i < self.entries.len()
            invariant
                i <= self.entries@.len(),
                self.listed().len() == self.entries@.len(),
                forall|j: int| 0 <= j < i ==> (#[trigger] self.listed()[j]).1 != token@,
            decreases self.entries.len() - i,
        {
            if same_text(&self.entries[i].1, token) {
                proof {
                    assert(self.listed()[i as int].1 == token@);
                    assert(is_first_carrier(self.listed(), token@, i as int));
                    lemma_first_carrier_unique(self.listed(), token@, i as int);
                }
                return Some(self.entries[i].0);
            }
            i += 1;
        }
        None
    }

    /// Maps a pattern to a character, unless the pattern is mapped already.
    pub fn insert_first(&mut self, pattern: Vec<char>, character: char)
        ensures
            final(self)@ == if old(self)@.dom().contains(pattern@) {
                old(self)@
            } else {
                old(self)@.insert(pattern@, character)
            },
    {
        proof {
            lemma_reverse_index_push(self.listed(), (character, pattern@));
        }
        if self.get(&pattern).is_none() {
            self.entries.push((character, pattern));
            assert(self.listed() =~= old(self).listed().push((character, pattern@)));
        }
    }
}

} // verus!
