//! One script's table: an ordered mapping from character to pattern.

use vstd::prelude::*;
use crate::pattern::{
    lemma_marks_binary, marks, pattern_string, substitute, substitute_symbols, valid_code,
};
use crate::text::{chars_of, string_of};

verus! {

/// The model of one script's table: its entries, each a character with its
/// pattern, in the order in which they are visited.
pub type Table = Seq<(char, Seq<char>)>;

/// The entries stand in strictly increasing order of their characters, so no
/// character has two patterns.
pub open spec fn sorted(t: Table) -> bool {
    forall|i: int, j: int| 0 <= i < j < t.len() ==> t[i].0 < t[j].0
}

/// Every pattern has at least one mark.
pub open spec fn patterns_nonempty(t: Table) -> bool {
    forall|i: int| 0 <= i < t.len() ==> (#[trigger] t[i]).1.len() > 0
}

/// The table has an entry for the character.
pub open spec fn defines(t: Table, c: char) -> bool {
    exists|i: int| 0 <= i < t.len() && (#[trigger] t[i]).0 == c
}

/// The pattern that the table gives the character, if it has one.
pub open spec fn pattern_in(t: Table, c: char) -> Option<Seq<char>> {
    if defines(t, c) {
        Some(t[choose|i: int| 0 <= i < t.len() && (#[trigger] t[i]).0 == c].1)
    } else {
        None
    }
}

/// `k` parts the table into the entries below `c` and those not below it.
pub open spec fn is_lower_bound(t: Table, c: char, k: int) -> bool {
    &&& 0 <= k <= t.len()
    &&& forall|i: int| 0 <= i < k ==> (#[trigger] t[i]).0 < c
    &&& forall|i: int| k <= i < t.len() ==> (#[trigger] t[i]).0 >= c
}

/// The number of entries whose character is below `c`.
pub open spec fn lower_bound(t: Table, c: char) -> int {
    choose|k: int| is_lower_bound(t, c, k)
}

/// The table with `c` mapped to `p`: the entry of `c` is replaced where there
/// is one, and put in at its place in the order where there is none.
pub open spec fn insert_entry(t: Table, c: char, p: Seq<char>) -> Table {
    let k = lower_bound(t, c);
    if k < t.len() && t[k].0 == c {
        t.update(k, (c, p))
    } else {
        t.insert(k, (c, p))
    }
}

/// In a sorted table the entry of a character is the only one.
pub proof fn lemma_pattern_in(t: Table, i: int)
    requires
        sorted(t),
        0 <= i < t.len(),
    ensures
        defines(t, t[i].0),
        pattern_in(t, t[i].0) == Some(t[i].1),
{
    let c = t[i].0;
    let j = choose|j: int| 0 <= j < t.len() && (#[trigger] t[j]).0 == c;
    if j < i {
        assert(t[j].0 < t[i].0);
    }
    if i < j {
        assert(t[i].0 < t[j].0);
    }
}

/// There is at most one lower bound.
pub proof fn lemma_lower_bound_unique(t: Table, c: char, k: int)
    requires
        is_lower_bound(t, c, k),
    ensures
        lower_bound(t, c) == k,
{
    let k2 = lower_bound(t, c);
    assert(is_lower_bound(t, c, k2));
    if k < k2 {
        assert(t[k].0 < c);
        assert(t[k].0 >= c);
    }
    if k2 < k {
        assert(t[k2].0 < c);
        assert(t[k2].0 >= c);
    }
}

/// Inserting keeps a table sorted and its patterns non-empty, and afterwards
/// the table gives `c` the pattern `p` and every other character what it had.
pub proof fn lemma_insert_entry(t: Table, c: char, p: Seq<char>, k: int)
    requires
        sorted(t),
        is_lower_bound(t, c, k),
    ensures
        sorted(insert_entry(t, c, p)),
        patterns_nonempty(t) && p.len() > 0 ==> patterns_nonempty(insert_entry(t, c, p)),
        pattern_in(insert_entry(t, c, p), c) == Some(p),
        forall|d: char| d != c ==> pattern_in(insert_entry(t, c, p), d) == pattern_in(t, d),
{
    lemma_lower_bound_unique(t, c, k);
    let u = insert_entry(t, c, p);
    let replaced = k < t.len() && t[k].0 == c;
    assert forall|i: int, j: int| 0 <= i < j < u.len() implies u[i].0 < u[j].0 by {
        if replaced {
            assert(t[i].0 < t[j].0);
        } else {
            if i < k && j == k {
                assert(t[i].0 < c);
            } else if i == k {
                assert(t[j - 1].0 >= c);
            } else if i < k && j > k {
                assert(t[i].0 < t[j - 1].0);
            } else if i > k {
                assert(t[i - 1].0 < t[j - 1].0);
            } else {
                assert(t[i].0 < t[j].0);
            }
        }
    }
    assert(u[k] == (c, p));
    lemma_pattern_in(u, k);
    if patterns_nonempty(t) && p.len() > 0 {
        assert forall|i: int| 0 <= i < u.len() implies (#[trigger] u[i]).1.len() > 0 by {
            if replaced {
                if i != k {
                    assert(u[i] == t[i]);
                }
            } else {
                if i < k {
                    assert(u[i] == t[i]);
                } else if i > k {
                    assert(u[i] == t[i - 1]);
                }
            }
        }
    }
    assert forall|d: char| d != c implies pattern_in(u, d) == pattern_in(t, d) by {
        if defines(t, d) {
            let i = choose|i: int| 0 <= i < t.len() && (#[trigger] t[i]).0 == d;
            lemma_pattern_in(t, i);
            let i2 = if replaced || i < k {
                i
            } else {
                i + 1
            };
            assert(u[i2] == t[i]);
            lemma_pattern_in(u, i2);
        } else if defines(u, d) {
            let i2 = choose|i: int| 0 <= i < u.len() && (#[trigger] u[i]).0 == d;
            let i = if replaced || i2 < k {
                i2
            } else {
                i2 - 1
            };
            assert(t[i] == u[i2]);
            assert(false);
        }
    }
}

/// The table that a list of characters with their pattern codes stands for.
pub open spec fn entries_of(data: Seq<(char, u8)>) -> Table {
    Seq::new(data.len(), |i: int| (data[i].0, marks(data[i].1 as nat)))
}

/// A list of characters with their codes makes a table: each character is
/// below the next one and every code holds a mark.
pub open spec fn data_ok(data: Seq<(char, u8)>) -> bool {
    &&& forall|i: int| 0 <= i < data.len() - 1 ==> (#[trigger] data[i]).0 < data[i + 1].0
    &&& forall|i: int| 0 <= i < data.len() ==> valid_code((#[trigger] data[i]).1)
}

/// A list in which each character is below the next one is strictly
/// increasing throughout.
pub proof fn lemma_data_increasing(data: Seq<(char, u8)>, i: int, j: int)
    requires
        data_ok(data),
        0 <= i < j < data.len(),
    ensures
        data[i].0 < data[j].0,
    decreases j - i,
{
    if i + 1 < j {
        lemma_data_increasing(data, i + 1, j);
    }
    assert(data[i].0 < data[i + 1].0);
}

/// The table of a well-made list is sorted and has no empty pattern.
pub proof fn lemma_entries_of(data: Seq<(char, u8)>)
    requires
        data_ok(data),
    ensures
        sorted(entries_of(data)),
        patterns_nonempty(entries_of(data)),
{
    let t = entries_of(data);
    assert forall|i: int, j: int| 0 <= i < j < t.len() implies t[i].0 < t[j].0 by {
        lemma_data_increasing(data, i, j);
    }
    assert forall|j: int| 0 <= j < t.len() implies (#[trigger] t[j]).1.len() > 0 by {
        assert(valid_code(data[j].1));
        lemma_marks_binary(data[j].1 as nat);
    }
}

/// The table with the symbols in place of the marks of every pattern.
pub open spec fn mapped_table(t: Table, dot: char, dash: char) -> Table {
    Seq::new(t.len(), |i: int| (t[i].0, substitute(t[i].1, dot, dash)))
}

/// One script's table: an ordered mapping from character to pattern.
#[derive(Debug, Clone, PartialEq, Eq)]
pub struct CharacterMap {
    entries: Vec<(char, String)>,
}

impl View for CharacterMap {
    type V = Table;

    closed spec fn view(&self) -> Table {
        Seq::new(self.entries@.len(), |i: int| (self.entries@[i].0, self.entries@[i].1@))
    }
}

impl CharacterMap {
    /// The table is sorted by character and no pattern is empty.
    pub open spec fn wf(&self) -> bool {
        sorted(self@) && patterns_nonempty(self@)
    }

    /// The empty table.
    pub fn new() -> (r: CharacterMap)
        ensures
            r@ == Seq::<(char, Seq<char>)>::empty(),
            r.wf(),
    {
        let r = CharacterMap { entries: Vec::new() };
        assert(r@ =~= Seq::<(char, Seq<char>)>::empty());
        r
    }

    /// The number of entries.
    pub fn len(&self) -> (n: usize)
        ensures
            n == self@.len(),
    {
        self.entries.len()
    }

    /// The character of the entry at `index`.
    pub fn character_at(&self, index: usize) -> (c: char)
        requires
            index < self@.len(),
        ensures
            c == self@[index as int].0,
    {
        self.entries[index].0
    }

    /// The pattern of the entry at `index`.
    pub fn pattern_at(&self, index: usize) -> (p: &String)
        requires
            index < self@.len(),
        ensures
            p@ == self@[index as int].1,
    {
        &self.entries[index].1
    }

    /// The number of entries whose character is below `c`.
    fn search(&self, c: char) -> (k: usize)
        requires
            self.wf(),
        ensures
            is_lower_bound(self@, c, k as int),
    {
        let mut low: usize = 0;
        let mut high: usize = self.entries.len();
        while low < high
            invariant
                self.wf(),
                0 <= low <= high <= self@.len(),
                self@.len() == self.entries@.len(),
                forall|i: int| 0 <= i < low ==> (#[trigger] self@[i]).0 < c,
                forall|i: int| high <= i < self@.len() ==> (#[trigger] self@[i]).0 >= c,
            decreases high - low,
        {
            let mid: usize = low + (high - low) / 2;
            if self.entries[mid].0 < c {
                assert forall|i: int| 0 <= i < mid + 1 implies (#[trigger] self@[i]).0 < c by {
                    if i < mid {
                        assert(self@[i].0 < self@[mid as int].0);
                    }
                }
                low = mid + 1;
            } else {
                assert forall|i: int| mid <= i < self@.len() implies (#[trigger] self@[i]).0
                    >= c by {
                    if i > mid {
                        assert(self@[mid as int].0 < self@[i].0);
                    }
                }
                high = mid;
            }
        }
        low
    }

    /// The pattern of `c`, if the table has one.
    pub fn get(&self, c: char) -> (r: Option<&String>)
        requires
            self.wf(),
        ensures
            match r {
                Some(p) => pattern_in(self@, c) == Some(p@),
                None => pattern_in(self@, c) is None,
            },
    {
        let k = self.search(c);
        if k < self.entries.len() && self.entries[k].0 == c {
            proof {
                lemma_pattern_in(self@, k as int);
            }
            Some(&self.entries[k].1)
        } else {
            proof {
                if defines(self@, c) {
                    let i = choose|i: int| 0 <= i < self@.len() && (#[trigger] self@[i]).0 == c;
                    if i > k {
                        assert(self@[k as int].0 < self@[i].0);
                    }
                }
            }
            None
        }
    }

    /// Whether the table has an entry for `c`.
    pub fn contains_key(&self, c: char) -> (r: bool)
        requires
            self.wf(),
        ensures
            r == defines(self@, c),
    {
        self.get(c).is_some()
    }

    /// Maps `c` to `pattern`, replacing the pattern that `c` had, if any.
    pub fn insert(&mut self, c: char, pattern: String)
        requires
            old(self).wf(),
            pattern@.len() > 0,
        ensures
            final(self).wf(),
            final(self)@ == insert_entry(old(self)@, c, pattern@),
    {
        let k = self.search(c);
        proof {
            lemma_lower_bound_unique(self@, c, k as int);
            lemma_insert_entry(self@, c, pattern@, k as int);
        }
        if k < self.entries.len() && self.entries[k].0 == c {
            self.entries.set(k, (c, pattern));
        } else {
            self.entries.insert(k, (c, pattern));
        }
        assert(self@ =~= insert_entry(old(self)@, c, pattern@));
    }

    /// The table with the symbols in place of the marks of every pattern.
    pub fn substituted(&self, dot: char, dash: char) -> (r: CharacterMap)
        requires
            self.wf(),
        ensures
            r.wf(),
            r@ == mapped_table(self@, dot, dash),
    {
        let mut entries: Vec<(char, String)> = Vec::new();
        let mut i: usize = 0;
        while i < self.entries.len()
            invariant
                i <= self.entries@.len(),
                self@.len() == self.entries@.len(),
                entries@.len() == i,
                forall|j: int| 0 <= j < i ==> (#[trigger] entries@[j]).0 == self@[j].0,
                forall|j: int|
                    0 <= j < i ==> (#[trigger] entries@[j]).1@ == substitute(self@[j].1, dot, dash),
            decreases self.entries.len() - i,
        {
            let marks = chars_of(self.entries[i].1.as_str());
            let symbols = substitute_symbols(&marks, dot, dash);
            entries.push((self.entries[i].0, string_of(&symbols)));
            i += 1;
        }
        let r = CharacterMap { entries };
        assert(r@ =~= mapped_table(self@, dot, dash));
        proof {
            assert forall|a: int, b: int| 0 <= a < b < r@.len() implies r@[a].0 < r@[b].0 by {
                assert(self@[a].0 < self@[b].0);
            }
            assert forall|j: int| 0 <= j < r@.len() implies (#[trigger] r@[j]).1.len() > 0 by {
                assert(self@[j].1.len() > 0);
            }
        }
        r
    }
}

/// The table of a list of characters with their codes.
pub(crate) fn table_from<const N: usize>(data: &[(char, u8); N]) -> (r: CharacterMap)
    requires
        data_ok(data@),
    ensures
        r.wf(),
        r@ == entries_of(data@),
{
    let mut entries: Vec<(char, String)> = Vec::new();
    let mut i: usize = 0;
    while i < N
        invariant
            i <= N,
            N == data@.len(),
            entries@.len() == i,
            forall|j: int| 0 <= j < i ==> (#[trigger] entries@[j]).0 == data@[j].0,
            forall|j: int| 0 <= j < i ==> (#[trigger] entries@[j]).1@ == marks(data@[j].1 as nat),
        decreases N - i,
    {
        let entry = data[i];
        entries.push((entry.0, pattern_string(entry.1)));
        i += 1;
    }
    let r = CharacterMap { entries };
    assert(r@ =~= entries_of(data@));
    proof {
        lemma_entries_of(data@);
    }
    r
}

/// A sorted table has a lower bound for every character.
pub proof fn lemma_lower_bound_exists(t: Table, c: char)
    requires
        sorted(t),
    ensures
        is_lower_bound(t, c, lower_bound(t, c)),
    decreases t.len(),
{
    if t.len() == 0 {
        assert(is_lower_bound(t, c, 0));
    } else {
        let front = t.drop_last();
        lemma_lower_bound_exists(front, c);
        let k = lower_bound(front, c);
        if t.last().0 < c {
            assert forall|i: int| 0 <= i < t.len() implies (#[trigger] t[i]).0 < c by {
                if i < t.len() - 1 {
                    assert(t[i].0 < t[t.len() - 1].0);
                }
            }
            assert(is_lower_bound(t, c, t.len() as int));
        } else {
            assert forall|i: int| 0 <= i < k implies (#[trigger] t[i]).0 < c by {
                assert(front[i].0 < c);
            }
            assert forall|i: int| k <= i < t.len() implies (#[trigger] t[i]).0 >= c by {
                if i < t.len() - 1 {
                    assert(front[i].0 >= c);
                }
            }
            assert(is_lower_bound(t, c, k));
        }
    }
}

/// An entry of a table after an insertion is the new entry or an entry that
/// the table had before.
pub proof fn lemma_insert_entry_entries(t: Table, c: char, p: Seq<char>)
    requires
        sorted(t),
    ensures
        forall|i: int|
            0 <= i < insert_entry(t, c, p).len() ==> #[trigger] insert_entry(t, c, p)[i] == (c, p)
                || t.contains(insert_entry(t, c, p)[i]),
{
    lemma_lower_bound_exists(t, c);
    let k = lower_bound(t, c);
    let u = insert_entry(t, c, p);
    assert forall|i: int| 0 <= i < u.len() implies #[trigger] u[i] == (c, p) || t.contains(
        u[i],
    ) by {
        if k < t.len() && t[k].0 == c {
            if i != k {
                assert(u[i] == t[i]);
            }
        } else {
            if i < k {
                assert(u[i] == t[i]);
            } else if i > k {
                assert(u[i] == t[i - 1]);
            }
        }
    }
}

} // verus!
