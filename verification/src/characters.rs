//! The tables of all scripts: each script's own table, and the set of tables
//! that a configuration stands for.

use vstd::prelude::*;
use crate::options::{Options, OptionsView};
use crate::pattern::{is_binary, lemma_marks_binary};
use crate::script::{all_scripts, lemma_all_scripts, MorseCharacterSet, SCRIPT_COUNT};
use crate::table::{
    data_ok, defines, entries_of, insert_entry, lemma_entries_of, lemma_insert_entry,
    lemma_insert_entry_entries, lemma_lower_bound_exists, lower_bound, mapped_table, pattern_in,
    patterns_nonempty, sorted, table_from, CharacterMap, Table,
};
use crate::tables::{
    ARABIC, CYRILLIC, GREEK, HEBREW, JAPANESE, KOREAN, LATIN, LATIN_EXTENDED, NUMBERS, PERSIAN,
    PUNCTUATION, THAI,
};

verus! {

/// The characters and pattern codes of a script.
pub open spec fn base_data(set: MorseCharacterSet) -> Seq<(char, u8)> {
    match set {
        MorseCharacterSet::Latin => LATIN@,
        MorseCharacterSet::Numbers => NUMBERS@,
        MorseCharacterSet::Punctuation => PUNCTUATION@,
        MorseCharacterSet::LatinExtended => LATIN_EXTENDED@,
        MorseCharacterSet::Cyrillic => CYRILLIC@,
        MorseCharacterSet::Greek => GREEK@,
        MorseCharacterSet::Hebrew => HEBREW@,
        MorseCharacterSet::Arabic => ARABIC@,
        MorseCharacterSet::Persian => PERSIAN@,
        MorseCharacterSet::Japanese => JAPANESE@,
        MorseCharacterSet::Korean => KOREAN@,
        MorseCharacterSet::Thai => THAI@,
    }
}

/// The table of a script, before any configuration is applied.
pub open spec fn base_table(set: MorseCharacterSet) -> Table {
    entries_of(base_data(set))
}

/// The data of every script makes a table.
pub proof fn lemma_base_data_ok(set: MorseCharacterSet)
    ensures
        data_ok(base_data(set)),
        sorted(base_table(set)),
        patterns_nonempty(base_table(set)),
{
    let data = base_data(set);
    match set {
        MorseCharacterSet::Latin => {
            assert(data_ok(LATIN@));
        },
        MorseCharacterSet::Numbers => {
            assert(data_ok(NUMBERS@));
        },
        MorseCharacterSet::Punctuation => {
            assert(data_ok(PUNCTUATION@));
        },
        MorseCharacterSet::LatinExtended => {
            assert(data_ok(LATIN_EXTENDED@));
        },
        MorseCharacterSet::Cyrillic => {
            assert(data_ok(CYRILLIC@));
        },
        MorseCharacterSet::Greek => {
            assert(data_ok(GREEK@));
        },
        MorseCharacterSet::Hebrew => {
            assert(data_ok(HEBREW@));
        },
        MorseCharacterSet::Arabic => {
            assert(data_ok(ARABIC@));
        },
        MorseCharacterSet::Persian => {
            assert(data_ok(PERSIAN@));
        },
        MorseCharacterSet::Japanese => {
            assert(data_ok(JAPANESE@));
        },
        MorseCharacterSet::Korean => {
            assert(data_ok(KOREAN@));
        },
        MorseCharacterSet::Thai => {
            assert(data_ok(THAI@));
        },
    }
    lemma_entries_of(data);
}

/// The table of the basic Latin alphabet.
pub fn latin_chars() -> (r: CharacterMap)
    ensures
        r.wf(),
        r@ == base_table(MorseCharacterSet::Latin),
{
    proof {
        lemma_base_data_ok(MorseCharacterSet::Latin);
    }
    table_from(&LATIN)
}

/// The table of the decimal digits.
pub fn numbers_chars() -> (r: CharacterMap)
    ensures
        r.wf(),
        r@ == base_table(MorseCharacterSet::Numbers),
{
    proof {
        lemma_base_data_ok(MorseCharacterSet::Numbers);
    }
    table_from(&NUMBERS)
}

/// The table of the punctuation marks.
pub fn punctuation_chars() -> (r: CharacterMap)
    ensures
        r.wf(),
        r@ == base_table(MorseCharacterSet::Punctuation),
{
    proof {
        lemma_base_data_ok(MorseCharacterSet::Punctuation);
    }
    table_from(&PUNCTUATION)
}

/// The table of the Latin letters with diacritics.
pub fn latin_extended_chars() -> (r: CharacterMap)
    ensures
        r.wf(),
        r@ == base_table(MorseCharacterSet::LatinExtended),
{
    proof {
        lemma_base_data_ok(MorseCharacterSet::LatinExtended);
    }
    table_from(&LATIN_EXTENDED)
}

/// The table of the Cyrillic alphabet.
pub fn cyrillic_chars() -> (r: CharacterMap)
    ensures
        r.wf(),
        r@ == base_table(MorseCharacterSet::Cyrillic),
{
    proof {
        lemma_base_data_ok(MorseCharacterSet::Cyrillic);
    }
    table_from(&CYRILLIC)
}

/// The table of the Greek alphabet.
pub fn greek_chars() -> (r: CharacterMap)
    ensures
        r.wf(),
        r@ == base_table(MorseCharacterSet::Greek),
{
    proof {
        lemma_base_data_ok(MorseCharacterSet::Greek);
    }
    table_from(&GREEK)
}

/// The table of the Hebrew alphabet.
pub fn hebrew_chars() -> (r: CharacterMap)
    ensures
        r.wf(),
        r@ == base_table(MorseCharacterSet::Hebrew),
{
    proof {
        lemma_base_data_ok(MorseCharacterSet::Hebrew);
    }
    table_from(&HEBREW)
}

/// The table of the Arabic alphabet.
pub fn arabic_chars() -> (r: CharacterMap)
    ensures
        r.wf(),
        r@ == base_table(MorseCharacterSet::Arabic),
{
    proof {
        lemma_base_data_ok(MorseCharacterSet::Arabic);
    }
    table_from(&ARABIC)
}

/// The table of the Persian alphabet.
pub fn persian_chars() -> (r: CharacterMap)
    ensures
        r.wf(),
        r@ == base_table(MorseCharacterSet::Persian),
{
    proof {
        lemma_base_data_ok(MorseCharacterSet::Persian);
    }
    table_from(&PERSIAN)
}

/// The table of the Japanese katakana.
pub fn japanese_chars() -> (r: CharacterMap)
    ensures
        r.wf(),
        r@ == base_table(MorseCharacterSet::Japanese),
{
    proof {
        lemma_base_data_ok(MorseCharacterSet::Japanese);
    }
    table_from(&JAPANESE)
}

/// The table of the Korean jamo.
pub fn korean_chars() -> (r: CharacterMap)
    ensures
        r.wf(),
        r@ == base_table(MorseCharacterSet::Korean),
{
    proof {
        lemma_base_data_ok(MorseCharacterSet::Korean);
    }
    table_from(&KOREAN)
}

/// The table of the Thai alphabet.
pub fn thai_chars() -> (r: CharacterMap)
    ensures
        r.wf(),
        r@ == base_table(MorseCharacterSet::Thai),
{
    proof {
        lemma_base_data_ok(MorseCharacterSet::Thai);
    }
    table_from(&THAI)
}

/// The table of the given script.
pub fn script_chars(set: MorseCharacterSet) -> (r: CharacterMap)
    ensures
        r.wf(),
        r@ == base_table(set),
{
    match set {
        MorseCharacterSet::Latin => latin_chars(),
        MorseCharacterSet::Numbers => numbers_chars(),
        MorseCharacterSet::Punctuation => punctuation_chars(),
        MorseCharacterSet::LatinExtended => latin_extended_chars(),
        MorseCharacterSet::Cyrillic => cyrillic_chars(),
        MorseCharacterSet::Greek => greek_chars(),
        MorseCharacterSet::Hebrew => hebrew_chars(),
        MorseCharacterSet::Arabic => arabic_chars(),
        MorseCharacterSet::Persian => persian_chars(),
        MorseCharacterSet::Japanese => japanese_chars(),
        MorseCharacterSet::Korean => korean_chars(),
        MorseCharacterSet::Thai => thai_chars(),
    }
}

/// The model of a set of tables: the scripts in priority order, each with its
/// table.
pub type TableSet = Seq<(MorseCharacterSet, Table)>;

/// The scripts of a set of tables, in its order.
pub open spec fn scripts_of(ts: TableSet) -> Seq<MorseCharacterSet> {
    Seq::new(ts.len(), |i: int| ts[i].0)
}

/// Every table is sorted and free of empty patterns, and every script occurs
/// exactly once.
pub open spec fn table_set_wf(ts: TableSet) -> bool {
    &&& forall|i: int| 0 <= i < ts.len() ==> sorted((#[trigger] ts[i]).1)
    &&& forall|i: int| 0 <= i < ts.len() ==> patterns_nonempty((#[trigger] ts[i]).1)
    &&& forall|i: int, j: int| 0 <= i < j < ts.len() ==> (#[trigger] ts[i]).0 != (#[trigger] ts[j]).0
    &&& forall|set: MorseCharacterSet| #[trigger] scripts_of(ts).contains(set)
}

/// The script at `s` is the first one whose table has the character.
pub open spec fn claims(ts: TableSet, s: int, c: char) -> bool {
    &&& 0 <= s < ts.len()
    &&& defines(ts[s].1, c)
    &&& forall|j: int| 0 <= j < s ==> !defines((#[trigger] ts[j]).1, c)
}

/// The pattern of a character: the one that the first script with an entry
/// for it gives it.
pub open spec fn lookup(ts: TableSet, c: char) -> Option<Seq<char>> {
    if exists|s: int| claims(ts, s, c) {
        pattern_in(ts[choose|s: int| claims(ts, s, c)].1, c)
    } else {
        None
    }
}

/// Only one script claims a character.
pub proof fn lemma_claims(ts: TableSet, s: int, c: char)
    requires
        claims(ts, s, c),
    ensures
        lookup(ts, c) == pattern_in(ts[s].1, c),
        lookup(ts, c) is Some,
{
    let s2 = choose|s: int| claims(ts, s, c);
    if s < s2 {
        assert(!defines(ts[s].1, c));
    }
    if s2 < s {
        assert(!defines(ts[s2].1, c));
    }
}

/// A character that no table has is not mapped.
pub proof fn lemma_unclaimed(ts: TableSet, c: char)
    requires
        forall|j: int| 0 <= j < ts.len() ==> !defines((#[trigger] ts[j]).1, c),
    ensures
        lookup(ts, c) is None,
{
    if exists|s: int| claims(ts, s, c) {
        let s = choose|s: int| claims(ts, s, c);
        assert(!defines(ts[s].1, c));
    }
}

/// The scripts of a list without the repetitions: each stands where it first
/// occurs.
pub open spec fn first_occurrences(order: Seq<MorseCharacterSet>) -> Seq<MorseCharacterSet>
    decreases order.len(),
{
    if order.len() == 0 {
        Seq::empty()
    } else {
        let rest = first_occurrences(order.drop_last());
        if rest.contains(order.last()) {
            rest
        } else {
            rest.push(order.last())
        }
    }
}

/// The priority order that a configured order stands for: the listed scripts
/// where they first occur, then the scripts that are not listed, in
/// enumeration order.
pub open spec fn priority(order: Seq<MorseCharacterSet>) -> Seq<MorseCharacterSet> {
    first_occurrences(order + all_scripts())
}

/// The table of a script under a configuration. The Latin table, where the
/// order lists Latin, also maps the separator to the space symbol; every
/// other table is the script's own.
pub open spec fn merged_table(options: OptionsView, set: MorseCharacterSet) -> Table {
    if set == MorseCharacterSet::Latin && options.order.contains(MorseCharacterSet::Latin) {
        insert_entry(base_table(set), options.separator, seq![options.space])
    } else {
        base_table(set)
    }
}

/// The set of tables under a configuration: all twelve scripts in priority
/// order.
pub open spec fn merged(options: OptionsView) -> TableSet {
    let p = priority(options.order);
    Seq::new(p.len(), |i: int| (p[i], merged_table(options, p[i])))
}

/// The set of the scripts' own tables, in enumeration order.
pub open spec fn base_set() -> TableSet {
    Seq::new(all_scripts().len(), |i: int| (all_scripts()[i], base_table(all_scripts()[i])))
}

/// The set of tables with the symbols in place of the marks of every
/// pattern.
pub open spec fn mapped(ts: TableSet, dot: char, dash: char) -> TableSet {
    Seq::new(ts.len(), |i: int| (ts[i].0, mapped_table(ts[i].1, dot, dash)))
}

/// The tables of all scripts, in priority order.
#[derive(Debug, Clone, PartialEq, Eq)]
pub struct Characters {
    sets: Vec<(MorseCharacterSet, CharacterMap)>,
}

impl View for Characters {
    type V = TableSet;

    closed spec fn view(&self) -> TableSet {
        Seq::new(self.sets@.len(), |i: int| (self.sets@[i].0, self.sets@[i].1@))
    }
}

impl Characters {
    /// Every table is well formed and every script occurs exactly once.
    pub open spec fn wf(&self) -> bool {
        table_set_wf(self@)
    }

    /// The number of scripts.
    pub fn len(&self) -> (n: usize)
        ensures
            n == self@.len(),
    {
        self.sets.len()
    }

    /// The script at a position of the priority order.
    pub fn script_at(&self, index: usize) -> (set: MorseCharacterSet)
        requires
            index < self@.len(),
        ensures
            set == self@[index as int].0,
    {
        self.sets[index].0
    }

    /// The table at a position of the priority order.
    pub fn table_at(&self, index: usize) -> (table: &CharacterMap)
        requires
            index < self@.len(),
        ensures
            table@ == self@[index as int].1,
    {
        &self.sets[index].1
    }

    /// The table of a script.
    pub fn get(&self, set: MorseCharacterSet) -> (r: Option<&CharacterMap>)
        ensures
            match r {
                Some(table) => exists|i: int|
                    0 <= i < self@.len() && (#[trigger] self@[i]).0 == set && self@[i].1 == table@,
                None => !scripts_of(self@).contains(set),
            },
            self.wf() ==> r is Some,
    {
        let mut i: usize = 0;
        while i < self.sets.len()
            invariant
                i <= self.sets@.len(),
                self@.len() == self.sets@.len(),
                forall|j: int| 0 <= j < i ==> (#[trigger] self@[j]).0 != set,
            decreases self.sets.len() - i,
        {
            if self.sets[i].0 == set {
                assert(self@[i as int].0 == set);
                return Some(&self.sets[i].1);
            }
            i += 1;
        }
        proof {
            if scripts_of(self@).contains(set) {
                let j = choose|j: int|
                    0 <= j < scripts_of(self@).len() && scripts_of(self@)[j] == set;
                assert(self@[j].0 == set);
            }
        }
        None
    }

    /// The pattern of a character: the one that the first script with an entry
    /// for it gives it.
    pub fn lookup(&self, c: char) -> (r: Option<&String>)
        requires
            self.wf(),
        ensures
            match r {
                Some(p) => lookup(self@, c) == Some(p@),
                None => lookup(self@, c) is None,
            },
    {
        let mut i: usize = 0;
        while i < self.sets.len()
            invariant
                self.wf(),
                i <= self.sets@.len(),
                self@.len() == self.sets@.len(),
                forall|j: int| 0 <= j < i ==> !defines((#[trigger] self@[j]).1, c),
            decreases self.sets.len() - i,
        {
            assert(sorted(self@[i as int].1) && patterns_nonempty(self@[i as int].1));
            let found = self.sets[i].1.get(c);
            if found.is_some() {
                proof {
                    assert(defines(self@[i as int].1, c));
                    lemma_claims(self@, i as int, c);
                }
                return found;
            }
            i += 1;
        }
        proof {
            lemma_unclaimed(self@, c);
        }
        None
    }
}

impl Characters {
    /// The set of tables with the symbols in place of the marks of every
    /// pattern.
    pub fn substituted(&self, dot: char, dash: char) -> (r: Characters)
        requires
            self.wf(),
        ensures
            r.wf(),
            r@ == mapped(self@, dot, dash),
    {
        let mut sets: Vec<(MorseCharacterSet, CharacterMap)> = Vec::new();
        let mut i: usize = 0;
        while i < self.sets.len()
            invariant
                self.wf(),
                i <= self.sets@.len(),
                self@.len() == self.sets@.len(),
                sets@.len() == i,
                forall|j: int| 0 <= j < i ==> (#[trigger] sets@[j]).0 == self@[j].0,
                forall|j: int|
                    0 <= j < i ==> (#[trigger] sets@[j]).1@ == mapped_table(self@[j].1, dot, dash),
                forall|j: int| 0 <= j < i ==> (#[trigger] sets@[j]).1.wf(),
            decreases self.sets.len() - i,
        {
            assert(sorted(self@[i as int].1) && patterns_nonempty(self@[i as int].1));
            let table = self.sets[i].1.substituted(dot, dash);
            sets.push((self.sets[i].0, table));
            i += 1;
        }
        let r = Characters { sets };
        proof {
            assert(r@ =~= mapped(self@, dot, dash));
            assert(scripts_of(r@) =~= scripts_of(self@));
            assert forall|a: int, b: int| 0 <= a < b < r@.len() implies (#[trigger] r@[a]).0 != (
            #[trigger] r@[b]).0 by {
                assert(self@[a].0 != self@[b].0);
            }
        }
        r
    }
}

/// Whether a list of scripts holds the given one.
fn lists(order: &Vec<MorseCharacterSet>, set: MorseCharacterSet) -> (r: bool)
    ensures
        r == order@.contains(set),
{
    let mut i: usize = 0;
    while i < order.len()
        invariant
            i <= order.len(),
            forall|j: int| 0 <= j < i ==> order@[j] != set,
        decreases order.len() - i,
    {
        if order[i] == set {
            return true;
        }
        i += 1;
    }
    false
}

/// Whether a growing set of tables holds the given script.
fn holds(sets: &Vec<(MorseCharacterSet, CharacterMap)>, set: MorseCharacterSet) -> (r: bool)
    ensures
        r == exists|j: int| 0 <= j < sets@.len() && (#[trigger] sets@[j]).0 == set,
{
    let mut i: usize = 0;
    while i < sets.len()
        invariant
            i <= sets.len(),
            forall|j: int| 0 <= j < i ==> (#[trigger] sets@[j]).0 != set,
        decreases sets.len() - i,
    {
        if sets[i].0 == set {
            return true;
        }
        i += 1;
    }
    false
}

/// The scripts' own tables: for each of the twelve scripts, in enumeration
/// order, the pattern of each of its characters.
pub fn base_characters() -> (r: Characters)
    ensures
        r.wf(),
        r@ == base_set(),
{
    let mut sets: Vec<(MorseCharacterSet, CharacterMap)> = Vec::new();
    let mut k: usize = 0;
    proof {
        lemma_all_scripts();
    }
    while k < SCRIPT_COUNT
        invariant
            k <= SCRIPT_COUNT,
            sets@.len() == k,
            all_scripts().len() == SCRIPT_COUNT,
            forall|j: int| 0 <= j < k ==> (#[trigger] sets@[j]).0 == all_scripts()[j],
            forall|j: int| 0 <= j < k ==> (#[trigger] sets@[j]).1@ == base_table(all_scripts()[j]),
            forall|j: int| 0 <= j < k ==> (#[trigger] sets@[j]).1.wf(),
        decreases SCRIPT_COUNT - k,
    {
        let found = MorseCharacterSet::from_ordinal(k);
        let set = found.unwrap();
        sets.push((set, script_chars(set)));
        k += 1;
    }
    let r = Characters { sets };
    proof {
        lemma_all_scripts();
        assert(r@ =~= base_set());
        assert forall|set: MorseCharacterSet| #[trigger] scripts_of(r@).contains(set) by {
            assert(scripts_of(r@)[set.rank()] == set);
        }
    }
    r
}

/// What a list of scripts without repetitions holds: the scripts of the list
/// and no others, each once.
pub proof fn lemma_first_occurrences(order: Seq<MorseCharacterSet>)
    ensures
        first_occurrences(order).no_duplicates(),
        forall|set: MorseCharacterSet|
            first_occurrences(order).contains(set) <==> order.contains(set),
    decreases order.len(),
{
    let r = first_occurrences(order);
    if order.len() > 0 {
        let front = order.drop_last();
        let rest = first_occurrences(front);
        lemma_first_occurrences(front);
        assert forall|set: MorseCharacterSet| r.contains(set) <==> order.contains(set) by {
            if order.contains(set) {
                let j = choose|j: int| 0 <= j < order.len() && order[j] == set;
                if j < order.len() - 1 {
                    assert(front[j] == set);
                    assert(front.contains(set));
                    assert(rest.contains(set));
                    let a = choose|a: int| 0 <= a < rest.len() && rest[a] == set;
                    assert(r[a] == set);
                } else if rest.contains(set) {
                } else {
                    assert(r[r.len() - 1] == set);
                }
            }
            if r.contains(set) {
                let a = choose|a: int| 0 <= a < r.len() && r[a] == set;
                if a < rest.len() {
                    assert(rest[a] == set);
                    assert(rest.contains(set));
                    assert(front.contains(set));
                    let j = choose|j: int| 0 <= j < front.len() && front[j] == set;
                    assert(order[j] == set);
                } else {
                    assert(order[order.len() - 1] == set);
                }
            }
        }
    }
}

/// The tables gathered so far are those of the scripts of `seen`, in priority
/// order.
spec fn gathered(
    sets: Seq<(MorseCharacterSet, CharacterMap)>,
    seen: Seq<MorseCharacterSet>,
    options: OptionsView,
) -> bool {
    &&& sets.len() == first_occurrences(seen).len()
    &&& forall|j: int| 0 <= j < sets.len() ==> (#[trigger] sets[j]).0 == first_occurrences(seen)[j]
    &&& forall|j: int| 0 <= j < sets.len() ==> (#[trigger] sets[j]).1@ == merged_table(options, sets[j].0)
    &&& forall|j: int| 0 <= j < sets.len() ==> (#[trigger] sets[j]).1.wf()
}

/// Adds the table of a script, unless the script has one already.
fn gather(
    sets: &mut Vec<(MorseCharacterSet, CharacterMap)>,
    options: &Options,
    latin_listed: bool,
    set: MorseCharacterSet,
    Ghost(seen): Ghost<Seq<MorseCharacterSet>>,
)
    requires
        gathered(old(sets)@, seen, options@),
        latin_listed == options.character_set_order@.contains(MorseCharacterSet::Latin),
    ensures
        gathered(final(sets)@, seen.push(set), options@),
{
    let ghost before = first_occurrences(seen);
    proof {
        assert(seen.push(set).drop_last() =~= seen);
        if before.contains(set) {
            let a = choose|a: int| 0 <= a < before.len() && before[a] == set;
            assert(sets@[a].0 == set);
        }
        if exists|j: int| 0 <= j < sets@.len() && (#[trigger] sets@[j]).0 == set {
            let j = choose|j: int| 0 <= j < sets@.len() && (#[trigger] sets@[j]).0 == set;
            assert(before[j] == set);
        }
    }
    if !holds(sets, set) {
        let mut table = script_chars(set);
        if latin_listed && set == MorseCharacterSet::Latin {
            let mut symbol = String::new();
            symbol.push(options.space);
            assert(symbol@ =~= seq![options.space]);
            table.insert(options.separator, symbol);
        }
        sets.push((set, table));
    }
}

/// The tables under a configuration.
///
/// All twelve scripts are present. The scripts that the configured order
/// lists come first, each where it first occurs; the others follow in
/// enumeration order. Where the order lists Latin, the Latin table also maps
/// the separator to the space symbol, in place of what the separator had
/// there, so that a separator in a text is written as a space symbol.
pub fn get_characters(options: &Options) -> (r: Characters)
    ensures
        r.wf(),
        r@ == merged(options@),
{
    let latin_listed = lists(&options.character_set_order, MorseCharacterSet::Latin);
    let ghost order = options.character_set_order@;
    let mut sets: Vec<(MorseCharacterSet, CharacterMap)> = Vec::new();
    let mut i: usize = 0;
    while i < options.character_set_order.len()
        invariant
            i <= order.len(),
            order == options.character_set_order@,
            latin_listed == order.contains(MorseCharacterSet::Latin),
            gathered(sets@, order.take(i as int), options@),
        decreases order.len() - i,
    {
        let set = options.character_set_order[i];
        gather(&mut sets, options, latin_listed, set, Ghost(order.take(i as int)));
        assert(order.take(i as int).push(set) =~= order.take(i + 1));
        i += 1;
    }
    assert(order.take(i as int) =~= order + all_scripts().take(0));
    let mut k: usize = 0;
    while k < SCRIPT_COUNT
        invariant
            k <= SCRIPT_COUNT,
            order == options.character_set_order@,
            latin_listed == order.contains(MorseCharacterSet::Latin),
            gathered(sets@, order + all_scripts().take(k as int), options@),
        decreases SCRIPT_COUNT - k,
    {
        let found = MorseCharacterSet::from_ordinal(k);
        let set = found.unwrap();
        gather(&mut sets, options, latin_listed, set, Ghost(order + all_scripts().take(k as int)));
        assert((order + all_scripts().take(k as int)).push(set) =~= order + all_scripts().take(
            k + 1,
        ));
        k += 1;
    }
    let r = Characters { sets };
    proof {
        assert(all_scripts().take(k as int) =~= all_scripts());
        assert(r@ =~= merged(options@));
        lemma_merged_wf(options@);
    }
    r
}

/// The tables under any configuration are well formed: each is sorted and
/// free of empty patterns, and every script has exactly one.
pub proof fn lemma_merged_wf(options: OptionsView)
    ensures
        table_set_wf(merged(options)),
{
    let ts = merged(options);
    let full = options.order + all_scripts();
    let p = priority(options.order);
    lemma_first_occurrences(full);
    lemma_all_scripts();
    assert forall|i: int| 0 <= i < ts.len() implies sorted((#[trigger] ts[i]).1)
        && patterns_nonempty(ts[i].1) by {
        lemma_merged_table_wf(options, p[i]);
    }
    assert forall|set: MorseCharacterSet| #[trigger] scripts_of(ts).contains(set) by {
        assert(full[options.order.len() + set.rank()] == set);
        assert(full.contains(set));
        assert(p.contains(set));
        let a = choose|a: int| 0 <= a < p.len() && p[a] == set;
        assert(scripts_of(ts)[a] == set);
    }
}

/// The table of a script under any configuration is sorted and free of
/// empty patterns.
pub proof fn lemma_merged_table_wf(options: OptionsView, set: MorseCharacterSet)
    ensures
        sorted(merged_table(options, set)),
        patterns_nonempty(merged_table(options, set)),
{
    lemma_base_data_ok(set);
    let t = base_table(set);
    if merged_table(options, set) != t {
        lemma_lower_bound_exists(t, options.separator);
        lemma_insert_entry(t, options.separator, seq![options.space], lower_bound(t, options.separator));
    }
}

/// A list without repetitions is its own list of first occurrences.
pub proof fn lemma_first_occurrences_distinct(order: Seq<MorseCharacterSet>)
    requires
        order.no_duplicates(),
    ensures
        first_occurrences(order) == order,
    decreases order.len(),
{
    if order.len() > 0 {
        let front = order.drop_last();
        lemma_first_occurrences_distinct(front);
        if front.contains(order.last()) {
            let j = choose|j: int| 0 <= j < front.len() && front[j] == order.last();
            assert(order[j] == order[order.len() - 1]);
        }
        assert(front.push(order.last()) =~= order);
    } else {
        assert(order =~= Seq::<MorseCharacterSet>::empty());
    }
}

/// Scripts that a list holds already add nothing when they are listed
/// again after it.
pub proof fn lemma_first_occurrences_again(
    order: Seq<MorseCharacterSet>,
    more: Seq<MorseCharacterSet>,
)
    requires
        forall|j: int| 0 <= j < more.len() ==> order.contains(#[trigger] more[j]),
    ensures
        first_occurrences(order + more) == first_occurrences(order),
    decreases more.len(),
{
    if more.len() == 0 {
        assert(order + more =~= order);
    } else {
        let front = more.drop_last();
        lemma_first_occurrences_again(order, front);
        assert((order + more).drop_last() =~= order + front);
        assert((order + more).last() == more[more.len() - 1]);
        lemma_first_occurrences(order);
        assert(order.contains(more[more.len() - 1]));
    }
}

/// An order that lists every script once is the priority order.
pub proof fn lemma_priority_of_complete(order: Seq<MorseCharacterSet>)
    requires
        order.no_duplicates(),
        forall|set: MorseCharacterSet| order.contains(set),
    ensures
        priority(order) == order,
{
    lemma_first_occurrences_again(order, all_scripts());
    lemma_first_occurrences_distinct(order);
}

/// The tables depend on the order of the scripts, the separator and the
/// space symbol, and on nothing else.
pub proof fn lemma_merged_ignores_marks(a: OptionsView, b: OptionsView)
    requires
        a.separator == b.separator,
        a.space == b.space,
        a.order == b.order,
    ensures
        merged(a) == merged(b),
{
    assert(merged(a) =~= merged(b));
}

/// The priority order begins with the script that the configured order
/// begins with.
pub proof fn lemma_priority_head(order: Seq<MorseCharacterSet>)
    requires
        order.len() > 0,
    ensures
        priority(order).len() > 0,
        priority(order)[0] == order[0],
{
    lemma_first_occurrences_head(order + all_scripts());
}

/// A list without its repetitions begins as the list does.
pub proof fn lemma_first_occurrences_head(order: Seq<MorseCharacterSet>)
    requires
        order.len() > 0,
    ensures
        first_occurrences(order).len() > 0,
        first_occurrences(order)[0] == order[0],
    decreases order.len(),
{
    if order.len() > 1 {
        lemma_first_occurrences_head(order.drop_last());
    } else {
        assert(first_occurrences(order.drop_last()).len() == 0);
    }
}

/// Among the scripts that have an entry for a character there is a first
/// one, so the character is mapped.
pub proof fn lemma_defined_is_mapped(ts: TableSet, r: int, c: char)
    requires
        0 <= r < ts.len(),
        defines(ts[r].1, c),
    ensures
        lookup(ts, c) is Some,
    decreases r,
{
    if exists|q: int| 0 <= q < r && defines((#[trigger] ts[q]).1, c) {
        let q = choose|q: int| 0 <= q < r && defines((#[trigger] ts[q]).1, c);
        lemma_defined_is_mapped(ts, q, c);
    } else {
        lemma_claims(ts, r, c);
    }
}

/// Every pattern of the tables under a configuration is a sequence of
/// marks, but for the one of the separator, which is the space symbol.
pub proof fn lemma_merged_patterns(options: OptionsView, s: int, i: int)
    requires
        0 <= s < merged(options).len(),
        0 <= i < merged(options)[s].1.len(),
    ensures
        is_binary(merged(options)[s].1[i].1) || merged(options)[s].1[i].1 == seq![options.space],
        merged(options)[s].1[i].1.len() > 0,
{
    let set = merged(options)[s].0;
    let table = merged(options)[s].1;
    let base = base_table(set);
    lemma_base_data_ok(set);
    lemma_merged_wf(options);
    assert(patterns_nonempty(table));
    assert forall|n: int| 0 <= n < base.len() implies is_binary((#[trigger] base[n]).1) by {
        lemma_marks_binary(base_data(set)[n].1 as nat);
    }
    if table != base {
        lemma_insert_entry_entries(base, options.separator, seq![options.space]);
        if table[i] != (options.separator, seq![options.space]) {
            assert(base.contains(table[i]));
            let n = choose|n: int| 0 <= n < base.len() && base[n] == table[i];
            assert(is_binary(base[n].1));
        }
    }
}

} // verus!
