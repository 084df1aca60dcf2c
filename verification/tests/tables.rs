use morsify::characters::{
    arabic_chars, cyrillic_chars, greek_chars, hebrew_chars, japanese_chars, korean_chars,
    latin_chars, latin_extended_chars, numbers_chars, persian_chars, punctuation_chars,
    script_chars, thai_chars,
};
use morsify::codec::{get_mapped_characters, swap_characters};
use morsify::pattern::{pattern_string, substitute_symbols};
use morsify::{
    base_characters, get_characters, InvalidCharCallback, MorseCharacterSet, Options,
};

fn all_scripts() -> Vec<MorseCharacterSet> {
    vec![
        MorseCharacterSet::Latin,
        MorseCharacterSet::Numbers,
        MorseCharacterSet::Punctuation,
        MorseCharacterSet::LatinExtended,
        MorseCharacterSet::Cyrillic,
        MorseCharacterSet::Greek,
        MorseCharacterSet::Hebrew,
        MorseCharacterSet::Arabic,
        MorseCharacterSet::Persian,
        MorseCharacterSet::Japanese,
        MorseCharacterSet::Korean,
        MorseCharacterSet::Thai,
    ]
}

#[test]
fn default_options_are_as_documented() {
    let options = Options::default();
    assert_eq!(options.dot, '.');
    assert_eq!(options.dash, '-');
    assert_eq!(options.space, '/');
    assert_eq!(options.separator, ' ');
    assert_eq!(options.character_set_order, all_scripts());
}

#[test]
fn readable_symbols_are_distinct_plain_and_no_white_space() {
    assert!(Options::default().is_readable());
    assert!(Options { dot: '*', dash: '~', space: '|', separator: '_', ..Default::default() }
        .is_readable());
    assert!(Options { separator: '\t', ..Default::default() }.is_readable());
    assert!(!Options { dot: '-', ..Default::default() }.is_readable());
    assert!(!Options { space: ' ', ..Default::default() }.is_readable());
    assert!(!Options { dot: '0', ..Default::default() }.is_readable());
    assert!(!Options { dash: '1', ..Default::default() }.is_readable());
    assert!(!Options { separator: '1', ..Default::default() }.is_readable());
    assert!(!Options { dot: '\u{a0}', ..Default::default() }.is_readable());
    assert!(!Options { space: '\t', ..Default::default() }.is_readable());
}

#[test]
fn invalid_character_is_written_as_it_is() {
    let options = Options::default();
    assert_eq!(options.invalid_char_callback('#'), '#');
    assert_eq!(options.invalid_char_callback('0'), '0');
}

#[test]
fn scripts_are_numbered_in_enumeration_order() {
    let scripts = all_scripts();
    for (index, set) in scripts.iter().enumerate() {
        assert_eq!(set.ordinal(), index);
        assert_eq!(MorseCharacterSet::from_ordinal(index), Some(*set));
    }
    assert_eq!(MorseCharacterSet::from_ordinal(12), None);
}

#[test]
fn pattern_string_writes_the_marks_of_a_code() {
    assert_eq!(pattern_string(0b1_01), "01");
    assert_eq!(pattern_string(0b1_0), "0");
    assert_eq!(pattern_string(0b1_1), "1");
    assert_eq!(pattern_string(0b1_0001001), "0001001");
    assert_eq!(pattern_string(0b1_1111111), "1111111");
    assert_eq!(pattern_string(1), "");
    assert_eq!(pattern_string(0), "");
}

#[test]
fn substitution_puts_in_the_dot_first() {
    let marks: Vec<char> = "01 x".chars().collect();
    assert_eq!(substitute_symbols(&marks, '.', '-'), vec!['.', '-', ' ', 'x']);
    assert_eq!(substitute_symbols(&marks, '1', '-'), vec!['-', '-', ' ', 'x']);
    assert_eq!(substitute_symbols(&marks, '.', '0'), vec!['.', '0', ' ', 'x']);
}

#[test]
fn each_script_has_its_table() {
    assert_eq!(latin_chars().len(), 26);
    assert_eq!(numbers_chars().len(), 10);
    assert_eq!(punctuation_chars().len(), 20);
    assert_eq!(latin_extended_chars().len(), 46);
    assert_eq!(cyrillic_chars().len(), 36);
    assert_eq!(greek_chars().len(), 24);
    assert_eq!(hebrew_chars().len(), 22);
    assert_eq!(arabic_chars().len(), 29);
    assert_eq!(persian_chars().len(), 32);
    assert_eq!(japanese_chars().len(), 55);
    assert_eq!(korean_chars().len(), 24);
    assert_eq!(thai_chars().len(), 52);
    assert_eq!(latin_chars().get('A').map(String::as_str), Some("01"));
    assert_eq!(latin_chars().get('Z').map(String::as_str), Some("1100"));
    assert_eq!(latin_chars().get('a'), None);
    assert_eq!(numbers_chars().get('5').map(String::as_str), Some("00000"));
    assert_eq!(punctuation_chars().get('$').map(String::as_str), Some("0001001"));
    assert_eq!(latin_extended_chars().get('ß').map(String::as_str), Some("000000"));
    assert_eq!(cyrillic_chars().get('Я').map(String::as_str), Some("0101"));
    assert_eq!(greek_chars().get('Ω').map(String::as_str), Some("011"));
    assert_eq!(hebrew_chars().get('א').map(String::as_str), Some("01"));
    assert_eq!(arabic_chars().get('ﺀ').map(String::as_str), Some("0"));
    assert_eq!(persian_chars().get('ق').map(String::as_str), Some("111000"));
    assert_eq!(japanese_chars().get('ア').map(String::as_str), Some("11011"));
    assert_eq!(korean_chars().get('ㅣ').map(String::as_str), Some("001"));
    assert_eq!(thai_chars().get('ก').map(String::as_str), Some("110"));
    assert!(thai_chars().contains_key('ๆ'));
    assert!(!thai_chars().contains_key('A'));
}

#[test]
fn tables_are_ordered_by_character() {
    for set in all_scripts() {
        let table = script_chars(set);
        for index in 1..table.len() {
            assert!(table.character_at(index - 1) < table.character_at(index));
        }
        for index in 0..table.len() {
            let pattern = table.pattern_at(index);
            assert!(!pattern.is_empty());
            assert!(pattern.chars().all(|mark| mark == '0' || mark == '1'));
        }
    }
}

#[test]
fn insert_replaces_or_adds_in_order() {
    let mut table = numbers_chars();
    table.insert('5', "x".to_string());
    assert_eq!(table.len(), 10);
    assert_eq!(table.get('5').map(String::as_str), Some("x"));
    table.insert(' ', "/".to_string());
    assert_eq!(table.len(), 11);
    assert_eq!(table.character_at(0), ' ');
    table.insert('A', "y".to_string());
    assert_eq!(table.character_at(11), 'A');
    table.insert('/', "z".to_string());
    assert_eq!(table.character_at(1), '/');
    assert_eq!(table.character_at(2), '0');
}

#[test]
fn base_characters_holds_every_script_in_enumeration_order() {
    let characters = base_characters();
    assert_eq!(characters.len(), 12);
    for (index, set) in all_scripts().into_iter().enumerate() {
        assert_eq!(characters.script_at(index), set);
        assert_eq!(characters.table_at(index).len(), script_chars(set).len());
        assert!(characters.get(set).is_some());
    }
    assert_eq!(characters.get(MorseCharacterSet::Latin).unwrap().get(' '), None);
    assert_eq!(characters.lookup('A').map(String::as_str), Some("01"));
    assert_eq!(characters.lookup('#'), None);
}

#[test]
fn get_characters_maps_the_separator_in_the_latin_table() {
    let characters = get_characters(&Options::default());
    assert_eq!(characters.len(), 12);
    let latin = characters.get(MorseCharacterSet::Latin).unwrap();
    assert_eq!(latin.len(), 27);
    assert_eq!(latin.get(' ').map(String::as_str), Some("/"));
    assert_eq!(characters.lookup(' ').map(String::as_str), Some("/"));
    let other = get_characters(&Options { separator: 'A', space: '#', ..Default::default() });
    let latin = other.get(MorseCharacterSet::Latin).unwrap();
    assert_eq!(latin.len(), 26);
    assert_eq!(latin.get('A').map(String::as_str), Some("#"));
}

#[test]
fn get_characters_puts_the_listed_scripts_first() {
    let characters = get_characters(&Options {
        character_set_order: vec![
            MorseCharacterSet::Greek,
            MorseCharacterSet::Numbers,
            MorseCharacterSet::Greek,
        ],
        ..Default::default()
    });
    let expected = vec![
        MorseCharacterSet::Greek,
        MorseCharacterSet::Numbers,
        MorseCharacterSet::Latin,
        MorseCharacterSet::Punctuation,
        MorseCharacterSet::LatinExtended,
        MorseCharacterSet::Cyrillic,
        MorseCharacterSet::Hebrew,
        MorseCharacterSet::Arabic,
        MorseCharacterSet::Persian,
        MorseCharacterSet::Japanese,
        MorseCharacterSet::Korean,
        MorseCharacterSet::Thai,
    ];
    assert_eq!(characters.len(), 12);
    for (index, set) in expected.into_iter().enumerate() {
        assert_eq!(characters.script_at(index), set);
    }
    assert_eq!(characters.get(MorseCharacterSet::Latin).unwrap().len(), 26);
    let empty = get_characters(&Options { character_set_order: vec![], ..Default::default() });
    for (index, set) in all_scripts().into_iter().enumerate() {
        assert_eq!(empty.script_at(index), set);
    }
}

#[test]
fn mapped_characters_are_written_with_the_symbols() {
    let mapped = get_mapped_characters(Options::default());
    assert_eq!(mapped.lookup('A').map(String::as_str), Some(".-"));
    assert_eq!(mapped.lookup(' ').map(String::as_str), Some("/"));
    let custom = get_mapped_characters(Options { dot: '*', dash: '~', ..Default::default() });
    assert_eq!(custom.lookup('A').map(String::as_str), Some("*~"));
    assert_eq!(custom.lookup('$').map(String::as_str), Some("***~**~"));
}

#[test]
fn swapped_characters_keep_the_first_entry_of_a_pattern() {
    let swapped = swap_characters(Options::default());
    let token = |text: &str| text.chars().collect::<Vec<char>>();
    assert_eq!(swapped.get(&token(".-")), Some('A'));
    assert_eq!(swapped.get(&token("/")), Some(' '));
    assert_eq!(swapped.get(&token(".--.-")), Some('À'));
    assert_eq!(swapped.get(&token("")), None);
    assert_eq!(swapped.get(&token("........")), None);
    assert_eq!(swapped.get(&token("01")), None);
    let mapped = get_mapped_characters(Options::default());
    for index in 0..mapped.len() {
        let table = mapped.table_at(index);
        for entry in 0..table.len() {
            assert!(swapped.get(&token(table.pattern_at(entry))).is_some());
        }
    }
}
