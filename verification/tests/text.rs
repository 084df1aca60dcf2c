use morsify::text::{
    chars_of, is_whitespace, normalize, push_all, same_text, separate_words, split_tokens,
    string_of, trim_separator,
};

fn chars(text: &str) -> Vec<char> {
    text.chars().collect()
}

#[test]
fn white_space_is_what_the_standard_library_calls_so() {
    for code in 0..=0x10ffff_u32 {
        if let Some(c) = char::from_u32(code) {
            assert_eq!(is_whitespace(c), c.is_whitespace(), "U+{:04X}", code);
        }
    }
}

#[test]
fn strings_and_buffers_convert_both_ways() {
    assert_eq!(chars_of("aß→"), vec!['a', 'ß', '→']);
    assert_eq!(chars_of(""), Vec::<char>::new());
    assert_eq!(string_of(&vec!['a', 'ß', '→']), "aß→");
    assert_eq!(string_of(&vec![]), "");
}

#[test]
fn buffers_compare_and_append() {
    assert!(same_text(&chars("abc"), &chars("abc")));
    assert!(!same_text(&chars("abc"), &chars("abd")));
    assert!(!same_text(&chars("abc"), &chars("ab")));
    assert!(same_text(&chars(""), &chars("")));
    let mut buffer = chars("ab");
    push_all(&mut buffer, &chars("cd"));
    assert_eq!(buffer, chars("abcd"));
}

#[test]
fn white_space_becomes_the_separator() {
    assert_eq!(separate_words(&chars("a b\tc\n"), '|'), chars("a|b|c|"));
    assert_eq!(separate_words(&chars("a|b"), '|'), chars("a|b"));
    assert_eq!(separate_words(&chars(""), '|'), chars(""));
}

#[test]
fn trimming_removes_the_separators_at_both_ends() {
    assert_eq!(trim_separator(&chars("  a b  "), ' '), chars("a b"));
    assert_eq!(trim_separator(&chars("a"), ' '), chars("a"));
    assert_eq!(trim_separator(&chars("   "), ' '), chars(""));
    assert_eq!(trim_separator(&chars(""), ' '), chars(""));
    assert_eq!(trim_separator(&chars("||a |"), '|'), chars("a "));
}

#[test]
fn splitting_gives_one_piece_more_than_there_are_separators() {
    assert_eq!(split_tokens(&chars("a b"), ' '), vec![chars("a"), chars("b")]);
    assert_eq!(split_tokens(&chars(""), ' '), vec![chars("")]);
    assert_eq!(split_tokens(&chars(" "), ' '), vec![chars(""), chars("")]);
    assert_eq!(split_tokens(&chars("a  b "), ' '), vec![chars("a"), chars(""), chars("b"), chars("")]);
    assert_eq!(split_tokens(&chars("abc"), ' '), vec![chars("abc")]);
}

#[test]
fn normalizing_separates_trims_and_raises() {
    assert_eq!(normalize("  the\tfox ", ' '), chars("THE FOX"));
    assert_eq!(normalize("a b", '|'), chars("A|B"));
    assert_eq!(normalize("|a b|", '|'), chars("A|B"));
    assert_eq!(normalize("straße", ' '), chars("STRASSE"));
    assert_eq!(normalize("", ' '), chars(""));
}
