use morsify::{IEncoderDecoder, MorseCharacterSet, MorseCode, Options};

#[test]
fn encodes_english_alphabet() {
    assert_eq!(
        MorseCode::default().encode("the quick brown fox jumps over the lazy dog"),
        "- .... . / --.- ..- .. -.-. -.- / -... .-. --- .-- -. / ..-. --- -..- / .--- ..- -- .--. ... / --- ...- . .-. / - .... . / .-.. .- --.. -.-- / -.. --- --."
    );
    assert_eq!(
        MorseCode::new(Options {
            dash: '–',
            dot: '•',
            space: '\\',
            ..Default::default()
        })
        .encode("the quick brown fox jumps over the lazy dog"),
        "– •••• • \\ ––•– ••– •• –•–• –•– \\ –••• •–• ––– •–– –• \\ ••–• ––– –••– \\ •––– ••– –– •––• ••• \\ ––– •••– • •–• \\ – •••• • \\ •–•• •– ––•• –•–– \\ –•• ––– ––•"
    );
}

#[test]
fn decodes_english_alphabet() {
    assert_eq!(MorseCode::default().decode("- .... . / --.- ..- .. -.-. -.- / -... .-. --- .-- -. / ..-. --- -..- / .--- ..- -- .--. ... / --- ...- . .-. / - .... . / .-.. .- --.. -.-- / -.. --- --."), "THE QUICK BROWN FOX JUMPS OVER THE LAZY DOG");
    assert_eq!(MorseCode::new(Options {dash: '–', dot: '•', space: '\\',..Default::default()}).decode("– •••• • \\ ––•– ••– •• –•–• –•– \\ –••• •–• ––– •–– –• \\ ••–• ––– –••– \\ •––– ••– –– •––• ••• \\ ––– •••– • •–• \\ – •••• • \\ •–•• •– ––•• –•–– \\ –•• ––– ––•"), "THE QUICK BROWN FOX JUMPS OVER THE LAZY DOG");
}

#[test]
fn decodes_numbers() {
    assert_eq!(
        MorseCode::default()
            .decode("----- .---- ..--- ...-- ....- ..... -.... --... ---.. ----."),
        "0123456789"
    );
}

#[test]
fn encodes_punctuation() {
    let morse_code = MorseCode::default();
    assert_eq!(
        morse_code.encode(".,?'!/("),
        ".-.-.- --..-- ..--.. .----. -.-.-- -..-. -.--."
    );
    assert_eq!(
        morse_code.encode(")&:;=¿¡"),
        "-.--.- .-... ---... -.-.-. -...- ..-.- --...-"
    );
}

#[test]
fn decodes_punctuation() {
    let morse_code = MorseCode::default();
    assert_eq!(
        morse_code.decode(".-.-.- --..-- ..--.. .----. -.-.-- -..-. -.--."),
        ".,?'!/("
    );
    assert_eq!(
        morse_code.decode("-.--.- .-... ---... -.-.-. -...- ..-.- --...-"),
        ")&:;=¿¡"
    );
}

#[test]
fn encodes_non_english_alphabet() {
    let morse_code = MorseCode::default();
    assert_eq!(
        morse_code.encode("ÃÁÅÀÂÄ"),
        ".--.- .--.- .--.- .--.- .--.- .-.-"
    );
    assert_eq!(
        morse_code.encode("ĄÆÇĆĈČ"),
        ".-.- .-.- -.-.. -.-.. -.-.. --."
    );
    assert_eq!(
        morse_code.encode("ĘÐÈËĘÉ"),
        "..-.. ..--. .-..- ..-.. ..-.. ..-.."
    );
    assert_eq!(
        morse_code.encode("ÊĞĜĤİÏ"),
        "-..-. --.-. --.-. ---- .-..- -..--"
    );
    assert_eq!(
        morse_code.encode("ÌĴŁŃÑÓ"),
        ".---. .---. .-..- --.-- --.-- ---."
    );
    assert_eq!(
        morse_code.encode("ÒÖÔØŚŞ"),
        "---. ---. ---. ---. ...-... .--.."
    );
    assert_eq!(
        morse_code.encode("ȘŠŜßÞÜ"),
        "---- ---- ...-. ... ... .--.. ..--"
    );
    assert_eq!(morse_code.encode("ÙŬŽŹŻ"), "..-- ..-- --..- --..-. --..-");
}

#[test]
fn encodes_and_decodes_the_empty_text() {
    let morse_code = MorseCode::default();
    assert_eq!(morse_code.encode(""), "");
    assert_eq!(morse_code.decode(""), "");
    assert_eq!(morse_code.encode("   "), "");
    assert_eq!(morse_code.decode("   "), "");
    assert_eq!(morse_code.encode_normalized(""), "");
}

#[test]
fn encodes_and_decodes_sos() {
    let morse_code = MorseCode::default();
    assert_eq!(morse_code.encode("SOS"), "... --- ...");
    assert_eq!(morse_code.decode("... --- ..."), "SOS");
}

#[test]
fn encodes_digits() {
    assert_eq!(
        MorseCode::default().encode("0123456789"),
        "----- .---- ..--- ...-- ....- ..... -.... --... ---.. ----."
    );
}

#[test]
fn encode_puts_the_text_in_upper_case() {
    let morse_code = MorseCode::default();
    assert_eq!(morse_code.encode("sos"), "... --- ...");
    assert_eq!(morse_code.encode("é"), "..-..");
    assert_eq!(morse_code.encode("ß"), "... ...");
}

#[test]
fn encode_normalized_takes_the_text_as_it_is() {
    let morse_code = MorseCode::default();
    assert_eq!(morse_code.encode_normalized("SOS"), "... --- ...");
    assert_eq!(morse_code.encode_normalized("sos"), "s o s");
    assert_eq!(morse_code.encode_normalized("ß"), "......");
    assert_eq!(morse_code.encode_normalized("A B"), ".- / -...");
    assert_eq!(morse_code.encode_normalized(" A"), "/ .-");
}

#[test]
fn encode_treats_white_space_as_separator() {
    let morse_code = MorseCode::default();
    assert_eq!(morse_code.encode("a b"), ".- / -...");
    assert_eq!(morse_code.encode("a\tb"), ".- / -...");
    assert_eq!(morse_code.encode("a\nb"), ".- / -...");
    assert_eq!(morse_code.encode("a\u{a0}b"), ".- / -...");
    assert_eq!(morse_code.encode("a  b"), ".- / / -...");
    assert_eq!(morse_code.encode("  a b \n"), ".- / -...");
}

#[test]
fn encode_writes_unmapped_characters_as_they_are() {
    let morse_code = MorseCode::default();
    assert_eq!(morse_code.encode("#"), "#");
    assert_eq!(morse_code.encode("a#b"), ".- # -...");
    assert_eq!(morse_code.encode("%%"), "% %");
}

#[test]
fn decode_keeps_unknown_pieces() {
    let morse_code = MorseCode::default();
    assert_eq!(morse_code.decode("abc"), "abc");
    assert_eq!(morse_code.decode(".- abc -..."), "AabcB");
    assert_eq!(morse_code.decode(".- ........ -..."), "A........B");
    assert_eq!(morse_code.decode("#"), "#");
}

#[test]
fn decode_treats_white_space_as_separator() {
    let morse_code = MorseCode::default();
    assert_eq!(morse_code.decode(".-\t-..."), "AB");
    assert_eq!(morse_code.decode("  .- -...\n"), "AB");
    assert_eq!(morse_code.decode(".-  -..."), "AB");
    assert_eq!(morse_code.decode(".- / -..."), "A B");
}

#[test]
fn round_trip_gives_the_text_in_upper_case() {
    let morse_code = MorseCode::default();
    for text in [
        "sos",
        "The quick brown fox",
        "a  b",
        "1 + 1 = 2",
        "hello, world!",
        "what? (yes) \"no\" @home $5 a_b x-y 3/4 ;: ' & ¿ ¡",
    ] {
        assert_eq!(morse_code.decode(&morse_code.encode(text)), text.to_uppercase());
    }
}

#[test]
fn round_trip_fails_where_a_pattern_is_shared() {
    let morse_code = MorseCode::default();
    assert_eq!(morse_code.encode("А"), ".-");
    assert_eq!(morse_code.decode(&morse_code.encode("А")), "A");
    assert_eq!(morse_code.decode(&morse_code.encode("Á")), "À");
    assert_eq!(morse_code.decode(&morse_code.encode("a\tb")), "A B");
}

#[test]
fn encoded_text_holds_no_zero_and_no_one() {
    let text = "the 10 quick brown foxes 01";
    let default = MorseCode::default().encode(text);
    assert!(!default.is_empty());
    assert!(!default.contains('0') && !default.contains('1'));
    let custom = MorseCode::new(Options {
        dot: 'o',
        dash: '=',
        space: '|',
        separator: '_',
        ..Default::default()
    })
    .encode(text);
    assert!(!custom.is_empty());
    assert!(!custom.contains('0') && !custom.contains('1'));
    let swapped = MorseCode::new(Options { dot: '1', dash: 'x', ..Default::default() }).encode("et");
    assert_eq!(swapped, "x x");
}

#[test]
fn zero_or_one_as_a_symbol_stays_in_the_text() {
    assert_eq!(
        MorseCode::new(Options { dash: '1', ..Default::default() }).encode("t"),
        "1"
    );
    assert_eq!(
        MorseCode::new(Options { dot: '0', ..Default::default() }).encode("e"),
        "0"
    );
    assert_eq!(
        MorseCode::new(Options { dash: '0', ..Default::default() }).encode("t"),
        "0"
    );
}

#[test]
fn other_symbols_change_the_marks_only() {
    let text = "the quick brown fox, 42 times";
    let a = MorseCode::default().encode(text);
    let b = MorseCode::new(Options { dot: '*', dash: '~', ..Default::default() }).encode(text);
    let a: Vec<char> = a.chars().collect();
    let b: Vec<char> = b.chars().collect();
    assert_eq!(a.len(), b.len());
    for i in 0..a.len() {
        assert_eq!(a[i] == ' ', b[i] == ' ');
        assert!(a[i] == b[i] || (a[i] == '.' && b[i] == '*') || (a[i] == '-' && b[i] == '~'));
    }
}

#[test]
fn the_order_of_the_scripts_decides_a_shared_pattern() {
    let latin_first = MorseCode::new(Options {
        character_set_order: vec![MorseCharacterSet::Latin, MorseCharacterSet::Cyrillic],
        ..Default::default()
    });
    let cyrillic_first = MorseCode::new(Options {
        character_set_order: vec![MorseCharacterSet::Cyrillic, MorseCharacterSet::Latin],
        ..Default::default()
    });
    assert_eq!(latin_first.decode(".-"), "A");
    assert_eq!(cyrillic_first.decode(".-"), "А");
    assert_eq!(latin_first.decode(".-- ---"), "WO");
    assert_eq!(cyrillic_first.decode(".-- ---"), "ВО");
    let greek_first = MorseCode::new(Options {
        character_set_order: vec![MorseCharacterSet::Greek],
        ..Default::default()
    });
    assert_eq!(greek_first.decode(".-"), "Α");
    assert_eq!(greek_first.decode("-----"), "0");
}

#[test]
fn within_a_script_the_lowest_character_decides_a_shared_pattern() {
    let morse_code = MorseCode::default();
    assert_eq!(morse_code.decode(".--.-"), "À");
    assert_eq!(morse_code.decode("---."), "Ò");
    let cyrillic_first = MorseCode::new(Options {
        character_set_order: vec![MorseCharacterSet::Cyrillic],
        ..Default::default()
    });
    assert_eq!(cyrillic_first.decode(".."), "І");
}

#[test]
fn without_latin_in_the_order_a_blank_is_unmapped() {
    let morse_code = MorseCode::new(Options {
        character_set_order: vec![MorseCharacterSet::Cyrillic],
        ..Default::default()
    });
    assert_eq!(morse_code.encode("да нет"), "-.. .-   -. . -");
    assert_eq!(morse_code.decode("-.. .-   -. . -"), "ДАНЕТ");
    assert_eq!(morse_code.encode("a"), ".-");
}

#[test]
fn custom_separator_is_trimmed_and_written_as_space_symbol() {
    let morse_code = MorseCode::new(Options { separator: '|', ..Default::default() });
    assert_eq!(morse_code.encode("a b"), ".-|/|-...");
    assert_eq!(morse_code.encode("|a|"), ".-");
    assert_eq!(morse_code.decode(".-|/|-..."), "A|B");
    assert_eq!(morse_code.decode(".- -..."), "AB");
}

#[test]
fn separator_takes_the_place_of_a_latin_letter() {
    let morse_code = MorseCode::new(Options { separator: 'E', ..Default::default() });
    assert_eq!(morse_code.encode("tet"), "-E/E-");
}

#[test]
fn a_clone_encodes_and_decodes_alike() {
    let morse_code = MorseCode::new(Options { dot: '*', dash: '~', ..Default::default() });
    let clone = morse_code.clone();
    assert_eq!(clone, morse_code);
    assert_eq!(clone.encode("sos"), "*** ~~~ ***");
    assert_eq!(clone.decode("*** ~~~ ***"), "SOS");
}

#[test]
fn new_keeps_the_options() {
    let options = Options { dot: '*', ..Default::default() };
    let morse_code = MorseCode::new(options.clone());
    assert_eq!(morse_code.options(), &options);
    assert_eq!(MorseCode::default().options(), &Options::default());
}
