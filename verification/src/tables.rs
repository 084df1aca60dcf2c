//! The pattern of every character, script by script.
//!
//! Each table lists its characters in code point order, which is the order in
//! which a script's entries are visited. A pattern is written as a code: the
//! binary digits after the leading `1_` are the marks, `0` for a short mark and
//! `1` for a long one.

use vstd::prelude::*;

verus! {

/// The basic Latin alphabet.
pub const LATIN: [(char, u8); 26] = [
    ('A', 0b1_01), ('B', 0b1_1000), ('C', 0b1_1010), ('D', 0b1_100), ('E', 0b1_0),
    ('F', 0b1_0010), ('G', 0b1_110), ('H', 0b1_0000), ('I', 0b1_00), ('J', 0b1_0111),
    ('K', 0b1_101), ('L', 0b1_0100), ('M', 0b1_11), ('N', 0b1_10), ('O', 0b1_111),
    ('P', 0b1_0110), ('Q', 0b1_1101), ('R', 0b1_010), ('S', 0b1_000), ('T', 0b1_1),
    ('U', 0b1_001), ('V', 0b1_0001), ('W', 0b1_011), ('X', 0b1_1001), ('Y', 0b1_1011),
    ('Z', 0b1_1100),
];

/// The decimal digits.
pub const NUMBERS: [(char, u8); 10] = [
    ('0', 0b1_11111), ('1', 0b1_01111), ('2', 0b1_00111), ('3', 0b1_00011), ('4', 0b1_00001),
    ('5', 0b1_00000), ('6', 0b1_10000), ('7', 0b1_11000), ('8', 0b1_11100), ('9', 0b1_11110),
];

/// Punctuation marks.
pub const PUNCTUATION: [(char, u8); 20] = [
    ('!', 0b1_101011), ('"', 0b1_010010), ('$', 0b1_0001001), ('&', 0b1_01000),
    ('\'', 0b1_011110), ('(', 0b1_10110), (')', 0b1_101101), ('+', 0b1_01010),
    (',', 0b1_110011), ('-', 0b1_100001), ('.', 0b1_010101), ('/', 0b1_10010),
    (':', 0b1_111000), (';', 0b1_101010), ('=', 0b1_10001), ('?', 0b1_001100),
    ('@', 0b1_011010), ('_', 0b1_001101), ('¡', 0b1_110001), ('¿', 0b1_00101),
];

/// Latin letters with diacritics.
pub const LATIN_EXTENDED: [(char, u8); 46] = [
    ('À', 0b1_01101), ('Á', 0b1_01101), ('Â', 0b1_01101), ('Ã', 0b1_01101), ('Ä', 0b1_0101),
    ('Å', 0b1_01101), ('Æ', 0b1_0101), ('Ç', 0b1_10100), ('È', 0b1_01001), ('É', 0b1_00100),
    ('Ê', 0b1_10010), ('Ë', 0b1_00100), ('Ì', 0b1_01110), ('Ï', 0b1_10011), ('Ð', 0b1_00110),
    ('Ñ', 0b1_11011), ('Ò', 0b1_1110), ('Ó', 0b1_1110), ('Ô', 0b1_1110), ('Ö', 0b1_1110),
    ('Ø', 0b1_1110), ('Ù', 0b1_0011), ('Ü', 0b1_0011), ('Þ', 0b1_01100), ('ß', 0b1_000000),
    ('Ą', 0b1_0101), ('Ć', 0b1_10100), ('Ĉ', 0b1_10100), ('Č', 0b1_110), ('Ę', 0b1_00100),
    ('Ĝ', 0b1_11010), ('Ğ', 0b1_11010), ('Ĥ', 0b1_1111), ('İ', 0b1_01001), ('Ĵ', 0b1_01110),
    ('Ł', 0b1_01001), ('Ń', 0b1_11011), ('Ś', 0b1_0001000), ('Ŝ', 0b1_00010), ('Ş', 0b1_01100),
    ('Š', 0b1_1111), ('Ŭ', 0b1_0011), ('Ź', 0b1_110010), ('Ż', 0b1_11001), ('Ž', 0b1_11001),
    ('Ș', 0b1_1111),
];

/// The Cyrillic alphabet.
pub const CYRILLIC: [(char, u8); 36] = [
    ('Є', 0b1_00100), ('І', 0b1_00), ('Ї', 0b1_01110), ('А', 0b1_01), ('Б', 0b1_1000),
    ('В', 0b1_011), ('Г', 0b1_110), ('Д', 0b1_100), ('Е', 0b1_0), ('Ж', 0b1_0001),
    ('З', 0b1_1100), ('И', 0b1_00), ('Й', 0b1_0111), ('К', 0b1_101), ('Л', 0b1_0100),
    ('М', 0b1_11), ('Н', 0b1_10), ('О', 0b1_111), ('П', 0b1_0110), ('Р', 0b1_010),
    ('С', 0b1_000), ('Т', 0b1_1), ('У', 0b1_001), ('Ф', 0b1_0010), ('Х', 0b1_0000),
    ('Ц', 0b1_1010), ('Ч', 0b1_1110), ('Ш', 0b1_1111), ('Щ', 0b1_1101), ('Ъ', 0b1_11011),
    ('Ы', 0b1_1011), ('Ь', 0b1_1001), ('Э', 0b1_00100), ('Ю', 0b1_0011), ('Я', 0b1_0101),
    ('Ґ', 0b1_110),
];

/// The Greek alphabet.
pub const GREEK: [(char, u8); 24] = [
    ('Α', 0b1_01), ('Β', 0b1_1000), ('Γ', 0b1_110), ('Δ', 0b1_100), ('Ε', 0b1_0),
    ('Ζ', 0b1_1100), ('Η', 0b1_0000), ('Θ', 0b1_1010), ('Ι', 0b1_00), ('Κ', 0b1_101),
    ('Λ', 0b1_0100), ('Μ', 0b1_11), ('Ν', 0b1_10), ('Ξ', 0b1_1001), ('Ο', 0b1_111),
    ('Π', 0b1_0110), ('Ρ', 0b1_010), ('Σ', 0b1_000), ('Τ', 0b1_1), ('Υ', 0b1_1011),
    ('Φ', 0b1_0010), ('Χ', 0b1_1111), ('Ψ', 0b1_1101), ('Ω', 0b1_011),
];

/// The Hebrew alphabet.
pub const HEBREW: [(char, u8); 22] = [
    ('א', 0b1_01), ('ב', 0b1_1000), ('ג', 0b1_110), ('ד', 0b1_100), ('ה', 0b1_111),
    ('ו', 0b1_0), ('ז', 0b1_1100), ('ח', 0b1_0000), ('ט', 0b1_001), ('י', 0b1_00),
    ('כ', 0b1_101), ('ל', 0b1_0100), ('מ', 0b1_11), ('נ', 0b1_10), ('ס', 0b1_1010),
    ('ע', 0b1_0111), ('פ', 0b1_0110), ('צ', 0b1_011), ('ק', 0b1_1101), ('ר', 0b1_010),
    ('ש', 0b1_000), ('ת', 0b1_1),
];

/// The Arabic alphabet.
pub const ARABIC: [(char, u8); 29] = [
    ('ا', 0b1_01), ('ب', 0b1_1000), ('ت', 0b1_1), ('ث', 0b1_1010), ('ج', 0b1_0111),
    ('ح', 0b1_0000), ('خ', 0b1_111), ('د', 0b1_100), ('ذ', 0b1_1100), ('ر', 0b1_010),
    ('ز', 0b1_1110), ('س', 0b1_000), ('ش', 0b1_1111), ('ص', 0b1_1001), ('ض', 0b1_0001),
    ('ط', 0b1_001), ('ظ', 0b1_1011), ('ع', 0b1_0101), ('غ', 0b1_110), ('ف', 0b1_0010),
    ('ق', 0b1_1101), ('ك', 0b1_101), ('ل', 0b1_0100), ('م', 0b1_11), ('ن', 0b1_10),
    ('ه', 0b1_00100), ('و', 0b1_011), ('ي', 0b1_00), ('ﺀ', 0b1_0),
];

/// The Persian alphabet.
pub const PERSIAN: [(char, u8); 32] = [
    ('ا', 0b1_01), ('ب', 0b1_1000), ('ت', 0b1_1), ('ث', 0b1_1010), ('ج', 0b1_0111),
    ('ح', 0b1_0000), ('خ', 0b1_1001), ('د', 0b1_100), ('ذ', 0b1_0001), ('ر', 0b1_010),
    ('ز', 0b1_1100), ('س', 0b1_000), ('ش', 0b1_1111), ('ص', 0b1_0101), ('ض', 0b1_00100),
    ('ط', 0b1_001), ('ظ', 0b1_1011), ('ع', 0b1_111), ('غ', 0b1_0011), ('ف', 0b1_0010),
    ('ق', 0b1_111000), ('ل', 0b1_0100), ('م', 0b1_11), ('ن', 0b1_10), ('ه', 0b1_0),
    ('و', 0b1_011), ('پ', 0b1_0110), ('چ', 0b1_1110), ('ژ', 0b1_110), ('ک', 0b1_101),
    ('گ', 0b1_1101), ('ی', 0b1_00),
];

/// Japanese katakana and punctuation (Wabun code).
pub const JAPANESE: [(char, u8); 55] = [
    ('、', 0b1_010101), ('。', 0b1_010100), ('\u{309B}', 0b1_00), ('\u{309C}', 0b1_00110),
    ('ア', 0b1_11011), ('イ', 0b1_01), ('ウ', 0b1_001), ('エ', 0b1_10111), ('オ', 0b1_01000),
    ('カ', 0b1_0100), ('キ', 0b1_10100), ('ク', 0b1_0001), ('ケ', 0b1_1011), ('コ', 0b1_1111),
    ('サ', 0b1_10101), ('シ', 0b1_11010), ('ス', 0b1_11101), ('セ', 0b1_01110), ('ソ', 0b1_1110),
    ('タ', 0b1_10), ('チ', 0b1_0010), ('ツ', 0b1_0110), ('テ', 0b1_01011), ('ト', 0b1_00100),
    ('ナ', 0b1_010), ('ニ', 0b1_1010), ('ヌ', 0b1_0000), ('ネ', 0b1_1101), ('ノ', 0b1_0011),
    ('ハ', 0b1_1000), ('ヒ', 0b1_11001), ('フ', 0b1_1100), ('ヘ', 0b1_0), ('ホ', 0b1_100),
    ('マ', 0b1_1001), ('ミ', 0b1_00101), ('ム', 0b1_1), ('メ', 0b1_10001), ('モ', 0b1_10010),
    ('ヤ', 0b1_011), ('ユ', 0b1_10011), ('ヨ', 0b1_11), ('ラ', 0b1_000), ('リ', 0b1_110),
    ('ル', 0b1_10110), ('レ', 0b1_111), ('ロ', 0b1_0101), ('ワ', 0b1_101), ('ヰ', 0b1_01001),
    ('ヱ', 0b1_01100), ('ヲ', 0b1_0111), ('ン', 0b1_01010), ('ー', 0b1_01101), ('（', 0b1_101101),
    ('）', 0b1_010010),
];

/// Korean jamo (SKATS).
pub const KOREAN: [(char, u8); 24] = [
    ('ㄱ', 0b1_0100), ('ㄴ', 0b1_0010), ('ㄷ', 0b1_1000), ('ㄹ', 0b1_0001), ('ㅁ', 0b1_11),
    ('ㅂ', 0b1_011), ('ㅅ', 0b1_110), ('ㅇ', 0b1_101), ('ㅈ', 0b1_0110), ('ㅊ', 0b1_1010),
    ('ㅋ', 0b1_1001), ('ㅌ', 0b1_1100), ('ㅍ', 0b1_111), ('ㅎ', 0b1_0111), ('ㅏ', 0b1_0),
    ('ㅑ', 0b1_00), ('ㅓ', 0b1_1), ('ㅕ', 0b1_000), ('ㅗ', 0b1_01), ('ㅛ', 0b1_10), ('ㅜ', 0b1_0000),
    ('ㅠ', 0b1_010), ('ㅡ', 0b1_100), ('ㅣ', 0b1_001),
];

/// The Thai alphabet.
pub const THAI: [(char, u8); 52] = [
    ('ก', 0b1_110), ('ข', 0b1_1010), ('ค', 0b1_101), ('ง', 0b1_10110), ('จ', 0b1_10010),
    ('ฉ', 0b1_1111), ('ช', 0b1_1001), ('ซ', 0b1_1100), ('ญ', 0b1_0111), ('ด', 0b1_100),
    ('ต', 0b1_1), ('ถ', 0b1_10100), ('ท', 0b1_10011), ('น', 0b1_10), ('บ', 0b1_1000),
    ('ป', 0b1_0110), ('ผ', 0b1_1101), ('ฝ', 0b1_10101), ('พ', 0b1_01100), ('ฟ', 0b1_0010),
    ('ม', 0b1_11), ('ย', 0b1_1011), ('ร', 0b1_010), ('ฤ', 0b1_01011), ('ล', 0b1_0100),
    ('ว', 0b1_011), ('ส', 0b1_000), ('ห', 0b1_0000), ('อ', 0b1_10001), ('ฮ', 0b1_11011),
    ('ฯ', 0b1_11010), ('ะ', 0b1_01000), ('\u{0E31}', 0b1_01101), ('า', 0b1_01),
    ('ำ', 0b1_00010), ('\u{0E34}', 0b1_00100), ('\u{0E35}', 0b1_00), ('\u{0E36}', 0b1_00110),
    ('\u{0E37}', 0b1_0011), ('\u{0E38}', 0b1_00101), ('\u{0E39}', 0b1_1110), ('เ', 0b1_0),
    ('แ', 0b1_0101), ('โ', 0b1_111), ('ไ', 0b1_01001), ('ๆ', 0b1_10111),
    ('\u{0E47}', 0b1_11100), ('\u{0E48}', 0b1_001), ('\u{0E49}', 0b1_0001),
    ('\u{0E4A}', 0b1_11000), ('\u{0E4B}', 0b1_01010), ('\u{0E4C}', 0b1_11001),
];

} // verus!
