use handbook::convert_pig_latin;
use handbook::pig_latin::is_lowercase_vowel;

#[test]
fn pig_latin_moves_a_leading_consonant() {
    assert_eq!(convert_pig_latin("first"), "irst-fay");
}

#[test]
fn pig_latin_keeps_a_vowel_led_word() {
    assert_eq!(convert_pig_latin("apple"), "apple-hay");
}

#[test]
fn pig_latin_of_empty_is_empty() {
    assert_eq!(convert_pig_latin(""), "");
}

#[test]
fn pig_latin_of_each_vowel() {
    assert_eq!(convert_pig_latin("a"), "a-hay");
    assert_eq!(convert_pig_latin("egg"), "egg-hay");
    assert_eq!(convert_pig_latin("ice"), "ice-hay");
    assert_eq!(convert_pig_latin("owl"), "owl-hay");
    assert_eq!(convert_pig_latin("up"), "up-hay");
}

#[test]
fn pig_latin_of_a_single_consonant() {
    assert_eq!(convert_pig_latin("b"), "-bay");
}

#[test]
fn pig_latin_treats_uppercase_vowel_as_consonant() {
    assert_eq!(convert_pig_latin("Apple"), "pple-Aay");
}

#[test]
fn pig_latin_treats_other_leading_characters_as_consonants() {
    assert_eq!(convert_pig_latin("1st"), "st-1ay");
    assert_eq!(convert_pig_latin("-x"), "x--ay");
    assert_eq!(convert_pig_latin("y"), "-yay");
}

#[test]
fn pig_latin_moves_a_multibyte_character_whole() {
    assert_eq!(convert_pig_latin("\u{e9}clair"), "clair-\u{e9}ay");
    assert_eq!(convert_pig_latin("\u{1f600}ok"), "ok-\u{1f600}ay");
    assert_eq!(convert_pig_latin("a\u{e9}"), "a\u{e9}-hay");
    assert_eq!(convert_pig_latin("s\u{fc}\u{df}"), "\u{fc}\u{df}-say");
}

#[test]
fn vowels_are_the_five_lowercase_ones() {
    for c in ['a', 'e', 'i', 'o', 'u'] {
        assert!(is_lowercase_vowel(c));
    }
    for c in ['A', 'E', 'y', 'b', '0', ' ', '\u{e9}'] {
        assert!(!is_lowercase_vowel(c));
    }
}
