//! Turning a word into pig latin.
//!
//! A word is taken character by character, never byte by byte, so a first
//! character of several bytes moves as a whole.

use vstd::prelude::*;

verus! {

/// The characters that count as vowels: the five lowercase ASCII vowels and
/// nothing else. An uppercase vowel, a digit, a punctuation mark or a letter
/// of another alphabet is not one.
pub open spec fn is_vowel(c: char) -> bool {
    c == 'a' || c == 'e' || c == 'i' || c == 'o' || c == 'u'
}

/// The pig-latin form of `word`.
///
/// The empty word stays empty. A word that starts with a vowel gets `-hay`
/// appended. Any other word loses its first character, which comes back
/// after a hyphen and in front of `ay`.
pub open spec fn pig_latin_of(word: Seq<char>) -> Seq<char> {
    if word.len() == 0 {
        word
    } else if is_vowel(word[0]) {
        word + seq!['-', 'h', 'a', 'y']
    } else {
        word.subrange(1, word.len() as int) + seq!['-', word[0], 'a', 'y']
    }
}

/// Tells whether `c` is one of the five lowercase ASCII vowels.
pub fn is_lowercase_vowel(c: char) -> (yes: bool)
    ensures
        yes == is_vowel(c),
{
    c == 'a' || c == 'e' || c == 'i' || c == 'o' || c == 'u'
}

/// Converts `given` to pig latin: `first` becomes `irst-fay`, `apple`
/// becomes `apple-hay`, and the empty word stays empty.
///
/// Only a lowercase ASCII vowel in first place makes a word vowel-led. Every
/// other first character, whatever it is, is moved behind the hyphen like a
/// consonant.
pub fn convert_pig_latin(given: &str) -> (converted: String)
    ensures
        converted@ == pig_latin_of(given@),
{
    let count: usize = given.unicode_len();
    if count == 0 {
        return String::new();
    }
    proof {
        reveal_strlit("-hay");
        reveal_strlit("-");
        reveal_strlit("ay");
    }
    if is_lowercase_vowel(given.get_char(0)) {
        let mut converted = String::from_str(given);
        converted.append("-hay");
        assert(converted@ =~= pig_latin_of(given@));
        converted
    } else {
        let mut converted = String::from_str(given.substring_char(1, count));
        converted.append("-");
        converted.append(given.substring_char(0, 1));
        converted.append("ay");
        assert(converted@ =~= pig_latin_of(given@));
        converted
    }
}

} // verus!
