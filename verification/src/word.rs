//! Words: five letters in a fixed order, and the guard that admits them.

use vstd::prelude::*;
use vstd::utf8::{encode_utf8, is_ascii_chars, is_ascii_chars_encode_utf8};

verus! {

/// A word of the game: five characters, position by position.
pub type Word = [char; 5];

/// Why a text is no word.
#[derive(Clone, Copy, Debug, PartialEq, Eq, Hash, Structural)]
pub enum WordError {
    /// The text does not take five bytes.
    WrongLength,
    /// The text holds a character that is no letter of the English alphabet.
    NotAlphabetic,
    /// The text holds a letter in lower case.
    NotUpperCase,
}

/// The length of `text` in bytes, as UTF-8 encodes it.
pub open spec fn byte_len(text: Seq<char>) -> nat {
    encode_utf8(text).len()
}

/// Whether `c` is a letter of the English alphabet, of either case.
pub open spec fn is_letter(c: char) -> bool {
    ('a' <= c && c <= 'z') || ('A' <= c && c <= 'Z')
}

/// Whether every character of `text` is a letter.
pub open spec fn all_letters(text: Seq<char>) -> bool {
    forall|i: int| 0 <= i < text.len() ==> is_letter(#[trigger] text[i])
}

/// Whether `c` is a letter of the English alphabet in upper case.
pub open spec fn is_upper(c: char) -> bool {
    'A' <= c && c <= 'Z'
}

/// Whether every character of `text` is a letter in upper case.
pub open spec fn all_upper(text: Seq<char>) -> bool {
    forall|i: int| 0 <= i < text.len() ==> is_upper(#[trigger] text[i])
}

/// A well-formed word: five characters, each of them a letter in upper
/// case.
pub open spec fn well_formed(word: Seq<char>) -> bool {
    word.len() == 5 && all_upper(word)
}

/// What keeps `text` from being five letters, if anything does. The length
/// is looked at before the letters.
pub open spec fn letters_error(text: Seq<char>) -> Option<WordError> {
    if byte_len(text) != 5 {
        Some(WordError::WrongLength)
    } else if !all_letters(text) {
        Some(WordError::NotAlphabetic)
    } else {
        None
    }
}

/// What keeps `text` from being a word, if anything does: its length, then
/// a character that is no letter, then a letter in lower case.
pub open spec fn word_error(text: Seq<char>) -> Option<WordError> {
    match letters_error(text) {
        Some(error) => Some(error),
        None => if all_upper(text) {
            None
        } else {
            Some(WordError::NotUpperCase)
        },
    }
}

/// A text made of letters takes one byte for each of them.
pub proof fn lemma_letters_byte_len(text: Seq<char>)
    requires
        all_letters(text),
    ensures
        byte_len(text) == text.len(),
{
    assert(is_ascii_chars(text)) by {
        assert forall|i: int| 0 <= i < text.len() implies '\0' <= #[trigger] text[i] <= '\u{7f}' by {
            assert(is_letter(text[i]));
        }
    }
    is_ascii_chars_encode_utf8(text);
}

/// The well-formed words are the texts that nothing keeps from being a
/// word.
pub proof fn lemma_well_formed_texts(text: Seq<char>)
    ensures
        well_formed(text) <==> word_error(text) is None,
{
    if all_upper(text) {
        assert(all_letters(text)) by {
            assert forall|i: int| 0 <= i < text.len() implies is_letter(#[trigger] text[i]) by {
                assert(is_upper(text[i]));
            }
        }
        lemma_letters_byte_len(text);
    }
}

/// The letter at position `i` of `word`.
pub fn letter_at(word: &Word, i: usize) -> (letter: char)
    requires
        i < 5,
    ensures
        letter == word@[i as int],
{
    word[i]
}

/// Whether two words agree letter for letter.
pub fn same_word(a: &Word, b: &Word) -> (same: bool)
    ensures
        same == (a@ == b@),
{
    let mut i: usize = 0;
    while i < 5
        invariant
            i <= 5,
            forall|k: int| 0 <= k < i ==> a@[k] == b@[k],
        decreases 5 - i,
    {
        if letter_at(a, i) != letter_at(b, i) {
            return false;
        }
        i += 1;
    }
    assert(a@ =~= b@);
    true
}

/// The length of `text` in bytes.
fn byte_length(text: &str) -> (length: usize)
    ensures
        length == byte_len(text@),
{
    text.as_bytes().len()
}

/// Whether `c` is a letter of the English alphabet.
pub fn is_ascii_letter(c: char) -> (letter: bool)
    ensures
        letter == is_letter(c),
{
    (c >= 'a' && c <= 'z') || (c >= 'A' && c <= 'Z')
}

/// Whether `c` is a letter of the English alphabet in upper case.
pub fn is_upper_letter(c: char) -> (upper: bool)
    ensures
        upper == is_upper(c),
{
    c >= 'A' && c <= 'Z'
}

/// Reads `text` as five letters, of either case: a text of five bytes, all
/// of them letters. The length is looked at first.
pub fn letters_of(text: &str) -> (result: Result<Word, WordError>)
    ensures
        match result {
            Ok(letters) => letters_error(text@) is None && letters@ == text@,
            Err(error) => letters_error(text@) == Some(error),
        },
{
    if byte_length(text) != 5 {
        return Err(WordError::WrongLength);
    }
    let mut letters: Word = ['\0';5];
    let count: usize = text.unicode_len();
    let mut i: usize = 0;
    while i < count
        invariant
            i <= count,
            byte_len(text@) == 5,
            count == text@.len(),
            forall|k: int| 0 <= k < i ==> is_letter(#[trigger] text@[k]),
            forall|k: int| 0 <= k < i && k < 5 ==> letters@[k] == text@[k],
        decreases count - i,
    {
        let c = text.get_char(i);
        if !is_ascii_letter(c) {
            return Err(WordError::NotAlphabetic);
        }
        if i < 5 {
            letters[i] = c;
        }
        i += 1;
    }
    proof {
        lemma_letters_byte_len(text@);
        assert(letters@ =~= text@);
    }
    Ok(letters)
}

/// The guard that every word passes: five bytes, all of them letters, all
/// in upper case, looked at in this order.
pub fn parse_word(text: &str) -> (result: Result<Word, WordError>)
    ensures
        match result {
            Ok(word) => word_error(text@) is None && word@ == text@ && well_formed(word@),
            Err(error) => word_error(text@) == Some(error),
        },
{
    let word = match letters_of(text) {
        Ok(letters) => letters,
        Err(error) => {
            return Err(error);
        },
    };
    let mut i: usize = 0;
    while i < 5
        invariant
            i <= 5,
            word@ == text@,
            letters_error(text@) is None,
            forall|k: int| 0 <= k < i ==> is_upper(#[trigger] text@[k]),
        decreases 5 - i,
    {
        if !is_upper_letter(letter_at(&word, i)) {
            return Err(WordError::NotUpperCase);
        }
        i += 1;
    }
    Ok(word)
}

/// Reading a text as a word.
pub trait AsWord {
    /// The word that this text spells, if it spells one.
    fn as_word(&self) -> Result<Word, ()>;
}

impl AsWord for &str {
    /// Succeeds on a text of five letters in upper case, and on no other.
    /// The word holds the letters of the text in order.
    fn as_word(&self) -> (result: Result<Word, ()>)
        ensures
            result is Ok <==> well_formed(self@),
            result is Ok ==> result->Ok_0@ == self@,
    {
        proof {
            lemma_well_formed_texts(self@);
        }
        match parse_word(*self) {
            Ok(word) => Ok(word),
            Err(_) => Err(()),
        }
    }
}

} // verus!
