//! Word lists: the guesses that are allowed and the targets to draw from.

use crate::input::{to_uppercase, uppercased};
use crate::word::{parse_word, same_word, well_formed, word_error, Word, WordError};
use rand::seq::SliceRandom;
use vstd::prelude::*;

verus! {

/// The error of `serde_json`, carried through unread.
#[verifier::external_type_specification]
#[verifier::external_body]
pub struct ExJsonError(serde_json::Error);

/// Why a text is no word list.
#[derive(Clone, Copy, Debug, PartialEq, Eq, Structural)]
pub enum WordListError {
    /// The text is not a JSON array of strings.
    Unreadable,
    /// The entry at `index` is no word, for the reason given.
    Malformed { index: usize, reason: WordError },
}

/// A list of well-formed words, in the order in which they were given.
pub struct WordList {
    words: Vec<Word>,
}

impl View for WordList {
    type V = Seq<Seq<char>>;

    closed spec fn view(&self) -> Seq<Seq<char>> {
        Seq::new(self.words@.len(), |i: int| self.words@[i]@)
    }
}

/// The strings that `text` lists, where `text` is a JSON array of strings,
/// as `serde_json::from_str` reads it into a `Vec<String>`. `None` where the
/// text is no JSON, or is JSON of another shape.
pub uninterp spec fn json_string_array(text: Seq<char>) -> Option<Seq<Seq<char>>>;

/// Calls `serde_json::from_str` for a `Vec<String>`. Trusted: that what it
/// returns depends on the text alone, so that `json_string_array` names it:
/// the strings where it succeeds, nothing where it fails.
#[verifier::external_body]
fn read_string_array(text: &str) -> (result: Result<Vec<String>, serde_json::Error>)
    ensures
        match result {
            Ok(entries) => json_string_array(text@) == Some(entries.deep_view()),
            Err(_) => json_string_array(text@) is None,
        },
{
    serde_json::from_str::<Vec<String>>(text)
}

/// Calls `SliceRandom::choose` of `rand` with the generator of the current
/// thread. Trusted: that it returns nothing for an empty list and one of the
/// list's words otherwise. Which one is left open.
#[verifier::external_body]
fn choose_from(words: &Vec<Word>) -> (picked: Option<Word>)
    ensures
        picked is None <==> words@.len() == 0,
        picked is Some ==> exists|i: int| 0 <= i < words@.len() && words@[i] == picked->Some_0,
{
    words.choose(&mut rand::thread_rng()).copied()
}

/// Whether `result` is what loading `entries` gives: the list of their
/// upper-case forms where each of these is a word, and else the first entry
/// that is none, with the reason.
pub open spec fn is_load_of(result: Result<WordList, WordListError>, entries: Seq<Seq<char>>) -> bool {
    match result {
        Ok(list) => {
            &&& list@.len() == entries.len()
            &&& forall|i: int|
                0 <= i < entries.len() ==> {
                    &&& #[trigger] list@[i] == uppercased(entries[i])
                    &&& word_error(list@[i]) is None
                    &&& well_formed(list@[i])
                }
        },
        Err(WordListError::Malformed { index, reason }) => {
            &&& index < entries.len()
            &&& word_error(uppercased(entries[index as int])) == Some(reason)
            &&& forall|j: int|
                0 <= j < index ==> word_error(uppercased(#[trigger] entries[j])) is None
        },
        Err(WordListError::Unreadable) => false,
    }
}

impl WordList {
    #[verifier::type_invariant]
    spec fn all_well_formed(self) -> bool {
        forall|i: int| 0 <= i < self.words@.len() ==> well_formed(#[trigger] self.words@[i]@)
    }

    /// The list of the upper-case forms of `entries`, if each of them is a
    /// word.
    pub fn from_entries(entries: &Vec<String>) -> (result: Result<WordList, WordListError>)
        ensures
            is_load_of(result, entries.deep_view()),
    {
        let ghost texts = entries.deep_view();
        assert(texts.len() == entries@.len());
        assert forall|k: int| 0 <= k < entries@.len() implies #[trigger] texts[k] == entries@[k]@ by {}
        let mut words: Vec<Word> = Vec::new();
        let mut i: usize = 0;
        while i < entries.len()
            invariant
                i <= entries.len(),
                words@.len() == i,
                texts == entries.deep_view(),
                texts.len() == entries@.len(),
                forall|k: int| 0 <= k < entries@.len() ==> #[trigger] texts[k] == entries@[k]@,
                forall|k: int| 0 <= k < i ==> well_formed(#[trigger] words@[k]@),
                forall|k: int|
                    0 <= k < i ==> {
                        &&& words@[k]@ == uppercased(#[trigger] texts[k])
                        &&& word_error(uppercased(texts[k])) is None
                    },
            decreases entries.len() - i,
        {
            let upper = to_uppercase(entries[i].as_str());
            match parse_word(upper.as_str()) {
                Ok(word) => {
                    words.push(word);
                },
                Err(reason) => {
                    return Err(WordListError::Malformed { index: i, reason });
                },
            }
            i += 1;
        }
        let list = WordList { words };
        Ok(list)
    }

    /// Reads a word list from JSON text: an array of strings, each of which
    /// is a word once it is put in upper case.
    pub fn parse(text: &str) -> (result: Result<WordList, WordListError>)
        ensures
            match json_string_array(text@) {
                Some(entries) => is_load_of(result, entries),
                None => result == Err::<WordList, WordListError>(WordListError::Unreadable),
            },
    {
        match read_string_array(text) {
            Ok(entries) => WordList::from_entries(&entries),
            Err(_) => Err(WordListError::Unreadable),
        }
    }

    /// The number of words in the list.
    pub fn len(&self) -> (count: usize)
        ensures
            count == self@.len(),
    {
        self.words.len()
    }

    /// The word at position `index`, if the list is that long.
    pub fn get(&self, index: usize) -> (word: Option<Word>)
        ensures
            match word {
                Some(word) => index < self@.len() && word@ == self@[index as int] && well_formed(
                    word@,
                ),
                None => index >= self@.len(),
            },
    {
        proof {
            use_type_invariant(self);
        }
        if index < self.words.len() {
            Some(self.words[index])
        } else {
            None
        }
    }

    /// Whether `word` is in the list. Only a well-formed word is.
    pub fn contains(&self, word: &Word) -> (found: bool)
        ensures
            found == self@.contains(word@),
            found ==> well_formed(word@),
    {
        proof {
            use_type_invariant(self);
        }
        let mut i: usize = 0;
        while i < self.words.len()
            invariant
                i <= self.words@.len(),
                forall|k: int|
                    0 <= k < self.words@.len() ==> well_formed(#[trigger] self.words@[k]@),
                forall|k: int| 0 <= k < i ==> self@[k] != word@,
            decreases self.words@.len() - i,
        {
            if same_word(&self.words[i], word) {
                assert(self@[i as int] == word@);
                return true;
            }
            i += 1;
        }
        false
    }

    /// Draws a word of the list at random. There is none to draw from an
    /// empty list.
    pub fn draw(&self) -> (target: Option<Word>)
        ensures
            target is None <==> self@.len() == 0,
            target is Some ==> self@.contains(target->Some_0@) && well_formed(target->Some_0@),
    {
        proof {
            use_type_invariant(self);
        }
        let picked = choose_from(&self.words);
        proof {
            if let Some(word) = picked {
                let i: int = choose|i: int|
                    0 <= i < self.words@.len() && self.words@[i] == word;
                assert(self@[i] == word@);
            }
        }
        picked
    }
}

} // verus!
