use wordle::word::{AsWord, WordError};
use wordle::wordlist::{WordList, WordListError};

fn entries(texts: &[&str]) -> Vec<String> {
    texts.iter().map(|text| text.to_string()).collect()
}

#[test]
fn parse_reads_an_array_of_strings() {
    let list = WordList::parse("[\"array\", \"Furry\", \"BLUNT\"]").unwrap();
    assert_eq!(list.len(), 3);
    assert_eq!(list.get(0), Some(['A', 'R', 'R', 'A', 'Y']));
    assert_eq!(list.get(1), Some(['F', 'U', 'R', 'R', 'Y']));
    assert_eq!(list.get(2), Some(['B', 'L', 'U', 'N', 'T']));
    assert_eq!(list.get(3), None);
}

#[test]
fn parse_reads_an_empty_array() {
    let list = WordList::parse(" [ ] ").unwrap();
    assert_eq!(list.len(), 0);
    assert_eq!(list.get(0), None);
}

#[test]
fn parse_refuses_what_is_no_json() {
    assert_eq!(WordList::parse("").err(), Some(WordListError::Unreadable));
    assert_eq!(WordList::parse("[\"array\"").err(), Some(WordListError::Unreadable));
    assert_eq!(WordList::parse("[\"array\"] x").err(), Some(WordListError::Unreadable));
    assert_eq!(WordList::parse("array").err(), Some(WordListError::Unreadable));
}

#[test]
fn parse_refuses_json_of_another_shape() {
    assert_eq!(WordList::parse("\"array\"").err(), Some(WordListError::Unreadable));
    assert_eq!(WordList::parse("{\"a\": \"array\"}").err(), Some(WordListError::Unreadable));
    assert_eq!(WordList::parse("[\"array\", 5]").err(), Some(WordListError::Unreadable));
    assert_eq!(WordList::parse("[[\"array\"]]").err(), Some(WordListError::Unreadable));
    assert_eq!(WordList::parse("[null]").err(), Some(WordListError::Unreadable));
}

#[test]
fn parse_names_the_first_malformed_entry() {
    assert_eq!(
        WordList::parse("[\"array\", \"arrays\", \"ab1de\"]").err(),
        Some(WordListError::Malformed { index: 1, reason: WordError::WrongLength })
    );
    assert_eq!(
        WordList::parse("[\"array\", \"ab1de\", \"arrays\"]").err(),
        Some(WordListError::Malformed { index: 1, reason: WordError::NotAlphabetic })
    );
    assert_eq!(
        WordList::parse("[\"\"]").err(),
        Some(WordListError::Malformed { index: 0, reason: WordError::WrongLength })
    );
}

#[test]
fn entries_are_put_in_upper_case_before_they_are_measured() {
    // Four characters that become five letters in upper case.
    let list = WordList::from_entries(&entries(&["maße"])).unwrap();
    assert_eq!(list.get(0), Some(['M', 'A', 'S', 'S', 'E']));
}

#[test]
fn from_entries_keeps_the_order() {
    let list = WordList::from_entries(&entries(&["sales", "essal", "meter"])).unwrap();
    assert_eq!(list.len(), 3);
    assert_eq!(list.get(0), Some("SALES".as_word().unwrap()));
    assert_eq!(list.get(1), Some("ESSAL".as_word().unwrap()));
    assert_eq!(list.get(2), Some("METER".as_word().unwrap()));
}

#[test]
fn from_entries_reports_index_and_reason() {
    assert_eq!(
        WordList::from_entries(&entries(&["sales", "essal", "mete"])).err(),
        Some(WordListError::Malformed { index: 2, reason: WordError::WrongLength })
    );
    assert_eq!(
        WordList::from_entries(&entries(&["sa-es"])).err(),
        Some(WordListError::Malformed { index: 0, reason: WordError::NotAlphabetic })
    );
}

#[test]
fn contains_finds_the_words_of_the_list() {
    let list = WordList::from_entries(&entries(&["array", "furry"])).unwrap();
    assert!(list.contains(&"ARRAY".as_word().unwrap()));
    assert!(list.contains(&"FURRY".as_word().unwrap()));
    assert!(!list.contains(&"BLUNT".as_word().unwrap()));
    assert!(!list.contains(&['a', 'r', 'r', 'a', 'y']));
}

#[test]
fn draw_gives_a_word_of_the_list() {
    let list = WordList::from_entries(&entries(&["array", "furry", "blunt"])).unwrap();
    for _ in 0..100 {
        let target = list.draw().unwrap();
        assert!(list.contains(&target));
    }
}

#[test]
fn draw_from_one_word_gives_that_word() {
    let list = WordList::from_entries(&entries(&["array"])).unwrap();
    assert_eq!(list.draw(), Some(['A', 'R', 'R', 'A', 'Y']));
}

#[test]
fn draw_from_an_empty_list_gives_nothing() {
    let list = WordList::from_entries(&entries(&[])).unwrap();
    assert_eq!(list.draw(), None);
}

#[test]
fn every_word_of_a_list_is_in_upper_case() {
    let list = WordList::parse("[\"array\", \"Furry\", \"bLuNt\", \"METER\"]").unwrap();
    for index in 0..list.len() {
        let word = list.get(index).unwrap();
        assert!(word.iter().all(|letter| letter.is_ascii_uppercase()));
    }
}
