use wordle::word::{
    is_ascii_letter, is_upper_letter, letter_at, letters_of, parse_word, same_word, AsWord,
    WordError,
};

#[test]
fn as_word_reads_five_upper_case_letters() {
    assert_eq!("ARRAY".as_word(), Ok(['A', 'R', 'R', 'A', 'Y']));
    assert_eq!("ZZZZZ".as_word(), Ok(['Z'; 5]));
}

#[test]
fn as_word_refuses_other_lengths() {
    assert_eq!("".as_word(), Err(()));
    assert_eq!("ARRA".as_word(), Err(()));
    assert_eq!("ARRAYS".as_word(), Err(()));
}

#[test]
fn as_word_refuses_what_is_no_upper_case_letter() {
    assert_eq!("ab1!?".as_word(), Err(()));
    assert_eq!("array".as_word(), Err(()));
    assert_eq!("Array".as_word(), Err(()));
    assert_eq!("ARR4Y".as_word(), Err(()));
    assert_eq!("ARRA[".as_word(), Err(()));
    assert_eq!("@RRAY".as_word(), Err(()));
}

#[test]
fn as_word_counts_letters_not_bytes() {
    // Four characters in five bytes.
    assert_eq!("ÉABC".as_word(), Err(()));
    // Five characters in ten bytes.
    assert_eq!("ÉÉÉÉÉ".as_word(), Err(()));
}

#[test]
fn letters_of_takes_letters_of_either_case() {
    assert_eq!(letters_of("ARRAY"), Ok(['A', 'R', 'R', 'A', 'Y']));
    assert_eq!(letters_of("Array"), Ok(['A', 'r', 'r', 'a', 'y']));
    assert_eq!(letters_of("array"), Ok(['a', 'r', 'r', 'a', 'y']));
}

#[test]
fn letters_of_looks_at_the_length_first() {
    assert_eq!(letters_of("AB1"), Err(WordError::WrongLength));
    assert_eq!(letters_of(""), Err(WordError::WrongLength));
    assert_eq!(letters_of("ARRAYS"), Err(WordError::WrongLength));
    assert_eq!(letters_of("ééééé"), Err(WordError::WrongLength));
}

#[test]
fn letters_of_refuses_what_is_no_letter() {
    assert_eq!(letters_of("ARR4Y"), Err(WordError::NotAlphabetic));
    assert_eq!(letters_of("AR AY"), Err(WordError::NotAlphabetic));
    assert_eq!(letters_of("éabc"), Err(WordError::NotAlphabetic));
    assert_eq!(letters_of("ARRA["), Err(WordError::NotAlphabetic));
    assert_eq!(letters_of("`RRAY"), Err(WordError::NotAlphabetic));
}

#[test]
fn parse_word_takes_upper_case_only() {
    assert_eq!(parse_word("ARRAY"), Ok(['A', 'R', 'R', 'A', 'Y']));
    assert_eq!(parse_word("Array"), Err(WordError::NotUpperCase));
    assert_eq!(parse_word("array"), Err(WordError::NotUpperCase));
    assert_eq!(parse_word("ARRAy"), Err(WordError::NotUpperCase));
}

#[test]
fn parse_word_gives_the_first_reason() {
    assert_eq!(parse_word("ab1"), Err(WordError::WrongLength));
    assert_eq!(parse_word("ééééé"), Err(WordError::WrongLength));
    assert_eq!(parse_word("arr4y"), Err(WordError::NotAlphabetic));
    assert_eq!(parse_word("éabc"), Err(WordError::NotAlphabetic));
    assert_eq!(parse_word("ARR4Y"), Err(WordError::NotAlphabetic));
}

#[test]
fn as_word_agrees_with_parse_word() {
    for text in ["ARRAY", "array", "ARR4Y", "ARRA", "", "ÉABC", "SALES", "Sales"] {
        assert_eq!(text.as_word().ok(), parse_word(text).ok());
    }
}

#[test]
fn letters_are_the_ascii_letters() {
    for code in 0..=0x10FFFFu32 {
        if let Some(c) = char::from_u32(code) {
            assert_eq!(is_ascii_letter(c), c.is_ascii_alphabetic());
            assert_eq!(is_upper_letter(c), c.is_ascii_uppercase());
        }
    }
}

#[test]
fn same_word_compares_letter_for_letter() {
    let a = "ARRAY".as_word().unwrap();
    let b = "ARRAY".as_word().unwrap();
    let c = "ARRAS".as_word().unwrap();
    assert!(same_word(&a, &b));
    assert!(!same_word(&a, &c));
    assert_eq!(letter_at(&a, 4), 'Y');
}
