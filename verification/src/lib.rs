//! A word-guessing game for the terminal. The player guesses a secret word
//! of five letters; each guess is answered letter by letter: in its place,
//! elsewhere in the word, or not matched.
//!
//! [`score`] holds the scoring of a guess, with repeated letters handled as
//! the game demands. [`word`] and [`wordlist`] hold the words and the lists
//! of them, [`input`] what is made of a line as typed, [`game`] the rules of
//! a round, and [`render`] the picture of a scored guess.

pub mod game;
pub mod input;
pub mod render;
pub mod score;
pub mod word;
pub mod wordlist;
