//! The rules of play: which guesses are taken, and how a round moves on.

use crate::input::{normalize, trimmed, uppercased};
use crate::score::{score_guess, scored, ScoredRow};
use crate::word::{all_letters, byte_len, letters_of, same_word, well_formed, Word, WordError};
use crate::wordlist::WordList;
use vstd::prelude::*;

verus! {

/// Why a guess is turned down.
#[derive(Clone, Copy, Debug, PartialEq, Eq, Hash, Structural)]
pub enum GuessError {
    /// The guess does not take five bytes.
    WrongLength,
    /// The guess holds a character that is no letter.
    NotAlphabetic,
    /// The guess is not among the allowed words.
    NotInWordList,
}

/// Where a game stands.
#[derive(Clone, Copy, Debug, PartialEq, Eq)]
pub enum State {
    /// A target is to be drawn for the next round.
    ChoosingTarget,
    /// The round is on: the player is to guess `target`.
    AwaitingGuess { target: Word },
    /// The last guess was the target.
    RoundWon,
    /// The player is to say whether another round follows.
    AskReplay,
    /// The game is over.
    Terminated,
}

/// What happened outside the game since it last moved.
#[derive(Clone, Debug, PartialEq, Eq)]
pub enum Event {
    /// This target was drawn.
    TargetChosen(Word),
    /// The player entered this text. It is taken as it is: see `normalize`.
    Entry(String),
    /// The player was told of the win.
    Announced,
}

/// What the game has to say about an event.
#[derive(Clone, Copy, Debug, PartialEq, Eq)]
pub enum Reply {
    /// The game moved on and has nothing to show.
    Advanced,
    /// The guess was turned down, and nothing has changed.
    Rejected(GuessError),
    /// The guess was taken, and scored so.
    Scored(ScoredRow),
    /// The event is none that the state waits for, and nothing has changed.
    Ignored,
}

/// Why `text` is turned down as a guess, if it is. Its length is looked at
/// first, then its letters, then the list of allowed words.
pub open spec fn guess_error(text: Seq<char>, allowed: Seq<Seq<char>>) -> Option<GuessError> {
    if byte_len(text) != 5 {
        Some(GuessError::WrongLength)
    } else if !all_letters(text) {
        Some(GuessError::NotAlphabetic)
    } else if !allowed.contains(text) {
        Some(GuessError::NotInWordList)
    } else {
        None
    }
}

/// Whether `text` answers the question of another round with no: the
/// letter n, of either case, and nothing else.
pub open spec fn declines(text: Seq<char>) -> bool {
    text.len() == 1 && (text[0] == 'n' || text[0] == 'N')
}

/// Whether the game gets from `state` to `next` with `reply` when the
/// player enters `text`.
///
/// While a guess is awaited, a text that is turned down changes nothing. One
/// that is taken is scored against the target, and wins the round if it is
/// the target. While the answer on another round is awaited, a no ends the
/// game and anything else starts a new round. In every other state, a text
/// is ignored.
pub open spec fn entry_moves(
    state: State,
    text: Seq<char>,
    allowed: Seq<Seq<char>>,
    next: State,
    reply: Reply,
) -> bool {
    match state {
        State::AwaitingGuess { target } => match guess_error(text, allowed) {
            Some(error) => next == state && reply == Reply::Rejected(error),
            None => {
                &&& reply matches Reply::Scored(row) && row@ == scored(target@, text)
                &&& next == if text == target@ {
                    State::RoundWon
                } else {
                    state
                }
            },
        },
        State::AskReplay => {
            &&& reply == Reply::Advanced
            &&& next == if declines(text) {
                State::Terminated
            } else {
                State::ChoosingTarget
            }
        },
        _ => next == state && reply == Reply::Ignored,
    }
}

/// Whether the game gets from `state` to `next` with `reply` on `event`.
///
/// A round starts when a target has been drawn, a win leads to the question
/// of another round once it has been announced, and what the player enters
/// is dealt with as `entry_moves` says. An event that the state does not
/// wait for is ignored.
pub open spec fn moves(
    state: State,
    event: Event,
    allowed: Seq<Seq<char>>,
    next: State,
    reply: Reply,
) -> bool {
    match event {
        Event::TargetChosen(target) => match state {
            State::ChoosingTarget => next == (State::AwaitingGuess { target }) && reply
                == Reply::Advanced,
            _ => next == state && reply == Reply::Ignored,
        },
        Event::Entry(text) => entry_moves(state, text@, allowed, next, reply),
        Event::Announced => match state {
            State::RoundWon => next == State::AskReplay && reply == Reply::Advanced,
            _ => next == state && reply == Reply::Ignored,
        },
    }
}

impl GuessError {
    /// What to tell the player.
    pub fn message(&self) -> (text: &'static str)
        ensures
            text@ == match *self {
                GuessError::WrongLength => "Please enter a five letter guess."@,
                GuessError::NotAlphabetic => "Please enter only US English letters."@,
                GuessError::NotInWordList => "Not in wordlist."@,
            },
    {
        match self {
            GuessError::WrongLength => "Please enter a five letter guess.",
            GuessError::NotAlphabetic => "Please enter only US English letters.",
            GuessError::NotInWordList => "Not in wordlist.",
        }
    }
}

/// Takes `text` as a guess, or turns it down: for its length, for a
/// character that is no letter, or for not being allowed, in this order. A
/// guess that is taken is a well-formed word, as every allowed word is.
pub fn check_guess(text: &str, allowed: &WordList) -> (result: Result<Word, GuessError>)
    ensures
        match result {
            Ok(word) => guess_error(text@, allowed@) is None && word@ == text@ && well_formed(
                word@,
            ),
            Err(error) => guess_error(text@, allowed@) == Some(error),
        },
{
    match letters_of(text) {
        Ok(letters) => {
            if allowed.contains(&letters) {
                Ok(letters)
            } else {
                Err(GuessError::NotInWordList)
            }
        },
        Err(WordError::WrongLength) => Err(GuessError::WrongLength),
        Err(_) => Err(GuessError::NotAlphabetic),
    }
}

/// Whether `text` says no to another round.
pub fn is_decline(text: &str) -> (no: bool)
    ensures
        no == declines(text@),
{
    if text.unicode_len() != 1 {
        return false;
    }
    let answer = text.get_char(0);
    answer == 'n' || answer == 'N'
}

/// Moves the game on what the player entered.
fn step_entry(state: &State, text: &str, allowed: &WordList) -> (moved: (State, Reply))
    ensures
        entry_moves(*state, text@, allowed@, moved.0, moved.1),
{
    match state {
        State::AwaitingGuess { target } => match check_guess(text, allowed) {
            Ok(guess) => {
                let row = score_guess(target, &guess);
                if same_word(&guess, target) {
                    (State::RoundWon, Reply::Scored(row))
                } else {
                    (*state, Reply::Scored(row))
                }
            },
            Err(error) => (*state, Reply::Rejected(error)),
        },
        State::AskReplay => {
            if is_decline(text) {
                (State::Terminated, Reply::Advanced)
            } else {
                (State::ChoosingTarget, Reply::Advanced)
            }
        },
        _ => (*state, Reply::Ignored),
    }
}

/// Moves the game on an event: the state that follows, and what there is to
/// show for it.
pub fn step(state: &State, event: &Event, allowed: &WordList) -> (moved: (State, Reply))
    ensures
        moves(*state, *event, allowed@, moved.0, moved.1),
{
    match event {
        Event::TargetChosen(target) => match state {
            State::ChoosingTarget => (State::AwaitingGuess { target: *target }, Reply::Advanced),
            _ => (*state, Reply::Ignored),
        },
        Event::Entry(text) => step_entry(state, text.as_str(), allowed),
        Event::Announced => match state {
            State::RoundWon => (State::AskReplay, Reply::Advanced),
            _ => (*state, Reply::Ignored),
        },
    }
}

/// Moves the game on a line as the player typed it: the line is normalized
/// and then entered.
pub fn enter(state: &State, line: &str, allowed: &WordList) -> (moved: (State, Reply))
    ensures
        entry_moves(*state, uppercased(trimmed(line@)), allowed@, moved.0, moved.1),
{
    let text = normalize(line);
    step_entry(state, text.as_str(), allowed)
}

} // verus!
