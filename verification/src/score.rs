//! The scoring engine: one verdict per letter of a guess.

use crate::word::{letter_at, Word};
use vstd::prelude::*;

verus! {

/// What a guessed letter is worth at its position.
#[derive(Clone, Copy, Debug, PartialEq, Eq, Hash, Structural)]
pub enum Verdict {
    /// The target holds this letter at this position.
    Correct,
    /// The target holds this letter elsewhere, at a position that no other
    /// guessed letter has claimed.
    Present,
    /// The letter is not matched.
    Absent,
}

/// One guessed letter with its verdict.
#[derive(Clone, Copy, Debug, PartialEq, Eq, Hash, Structural)]
pub struct Square {
    pub verdict: Verdict,
    pub letter: char,
}

/// A scored guess: one square per position, in the order of the guess.
pub type ScoredRow = [Square; 5];

/// The number of positions `k < n` at which `a` holds `c` and `b` does not.
///
/// With `a` the target and `b` the guess, these are the occurrences of `c`
/// in the target that no exact match uses up. With `a` the guess and `b` the
/// target, these are the guessed `c`s before position `n` that are out of
/// place.
pub open spec fn unmatched(a: Seq<char>, b: Seq<char>, c: char, n: int) -> nat
    decreases n,
{
    if n <= 0 {
        0
    } else if a[n - 1] == c && b[n - 1] != c {
        unmatched(a, b, c, n - 1) + 1
    } else {
        unmatched(a, b, c, n - 1)
    }
}

/// How many occurrences of `c` the target has left to give at position `i`
/// of the guess: those that no exact match uses up, less the out-of-place
/// `c`s that the guess holds before `i`.
pub open spec fn left_over(target: Seq<char>, guess: Seq<char>, c: char, i: int) -> int {
    let spare: int = unmatched(target, guess, c, target.len() as int) - unmatched(
        guess,
        target,
        c,
        i,
    );
    if spare > 0 {
        spare
    } else {
        0
    }
}

/// The verdict on position `i` of `guess` against `target`.
///
/// A letter in its place is `Correct`. A letter out of place is `Present`
/// as long as the target still has an occurrence of it to spare: one that is
/// not matched exactly, and not yet claimed by an earlier out-of-place
/// occurrence of the same letter in the guess. Otherwise it is `Absent`.
pub open spec fn verdict_at(target: Seq<char>, guess: Seq<char>, i: int) -> Verdict {
    let c = guess[i];
    if target[i] == c {
        Verdict::Correct
    } else if left_over(target, guess, c, i) > 0 {
        Verdict::Present
    } else {
        Verdict::Absent
    }
}

/// The square at position `i` of the scored row.
pub open spec fn square_at(target: Seq<char>, guess: Seq<char>, i: int) -> Square {
    Square { verdict: verdict_at(target, guess, i), letter: guess[i] }
}

/// The scored row for `guess` against `target`.
pub open spec fn scored(target: Seq<char>, guess: Seq<char>) -> Seq<Square> {
    Seq::new(guess.len(), |i: int| square_at(target, guess, i))
}

/// The number of slots `k < n` of `pool` that still hold `c`.
spec fn available(pool: Seq<Option<char>>, c: char, n: int) -> nat
    decreases n,
{
    if n <= 0 {
        0
    } else if pool[n - 1] == Some(c) {
        available(pool, c, n - 1) + 1
    } else {
        available(pool, c, n - 1)
    }
}

/// A pool from which exactly the exact matches are gone holds, of each
/// letter, the target's unmatched occurrences.
proof fn lemma_available_after_exact(
    pool: Seq<Option<char>>,
    target: Seq<char>,
    guess: Seq<char>,
    c: char,
    n: int,
)
    requires
        forall|k: int|
            0 <= k < n ==> pool[k] == if target[k] == guess[k] {
                None
            } else {
                Some(target[k])
            },
    ensures
        available(pool, c, n) == unmatched(target, guess, c, n),
    decreases n,
{
    if n > 0 {
        lemma_available_after_exact(pool, target, guess, c, n - 1);
    }
}

/// A pool without a slot that holds `c` has none of it available.
proof fn lemma_available_none(pool: Seq<Option<char>>, c: char, n: int)
    requires
        forall|k: int| 0 <= k < n ==> pool[k] != Some(c),
    ensures
        available(pool, c, n) == 0,
    decreases n,
{
    if n > 0 {
        lemma_available_none(pool, c, n - 1);
    }
}

/// Emptying slot `pos` takes one occurrence of the letter it held, and of
/// no other letter.
proof fn lemma_available_take(pool: Seq<Option<char>>, pos: int, c: char, n: int)
    requires
        0 <= pos < pool.len(),
        n <= pool.len(),
    ensures
        available(pool.update(pos, None), c, n) + (if pos < n && pool[pos] == Some(c) {
            1int
        } else {
            0int
        }) == available(pool, c, n),
    decreases n,
{
    if n > 0 {
        lemma_available_take(pool, pos, c, n - 1);
    }
}

/// The square at position `i` of `row`.
pub fn square(row: &ScoredRow, i: usize) -> (square: Square)
    requires
        i < 5,
    ensures
        square == row@[i as int],
{
    row[i]
}

/// The leftmost slot of `pool` that holds `c`, if there is one.
fn find_available(pool: &[Option<char>; 5], c: char) -> (found: Option<usize>)
    ensures
        match found {
            Some(pos) => pos < 5 && pool@[pos as int] == Some(c) && forall|k: int|
                0 <= k < pos ==> pool@[k] != Some(c),
            None => forall|k: int| 0 <= k < 5 ==> pool@[k] != Some(c),
        },
{
    let mut k: usize = 0;
    while k < 5
        invariant
            k <= 5,
            forall|j: int| 0 <= j < k ==> pool@[j] != Some(c),
        decreases 5 - k,
    {
        let holds = match pool[k] {
            Some(letter) => letter == c,
            None => false,
        };
        if holds {
            return Some(k);
        }
        k += 1;
    }
    None
}

/// Scores `guess` against `target`.
///
/// Exact matches are settled first and use up their letter of the target.
/// Then, from left to right, each remaining guessed letter claims the
/// leftmost occurrence of itself that the target has left, if any. What has
/// claimed nothing is absent.
pub fn score_guess(target: &Word, guess: &Word) -> (row: ScoredRow)
    ensures
        row@ == scored(target@, guess@),
        target@ == guess@ ==> forall|i: int|
            0 <= i < 5 ==> (#[trigger] row@[i]).verdict == Verdict::Correct,
        forall|c: char| #[trigger] credited(row@, c, 5) <= occurrences(target@, c, 5),
{
    let mut pool: [Option<char>; 5] = [None;5];
    let mut k: usize = 0;
    while k < 5
        invariant
            k <= 5,
            forall|j: int| 0 <= j < k ==> pool@[j] == Some(target@[j]),
        decreases 5 - k,
    {
        pool[k] = Some(letter_at(target, k));
        k += 1;
    }

    let mut marks: [Option<Verdict>; 5] = [None;5];
    let mut i: usize = 0;
    while i < 5
        invariant
            i <= 5,
            forall|j: int|
                0 <= j < 5 ==> pool@[j] == if j < i && target@[j] == guess@[j] {
                    None
                } else {
                    Some(target@[j])
                },
            forall|j: int|
                0 <= j < 5 ==> marks@[j] == if j < i && target@[j] == guess@[j] {
                    Some(Verdict::Correct)
                } else {
                    None
                },
        decreases 5 - i,
    {
        if letter_at(target, i) == letter_at(guess, i) {
            marks[i] = Some(Verdict::Correct);
            pool[i] = None;
        }
        i += 1;
    }

    proof {
        assert forall|c: char| #[trigger]
            available(pool@, c, 5) == left_over(target@, guess@, c, 0) by {
            lemma_available_after_exact(pool@, target@, guess@, c, 5);
        }
    }

    let mut i: usize = 0;
    while i < 5
        invariant
            i <= 5,
            target@.len() == 5,
            guess@.len() == 5,
            forall|c: char| #[trigger]
                available(pool@, c, 5) == left_over(target@, guess@, c, i as int),
            forall|j: int|
                0 <= j < i ==> marks@[j] == match verdict_at(target@, guess@, j) {
                    Verdict::Absent => None,
                    verdict => Some(verdict),
                },
            forall|j: int|
                i <= j < 5 ==> marks@[j] == if target@[j] == guess@[j] {
                    Some(Verdict::Correct)
                } else {
                    None
                },
        decreases 5 - i,
    {
        let letter = letter_at(guess, i);
        let ghost before = pool@;
        let ghost mut taken: Option<int> = None;
        if marks[i].is_none() {
            match find_available(&pool, letter) {
                Some(pos) => {
                    marks[i] = Some(Verdict::Present);
                    pool[pos] = None;
                    proof {
                        taken = Some(pos as int);
                        lemma_available_take(before, pos as int, letter, 5);
                    }
                },
                None => {
                    proof {
                        lemma_available_none(before, letter, 5);
                    }
                },
            }
        }
        proof {
            assert forall|c: char| #[trigger]
                available(pool@, c, 5) == left_over(target@, guess@, c, i + 1) by {
                assert(available(before, c, 5) == left_over(target@, guess@, c, i as int));
                if let Some(pos) = taken {
                    lemma_available_take(before, pos, c, 5);
                }
            }
        }
        i += 1;
    }

    let mut row: ScoredRow = [Square { verdict: Verdict::Absent, letter: letter_at(guess, 0) };5];
    let mut i: usize = 0;
    while i < 5
        invariant
            i <= 5,
            guess@.len() == 5,
            forall|j: int|
                0 <= j < 5 ==> marks@[j] == match verdict_at(target@, guess@, j) {
                    Verdict::Absent => None,
                    verdict => Some(verdict),
                },
            forall|j: int|
                0 <= j < i ==> row@[j] == (Square {
                    verdict: verdict_at(target@, guess@, j),
                    letter: guess@[j],
                }),
        decreases 5 - i,
    {
        let verdict = match marks[i] {
            Some(verdict) => verdict,
            None => Verdict::Absent,
        };
        row[i] = Square { verdict, letter: letter_at(guess, i) };
        i += 1;
    }
    proof {
        assert(row@ =~= scored(target@, guess@));
        assert forall|c: char| #[trigger]
            credited(row@, c, 5) <= occurrences(target@, c, 5) by {
            lemma_verdict_conservation(target@, guess@, c);
        }
    }
    row
}

/// The number of positions `k < n` at which `word` holds `c`.
pub open spec fn occurrences(word: Seq<char>, c: char, n: int) -> nat
    decreases n,
{
    if n <= 0 {
        0
    } else if word[n - 1] == c {
        occurrences(word, c, n - 1) + 1
    } else {
        occurrences(word, c, n - 1)
    }
}

/// The number of squares among the first `n` of `row` that hold `c` with a
/// verdict other than `Absent`.
pub open spec fn credited(row: Seq<Square>, c: char, n: int) -> nat
    decreases n,
{
    if n <= 0 {
        0
    } else if row[n - 1].letter == c && row[n - 1].verdict != Verdict::Absent {
        credited(row, c, n - 1) + 1
    } else {
        credited(row, c, n - 1)
    }
}

/// The number of positions `k < n` at which both words hold `c`.
spec fn exact(target: Seq<char>, guess: Seq<char>, c: char, n: int) -> nat
    decreases n,
{
    if n <= 0 {
        0
    } else if target[n - 1] == c && guess[n - 1] == c {
        exact(target, guess, c, n - 1) + 1
    } else {
        exact(target, guess, c, n - 1)
    }
}

/// Every occurrence of a letter in the target is either matched exactly or
/// left unmatched.
proof fn lemma_occurrences_split(target: Seq<char>, guess: Seq<char>, c: char, n: int)
    ensures
        occurrences(target, c, n) == exact(target, guess, c, n) + unmatched(target, guess, c, n),
    decreases n,
{
    if n > 0 {
        lemma_occurrences_split(target, guess, c, n - 1);
    }
}

/// Among the first `n` squares, a letter is credited once for each exact
/// match and once for each out-of-place occurrence, up to the number of
/// occurrences that the target has to spare.
proof fn lemma_credited_split(target: Seq<char>, guess: Seq<char>, c: char, n: int)
    requires
        0 <= n <= guess.len(),
    ensures
        credited(scored(target, guess), c, n) == exact(target, guess, c, n) + if unmatched(
            guess,
            target,
            c,
            n,
        ) < unmatched(target, guess, c, target.len() as int) {
            unmatched(guess, target, c, n)
        } else {
            unmatched(target, guess, c, target.len() as int)
        },
    decreases n,
{
    if n > 0 {
        lemma_credited_split(target, guess, c, n - 1);
        assert(scored(target, guess)[n - 1] == square_at(target, guess, n - 1));
    }
}

/// The exact matches of a letter are the same from either side.
proof fn lemma_exact_symmetric(target: Seq<char>, guess: Seq<char>, c: char, n: int)
    ensures
        exact(target, guess, c, n) == exact(guess, target, c, n),
    decreases n,
{
    if n > 0 {
        lemma_exact_symmetric(target, guess, c, n - 1);
    }
}

/// Each letter is credited as often as the rarer of the two words holds
/// it: the squares of a scored row that hold `c` and are `Correct` or
/// `Present` are as many as the occurrences of `c` in the guess or in the
/// target, whichever are fewer.
pub proof fn lemma_credited_exactly(target: Seq<char>, guess: Seq<char>, c: char)
    requires
        target.len() == guess.len(),
    ensures
        credited(scored(target, guess), c, guess.len() as int) == if occurrences(
            guess,
            c,
            guess.len() as int,
        ) < occurrences(target, c, target.len() as int) {
            occurrences(guess, c, guess.len() as int)
        } else {
            occurrences(target, c, target.len() as int)
        },
{
    let n = guess.len() as int;
    lemma_credited_split(target, guess, c, n);
    lemma_occurrences_split(target, guess, c, n);
    lemma_occurrences_split(guess, target, c, n);
    lemma_exact_symmetric(target, guess, c, n);
}

/// A word scored against itself is correct at every position.
pub proof fn lemma_exact_match(word: Seq<char>)
    ensures
        scored(word, word).len() == word.len(),
        forall|i: int|
            0 <= i < word.len() ==> (#[trigger] scored(word, word)[i]).verdict == Verdict::Correct,
{
}

/// Where `a` does not hold `c`, no occurrence of it is unmatched.
proof fn lemma_unmatched_none(a: Seq<char>, b: Seq<char>, c: char, n: int)
    requires
        forall|k: int| 0 <= k < n ==> a[k] != c,
    ensures
        unmatched(a, b, c, n) == 0,
    decreases n,
{
    if n > 0 {
        lemma_unmatched_none(a, b, c, n - 1);
    }
}

/// A guess that has no letter in common with the target is absent at every
/// position.
pub proof fn lemma_nothing_in_common(target: Seq<char>, guess: Seq<char>)
    requires
        target.len() == guess.len(),
        forall|i: int, k: int|
            0 <= i < guess.len() && 0 <= k < target.len() ==> #[trigger] guess[i]
                != #[trigger] target[k],
    ensures
        forall|i: int|
            0 <= i < guess.len() ==> (#[trigger] scored(target, guess)[i]).verdict
                == Verdict::Absent,
{
    assert forall|i: int| 0 <= i < guess.len() implies (#[trigger] scored(
        target,
        guess,
    )[i]).verdict == Verdict::Absent by {
        assert(guess[i] != target[i]);
        lemma_unmatched_none(target, guess, guess[i], target.len() as int);
    }
}

/// No letter is credited more often than the target holds it: the squares
/// of a scored row that hold `c` and are `Correct` or `Present` are at most
/// as many as the occurrences of `c` in the target.
pub proof fn lemma_verdict_conservation(target: Seq<char>, guess: Seq<char>, c: char)
    requires
        target.len() == guess.len(),
    ensures
        credited(scored(target, guess), c, guess.len() as int) <= occurrences(
            target,
            c,
            target.len() as int,
        ),
{
    lemma_credited_split(target, guess, c, guess.len() as int);
    lemma_occurrences_split(target, guess, c, target.len() as int);
}

} // verus!
