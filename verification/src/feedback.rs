//! The per-position feedback a guess receives against a secret word.
//!
//! A position whose letters agree is `Matched`. The remaining positions of a
//! letter share a budget: the letter's occurrence count in the secret, less
//! the positions already matched. Walking left to right, each disagreeing
//! position of that letter is `WrongPosition` while budget remains and
//! `NoMatch` once it is spent. For a letter that the guess holds only once
//! this reduces to the simple rule: `Matched` on agreement, `WrongPosition`
//! if the letter occurs elsewhere in the secret, `NoMatch` otherwise.

use vstd::prelude::*;
use crate::words::count_below;
use crate::words::count_letter;
use crate::words::count_in_word;

verus! {

/// Feedback label for one guess position.
#[derive(Copy, Clone, Debug, PartialEq, Eq, Structural)]
pub enum Match {
    NoMatch,
    WrongPosition,
    Matched,
}

/// Number of positions `j` with `0 <= j < n` where the guess holds the letter
/// `c` and the secret agrees there.
pub open spec fn agree_below(secret: Seq<u8>, guess: Seq<u8>, c: u8, n: int) -> nat
    decreases n,
{
    if n <= 0 {
        0
    } else {
        agree_below(secret, guess, c, n - 1) + (if guess[n - 1] == c && secret[n - 1] == c {
            1nat
        } else {
            0nat
        })
    }
}

/// Number of positions `j` with `0 <= j < n` where the guess holds the letter
/// `c` but the secret disagrees there.
pub open spec fn miss_below(secret: Seq<u8>, guess: Seq<u8>, c: u8, n: int) -> nat
    decreases n,
{
    if n <= 0 {
        0
    } else {
        miss_below(secret, guess, c, n - 1) + (if guess[n - 1] == c && secret[n - 1] != c {
            1nat
        } else {
            0nat
        })
    }
}

/// The label of position `i`: `Matched` on agreement; otherwise the letter's
/// budget (its count in the secret) goes first to all matched positions, and
/// what remains to the disagreeing positions in left-to-right order.
pub open spec fn feedback_at(secret: Seq<u8>, guess: Seq<u8>, i: int) -> Match {
    let c = guess[i];
    if secret[i] == c {
        Match::Matched
    } else if miss_below(secret, guess, c, i) + agree_below(secret, guess, c, 5)
        < count_letter(secret, c) {
        Match::WrongPosition
    } else {
        Match::NoMatch
    }
}

/// The whole feedback for a guess against a secret.
pub open spec fn spec_feedback(secret: Seq<u8>, guess: Seq<u8>) -> Seq<Match> {
    Seq::new(5, |i: int| feedback_at(secret, guess, i))
}

/// Number of positions of letter `c` in the guess where the secret agrees.
fn agree_count(word: &[u8; 5], guess: &[u8; 5], c: u8) -> (n: usize)
    ensures
        n == agree_below(word@, guess@, c, 5),
        n <= 5,
{
    let mut n: usize = 0;
    let mut j: usize = 0;
    while j < 5
        invariant
            j <= 5,
            n <= j,
            n == agree_below(word@, guess@, c, j as int),
        decreases 5 - j,
    {
        if guess[j] == c && word[j] == c {
            n = n + 1;
        }
        j = j + 1;
    }
    n
}

/// Number of positions of letter `c` below `upto` in the guess where the
/// secret disagrees.
fn miss_count_below(word: &[u8; 5], guess: &[u8; 5], c: u8, upto: usize) -> (n: usize)
    requires
        upto <= 5,
    ensures
        n == miss_below(word@, guess@, c, upto as int),
        n <= 5,
{
    let mut n: usize = 0;
    let mut j: usize = 0;
    while j < upto
        invariant
            j <= upto <= 5,
            n <= j,
            n == miss_below(word@, guess@, c, j as int),
        decreases upto - j,
    {
        if guess[j] == c && word[j] != c {
            n = n + 1;
        }
        j = j + 1;
    }
    n
}

/// Compute the feedback for `guess` against the secret `word`.
pub fn match_word(word: [u8; 5], guess: [u8; 5]) -> (out: [Match; 5])
    ensures
        out@ == spec_feedback(word@, guess@),
{
    let mut out: [Match; 5] = [Match::NoMatch; 5];
    let mut i: usize = 0;
    while i < 5
        invariant
            i <= 5,
            forall|k: int| 0 <= k < i ==> out@[k] == feedback_at(word@, guess@, k),
            forall|k: int| i <= k < 5 ==> out@[k] == Match::NoMatch,
        decreases 5 - i,
    {
        let c = guess[i];
        if word[i] == c {
            out[i] = Match::Matched;
        } else {
            let w = count_in_word(&word, c);
            let m = agree_count(&word, &guess, c);
            let prior = miss_count_below(&word, &guess, c, i);
            if prior + m < w {
                out[i] = Match::WrongPosition;
            }
        }
        i = i + 1;
    }
    assert(out@ =~= spec_feedback(word@, guess@));
    out
}

} // verus!
