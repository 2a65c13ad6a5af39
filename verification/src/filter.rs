//! The consistency predicate: could a candidate word still be the secret,
//! given a guess and the feedback that guess received?
//!
//! When the guess has no repeated letter, each position is checked on its
//! own. When a letter repeats in the guess, the per-position checks are
//! relaxed and a per-letter count check is added: if the guess holds the
//! letter at least as often as the candidate does, the feedback must label
//! at least the candidate's count of that letter as non-`NoMatch`.

use vstd::prelude::*;
use crate::feedback::Match;
use crate::words::count_letter;
use crate::words::count_in_word;
use crate::words::has_duplicate;
use crate::words::has_duplicate_letter;
use crate::words::occurs;
use crate::words::word_contains;

verus! {

/// Number of positions `j` with `0 <= j < n` where the guess holds the letter
/// `c` and the feedback label is not `NoMatch`.
pub open spec fn labeled_below(guess: Seq<u8>, fb: Seq<Match>, c: u8, n: int) -> nat
    decreases n,
{
    if n <= 0 {
        0
    } else {
        labeled_below(guess, fb, c, n - 1) + (if guess[n - 1] == c && fb[n - 1] != Match::NoMatch {
            1nat
        } else {
            0nat
        })
    }
}

/// Position `i` passes the checks of the branch for guesses without
/// repeated letters.
pub open spec fn position_ok_simple(w: Seq<u8>, g: Seq<u8>, fb: Seq<Match>, i: int) -> bool {
    &&& (fb[i] == Match::Matched ==> w[i] == g[i])
    &&& (fb[i] == Match::NoMatch ==> !occurs(w, g[i]))
    &&& (fb[i] == Match::WrongPosition ==> w[i] != g[i] && occurs(w, g[i]))
}

/// Candidate `w` is consistent with `(g, fb)` under the simple branch.
pub open spec fn consistent_simple(w: Seq<u8>, g: Seq<u8>, fb: Seq<Match>) -> bool {
    forall|i: int| 0 <= i < 5 ==> position_ok_simple(w, g, fb, i)
}

/// Position `i` passes the per-position checks of the duplicate-aware branch.
pub open spec fn position_ok_dup(w: Seq<u8>, g: Seq<u8>, fb: Seq<Match>, i: int) -> bool {
    &&& (fb[i] == Match::Matched ==> w[i] == g[i])
    &&& (fb[i] == Match::WrongPosition ==> w[i] != g[i] && occurs(w, g[i]))
    &&& (fb[i] == Match::NoMatch ==> w[i] != g[i] && (count_letter(g, g[i]) == 1 ==> !occurs(
        w,
        g[i],
    )))
}

/// The per-letter count check for the letter at guess position `i`: if the
/// guess holds it at least as often as the candidate, the feedback must
/// label at least the candidate's count of it as non-`NoMatch`.
pub open spec fn letter_budget_ok(w: Seq<u8>, g: Seq<u8>, fb: Seq<Match>, i: int) -> bool {
    count_letter(g, g[i]) >= count_letter(w, g[i]) ==> labeled_below(g, fb, g[i], 5)
        >= count_letter(w, g[i])
}

/// Candidate `w` is consistent with `(g, fb)` under the duplicate-aware branch.
pub open spec fn consistent_dup(w: Seq<u8>, g: Seq<u8>, fb: Seq<Match>) -> bool {
    &&& forall|i: int| 0 <= i < 5 ==> position_ok_dup(w, g, fb, i)
    &&& forall|i: int| 0 <= i < 5 && count_letter(g, g[i]) >= 2 ==> letter_budget_ok(w, g, fb, i)
}

/// Candidate `w` is consistent with the observed `(g, fb)` pair: the
/// duplicate-aware branch where the guess repeats a letter, the simple
/// branch otherwise.
pub open spec fn spec_consistent(w: Seq<u8>, g: Seq<u8>, fb: Seq<Match>) -> bool {
    if has_duplicate_letter(g) {
        consistent_dup(w, g, fb)
    } else {
        consistent_simple(w, g, fb)
    }
}

/// Number of positions of letter `c` in the guess whose feedback label is
/// not `NoMatch`.
fn labeled_count(guess: &[u8; 5], fb: &[Match; 5], c: u8) -> (n: usize)
    ensures
        n == labeled_below(guess@, fb@, c, 5),
        n <= 5,
{
    let mut n: usize = 0;
    let mut j: usize = 0;
    while j < 5
        invariant
            j <= 5,
            n <= j,
            n == labeled_below(guess@, fb@, c, j as int),
        decreases 5 - j,
    {
        if guess[j] == c && !(fb[j] == Match::NoMatch) {
            n = n + 1;
        }
        j = j + 1;
    }
    n
}

/// Consistency check for a guess without repeated letters.
pub fn filter_match_no_dup(word: [u8; 5], guess: [u8; 5], matches: [Match; 5]) -> (b: bool)
    ensures
        b == consistent_simple(word@, guess@, matches@),
{
    let mut i: usize = 0;
    while i < 5
        invariant
            i <= 5,
            forall|k: int| 0 <= k < i ==> position_ok_simple(word@, guess@, matches@, k),
        decreases 5 - i,
    {
        let c = guess[i];
        if matches[i] == Match::Matched {
            if word[i] != c {
                assert(!position_ok_simple(word@, guess@, matches@, i as int));
                return false;
            }
        } else if matches[i] == Match::NoMatch {
            if word_contains(&word, c) {
                assert(!position_ok_simple(word@, guess@, matches@, i as int));
                return false;
            }
        } else {
            if word[i] == c {
                assert(!position_ok_simple(word@, guess@, matches@, i as int));
                return false;
            }
            if !word_contains(&word, c) {
                assert(!position_ok_simple(word@, guess@, matches@, i as int));
                return false;
            }
        }
        i = i + 1;
    }
    true
}

/// Consistency check for a guess with at least one repeated letter.
pub fn filter_match_dup(word: [u8; 5], guess: [u8; 5], matches: [Match; 5]) -> (b: bool)
    ensures
        b == consistent_dup(word@, guess@, matches@),
{
    let mut i: usize = 0;
    while i < 5
        invariant
            i <= 5,
            forall|k: int| 0 <= k < i ==> position_ok_dup(word@, guess@, matches@, k),
        decreases 5 - i,
    {
        let c = guess[i];
        if matches[i] == Match::Matched {
            if word[i] != c {
                assert(!position_ok_dup(word@, guess@, matches@, i as int));
                return false;
            }
        } else if matches[i] == Match::WrongPosition {
            if word[i] == c {
                assert(!position_ok_dup(word@, guess@, matches@, i as int));
                return false;
            }
            if !word_contains(&word, c) {
                assert(!position_ok_dup(word@, guess@, matches@, i as int));
                return false;
            }
        } else {
            if word[i] == c {
                assert(!position_ok_dup(word@, guess@, matches@, i as int));
                return false;
            }
            if count_in_word(&guess, c) == 1 && word_contains(&word, c) {
                assert(!position_ok_dup(word@, guess@, matches@, i as int));
                return false;
            }
        }
        i = i + 1;
    }
    let mut i: usize = 0;
    while i < 5
        invariant
            i <= 5,
            forall|k: int|
                0 <= k < i && count_letter(guess@, guess@[k]) >= 2 ==> letter_budget_ok(
                    word@,
                    guess@,
                    matches@,
                    k,
                ),
            forall|k: int| 0 <= k < 5 ==> position_ok_dup(word@, guess@, matches@, k),
        decreases 5 - i,
    {
        let c = guess[i];
        let g_letters = count_in_word(&guess, c);
        if g_letters >= 2 {
            let w_letters = count_in_word(&word, c);
            let labeled = labeled_count(&guess, &matches, c);
            if g_letters >= w_letters && labeled < w_letters {
                assert(!letter_budget_ok(word@, guess@, matches@, i as int));
                return false;
            }
        }
        i = i + 1;
    }
    true
}

/// Consistency check for any guess: picks the branch by whether the guess
/// repeats a letter.
pub fn filter_match(word: [u8; 5], guess: [u8; 5], matches: [Match; 5]) -> (b: bool)
    ensures
        b == spec_consistent(word@, guess@, matches@),
{
    if has_duplicate(guess) {
        filter_match_dup(word, guess, matches)
    } else {
        filter_match_no_dup(word, guess, matches)
    }
}

/// The predicate that `filter_words` retains by, as a function of the
/// observed guess and feedback.
pub open spec fn consistent_with(g: Seq<u8>, fb: Seq<Match>) -> spec_fn([u8; 5]) -> bool {
    |w: [u8; 5]| spec_consistent(w@, g, fb)
}

/// Remove from `words` every word inconsistent with the observed
/// `(guess, matches)` pair, keeping the order of the rest.
pub fn filter_words(words: &mut Vec<[u8; 5]>, guess: [u8; 5], matches: [Match; 5])
    ensures
        final(words)@ == old(words)@.filter(consistent_with(guess@, matches@)),
{
    let ghost pred = consistent_with(guess@, matches@);
    let mut kept: Vec<[u8; 5]> = Vec::new();
    let mut i: usize = 0;
    while i < words.len()
        invariant
            i <= words@.len(),
            words@ == old(words)@,
            kept@ == words@.take(i as int).filter(pred),
            pred == consistent_with(guess@, matches@),
        decreases words@.len() - i,
    {
        let w = words[i];
        proof {
            assert(words@.take(i + 1) =~= words@.take(i as int).push(words@[i as int]));
            words@.take(i as int).lemma_filter_push(words@[i as int], pred);
            assert(words@.take(i + 1).filter(pred) == (if pred(words@[i as int]) {
                words@.take(i as int).filter(pred).push(words@[i as int])
            } else {
                words@.take(i as int).filter(pred)
            }));
        }
        if filter_match(w, guess, matches) {
            kept.push(w);
        }
        i = i + 1;
    }
    proof {
        assert(words@.take(words@.len() as int) =~= words@);
    }
    *words = kept;
}

} // verus!
