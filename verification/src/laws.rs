//! Relations between the feedback computation and the consistency filter.
//!
//! The central fact is self-consistency: a secret is never rejected by the
//! feedback it generated itself. Around it stand the counting lemmas that
//! connect the left-to-right budget rule of `feedback_at` to the per-letter
//! count check of the duplicate-aware filter branch.

use vstd::prelude::*;
use vstd::math::min;
use crate::feedback::Match;
use crate::feedback::agree_below;
use crate::feedback::feedback_at;
use crate::feedback::miss_below;
use crate::feedback::spec_feedback;
use crate::filter::consistent_dup;
use crate::filter::consistent_simple;
use crate::filter::labeled_below;
use crate::filter::letter_budget_ok;
use crate::filter::position_ok_dup;
use crate::filter::position_ok_simple;
use crate::filter::spec_consistent;
use crate::words::count_below;
use crate::words::count_letter;
use crate::words::lemma_count_below_positive;
use crate::words::has_duplicate_letter;
use crate::words::lemma_count_occurs;
use crate::words::occurs;

verus! {

/// At each position, agreeing and disagreeing occurrences of `c` in the
/// guess together are exactly the occurrences of `c` in the guess.
proof fn lemma_split_counts(s: Seq<u8>, g: Seq<u8>, c: u8, n: int)
    ensures
        agree_below(s, g, c, n) + miss_below(s, g, c, n) == count_below(g, c, n),
    decreases n,
{
    if n > 0 {
        lemma_split_counts(s, g, c, n - 1);
    }
}

/// Every agreeing position of `c` is an occurrence of `c` in the secret.
proof fn lemma_agree_le_secret_count(s: Seq<u8>, g: Seq<u8>, c: u8, n: int)
    ensures
        agree_below(s, g, c, n) <= count_below(s, c, n),
    decreases n,
{
    if n > 0 {
        lemma_agree_le_secret_count(s, g, c, n - 1);
    }
}

/// An agreeing-position count is zero exactly when no position agrees.
proof fn lemma_agree_below_zero(s: Seq<u8>, g: Seq<u8>, c: u8, n: int)
    ensures
        (agree_below(s, g, c, n) == 0) <==> (forall|j: int|
            0 <= j < n ==> !(g[j] == c && s[j] == c)),
    decreases n,
{
    if n > 0 {
        lemma_agree_below_zero(s, g, c, n - 1);
    }
}

/// A disagreeing-position count is zero exactly when no position disagrees.
proof fn lemma_miss_below_zero(s: Seq<u8>, g: Seq<u8>, c: u8, n: int)
    ensures
        (miss_below(s, g, c, n) == 0) <==> (forall|j: int|
            0 <= j < n ==> !(g[j] == c && s[j] != c)),
    decreases n,
{
    if n > 0 {
        lemma_miss_below_zero(s, g, c, n - 1);
    }
}

/// Two distinct positions holding `c` drive the count to at least two.
proof fn lemma_count_two(s: Seq<u8>, c: u8, i: int, j: int, n: int)
    requires
        0 <= i < j < n <= s.len(),
        s[i] == c,
        s[j] == c,
    ensures
        count_below(s, c, n) >= 2,
    decreases n,
{
    if j == n - 1 {
        lemma_count_below_positive(s, c, n - 1);
    } else {
        lemma_count_two(s, c, i, j, n - 1);
    }
}

/// In the true feedback, the non-`NoMatch` labels of letter `c` up to `n`
/// are the agreeing positions plus as many disagreeing positions as the
/// remaining budget covers.
proof fn lemma_labeled_prefix(s: Seq<u8>, g: Seq<u8>, c: u8, n: int)
    requires
        s.len() == 5,
        g.len() == 5,
        0 <= n <= 5,
    ensures
        labeled_below(g, spec_feedback(s, g), c, n) as int == agree_below(s, g, c, n) as int + min(
            count_letter(s, c) as int - agree_below(s, g, c, 5) as int,
            miss_below(s, g, c, n) as int,
        ),
    decreases n,
{
    lemma_agree_le_secret_count(s, g, c, 5);
    if n > 0 {
        lemma_labeled_prefix(s, g, c, n - 1);
        assert(spec_feedback(s, g)[n - 1] == feedback_at(s, g, n - 1));
    }
}

/// In the true feedback, letter `c` carries exactly
/// `min(count in secret, count in guess)` non-`NoMatch` labels.
proof fn lemma_labeled_total(s: Seq<u8>, g: Seq<u8>, c: u8)
    requires
        s.len() == 5,
        g.len() == 5,
    ensures
        labeled_below(g, spec_feedback(s, g), c, 5) as int == min(
            count_letter(s, c) as int,
            count_letter(g, c) as int,
        ),
{
    lemma_labeled_prefix(s, g, c, 5);
    lemma_split_counts(s, g, c, 5);
    lemma_agree_le_secret_count(s, g, c, 5);
}

/// The letter at position `i` occurs nowhere else in the guess.
spec fn unique_at(g: Seq<u8>, i: int) -> bool {
    forall|j: int| 0 <= j < 5 && j != i ==> g[j] != g[i]
}

/// A letter counted once, or any letter of a guess without duplicates,
/// occurs at its position alone.
proof fn lemma_unique_at(g: Seq<u8>, i: int)
    requires
        g.len() == 5,
        0 <= i < 5,
        count_letter(g, g[i]) == 1 || !has_duplicate_letter(g),
    ensures
        unique_at(g, i),
{
    assert forall|j: int| 0 <= j < 5 && j != i implies g[j] != g[i] by {
        if g[j] == g[i] {
            if j < i {
                lemma_count_two(g, g[i], j, i, 5);
            } else {
                lemma_count_two(g, g[i], i, j, 5);
            }
        }
    }
}

/// A `NoMatch` label on a letter the guess holds only once means the
/// letter does not occur in the secret at all.
proof fn lemma_unique_no_match(s: Seq<u8>, g: Seq<u8>, i: int)
    requires
        s.len() == 5,
        g.len() == 5,
        0 <= i < 5,
        unique_at(g, i),
        feedback_at(s, g, i) == Match::NoMatch,
    ensures
        !occurs(s, g[i]),
{
    let c = g[i];
    lemma_agree_below_zero(s, g, c, 5);
    lemma_miss_below_zero(s, g, c, i);
    assert(count_letter(s, c) == 0);
    lemma_count_occurs(s, c);
}

/// Self-consistency: a secret always passes the filter against the
/// feedback computed from itself, for either filter branch.
pub proof fn lemma_self_consistent(secret: Seq<u8>, guess: Seq<u8>)
    requires
        secret.len() == 5,
        guess.len() == 5,
    ensures
        spec_consistent(secret, guess, spec_feedback(secret, guess)),
{
    let fb = spec_feedback(secret, guess);
    assert forall|i: int| 0 <= i < 5 implies position_ok_dup(secret, guess, fb, i) && (
    !has_duplicate_letter(guess) ==> position_ok_simple(secret, guess, fb, i)) by {
        let c = guess[i];
        assert(fb[i] == feedback_at(secret, guess, i));
        if fb[i] == Match::WrongPosition {
            assert(count_letter(secret, c) > 0);
            lemma_count_occurs(secret, c);
        }
        if fb[i] == Match::NoMatch {
            if count_letter(guess, c) == 1 || !has_duplicate_letter(guess) {
                lemma_unique_at(guess, i);
                lemma_unique_no_match(secret, guess, i);
            }
        }
    }
    assert forall|i: int|
        0 <= i < 5 && count_letter(guess, guess[i]) >= 2 implies letter_budget_ok(
        secret,
        guess,
        fb,
        i,
    ) by {
        lemma_labeled_total(secret, guess, guess[i]);
    }
}

/// Determinism: the feedback is a function of the two words alone, so any
/// two feedbacks computed from the same secret and guess are equal.
pub proof fn lemma_feedback_deterministic(
    secret: Seq<u8>,
    guess: Seq<u8>,
    fb1: Seq<Match>,
    fb2: Seq<Match>,
)
    requires
        fb1 == spec_feedback(secret, guess),
        fb2 == spec_feedback(secret, guess),
    ensures
        fb1 == fb2,
{
}

/// Changing one label changes the non-`NoMatch` count of its letter by
/// exactly that label's contribution, and no other letter's count.
proof fn lemma_labeled_flip(g: Seq<u8>, fb1: Seq<Match>, fb2: Seq<Match>, c: u8, i: int, n: int)
    requires
        0 <= i,
        forall|j: int| 0 <= j < n && j != i ==> fb2[j] == fb1[j],
    ensures
        labeled_below(g, fb2, c, n) as int == labeled_below(g, fb1, c, n) as int + (if i < n && g[i]
            == c {
            (if fb2[i] != Match::NoMatch {
                1int
            } else {
                0int
            }) - (if fb1[i] != Match::NoMatch {
                1int
            } else {
                0int
            })
        } else {
            0int
        }),
    decreases n,
{
    if n > 0 {
        lemma_labeled_flip(g, fb1, fb2, c, i, n - 1);
    }
}

/// The true feedback leaves no room to relabel a position unnoticed: no
/// position is labeled `NoMatch` while its letter occurs in the secret, and
/// for each letter the guess repeats, a `WrongPosition` label only appears
/// where the guess holds the letter at least as often as the secret does.
/// A guess without repeated letters always satisfies this.
pub open spec fn feedback_tight(secret: Seq<u8>, guess: Seq<u8>) -> bool {
    let fb = spec_feedback(secret, guess);
    &&& forall|i: int| 0 <= i < 5 && fb[i] == Match::NoMatch ==> !occurs(secret, guess[i])
    &&& forall|i: int|
        0 <= i < 5 && fb[i] == Match::WrongPosition && count_letter(guess, guess[i]) >= 2
            ==> count_letter(guess, guess[i]) >= count_letter(secret, guess[i])
}

/// A letter occurring at exactly one position is counted exactly once.
proof fn lemma_count_unique(s: Seq<u8>, c: u8, i: int, n: int)
    requires
        0 <= i < n <= s.len(),
        s[i] == c,
        forall|j: int| 0 <= j < n && j != i ==> s[j] != c,
    ensures
        count_below(s, c, n) == 1,
    decreases n,
{
    if i == n - 1 {
        lemma_count_below_zero(s, c, n - 1);
    } else {
        lemma_count_unique(s, c, i, n - 1);
    }
}

proof fn lemma_count_below_zero(s: Seq<u8>, c: u8, n: int)
    requires
        forall|j: int| 0 <= j < n ==> s[j] != c,
    ensures
        count_below(s, c, n) == 0,
    decreases n,
{
    if n > 0 {
        lemma_count_below_zero(s, c, n - 1);
    }
}

/// A guess without repeated letters is always tight: each of its letters
/// stands alone, so every label of its true feedback is forced.
pub proof fn lemma_no_duplicate_tight(secret: Seq<u8>, guess: Seq<u8>)
    requires
        secret.len() == 5,
        guess.len() == 5,
        !has_duplicate_letter(guess),
    ensures
        feedback_tight(secret, guess),
{
    let fb = spec_feedback(secret, guess);
    assert forall|i: int| 0 <= i < 5 && fb[i] == Match::NoMatch implies !occurs(
        secret,
        guess[i],
    ) by {
        assert(fb[i] == feedback_at(secret, guess, i));
        lemma_unique_at(guess, i);
        lemma_unique_no_match(secret, guess, i);
    }
    assert forall|i: int|
        0 <= i < 5 && fb[i] == Match::WrongPosition && count_letter(guess, guess[i])
            >= 2 implies count_letter(guess, guess[i]) >= count_letter(secret, guess[i]) by {
        lemma_unique_at(guess, i);
        lemma_count_unique(guess, guess[i], i, 5);
    }
}

/// Perturbation rejection: where the true feedback is tight, replacing any
/// single label by either other label makes the filter reject the secret
/// itself. Without tightness this can fail: with extra copies of a letter
/// in the secret, a spare `NoMatch` label of that letter can be relabeled
/// `WrongPosition` unnoticed, and where the secret holds more copies than
/// the guess, a `WrongPosition` label can be dropped to `NoMatch` unnoticed.
pub proof fn lemma_perturbation_rejected(secret: Seq<u8>, guess: Seq<u8>, fb2: Seq<Match>, i: int)
    requires
        secret.len() == 5,
        guess.len() == 5,
        fb2.len() == 5,
        feedback_tight(secret, guess),
        0 <= i < 5,
        fb2[i] != spec_feedback(secret, guess)[i],
        forall|j: int| 0 <= j < 5 && j != i ==> fb2[j] == spec_feedback(secret, guess)[j],
    ensures
        !spec_consistent(secret, guess, fb2),
{
    let fb = spec_feedback(secret, guess);
    let c = guess[i];
    assert(fb[i] == feedback_at(secret, guess, i));
    if fb[i] == Match::Matched {
        assert(secret[i] == c);
        assert(occurs(secret, c));
        if has_duplicate_letter(guess) {
            assert(!position_ok_dup(secret, guess, fb2, i));
        } else {
            assert(!position_ok_simple(secret, guess, fb2, i));
        }
    } else if fb[i] == Match::WrongPosition {
        assert(secret[i] != c);
        assert(count_letter(secret, c) > 0);
        lemma_count_occurs(secret, c);
        if fb2[i] == Match::Matched {
            if has_duplicate_letter(guess) {
                assert(!position_ok_dup(secret, guess, fb2, i));
            } else {
                assert(!position_ok_simple(secret, guess, fb2, i));
            }
        } else {
            if !has_duplicate_letter(guess) {
                assert(!position_ok_simple(secret, guess, fb2, i));
            } else if count_letter(guess, c) == 1 {
                assert(!position_ok_dup(secret, guess, fb2, i));
            } else {
                let w = count_letter(secret, c) as int;
                let g_count = count_letter(guess, c) as int;
                assert(g_count >= 2) by {
                    lemma_count_below_positive(guess, c, 5);
                }
                assert(g_count >= w);
                lemma_labeled_total(secret, guess, c);
                lemma_labeled_flip(guess, fb, fb2, c, i, 5);
                assert(labeled_below(guess, fb2, c, 5) as int == w - 1);
                assert(!letter_budget_ok(secret, guess, fb2, i));
                assert(!consistent_dup(secret, guess, fb2));
            }
        }
    } else {
        assert(!occurs(secret, c));
        assert(secret[i] != c);
        if has_duplicate_letter(guess) {
            assert(!position_ok_dup(secret, guess, fb2, i));
        } else {
            assert(!position_ok_simple(secret, guess, fb2, i));
        }
    }
}

/// A guess that differs from the secret is itself rejected by the feedback
/// it received: some position disagrees, its label is not `Matched`, and
/// each such label fails a per-position check against the guess.
pub proof fn lemma_wrong_guess_inconsistent(secret: Seq<u8>, guess: Seq<u8>)
    requires
        secret.len() == 5,
        guess.len() == 5,
        guess != secret,
    ensures
        !spec_consistent(guess, guess, spec_feedback(secret, guess)),
{
    let fb = spec_feedback(secret, guess);
    assert(exists|i: int| 0 <= i < 5 && secret[i] != guess[i]) by {
        if forall|i: int| 0 <= i < 5 ==> secret[i] == guess[i] {
            assert(secret =~= guess);
        }
    }
    let i = choose|i: int| 0 <= i < 5 && secret[i] != guess[i];
    assert(fb[i] == feedback_at(secret, guess, i));
    assert(fb[i] != Match::Matched);
    if has_duplicate_letter(guess) {
        assert(!position_ok_dup(guess, guess, fb, i));
    } else {
        assert(!position_ok_simple(guess, guess, fb, i));
    }
}

/// Under all-`Matched` feedback only the guess itself stays consistent:
/// every label forces agreement at its position.
pub proof fn lemma_all_matched_only_guess(w: Seq<u8>, g: Seq<u8>, fb: Seq<Match>)
    requires
        w.len() == 5,
        g.len() == 5,
        forall|i: int| 0 <= i < 5 ==> fb[i] == Match::Matched,
        spec_consistent(w, g, fb),
    ensures
        w == g,
{
    if has_duplicate_letter(g) {
        assert forall|i: int| 0 <= i < 5 implies w[i] == g[i] by {
            assert(position_ok_dup(w, g, fb, i));
        }
    } else {
        assert forall|i: int| 0 <= i < 5 implies w[i] == g[i] by {
            assert(position_ok_simple(w, g, fb, i));
        }
    }
    assert(w =~= g);
}

} // verus!
