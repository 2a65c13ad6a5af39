//! The simulation driver: repeated randomized trials that measure how many
//! guess-and-filter rounds it takes to shrink a candidate pool to the secret.
//!
//! Each trial copies the dictionary, then repeatedly draws a random guess
//! from the surviving pool, computes its feedback against the secret, and
//! filters the pool. The loop is proved to terminate with the pool holding
//! exactly the secret: the secret always survives its own feedback, and
//! every round removes at least one word.

use vstd::prelude::*;
use rand::Rng;
use crate::feedback::Match;
use crate::feedback::match_word;
use crate::filter::consistent_with;
use crate::filter::filter_words;
use crate::filter::spec_consistent;
use crate::laws::lemma_all_matched_only_guess;
use crate::laws::lemma_self_consistent;
use crate::laws::lemma_wrong_guess_inconsistent;

verus! {

/// The random source the driver draws from.
#[verifier::external_type_specification]
#[verifier::external_body]
pub struct ExStdRng(rand::rngs::StdRng);

/// Relies on rand::Rng::gen_range over `0..n`: it panics only on an empty
/// range, excluded here, and returns a value drawn from the range.
#[verifier::external_body]
fn rand_index(rng: &mut rand::rngs::StdRng, n: usize) -> (r: usize)
    requires
        n > 0,
    ensures
        r < n,
{
    rng.gen_range(0..n)
}

/// No word appears twice.
pub open spec fn all_words_distinct(s: Seq<[u8; 5]>) -> bool {
    forall|p: int, q: int| 0 <= p < q < s.len() ==> s[p] != s[q]
}

/// Whether two words are equal.
pub fn words_equal(a: &[u8; 5], b: &[u8; 5]) -> (r: bool)
    ensures
        r <==> (*a == *b),
{
    let mut j: usize = 0;
    while j < 5
        invariant
            j <= 5,
            forall|k: int| 0 <= k < j ==> a@[k] == b@[k],
        decreases 5 - j,
    {
        if a[j] != b[j] {
            assert(*a != *b) by {
                assert(a@[j as int] != b@[j as int]);
            }
            return false;
        }
        j = j + 1;
    }
    assert(*a =~= *b);
    true
}

/// Whether all words of the dictionary are pairwise distinct.
pub fn all_distinct(words: &Vec<[u8; 5]>) -> (b: bool)
    ensures
        b == all_words_distinct(words@),
{
    let mut i: usize = 0;
    while i < words.len()
        invariant
            i <= words@.len(),
            forall|p: int, q: int| 0 <= p < q < words@.len() && p < i ==> words@[p] != words@[q],
        decreases words@.len() - i,
    {
        let mut j: usize = i + 1;
        while j < words.len()
            invariant
                i < j <= words@.len(),
                forall|q: int| i < q < j ==> words@[i as int] != words@[q],
            decreases words@.len() - j,
        {
            if words_equal(&words[i], &words[j]) {
                return false;
            }
            j = j + 1;
        }
        i = i + 1;
    }
    true
}

/// Filtering a sequence with an element that fails the predicate makes it
/// strictly shorter.
proof fn lemma_filter_strict<A>(s: Seq<A>, pred: spec_fn(A) -> bool, k: int)
    requires
        0 <= k < s.len(),
        !pred(s[k]),
    ensures
        s.filter(pred).len() < s.len(),
    decreases s.len(),
{
    reveal(Seq::filter);
    let dl = s.drop_last();
    if k == s.len() - 1 {
        dl.lemma_filter_len(pred);
    } else {
        lemma_filter_strict(dl, pred, k);
    }
}

/// Filtering keeps a sequence of pairwise distinct words pairwise distinct.
proof fn lemma_filter_distinct(s: Seq<[u8; 5]>, pred: spec_fn([u8; 5]) -> bool)
    requires
        all_words_distinct(s),
    ensures
        all_words_distinct(s.filter(pred)),
    decreases s.len(),
{
    reveal(Seq::filter);
    if s.len() > 0 {
        let dl = s.drop_last();
        let f = dl.filter(pred);
        assert(all_words_distinct(dl));
        lemma_filter_distinct(dl, pred);
        if pred(s.last()) {
            assert forall|p: int| 0 <= p < f.len() implies f[p] != s.last() by {
                assert(f.contains(f[p]));
                dl.lemma_filter_contains_rev(pred, f[p]);
                let q = choose|q: int| 0 <= q < dl.len() && dl[q] == f[p];
                assert(s[q] == dl[q]);
            }
            assert(all_words_distinct(f.push(s.last())));
        }
    }
}

/// One trial: filter the dictionary by randomly drawn guesses until one
/// word is left; that word is the secret, and the number of rounds is below
/// the dictionary's size.
pub fn run_trial(words: &Vec<[u8; 5]>, secret: [u8; 5], rng: &mut rand::rngs::StdRng) -> (r: (
    [u8; 5],
    usize,
))
    requires
        all_words_distinct(words@),
        words@.contains(secret),
    ensures
        r.0 == secret,
        r.1 < words@.len(),
        words@.len() > 1 ==> r.1 >= 1,
{
    let mut pool: Vec<[u8; 5]> = Vec::new();
    let mut i: usize = 0;
    while i < words.len()
        invariant
            i <= words@.len(),
            pool@ == words@.take(i as int),
        decreases words@.len() - i,
    {
        pool.push(words[i]);
        i = i + 1;
    }
    proof {
        assert(pool@ =~= words@);
    }
    let mut rounds: usize = 0;
    while pool.len() > 1
        invariant
            all_words_distinct(pool@),
            pool@.contains(secret),
            pool@.len() >= 1,
            pool@.len() + rounds <= words@.len(),
            words@.len() <= usize::MAX,
            rounds == 0 ==> pool@ == words@,
        decreases pool@.len(),
    {
        let n = pool.len();
        let idx = rand_index(rng, n);
        let guess = pool[idx];
        let ghost pool_before = pool@;
        let fb = match_word(secret, guess);
        filter_words(&mut pool, guess, fb);
        proof {
            let pred = consistent_with(guess@, fb@);
            lemma_self_consistent(secret@, guess@);
            let sj = choose|sj: int| 0 <= sj < pool_before.len() && pool_before[sj] == secret;
            pool_before.lemma_filter_contains(pred, sj);
            if guess@ != secret@ {
                lemma_wrong_guess_inconsistent(secret@, guess@);
                lemma_filter_strict(pool_before, pred, idx as int);
            } else {
                assert(guess =~= secret);
                assert(forall|k: int| 0 <= k < 5 ==> fb@[k] == Match::Matched);
                let xk: int = if pool_before[0] == secret {
                    1
                } else {
                    0
                };
                let x = pool_before[xk];
                assert(x != secret);
                assert(!pred(x)) by {
                    if spec_consistent(x@, guess@, fb@) {
                        lemma_all_matched_only_guess(x@, guess@, fb@);
                        assert(x =~= secret);
                    }
                }
                lemma_filter_strict(pool_before, pred, xk);
            }
            lemma_filter_distinct(pool_before, pred);
            assert(pool@.len() < pool_before.len());
            assert(pool_before.len() + rounds <= words@.len());
            assert(rounds < usize::MAX);
        }
        rounds = rounds + 1;
    }
    let winner = pool[0];
    proof {
        let sj = choose|sj: int| 0 <= sj < pool@.len() && pool@[sj] == secret;
        assert(sj == 0);
    }
    (winner, rounds)
}

/// Add one finished trial to the histogram: entry `rounds - 1` counts the
/// trials that finished in exactly `rounds` rounds. The histogram grows as
/// needed and other entries keep their value.
pub fn record_round(counts: &mut Vec<u64>, rounds: usize)
    requires
        rounds >= 1,
        rounds <= old(counts)@.len() ==> old(counts)@[rounds - 1] < u64::MAX,
    ensures
        final(counts)@.len() == (if rounds <= old(counts)@.len() {
            old(counts)@.len()
        } else {
            rounds as nat
        }),
        final(counts)@[rounds - 1] == (if rounds <= old(counts)@.len() {
            (old(counts)@[rounds - 1] + 1) as u64
        } else {
            1u64
        }),
        forall|k: int|
            0 <= k < final(counts)@.len() && k != rounds - 1 ==> final(counts)@[k] == (if k
                < old(counts)@.len() {
                old(counts)@[k]
            } else {
                0u64
            }),
{
    while counts.len() < rounds
        invariant
            counts@.len() <= rounds || counts@.len() == old(counts)@.len(),
            old(counts)@.len() <= counts@.len(),
            forall|k: int|
                0 <= k < counts@.len() ==> counts@[k] == (if k < old(counts)@.len() {
                    old(counts)@[k]
                } else {
                    0u64
                }),
        decreases rounds - counts@.len(),
    {
        counts.push(0);
    }
    let v = counts[rounds - 1];
    counts[rounds - 1] = v + 1;
}

/// Sum of all entries of a histogram.
pub open spec fn histogram_total(s: Seq<u64>) -> int
    decreases s.len(),
{
    if s.len() == 0 {
        0
    } else {
        histogram_total(s.drop_last()) + s.last()
    }
}

proof fn lemma_total_nonneg(s: Seq<u64>)
    ensures
        histogram_total(s) >= 0,
    decreases s.len(),
{
    if s.len() > 0 {
        lemma_total_nonneg(s.drop_last());
    }
}

/// No histogram entry exceeds the sum of all entries.
proof fn lemma_entry_le_total(s: Seq<u64>, k: int)
    requires
        0 <= k < s.len(),
    ensures
        s[k] <= histogram_total(s),
    decreases s.len(),
{
    lemma_total_nonneg(s.drop_last());
    if k < s.len() - 1 {
        lemma_entry_le_total(s.drop_last(), k);
    }
}

/// Extending a histogram with zero entries keeps its sum.
proof fn lemma_total_pad(s1: Seq<u64>, s2: Seq<u64>)
    requires
        s1.len() <= s2.len(),
        forall|k: int| 0 <= k < s1.len() ==> s2[k] == s1[k],
        forall|k: int| s1.len() <= k < s2.len() ==> s2[k] == 0u64,
    ensures
        histogram_total(s2) == histogram_total(s1),
    decreases s2.len(),
{
    if s2.len() == s1.len() {
        assert(s2 =~= s1);
    } else {
        lemma_total_pad(s1, s2.drop_last());
    }
}

/// Incrementing one entry increments the sum.
proof fn lemma_total_update(s1: Seq<u64>, s2: Seq<u64>, m: int)
    requires
        s2.len() == s1.len(),
        0 <= m < s1.len(),
        forall|k: int| 0 <= k < s1.len() && k != m ==> s2[k] == s1[k],
        s2[m] as int == s1[m] as int + 1,
    ensures
        histogram_total(s2) == histogram_total(s1) + 1,
    decreases s1.len(),
{
    if m == s1.len() - 1 {
        assert(s2.drop_last() =~= s1.drop_last());
    } else {
        lemma_total_update(s1.drop_last(), s2.drop_last(), m);
    }
}

/// What `record_round` does to the histogram's sum: one more trial counted.
proof fn lemma_record_total(s1: Seq<u64>, s2: Seq<u64>, m: int)
    requires
        1 <= m,
        m <= s1.len() ==> s1[m - 1] < u64::MAX,
        s2.len() == (if m <= s1.len() {
            s1.len()
        } else {
            m as nat
        }),
        s2[m - 1] == (if m <= s1.len() {
            (s1[m - 1] + 1) as u64
        } else {
            1u64
        }),
        forall|k: int|
            0 <= k < s2.len() && k != m - 1 ==> s2[k] == (if k < s1.len() {
                s1[k]
            } else {
                0u64
            }),
    ensures
        histogram_total(s2) == histogram_total(s1) + 1,
{
    let padded = Seq::new(s2.len(), |k: int| if k < s1.len() { s1[k] } else { 0u64 });
    lemma_total_pad(s1, padded);
    lemma_total_update(padded, s2, m - 1);
}

/// Run `trials` independent trials. Each picks a secret at random from the
/// dictionary, then shrinks a fresh copy of the dictionary to that secret
/// alone, counting the rounds it takes. The result maps each round count
/// `r` (at entry `r - 1`) to the number of trials that finished in exactly
/// `r` rounds; its entries sum to `trials`.
pub fn run_simulation(words: &Vec<[u8; 5]>, trials: usize, rng: &mut rand::rngs::StdRng) -> (counts:
    Vec<u64>)
    requires
        all_words_distinct(words@),
        words@.len() >= 2,
    ensures
        histogram_total(counts@) == trials,
        counts@.len() < words@.len(),
{
    let mut counts: Vec<u64> = Vec::new();
    let mut t: usize = 0;
    while t < trials
        invariant
            t <= trials,
            all_words_distinct(words@),
            words@.len() >= 2,
            histogram_total(counts@) == t,
            counts@.len() < words@.len(),
        decreases trials - t,
    {
        let si = rand_index(rng, words.len());
        let secret = words[si];
        proof {
            assert(words@.contains(secret)) by {
                assert(words@[si as int] == secret);
            }
        }
        let r = run_trial(words, secret, rng);
        let rounds = r.1;
        proof {
            if rounds - 1 < counts@.len() {
                lemma_entry_le_total(counts@, rounds - 1);
            }
        }
        let ghost counts_old = counts@;
        record_round(&mut counts, rounds);
        proof {
            lemma_record_total(counts_old, counts@, rounds as int);
        }
        t = t + 1;
    }
    counts
}

} // verus!

