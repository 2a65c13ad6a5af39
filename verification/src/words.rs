//! Words as fixed arrays of five letter bytes, and the letter-counting
//! spec functions that the feedback and consistency contracts are stated over.

use vstd::prelude::*;
use vstd::string::StringSliceAdditionalSpecFns;

verus! {

/// Number of positions `j` with `0 <= j < n` and `s[j] == c`.
pub open spec fn count_below(s: Seq<u8>, c: u8, n: int) -> nat
    decreases n,
{
    if n <= 0 {
        0
    } else {
        count_below(s, c, n - 1) + (if s[n - 1] == c {
            1nat
        } else {
            0nat
        })
    }
}

/// Number of occurrences of the letter `c` in `s`.
pub open spec fn count_letter(s: Seq<u8>, c: u8) -> nat {
    count_below(s, c, s.len() as int)
}

/// The letter `c` occurs somewhere in `s`.
pub open spec fn occurs(s: Seq<u8>, c: u8) -> bool {
    exists|j: int| 0 <= j < s.len() && s[j] == c
}

/// Some letter occurs at two different positions of `s`.
pub open spec fn has_duplicate_letter(s: Seq<u8>) -> bool {
    exists|i: int, j: int| 0 <= i < j < s.len() && s[i] == s[j]
}

/// A prefix count is positive exactly when the prefix holds a witness.
pub proof fn lemma_count_below_positive(s: Seq<u8>, c: u8, n: int)
    requires
        0 <= n <= s.len(),
    ensures
        (count_below(s, c, n) > 0) <==> (exists|j: int| 0 <= j < n && s[j] == c),
    decreases n,
{
    if n > 0 {
        lemma_count_below_positive(s, c, n - 1);
    }
}

/// The full count is positive exactly when the letter occurs.
pub proof fn lemma_count_occurs(s: Seq<u8>, c: u8)
    ensures
        (count_letter(s, c) > 0) <==> occurs(s, c),
{
    lemma_count_below_positive(s, c, s.len() as int);
}

/// How many times the letter `c` occurs in the word `w`.
pub fn count_in_word(w: &[u8; 5], c: u8) -> (n: usize)
    ensures
        n == count_letter(w@, c),
{
    let mut n: usize = 0;
    let mut j: usize = 0;
    while j < 5
        invariant
            j <= 5,
            n <= j,
            n == count_below(w@, c, j as int),
        decreases 5 - j,
    {
        if w[j] == c {
            n = n + 1;
        }
        j = j + 1;
    }
    n
}

/// Whether the letter `c` occurs anywhere in the word `w`.
pub fn word_contains(w: &[u8; 5], c: u8) -> (b: bool)
    ensures
        b == occurs(w@, c),
{
    let mut j: usize = 0;
    while j < 5
        invariant
            j <= 5,
            forall|k: int| 0 <= k < j ==> w@[k] != c,
        decreases 5 - j,
    {
        if w[j] == c {
            return true;
        }
        j = j + 1;
    }
    false
}

/// Whether any letter of `w` occurs twice.
pub fn has_duplicate(w: [u8; 5]) -> (b: bool)
    ensures
        b == has_duplicate_letter(w@),
{
    let mut i: usize = 0;
    while i < 5
        invariant
            i <= 5,
            forall|p: int, q: int| 0 <= p < q < 5 && p < i ==> w@[p] != w@[q],
        decreases 5 - i,
    {
        let mut j: usize = i + 1;
        while j < 5
            invariant
                i < j <= 5,
                forall|q: int| i < q < j ==> w@[i as int] != w@[q],
            decreases 5 - j,
        {
            if w[i] == w[j] {
                return true;
            }
            j = j + 1;
        }
        i = i + 1;
    }
    false
}

/// The first five bytes of `s`, padded with zero bytes where `s` is shorter.
pub fn str_to_array(s: &str) -> (out: [u8; 5])
    ensures
        forall|i: int|
            0 <= i < 5 ==> out@[i] == (if i < s.spec_bytes().len() {
                s.spec_bytes()[i]
            } else {
                0u8
            }),
{
    let b = s.as_bytes();
    let mut out: [u8; 5] = [0u8; 5];
    let mut i: usize = 0;
    while i < 5
        invariant
            i <= 5,
            b@ == s.spec_bytes(),
            forall|k: int|
                0 <= k < i ==> out@[k] == (if k < b@.len() {
                    b@[k]
                } else {
                    0u8
                }),
            forall|k: int| i <= k < 5 ==> out@[k] == 0u8,
        decreases 5 - i,
    {
        if i < b.len() {
            out[i] = b[i];
        }
        i = i + 1;
    }
    out
}

} // verus!
