use vstd::prelude::*;

use itertools::Itertools;

verus! {

/// The number of positions at which two sequences of equal length differ.
pub open spec fn hamming_spec(a: Seq<u8>, b: Seq<u8>) -> nat
    decreases a.len(),
{
    if a.len() == 0 || b.len() == 0 {
        0
    } else {
        hamming_spec(a.drop_last(), b.drop_last()) + if a.last() != b.last() {
            1nat
        } else {
            0nat
        }
    }
}

pub open spec fn min3(x: nat, y: nat, z: nat) -> nat {
    if x <= y && x <= z {
        x
    } else if y <= z {
        y
    } else {
        z
    }
}

/// The least number of single-byte insertions, deletions and substitutions
/// that turn `a` into `b`.
pub open spec fn levenshtein_spec(a: Seq<u8>, b: Seq<u8>) -> nat
    decreases a.len() + b.len(),
{
    if a.len() == 0 {
        b.len()
    } else if b.len() == 0 {
        a.len()
    } else {
        min3(
            levenshtein_spec(a.drop_last(), b) + 1,
            levenshtein_spec(a, b.drop_last()) + 1,
            levenshtein_spec(a.drop_last(), b.drop_last()) + if a.last() != b.last() {
                1nat
            } else {
                0nat
            },
        )
    }
}

/// The two ways of measuring how far apart two UMIs are.
#[derive(Debug, Clone, Copy, PartialEq, Eq, Structural)]
pub enum Metric {
    Hamming,
    Levenshtein,
}

pub open spec fn distance_spec(metric: Metric, a: Seq<u8>, b: Seq<u8>) -> nat {
    match metric {
        Metric::Hamming => hamming_spec(a, b),
        Metric::Levenshtein => levenshtein_spec(a, b),
    }
}

/// Relies on `bio::alignment::distance::simd::hamming`: the number of
/// positions at which two texts differ; it panics on texts of different
/// lengths.
#[verifier::external_body]
fn hamming(a: &[u8], b: &[u8]) -> (r: u64)
    requires
        a@.len() == b@.len(),
    ensures
        r == hamming_spec(a@, b@),
{
    bio::alignment::distance::simd::hamming(a, b)
}

/// Relies on `bio::alignment::distance::simd::levenshtein`: the edit
/// distance between two texts.
#[verifier::external_body]
fn levenshtein(a: &[u8], b: &[u8]) -> (r: u32)
    ensures
        r == levenshtein_spec(a@, b@),
{
    bio::alignment::distance::simd::levenshtein(a, b)
}

/// The distance between two UMIs of equal length under `metric`.
pub fn distance(metric: Metric, a: &[u8], b: &[u8]) -> (r: u64)
    requires
        a@.len() == b@.len(),
    ensures
        r == distance_spec(metric, a@, b@),
{
    match metric {
        Metric::Hamming => hamming(a, b),
        Metric::Levenshtein => levenshtein(a, b) as u64,
    }
}

/// `k` distinct positions below `n`, in increasing order.
pub open spec fn is_combination(c: Seq<usize>, n: nat, k: nat) -> bool {
    &&& c.len() == k
    &&& forall|i: int| 0 <= i < c.len() ==> c[i] < n
    &&& forall|i: int, j: int| 0 <= i < j < c.len() ==> c[i] < c[j]
}

/// One of the bytes `A`, `T`, `C`, `G`.
pub open spec fn is_upper_base(b: u8) -> bool {
    b == 65 || b == 84 || b == 67 || b == 71
}

/// `k` bases, each `A`, `T`, `C` or `G`.
pub open spec fn is_substitution(s: Seq<u8>, k: nat) -> bool {
    &&& s.len() == k
    &&& forall|i: int| 0 <= i < s.len() ==> is_upper_base(s[i])
}

/// Relies on itertools' `combinations` on the range `0..n`: every way of
/// choosing `k` of the positions, each in the order of the range.
#[verifier::external_body]
pub(crate) fn position_combinations(n: usize, k: usize) -> (r: Vec<Vec<usize>>)
    ensures
        forall|i: int| 0 <= i < r@.len() ==> is_combination(#[trigger] r@[i]@, n as nat, k as nat),
        forall|c: Seq<usize>|
            is_combination(c, n as nat, k as nat) ==> exists|i: int|
                0 <= i < r@.len() && #[trigger] r@[i]@ == c,
{
    (0..n).combinations(k).collect()
}

/// Relies on itertools' `multi_cartesian_product` over `k` copies of the
/// bases `ATCG`: every sequence of `k` of these bases.
#[verifier::external_body]
pub(crate) fn base_substitutions(k: usize) -> (r: Vec<Vec<u8>>)
    requires
        k >= 1,
    ensures
        forall|i: int| 0 <= i < r@.len() ==> is_substitution(#[trigger] r@[i]@, k as nat),
        forall|s: Seq<u8>|
            is_substitution(s, k as nat) ==> exists|i: int|
                0 <= i < r@.len() && #[trigger] r@[i]@ == s,
{
    std::iter::repeat(b"ATCG".to_vec()).take(k).multi_cartesian_product().collect()
}

} // verus!
