//! What the statistics of a set of samples are: sums, ascending order and
//! ranks, stated over sequences of unsigned 64-bit samples.

use vstd::prelude::*;
use vstd::relations::{sorted_by, total_ordering};
use vstd::seq_lib::lemma_sorted_unique;

verus! {

/// The sum of the samples.
pub open spec fn sum(s: Seq<u64>) -> nat
    decreases s.len(),
{
    if s.len() == 0 {
        0
    } else {
        sum(s.drop_last()) + s.last() as nat
    }
}

/// The sum, over the samples `x`, of the squares of `count * x - total`.
/// Where `total / count` is a mean, this is `count * count` times the sum of
/// the squared deviations of the samples from that mean.
pub open spec fn scaled_squares(s: Seq<u64>, total: int, count: int) -> nat
    decreases s.len(),
{
    if s.len() == 0 {
        0
    } else {
        let d = count * s.last() - total;
        scaled_squares(s.drop_last(), total, count) + (d * d) as nat
    }
}

/// No sample is greater than one that follows it.
pub open spec fn ascending(s: Seq<u64>) -> bool {
    forall|i: int, j: int| 0 <= i <= j < s.len() ==> s[i] <= s[j]
}

/// `s` holds the samples of `m`, each as often as `m` does, in ascending order.
pub open spec fn is_sort_of(s: Seq<u64>, m: Seq<u64>) -> bool {
    ascending(s) && s.to_multiset() == m.to_multiset()
}

/// The order in which samples are sorted.
pub open spec fn at_most() -> spec_fn(u64, u64) -> bool {
    |a: u64, b: u64| a <= b
}

/// The samples of `m` in ascending order.
pub open spec fn sorted(m: Seq<u64>) -> Seq<u64> {
    m.sort_by(at_most())
}

/// The zero-based rank that the fraction `part / whole` selects among `n`
/// samples in ascending order: `n * part / whole`, rounded down.
pub open spec fn rank(n: nat, part: nat, whole: nat) -> nat {
    n * part / whole
}

/// `v` is one of the samples, and none of them is greater.
pub open spec fn is_greatest(m: Seq<u64>, v: u64) -> bool {
    &&& exists|i: int| 0 <= i < m.len() && m[i] == v
    &&& forall|i: int| 0 <= i < m.len() ==> m[i] <= v
}

pub proof fn lemma_at_most_is_total()
    ensures
        total_ordering(at_most()),
{
    let leq = at_most();
    assert(forall|x: u64, y: u64| #[trigger] leq(x, y) <==> x <= y);
}

proof fn lemma_ascending_is_sorted_by(s: Seq<u64>)
    ensures
        ascending(s) <==> sorted_by(s, at_most()),
{
    let leq = at_most();
    assert(forall|x: u64, y: u64| #[trigger] leq(x, y) <==> x <= y);
    if sorted_by(s, leq) {
        assert forall|i: int, j: int| 0 <= i <= j < s.len() implies s[i] <= s[j] by {
            if i < j {
                assert(leq(s[i], s[j]));
            }
        }
    }
}

/// `sorted(m)` is a sort of `m`: it has the samples of `m`, in ascending order.
pub proof fn lemma_sorted_is_sort(m: Seq<u64>)
    ensures
        is_sort_of(sorted(m), m),
        sorted(m).len() == m.len(),
{
    lemma_at_most_is_total();
    m.lemma_sort_by_ensures(at_most());
    lemma_ascending_is_sorted_by(sorted(m));
    m.to_multiset_ensures();
    sorted(m).to_multiset_ensures();
}

/// There is one sort of `m` only.
pub proof fn lemma_sort_is_unique(s: Seq<u64>, m: Seq<u64>)
    requires
        is_sort_of(s, m),
    ensures
        s == sorted(m),
{
    lemma_sorted_is_sort(m);
    lemma_at_most_is_total();
    lemma_ascending_is_sorted_by(s);
    lemma_ascending_is_sorted_by(sorted(m));
    lemma_sorted_unique(s, sorted(m), at_most());
}

/// The last of the samples in ascending order is the greatest of them.
pub proof fn lemma_last_sorted_is_greatest(m: Seq<u64>)
    requires
        m.len() > 0,
    ensures
        is_greatest(m, sorted(m).last()),
{
    let s = sorted(m);
    lemma_sorted_is_sort(m);
    s.to_multiset_ensures();
    m.to_multiset_ensures();
    let v = s.last();
    assert(s[s.len() - 1] == v);
    assert(s.contains(v));
    assert(m.to_multiset().count(v) > 0);
    assert(m.contains(v));
    let k = choose|k: int| 0 <= k < m.len() && m[k] == v;
    assert(0 <= k < m.len() && m[k] == v);
    assert forall|i: int| 0 <= i < m.len() implies m[i] <= v by {
        assert(m.contains(m[i]));
        assert(s.to_multiset().count(m[i]) > 0);
        assert(s.contains(m[i]));
        let j = choose|j: int| 0 <= j < s.len() && s[j] == m[i];
        assert(s[j] <= s[s.len() - 1]);
    }
}

/// A rank that a fraction below one selects among `n > 0` samples is the
/// rank of one of them.
pub proof fn lemma_rank_in_bounds(n: nat, part: nat, whole: nat)
    requires
        n > 0,
        part < whole,
    ensures
        rank(n, part, whole) < n,
{
    assert(n * part / whole < n) by (nonlinear_arith)
        requires
            n > 0,
            part < whole,
            whole > 0,
    {
        assert(n * part < n * whole);
    }
}

/// The samples sum to no more than as many times the greatest `u64`.
pub proof fn lemma_sum_bound(s: Seq<u64>)
    ensures
        sum(s) <= s.len() * u64::MAX,
    decreases s.len(),
{
    if s.len() > 0 {
        lemma_sum_bound(s.drop_last());
        assert(s.len() * u64::MAX == (s.len() - 1) * u64::MAX + u64::MAX) by (nonlinear_arith);
    }
}

/// The greatest square of a difference of two numbers below two to the
/// power of 128: the square of the greatest `u128`.
pub open spec fn greatest_square() -> int {
    0xffff_ffff_ffff_ffff_ffff_ffff_ffff_fffe_0000_0000_0000_0000_0000_0000_0000_0001int
}

/// The squares of the samples' scaled differences from a mean sum to no
/// more than as many times the greatest square, which 384 bits hold.
pub proof fn lemma_scaled_squares_bound(s: Seq<u64>, total: int, count: int)
    requires
        0 <= total <= u128::MAX,
        0 <= count <= u64::MAX,
    ensures
        scaled_squares(s, total, count) <= s.len() * greatest_square(),
    decreases s.len(),
{
    if s.len() > 0 {
        lemma_scaled_squares_bound(s.drop_last(), total, count);
        let x = s.last() as int;
        let d = count * x - total;
        assert(0 <= count * x <= 0xffff_ffff_ffff_fffe_0000_0000_0000_0001) by (nonlinear_arith)
            requires
                0 <= count <= 0xffff_ffff_ffff_ffff,
                0 <= x <= 0xffff_ffff_ffff_ffff,
        ;
        assert(d * d <= greatest_square()) by (nonlinear_arith)
            requires
                -0xffff_ffff_ffff_ffff_ffff_ffff_ffff_ffff <= d
                    <= 0xffff_ffff_ffff_ffff_ffff_ffff_ffff_ffff,
                greatest_square() == 0xffff_ffff_ffff_ffff_ffff_ffff_ffff_ffff
                    * 0xffff_ffff_ffff_ffff_ffff_ffff_ffff_ffff,
        ;
        assert(d * d >= 0) by (nonlinear_arith);
        let n = s.len() as int;
        assert(s.drop_last().len() == n - 1);
        assert(n * greatest_square() == (n - 1) * greatest_square() + greatest_square())
            by (nonlinear_arith);
    }
}

/// `slice::sort_unstable` on samples: it leaves the same samples, each as
/// often as before, in ascending order. Which of two equal samples comes
/// first cannot be told, and makes no difference to the sequence.
#[verifier::external_body]
pub(crate) fn sort_ascending(v: &mut Vec<u64>)
    ensures
        ascending(final(v)@),
        final(v)@.to_multiset() == old(v)@.to_multiset(),
{
    v.sort_unstable();
}

} // verus!
