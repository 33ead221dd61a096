//! Summary statistics over the flat point-to-camera distance list.
//!
//! Distances come in millimeters; the mean and the median are returned in
//! micrometers, so that the midpoint of two middle values is exact.
use vstd::prelude::*;
use vstd::relations::sorted_by;
use vstd::relations::total_ordering;
use vstd::seq_lib::lemma_sorted_unique;
use vstd::seq_lib::group_to_multiset_ensures;
use vstd::seq_lib::to_multiset_build;
use vstd::seq_lib::to_multiset_insert;

verus! {

/// The ordering the distance list is sorted by.
pub open spec fn dist_leq() -> spec_fn(u64, u64) -> bool {
    |x: u64, y: u64| x <= y
}

/// `dist_leq` is a total ordering.
pub proof fn lemma_dist_leq_total()
    ensures
        total_ordering(dist_leq()),
{
    assert forall|x: u64| #[trigger] dist_leq()(x, x) by {}
}

/// The distance list sorted ascending.
pub open spec fn spec_sorted_distances(s: Seq<u64>) -> Seq<u64> {
    s.sort_by(dist_leq())
}

/// Sum of a distance list.
pub open spec fn spec_seq_sum(s: Seq<u64>) -> int
    decreases s.len(),
{
    if s.len() == 0 {
        0
    } else {
        spec_seq_sum(s.drop_last()) + s.last()
    }
}

/// Mean of the list in micrometers: exactly `(sum * 1000) / len`, written
/// with the division split so that it can be computed without widening
/// beyond 128 bits; 0 for an empty list.
pub open spec fn spec_mean_um(s: Seq<u64>) -> int {
    if s.len() == 0 {
        0
    } else {
        let sum = spec_seq_sum(s);
        let n = s.len() as int;
        (sum / n) * 1_000 + ((sum % n) * 1_000) / n
    }
}

/// Median of the list in micrometers: the middle value of the sorted list
/// for odd length, the average of the two middle values for even length;
/// 0 for an empty list.
pub open spec fn spec_median_um(s: Seq<u64>) -> int {
    let t = spec_sorted_distances(s);
    let n = s.len() as int;
    if n == 0 {
        0
    } else if n % 2 == 0 {
        (t[n / 2 - 1] + t[n / 2]) * 500
    } else {
        t[n / 2] * 1_000
    }
}

/// A copy of the list sorted ascending.
pub fn sorted_copy(v: &Vec<u64>) -> (r: Vec<u64>)
    ensures
        r@ == spec_sorted_distances(v@),
        r@.len() == v@.len(),
        sorted_by(r@, dist_leq()),
{
    broadcast use group_to_multiset_ensures;

    let mut r: Vec<u64> = Vec::new();
    let mut i: usize = 0;
    while i < v.len()
        invariant
            i <= v@.len(),
            r@.len() == i,
            sorted_by(r@, dist_leq()),
            r@.to_multiset() == v@.subrange(0, i as int).to_multiset(),
        decreases v@.len() - i,
    {
        let x = v[i];
        let mut k: usize = 0;
        while k < r.len() && r[k] <= x
            invariant
                k <= r@.len(),
                forall|t: int| 0 <= t < k ==> r@[t] <= x,
            decreases r@.len() - k,
        {
            k = k + 1;
        }
        let ghost old_r = r@;
        r.insert(k, x);
        proof {
            assert forall|a: int, b: int| 0 <= a < b < r@.len() implies #[trigger] dist_leq()(
                r@[a],
                r@[b],
            ) by {
                assert(r@ == old_r.insert(k as int, x));
                if a < k && b < k {
                    assert(r@[a] == old_r[a] && r@[b] == old_r[b]);
                } else if a < k && b == k {
                    assert(r@[a] == old_r[a] && r@[b] == x);
                } else if a < k && b > k {
                    assert(r@[a] == old_r[a] && r@[b] == old_r[b - 1]);
                    if b - 1 >= k {
                        assert(old_r[k as int] > x || k as int == old_r.len());
                    }
                } else if a == k {
                    assert(r@[a] == x && r@[b] == old_r[b - 1]);
                    assert(b - 1 >= k);
                    assert(old_r[k as int] > x);
                    assert(dist_leq()(old_r[k as int], old_r[b - 1]) || k as int == b - 1);
                } else {
                    assert(r@[a] == old_r[a - 1] && r@[b] == old_r[b - 1]);
                }
            }
            to_multiset_insert(old_r, k as int, x);
            assert(v@.subrange(0, i + 1).drop_last() =~= v@.subrange(0, i as int));
            assert(v@.subrange(0, i + 1).last() == v@[i as int]);
            assert(v@.subrange(0, i + 1) =~= v@.subrange(0, i as int).push(x));
            assert(v@.subrange(0, i + 1).to_multiset() == v@.subrange(0, i as int).push(
                x,
            ).to_multiset());
            to_multiset_build(v@.subrange(0, i as int), x);
        }
        i = i + 1;
    }
    proof {
        assert(v@.subrange(0, v@.len() as int) =~= v@);
        lemma_dist_leq_total();
        v@.lemma_sort_by_ensures(dist_leq());
        lemma_sorted_unique(r@, v@.sort_by(dist_leq()), dist_leq());
    }
    r
}

/// Arithmetic mean of the distance list, in micrometers.
pub fn mean_um(v: &Vec<u64>) -> (r: u128)
    ensures
        r == spec_mean_um(v@),
{
    if v.len() == 0 {
        return 0;
    }
    let mut sum: u128 = 0;
    let mut i: usize = 0;
    while i < v.len()
        invariant
            i <= v@.len(),
            sum == spec_seq_sum(v@.subrange(0, i as int)),
            sum <= i * 0xFFFF_FFFF_FFFF_FFFF,
        decreases v@.len() - i,
    {
        proof {
            assert(v@.subrange(0, i + 1).drop_last() =~= v@.subrange(0, i as int));
            assert((i + 1) * 0xFFFF_FFFF_FFFF_FFFF == i * 0xFFFF_FFFF_FFFF_FFFF
                + 0xFFFF_FFFF_FFFF_FFFF) by (nonlinear_arith);
            assert(i * 0xFFFF_FFFF_FFFF_FFFF <= 0xFFFF_FFFF_FFFF_FFFF_0000_0000_0000_0000)
                by (nonlinear_arith)
                requires
                    0 <= i <= 0xFFFF_FFFF_FFFF_FFFF,
            ;
        }
        sum = sum + v[i] as u128;
        i = i + 1;
    }
    proof {
        assert(v@.subrange(0, v@.len() as int) =~= v@);
    }
    let n: u128 = v.len() as u128;
    let q: u128 = sum / n;
    let rem: u128 = sum % n;
    proof {
        assert(q <= 0xFFFF_FFFF_FFFF_FFFF) by (nonlinear_arith)
            requires
                q == sum / n,
                1 <= n,
                sum <= n * 0xFFFF_FFFF_FFFF_FFFF,
        ;
    }
    q * 1_000 + (rem * 1_000) / n
}

/// Median of the distance list, in micrometers.
pub fn median_um(v: &Vec<u64>) -> (r: u128)
    ensures
        r == spec_median_um(v@),
{
    if v.len() == 0 {
        return 0;
    }
    let s = sorted_copy(v);
    let n = s.len();
    if n % 2 == 0 {
        let a = s[n / 2 - 1];
        let b = s[n / 2];
        (a as u128 + b as u128) * 500
    } else {
        (s[n / 2] as u128) * 1_000
    }
}

/// Sum of a constant list.
proof fn lemma_sum_constant(s: Seq<u64>)
    requires
        forall|i: int| 0 <= i < s.len() ==> #[trigger] s[i] == s[0],
    ensures
        spec_seq_sum(s) == s.len() * (if s.len() == 0 {
            0int
        } else {
            s[0] as int
        }),
    decreases s.len(),
{
    if s.len() > 0 {
        let n = s.len() as int;
        let v = s[0] as int;
        let d = s.drop_last();
        assert forall|i: int| 0 <= i < d.len() implies #[trigger] d[i] == d[0] by {
            assert(d[i] == s[i]);
            assert(d[0] == s[0]);
        }
        lemma_sum_constant(d);
        assert(s.last() == s[s.len() - 1]);
        if s.len() == 1 {
            assert(spec_seq_sum(s) == spec_seq_sum(d) + s.last());
            assert(n * v == v) by (nonlinear_arith)
                requires
                    n == 1,
            ;
        } else {
            assert(d[0] == s[0]);
            assert(spec_seq_sum(s) == (n - 1) * v + s.last());
            assert(n * v == (n - 1) * v + v) by (nonlinear_arith);
        }
    }
}

/// The mean and the median agree on a list that repeats one value: both
/// equal that value (scaled to micrometers).
pub proof fn lemma_mean_median_agree_on_constant(s: Seq<u64>)
    requires
        s.len() > 0,
        forall|i: int| 0 <= i < s.len() ==> #[trigger] s[i] == s[0],
    ensures
        spec_mean_um(s) == s[0] * 1_000,
        spec_median_um(s) == s[0] * 1_000,
{
    broadcast use group_to_multiset_ensures;

    let v = s[0] as int;
    let n = s.len() as int;
    lemma_sum_constant(s);
    assert((n * v) / n == v && (n * v) % n == 0) by (nonlinear_arith)
        requires
            1 <= n,
    ;
    let t = spec_sorted_distances(s);
    lemma_dist_leq_total();
    s.lemma_sort_by_ensures(dist_leq());
    assert(t.to_multiset().len() == s.to_multiset().len());
    assert(t.len() == s.len());
    assert forall|i: int| 0 <= i < t.len() implies t[i] == s[0] by {
        assert(t.to_multiset().count(t[i]) > 0) by {
            assert(t.contains(t[i]));
        }
        assert(s.contains(t[i]));
    }
    if n % 2 == 0 {
        assert(t[n / 2 - 1] == s[0] && t[n / 2] == s[0]);
        assert((s[0] as int + s[0] as int) * 500 == s[0] * 1_000) by (nonlinear_arith);
    }
}

} // verus!
