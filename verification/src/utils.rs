//! Statistics helpers: exact arithmetic mean and median of integer samples.

use vstd::prelude::*;

verus! {

/// An exact rational value `num / den`. Stands in for the real-valued
/// statistics of the detector so every computation stays exact.
#[derive(Clone, Copy, PartialEq, Eq, Structural, Debug)]
pub struct Ratio {
    pub num: i128,
    pub den: i128,
}

/// Sum of a sequence of samples, as an unbounded integer.
pub open spec fn sum_int(s: Seq<i64>) -> int
    decreases s.len(),
{
    if s.len() == 0 {
        0
    } else {
        sum_int(s.drop_last()) + s.last()
    }
}

/// The sum of `n` samples lies within `n` times the sample range.
pub proof fn lemma_sum_int_bounds(s: Seq<i64>)
    ensures
        -(s.len() as int) * 0x8000_0000_0000_0000 <= sum_int(s)
            <= (s.len() as int) * 0x7FFF_FFFF_FFFF_FFFF,
    decreases s.len(),
{
    if s.len() > 0 {
        lemma_sum_int_bounds(s.drop_last());
    }
}

/// The ordering under which samples are sorted before taking the median.
pub open spec fn i64_leq() -> spec_fn(i64, i64) -> bool {
    |a: i64, b: i64| a <= b
}

pub proof fn lemma_i64_leq_total_ordering()
    ensures
        vstd::relations::total_ordering(i64_leq()),
{
    assert(vstd::relations::reflexive(i64_leq()));
    assert(vstd::relations::antisymmetric(i64_leq()));
    assert(vstd::relations::transitive(i64_leq()));
    assert(vstd::relations::strongly_connected(i64_leq()));
}

/// The ascending rearrangement of a sample sequence.
pub open spec fn sorted_of(s: Seq<i64>) -> Seq<i64> {
    s.sort_by(i64_leq())
}

/// The index the median is read from: the middle element for odd lengths,
/// the element just below the middle for even lengths (the detector's
/// deliberate simplification, not the textbook two-element average).
pub open spec fn median_index(len: int) -> int {
    if len % 2 == 0 {
        len / 2 - 1
    } else {
        len / 2
    }
}

/// The median of a sample sequence under the documented indexing.
pub open spec fn median_of(s: Seq<i64>) -> i64 {
    sorted_of(s)[median_index(s.len() as int)]
}

/// Arithmetic mean of a non-empty sample set, returned as the exact
/// rational `sum / count`.
pub fn mean(values: &[i64]) -> (r: Ratio)
    requires
        values@.len() >= 1,
    ensures
        r.num == sum_int(values@),
        r.den == values@.len() as int,
{
    let mut acc: i128 = 0;
    let mut i: usize = 0;
    while i < values.len()
        invariant
            0 <= i <= values@.len(),
            acc == sum_int(values@.take(i as int)),
        decreases values@.len() - i,
    {
        proof {
            lemma_sum_int_bounds(values@.take(i as int));
            assert(values@.take(i + 1).drop_last() =~= values@.take(i as int));
            assert(values@.take(i + 1).last() == values@[i as int]);
        }
        acc = acc + values[i] as i128;
        i = i + 1;
    }
    proof {
        assert(values@.take(values@.len() as int) =~= values@);
    }
    Ratio { num: acc, den: values.len() as i128 }
}

/// Sorts the samples ascending by repeatedly extracting a minimum.
fn sort_samples(values: &[i64]) -> (out: Vec<i64>)
    ensures
        vstd::relations::sorted_by(out@, i64_leq()),
        out@.to_multiset() == values@.to_multiset(),
{
    broadcast use vstd::seq_lib::group_to_multiset_ensures;
    broadcast use vstd::multiset::group_multiset_axioms;

    let mut rest: Vec<i64> = Vec::new();
    let mut i: usize = 0;
    while i < values.len()
        invariant
            0 <= i <= values@.len(),
            rest@ == values@.take(i as int),
        decreases values@.len() - i,
    {
        rest.push(values[i]);
        proof {
            assert(values@.take(i + 1) =~= values@.take(i as int).push(values@[i as int]));
        }
        i = i + 1;
    }
    proof {
        assert(values@.take(values@.len() as int) =~= values@);
    }

    let mut out: Vec<i64> = Vec::new();
    while rest.len() > 0
        invariant
            vstd::relations::sorted_by(out@, i64_leq()),
            out@.to_multiset().add(rest@.to_multiset()) == values@.to_multiset(),
            forall|a: int, b: int|
                0 <= a < out@.len() && 0 <= b < rest@.len() ==> out@[a] <= rest@[b],
        decreases rest@.len(),
    {
        let mut m: usize = 0;
        let mut k: usize = 1;
        while k < rest.len()
            invariant
                rest@.len() > 0,
                0 <= m < rest@.len(),
                1 <= k <= rest@.len(),
                forall|j: int| 0 <= j < k ==> rest@[m as int] <= rest@[j],
            decreases rest@.len() - k,
        {
            if rest[k] < rest[m] {
                m = k;
            }
            k = k + 1;
        }
        let ghost old_out = out@;
        let ghost old_rest = rest@;
        let x = rest.remove(m);
        out.push(x);
        proof {
            broadcast use vstd::seq_lib::group_to_multiset_ensures;
            broadcast use vstd::multiset::group_multiset_axioms;

            assert(out@.to_multiset().add(rest@.to_multiset())
                == old_out.to_multiset().add(old_rest.to_multiset())) by {
                assert(out@ == old_out.push(x));
                assert(rest@ == old_rest.remove(m as int));
                assert(old_out.push(x).to_multiset() =~= old_out.to_multiset().insert(x));
                assert(old_rest.remove(m as int).to_multiset()
                    =~= old_rest.to_multiset().remove(old_rest[m as int]));
                assert(out@.to_multiset() =~= old_out.to_multiset().insert(x));
                assert(rest@.to_multiset() =~= old_rest.to_multiset().remove(x));
                assert(old_rest.to_multiset().count(x) >= 1);
                assert(out@.to_multiset().add(rest@.to_multiset())
                    =~= old_out.to_multiset().add(old_rest.to_multiset()));
            }
            assert(vstd::relations::sorted_by(out@, i64_leq())) by {
                assert forall|a: int, b: int| 0 <= a < b < out@.len() implies
                    i64_leq()(out@[a], out@[b]) by {
                    if b == out@.len() - 1 {
                        assert(out@[b] == old_rest[m as int]);
                    }
                }
            }
            assert forall|a: int, b: int|
                0 <= a < out@.len() && 0 <= b < rest@.len() implies out@[a] <= rest@[b] by {
                assert(rest@[b] == if b < m as int { old_rest[b] } else { old_rest[b + 1] });
                assert(old_rest[m as int] <= rest@[b]);
                if a < out@.len() - 1 {
                    assert(out@[a] == old_out[a]);
                }
            }
        }
    }
    proof {
        assert(out@.to_multiset().add(rest@.to_multiset()) =~= out@.to_multiset());
    }
    out
}

/// Median of a non-empty sample set: sorts an ascending copy and reads the
/// middle element; for even lengths it reads the element just below the
/// middle (the mean of that one-element slice), exactly as the threshold
/// tuning expects.
pub fn median(values: &[i64]) -> (r: i64)
    requires
        values@.len() >= 1,
    ensures
        r == median_of(values@),
{
    let sorted = sort_samples(values);
    proof {
        broadcast use vstd::seq_lib::group_to_multiset_ensures;

        lemma_i64_leq_total_ordering();
        values@.lemma_sort_by_ensures(i64_leq());
        vstd::seq_lib::lemma_sorted_unique(sorted@, sorted_of(values@), i64_leq());
        assert(sorted@.to_multiset().len() == values@.to_multiset().len());
        assert(sorted@.len() == values@.len());
    }
    let middle_index = sorted.len() / 2;
    if sorted.len() % 2 == 0 {
        sorted[middle_index - 1]
    } else {
        sorted[middle_index]
    }
}

} // verus!
