//! Frequency distributions of simulated outcomes and their percentile cut-points.
use std::collections::BTreeMap;
use vstd::std_specs::btree::increasing_seq;
use vstd::std_specs::cmp::OrdSpec;
use vstd::std_specs::iter::IteratorSpec;
use vstd::prelude::*;

verus! {

/// The 25th, 50th and 75th percentile outcomes of a distribution.
#[derive(Debug, Clone, Copy, PartialEq, Eq)]
pub struct Percentiles {
    pub _25th: i32,
    pub _50th: i32,
    pub _75th: i32,
}

/// How often `dist` recorded the outcome `key` (zero when it never did).
pub open spec fn count_at(dist: Map<i32, u32>, key: int) -> nat {
    if i32::MIN <= key <= i32::MAX && dist.contains_key(key as i32) {
        dist[key as i32] as nat
    } else {
        0
    }
}

/// How many recorded outcomes are at most `key`.
pub open spec fn cumulative_count(dist: Map<i32, u32>, key: int) -> nat
    decreases key - i32::MIN + 1,
{
    if key < i32::MIN {
        0
    } else {
        cumulative_count(dist, key - 1) + count_at(dist, key)
    }
}

/// How many outcomes `dist` recorded in all.
pub open spec fn total_count(dist: Map<i32, u32>) -> nat {
    cumulative_count(dist, i32::MAX as int)
}

/// The cumulative count that the `pct` percentile of `total` trials must reach.
pub open spec fn percentile_target(total: u32, pct: nat) -> nat {
    (total * pct / 100) as nat
}

/// `key` is the smallest recorded outcome whose cumulative count reaches `target`.
pub open spec fn is_percentile_key(dist: Map<i32, u32>, target: nat, key: i32) -> bool {
    &&& dist.contains_key(key)
    &&& cumulative_count(dist, key as int) >= target
    &&& forall|j: i32| #[trigger]
        dist.contains_key(j) && j < key ==> cumulative_count(dist, j as int) < target
}

/// The percentiles that `get_percentiles` reads from `dist` for `total` trials.
pub open spec fn percentiles_of(dist: Map<i32, u32>, total: u32, p: Percentiles) -> bool {
    &&& is_percentile_key(dist, percentile_target(total, 25), p._25th)
    &&& is_percentile_key(dist, percentile_target(total, 50), p._50th)
    &&& is_percentile_key(dist, percentile_target(total, 75), p._75th)
}

/// Cumulative counts never decrease.
pub proof fn lemma_cumulative_monotonic(dist: Map<i32, u32>, a: int, b: int)
    requires
        a <= b,
    ensures
        cumulative_count(dist, a) <= cumulative_count(dist, b),
    decreases b - a,
{
    if a < b {
        lemma_cumulative_monotonic(dist, a, b - 1);
    }
}

/// Nothing is counted in an empty tally.
pub proof fn lemma_cumulative_empty(at: int)
    ensures
        cumulative_count(Map::<i32, u32>::empty(), at) == 0,
    decreases at - i32::MIN + 1,
{
    if at >= i32::MIN {
        lemma_cumulative_empty(at - 1);
    }
}

/// Between two outcomes with nothing recorded strictly between them the cumulative count is flat.
pub proof fn lemma_cumulative_gap(dist: Map<i32, u32>, a: int, b: int)
    requires
        a < b <= i32::MAX + 1,
        forall|k: i32| a < k < b ==> !#[trigger] dist.contains_key(k),
    ensures
        cumulative_count(dist, b - 1) == cumulative_count(dist, a),
    decreases b - a,
{
    if a < b - 1 {
        lemma_cumulative_gap(dist, a, b - 1);
        if b - 1 >= i32::MIN {
            assert(!dist.contains_key((b - 1) as i32));
        }
    }
}

/// Every recorded count is part of the total.
pub proof fn lemma_count_within_total(dist: Map<i32, u32>, key: i32)
    ensures
        count_at(dist, key as int) <= total_count(dist),
{
    lemma_cumulative_monotonic(dist, key as int, i32::MAX as int);
}

/// Recording one more `key` adds one to every cumulative count at or above `key`.
pub proof fn lemma_cumulative_record(dist: Map<i32, u32>, key: i32, at: int)
    requires
        dist.contains_key(key) ==> dist[key] < u32::MAX,
    ensures
        cumulative_count(dist.insert(key, (count_at(dist, key as int) + 1) as u32), at)
            == cumulative_count(dist, at) + if at >= key { 1nat } else { 0nat },
    decreases at - i32::MIN + 1,
{
    let next = dist.insert(key, (count_at(dist, key as int) + 1) as u32);
    if at >= i32::MIN {
        lemma_cumulative_record(dist, key, at - 1);
        if at <= i32::MAX {
            assert(count_at(next, at) == count_at(dist, at) + if at == key { 1nat } else { 0nat });
        }
    }
}

/// Reads the 25th, 50th and 75th percentile outcomes from `results`, a tally of outcomes
/// over `total` trials: each is the smallest outcome whose cumulative count reaches
/// `total * pct / 100`. There is no result for an empty tally, nor where the tally
/// holds fewer outcomes than the 75th percentile must reach.
pub fn get_percentiles(results: &BTreeMap<i32, u32>, total: u32) -> (r: Option<Percentiles>)
    ensures
        r is Some <==> results@.len() > 0 && percentile_target(total, 75) <= total_count(
            results@,
        ),
        r matches Some(p) ==> percentiles_of(results@, total, p),
{
    broadcast use vstd::std_specs::btree::group_btree_axioms;

    if results.len() == 0 {
        return None;
    }
    let ghost dist = results@;
    let targets: Vec<u64> = vec![
        total as u64 * 25 / 100,
        total as u64 * 50 / 100,
        total as u64 * 75 / 100,
    ];
    assert(targets@[0] <= targets@[1] <= targets@[2]);
    let mut pcts: Vec<i32> = Vec::new();
    let mut count: u64 = 0;
    let ghost mut last: int = i32::MIN - 1;
    let entries = results.iter();
    proof {
        let keys = entries.remaining().map_values(|kv: (&i32, &u32)| *kv.0);
        assert(increasing_seq(keys));
        assert forall|a: int, b: int|
            0 <= a < b < entries.remaining().len() implies *(#[trigger] entries.remaining()[a]).0
            < *(#[trigger] entries.remaining()[b]).0 by {
            assert(keys[a].cmp_spec(&keys[b]) is Less);
        }
    }
    for kv in it: entries
        invariant
            dist == results@,
            dist.len() > 0,
            targets@ == seq![
                percentile_target(total, 25) as u64,
                percentile_target(total, 50) as u64,
                percentile_target(total, 75) as u64,
            ],
            targets@[0] <= targets@[1] <= targets@[2],
            forall|a: int|
                0 <= a < it.seq().len() ==> dist.contains_key(#[trigger] *it.seq()[a].0)
                    && dist[*it.seq()[a].0] == *it.seq()[a].1,
            forall|a: int, b: int|
                0 <= a < b < it.seq().len() ==> *(#[trigger] it.seq()[a]).0
                    < *(#[trigger] it.seq()[b]).0,
            forall|k: i32| #[trigger]
                dist.contains_key(k) ==> exists|a: int|
                    0 <= a < it.seq().len() && *(#[trigger] it.seq()[a]).0 == k,
            it.seq().len() > 0,
            forall|j: i32| #[trigger]
                dist.contains_key(j) && j > last ==> exists|a: int|
                    it.index() <= a < it.seq().len() && *(#[trigger] it.seq()[a]).0 == j,
            pcts.len() <= 3,
            it.index() == 0 ==> last == i32::MIN - 1,
            it.index() > 0 ==> i32::MIN <= last,
            it.index() > 0 ==> last == *it.seq()[it.index() - 1].0,
            pcts.len() < 3 ==> count == cumulative_count(dist, last),
            pcts.len() < 3 && it.index() > 0 ==> count < targets@[pcts.len() as int],
            forall|j: int|
                0 <= j < pcts.len() ==> is_percentile_key(
                    dist,
                    targets@[j] as nat,
                    #[trigger] pcts@[j],
                ),
    {
        let (k, v) = kv;
        let ghost i = it.index();
        proof {
            // nothing is recorded strictly between the previous key and this one
            assert forall|j: i32| last < j < *k implies !dist.contains_key(j) by {
                if dist.contains_key(j) {
                    let a = choose|a: int| 0 <= a < it.seq().len() && *it.seq()[a].0 == j;
                    if a < i {
                        assert(*it.seq()[a].0 <= last) by {
                            if a < i - 1 {
                                assert(*it.seq()[a].0 < *it.seq()[i - 1].0);
                            }
                        }
                    } else if a > i {
                        assert(*it.seq()[i].0 < *it.seq()[a].0);
                    }
                }
            }
            lemma_cumulative_gap(dist, last, *k as int);
            assert(cumulative_count(dist, *k as int) == cumulative_count(dist, last) + *v);
        }
        if pcts.len() < 3 {
            proof {
                // every recorded outcome below this key has a cumulative count below the pending target
                assert forall|j: i32| #[trigger] dist.contains_key(j) && j < *k implies cumulative_count(
                    dist,
                    j as int,
                ) < targets@[pcts.len() as int] by {
                    let a = choose|a: int| 0 <= a < it.seq().len() && *it.seq()[a].0 == j;
                    if a >= i {
                        if a > i {
                            assert(*it.seq()[i].0 < *it.seq()[a].0);
                        }
                    } else {
                        if a < i - 1 {
                            assert(*it.seq()[a].0 < *it.seq()[i - 1].0);
                        }
                        lemma_cumulative_monotonic(dist, j as int, last);
                    }
                }
            }
            count = count + *v as u64;
            while pcts.len() < 3 && count >= targets[pcts.len()]
                invariant
                    dist == results@,
                    dist.contains_key(*k),
                    targets@.len() == 3,
                    targets@[0] <= targets@[1] <= targets@[2],
                    pcts.len() <= 3,
                    count == cumulative_count(dist, *k as int),
                    pcts.len() < 3 ==> forall|j: i32| #[trigger]
                        dist.contains_key(j) && j < *k ==> cumulative_count(dist, j as int)
                            < targets@[pcts.len() as int],
                    forall|j: int|
                        0 <= j < pcts.len() ==> is_percentile_key(
                            dist,
                            targets@[j] as nat,
                            #[trigger] pcts@[j],
                        ),
                decreases 3 - pcts.len(),
            {
                pcts.push(*k);
            }
        }
        proof {
            last = *k as int;
        }
    }
    proof {
        if pcts.len() < 3 {
            assert forall|j: i32| last < j < i32::MAX + 1 implies !dist.contains_key(j) by {}
            lemma_cumulative_gap(dist, last, i32::MAX + 1);
        } else {
            lemma_cumulative_monotonic(dist, pcts@[2] as int, i32::MAX as int);
        }
    }
    if pcts.len() < 3 {
        return None;
    }
    Some(Percentiles { _25th: pcts[0], _50th: pcts[1], _75th: pcts[2] })
}

} // verus!
