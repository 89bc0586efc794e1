//! Resampling of return series and the Monte Carlo simulation of one symbol.
use crate::distribution::{
    count_at, get_percentiles, lemma_count_within_total, lemma_cumulative_empty,
    lemma_cumulative_record, percentiles_of, total_count, Percentiles,
};
use rand::Rng;
use std::collections::BTreeMap;
use vstd::prelude::*;

verus! {

/// The simulation result of one symbol: its percentile set and the tally it came from.
#[derive(Debug)]
pub struct Prediction {
    pub symbol: String,
    pub percentiles: Percentiles,
    pub data: Option<BTreeMap<i32, u32>>,
}

/// Relies on rand's `thread_rng` and `Rng::gen_range`: a uniform draw from `0..count`,
/// which panics only on an empty range.
#[verifier::external_body]
fn random_index(count: usize) -> (r: usize)
    requires
        count > 0,
    ensures
        r < count,
{
    rand::thread_rng().gen_range(0..count)
}

/// `path` has `periods` elements, each one of `input`; it is empty where `input` is.
pub open spec fn is_resampled<T>(input: Seq<T>, periods: nat, path: Seq<T>) -> bool {
    &&& input.len() == 0 ==> path.len() == 0
    &&& input.len() > 0 ==> path.len() == periods
    &&& forall|i: int| 0 <= i < path.len() ==> input.contains(#[trigger] path[i])
}

/// Builds the path that the drawn indices `draws` pick from `input`, in draw order.
pub fn select_path<T: Copy>(input: &Vec<T>, draws: &Vec<usize>) -> (r: Vec<T>)
    requires
        forall|i: int| 0 <= i < draws.len() ==> #[trigger] draws@[i] < input.len(),
    ensures
        r.len() == draws.len(),
        forall|i: int| 0 <= i < draws.len() ==> #[trigger] r@[i] == input@[draws@[i] as int],
{
    let mut path: Vec<T> = Vec::new();
    let mut i: usize = 0;
    while i < draws.len()
        invariant
            i <= draws.len(),
            path.len() == i,
            forall|i: int| 0 <= i < draws.len() ==> #[trigger] draws@[i] < input.len(),
            forall|j: int| 0 <= j < i ==> #[trigger] path@[j] == input@[draws@[j] as int],
        decreases draws.len() - i,
    {
        path.push(input[draws[i]]);
        i = i + 1;
    }
    path
}

/// Draws a path of `number_of_periods` elements from `input`, each uniformly and with
/// replacement; an empty `input` gives an empty path.
pub fn simulate_period<T: Copy>(input: &Vec<T>, number_of_periods: u32) -> (r: Vec<T>)
    ensures
        is_resampled(input@, number_of_periods as nat, r@),
{
    let count = input.len();
    if count == 0 {
        return Vec::new();
    }
    let mut draws: Vec<usize> = Vec::new();
    let mut i: u32 = 0;
    while i < number_of_periods
        invariant
            count == input.len() > 0,
            i <= number_of_periods,
            draws.len() == i,
            forall|j: int| 0 <= j < draws.len() ==> #[trigger] draws@[j] < input.len(),
        decreases number_of_periods - i,
    {
        draws.push(random_index(count));
        i = i + 1;
    }
    let path = select_path(input, &draws);
    assert forall|j: int| 0 <= j < path.len() implies input@.contains(#[trigger] path@[j]) by {
        assert(path@[j] == input@[draws@[j] as int]);
    }
    path
}

/// Adds one occurrence of `outcome` to the tally `results`.
pub fn record_outcome(results: &mut BTreeMap<i32, u32>, outcome: i32)
    requires
        total_count(old(results)@) < u32::MAX,
    ensures
        final(results)@ == old(results)@.insert(
            outcome,
            (count_at(old(results)@, outcome as int) + 1) as u32,
        ),
        final(results)@[outcome] == count_at(old(results)@, outcome as int) + 1,
        total_count(final(results)@) == total_count(old(results)@) + 1,
{
    broadcast use vstd::std_specs::btree::group_btree_axioms;

    let previous: u32 = match results.get(&outcome) {
        Some(c) => *c,
        None => 0,
    };
    proof {
        lemma_count_within_total(results@, outcome);
        lemma_cumulative_record(results@, outcome, i32::MAX as int);
    }
    results.insert(outcome, previous + 1);
}

/// `prediction` is what simulating `data` under `symbol` gives: a tally of
/// `number_of_simulations - 1` outcomes, each recorded at least once and each the
/// outcome of some resampled path of `periods` returns, and the percentiles read
/// from that tally over `number_of_simulations`.
pub open spec fn is_simulation_of<T, F: Fn(&Vec<T>) -> i32>(
    prediction: Prediction,
    symbol: String,
    data: Seq<T>,
    periods: u32,
    number_of_simulations: u32,
    outcome: F,
) -> bool {
    &&& prediction.symbol == symbol
    &&& prediction.data matches Some(d) && {
        &&& total_count(d@) == number_of_simulations - 1
        &&& percentiles_of(d@, number_of_simulations, prediction.percentiles)
        &&& forall|k: i32| #[trigger] d@.contains_key(k) ==> d@[k] >= 1
        &&& forall|k: i32| #[trigger]
            d@.contains_key(k) ==> exists|path: Vec<T>|
                is_resampled(data, periods as nat, path@) && outcome.ensures((&path,), k)
    }
}

/// Runs `number_of_simulations - 1` trials on `data` (the trial loop starts at one):
/// each resamples a path of `periods` returns and tallies the outcome that `outcome`
/// computes for it. With no trial there is no prediction; otherwise the prediction
/// holds the tally and the percentiles read from it over `number_of_simulations`.
pub fn monte_carlo_simulation<T: Copy, F: Fn(&Vec<T>) -> i32>(
    symbol: String,
    data: &Vec<T>,
    periods: u32,
    number_of_simulations: u32,
    outcome: &F,
) -> (r: Option<Prediction>)
    requires
        forall|path: &Vec<T>| outcome.requires((path,)),
    ensures
        r is Some <==> number_of_simulations >= 2,
        r matches Some(p) ==> is_simulation_of(
            p,
            symbol,
            data@,
            periods,
            number_of_simulations,
            *outcome,
        ),
{
    broadcast use vstd::std_specs::btree::group_btree_axioms;

    let mut results: BTreeMap<i32, u32> = BTreeMap::new();
    let mut trial: u32 = 1;
    proof {
        lemma_cumulative_empty(i32::MAX as int);
    }
    while trial < number_of_simulations
        invariant
            1 <= trial,
            trial <= number_of_simulations || trial == 1,
            total_count(results@) == trial - 1,
            results@.len() == 0 <==> trial == 1,
            forall|path: &Vec<T>| outcome.requires((path,)),
            forall|k: i32| #[trigger] results@.contains_key(k) ==> results@[k] >= 1,
            forall|k: i32| #[trigger]
                results@.contains_key(k) ==> exists|path: Vec<T>|
                    is_resampled(data@, periods as nat, path@) && outcome.ensures((&path,), k),
        decreases number_of_simulations - trial,
    {
        let path = simulate_period(data, periods);
        let calc = outcome(&path);
        record_outcome(&mut results, calc);
        trial = trial + 1;
    }
    if results.len() == 0 {
        return None;
    }
    let n = number_of_simulations;
    assert(n * 75 / 100 <= n - 1) by (nonlinear_arith)
        requires
            n >= 1,
    ;
    match get_percentiles(&results, number_of_simulations) {
        Some(percentiles) => Some(Prediction { symbol, percentiles, data: Some(results) }),
        None => None,
    }
}

} // verus!
