//! The whole run: simulate every symbol, rank the predictions and classify the ranking.
use crate::monte_carlo::{is_simulation_of, monte_carlo_simulation, Prediction};
use crate::ranking::{
    get_highest_x, is_ranked_descending, lemma_ranked_bounded_and_sorted,
    lemma_ranked_entries_from_input, ranked, MostCommonResult, TopPredictions,
};
use crate::thresholds::{
    classification_of, classify, get_thresholds, thresholds_of, Classification, Thresholds,
};
use vstd::prelude::*;

verus! {

/// The ranked entries with the thresholds derived from them and the bands of each entry.
pub struct Report {
    pub entries: Vec<TopPredictions>,
    pub thresholds: Thresholds,
    pub classes: Vec<Classification>,
}

/// `report` holds `entries`, their thresholds and the classification of each entry.
pub open spec fn is_report_of(report: Report, entries: Seq<TopPredictions>) -> bool {
    &&& report.entries@ == entries
    &&& report.thresholds == thresholds_of(entries)
    &&& report.classes@.len() == entries.len()
    &&& forall|i: int|
        0 <= i < entries.len() ==> #[trigger] report.classes@[i] == classification_of(
            entries[i],
            report.thresholds,
        )
}

/// Ranks `predictions` by their median outcome, keeps the best `top_x`, and classifies
/// them against the thresholds derived from that list.
pub fn output_results(top_x: usize, predictions: &Vec<Prediction>) -> (r: Report)
    ensures
        is_report_of(r, ranked(MostCommonResult {}, top_x as nat, predictions@)),
{
    let entries = get_highest_x(top_x, predictions, MostCommonResult {});
    let thresholds = get_thresholds(&entries);
    let mut classes: Vec<Classification> = Vec::new();
    let mut i: usize = 0;
    while i < entries.len()
        invariant
            i <= entries.len(),
            classes@.len() == i,
            thresholds == thresholds_of(entries@),
            forall|k: int|
                0 <= k < i ==> #[trigger] classes@[k] == classification_of(
                    entries@[k],
                    thresholds,
                ),
        decreases entries.len() - i,
    {
        classes.push(classify(&entries[i], &thresholds));
        i = i + 1;
    }
    Report { entries, thresholds, classes }
}

/// Simulates each symbol of `series` (a symbol with its return series) with
/// `number_of_simulations` as the trial count and `outcome` computing each trial's
/// result, then ranks and classifies the predictions as `output_results` does.
/// Whatever the draws, the report is that of `output_results` on one simulated
/// prediction per series entry, in order, when there is at least one trial per
/// symbol (on none otherwise): it holds `min(top_x, series.len())` entries, ordered
/// by descending median outcome, each of a symbol of `series`.
pub fn run_simulator<T: Copy, F: Fn(&Vec<T>) -> i32>(
    series: &Vec<(String, Vec<T>)>,
    periods: u32,
    number_of_simulations: u32,
    top_x: usize,
    outcome: &F,
) -> (r: Report)
    requires
        forall|path: &Vec<T>| outcome.requires((path,)),
    ensures
        r.entries@.len() == if number_of_simulations < 2 {
            0
        } else if top_x <= series.len() {
            top_x as int
        } else {
            series.len() as int
        },
        is_ranked_descending(MostCommonResult {}, r.entries@),
        forall|i: int|
            0 <= i < r.entries@.len() ==> exists|j: int|
                0 <= j < series.len() && (#[trigger] r.entries@[i]).symbol == series@[j].0,
        exists|preds: Seq<Prediction>|
            {
                &&& preds.len() == if number_of_simulations < 2 {
                    0
                } else {
                    series.len() as int
                }
                &&& forall|k: int|
                    0 <= k < preds.len() ==> is_simulation_of(
                        #[trigger] preds[k],
                        series@[k].0,
                        series@[k].1@,
                        periods,
                        number_of_simulations,
                        *outcome,
                    )
                &&& is_report_of(r, ranked(MostCommonResult {}, top_x as nat, preds))
            },
        is_report_of(r, r.entries@),
{
    let mut predictions: Vec<Prediction> = Vec::new();
    let mut i: usize = 0;
    while i < series.len()
        invariant
            i <= series.len(),
            forall|path: &Vec<T>| outcome.requires((path,)),
            predictions@.len() == if number_of_simulations < 2 {
                0
            } else {
                i as int
            },
            forall|k: int|
                0 <= k < predictions@.len() ==> is_simulation_of(
                    #[trigger] predictions@[k],
                    series@[k].0,
                    series@[k].1@,
                    periods,
                    number_of_simulations,
                    *outcome,
                ),
        decreases series.len() - i,
    {
        let symbol = series[i].0.clone();
        if let Some(prediction) = monte_carlo_simulation(
            symbol,
            &series[i].1,
            periods,
            number_of_simulations,
            outcome,
        ) {
            predictions.push(prediction);
        }
        i = i + 1;
    }
    let report = output_results(top_x, &predictions);
    proof {
        lemma_ranked_bounded_and_sorted(MostCommonResult {}, top_x as nat, predictions@);
        lemma_ranked_entries_from_input(MostCommonResult {}, top_x as nat, predictions@);
        assert(forall|k: int|
            0 <= k < predictions@.len() ==> (#[trigger] predictions@[k]).symbol == series@[k].0);
    }
    report
}

} // verus!
