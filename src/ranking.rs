//! Ranking criteria over percentile sets and the bounded, ordered top-N selection.
use crate::distribution::Percentiles;
use crate::monte_carlo::Prediction;
use vstd::prelude::*;

verus! {

/// One ranked symbol with its four scores.
#[derive(Debug, PartialEq)]
pub struct TopPredictions {
    pub symbol: String,
    pub most_common: i64,
    pub highest_low: i64,
    pub total_span: i64,
    pub weighted_span: i64,
}

/// The median outcome.
pub open spec fn most_common_of(p: Percentiles) -> int {
    p._50th as int
}

/// The 25th percentile outcome: the floor of the likely results.
pub open spec fn highest_low_of(p: Percentiles) -> int {
    p._25th as int
}

/// The spread between the 75th and the 25th percentile.
pub open spec fn total_span_of(p: Percentiles) -> int {
    p._75th - p._25th
}

/// The skew of the middle half: `75th + 25th - 2 * 50th`.
pub open spec fn weighted_span_of(p: Percentiles) -> int {
    p._75th + p._25th - 2 * p._50th
}

/// The entry that ranks the percentile set `p` of `symbol`.
pub open spec fn entry_of(symbol: String, p: Percentiles) -> TopPredictions {
    TopPredictions {
        symbol,
        most_common: most_common_of(p) as i64,
        highest_low: highest_low_of(p) as i64,
        total_span: total_span_of(p) as i64,
        weighted_span: weighted_span_of(p) as i64,
    }
}

/// `score` turned so that a larger value always ranks higher.
pub open spec fn oriented(larger_ranks_higher: bool, score: int) -> int {
    if larger_ranks_higher {
        score
    } else {
        -score
    }
}

/// The sign convention of `compare`: 1 where `left` ranks strictly higher than
/// `right`, -1 where it ranks strictly lower, 0 where they tie.
pub open spec fn compare_oriented(left: int, right: int) -> i8 {
    if left > right {
        1i8
    } else if left < right {
        -1i8
    } else {
        0i8
    }
}

/// A ranking criterion: a score computed from a prediction and a comparison of scores.
pub trait PredictionManipulation {
    /// The score of `entry` that this criterion reads.
    spec fn score_of(&self, entry: TopPredictions) -> int;

    /// Whether a larger score ranks higher under this criterion.
    spec fn larger_ranks_higher(&self) -> bool;

    /// The criterion's score of `prediction`.
    fn calculation(&self, prediction: &Prediction) -> (r: i64)
        ensures
            r == self.score_of(entry_of(prediction.symbol, prediction.percentiles)),
    ;

    /// Compares the score of `left` with the score `right`, in the criterion's direction.
    fn compare(&self, left: &TopPredictions, right: i64) -> (r: i8)
        ensures
            r == compare_oriented(
                oriented(self.larger_ranks_higher(), self.score_of(*left)),
                oriented(self.larger_ranks_higher(), right as int),
            ),
    ;
}

/// Ranks by the median outcome, higher first.
pub struct MostCommonResult {}

/// Ranks by the 75th to 25th percentile spread, smaller first.
pub struct TotalSpan {}

/// Ranks by the skew of the middle half, higher first.
pub struct WeightedSpan {}

/// Ranks by the 25th percentile outcome, higher first.
pub struct HighestLow {}

impl PredictionManipulation for MostCommonResult {
    open spec fn score_of(&self, entry: TopPredictions) -> int {
        entry.most_common as int
    }

    open spec fn larger_ranks_higher(&self) -> bool {
        true
    }

    fn calculation(&self, prediction: &Prediction) -> (r: i64) {
        prediction.percentiles._50th as i64
    }

    fn compare(&self, left: &TopPredictions, right: i64) -> (r: i8) {
        if left.most_common < right {
            -1
        } else if left.most_common > right {
            1
        } else {
            0
        }
    }
}

impl PredictionManipulation for TotalSpan {
    open spec fn score_of(&self, entry: TopPredictions) -> int {
        entry.total_span as int
    }

    open spec fn larger_ranks_higher(&self) -> bool {
        false
    }

    fn calculation(&self, prediction: &Prediction) -> (r: i64) {
        prediction.percentiles._75th as i64 - prediction.percentiles._25th as i64
    }

    fn compare(&self, left: &TopPredictions, right: i64) -> (r: i8) {
        if left.total_span < right {
            1
        } else if left.total_span > right {
            -1
        } else {
            0
        }
    }
}

impl PredictionManipulation for WeightedSpan {
    open spec fn score_of(&self, entry: TopPredictions) -> int {
        entry.weighted_span as int
    }

    open spec fn larger_ranks_higher(&self) -> bool {
        true
    }

    fn calculation(&self, prediction: &Prediction) -> (r: i64) {
        prediction.percentiles._75th as i64 + prediction.percentiles._25th as i64 - 2
            * prediction.percentiles._50th as i64
    }

    fn compare(&self, left: &TopPredictions, right: i64) -> (r: i8) {
        if left.weighted_span < right {
            -1
        } else if left.weighted_span > right {
            1
        } else {
            0
        }
    }
}

impl PredictionManipulation for HighestLow {
    open spec fn score_of(&self, entry: TopPredictions) -> int {
        entry.highest_low as int
    }

    open spec fn larger_ranks_higher(&self) -> bool {
        true
    }

    fn calculation(&self, prediction: &Prediction) -> (r: i64) {
        prediction.percentiles._25th as i64
    }

    fn compare(&self, left: &TopPredictions, right: i64) -> (r: i8) {
        if left.highest_low < right {
            -1
        } else if left.highest_low > right {
            1
        } else {
            0
        }
    }
}

impl<C: PredictionManipulation> PredictionManipulation for Box<C> {
    open spec fn score_of(&self, entry: TopPredictions) -> int {
        (**self).score_of(entry)
    }

    open spec fn larger_ranks_higher(&self) -> bool {
        (**self).larger_ranks_higher()
    }

    fn calculation(&self, prediction: &Prediction) -> (r: i64) {
        (**self).calculation(prediction)
    }

    fn compare(&self, left: &TopPredictions, right: i64) -> (r: i8) {
        (**self).compare(left, right)
    }
}

/// The rank of `entry` under `criterion`: a larger rank places it nearer the top.
pub open spec fn rank_of<C: PredictionManipulation>(criterion: C, entry: TopPredictions) -> int {
    oriented(criterion.larger_ranks_higher(), criterion.score_of(entry))
}

/// The first position from `from` on whose entry ranks strictly below `entry`.
pub open spec fn insert_position<C: PredictionManipulation>(
    criterion: C,
    list: Seq<TopPredictions>,
    entry: TopPredictions,
    from: int,
) -> int
    decreases list.len() - from,
{
    if from < 0 || from >= list.len() || rank_of(criterion, list[from]) < rank_of(
        criterion,
        entry,
    ) {
        from
    } else {
        insert_position(criterion, list, entry, from + 1)
    }
}

/// `list` with `entry` placed before the first entry that ranks strictly below it
/// (so after every entry it ties with), cut to `top_x` entries.
pub open spec fn insert_ranked<C: PredictionManipulation>(
    criterion: C,
    top_x: nat,
    list: Seq<TopPredictions>,
    entry: TopPredictions,
) -> Seq<TopPredictions> {
    let inserted = list.insert(insert_position(criterion, list, entry, 0), entry);
    if inserted.len() > top_x {
        inserted.subrange(0, top_x as int)
    } else {
        inserted
    }
}

/// The top-`top_x` list after the predictions of `all` were inserted in order.
pub open spec fn ranked<C: PredictionManipulation>(
    criterion: C,
    top_x: nat,
    all: Seq<Prediction>,
) -> Seq<TopPredictions>
    decreases all.len(),
{
    if all.len() == 0 {
        Seq::empty()
    } else {
        insert_ranked(
            criterion,
            top_x,
            ranked(criterion, top_x, all.drop_last()),
            entry_of(all.last().symbol, all.last().percentiles),
        )
    }
}

/// `list` is ordered from the highest rank to the lowest under `criterion`.
pub open spec fn is_ranked_descending<C: PredictionManipulation>(
    criterion: C,
    list: Seq<TopPredictions>,
) -> bool {
    forall|i: int, j: int|
        0 <= i < j < list.len() ==> rank_of(criterion, #[trigger] list[i]) >= rank_of(
            criterion,
            #[trigger] list[j],
        )
}

/// Every entry before the insertion position ranks at least as high as `entry`; the
/// one at it, if any, ranks strictly below.
pub(crate) proof fn lemma_insert_position<C: PredictionManipulation>(
    criterion: C,
    list: Seq<TopPredictions>,
    entry: TopPredictions,
    from: int,
)
    requires
        0 <= from <= list.len(),
    ensures
        from <= insert_position(criterion, list, entry, from) <= list.len(),
        forall|k: int|
            from <= k < insert_position(criterion, list, entry, from) ==> rank_of(
                criterion,
                #[trigger] list[k],
            ) >= rank_of(criterion, entry),
        insert_position(criterion, list, entry, from) < list.len() ==> rank_of(
            criterion,
            list[insert_position(criterion, list, entry, from)],
        ) < rank_of(criterion, entry),
    decreases list.len() - from,
{
    if from < list.len() && rank_of(criterion, list[from]) >= rank_of(criterion, entry) {
        lemma_insert_position(criterion, list, entry, from + 1);
    }
}

proof fn lemma_insert_ranked_sorted<C: PredictionManipulation>(
    criterion: C,
    top_x: nat,
    list: Seq<TopPredictions>,
    entry: TopPredictions,
)
    requires
        is_ranked_descending(criterion, list),
    ensures
        is_ranked_descending(criterion, insert_ranked(criterion, top_x, list, entry)),
{
    let p = insert_position(criterion, list, entry, 0);
    lemma_insert_position(criterion, list, entry, 0);
    let inserted = list.insert(p, entry);
    assert forall|i: int, j: int| 0 <= i < j < inserted.len() implies rank_of(
        criterion,
        #[trigger] inserted[i],
    ) >= rank_of(criterion, #[trigger] inserted[j]) by {
        if j < p {
            assert(inserted[i] == list[i] && inserted[j] == list[j]);
        } else if j == p {
            assert(inserted[i] == list[i]);
        } else if i < p {
            assert(inserted[i] == list[i] && inserted[j] == list[j - 1]);
            assert(rank_of(criterion, list[p]) >= rank_of(criterion, list[j - 1]));
        } else if i == p {
            assert(inserted[j] == list[j - 1]);
            if j - 1 > p {
                assert(rank_of(criterion, list[p]) >= rank_of(criterion, list[j - 1]));
            }
        } else {
            assert(inserted[i] == list[i - 1] && inserted[j] == list[j - 1]);
        }
    }
}

/// The selection holds `min(top_x, all.len())` entries, ordered from the highest rank
/// under the primary criterion to the lowest.
pub proof fn lemma_ranked_bounded_and_sorted<C: PredictionManipulation>(
    criterion: C,
    top_x: nat,
    all: Seq<Prediction>,
)
    ensures
        ranked(criterion, top_x, all).len() == if top_x <= all.len() {
            top_x
        } else {
            all.len()
        },
        is_ranked_descending(criterion, ranked(criterion, top_x, all)),
    decreases all.len(),
{
    if all.len() > 0 {
        let prev = ranked(criterion, top_x, all.drop_last());
        lemma_ranked_bounded_and_sorted(criterion, top_x, all.drop_last());
        let e = entry_of(all.last().symbol, all.last().percentiles);
        lemma_insert_position(criterion, prev, e, 0);
        lemma_insert_ranked_sorted(criterion, top_x, prev, e);
    }
}

/// Every selected entry is the entry of one of the input predictions.
pub proof fn lemma_ranked_entries_from_input<C: PredictionManipulation>(
    criterion: C,
    top_x: nat,
    all: Seq<Prediction>,
)
    ensures
        forall|i: int|
            0 <= i < ranked(criterion, top_x, all).len() ==> exists|j: int|
                0 <= j < all.len() && #[trigger] ranked(criterion, top_x, all)[i] == entry_of(
                    all[j].symbol,
                    all[j].percentiles,
                ),
    decreases all.len(),
{
    if all.len() > 0 {
        let prev = ranked(criterion, top_x, all.drop_last());
        lemma_ranked_entries_from_input(criterion, top_x, all.drop_last());
        let e = entry_of(all.last().symbol, all.last().percentiles);
        let p = insert_position(criterion, prev, e, 0);
        lemma_insert_position(criterion, prev, e, 0);
        let r = ranked(criterion, top_x, all);
        assert forall|i: int| 0 <= i < r.len() implies exists|j: int|
            0 <= j < all.len() && #[trigger] r[i] == entry_of(
                all[j].symbol,
                all[j].percentiles,
            ) by {
            if i == p {
                assert(r[i] == entry_of(all[all.len() - 1].symbol, all[all.len() - 1].percentiles));
            } else {
                let k = if i < p { i } else { i - 1 };
                assert(r[i] == prev[k]);
                let j = choose|j: int|
                    0 <= j < all.drop_last().len() && prev[k] == entry_of(
                        all.drop_last()[j].symbol,
                        all.drop_last()[j].percentiles,
                    );
                assert(all.drop_last()[j] == all[j]);
            }
        }
    }
}

/// Selects the `top_x` best predictions of `all` under `primary_filter`: each one is
/// inserted, in input order, before the first entry that ranks strictly below it, and
/// the list is then cut to `top_x` entries. Equal scores keep their input order, so the
/// first seen of them is kept within the bound. Each entry carries all four scores.
pub fn get_highest_x<C: PredictionManipulation>(
    top_x: usize,
    all: &Vec<Prediction>,
    primary_filter: C,
) -> (r: Vec<TopPredictions>)
    ensures
        r@ == ranked(primary_filter, top_x as nat, all@),
{
    let mut results: Vec<TopPredictions> = Vec::new();
    let mut i: usize = 0;
    while i < all.len()
        invariant
            i <= all.len(),
            results@ == ranked(primary_filter, top_x as nat, all@.subrange(0, i as int)),
        decreases all.len() - i,
    {
        let prediction = &all[i];
        let ghost entry = entry_of(prediction.symbol, prediction.percentiles);
        let mut index: usize = 0;
        let primary_calc = primary_filter.calculation(prediction);
        while index < results.len() && primary_filter.compare(&results[index], primary_calc) >= 0
            invariant
                index <= results.len(),
                primary_calc == primary_filter.score_of(entry),
                insert_position(primary_filter, results@, entry, 0) == insert_position(
                    primary_filter,
                    results@,
                    entry,
                    index as int,
                ),
            decreases results.len() - index,
        {
            index = index + 1;
        }
        let calculations = TopPredictions {
            symbol: prediction.symbol.clone(),
            most_common: MostCommonResult {}.calculation(prediction),
            highest_low: HighestLow {}.calculation(prediction),
            total_span: TotalSpan {}.calculation(prediction),
            weighted_span: WeightedSpan {}.calculation(prediction),
        };
        assert(calculations == entry);
        if index == results.len() {
            results.push(calculations);
        } else {
            results.insert(index, calculations);
        }
        results.truncate(top_x);
        proof {
            let prefix = all@.subrange(0, i + 1);
            assert(prefix.drop_last() == all@.subrange(0, i as int));
            assert(results@ == ranked(primary_filter, top_x as nat, prefix));
        }
        i = i + 1;
    }
    assert(all@.subrange(0, all.len() as int) == all@);
    results
}

} // verus!
