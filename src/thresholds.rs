//! Green/yellow cut-points derived from a ranked list, and the classification of entries.
use crate::ranking::TopPredictions;
use itertools::Itertools;
use vstd::prelude::*;
use vstd::relations::{sorted_by, total_ordering};
use vstd::seq_lib::lemma_sorted_unique;

verus! {

/// The boundaries of the favourable (green) and neutral (yellow) bands of three scores.
#[derive(PartialEq, Debug)]
pub struct Thresholds {
    pub most_common_green: i64,
    pub most_common_yellow: i64,
    pub highest_low_green: i64,
    pub highest_low_yellow: i64,
    pub total_span_green: i64,
    pub total_span_yellow: i64,
}

/// The band a score falls in.
#[derive(Clone, Copy, Debug, PartialEq, Eq)]
pub enum Band {
    Green,
    Yellow,
    Red,
}

/// The bands of the four scores of one entry.
#[derive(Clone, Copy, Debug, PartialEq, Eq)]
pub struct Classification {
    pub most_common: Band,
    pub highest_low: Band,
    pub total_span: Band,
    pub weighted_span: Band,
}

/// The ascending order of scores.
pub open spec fn ascending_order() -> spec_fn(i64, i64) -> bool {
    |x: i64, y: i64| x <= y
}

/// `s` sorted in ascending order.
pub open spec fn ascending(s: Seq<i64>) -> Seq<i64> {
    s.sort_by(ascending_order())
}

/// Relies on itertools' `Itertools::sorted`: the same values, in ascending order.
#[verifier::external_body]
fn sorted(values: Vec<i64>) -> (r: Vec<i64>)
    ensures
        r@.to_multiset() == values@.to_multiset(),
        sorted_by(r@, ascending_order()),
{
    values.into_iter().sorted().collect()
}

/// The position, in ascending order, of the yellow boundary of a higher-is-better score.
pub open spec fn low_index(count: nat) -> int {
    if count / 3 >= 1 {
        count / 3 - 1
    } else {
        0
    }
}

/// The position, in ascending order, of the green boundary of a higher-is-better score.
pub open spec fn high_index(count: nat) -> int {
    if count - count / 3 <= count - 1 {
        count - count / 3
    } else {
        count - 1
    }
}

/// The most-common scores of `calcs`, in list order.
pub open spec fn most_commons(calcs: Seq<TopPredictions>) -> Seq<i64> {
    calcs.map_values(|p: TopPredictions| p.most_common)
}

/// The highest-low scores of `calcs`, in list order.
pub open spec fn highest_lows(calcs: Seq<TopPredictions>) -> Seq<i64> {
    calcs.map_values(|p: TopPredictions| p.highest_low)
}

/// The span scores of `calcs`, in list order.
pub open spec fn total_spans(calcs: Seq<TopPredictions>) -> Seq<i64> {
    calcs.map_values(|p: TopPredictions| p.total_span)
}

/// The thresholds of `calcs`: all zero for an empty list; otherwise each is the value
/// at `low_index` or `high_index` of that score sorted ascending over all entries,
/// the two positions swapping roles for the span, where lower is better.
pub open spec fn thresholds_of(calcs: Seq<TopPredictions>) -> Thresholds {
    let n = calcs.len();
    if n == 0 {
        Thresholds {
            most_common_green: 0,
            most_common_yellow: 0,
            highest_low_green: 0,
            highest_low_yellow: 0,
            total_span_green: 0,
            total_span_yellow: 0,
        }
    } else {
        Thresholds {
            most_common_green: ascending(most_commons(calcs))[high_index(n)],
            most_common_yellow: ascending(most_commons(calcs))[low_index(n)],
            highest_low_green: ascending(highest_lows(calcs))[high_index(n)],
            highest_low_yellow: ascending(highest_lows(calcs))[low_index(n)],
            total_span_green: ascending(total_spans(calcs))[low_index(n)],
            total_span_yellow: ascending(total_spans(calcs))[high_index(n)],
        }
    }
}

proof fn lemma_ascending_order_total()
    ensures
        total_ordering(ascending_order()),
{
}

/// `values` sorted ascending, through the outside sort.
fn sorted_ascending(values: Vec<i64>) -> (r: Vec<i64>)
    ensures
        r@ == ascending(values@),
{
    let ghost unsorted = values@;
    let r = sorted(values);
    proof {
        lemma_ascending_order_total();
        unsorted.lemma_sort_by_ensures(ascending_order());
        lemma_sorted_unique(r@, ascending(unsorted), ascending_order());
    }
    r
}

/// Derives the green and yellow boundaries of the most-common, highest-low and span
/// scores from the ranked list `calcs`.
pub fn get_thresholds(calcs: &Vec<TopPredictions>) -> (r: Thresholds)
    ensures
        r == thresholds_of(calcs@),
{
    let count = calcs.len();
    if count == 0 {
        return Thresholds {
            most_common_green: 0,
            most_common_yellow: 0,
            highest_low_green: 0,
            highest_low_yellow: 0,
            total_span_green: 0,
            total_span_yellow: 0,
        };
    }
    let threshold_length = count / 3;
    let low_index: usize = if threshold_length >= 1 {
        threshold_length - 1
    } else {
        0
    };
    let high_index: usize = if count - threshold_length <= count - 1 {
        count - threshold_length
    } else {
        count - 1
    };
    let mut most_common: Vec<i64> = Vec::new();
    let mut highest_low: Vec<i64> = Vec::new();
    let mut total_span: Vec<i64> = Vec::new();
    let mut i: usize = 0;
    while i < count
        invariant
            count == calcs.len(),
            i <= count,
            most_common@ == most_commons(calcs@.subrange(0, i as int)),
            highest_low@ == highest_lows(calcs@.subrange(0, i as int)),
            total_span@ == total_spans(calcs@.subrange(0, i as int)),
        decreases count - i,
    {
        proof {
            assert(calcs@.subrange(0, i + 1) == calcs@.subrange(0, i as int).push(calcs@[i as int]));
        }
        most_common.push(calcs[i].most_common);
        highest_low.push(calcs[i].highest_low);
        total_span.push(calcs[i].total_span);
        i = i + 1;
    }
    assert(calcs@.subrange(0, count as int) == calcs@);
    let most_common_sorted = sorted_ascending(most_common);
    let highest_low_sorted = sorted_ascending(highest_low);
    let total_span_sorted = sorted_ascending(total_span);
    proof {
        calcs@.map_values(|p: TopPredictions| p.most_common).lemma_sort_by_ensures(ascending_order());
        calcs@.map_values(|p: TopPredictions| p.highest_low).lemma_sort_by_ensures(ascending_order());
        calcs@.map_values(|p: TopPredictions| p.total_span).lemma_sort_by_ensures(ascending_order());
        assert(most_common_sorted@.len() == count) by {
            vstd::seq_lib::to_multiset_len(most_commons(calcs@));
            vstd::seq_lib::to_multiset_len(most_common_sorted@);
        }
        assert(highest_low_sorted@.len() == count) by {
            vstd::seq_lib::to_multiset_len(highest_lows(calcs@));
            vstd::seq_lib::to_multiset_len(highest_low_sorted@);
        }
        assert(total_span_sorted@.len() == count) by {
            vstd::seq_lib::to_multiset_len(total_spans(calcs@));
            vstd::seq_lib::to_multiset_len(total_span_sorted@);
        }
    }
    Thresholds {
        most_common_green: most_common_sorted[high_index],
        most_common_yellow: most_common_sorted[low_index],
        highest_low_green: highest_low_sorted[high_index],
        highest_low_yellow: highest_low_sorted[low_index],
        total_span_green: total_span_sorted[low_index],
        total_span_yellow: total_span_sorted[high_index],
    }
}

/// `s` is already in ascending order when it holds a single value.
proof fn lemma_ascending_single(s: Seq<i64>)
    requires
        s.len() == 1,
    ensures
        ascending(s) == s,
{
    lemma_ascending_order_total();
    s.lemma_sort_by_ensures(ascending_order());
    lemma_sorted_unique(s, ascending(s), ascending_order());
}

/// With no entries every threshold is zero; with a single entry both boundaries of
/// each score are that entry's own score.
pub proof fn lemma_thresholds_degenerate(calcs: Seq<TopPredictions>)
    requires
        calcs.len() <= 1,
    ensures
        calcs.len() == 0 ==> thresholds_of(calcs) == (Thresholds {
            most_common_green: 0,
            most_common_yellow: 0,
            highest_low_green: 0,
            highest_low_yellow: 0,
            total_span_green: 0,
            total_span_yellow: 0,
        }),
        calcs.len() == 1 ==> thresholds_of(calcs) == (Thresholds {
            most_common_green: calcs[0].most_common,
            most_common_yellow: calcs[0].most_common,
            highest_low_green: calcs[0].highest_low,
            highest_low_yellow: calcs[0].highest_low,
            total_span_green: calcs[0].total_span,
            total_span_yellow: calcs[0].total_span,
        }),
{
    if calcs.len() == 1 {
        lemma_ascending_single(most_commons(calcs));
        lemma_ascending_single(highest_lows(calcs));
        lemma_ascending_single(total_spans(calcs));
    }
}

/// The band of a score where higher is better: green from `green` up, red below
/// `yellow`, yellow between.
pub open spec fn band_higher_better(value: int, green: int, yellow: int) -> Band {
    if value >= green {
        Band::Green
    } else if value < yellow {
        Band::Red
    } else {
        Band::Yellow
    }
}

/// The band of a score where lower is better: green up to `green`, red above
/// `yellow`, yellow between.
pub open spec fn band_lower_better(value: int, green: int, yellow: int) -> Band {
    if value <= green {
        Band::Green
    } else if value > yellow {
        Band::Red
    } else {
        Band::Yellow
    }
}

/// The band of the weighted span: green when positive, red when negative.
pub open spec fn band_of_skew(value: int) -> Band {
    if value > 0 {
        Band::Green
    } else if value < 0 {
        Band::Red
    } else {
        Band::Yellow
    }
}

/// The bands of the four scores of `entry` under `thresholds`.
pub open spec fn classification_of(entry: TopPredictions, thresholds: Thresholds) -> Classification {
    Classification {
        most_common: band_higher_better(
            entry.most_common as int,
            thresholds.most_common_green as int,
            thresholds.most_common_yellow as int,
        ),
        highest_low: band_higher_better(
            entry.highest_low as int,
            thresholds.highest_low_green as int,
            thresholds.highest_low_yellow as int,
        ),
        total_span: band_lower_better(
            entry.total_span as int,
            thresholds.total_span_green as int,
            thresholds.total_span_yellow as int,
        ),
        weighted_span: band_of_skew(entry.weighted_span as int),
    }
}

/// Classifies the four scores of `entry` against `thresholds`.
pub fn classify(entry: &TopPredictions, thresholds: &Thresholds) -> (r: Classification)
    ensures
        r == classification_of(*entry, *thresholds),
{
    let most_common = if entry.most_common >= thresholds.most_common_green {
        Band::Green
    } else if entry.most_common < thresholds.most_common_yellow {
        Band::Red
    } else {
        Band::Yellow
    };
    let highest_low = if entry.highest_low >= thresholds.highest_low_green {
        Band::Green
    } else if entry.highest_low < thresholds.highest_low_yellow {
        Band::Red
    } else {
        Band::Yellow
    };
    let total_span = if entry.total_span <= thresholds.total_span_green {
        Band::Green
    } else if entry.total_span > thresholds.total_span_yellow {
        Band::Red
    } else {
        Band::Yellow
    };
    let weighted_span = if entry.weighted_span > 0 {
        Band::Green
    } else if entry.weighted_span < 0 {
        Band::Red
    } else {
        Band::Yellow
    };
    Classification { most_common, highest_low, total_span, weighted_span }
}

} // verus!
