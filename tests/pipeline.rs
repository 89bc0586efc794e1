use stock_simulator::distribution::Percentiles;
use stock_simulator::monte_carlo::{monte_carlo_simulation, Prediction};
use stock_simulator::pipeline::{output_results, run_simulator};
use stock_simulator::ranking::TopPredictions;
use stock_simulator::thresholds::{classify, Band, Classification, Thresholds};

fn prediction(symbol: &str, low: i32, median: i32, high: i32) -> Prediction {
    Prediction {
        symbol: symbol.to_string(),
        percentiles: Percentiles {
            _25th: low,
            _50th: median,
            _75th: high,
        },
        data: None,
    }
}

fn ten_symbols() -> Vec<Prediction> {
    vec![
        prediction("AAPB", -2, 2, 5),
        prediction("AAPL", -1, 1, 2),
        prediction("AAL", -7, -3, 1),
        prediction("AAPD", -2, -1, 1),
        prediction("AADI", -2, 4, 11),
        prediction("AADR", -2, -1, 0),
        prediction("AACG", -6, 9, 27),
        prediction("AAME", -14, -6, 3),
        prediction("AAON", 2, 5, 9),
        prediction("AAOI", -9, 3, 17),
    ]
}

fn entry(symbol: &str, most_common: i64, highest_low: i64, total_span: i64, weighted_span: i64) -> TopPredictions {
    TopPredictions {
        symbol: symbol.to_string(),
        most_common,
        highest_low,
        total_span,
        weighted_span,
    }
}

#[test]
fn end_to_end_top_five_by_median_with_all_scores() {
    let report = output_results(5, &ten_symbols());
    let expected = vec![
        entry("AACG", 9, -6, 33, 3),
        entry("AAON", 5, 2, 7, 1),
        entry("AADI", 4, -2, 13, 1),
        entry("AAOI", 3, -9, 26, 2),
        entry("AAPB", 2, -2, 7, -1),
    ];
    assert_eq!(report.entries, expected);
    assert_eq!(
        report.thresholds,
        Thresholds {
            most_common_green: 9,
            most_common_yellow: 2,
            highest_low_green: 2,
            highest_low_yellow: -9,
            total_span_green: 7,
            total_span_yellow: 33,
        }
    );
    assert_eq!(report.classes.len(), 5);
    assert_eq!(
        report.classes[0],
        Classification {
            most_common: Band::Green,
            highest_low: Band::Yellow,
            total_span: Band::Yellow,
            weighted_span: Band::Green,
        }
    );
    assert_eq!(
        report.classes[4],
        Classification {
            most_common: Band::Yellow,
            highest_low: Band::Yellow,
            total_span: Band::Green,
            weighted_span: Band::Red,
        }
    );
}

#[test]
fn output_results_with_no_predictions_is_empty() {
    let report = output_results(5, &Vec::new());
    assert!(report.entries.is_empty());
    assert!(report.classes.is_empty());
    assert_eq!(report.thresholds.most_common_green, 0);
}

#[test]
fn classify_bands_on_each_side_of_the_thresholds() {
    let thresholds = Thresholds {
        most_common_green: 5,
        most_common_yellow: 2,
        highest_low_green: 0,
        highest_low_yellow: -4,
        total_span_green: 10,
        total_span_yellow: 20,
    };
    let high = classify(&entry("A", 5, 0, 10, 1), &thresholds);
    assert_eq!(
        high,
        Classification {
            most_common: Band::Green,
            highest_low: Band::Green,
            total_span: Band::Green,
            weighted_span: Band::Green,
        }
    );
    let middle = classify(&entry("B", 2, -4, 20, 0), &thresholds);
    assert_eq!(
        middle,
        Classification {
            most_common: Band::Yellow,
            highest_low: Band::Yellow,
            total_span: Band::Yellow,
            weighted_span: Band::Yellow,
        }
    );
    let low = classify(&entry("C", 1, -5, 21, -1), &thresholds);
    assert_eq!(
        low,
        Classification {
            most_common: Band::Red,
            highest_low: Band::Red,
            total_span: Band::Red,
            weighted_span: Band::Red,
        }
    );
}

fn sum_of_path(path: &Vec<i32>) -> i32 {
    let mut total: i32 = 0;
    for r in path {
        total += *r;
    }
    total
}

#[test]
fn run_simulator_ranks_constant_series_by_their_outcome() {
    let series = vec![
        ("LOW".to_string(), vec![1]),
        ("MID".to_string(), vec![2]),
        ("TOP".to_string(), vec![3]),
    ];
    let report = run_simulator(&series, 4, 10, 2, &sum_of_path);
    assert_eq!(report.entries, vec![entry("TOP", 12, 12, 0, 0), entry("MID", 8, 8, 0, 0)]);
    assert_eq!(report.classes.len(), 2);
}

#[test]
fn run_simulator_with_one_requested_trial_reports_nothing() {
    let series = vec![("ONE".to_string(), vec![1, 2, 3])];
    let report = run_simulator(&series, 4, 1, 5, &sum_of_path);
    assert!(report.entries.is_empty());
}

#[test]
fn monte_carlo_simulation_runs_one_trial_less_than_requested() {
    let prediction = monte_carlo_simulation("ONE".to_string(), &vec![2], 3, 5, &sum_of_path).unwrap();
    assert_eq!(prediction.symbol, "ONE");
    let data = prediction.data.unwrap();
    assert_eq!(data.len(), 1);
    assert_eq!(data[&6], 4);
    assert_eq!(prediction.percentiles, Percentiles { _25th: 6, _50th: 6, _75th: 6 });
}

#[test]
fn monte_carlo_simulation_without_trials_gives_no_prediction() {
    assert!(monte_carlo_simulation("A".to_string(), &vec![2], 3, 1, &sum_of_path).is_none());
    assert!(monte_carlo_simulation("A".to_string(), &vec![2], 3, 0, &sum_of_path).is_none());
}

#[test]
fn monte_carlo_simulation_of_empty_series_tallies_empty_paths() {
    let prediction = monte_carlo_simulation("E".to_string(), &Vec::new(), 3, 4, &sum_of_path).unwrap();
    let data = prediction.data.unwrap();
    assert_eq!(data[&0], 3);
}
