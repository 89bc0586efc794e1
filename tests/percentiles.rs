use std::collections::BTreeMap;

use stock_simulator::distribution::{get_percentiles, Percentiles};

#[test]
fn get_percentiles_empty_results_zeroes_in_percentiles() {
    // assign
    let results = BTreeMap::new();
    let number_of_results = results.len() as u32;

    // act
    let actual_opt = get_percentiles(&results, number_of_results);

    // assert
    assert!(actual_opt.is_none());
}

#[test]
fn get_percentiles_less_than_100_in_result() {
    // assign
    let number_of_results = 20;
    let results = BTreeMap::from([
        (1, 1),
        (2, 1),
        (3, 1),
        (4, 1),
        (5, 1),
        (6, 1),
        (7, 1),
        (8, 1),
        (9, 1),
        (10, 1),
        (11, 1),
        (12, 1),
        (13, 1),
        (14, 1),
        (15, 1),
        (16, 1),
        (17, 1),
        (18, 1),
        (19, 1),
        (20, 1),
    ]);
    let expected = Percentiles {
        _25th: 5,
        _50th: 10,
        _75th: 15,
    };

    // act
    let actual_opt = get_percentiles(&results, number_of_results);

    // assert
    let actual = actual_opt.unwrap();
    assert_eq!(actual._25th, expected._25th);
    assert_eq!(actual._50th, expected._50th);
    assert_eq!(actual._75th, expected._75th);
}

#[test]
fn get_percentiles_one_in_result_all_that_number() {
    // assign
    let number_of_results = 1;
    let results = BTreeMap::from([(2, 1)]);
    let expected = Percentiles {
        _25th: 2,
        _50th: 2,
        _75th: 2,
    };

    // act
    let actual_opt = get_percentiles(&results, number_of_results);

    // assert
    let actual = actual_opt.unwrap();
    assert_eq!(actual._25th, expected._25th);
    assert_eq!(actual._50th, expected._50th);
    assert_eq!(actual._75th, expected._75th);
}

#[test]
fn get_percentiles_happy_path() {
    // assign
    let number_of_results = 100;
    let results = BTreeMap::from([
        (-44, 1),
        (-43, 1),
        (-32, 1),
        (-30, 1),
        (-29, 1),
        (-27, 2),
        (-26, 2),
        (-24, 2),
        (-23, 2),
        (-20, 2),
        (-18, 2),
        (-17, 1),
        (-16, 3),
        (-15, 2),
        (-14, 1),
        (-13, 2),
        (-12, 1),
        (-9, 4),
        (-8, 3),
        (-7, 2),
        (-6, 2),
        (-5, 1),
        (-4, 3),
        (-3, 2),
        (-1, 1),
        (2, 2),
        (3, 2),
        (5, 1),
        (6, 1),
        (7, 2),
        (11, 1),
        (12, 2),
        (13, 3),
        (14, 1),
        (17, 2),
        (18, 3),
        (22, 1),
        (23, 5),
        (24, 1),
        (25, 3),
        (27, 1),
        (28, 1),
        (29, 1),
        (30, 1),
        (32, 1),
        (34, 1),
        (35, 1),
        (37, 1),
        (38, 1),
        (40, 1),
        (41, 1),
        (46, 1),
        (47, 1),
        (50, 1),
        (53, 1),
        (54, 1),
        (56, 2),
        (61, 2),
        (63, 1),
        (65, 1),
        (66, 1),
        (94, 1),
    ]);
    let expected = Percentiles {
        _25th: -13,
        _50th: 5,
        _75th: 25,
    };

    // act
    let actual_opt = get_percentiles(&results, number_of_results);

    // assert
    let actual = actual_opt.unwrap();
    assert_eq!(actual._25th, expected._25th);
    assert_eq!(actual._50th, expected._50th);
    assert_eq!(actual._75th, expected._75th);
}
