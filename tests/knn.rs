use veracity::classifier::{KNeighborsClassifier, KNeighborsClassifierSettings, Score};
use veracity::data_matrix::DataMatrix;
use veracity::data_vector::DataVector;
use veracity::enums::{EvaluationMetrics, KNeighborsWeights};
use veracity::errors::VeracityError;
use veracity::metrics::{auprc_ranked, rank_descending, roc_ranked, Ratio};
use veracity::neighbors::{decide, nearest, sorted_classes, vote_counts};
use veracity::regressor::KNeighborsRegressor;
use veracity::labels::ClassLabel;

fn feature_table(xs: &[f64]) -> DataMatrix {
    let mut t = DataMatrix::new();
    t.add_column(xs.iter().map(|x| x.to_bits()).collect::<Vec<u64>>(), Some("x")).unwrap();
    t
}

fn labels(v: &[&str]) -> DataVector<String> {
    DataVector::from_vec(v.iter().map(|s| s.to_string()).collect()).unwrap()
}

/// Squared one-dimensional distance, as an order key (non-negative floats
/// order like their bit patterns).
fn keys(query: f64, train: &[f64]) -> Vec<u64> {
    train.iter().map(|t| ((query - t) * (query - t)).to_bits()).collect()
}

#[test]
fn nearest_orders_by_key_then_row() {
    assert_eq!(nearest(&vec![5, 1, 3, 1], 3), vec![1, 3, 2]);
    assert_eq!(nearest(&vec![5, 1], 9), vec![1, 0]);
    assert_eq!(nearest(&vec![], 2), Vec::<usize>::new());
    assert_eq!(nearest(&vec![4, 4], 0), Vec::<usize>::new());
}

#[test]
fn classes_are_sorted_and_distinct() {
    let c = sorted_classes(&vec!["b".to_string(), "a".to_string(), "b".to_string(), "ab".to_string()]);
    assert_eq!(c, vec!["a".to_string(), "ab".to_string(), "b".to_string()]);
    assert_eq!(sorted_classes(&vec![3i64, -1, 3]), vec![-1i64, 3]);
    assert_eq!(sorted_classes(&vec![true, false]), vec![false, true]);
}

#[test]
fn string_labels_compare_by_code_points() {
    assert!("abc".to_string().compare(&"abd".to_string()) < 0);
    assert!("b".to_string().compare(&"abc".to_string()) > 0);
    assert_eq!("x".to_string().compare(&"x".to_string()), 0);
    assert!("".to_string().compare(&"a".to_string()) < 0);
}

#[test]
fn votes_and_decision() {
    let classes = vec![1i64, 2, 3];
    let labels = vec![2i64, 3, 2, 3, 1];
    let counts = vote_counts(&classes, &labels, &vec![0, 1, 2, 3]);
    assert_eq!(counts, vec![0, 2, 2]);
    assert_eq!(decide(&counts), 1);
    assert_eq!(decide(&vec![1, 5, 2]), 1);
}

#[test]
fn single_nearest_neighbour_label_wins() {
    let train = [0.0, 10.0, 4.0];
    let mut c = KNeighborsClassifier::<String>::new();
    c.add_settings(KNeighborsClassifierSettings { k_neighbors: 1, ..KNeighborsClassifierSettings::default() }).unwrap();
    c.fit(&feature_table(&train), &labels(&["zero", "ten", "four"])).unwrap();
    let d = vec![keys(3.0, &train), keys(9.0, &train), keys(-1.0, &train)];
    let p = c.predict(&d).unwrap();
    assert_eq!(p.to_vec(), vec!["four".to_string(), "ten".to_string(), "zero".to_string()]);
    assert_eq!(p.get_label(), Some("predictions".to_string()));
}

#[test]
fn single_nearest_neighbour_with_integer_labels() {
    let train = [0.0, 10.0];
    let mut c = KNeighborsClassifier::<i64>::new();
    c.add_settings(KNeighborsClassifierSettings { k_neighbors: 1, ..KNeighborsClassifierSettings::default() }).unwrap();
    c.fit(&feature_table(&train), &DataVector::from_vec(vec![7i64, -7]).unwrap()).unwrap();
    let p = c.predict(&vec![keys(8.0, &train)]).unwrap();
    assert_eq!(p.to_vec(), vec![-7i64]);
}

#[test]
fn vote_ties_go_to_the_smallest_label() {
    let train = [0.0, 1.0, 2.0, 3.0];
    let mut c = KNeighborsClassifier::<String>::new();
    c.add_settings(KNeighborsClassifierSettings { k_neighbors: 2, ..KNeighborsClassifierSettings::default() }).unwrap();
    c.fit(&feature_table(&train), &labels(&["b", "a", "b", "a"])).unwrap();
    let p = c.predict(&vec![keys(0.4, &train)]).unwrap();
    assert_eq!(p.to_vec(), vec!["a".to_string()]);
}

#[test]
fn majority_vote_with_default_k() {
    let train = [0.0, 1.0, 2.0, 10.0, 11.0, 12.0];
    let mut c = KNeighborsClassifier::<String>::new();
    c.fit(&feature_table(&train), &labels(&["lo", "lo", "lo", "hi", "hi", "hi"])).unwrap();
    let p = c.predict(&vec![keys(1.0, &train), keys(11.0, &train)]).unwrap();
    assert_eq!(p.to_vec(), vec!["lo".to_string(), "hi".to_string()]);
}

#[test]
fn predict_before_fit_is_refused() {
    let c = KNeighborsClassifier::<String>::new();
    assert!(matches!(c.predict(&vec![vec![1]]), Err(VeracityError::NotFitted)));
    assert!(matches!(c.predict_proba(&vec![vec![1]]), Err(VeracityError::NotFitted)));
    assert!(matches!(c.training_rows(), Err(VeracityError::NotFitted)));
    let r = KNeighborsRegressor::new();
    assert!(matches!(r.neighbor_targets(&vec![vec![1]]), Err(VeracityError::NotFitted)));
}

#[test]
fn distance_rows_must_cover_the_training_rows() {
    let train = [0.0, 1.0];
    let mut c = KNeighborsClassifier::<String>::new();
    c.fit(&feature_table(&train), &labels(&["a", "b"])).unwrap();
    assert!(matches!(c.predict(&vec![vec![1]]), Err(VeracityError::GenericError(_))));
}

#[test]
fn proba_rows_sum_to_the_neighbour_count() {
    let train = [0.0, 1.0, 2.0, 3.0, 4.0];
    let mut c = KNeighborsClassifier::<String>::new();
    c.add_settings(KNeighborsClassifierSettings { k_neighbors: 3, ..KNeighborsClassifierSettings::default() }).unwrap();
    c.fit(&feature_table(&train), &labels(&["c", "a", "b", "a", "c"])).unwrap();
    let d = vec![keys(0.0, &train), keys(4.0, &train), keys(2.0, &train)];
    let pv = c.predict_proba(&d).unwrap();
    assert_eq!(pv.classes, vec!["a".to_string(), "b".to_string(), "c".to_string()]);
    assert_eq!(pv.total, 3);
    assert_eq!(pv.votes, vec![vec![1, 1, 1], vec![1, 1, 1], vec![2, 1, 0]]);
    for row in &pv.votes {
        let sum: f64 = row.iter().map(|v| *v as f64 / pv.total as f64).sum();
        assert!((sum - 1.0).abs() < 1e-12);
    }
}

#[test]
fn distance_weighting_needs_class_weights() {
    let train = [0.0, 1.0];
    let mut c = KNeighborsClassifier::<String>::new();
    c.add_settings(KNeighborsClassifierSettings { weights: KNeighborsWeights::Distance, ..KNeighborsClassifierSettings::default() }).unwrap();
    c.fit(&feature_table(&train), &labels(&["a", "b"])).unwrap();
    assert!(matches!(c.predict(&vec![keys(0.0, &train)]), Err(VeracityError::Classifier(_))));
    let nb = c.neighbors(&vec![keys(0.9, &train)]).unwrap();
    assert_eq!(nb, vec![vec![1, 0]]);
}

#[test]
fn score_dispatch() {
    let train = [0.0, 1.0, 10.0, 11.0];
    let mut c = KNeighborsClassifier::<String>::new();
    c.add_settings(KNeighborsClassifierSettings { k_neighbors: 1, ..KNeighborsClassifierSettings::default() }).unwrap();
    c.fit(&feature_table(&train), &labels(&["a", "a", "b", "b"])).unwrap();
    let d = vec![keys(0.2, &train), keys(10.2, &train), keys(0.8, &train)];
    let y = labels(&["a", "b", "b"]);
    match c.score(&d, &y).unwrap() {
        Score::Ratio(r) => assert_eq!(r, Ratio { numerator: 2, denominator: 3 }),
        _ => panic!("accuracy is a ratio"),
    }
    for (m, expected_not_impl) in [(EvaluationMetrics::AUROC, true), (EvaluationMetrics::LogLoss, true), (EvaluationMetrics::LRAP, true)] {
        c.add_settings(KNeighborsClassifierSettings { k_neighbors: 1, score_metric: m, ..KNeighborsClassifierSettings::default() }).unwrap();
        assert_eq!(matches!(c.score(&d, &y), Err(VeracityError::NotImplemented)), expected_not_impl);
    }
    for m in [EvaluationMetrics::R2, EvaluationMetrics::MSE, EvaluationMetrics::DunnIndex] {
        c.add_settings(KNeighborsClassifierSettings { k_neighbors: 1, score_metric: m, ..KNeighborsClassifierSettings::default() }).unwrap();
        assert!(matches!(c.score(&d, &y), Err(VeracityError::MetricNotApplicable(_))));
    }
    c.add_settings(KNeighborsClassifierSettings { k_neighbors: 1, score_metric: EvaluationMetrics::Precision, ..KNeighborsClassifierSettings::default() }).unwrap();
    match c.score(&d, &y).unwrap() {
        // positive class "a": predicted a, a, b for actual a, b, b
        Score::Ratio(r) => assert_eq!(r, Ratio { numerator: 1, denominator: 2 }),
        _ => panic!("precision is a ratio"),
    }
}

#[test]
fn score_auprc_ranks_by_second_class_votes() {
    let train = [0.0, 1.0, 10.0, 11.0];
    let mut c = KNeighborsClassifier::<String>::new();
    c.add_settings(KNeighborsClassifierSettings { k_neighbors: 2, score_metric: EvaluationMetrics::AUPRC, ..KNeighborsClassifierSettings::default() }).unwrap();
    c.fit(&feature_table(&train), &labels(&["a", "a", "b", "b"])).unwrap();
    let d = vec![keys(0.5, &train), keys(10.5, &train), keys(5.6, &train)];
    let y = labels(&["b", "a", "b"]);
    match c.score(&d, &y).unwrap() {
        Score::PrecisionRecall(curve) => {
            // votes for "b": 0, 2, 1 -> ranked rows 1, 2, 0
            assert_eq!(curve.hits, vec![false, true, true]);
            assert_eq!(curve.positives, 2);
        }
        _ => panic!("AUPRC gives a curve"),
    }
    let one_class = labels(&["a", "a", "a"]);
    assert!(matches!(c.score(&d, &one_class), Err(VeracityError::EvaluationMetric(_))));
}

#[test]
fn regressor_neighbours_of_a_query() {
    let train = [1.0, 2.0, 3.0, 4.0];
    let mut r = KNeighborsRegressor::new();
    let mut s = r.settings();
    s.k_neighbors = 3;
    r.add_settings(s).unwrap();
    let targets: Vec<u64> = [1.0f64, 2.0, 3.0, 100.0].iter().map(|v| v.to_bits()).collect();
    r.fit(&feature_table(&train), &DataVector::from_vec(targets).unwrap()).unwrap();
    let t = r.neighbor_targets(&vec![keys(0.0, &train)]).unwrap();
    let values: Vec<f64> = t[0].iter().map(|b| f64::from_bits(*b)).collect();
    assert_eq!(values, vec![1.0, 2.0, 3.0]);
    let mean = values.iter().sum::<f64>() / values.len() as f64;
    assert_eq!(mean, 2.0);
}

#[test]
fn query_rows_follow_training_feature_order() {
    let mut train = DataMatrix::new();
    train.add_column(vec![1.0f64.to_bits()], Some("p")).unwrap();
    train.add_column(vec![2.0f64.to_bits()], Some("q")).unwrap();
    let mut query = DataMatrix::new();
    query.add_column(vec![20.0f64.to_bits()], Some("q")).unwrap();
    query.add_column(vec![10.0f64.to_bits()], Some("p")).unwrap();
    let mut c = KNeighborsClassifier::<bool>::new();
    c.fit(&train, &DataVector::from_vec(vec![true]).unwrap()).unwrap();
    let rows = c.query_rows(&query).unwrap();
    assert_eq!(rows, vec![vec![10.0f64.to_bits(), 20.0f64.to_bits()]]);
    assert_eq!(c.training_rows().unwrap(), vec![vec![1.0f64.to_bits(), 2.0f64.to_bits()]]);
    let mut bad = DataMatrix::new();
    bad.add_column(vec![1i64], Some("p")).unwrap();
    bad.add_column(vec![1i64], Some("q")).unwrap();
    assert!(matches!(c.query_rows(&bad), Err(VeracityError::GenericError(_))));
}

#[test]
fn regressor_neighbours_nearest_first() {
    let train = [5.0, 1.0, 3.0];
    let mut r = KNeighborsRegressor::new();
    let targets: Vec<u64> = [50.0f64, 10.0, 30.0].iter().map(|v| v.to_bits()).collect();
    r.fit(&feature_table(&train), &DataVector::from_vec(targets).unwrap()).unwrap();
    let nb = r.neighbors(&vec![keys(2.9, &train)]).unwrap();
    assert_eq!(nb, vec![vec![2, 1, 0]]);
    assert!(matches!(r.neighbors(&vec![vec![1, 2]]), Err(VeracityError::GenericError(_))));
}

#[test]
fn scoring_given_predictions() {
    let mut c = KNeighborsClassifier::<String>::new();
    c.add_settings(KNeighborsClassifierSettings { score_metric: EvaluationMetrics::Recall, ..KNeighborsClassifierSettings::default() }).unwrap();
    let pred = labels(&["p", "n", "p"]);
    let actual = labels(&["p", "p", "n"]);
    match c.score_labels(&pred, &actual).unwrap() {
        Score::Ratio(r) => assert_eq!(r, Ratio { numerator: 1, denominator: 2 }),
        _ => panic!("recall is a ratio"),
    }
    c.add_settings(KNeighborsClassifierSettings { score_metric: EvaluationMetrics::GeometricMean, ..KNeighborsClassifierSettings::default() }).unwrap();
    match c.score_labels(&pred, &actual).unwrap() {
        Score::GeometricMean(a, b) => {
            assert_eq!(a, Ratio { numerator: 1, denominator: 2 });
            assert_eq!(b, Ratio { numerator: 0, denominator: 1 });
        }
        _ => panic!("the geometric mean has two factors"),
    }
    c.add_settings(KNeighborsClassifierSettings { score_metric: EvaluationMetrics::AUPRC, ..KNeighborsClassifierSettings::default() }).unwrap();
    assert!(matches!(c.score_labels(&pred, &actual), Err(VeracityError::Classifier(_))));
    assert!(c.score_labels(&labels(&["p"]), &actual).is_err());
}

#[test]
fn ranked_curve_from_score_keys() {
    let actual = labels(&["x", "y", "x", "y"]);
    let curve = auprc_ranked(&vec![1, 9, 9, 0], &actual).unwrap();
    // ranked rows: 1, 2, 0, 3; positive class "x"
    assert_eq!(curve.hits, vec![false, true, true, false]);
    assert_eq!(curve.positives, 2);
    assert!(auprc_ranked(&vec![1, 2], &labels(&["x", "x"])).is_err());
    assert!(auprc_ranked(&vec![1], &actual).is_err());
}

#[test]
fn roc_ranking_with_any_number_of_classes() {
    let actual = labels(&["x", "y", "z", "x"]);
    let curve = roc_ranked(&vec![3, 7, 7, 1], &actual).unwrap();
    // ranked rows: 1, 2, 0, 3; positive class "x"
    assert_eq!(curve.hits, vec![false, false, true, true]);
    assert_eq!(curve.positives, 2);
    let empty = roc_ranked(&vec![], &DataVector::<String>::new()).unwrap();
    assert!(empty.hits.is_empty());
    assert_eq!(empty.positives, 0);
    assert!(roc_ranked(&vec![1], &actual).is_err());
    assert_eq!(rank_descending(&vec![2, 9, 2, 5]), vec![1, 3, 0, 2]);
}

#[test]
fn labels_of_a_fitted_classifier() {
    let mut c = KNeighborsClassifier::<String>::new();
    assert!(matches!(c.labels(), Err(VeracityError::NotFitted)));
    c.fit(&feature_table(&[0.0, 1.0]), &labels(&["a", "b"])).unwrap();
    assert_eq!(c.labels().unwrap().to_vec(), vec!["a".to_string(), "b".to_string()]);
}
