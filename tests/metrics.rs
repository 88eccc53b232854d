use veracity::data_vector::DataVector;
use veracity::errors::{DataLoaderError, EvaluationMetricError, VeracityError};
use veracity::metrics::{accuracy, f1, geometric_mean, precision, recall, specificity, Ratio};

fn v(s: &[&str]) -> DataVector<String> {
    DataVector::from_vec(s.iter().map(|x| x.to_string()).collect()).unwrap()
}

fn value(r: Ratio) -> f64 {
    r.numerator as f64 / r.denominator as f64
}

#[test]
fn accuracy_is_one_when_all_agree() {
    let a = v(&["x", "y", "z", "x"]);
    let r = accuracy(&a, &v(&["x", "y", "z", "x"])).unwrap();
    assert_eq!(value(r), 1.0);
    let single = accuracy(&v(&["q"]), &v(&["q"])).unwrap();
    assert_eq!(value(single), 1.0);
}

#[test]
fn accuracy_is_zero_when_all_differ() {
    let r = accuracy(&v(&["x", "y"]), &v(&["y", "x"])).unwrap();
    assert_eq!(r, Ratio { numerator: 0, denominator: 2 });
    assert_eq!(value(r), 0.0);
}

#[test]
fn accuracy_counts_agreements() {
    let r = accuracy(&v(&["a", "b", "a", "b"]), &v(&["a", "a", "a", "b"])).unwrap();
    assert_eq!(r, Ratio { numerator: 3, denominator: 4 });
    let e = accuracy(&DataVector::<String>::new(), &DataVector::<String>::new()).unwrap();
    assert!(value(e).is_nan());
}

#[test]
fn metrics_refuse_different_lengths() {
    let r = accuracy(&v(&["a"]), &v(&["a", "b"]));
    assert!(matches!(r, Err(EvaluationMetricError::GenericError(_))));
    assert!(precision(&v(&["a"]), &v(&["a", "b"])).is_err());
    assert!(recall(&v(&["a"]), &v(&["a", "b"])).is_err());
    assert!(specificity(&v(&["a"]), &v(&["a", "b"])).is_err());
    assert!(f1(&v(&["a"]), &v(&["a", "b"])).is_err());
    assert!(geometric_mean(&v(&["a"]), &v(&["a", "b"])).is_err());
}

#[test]
fn binary_metrics_use_the_first_actual_label() {
    // positive class: "p"
    let actual = v(&["p", "n", "p", "n", "p"]);
    let pred = v(&["p", "p", "n", "n", "p"]);
    assert_eq!(precision(&pred, &actual).unwrap(), Ratio { numerator: 2, denominator: 3 });
    assert_eq!(recall(&pred, &actual).unwrap(), Ratio { numerator: 2, denominator: 3 });
    assert_eq!(specificity(&pred, &actual).unwrap(), Ratio { numerator: 1, denominator: 2 });
    // TP = 2, FP = 1, FN = 1: 2·2 / (2·2 + 1 + 1)
    assert_eq!(f1(&pred, &actual).unwrap(), Ratio { numerator: 4, denominator: 6 });
    assert!((value(f1(&pred, &actual).unwrap()) - 2.0 / 3.0).abs() < 1e-12);
    let (tpr, tnr) = geometric_mean(&pred, &actual).unwrap();
    assert_eq!(tpr, Ratio { numerator: 2, denominator: 3 });
    assert_eq!(tnr, Ratio { numerator: 1, denominator: 2 });
    assert!(((value(tpr) * value(tnr)).sqrt() - (1.0f64 / 3.0).sqrt()).abs() < 1e-12);
}

#[test]
fn binary_metrics_on_degenerate_inputs() {
    let empty = DataVector::<String>::new();
    assert_eq!(value(precision(&empty, &empty).unwrap()), 0.0);
    assert_eq!(value(recall(&empty, &empty).unwrap()), 0.0);
    // no prediction of the positive class
    assert_eq!(precision(&v(&["n"]), &v(&["p"])).unwrap(), Ratio { numerator: 0, denominator: 1 });
    // no actual negatives
    assert_eq!(specificity(&v(&["p"]), &v(&["p"])).unwrap(), Ratio { numerator: 0, denominator: 1 });
    assert_eq!(f1(&v(&["n"]), &v(&["p"])).unwrap(), Ratio { numerator: 0, denominator: 1 });
}

#[test]
fn error_messages_and_conversions() {
    assert!(!DataLoaderError::NoData.message().is_empty());
    assert_eq!(
        DataLoaderError::GenericError("boom".to_string()).message(),
        "An error occurred in DataLoader: boom"
    );
    match VeracityError::from(DataLoaderError::DuplicateLabel) {
        VeracityError::DataLoader(m) => assert_eq!(m, "DataFrame columns may not have duplicate labels."),
        _ => panic!("a loader error converts to DataLoader"),
    }
    match VeracityError::from(EvaluationMetricError::GenericError("m".to_string())) {
        VeracityError::EvaluationMetric(m) => assert_eq!(m, "m"),
        _ => panic!("a metric error converts to EvaluationMetric"),
    }
    assert_eq!(VeracityError::NotFitted.message(), "The model has not been fitted.");
}

#[test]
fn f1_is_the_harmonic_mean_of_precision_and_recall() {
    let pred = DataVector::from_vec(vec![1i64, 1, 1, 1]).unwrap();
    let actual = DataVector::from_vec(vec![1i64, 0, 1, 0]).unwrap();
    let f = f1(&pred, &actual).unwrap();
    assert_eq!(f, Ratio { numerator: 4, denominator: 6 });
    let p = value(precision(&pred, &actual).unwrap());
    let r = value(recall(&pred, &actual).unwrap());
    assert!((value(f) - 2.0 * p * r / (p + r)).abs() < 1e-12);
    assert!((value(f) - 2.0 / 3.0).abs() < 1e-12);
}
