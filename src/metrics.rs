use vstd::prelude::*;

use crate::data_vector::DataVector;
use crate::errors::EvaluationMetricError;
use crate::labels::ClassLabel;
use crate::classifier::ClassVotes;
use crate::neighbors::{label_keys, lemma_sorted_distinct, nearest, nearest_post, sorted_classes};

verus! {

/// An exact score `numerator / denominator`; `0 / 0` stands for an undefined
/// score.
#[derive(Clone, Copy, Debug, PartialEq, Eq, Structural)]
pub struct Ratio {
    pub numerator: usize,
    pub denominator: usize,
}

/// Which prediction/actual pairs a count takes in. `pp`: the prediction is
/// the positive class; `ap`: the actual label is; `eq`: the two agree.
#[derive(Clone, Copy, Debug, PartialEq, Eq, Structural)]
pub enum Tally {
    Agree,
    PredictedPositive,
    TruePositive,
    ActualPositive,
    ActualPositiveAgree,
    ActualNegative,
    ActualNegativeAgree,
    ActualNegativeAgreeOrPredictedPositive,
    BothPositive,
    BothNegative,
    FalsePositive,
    FalseNegative,
}

pub open spec fn tally_fits(t: Tally, pp: bool, ap: bool, eq: bool) -> bool {
    match t {
        Tally::Agree => eq,
        Tally::PredictedPositive => pp,
        Tally::TruePositive => pp && eq,
        Tally::ActualPositive => ap,
        Tally::ActualPositiveAgree => ap && eq,
        Tally::ActualNegative => !ap,
        Tally::ActualNegativeAgree => !ap && eq,
        Tally::ActualNegativeAgreeOrPredictedPositive => !ap && (eq || pp),
        Tally::BothPositive => pp && ap,
        Tally::BothNegative => !pp && !ap,
        Tally::FalsePositive => pp && !eq,
        Tally::FalseNegative => ap && !eq,
    }
}

fn fits(t: Tally, pp: bool, ap: bool, eq: bool) -> (r: bool)
    ensures
        r == tally_fits(t, pp, ap, eq),
{
    match t {
        Tally::Agree => eq,
        Tally::PredictedPositive => pp,
        Tally::TruePositive => pp && eq,
        Tally::ActualPositive => ap,
        Tally::ActualPositiveAgree => ap && eq,
        Tally::ActualNegative => !ap,
        Tally::ActualNegativeAgree => !ap && eq,
        Tally::ActualNegativeAgreeOrPredictedPositive => !ap && (eq || pp),
        Tally::BothPositive => pp && ap,
        Tally::BothNegative => !pp && !ap,
        Tally::FalsePositive => pp && !eq,
        Tally::FalseNegative => ap && !eq,
    }
}

/// How many of the first `n` pairs of `pred` and `actual` the tally takes in,
/// with `pos` as the positive class.
pub open spec fn tally(t: Tally, pred: Seq<Seq<int>>, actual: Seq<Seq<int>>, pos: Seq<int>, n: nat) -> nat
    decreases n,
{
    if n == 0 {
        0
    } else {
        let i = n - 1;
        tally(t, pred, actual, pos, (n - 1) as nat) + if tally_fits(
            t,
            pred[i] == pos,
            actual[i] == pos,
            pred[i] == actual[i],
        ) {
            1nat
        } else {
            0nat
        }
    }
}

fn count<U: ClassLabel>(t: Tally, pred: &Vec<U>, actual: &Vec<U>, pos: &U) -> (r: usize)
    requires
        pred@.len() == actual@.len(),
    ensures
        r == tally(t, label_keys(pred@), label_keys(actual@), pos.key(), pred@.len()),
{
    let mut c: usize = 0;
    let mut i: usize = 0;
    while i < pred.len()
        invariant
            i <= pred@.len(),
            pred@.len() == actual@.len(),
            c <= i,
            c == tally(t, label_keys(pred@), label_keys(actual@), pos.key(), i as nat),
        decreases pred@.len() - i,
    {
        let pp = pred[i].compare(pos) == 0;
        let ap = actual[i].compare(pos) == 0;
        let eq = pred[i].compare(&actual[i]) == 0;
        if fits(t, pp, ap, eq) {
            c = c + 1;
        }
        i = i + 1;
    }
    c
}

/// `part / whole`, or `0 / 1` where `whole` is 0.
pub open spec fn share(part: nat, whole: nat) -> Ratio {
    if whole == 0 {
        Ratio { numerator: 0, denominator: 1 }
    } else {
        Ratio { numerator: part as usize, denominator: whole as usize }
    }
}

fn make_share(part: usize, whole: usize) -> (r: Ratio)
    ensures
        r == share(part as nat, whole as nat),
{
    if whole == 0 {
        Ratio { numerator: 0, denominator: 1 }
    } else {
        Ratio { numerator: part, denominator: whole }
    }
}

fn length_error() -> (r: EvaluationMetricError) {
    EvaluationMetricError::GenericError("vectors have different lengths".to_string())
}

/// The tally over two label sequences of one length, positive class their
/// first actual label.
pub open spec fn tally_of<U: ClassLabel>(t: Tally, pred: Seq<U>, actual: Seq<U>) -> nat {
    tally(t, label_keys(pred), label_keys(actual), actual[0].key(), pred.len())
}

/// The accuracy: agreements over pairs.
pub open spec fn accuracy_of<U: ClassLabel>(y_true: Seq<U>, y_pred: Seq<U>) -> Ratio {
    Ratio {
        numerator: tally(Tally::Agree, label_keys(y_pred), label_keys(y_true), Seq::empty(), y_true.len())
            as usize,
        denominator: y_true.len() as usize,
    }
}

/// The precision: true positives over predicted positives.
pub open spec fn precision_of<U: ClassLabel>(pred: Seq<U>, actual: Seq<U>) -> Ratio {
    if pred.len() == 0 {
        share(0, 0)
    } else {
        share(tally_of(Tally::TruePositive, pred, actual), tally_of(Tally::PredictedPositive, pred, actual))
    }
}

/// The recall: true positives over actual positives.
pub open spec fn recall_of<U: ClassLabel>(pred: Seq<U>, actual: Seq<U>) -> Ratio {
    if pred.len() == 0 {
        share(0, 0)
    } else {
        share(
            tally_of(Tally::ActualPositiveAgree, pred, actual),
            tally_of(Tally::ActualPositive, pred, actual),
        )
    }
}

/// The specificity: true negatives over true negatives and false positives.
pub open spec fn specificity_of<U: ClassLabel>(pred: Seq<U>, actual: Seq<U>) -> Ratio {
    if pred.len() == 0 {
        share(0, 0)
    } else {
        share(
            tally_of(Tally::ActualNegativeAgree, pred, actual),
            tally_of(Tally::ActualNegativeAgreeOrPredictedPositive, pred, actual),
        )
    }
}

/// The F1 score, positive class the first actual label: `2·TP / (2·TP + FP +
/// FN)`, the harmonic mean of precision and recall; `0 / 1` where there is
/// no true positive.
pub open spec fn f1_of<U: ClassLabel>(pred: Seq<U>, actual: Seq<U>) -> Ratio {
    let tp = tally_of(Tally::TruePositive, pred, actual);
    let fp = tally_of(Tally::FalsePositive, pred, actual);
    let fn_ = tally_of(Tally::FalseNegative, pred, actual);
    if pred.len() == 0 || tp == 0 {
        share(0, 0)
    } else {
        Ratio { numerator: (2 * tp) as usize, denominator: (2 * tp + fp + fn_) as usize }
    }
}

/// The F1 score is the harmonic mean of precision and recall: where there is
/// a true positive, `f1 · (P + R) = 2 · P · R`, the ratios cross-multiplied.
pub proof fn lemma_f1_harmonic_mean<U: ClassLabel>(pred: Seq<U>, actual: Seq<U>)
    requires
        pred.len() == actual.len(),
        1 <= actual.len() <= usize::MAX / 2,
        tally_of(Tally::TruePositive, pred, actual) > 0,
    ensures
        ({
            let f = f1_of(pred, actual);
            let p = precision_of(pred, actual);
            let r = recall_of(pred, actual);
            f.numerator * (p.numerator * r.denominator + r.numerator * p.denominator) == f.denominator * 2
                * p.numerator * r.numerator
        }),
{
    let (kp, ka, pos, n) = (label_keys(pred), label_keys(actual), actual[0].key(), pred.len());
    lemma_f1_parts(kp, ka, pos, n);
    lemma_true_positive_either_way(kp, ka, pos, n);
    let tp = tally(Tally::TruePositive, kp, ka, pos, n) as int;
    let pp = tally(Tally::PredictedPositive, kp, ka, pos, n) as int;
    let ap = tally(Tally::ActualPositive, kp, ka, pos, n) as int;
    assert(2 * tp * (tp * ap + tp * pp) == (pp + ap) * 2 * tp * tp) by (nonlinear_arith);
}

proof fn lemma_true_positive_either_way(pred: Seq<Seq<int>>, actual: Seq<Seq<int>>, pos: Seq<int>, n: nat)
    ensures
        tally(Tally::TruePositive, pred, actual, pos, n) == tally(Tally::ActualPositiveAgree, pred, actual, pos, n),
    decreases n,
{
    if n > 0 {
        lemma_true_positive_either_way(pred, actual, pos, (n - 1) as nat);
    }
}

/// True and false positives make up the predicted positives; true positives
/// and false negatives the actual positives; no tally exceeds the pairs.
proof fn lemma_f1_parts(pred: Seq<Seq<int>>, actual: Seq<Seq<int>>, pos: Seq<int>, n: nat)
    ensures
        tally(Tally::TruePositive, pred, actual, pos, n) + tally(Tally::FalsePositive, pred, actual, pos, n)
            == tally(Tally::PredictedPositive, pred, actual, pos, n),
        tally(Tally::TruePositive, pred, actual, pos, n) + tally(Tally::FalseNegative, pred, actual, pos, n)
            == tally(Tally::ActualPositive, pred, actual, pos, n),
        tally(Tally::PredictedPositive, pred, actual, pos, n) <= n,
        tally(Tally::ActualPositive, pred, actual, pos, n) <= n,
    decreases n,
{
    if n > 0 {
        lemma_f1_parts(pred, actual, pos, (n - 1) as nat);
    }
}

/// The two factors of the geometric mean: true positive and true negative rate.
pub open spec fn geometric_mean_of<U: ClassLabel>(pred: Seq<U>, actual: Seq<U>) -> (Ratio, Ratio) {
    if pred.len() == 0 {
        (share(0, 0), share(0, 0))
    } else {
        (
            share(tally_of(Tally::BothPositive, pred, actual), tally_of(Tally::ActualPositive, pred, actual)),
            share(tally_of(Tally::BothNegative, pred, actual), tally_of(Tally::ActualNegative, pred, actual)),
        )
    }
}

proof fn lemma_agree_extremes(pred: Seq<Seq<int>>, actual: Seq<Seq<int>>, pos: Seq<int>, n: nat)
    requires
        n <= pred.len(),
        n <= actual.len(),
    ensures
        (forall|i: int| 0 <= i < n ==> pred[i] == actual[i]) ==> tally(Tally::Agree, pred, actual, pos, n) == n,
        (forall|i: int| 0 <= i < n ==> pred[i] != actual[i]) ==> tally(Tally::Agree, pred, actual, pos, n) == 0,
    decreases n,
{
    if n > 0 {
        lemma_agree_extremes(pred, actual, pos, (n - 1) as nat);
    }
}

/// Predictions that all equal the actual labels score an accuracy of `n / n`,
/// that is 1; predictions that all differ score `0 / n`, that is 0.
pub proof fn lemma_accuracy_extremes<U: ClassLabel>(y_true: Seq<U>, y_pred: Seq<U>)
    requires
        y_true.len() == y_pred.len(),
        y_true.len() >= 1,
    ensures
        (forall|i: int| 0 <= i < y_true.len() ==> #[trigger] y_pred[i]@ == y_true[i]@)
            ==> accuracy_of(y_true, y_pred) == (Ratio {
            numerator: y_true.len() as usize,
            denominator: y_true.len() as usize,
        }),
        (forall|i: int| 0 <= i < y_true.len() ==> #[trigger] y_pred[i]@ != y_true[i]@)
            ==> accuracy_of(y_true, y_pred) == (Ratio { numerator: 0, denominator: y_true.len() as usize }),
{
    let p = label_keys(y_pred);
    let a = label_keys(y_true);
    lemma_agree_extremes(p, a, Seq::empty(), y_true.len());
    if forall|i: int| 0 <= i < y_true.len() ==> #[trigger] y_pred[i]@ == y_true[i]@ {
        assert forall|i: int| 0 <= i < y_true.len() implies p[i] == a[i] by {
            assert(y_pred[i]@ == y_true[i]@);
            U::lemma_key_view(y_pred[i], y_true[i]);
        }
    }
    if forall|i: int| 0 <= i < y_true.len() ==> #[trigger] y_pred[i]@ != y_true[i]@ {
        assert forall|i: int| 0 <= i < y_true.len() implies p[i] != a[i] by {
            assert(y_pred[i]@ != y_true[i]@);
            U::lemma_key_view(y_pred[i], y_true[i]);
        }
    }
}

/// The share of predictions that equal the actual labels; `0 / 0` for empty
/// inputs.
pub fn accuracy<U: ClassLabel>(y_true: &DataVector<U>, y_pred: &DataVector<U>) -> (r: Result<
    Ratio,
    EvaluationMetricError,
>)
    ensures
        y_true@.len() != y_pred@.len() ==> r is Err,
        y_true@.len() == y_pred@.len() ==> r == Ok::<Ratio, EvaluationMetricError>(
            accuracy_of(y_true@, y_pred@),
        ),
{
    let t = y_true.get_data();
    let p = y_pred.get_data();
    if t.len() != p.len() {
        return Err(length_error());
    }
    if t.len() == 0 {
        return Ok(Ratio { numerator: 0, denominator: 0 });
    }
    let correct = count(Tally::Agree, p, t, &t[0]);
    proof {
        lemma_agree_ignores_pos(label_keys(p@), label_keys(t@), t@[0].key(), Seq::empty(), t@.len());
    }
    Ok(Ratio { numerator: correct, denominator: t.len() })
}

proof fn lemma_agree_ignores_pos(pred: Seq<Seq<int>>, actual: Seq<Seq<int>>, a: Seq<int>, b: Seq<int>, n: nat)
    ensures
        tally(Tally::Agree, pred, actual, a, n) == tally(Tally::Agree, pred, actual, b, n),
    decreases n,
{
    if n > 0 {
        lemma_agree_ignores_pos(pred, actual, a, b, (n - 1) as nat);
    }
}

/// Of the predictions of the positive class (the first actual label), the
/// share that is right; `0 / 1` where there is none.
pub fn precision<U: ClassLabel>(y_pred: &DataVector<U>, y_actual: &DataVector<U>) -> (r: Result<
    Ratio,
    EvaluationMetricError,
>)
    ensures
        y_pred@.len() != y_actual@.len() ==> r is Err,
        y_pred@.len() == y_actual@.len() ==> r == Ok::<Ratio, EvaluationMetricError>(
            precision_of(y_pred@, y_actual@),
        ),
{
    let p = y_pred.get_data();
    let a = y_actual.get_data();
    if p.len() != a.len() {
        return Err(length_error());
    }
    if a.len() == 0 {
        return Ok(make_share(0, 0));
    }
    let tp = count(Tally::TruePositive, p, a, &a[0]);
    let predicted = count(Tally::PredictedPositive, p, a, &a[0]);
    Ok(make_share(tp, predicted))
}

/// Of the actual positives (the class of the first actual label), the share
/// predicted as such; `0 / 1` where there is none.
pub fn recall<U: ClassLabel>(y_pred: &DataVector<U>, y_actual: &DataVector<U>) -> (r: Result<
    Ratio,
    EvaluationMetricError,
>)
    ensures
        y_pred@.len() != y_actual@.len() ==> r is Err,
        y_pred@.len() == y_actual@.len() ==> r == Ok::<Ratio, EvaluationMetricError>(
            recall_of(y_pred@, y_actual@),
        ),
{
    let p = y_pred.get_data();
    let a = y_actual.get_data();
    if p.len() != a.len() {
        return Err(length_error());
    }
    if a.len() == 0 {
        return Ok(make_share(0, 0));
    }
    let tp = count(Tally::ActualPositiveAgree, p, a, &a[0]);
    let positives = count(Tally::ActualPositive, p, a, &a[0]);
    Ok(make_share(tp, positives))
}

/// Of the actual negatives that were predicted right or predicted positive,
/// the share predicted right; `0 / 1` where there is none.
pub fn specificity<U: ClassLabel>(y_pred: &DataVector<U>, y_actual: &DataVector<U>) -> (r: Result<
    Ratio,
    EvaluationMetricError,
>)
    ensures
        y_pred@.len() != y_actual@.len() ==> r is Err,
        y_pred@.len() == y_actual@.len() ==> r == Ok::<Ratio, EvaluationMetricError>(
            specificity_of(y_pred@, y_actual@),
        ),
{
    let p = y_pred.get_data();
    let a = y_actual.get_data();
    if p.len() != a.len() {
        return Err(length_error());
    }
    if a.len() == 0 {
        return Ok(make_share(0, 0));
    }
    let tn = count(Tally::ActualNegativeAgree, p, a, &a[0]);
    let counted = count(Tally::ActualNegativeAgreeOrPredictedPositive, p, a, &a[0]);
    Ok(make_share(tn, counted))
}

/// The F1 score, positive class the first actual label: twice the true
/// positives over twice the true positives plus the false positives and
/// false negatives, the harmonic mean of precision and recall; `0 / 1` where
/// there is no true positive.
pub fn f1<U: ClassLabel>(y_pred: &DataVector<U>, y_actual: &DataVector<U>) -> (r: Result<
    Ratio,
    EvaluationMetricError,
>)
    requires
        y_actual@.len() <= usize::MAX / 2,
    ensures
        y_pred@.len() != y_actual@.len() ==> r is Err,
        y_pred@.len() == y_actual@.len() ==> r == Ok::<Ratio, EvaluationMetricError>(
            f1_of(y_pred@, y_actual@),
        ),
{
    let p = y_pred.get_data();
    let a = y_actual.get_data();
    if p.len() != a.len() {
        return Err(length_error());
    }
    if a.len() == 0 {
        return Ok(make_share(0, 0));
    }
    let tp = count(Tally::TruePositive, p, a, &a[0]);
    let fp = count(Tally::FalsePositive, p, a, &a[0]);
    let fn_ = count(Tally::FalseNegative, p, a, &a[0]);
    proof {
        lemma_f1_parts(label_keys(p@), label_keys(a@), a@[0].key(), a@.len());
    }
    if tp == 0 {
        Ok(make_share(0, 0))
    } else {
        Ok(Ratio { numerator: 2 * tp, denominator: 2 * tp + fp + fn_ })
    }
}

/// The two factors of the geometric mean, whose product's square root is the
/// score: the true positive rate and the true negative rate, positive class
/// the first actual label, each `0 / 1` where its class is absent.
pub fn geometric_mean<U: ClassLabel>(y_pred: &DataVector<U>, y_actual: &DataVector<U>) -> (r: Result<
    (Ratio, Ratio),
    EvaluationMetricError,
>)
    ensures
        y_pred@.len() != y_actual@.len() ==> r is Err,
        y_pred@.len() == y_actual@.len() ==> r == Ok::<(Ratio, Ratio), EvaluationMetricError>(
            geometric_mean_of(y_pred@, y_actual@),
        ),
{
    let p = y_pred.get_data();
    let a = y_actual.get_data();
    if p.len() != a.len() {
        return Err(length_error());
    }
    if a.len() == 0 {
        return Ok((make_share(0, 0), make_share(0, 0)));
    }
    let tp = count(Tally::BothPositive, p, a, &a[0]);
    let positives = count(Tally::ActualPositive, p, a, &a[0]);
    let tn = count(Tally::BothNegative, p, a, &a[0]);
    let negatives = count(Tally::ActualNegative, p, a, &a[0]);
    Ok((make_share(tp, positives), make_share(tn, negatives)))
}

/// The steps of a ranking: whether each ranked row is of the positive class,
/// best score first, and how many rows are. The area under the
/// precision-recall curve is the sum, over ranked rows after the first, of the
/// precision at the row times the recall it adds; the area under the ROC curve
/// integrates the true positive rate over the false positive rate.
#[derive(Debug)]
pub struct PrecisionRecallCurve {
    pub hits: Vec<bool>,
    pub positives: usize,
}

/// The ranking keys of scores: a higher score ranks first.
pub open spec fn descending_keys(scores: Seq<u64>) -> Seq<u64> {
    scores.map_values(|v: u64| (u64::MAX - v) as u64)
}

/// The number of distinct labels.
pub open spec fn distinct_count<U: ClassLabel>(labels: Seq<U>) -> nat {
    label_keys(labels).to_set().len()
}

/// `curve` ranks the rows by `scores`, highest first and equal scores in row
/// order, and marks the rows whose label is the first actual label.
pub open spec fn curve_post<U: ClassLabel>(scores: Seq<u64>, actual: Seq<U>, hits: Seq<bool>, positives: nat) -> bool {
    &&& hits.len() == actual.len()
    &&& positives == tally_of(Tally::ActualPositive, actual, actual)
    &&& exists|ranked: Seq<usize>|
        nearest_post(descending_keys(scores), actual.len(), ranked) && forall|j: int|
            0 <= j < hits.len() ==> #[trigger] hits[j] == (actual[ranked[j] as int].key() == actual[0].key())
}

/// The second class's votes of each row.
pub open spec fn second_column(votes: Seq<Vec<u64>>) -> Seq<u64> {
    votes.map_values(|row: Vec<u64>| row@[1])
}

/// The area under the precision-recall curve, as its steps: rows ranked by
/// their votes for the second class, the positive class being the first
/// actual label. Needs one row per actual label, exactly two distinct actual
/// labels, and two classes.
pub fn auprc<U: ClassLabel>(proba: &ClassVotes<U>, actual: &DataVector<U>) -> (r: Result<
    PrecisionRecallCurve,
    EvaluationMetricError,
>)
    ensures
        (r is Ok) == (proba.votes@.len() == actual@.len() && distinct_count(actual@) == 2
            && proba.classes@.len() >= 2 && forall|i: int|
            0 <= i < proba.votes@.len() ==> #[trigger] proba.votes@[i]@.len() >= 2),
        r matches Ok(c) ==> curve_post(second_column(proba.votes@), actual@, c.hits@, c.positives as nat),
{
    if proba.classes.len() < 2 {
        return Err(EvaluationMetricError::GenericError("missing predicted probability column".to_string()));
    }
    let n = proba.votes.len();
    let mut scores: Vec<u64> = Vec::with_capacity(n);
    let mut i: usize = 0;
    while i < n
        invariant
            i <= n,
            n == proba.votes@.len(),
            scores@.len() == i,
            forall|x: int| 0 <= x < i ==> #[trigger] proba.votes@[x]@.len() >= 2,
            forall|x: int| 0 <= x < i ==> #[trigger] scores@[x] == proba.votes@[x]@[1],
        decreases n - i,
    {
        if proba.votes[i].len() < 2 {
            return Err(EvaluationMetricError::GenericError("missing predicted probability column".to_string()));
        }
        scores.push(proba.votes[i][1]);
        i = i + 1;
    }
    proof {
        assert(scores@ =~= second_column(proba.votes@));
    }
    auprc_ranked(&scores, actual)
}

/// The rows by `scores`, highest first, equal scores in row order.
pub fn rank_descending(scores: &Vec<u64>) -> (r: Vec<usize>)
    ensures
        nearest_post(descending_keys(scores@), scores@.len(), r@),
{
    let n = scores.len();
    let mut keys: Vec<u64> = Vec::with_capacity(n);
    let mut i: usize = 0;
    while i < n
        invariant
            i <= n,
            n == scores@.len(),
            keys@.len() == i,
            forall|x: int| 0 <= x < i ==> #[trigger] keys@[x] == (u64::MAX - scores@[x]) as u64,
        decreases n - i,
    {
        keys.push(u64::MAX - scores[i]);
        i = i + 1;
    }
    proof {
        assert(keys@ =~= descending_keys(scores@));
    }
    nearest(&keys, n)
}

/// The steps of the precision-recall curve of `scores`, one per actual label,
/// where a larger score ranks first; the positive class is the first actual
/// label. Needs exactly two distinct actual labels.
pub fn auprc_ranked<U: ClassLabel>(scores: &Vec<u64>, actual: &DataVector<U>) -> (r: Result<
    PrecisionRecallCurve,
    EvaluationMetricError,
>)
    ensures
        (r is Ok) == (scores@.len() == actual@.len() && distinct_count(actual@) == 2),
        r matches Ok(c) ==> curve_post(scores@, actual@, c.hits@, c.positives as nat),
{
    let a = actual.get_data();
    if scores.len() != a.len() {
        return Err(EvaluationMetricError::GenericError("inputs must be the same length".to_string()));
    }
    let present = sorted_classes(a);
    proof {
        lemma_sorted_distinct(label_keys(present@));
        label_keys(present@).unique_seq_to_set();
        assert(label_keys(present@).to_set() =~= label_keys(a@).to_set()) by {
            assert forall|k: Seq<int>| label_keys(a@).to_set().contains(k) implies label_keys(present@).to_set().contains(k) by {
                let i = choose|i: int| 0 <= i < a@.len() && label_keys(a@)[i] == k;
                assert(label_keys(present@).contains(a@[i].key()));
            }
            assert forall|k: Seq<int>| label_keys(present@).to_set().contains(k) implies label_keys(a@).to_set().contains(k) by {
                let c = choose|c: int| 0 <= c < present@.len() && label_keys(present@)[c] == k;
                assert(label_keys(a@).contains(present@[c].key()));
            }
        }
    }
    if present.len() != 2 {
        return Err(EvaluationMetricError::GenericError("the area under the precision-recall curve needs two classes".to_string()));
    }
    roc_ranked(scores, actual)
}

/// The ranking behind the ROC and precision-recall curves: whether each row,
/// by `scores` highest first and equal scores in row order, is of the positive
/// class (the first actual label), and how many rows are. Needs one score per
/// actual label.
pub fn roc_ranked<U: ClassLabel>(scores: &Vec<u64>, actual: &DataVector<U>) -> (r: Result<
    PrecisionRecallCurve,
    EvaluationMetricError,
>)
    ensures
        (r is Ok) == (scores@.len() == actual@.len()),
        r matches Ok(c) ==> curve_post(scores@, actual@, c.hits@, c.positives as nat),
{
    let a = actual.get_data();
    let n = a.len();
    if scores.len() != n {
        return Err(EvaluationMetricError::GenericError("inputs must be the same length".to_string()));
    }
    let ranked = rank_descending(scores);
    if n == 0 {
        proof {
            assert(curve_post(scores@, a@, Seq::<bool>::empty(), 0));
        }
        return Ok(PrecisionRecallCurve { hits: Vec::new(), positives: 0 });
    }
    let mut hits: Vec<bool> = Vec::with_capacity(n);
    let mut j: usize = 0;
    while j < n
        invariant
            j <= n,
            n == a@.len(),
            n > 0,
            ranked@.len() == n,
            forall|x: int| 0 <= x < ranked@.len() ==> #[trigger] ranked@[x] < n,
            hits@.len() == j,
            forall|x: int| 0 <= x < j ==> #[trigger] hits@[x] == (a@[ranked@[x] as int].key() == a@[0].key()),
        decreases n - j,
    {
        hits.push(a[ranked[j]].compare(&a[0]) == 0);
        j = j + 1;
    }
    let positives = count(Tally::ActualPositive, a, a, &a[0]);
    Ok(PrecisionRecallCurve { hits, positives })
}

} // verus!
