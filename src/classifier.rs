use vstd::prelude::*;

use crate::data_matrix::{feature_rows_post, float_key, views_of, DataMatrix};
use crate::data_vector::{opt_view, DataVector};
use crate::enums::{DistanceMetrics, EvaluationMetrics, KNeighborsWeights};
use crate::errors::{EvaluationMetricError, VeracityError};
use crate::metrics::{
    accuracy, accuracy_of, auprc, curve_post, distinct_count, f1, f1_of, geometric_mean, geometric_mean_of,
    precision, precision_of, recall, recall_of, second_column, specificity, specificity_of,
    PrecisionRecallCurve, Ratio,
};
use crate::labels::{lemma_lex_irreflexive, lemma_lex_total, lex_lt, ClassLabel};
use crate::neighbors::{
    decide, label_keys, lemma_row_total, lemma_sorted_distinct, lemma_votes_total, min_nat, nearest,
    nearest_post, row_total, sorted_classes, strictly_sorted, vote_counts, votes_for,
};

verus! {

/// The bit pattern of the machine epsilon of 64-bit floats, 2^-52.
pub const F64_EPSILON_BITS: u64 = 0x3CB0000000000000;

/// How a classifier searches and votes.
#[derive(Clone, Copy, Debug)]
pub struct KNeighborsClassifierSettings {
    /// How many neighbours vote.
    pub k_neighbors: usize,
    pub weights: KNeighborsWeights,
    /// The exponent of the Minkowski distance.
    pub p: i64,
    pub distance_metric: DistanceMetrics,
    /// The metric `score` computes.
    pub score_metric: EvaluationMetrics,
    /// The term added to a distance before it is inverted, as the bit pattern
    /// of a 64-bit float.
    pub epsilon_bits: u64,
}

impl KNeighborsClassifierSettings {
    pub open spec fn spec_default() -> Self {
        KNeighborsClassifierSettings {
            k_neighbors: 5,
            weights: KNeighborsWeights::Uniform,
            p: 2,
            distance_metric: DistanceMetrics::Euclidean,
            score_metric: EvaluationMetrics::Accuracy,
            epsilon_bits: F64_EPSILON_BITS,
        }
    }
}

impl Default for KNeighborsClassifierSettings {
    /// Five neighbours with equal votes, Euclidean distance, scored by accuracy.
    fn default() -> (r: Self)
        ensures
            r == Self::spec_default(),
    {
        KNeighborsClassifierSettings {
            k_neighbors: 5,
            weights: KNeighborsWeights::Uniform,
            p: 2,
            distance_metric: DistanceMetrics::Euclidean,
            score_metric: EvaluationMetrics::Accuracy,
            epsilon_bits: F64_EPSILON_BITS,
        }
    }
}

/// A score of a classifier, exact: the caller turns it into a number.
#[derive(Debug)]
pub enum Score {
    /// A ratio of counts.
    Ratio(Ratio),
    /// The square root of the product of two ratios.
    GeometricMean(Ratio, Ratio),
    /// The steps of a precision-recall curve, whose area is the score.
    PrecisionRecall(PrecisionRecallCurve),
}

/// The metric is one that `score` computes from predicted labels.
pub open spec fn label_metric(m: EvaluationMetrics) -> bool {
    m == EvaluationMetrics::Accuracy || m == EvaluationMetrics::F1 || m == EvaluationMetrics::GeometricMean
        || m == EvaluationMetrics::Precision || m == EvaluationMetrics::Recall || m
        == EvaluationMetrics::Specificity
}

/// The score of a metric computed from predicted labels `p` against the
/// actual labels `y`.
pub open spec fn label_score<U: ClassLabel>(m: EvaluationMetrics, p: Seq<U>, y: Seq<U>) -> Score {
    match m {
        EvaluationMetrics::Accuracy => Score::Ratio(accuracy_of(y, p)),
        EvaluationMetrics::F1 => Score::Ratio(f1_of(p, y)),
        EvaluationMetrics::Precision => Score::Ratio(precision_of(p, y)),
        EvaluationMetrics::Recall => Score::Ratio(recall_of(p, y)),
        EvaluationMetrics::Specificity => Score::Ratio(specificity_of(p, y)),
        _ => Score::GeometricMean(geometric_mean_of(p, y).0, geometric_mean_of(p, y).1),
    }
}

/// The metric is a classification metric that `score` does not compute yet.
pub open spec fn unbuilt_metric(m: EvaluationMetrics) -> bool {
    m == EvaluationMetrics::AUROC || m == EvaluationMetrics::LogLoss || m == EvaluationMetrics::LRAP
}

fn metric_error(e: EvaluationMetricError) -> (r: VeracityError) {
    match e {
        EvaluationMetricError::GenericError(m) => VeracityError::EvaluationMetric(m),
    }
}

/// The votes of each class for each query row, under equal weights.
#[derive(Debug)]
pub struct ClassVotes<U> {
    /// The distinct training labels, smallest first.
    pub classes: Vec<U>,
    /// Per query row, per class, the number of neighbours with that label.
    pub votes: Vec<Vec<u64>>,
    /// The number of neighbours of each query row; the probability of a class
    /// is its votes over this.
    pub total: usize,
}

/// `l` is the label a majority vote of `nbrs` elects: a training label with
/// the most votes, and the smallest of those.
pub open spec fn majority_label(keys: Seq<Seq<int>>, nbrs: Seq<usize>, l: Seq<int>) -> bool {
    &&& keys.contains(l)
    &&& forall|i: int| 0 <= i < keys.len() ==> votes_for(keys, nbrs, #[trigger] keys[i]) <= votes_for(keys, nbrs, l)
    &&& forall|i: int|
        0 <= i < keys.len() && lex_lt(#[trigger] keys[i], l) ==> votes_for(keys, nbrs, keys[i]) < votes_for(
            keys,
            nbrs,
            l,
        )
}

/// `l` is elected by the `k` training rows nearest to a query whose distance
/// keys are `d`.
pub open spec fn elected(d: Seq<u64>, k: nat, keys: Seq<Seq<int>>, l: Seq<int>) -> bool {
    exists|nbrs: Seq<usize>| nearest_post(d, k, nbrs) && majority_label(keys, nbrs, l)
}

/// `row` holds, for each class in `ck`, the votes it gets from the `k`
/// training rows nearest to a query whose distance keys are `d`.
pub open spec fn tallied(d: Seq<u64>, k: nat, keys: Seq<Seq<int>>, ck: Seq<Seq<int>>, row: Seq<u64>) -> bool {
    exists|nbrs: Seq<usize>|
        nearest_post(d, k, nbrs) && row.len() == ck.len() && forall|c: int|
            0 <= c < ck.len() ==> #[trigger] row[c] == votes_for(keys, nbrs, ck[c])
}

/// Every row of `distances` has one key per training row.
pub open spec fn rows_match(distances: Seq<Vec<u64>>, n: nat) -> bool {
    forall|q: int| 0 <= q < distances.len() ==> #[trigger] distances[q]@.len() == n
}

/// A k-nearest-neighbours classifier over training rows of float features.
///
/// Distances are computed outside: each query row comes with one distance key
/// per training row, where a smaller key is a smaller distance.
#[derive(Debug)]
pub struct KNeighborsClassifier<U> {
    x: Option<DataMatrix>,
    y: Option<DataVector<U>>,
    settings: KNeighborsClassifierSettings,
}

impl<U: ClassLabel> KNeighborsClassifier<U> {
    pub closed spec fn settings_view(&self) -> KNeighborsClassifierSettings {
        self.settings
    }

    pub closed spec fn fitted(&self) -> bool {
        self.x is Some && self.y is Some
    }

    /// The training feature table.
    pub closed spec fn train_x(&self) -> DataMatrix {
        self.x.unwrap()
    }

    /// The training labels.
    pub closed spec fn train_y(&self) -> Seq<U> {
        self.y.unwrap()@
    }

    pub closed spec fn wf(&self) -> bool {
        (self.x is Some ==> self.x.unwrap().wf()) && (self.x is Some <==> self.y is Some)
    }

    /// The number of training rows: the number of labels.
    pub open spec fn n_train(&self) -> nat {
        self.train_y().len()
    }

    /// What `predict` returns on success for these distance rows.
    pub open spec fn predicted(&self, distances: Seq<Vec<u64>>, preds: Seq<U>) -> bool {
        &&& preds.len() == distances.len()
        &&& forall|q: int|
            0 <= q < distances.len() ==> elected(
                #[trigger] distances[q]@,
                self.settings_view().k_neighbors as nat,
                label_keys(self.train_y()),
                preds[q].key(),
            )
    }

    /// The conditions under which `predict` and `predict_proba` succeed.
    pub open spec fn can_predict(&self, distances: Seq<Vec<u64>>) -> bool {
        &&& self.fitted()
        &&& rows_match(distances, self.n_train())
        &&& self.settings_view().weights == KNeighborsWeights::Uniform
        &&& self.settings_view().k_neighbors > 0
        &&& self.n_train() > 0
    }

    /// `votes` is what `predict_proba` returns as votes for these rows.
    pub open spec fn proba_votes(&self, distances: Seq<Vec<u64>>, votes: Seq<Vec<u64>>) -> bool {
        exists|cl: Seq<U>|
            classes_of(self.train_y(), cl) && votes.len() == distances.len() && forall|q: int|
                0 <= q < distances.len() ==> tallied(
                    #[trigger] distances[q]@,
                    self.settings_view().k_neighbors as nat,
                    label_keys(self.train_y()),
                    label_keys(cl),
                    votes[q]@,
                )
    }

    /// `s` is the configured metric of the predictions for these rows
    /// against the actual labels `y`.
    pub open spec fn scored(&self, distances: Seq<Vec<u64>>, y: Seq<U>, s: Score) -> bool {
        match self.settings_view().score_metric {
            EvaluationMetrics::Accuracy | EvaluationMetrics::F1 | EvaluationMetrics::Precision
            | EvaluationMetrics::Recall | EvaluationMetrics::Specificity
            | EvaluationMetrics::GeometricMean => exists|p: Seq<U>|
                self.predicted(distances, p) && s == label_score(self.settings_view().score_metric, p, y),
            EvaluationMetrics::AUPRC => exists|votes: Seq<Vec<u64>>|
                self.proba_votes(distances, votes) && (s matches Score::PrecisionRecall(c) && curve_post(
                    second_column(votes),
                    y,
                    c.hits@,
                    c.positives as nat,
                )),
            _ => false,
        }
    }

    /// An unfitted classifier with the default settings.
    pub fn new() -> (r: Self)
        ensures
            r.wf(),
            !r.fitted(),
            r.settings_view() == KNeighborsClassifierSettings::spec_default(),
    {
        KNeighborsClassifier { x: None, y: None, settings: KNeighborsClassifierSettings::default() }
    }

    /// Replaces the settings.
    pub fn add_settings(&mut self, settings: KNeighborsClassifierSettings) -> (r: Result<(), VeracityError>)
        ensures
            r is Ok,
            final(self).settings_view() == settings,
            final(self).wf() == old(self).wf(),
            final(self).fitted() == old(self).fitted(),
            final(self).train_x() == old(self).train_x(),
            final(self).train_y() == old(self).train_y(),
    {
        self.settings = settings;
        Ok(())
    }

    /// The current settings.
    pub fn settings(&self) -> (r: KNeighborsClassifierSettings)
        ensures
            r == self.settings_view(),
    {
        self.settings
    }

    /// Stores copies of the training features and labels, replacing any
    /// earlier ones.
    pub fn fit(&mut self, x: &DataMatrix, y: &DataVector<U>) -> (r: Result<(), VeracityError>)
        requires
            x.wf(),
        ensures
            r is Ok,
            final(self).wf(),
            final(self).fitted(),
            final(self).train_x().key_views() == x.key_views(),
            final(self).train_x().column_views() == x.column_views(),
            final(self).train_x().index_views() == x.index_views(),
            final(self).train_y() == y@,
            final(self).settings_view() == old(self).settings_view(),
    {
        let xc = x.duplicate();
        let yc = y.duplicate();
        proof {
            assert(xc.wf());
        }
        self.x = Some(xc);
        self.y = Some(yc);
        Ok(())
    }

    /// The feature rows of `x`, in the column order of the training features,
    /// each value as its bit pattern. `x` needs a float column under every
    /// training feature's key.
    pub fn query_rows(&self, x: &DataMatrix) -> (r: Result<Vec<Vec<u64>>, VeracityError>)
        requires
            self.wf(),
            x.wf(),
        ensures
            !self.fitted() ==> r == Err::<Vec<Vec<u64>>, _>(VeracityError::NotFitted),
            (r is Ok) == (self.fitted() && forall|j: int|
                0 <= j < self.train_x().key_views().len() ==> float_key(
                    *x,
                    #[trigger] self.train_x().key_views()[j],
                )),
            r matches Ok(rows) ==> self.fitted() && feature_rows_post(*x, self.train_x().key_views(), rows@),
    {
        match &self.x {
            None => Err(VeracityError::NotFitted),
            Some(train) => {
                let names = train.get_keys();
                proof {
                    assert forall|j: int| 0 <= j < names@.len() implies #[trigger] names@[j]@ == train.key_views()[j] by {
                        assert(views_of(names@)[j] == names@[j]@);
                    }
                }
                let rows = x.feature_rows(&names);
                proof {
                    assert(views_of(names@).len() == names@.len());
                    if forall|j: int|
                        0 <= j < train.key_views().len() ==> float_key(*x, #[trigger] train.key_views()[j]) {
                        assert forall|j: int| 0 <= j < names@.len() implies float_key(*x, #[trigger] names@[j]@) by {
                            assert(float_key(*x, train.key_views()[j]));
                        }
                    } else {
                        let j = choose|j: int|
                            0 <= j < train.key_views().len() && !float_key(*x, #[trigger] train.key_views()[j]);
                        assert(names@[j]@ == train.key_views()[j]);
                    }
                    assert(*train == self.train_x());
                }
                match rows {
                    Ok(rows) => Ok(rows),
                    Err(_) => Err(VeracityError::GenericError("invalid data format".to_string())),
                }
            },
        }
    }

    /// The training feature rows.
    pub fn training_rows(&self) -> (r: Result<Vec<Vec<u64>>, VeracityError>)
        requires
            self.wf(),
        ensures
            !self.fitted() ==> r == Err::<Vec<Vec<u64>>, _>(VeracityError::NotFitted),
            (r is Ok) == (self.fitted() && forall|j: int|
                0 <= j < self.train_x().key_views().len() ==> float_key(
                    self.train_x(),
                    #[trigger] self.train_x().key_views()[j],
                )),
            r matches Ok(rows) ==> self.fitted() && feature_rows_post(
                self.train_x(),
                self.train_x().key_views(),
                rows@,
            ),
    {
        match &self.x {
            None => Err(VeracityError::NotFitted),
            Some(train) => self.query_rows(train),
        }
    }

    /// A copy of the training labels.
    pub fn labels(&self) -> (r: Result<DataVector<U>, VeracityError>)
        requires
            self.wf(),
        ensures
            !self.fitted() ==> r == Err::<DataVector<U>, _>(VeracityError::NotFitted),
            self.fitted() ==> (r matches Ok(v) && v@ == self.train_y()),
    {
        match &self.y {
            None => Err(VeracityError::NotFitted),
            Some(y) => Ok(y.duplicate()),
        }
    }

    /// The distinct training labels, smallest first.
    pub fn classes(&self) -> (r: Result<Vec<U>, VeracityError>)
        requires
            self.wf(),
        ensures
            !self.fitted() ==> r == Err::<Vec<U>, _>(VeracityError::NotFitted),
            self.fitted() ==> (r matches Ok(c) && classes_of(self.train_y(), c@)),
    {
        match &self.y {
            None => Err(VeracityError::NotFitted),
            Some(y) => Ok(sorted_classes(y.get_data())),
        }
    }

    fn check_rows(&self, distances: &Vec<Vec<u64>>) -> (r: Result<(), VeracityError>)
        requires
            self.wf(),
        ensures
            (r is Ok) == (self.fitted() && rows_match(distances@, self.n_train())),
            !self.fitted() ==> r == Err::<(), _>(VeracityError::NotFitted),
    {
        let y = match &self.y {
            None => {
                return Err(VeracityError::NotFitted);
            },
            Some(y) => y,
        };
        let n = y.len();
        let mut q: usize = 0;
        while q < distances.len()
            invariant
                q <= distances@.len(),
                n == self.n_train(),
                self.fitted(),
                forall|x: int| 0 <= x < q ==> #[trigger] distances@[x]@.len() == n,
            decreases distances@.len() - q,
        {
            if distances[q].len() != n {
                return Err(VeracityError::GenericError("a distance row does not match the training rows".to_string()));
            }
            q = q + 1;
        }
        Ok(())
    }

    /// For each query row, the training rows nearest to it, nearest first:
    /// `min(k, n)` of them, equal distance keys in training order.
    pub fn neighbors(&self, distances: &Vec<Vec<u64>>) -> (r: Result<Vec<Vec<usize>>, VeracityError>)
        requires
            self.wf(),
        ensures
            (r is Ok) == (self.fitted() && rows_match(distances@, self.n_train())),
            !self.fitted() ==> r == Err::<Vec<Vec<usize>>, _>(VeracityError::NotFitted),
            r matches Ok(nb) ==> nb@.len() == distances@.len() && forall|q: int|
                0 <= q < distances@.len() ==> nearest_post(
                    #[trigger] distances@[q]@,
                    self.settings_view().k_neighbors as nat,
                    nb@[q]@,
                ),
    {
        match self.check_rows(distances) {
            Err(e) => {
                return Err(e);
            },
            Ok(()) => {},
        }
        let k = self.settings.k_neighbors;
        let mut out: Vec<Vec<usize>> = Vec::with_capacity(distances.len());
        let mut q: usize = 0;
        while q < distances.len()
            invariant
                q <= distances@.len(),
                out@.len() == q,
                k == self.settings_view().k_neighbors,
                forall|x: int| 0 <= x < q ==> nearest_post(#[trigger] distances@[x]@, k as nat, out@[x]@),
            decreases distances@.len() - q,
        {
            out.push(nearest(&distances[q], k));
            q = q + 1;
        }
        Ok(out)
    }

    /// The label of each query row by a majority vote of its nearest training
    /// rows, ties going to the smallest label. Needs equal weights, at least one
    /// neighbour and one training row; the result is named "predictions".
    pub fn predict(&self, distances: &Vec<Vec<u64>>) -> (r: Result<DataVector<U>, VeracityError>)
        requires
            self.wf(),
        ensures
            (r is Ok) == (self.fitted() && rows_match(distances@, self.n_train())
                && self.settings_view().weights == KNeighborsWeights::Uniform
                && self.settings_view().k_neighbors > 0 && self.n_train() > 0),
            !self.fitted() ==> r == Err::<DataVector<U>, _>(VeracityError::NotFitted),
            r matches Ok(v) ==> self.predicted(distances@, v@) && opt_view(v.label_spec()) == Some(
                "predictions"@,
            ),
    {
        let nb = match self.neighbors(distances) {
            Err(e) => {
                return Err(e);
            },
            Ok(nb) => nb,
        };
        let y = match &self.y {
            None => {
                return Err(VeracityError::NotFitted);
            },
            Some(y) => y.get_data(),
        };
        if self.settings.weights != KNeighborsWeights::Uniform {
            return Err(VeracityError::Classifier("distance weighting takes per-class weights".to_string()));
        }
        if self.settings.k_neighbors == 0 || y.len() == 0 {
            return Err(VeracityError::GenericError("no neighbours to vote".to_string()));
        }
        let classes = sorted_classes(y);
        let ghost keys = label_keys(y@);
        let ghost ck = label_keys(classes@);
        proof {
            assert(ck.len() > 0) by {
                assert(keys.contains(y@[0].key()) ==> ck.contains(y@[0].key()));
            }
        }
        let mut preds: Vec<U> = Vec::with_capacity(nb.len());
        let mut q: usize = 0;
        while q < nb.len()
            invariant
                q <= nb@.len(),
                nb@.len() == distances@.len(),
                preds@.len() == q,
                y@ == self.train_y(),
                keys == label_keys(y@),
                ck == label_keys(classes@),
                ck.len() > 0,
                strictly_sorted(ck),
                forall|i: int| 0 <= i < y@.len() ==> ck.contains(#[trigger] y@[i].key()),
                forall|c: int| 0 <= c < classes@.len() ==> keys.contains(#[trigger] classes@[c].key()),
                forall|x: int|
                    0 <= x < distances@.len() ==> nearest_post(
                        #[trigger] distances@[x]@,
                        self.settings_view().k_neighbors as nat,
                        nb@[x]@,
                    ),
                rows_match(distances@, self.n_train()),
                forall|x: int|
                    0 <= x < q ==> majority_label(keys, nb@[x]@, #[trigger] preds@[x].key()),
            decreases nb@.len() - q,
        {
            proof {
                assert(distances@[q as int]@.len() == y@.len());
                assert forall|x: int| 0 <= x < nb@[q as int]@.len() implies #[trigger] nb@[q as int]@[x] < y@.len() by {}
            }
            let counts = vote_counts(&classes, y, &nb[q]);
            let best = decide(&counts);
            proof {
                lemma_decision_is_majority(keys, nb@[q as int]@, ck, counts@, best as int);
                assert(ck[best as int] == classes@[best as int].key());
            }
            preds.push(classes[best].duplicate());
            q = q + 1;
        }
        let mut out = match DataVector::from_vec(preds) {
            Ok(v) => v,
            Err(_) => {
                return Err(VeracityError::GenericError("no neighbours to vote".to_string()));
            },
        };
        out.add_label("predictions");
        proof {
            assert(out@ == preds@);
            assert forall|x: int| 0 <= x < distances@.len() implies elected(
                #[trigger] distances@[x]@,
                self.settings_view().k_neighbors as nat,
                label_keys(self.train_y()),
                out@[x].key(),
            ) by {
                assert(nearest_post(distances@[x]@, self.settings_view().k_neighbors as nat, nb@[x]@));
                assert(majority_label(keys, nb@[x]@, preds@[x].key()));
            }
        }
        Ok(out)
    }

    /// For each query row, the votes of each class among its nearest training
    /// rows, under equal weights: the class probabilities are the votes over
    /// `total`, and each row's votes add up to `total`.
    pub fn predict_proba(&self, distances: &Vec<Vec<u64>>) -> (r: Result<ClassVotes<U>, VeracityError>)
        requires
            self.wf(),
        ensures
            (r is Ok) == (self.fitted() && rows_match(distances@, self.n_train())
                && self.settings_view().weights == KNeighborsWeights::Uniform
                && self.settings_view().k_neighbors > 0 && self.n_train() > 0),
            !self.fitted() ==> r is Err && r == Err::<ClassVotes<U>, _>(VeracityError::NotFitted),
            r matches Ok(cv) ==> {
                &&& classes_of(self.train_y(), cv.classes@)
                &&& cv.total == min_nat(self.settings_view().k_neighbors as nat, self.n_train())
                &&& cv.votes@.len() == distances@.len()
                &&& forall|q: int|
                    0 <= q < distances@.len() ==> tallied(
                        #[trigger] distances@[q]@,
                        self.settings_view().k_neighbors as nat,
                        label_keys(self.train_y()),
                        label_keys(cv.classes@),
                        cv.votes@[q]@,
                    )
                &&& forall|q: int| 0 <= q < cv.votes@.len() ==> row_total(#[trigger] cv.votes@[q]@) == cv.total
            },
    {
        let nb = match self.neighbors(distances) {
            Err(e) => {
                return Err(e);
            },
            Ok(nb) => nb,
        };
        let y = match &self.y {
            None => {
                return Err(VeracityError::NotFitted);
            },
            Some(y) => y.get_data(),
        };
        if self.settings.weights != KNeighborsWeights::Uniform {
            return Err(VeracityError::Classifier("distance weighting takes per-class weights".to_string()));
        }
        if self.settings.k_neighbors == 0 || y.len() == 0 {
            return Err(VeracityError::GenericError("no neighbours to vote".to_string()));
        }
        let classes = sorted_classes(y);
        let ghost keys = label_keys(y@);
        let ghost ck = label_keys(classes@);
        let total: usize = if self.settings.k_neighbors < y.len() {
            self.settings.k_neighbors
        } else {
            y.len()
        };
        proof {
            lemma_sorted_distinct(ck);
        }
        let mut votes: Vec<Vec<u64>> = Vec::with_capacity(nb.len());
        let mut q: usize = 0;
        while q < nb.len()
            invariant
                q <= nb@.len(),
                nb@.len() == distances@.len(),
                votes@.len() == q,
                y@ == self.train_y(),
                keys == label_keys(y@),
                ck == label_keys(classes@),
                ck.no_duplicates(),
                total == min_nat(self.settings_view().k_neighbors as nat, y@.len()),
                forall|i: int| 0 <= i < y@.len() ==> ck.contains(#[trigger] y@[i].key()),
                forall|x: int|
                    0 <= x < distances@.len() ==> nearest_post(
                        #[trigger] distances@[x]@,
                        self.settings_view().k_neighbors as nat,
                        nb@[x]@,
                    ),
                rows_match(distances@, self.n_train()),
                forall|x: int|
                    0 <= x < q ==> tallied(
                        #[trigger] distances@[x]@,
                        self.settings_view().k_neighbors as nat,
                        keys,
                        ck,
                        votes@[x]@,
                    ),
                forall|x: int| 0 <= x < q ==> row_total(#[trigger] votes@[x]@) == total,
            decreases nb@.len() - q,
        {
            let ghost nbrs = nb@[q as int]@;
            proof {
                assert(distances@[q as int]@.len() == y@.len());
                assert forall|x: int| 0 <= x < nbrs.len() implies #[trigger] nbrs[x] < y@.len() by {}
            }
            let counts = vote_counts(&classes, y, &nb[q]);
            proof {
                assert forall|x: int| 0 <= x < nbrs.len() implies ck.contains(keys[#[trigger] nbrs[x] as int]) by {
                    assert(keys[nbrs[x] as int] == y@[nbrs[x] as int].key());
                }
                lemma_votes_total(keys, nbrs, ck);
                assert forall|c: int| 0 <= c < counts@.len() implies #[trigger] counts@[c] == votes_for(keys, nbrs, ck[c]) by {
                    assert(ck[c] == classes@[c].key());
                }
                lemma_row_total(counts@, keys, nbrs, ck);
                assert(tallied(distances@[q as int]@, self.settings_view().k_neighbors as nat, keys, ck, counts@));
            }
            votes.push(counts);
            q = q + 1;
        }
        Ok(ClassVotes { classes, votes, total })
    }


    /// The configured metric of the predictions for `distances` against the
    /// actual labels `y`. Metrics of other kinds of models are refused; AUROC,
    /// log loss and LRAP are not computed.
    pub fn score(&self, distances: &Vec<Vec<u64>>, y: &DataVector<U>) -> (r: Result<Score, VeracityError>)
        requires
            self.wf(),
            y@.len() <= usize::MAX / 2,
        ensures
            unbuilt_metric(self.settings_view().score_metric) ==> r == Err::<Score, _>(
                VeracityError::NotImplemented,
            ),
            !label_metric(self.settings_view().score_metric) && !unbuilt_metric(
                self.settings_view().score_metric,
            ) && self.settings_view().score_metric != EvaluationMetrics::AUPRC ==> r matches Err(
                VeracityError::MetricNotApplicable(_),
            ),
            label_metric(self.settings_view().score_metric) ==> (r is Ok) == (self.can_predict(distances@)
                && y@.len() == distances@.len()),
            self.settings_view().score_metric == EvaluationMetrics::AUPRC ==> (r is Ok) == (self.can_predict(
                distances@,
            ) && y@.len() == distances@.len() && distinct_count(y@) == 2 && distinct_count(self.train_y())
                >= 2),
            r matches Ok(s) ==> self.scored(distances@, y@, s),
    {
        let metric = self.settings.score_metric;
        match metric {
            EvaluationMetrics::AUROC | EvaluationMetrics::LogLoss | EvaluationMetrics::LRAP => {
                return Err(VeracityError::NotImplemented);
            },
            EvaluationMetrics::Accuracy | EvaluationMetrics::F1 | EvaluationMetrics::GeometricMean
            | EvaluationMetrics::Precision | EvaluationMetrics::Recall | EvaluationMetrics::Specificity
            | EvaluationMetrics::AUPRC => {},
            _ => {
                return Err(VeracityError::MetricNotApplicable("the metric does not apply to a classifier".to_string()));
            },
        }
        if metric == EvaluationMetrics::AUPRC {
            let proba = match self.predict_proba(distances) {
                Ok(p) => p,
                Err(e) => {
                    return Err(e);
                },
            };
            proof {
                lemma_sorted_distinct(label_keys(proba.classes@));
                lemma_classes_count(self.train_y(), proba.classes@);
                assert(self.proba_votes(distances@, proba.votes@));
                assert forall|i: int| 0 <= i < proba.votes@.len() implies #[trigger] proba.votes@[i]@.len()
                    == proba.classes@.len() by {
                    assert(tallied(
                        distances@[i]@,
                        self.settings_view().k_neighbors as nat,
                        label_keys(self.train_y()),
                        label_keys(proba.classes@),
                        proba.votes@[i]@,
                    ));
                }
            }
            return match auprc(&proba, y) {
                Ok(c) => Ok(Score::PrecisionRecall(c)),
                Err(e) => Err(metric_error(e)),
            };
        }
        let preds = match self.predict(distances) {
            Ok(p) => p,
            Err(e) => {
                return Err(e);
            },
        };
        self.score_labels(&preds, y)
    }

    /// The configured metric of the predicted labels `y_pred` against the
    /// actual labels `y`. The area under the precision-recall curve needs class
    /// votes, not labels, and is refused here, as are the metrics that `score`
    /// refuses.
    pub fn score_labels(&self, y_pred: &DataVector<U>, y: &DataVector<U>) -> (r: Result<Score, VeracityError>)
        requires
            y@.len() <= usize::MAX / 2,
        ensures
            unbuilt_metric(self.settings_view().score_metric) ==> r == Err::<Score, _>(
                VeracityError::NotImplemented,
            ),
            !label_metric(self.settings_view().score_metric) && !unbuilt_metric(
                self.settings_view().score_metric,
            ) && self.settings_view().score_metric != EvaluationMetrics::AUPRC ==> r matches Err(
                VeracityError::MetricNotApplicable(_),
            ),
            self.settings_view().score_metric == EvaluationMetrics::AUPRC ==> r matches Err(
                VeracityError::Classifier(_),
            ),
            label_metric(self.settings_view().score_metric) ==> (r is Ok) == (y_pred@.len() == y@.len()),
            r matches Ok(s) ==> s == label_score(self.settings_view().score_metric, y_pred@, y@),
    {
        let metric = self.settings.score_metric;
        match metric {
            EvaluationMetrics::AUROC | EvaluationMetrics::LogLoss | EvaluationMetrics::LRAP => {
                Err(VeracityError::NotImplemented)
            },
            EvaluationMetrics::AUPRC => Err(VeracityError::Classifier("the area under the precision-recall curve ranks class votes".to_string())),
            EvaluationMetrics::Accuracy => match accuracy(y, y_pred) {
                Ok(x) => Ok(Score::Ratio(x)),
                Err(e) => Err(metric_error(e)),
            },
            EvaluationMetrics::F1 => match f1(y_pred, y) {
                Ok(x) => Ok(Score::Ratio(x)),
                Err(e) => Err(metric_error(e)),
            },
            EvaluationMetrics::Precision => match precision(y_pred, y) {
                Ok(x) => Ok(Score::Ratio(x)),
                Err(e) => Err(metric_error(e)),
            },
            EvaluationMetrics::Recall => match recall(y_pred, y) {
                Ok(x) => Ok(Score::Ratio(x)),
                Err(e) => Err(metric_error(e)),
            },
            EvaluationMetrics::Specificity => match specificity(y_pred, y) {
                Ok(x) => Ok(Score::Ratio(x)),
                Err(e) => Err(metric_error(e)),
            },
            EvaluationMetrics::GeometricMean => match geometric_mean(y_pred, y) {
                Ok(x) => Ok(Score::GeometricMean(x.0, x.1)),
                Err(e) => Err(metric_error(e)),
            },
            _ => Err(VeracityError::MetricNotApplicable("the metric does not apply to a classifier".to_string())),
        }
    }

}

/// `classes` holds the distinct labels of `labels`, smallest first.
pub open spec fn classes_of<U: ClassLabel>(labels: Seq<U>, classes: Seq<U>) -> bool {
    &&& strictly_sorted(label_keys(classes))
    &&& forall|i: int| 0 <= i < labels.len() ==> label_keys(classes).contains(#[trigger] labels[i].key())
    &&& forall|c: int| 0 <= c < classes.len() ==> label_keys(labels).contains(#[trigger] classes[c].key())
}

/// Classes of the labels number as many as the distinct labels.
proof fn lemma_classes_count<U: ClassLabel>(labels: Seq<U>, classes: Seq<U>)
    requires
        classes_of(labels, classes),
    ensures
        classes.len() == distinct_count(labels),
{
    let ck = label_keys(classes);
    lemma_sorted_distinct(ck);
    ck.unique_seq_to_set();
    assert(ck.to_set() =~= label_keys(labels).to_set()) by {
        assert forall|k: Seq<int>| label_keys(labels).to_set().contains(k) implies ck.to_set().contains(k) by {
            let i = choose|i: int| 0 <= i < labels.len() && label_keys(labels)[i] == k;
            assert(ck.contains(labels[i].key()));
        }
        assert forall|k: Seq<int>| ck.to_set().contains(k) implies label_keys(labels).to_set().contains(k) by {
            let c = choose|c: int| 0 <= c < classes.len() && ck[c] == k;
            assert(label_keys(labels).contains(classes[c].key()));
        }
    }
}

/// The first class with the most votes, among classes sorted by key that
/// cover every training label, is the label a majority vote elects.
proof fn lemma_decision_is_majority(
    keys: Seq<Seq<int>>,
    nbrs: Seq<usize>,
    ck: Seq<Seq<int>>,
    counts: Seq<u64>,
    best: int,
)
    requires
        strictly_sorted(ck),
        forall|i: int| 0 <= i < keys.len() ==> ck.contains(#[trigger] keys[i]),
        forall|c: int| 0 <= c < ck.len() ==> keys.contains(#[trigger] ck[c]),
        counts.len() == ck.len(),
        forall|c: int| 0 <= c < ck.len() ==> #[trigger] counts[c] == votes_for(keys, nbrs, ck[c]),
        0 <= best < ck.len(),
        forall|c: int| 0 <= c < counts.len() ==> #[trigger] counts[c] <= counts[best],
        forall|c: int| 0 <= c < best ==> #[trigger] counts[c] < counts[best],
    ensures
        majority_label(keys, nbrs, ck[best]),
{
    assert(keys.contains(ck[best]));
    assert forall|i: int| 0 <= i < keys.len() implies votes_for(keys, nbrs, #[trigger] keys[i]) <= votes_for(
        keys,
        nbrs,
        ck[best],
    ) by {
        assert(ck.contains(keys[i]));
        let c = choose|c: int| 0 <= c < ck.len() && ck[c] == keys[i];
        assert(counts[c] <= counts[best]);
    }
    assert forall|i: int|
        0 <= i < keys.len() && lex_lt(#[trigger] keys[i], ck[best]) implies votes_for(keys, nbrs, keys[i])
        < votes_for(keys, nbrs, ck[best]) by {
        assert(ck.contains(keys[i]));
        let c = choose|c: int| 0 <= c < ck.len() && ck[c] == keys[i];
        if c > best {
            assert(lex_lt(ck[best], ck[c]));
            lemma_lex_total(ck[best], ck[c]);
        } else if c == best {
            lemma_lex_irreflexive(ck[c]);
        } else {
            assert(counts[c] < counts[best]);
        }
    }
}

/// With one neighbour, a training row nearer to the query than every other
/// training row decides the prediction: the predicted label is that row's
/// label, for every label type.
pub proof fn lemma_single_nearest_predicts<U: ClassLabel>(labels: Seq<U>, d: Seq<u64>, a: usize, p: U)
    requires
        labels.len() == d.len(),
        a < d.len(),
        forall|i: int| 0 <= i < d.len() && i != a ==> d[a as int] < #[trigger] d[i],
        elected(d, 1, label_keys(labels), p.key()),
    ensures
        p@ == labels[a as int]@,
{
    lemma_single_nearest_label(label_keys(labels), d, a, p.key());
    U::lemma_key_view(p, labels[a as int]);
}

/// The key of the label elected by one neighbour is the key of the nearest
/// row's label.
proof fn lemma_single_nearest_label(keys: Seq<Seq<int>>, d: Seq<u64>, a: usize, l: Seq<int>)
    requires
        keys.len() == d.len(),
        a < d.len(),
        forall|i: int| 0 <= i < d.len() && i != a ==> d[a as int] < #[trigger] d[i],
        elected(d, 1, keys, l),
    ensures
        l == keys[a as int],
{
    let nbrs = choose|nbrs: Seq<usize>| nearest_post(d, 1, nbrs) && majority_label(keys, nbrs, l);
    assert(nbrs.len() == 1);
    let b = nbrs[0];
    if b != a {
        if nbrs.contains(a) {
            let x = choose|x: int| 0 <= x < nbrs.len() && nbrs[x] == a;
            assert(x == 0);
        }
        assert(crate::neighbors::before(d, nbrs[0] as int, a as int));
        assert(d[a as int] < d[b as int]);
    }
    assert(nbrs.drop_last().len() == 0);
    assert(votes_for(keys, nbrs.drop_last(), l) == 0);
    assert(votes_for(keys, nbrs.drop_last(), keys[a as int]) == 0);
    assert(votes_for(keys, nbrs, keys[a as int]) == 1);
    if l != keys[a as int] {
        let i = choose|i: int| 0 <= i < keys.len() && keys[i] == l;
        assert(votes_for(keys, nbrs, keys[i]) == 0);
        assert(votes_for(keys, nbrs, keys[a as int]) <= votes_for(keys, nbrs, l));
    }
}

} // verus!
