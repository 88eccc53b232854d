use vstd::prelude::*;

use crate::classifier::{rows_match, F64_EPSILON_BITS};
use crate::data_matrix::{feature_rows_post, float_key, views_of, DataMatrix};
use crate::data_vector::DataVector;
use crate::enums::{DistanceMetrics, KNeighborsWeights};
use crate::errors::VeracityError;
use crate::neighbors::{nearest, nearest_post};

verus! {

/// How a regressor searches and averages.
#[derive(Clone, Copy, Debug)]
pub struct KNeighborsRegressorSettings {
    /// How many neighbours are averaged.
    pub k_neighbors: usize,
    pub weights: KNeighborsWeights,
    /// The exponent of the Minkowski distance.
    pub p: i64,
    pub metric: DistanceMetrics,
    /// The term added to a distance before it is inverted, as the bit pattern
    /// of a 64-bit float.
    pub epsilon_bits: u64,
}

impl KNeighborsRegressorSettings {
    pub open spec fn spec_default() -> Self {
        KNeighborsRegressorSettings {
            k_neighbors: 5,
            weights: KNeighborsWeights::Uniform,
            p: 2,
            metric: DistanceMetrics::Euclidean,
            epsilon_bits: F64_EPSILON_BITS,
        }
    }
}

impl Default for KNeighborsRegressorSettings {
    /// Five neighbours averaged with equal weights, Euclidean distance.
    fn default() -> (r: Self)
        ensures
            r == Self::spec_default(),
    {
        KNeighborsRegressorSettings {
            k_neighbors: 5,
            weights: KNeighborsWeights::Uniform,
            p: 2,
            metric: DistanceMetrics::Euclidean,
            epsilon_bits: F64_EPSILON_BITS,
        }
    }
}

/// A k-nearest-neighbours regressor over training rows of float features and
/// float targets, each float held as its bit pattern.
///
/// Distances are computed outside: each query row comes with one distance key
/// per training row, where a smaller key is a smaller distance.
#[derive(Debug)]
pub struct KNeighborsRegressor {
    x: Option<DataMatrix>,
    y: Option<DataVector<u64>>,
    settings: KNeighborsRegressorSettings,
}

impl KNeighborsRegressor {
    pub closed spec fn settings_view(&self) -> KNeighborsRegressorSettings {
        self.settings
    }

    pub closed spec fn fitted(&self) -> bool {
        self.x is Some && self.y is Some
    }

    /// The training feature table.
    pub closed spec fn train_x(&self) -> DataMatrix {
        self.x.unwrap()
    }

    /// The training targets.
    pub closed spec fn train_y(&self) -> Seq<u64> {
        self.y.unwrap()@
    }

    pub closed spec fn wf(&self) -> bool {
        (self.x is Some ==> self.x.unwrap().wf()) && (self.x is Some <==> self.y is Some)
    }

    /// An unfitted regressor with the default settings.
    pub fn new() -> (r: Self)
        ensures
            r.wf(),
            !r.fitted(),
            r.settings_view() == KNeighborsRegressorSettings::spec_default(),
    {
        KNeighborsRegressor { x: None, y: None, settings: KNeighborsRegressorSettings::default() }
    }

    /// Replaces the settings.
    pub fn add_settings(&mut self, settings: KNeighborsRegressorSettings) -> (r: Result<(), VeracityError>)
        ensures
            r is Ok,
            final(self).settings_view() == settings,
            final(self).wf() == old(self).wf(),
            final(self).fitted() == old(self).fitted(),
            final(self).train_x() == old(self).train_x(),
            final(self).train_y() == old(self).train_y(),
    {
        self.settings = settings;
        Ok(())
    }

    /// The current settings.
    pub fn settings(&self) -> (r: KNeighborsRegressorSettings)
        ensures
            r == self.settings_view(),
    {
        self.settings
    }

    /// Stores copies of the training features and targets, replacing any
    /// earlier ones.
    pub fn fit(&mut self, x: &DataMatrix, y: &DataVector<u64>) -> (r: Result<(), VeracityError>)
        requires
            x.wf(),
        ensures
            r is Ok,
            final(self).wf(),
            final(self).fitted(),
            final(self).train_x().key_views() == x.key_views(),
            final(self).train_x().column_views() == x.column_views(),
            final(self).train_x().index_views() == x.index_views(),
            final(self).train_y() == y@,
            final(self).settings_view() == old(self).settings_view(),
    {
        self.x = Some(x.duplicate());
        self.y = Some(y.duplicate());
        Ok(())
    }

    /// The feature rows of `x`, in the column order of the training features.
    /// `x` needs a float column under every training feature's key.
    pub fn query_rows(&self, x: &DataMatrix) -> (r: Result<Vec<Vec<u64>>, VeracityError>)
        requires
            self.wf(),
            x.wf(),
        ensures
            !self.fitted() ==> r == Err::<Vec<Vec<u64>>, _>(VeracityError::NotFitted),
            (r is Ok) == (self.fitted() && forall|j: int|
                0 <= j < self.train_x().key_views().len() ==> float_key(
                    *x,
                    #[trigger] self.train_x().key_views()[j],
                )),
            r matches Ok(rows) ==> self.fitted() && feature_rows_post(*x, self.train_x().key_views(), rows@),
    {
        match &self.x {
            None => Err(VeracityError::NotFitted),
            Some(train) => {
                let names = train.get_keys();
                proof {
                    assert forall|j: int| 0 <= j < names@.len() implies #[trigger] names@[j]@ == train.key_views()[j] by {
                        assert(views_of(names@)[j] == names@[j]@);
                    }
                }
                let rows = x.feature_rows(&names);
                proof {
                    assert(views_of(names@).len() == names@.len());
                    if forall|j: int|
                        0 <= j < train.key_views().len() ==> float_key(*x, #[trigger] train.key_views()[j]) {
                        assert forall|j: int| 0 <= j < names@.len() implies float_key(*x, #[trigger] names@[j]@) by {
                            assert(float_key(*x, train.key_views()[j]));
                        }
                    } else {
                        let j = choose|j: int|
                            0 <= j < train.key_views().len() && !float_key(*x, #[trigger] train.key_views()[j]);
                        assert(names@[j]@ == train.key_views()[j]);
                    }
                    assert(*train == self.train_x());
                }
                match rows {
                    Ok(rows) => Ok(rows),
                    Err(_) => Err(VeracityError::GenericError("invalid data format".to_string())),
                }
            },
        }
    }

    /// The training feature rows.
    pub fn training_rows(&self) -> (r: Result<Vec<Vec<u64>>, VeracityError>)
        requires
            self.wf(),
        ensures
            !self.fitted() ==> r == Err::<Vec<Vec<u64>>, _>(VeracityError::NotFitted),
            (r is Ok) == (self.fitted() && forall|j: int|
                0 <= j < self.train_x().key_views().len() ==> float_key(
                    self.train_x(),
                    #[trigger] self.train_x().key_views()[j],
                )),
            r matches Ok(rows) ==> self.fitted() && feature_rows_post(
                self.train_x(),
                self.train_x().key_views(),
                rows@,
            ),
    {
        match &self.x {
            None => Err(VeracityError::NotFitted),
            Some(train) => self.query_rows(train),
        }
    }

    /// For each query row, the training rows nearest to it, nearest first:
    /// `min(k, n)` of them, equal distance keys in training order.
    pub fn neighbors(&self, distances: &Vec<Vec<u64>>) -> (r: Result<Vec<Vec<usize>>, VeracityError>)
        requires
            self.wf(),
        ensures
            (r is Ok) == (self.fitted() && rows_match(distances@, self.train_y().len())),
            !self.fitted() ==> r == Err::<Vec<Vec<usize>>, _>(VeracityError::NotFitted),
            r matches Ok(nb) ==> nb@.len() == distances@.len() && forall|q: int|
                0 <= q < distances@.len() ==> nearest_post(
                    #[trigger] distances@[q]@,
                    self.settings_view().k_neighbors as nat,
                    nb@[q]@,
                ),
    {
        let n = match &self.y {
            None => {
                return Err(VeracityError::NotFitted);
            },
            Some(y) => y.len(),
        };
        let k = self.settings.k_neighbors;
        let mut out: Vec<Vec<usize>> = Vec::with_capacity(distances.len());
        let mut q: usize = 0;
        while q < distances.len()
            invariant
                q <= distances@.len(),
                out@.len() == q,
                n == self.train_y().len(),
                self.fitted(),
                k == self.settings_view().k_neighbors,
                forall|x: int| 0 <= x < q ==> #[trigger] distances@[x]@.len() == n,
                forall|x: int| 0 <= x < q ==> nearest_post(#[trigger] distances@[x]@, k as nat, out@[x]@),
            decreases distances@.len() - q,
        {
            if distances[q].len() != n {
                return Err(VeracityError::GenericError("a distance row does not match the training rows".to_string()));
            }
            out.push(nearest(&distances[q], k));
            q = q + 1;
        }
        Ok(out)
    }

    /// For each query row, the targets of its nearest training rows, nearest
    /// first: `min(k, n)` of them, equal distance keys in training order. The
    /// prediction is their mean, plain or weighted by inverse distance.
    pub fn neighbor_targets(&self, distances: &Vec<Vec<u64>>) -> (r: Result<Vec<Vec<u64>>, VeracityError>)
        requires
            self.wf(),
        ensures
            (r is Ok) == (self.fitted() && rows_match(distances@, self.train_y().len())),
            !self.fitted() ==> r == Err::<Vec<Vec<u64>>, _>(VeracityError::NotFitted),
            r matches Ok(t) ==> t@.len() == distances@.len() && forall|q: int|
                0 <= q < distances@.len() ==> targets_of(
                    #[trigger] distances@[q]@,
                    self.settings_view().k_neighbors as nat,
                    self.train_y(),
                    t@[q]@,
                ),
    {
        let y = match &self.y {
            None => {
                return Err(VeracityError::NotFitted);
            },
            Some(y) => y.get_data(),
        };
        let n = y.len();
        let k = self.settings.k_neighbors;
        let mut out: Vec<Vec<u64>> = Vec::with_capacity(distances.len());
        let mut q: usize = 0;
        while q < distances.len()
            invariant
                q <= distances@.len(),
                out@.len() == q,
                n == y@.len(),
                y@ == self.train_y(),
                self.fitted(),
                k == self.settings_view().k_neighbors,
                forall|x: int| 0 <= x < q ==> #[trigger] distances@[x]@.len() == n,
                forall|x: int| 0 <= x < q ==> targets_of(#[trigger] distances@[x]@, k as nat, y@, out@[x]@),
            decreases distances@.len() - q,
        {
            if distances[q].len() != n {
                return Err(VeracityError::GenericError("a distance row does not match the training rows".to_string()));
            }
            let nb = nearest(&distances[q], k);
            let mut t: Vec<u64> = Vec::with_capacity(nb.len());
            let mut x: usize = 0;
            while x < nb.len()
                invariant
                    x <= nb@.len(),
                    t@.len() == x,
                    forall|z: int| 0 <= z < nb@.len() ==> #[trigger] nb@[z] < n,
                    n == y@.len(),
                    forall|z: int| 0 <= z < x ==> #[trigger] t@[z] == y@[nb@[z] as int],
                decreases nb@.len() - x,
            {
                t.push(y[nb[x]]);
                x = x + 1;
            }
            proof {
                assert(nearest_post(distances@[q as int]@, k as nat, nb@));
            }
            out.push(t);
            q = q + 1;
        }
        Ok(out)
    }
}

/// `t` holds the targets of the `k` training rows nearest to a query whose
/// distance keys are `d`, nearest first.
pub open spec fn targets_of(d: Seq<u64>, k: nat, y: Seq<u64>, t: Seq<u64>) -> bool {
    exists|nbrs: Seq<usize>|
        nearest_post(d, k, nbrs) && t.len() == nbrs.len() && forall|z: int|
            0 <= z < t.len() ==> #[trigger] t[z] == y[nbrs[z] as int]
}

} // verus!
