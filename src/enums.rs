use vstd::prelude::*;

verus! {

/// The distance kernels a neighbour search can use.
#[derive(Clone, Copy, Debug, PartialEq, Eq, Structural)]
pub enum DistanceMetrics {
    Cosine,
    Euclidean,
    Manhatten,
    Minkowski,
    NanEuclidean,
}

/// How the neighbours of a query point are combined.
#[derive(Clone, Copy, Debug, PartialEq, Eq, Structural)]
pub enum KNeighborsWeights {
    /// Every neighbour counts once.
    Uniform,
    /// A neighbour counts `1 / (distance + epsilon)`.
    Distance,
}

/// The evaluation metrics a model can be scored with.
#[derive(Clone, Copy, Debug, PartialEq, Eq, Structural)]
pub enum EvaluationMetrics {
    // Classification metrics
    Accuracy,
    AUPRC,
    AUROC,
    F1,
    GeometricMean,
    LogLoss,
    LRAP,
    Precision,
    Recall,
    Specificity,
    // Clustering metrics
    CalinskiHarabaszIndex,
    DaviesBouldinIndex,
    DunnIndex,
    SilhouetteCoefficient,
    // Regression metrics
    AdjustedR2,
    ExplainedVarience,
    HuberLoss,
    LogCoshLoss,
    MAE,
    MAPE,
    MBD,
    MSE,
    MSLE,
    QuantileLoss,
    R2,
    RMSE,
    SMAPE,
}

} // verus!
