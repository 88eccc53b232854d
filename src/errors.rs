use vstd::prelude::*;

verus! {

/// Failures of the table and column operations.
#[derive(Debug)]
pub enum DataLoaderError {
    DuplicateIndex,
    IndexRowCountMismatch,
    RowCountMismatch,
    ColumnCountMismatch(String),
    DuplicateLabel,
    NDArrayConversion(String),
    HeterogeneousDataTypes,
    HeterogeneousColumnLengths,
    NoData,
    IndexError(usize),
    FileRead(String),
    GenericError(String),
    /// A value or a typed view did not match a column's element type.
    TypeMismatch,
}

/// Failures of the evaluation metrics.
#[derive(Debug)]
pub enum EvaluationMetricError {
    GenericError(String),
}

/// Failures of the models.
#[derive(Debug)]
pub enum VeracityError {
    DataLoader(String),
    Classifier(String),
    Regressor(String),
    EvaluationMetric(String),
    NotImplemented,
    GenericError(String),
    /// A prediction or a score was asked of a model before `fit`.
    NotFitted,
    /// The scoring metric does not apply to this kind of model.
    MetricNotApplicable(String),
}

fn text(s: &str) -> (r: String)
    ensures
        r@ == s@,
{
    s.to_string()
}

fn with_detail(prefix: &str, detail: &String) -> (r: String)
    ensures
        r@ == prefix@ + detail@,
{
    let r = prefix.to_string();
    r.concat(detail.as_str())
}

impl DataLoaderError {
    /// A description of the failure for people.
    pub fn message(&self) -> (r: String)
        ensures
            r@.len() > 0,
    {
        let r = match self {
            DataLoaderError::DuplicateIndex => text("DataFrame's index must not have duplicate values"),
            DataLoaderError::IndexRowCountMismatch => text(
                "DataFrame's index must have the same number of rows as the columns",
            ),
            DataLoaderError::RowCountMismatch => text("All columns must have the same number of rows."),
            DataLoaderError::ColumnCountMismatch(e) => with_detail("Column count mismatch: ", e),
            DataLoaderError::DuplicateLabel => text("DataFrame columns may not have duplicate labels."),
            DataLoaderError::NDArrayConversion(e) => with_detail(
                "An error occurred converting between a dense matrix and a data vector: ",
                e,
            ),
            DataLoaderError::HeterogeneousDataTypes => text(
                "Unable to convert a DataMatrix with heterogeneous data types to a dense matrix.",
            ),
            DataLoaderError::HeterogeneousColumnLengths => text(
                "All columns in a DataMatrix must be the same length.",
            ),
            DataLoaderError::NoData => text("The DataMatrix contains no data"),
            DataLoaderError::IndexError(_) => text("No element was found at the index"),
            DataLoaderError::FileRead(e) => with_detail("An error occurred reading from file: ", e),
            DataLoaderError::GenericError(e) => with_detail("An error occurred in DataLoader: ", e),
            DataLoaderError::TypeMismatch => text("A value does not match the column's element type."),
        };
        proof {
            reveal_strlit("DataFrame's index must not have duplicate values");
            reveal_strlit("DataFrame's index must have the same number of rows as the columns");
            reveal_strlit("All columns must have the same number of rows.");
            reveal_strlit("Column count mismatch: ");
            reveal_strlit("DataFrame columns may not have duplicate labels.");
            reveal_strlit("An error occurred converting between a dense matrix and a data vector: ");
            reveal_strlit("Unable to convert a DataMatrix with heterogeneous data types to a dense matrix.");
            reveal_strlit("All columns in a DataMatrix must be the same length.");
            reveal_strlit("The DataMatrix contains no data");
            reveal_strlit("No element was found at the index");
            reveal_strlit("An error occurred reading from file: ");
            reveal_strlit("An error occurred in DataLoader: ");
            reveal_strlit("A value does not match the column's element type.");
        }
        r
    }
}

impl VeracityError {
    /// A description of the failure for people.
    pub fn message(&self) -> (r: String)
        ensures
            r@.len() > 0,
    {
        let r = match self {
            VeracityError::DataLoader(e) => with_detail("An error occurred while loading data: ", e),
            VeracityError::Classifier(e) => with_detail("An error occurred in a classification model: ", e),
            VeracityError::Regressor(e) => with_detail("An error occurred in a regression model: ", e),
            VeracityError::EvaluationMetric(e) => with_detail("An error occurred in an evaluation metric: ", e),
            VeracityError::NotImplemented => text("The called function is not implemented"),
            VeracityError::GenericError(e) => with_detail("Error: ", e),
            VeracityError::NotFitted => text("The model has not been fitted."),
            VeracityError::MetricNotApplicable(e) => with_detail("The metric does not apply: ", e),
        };
        proof {
            reveal_strlit("An error occurred while loading data: ");
            reveal_strlit("An error occurred in a classification model: ");
            reveal_strlit("An error occurred in a regression model: ");
            reveal_strlit("An error occurred in an evaluation metric: ");
            reveal_strlit("The called function is not implemented");
            reveal_strlit("Error: ");
            reveal_strlit("The model has not been fitted.");
            reveal_strlit("The metric does not apply: ");
        }
        r
    }
}

impl EvaluationMetricError {
    /// A description of the failure for people.
    pub fn message(&self) -> (r: String)
        ensures
            r@.len() > 0,
    {
        let r = match self {
            EvaluationMetricError::GenericError(e) => with_detail("An error occurred in evaluation metric: ", e),
        };
        proof {
            reveal_strlit("An error occurred in evaluation metric: ");
        }
        r
    }
}

impl From<DataLoaderError> for VeracityError {
    fn from(err: DataLoaderError) -> (r: VeracityError)
        ensures
            r is DataLoader,
    {
        VeracityError::DataLoader(err.message())
    }
}

/// The message that the conversion carries is not stated as a spec value.
impl vstd::std_specs::convert::FromSpecImpl<DataLoaderError> for VeracityError {
    open spec fn obeys_from_spec() -> bool {
        false
    }

    open spec fn from_spec(v: DataLoaderError) -> VeracityError {
        VeracityError::NotImplemented
    }
}

impl From<EvaluationMetricError> for VeracityError {
    fn from(err: EvaluationMetricError) -> (r: VeracityError)
        ensures
            r == (match err {
                EvaluationMetricError::GenericError(e) => VeracityError::EvaluationMetric(e),
            }),
    {
        match err {
            EvaluationMetricError::GenericError(e) => VeracityError::EvaluationMetric(e),
        }
    }
}

impl vstd::std_specs::convert::FromSpecImpl<EvaluationMetricError> for VeracityError {
    open spec fn obeys_from_spec() -> bool {
        true
    }

    open spec fn from_spec(v: EvaluationMetricError) -> VeracityError {
        match v {
            EvaluationMetricError::GenericError(e) => VeracityError::EvaluationMetric(e),
        }
    }
}

} // verus!
