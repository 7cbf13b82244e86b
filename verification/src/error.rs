//! Errors.

use vstd::prelude::*;
use vstd::string::*;

verus! {

/// Why a request was not answered.
#[derive(Debug, Clone, PartialEq, Eq)]
pub enum GraphError {
    /// Something moved, or is not there yet: the client should send the request again.
    Retry(String),
    /// The request cannot be answered.
    Failed(String),
    /// The analysis was cancelled.
    Cancelled,
}

/// The content of a [`GraphError`].
pub enum GraphErrorModel {
    Retry(Seq<char>),
    Failed(Seq<char>),
    Cancelled,
}

impl DeepView for GraphError {
    type V = GraphErrorModel;

    open spec fn deep_view(&self) -> GraphErrorModel {
        match self {
            GraphError::Retry(message) => GraphErrorModel::Retry(message@),
            GraphError::Failed(message) => GraphErrorModel::Failed(message@),
            GraphError::Cancelled => GraphErrorModel::Cancelled,
        }
    }
}

impl GraphError {
    /// The text of the error.
    pub fn message(&self) -> (message: String)
        ensures
            message@ == match self.deep_view() {
                GraphErrorModel::Retry(message) => message,
                GraphErrorModel::Failed(message) => message,
                GraphErrorModel::Cancelled => "the analysis was cancelled"@,
            },
    {
        match self {
            GraphError::Retry(message) => message.clone(),
            GraphError::Failed(message) => message.clone(),
            GraphError::Cancelled => "the analysis was cancelled".to_owned(),
        }
    }
}

/// The content of a result.
pub open spec fn outcome<T: DeepView>(result: Result<T, GraphError>) -> Result<
    T::V,
    GraphErrorModel,
> {
    match result {
        Ok(value) => Ok(value.deep_view()),
        Err(error) => Err(error.deep_view()),
    }
}

/// Asks the client to send the request again.
pub fn retry_error(message: &str) -> (error: GraphError)
    ensures
        error.deep_view() == GraphErrorModel::Retry(message@),
{
    GraphError::Retry(message.to_owned())
}

/// Says that the request cannot be answered.
pub fn failure(message: &str) -> (error: GraphError)
    ensures
        error.deep_view() == GraphErrorModel::Failed(message@),
{
    GraphError::Failed(message.to_owned())
}

} // verus!
