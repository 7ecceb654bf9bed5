use vstd::prelude::*;

use crate::score::{parse_i64, parse_i64_spec};

verus! {

/// A validated `GET /counts` request.
#[derive(Debug)]
pub struct CountsQuery {
    pub topic: String,
    /// `None`, 0 and negative values ask for every entry.
    pub n: Option<i64>,
}

/// A malformed counts request.
#[derive(Debug)]
pub enum RequestError {
    MissingTopic,
    InvalidN { text: String },
}

/// Why a counts request was not answered with counts.
#[derive(Debug)]
pub enum QueryFailure {
    BadRequest(RequestError),
    /// The store could not be reached; a retry may succeed.
    StoreUnavailable(String),
    /// The store answered with an error or with a reply that could not be read.
    StoreFailed(String),
}

/// Checks the raw `topic` and `n` parameters of a counts request.
pub fn parse_counts_query(topic: Option<String>, n: Option<String>) -> (r: Result<
    CountsQuery,
    RequestError,
>)
    ensures
        topic is None ==> r matches Err(RequestError::MissingTopic),
        topic matches Some(t) ==> match n {
            None => (r matches Ok(q) && q.topic@ == t@ && q.n is None),
            Some(text) => match parse_i64_spec(text@) {
                Some(v) => (r matches Ok(q) && q.topic@ == t@ && q.n == Some(v)),
                None => (r matches Err(RequestError::InvalidN { text: e }) && e@ == text@),
            },
        },
{
    match topic {
        None => Err(RequestError::MissingTopic),
        Some(t) => match n {
            None => Ok(CountsQuery { topic: t, n: None }),
            Some(text) => match parse_i64(text.as_str()) {
                Some(v) => Ok(CountsQuery { topic: t, n: Some(v) }),
                None => Err(RequestError::InvalidN { text }),
            },
        },
    }
}

/// The HTTP status of a failed counts request: client faults 400, an unreachable store 503,
/// any other store failure 500.
pub fn failure_status(f: &QueryFailure) -> (r: u16)
    ensures
        f is BadRequest ==> r == 400,
        f is StoreUnavailable ==> r == 503,
        f is StoreFailed ==> r == 500,
{
    match f {
        QueryFailure::BadRequest(_) => 400,
        QueryFailure::StoreUnavailable(_) => 503,
        QueryFailure::StoreFailed(_) => 500,
    }
}

} // verus!
