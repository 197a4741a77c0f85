//! Why a ticker got no score.

use vstd::prelude::*;
use vstd::string::*;

verus! {

/// Why a price series yields no boundary prices.
#[derive(Clone, Copy, Debug, PartialEq, Eq, Structural)]
pub enum SeriesError {
    /// The series holds no point at all.
    EmptySeries,
    /// The series holds points, but none that is present and positive.
    NoValidPoint,
}

/// Why a ticker got no score.
#[derive(Debug)]
pub enum ScoreError {
    /// The request for one horizon did not get through, or its answer could
    /// not be read.
    Fetch { horizon: u16, cause: String },
    /// The price source answered, with an error of its own.
    Upstream { code: String, description: Option<String> },
    /// The price source answered with a series without any point.
    EmptySeries,
    /// The price source answered with a series without a present, positive
    /// price.
    NoValidPoint,
}

impl ScoreError {
    /// The text by which the error is reported.
    pub open spec fn message_text(self) -> Seq<char> {
        match self {
            ScoreError::Fetch { cause, .. } => cause@,
            ScoreError::Upstream { code, .. } => code@,
            ScoreError::EmptySeries => "price series is empty"@,
            ScoreError::NoValidPoint => "price series has no valid point"@,
        }
    }

    /// The text by which the error is reported: what the transport said, the
    /// code that the price source gave, or a fixed sentence.
    pub fn message(&self) -> (text: String)
        ensures
            text@ == self.message_text(),
    {
        match self {
            ScoreError::Fetch { cause, .. } => cause.clone(),
            ScoreError::Upstream { code, .. } => code.clone(),
            ScoreError::EmptySeries => String::from_str("price series is empty"),
            ScoreError::NoValidPoint => String::from_str("price series has no valid point"),
        }
    }

    /// The error that stands for a failed series.
    pub fn from_series(error: SeriesError) -> (r: ScoreError)
        ensures
            r == match error {
                SeriesError::EmptySeries => ScoreError::EmptySeries,
                SeriesError::NoValidPoint => ScoreError::NoValidPoint,
            },
    {
        match error {
            SeriesError::EmptySeries => ScoreError::EmptySeries,
            SeriesError::NoValidPoint => ScoreError::NoValidPoint,
        }
    }
}

} // verus!
