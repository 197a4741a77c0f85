//! The price source: the address of a chart, and what the source answers.

use vstd::prelude::*;
use vstd::string::*;

use crate::binary64::Binary64;
use crate::error::{ScoreError, SeriesError};
use crate::series::{boundaries_of, extract_boundaries, Boundaries};
use crate::text::{decimal, decimal_string};

verus! {

/// The address of the chart of `ticker` over the last `years` years, one
/// point per day.
pub open spec fn chart_url_text(ticker: Seq<char>, years: u16) -> Seq<char> {
    "https://query1.finance.yahoo.com/v8/finance/chart/"@ + ticker + "?range="@ + decimal(
        years as nat,
    ) + "y&interval=1d&events=history"@
}

/// Writes the address of the chart of `ticker` over the last `years` years.
/// The ticker goes into the address as it is.
pub fn chart_url(ticker: &str, years: u16) -> (url: String)
    ensures
        url@ == chart_url_text(ticker@, years),
{
    let mut url = String::from_str("https://query1.finance.yahoo.com/v8/finance/chart/");
    url.append(ticker);
    url.append("?range=");
    let range = decimal_string(years as u64);
    url.append(range.as_str());
    url.append("y&interval=1d&events=history");
    url
}

/// The error that the price source reports in place of a chart.
#[derive(Debug)]
pub struct ChartError {
    pub code: String,
    pub description: Option<String>,
}

/// One chart of an answer: its series of adjusted closing prices. The source
/// sends them as a list, of which the first counts.
#[derive(Debug)]
pub struct ChartResult {
    pub adjclose: Vec<Vec<Option<Binary64>>>,
}

/// What the price source answers: charts, or an error.
#[derive(Debug)]
pub struct Chart {
    pub result: Option<Vec<ChartResult>>,
    pub error: Option<ChartError>,
}

impl Chart {
    /// Whether the answer holds a series: the first series of the first
    /// chart.
    pub open spec fn has_series(self) -> bool {
        &&& self.result matches Some(charts)
        &&& charts@.len() > 0
        &&& charts@[0].adjclose@.len() > 0
    }

    /// The series that the answer holds.
    pub open spec fn series(self) -> Vec<Option<Binary64>> {
        self.result->0@[0].adjclose@[0]
    }

    /// What the answer yields: the error that it reports, if it reports one;
    /// else its series; and a failure where it holds neither.
    pub open spec fn outcome(self) -> Result<Seq<Option<Binary64>>, ScoreError> {
        match self.error {
            Some(error) => Err(ScoreError::Upstream { code: error.code, description: error.description }),
            None => if self.has_series() {
                Ok(self.series()@)
            } else {
                Err(ScoreError::EmptySeries)
            },
        }
    }

    /// Reads the answer: the series of adjusted closing prices, or the
    /// reason why there is none. An error that the source reports comes
    /// first, whatever else the answer holds.
    pub fn adjusted_closes(&self) -> (r: Result<&Vec<Option<Binary64>>, ScoreError>)
        ensures
            match r {
                Ok(series) => self.outcome() == Ok::<Seq<Option<Binary64>>, ScoreError>(series@),
                Err(error) => self.outcome() == Err::<Seq<Option<Binary64>>, ScoreError>(error),
            },
    {
        match &self.error {
            Some(error) => {
                let description = match &error.description {
                    Some(text) => Some(text.clone()),
                    None => None,
                };
                Err(ScoreError::Upstream { code: error.code.clone(), description })
            },
            None => {
                match &self.result {
                    Some(charts) => {
                        if charts.len() > 0 && charts[0].adjclose.len() > 0 {
                            Ok(&charts[0].adjclose[0])
                        } else {
                            Err(ScoreError::EmptySeries)
                        }
                    },
                    None => Err(ScoreError::EmptySeries),
                }
            },
        }
    }

    /// The boundary prices that the answer yields: those of its series, or
    /// the reason why it has none.
    pub open spec fn boundary_prices(self) -> Result<Boundaries, ScoreError> {
        match self.outcome() {
            Err(error) => Err(error),
            Ok(series) => match boundaries_of(series) {
                Ok(b) => Ok(b),
                Err(SeriesError::EmptySeries) => Err(ScoreError::EmptySeries),
                Err(SeriesError::NoValidPoint) => Err(ScoreError::NoValidPoint),
            },
        }
    }

    /// Reads the boundary prices off the answer: the earliest price of its
    /// series that is present and greater than zero, and the latest that is
    /// present.
    pub fn boundaries(&self) -> (r: Result<Boundaries, ScoreError>)
        ensures
            r == self.boundary_prices(),
    {
        match self.adjusted_closes() {
            Err(error) => Err(error),
            Ok(series) => match extract_boundaries(series) {
                Ok(b) => Ok(b),
                Err(error) => Err(ScoreError::from_series(error)),
            },
        }
    }
}

} // verus!
