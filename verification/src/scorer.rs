//! Scoring one ticker: a rate of return for each of three horizons, taken in
//! turn. For each horizon the scorer asks for a chart, reads the boundary
//! prices off it and asks for their rate of return. The first horizon that
//! fails ends the scoring, and the ticker then has no score.
//!
//! The scorer decides; its caller fetches the charts and does the
//! arithmetic.

use vstd::prelude::*;

use crate::binary64::Binary64;
use crate::chart::{chart_url, chart_url_text, Chart};
use crate::error::ScoreError;
use crate::series::Boundaries;

verus! {

/// The number of horizons.
pub const HORIZONS: usize = 3;

/// The length in years of the horizon at `k`: 5, 10 and 25.
pub open spec fn horizon_years(k: int) -> u16 {
    if k == 0 {
        5
    } else if k == 1 {
        10
    } else {
        25
    }
}

/// The length in years of the horizon at `k`, of the three that there are.
pub fn horizon(k: usize) -> (years: Option<u16>)
    ensures
        years == if k < HORIZONS {
            Some(horizon_years(k as int))
        } else {
            None
        },
{
    if k == 0 {
        Some(5)
    } else if k == 1 {
        Some(10)
    } else if k == 2 {
        Some(25)
    } else {
        None
    }
}

/// The rates of return of one ticker, one for each horizon.
#[derive(Clone, Copy, Debug, PartialEq, Eq, Structural)]
pub struct HorizonRates {
    pub five_years: Binary64,
    pub ten_years: Binary64,
    pub quarter_century: Binary64,
}

/// What the caller of a scorer has to do next.
#[derive(Debug)]
pub enum Due {
    /// Fetch the chart at `url`: that of the ticker over the last `years`
    /// years.
    Chart { years: u16, url: String },
    /// Compute the rate of return per period that takes `present` to
    /// `future` in `periods` periods.
    Rate { periods: u16, present: Binary64, future: Binary64 },
    /// Nothing: the scoring has ended.
    Nothing,
}

/// What a [`Due`] stands for.
pub ghost enum Task {
    Chart { years: u16, url: Seq<char> },
    Rate { periods: u16, present: Binary64, future: Binary64 },
    Nothing,
}

impl View for Due {
    type V = Task;

    open spec fn view(&self) -> Task {
        match *self {
            Due::Chart { years, url } => Task::Chart { years, url: url@ },
            Due::Rate { periods, present, future } => Task::Rate { periods, present, future },
            Due::Nothing => Task::Nothing,
        }
    }
}

/// How far the scoring of a ticker has come: the rates of the horizons that
/// are done, in turn; the boundary prices whose rate is awaited, if any; and
/// the failure that ended the scoring, if one did.
pub ghost struct Progress {
    pub ticker: Seq<char>,
    pub rates: Seq<Binary64>,
    pub awaited: Option<Boundaries>,
    pub failure: Option<ScoreError>,
}

impl Progress {
    /// Before the first horizon.
    pub open spec fn start(ticker: Seq<char>) -> Progress {
        Progress { ticker, rates: Seq::empty(), awaited: None, failure: None }
    }

    /// Whether the scoring has ended: a horizon has failed, or each has its
    /// rate.
    pub open spec fn ended(self) -> bool {
        self.failure is Some || self.rates.len() >= HORIZONS
    }

    /// What is to be done next. The horizons come in turn, and the length of
    /// a horizon is the number of periods of its rate.
    pub open spec fn task(self) -> Task {
        let years = horizon_years(self.rates.len() as int);
        if self.ended() {
            Task::Nothing
        } else {
            match self.awaited {
                Some(b) => Task::Rate { periods: years, present: b.first_valid, future: b.last_valid },
                None => Task::Chart { years, url: chart_url_text(self.ticker, years) },
            }
        }
    }

    /// The progress after the fetch of the chart that was due gave `reply`:
    /// a chart, or the reason why none came. Where no chart was due, nothing
    /// changes.
    pub open spec fn after_chart(self, reply: Result<Chart, String>) -> Progress {
        if self.task() is Chart {
            match reply {
                Err(cause) => Progress {
                    failure: Some(ScoreError::Fetch { horizon: self.task()->years, cause }),
                    ..self
                },
                Ok(chart) => match chart.boundary_prices() {
                    Ok(b) => Progress { awaited: Some(b), ..self },
                    Err(error) => Progress { failure: Some(error), ..self },
                },
            }
        } else {
            self
        }
    }

    /// The progress after the rate that was due came in. Where no rate was
    /// due, nothing changes.
    pub open spec fn after_rate(self, rate: Binary64) -> Progress {
        if self.task() is Rate {
            Progress { rates: self.rates.push(rate), awaited: None, ..self }
        } else {
            self
        }
    }

    /// The progress after one horizon: its chart, then its rate.
    pub open spec fn after_horizon(self, reply: Result<Chart, String>, rate: Binary64) -> Progress {
        self.after_chart(reply).after_rate(rate)
    }

    /// What the scoring has come to: nothing yet, the three rates, or the
    /// failure that ended it.
    pub open spec fn verdict(self) -> Option<Result<HorizonRates, ScoreError>> {
        match self.failure {
            Some(error) => Some(Err(error)),
            None => if self.rates.len() >= HORIZONS {
                Some(
                    Ok(
                        HorizonRates {
                            five_years: self.rates[0],
                            ten_years: self.rates[1],
                            quarter_century: self.rates[2],
                        },
                    ),
                )
            } else {
                None
            },
        }
    }
}

/// The scoring of one ticker. It says what is due, takes what came of it,
/// and ends with three rates or with the first failure.
pub struct Scorer {
    ticker: String,
    rates: Vec<Binary64>,
    awaited: Option<Boundaries>,
    failure: Option<ScoreError>,
}

impl View for Scorer {
    type V = Progress;

    closed spec fn view(&self) -> Progress {
        Progress {
            ticker: self.ticker@,
            rates: self.rates@,
            awaited: self.awaited,
            failure: self.failure,
        }
    }
}

impl Scorer {
    #[verifier::type_invariant]
    spec fn within_horizons(self) -> bool {
        self.rates@.len() <= HORIZONS
    }

    /// A scoring of `ticker`, of which the first horizon is due.
    pub fn new(ticker: String) -> (scorer: Scorer)
        ensures
            scorer@ == Progress::start(ticker@),
    {
        Scorer { ticker, rates: Vec::new(), awaited: None, failure: None }
    }

    /// What is to be done next: fetch the chart of the horizon that is due,
    /// compute the rate of the boundary prices that were read off it, or
    /// nothing, once the scoring has ended.
    pub fn due(&self) -> (due: Due)
        ensures
            due@ == self@.task(),
            due is Nothing <==> self@.verdict() is Some,
    {
        proof {
            use_type_invariant(self);
        }
        if self.failure.is_some() || self.rates.len() >= HORIZONS {
            Due::Nothing
        } else {
            match (horizon(self.rates.len()), self.awaited) {
                (Some(years), Some(b)) => Due::Rate {
                    periods: years,
                    present: b.first_valid,
                    future: b.last_valid,
                },
                (Some(years), None) => Due::Chart { years, url: chart_url(self.ticker.as_str(), years) },
                (None, _) => Due::Nothing,
            }
        }
    }

    /// Takes what the fetch of the chart that was due gave: the chart, or
    /// the reason why none came. An error that the chart reports, or a
    /// series without boundary prices, ends the scoring, and so does a fetch
    /// that failed. Where no chart was due, nothing changes.
    pub fn take_chart(&mut self, reply: Result<Chart, String>)
        ensures
            final(self)@ == old(self)@.after_chart(reply),
    {
        proof {
            use_type_invariant(&*self);
        }
        if self.failure.is_none() && self.awaited.is_none() {
            if let Some(years) = horizon(self.rates.len()) {
                match reply {
                    Err(cause) => {
                        self.failure = Some(ScoreError::Fetch { horizon: years, cause });
                    },
                    Ok(chart) => match chart.boundaries() {
                        Ok(b) => {
                            self.awaited = Some(b);
                        },
                        Err(error) => {
                            self.failure = Some(error);
                        },
                    },
                }
            }
        }
    }

    /// Takes the rate that was due. Where no rate was due, nothing changes.
    pub fn take_rate(&mut self, rate: Binary64)
        ensures
            final(self)@ == old(self)@.after_rate(rate),
    {
        proof {
            use_type_invariant(&*self);
        }
        if self.failure.is_none() && self.rates.len() < HORIZONS && self.awaited.is_some() {
            let mut rates: Vec<Binary64> = Vec::new();
            std::mem::swap(&mut rates, &mut self.rates);
            rates.push(rate);
            self.rates = rates;
            self.awaited = None;
        }
    }

    /// What the scoring has come to: nothing while something is due; else
    /// the three rates, or the failure that ended it.
    pub fn verdict(self) -> (r: Option<Result<HorizonRates, ScoreError>>)
        ensures
            r == self@.verdict(),
    {
        proof {
            use_type_invariant(&self);
        }
        match self.failure {
            Some(error) => Some(Err(error)),
            None => {
                if self.rates.len() >= HORIZONS {
                    Some(
                        Ok(
                            HorizonRates {
                                five_years: self.rates[0],
                                ten_years: self.rates[1],
                                quarter_century: self.rates[2],
                            },
                        ),
                    )
                } else {
                    None
                }
            },
        }
    }
}

/// What one horizon comes to: the rate that was computed for it, or the
/// reason why it has none.
pub open spec fn horizon_outcome(years: u16, reply: Result<Chart, String>, rate: Binary64) -> Result<
    Binary64,
    ScoreError,
> {
    match reply {
        Err(cause) => Err(ScoreError::Fetch { horizon: years, cause }),
        Ok(chart) => match chart.boundary_prices() {
            Ok(_) => Ok(rate),
            Err(error) => Err(error),
        },
    }
}

/// What three horizons come to when each is taken in turn: the three rates
/// where each gave one, and else the first failure.
pub open spec fn first_failure_wins(
    five: Result<Binary64, ScoreError>,
    ten: Result<Binary64, ScoreError>,
    quarter: Result<Binary64, ScoreError>,
) -> Result<HorizonRates, ScoreError> {
    match five {
        Err(error) => Err(error),
        Ok(a) => match ten {
            Err(error) => Err(error),
            Ok(b) => match quarter {
                Err(error) => Err(error),
                Ok(c) => Ok(HorizonRates { five_years: a, ten_years: b, quarter_century: c }),
            },
        },
    }
}

/// A ticker has a score only where each of its three horizons gave a rate.
/// Where a horizon fails, the scoring ends with the first failure, whatever
/// the other horizons gave; where none fails, it ends with the three rates.
pub proof fn one_failed_horizon_fails_the_ticker(
    ticker: Seq<char>,
    five: Result<Chart, String>,
    five_rate: Binary64,
    ten: Result<Chart, String>,
    ten_rate: Binary64,
    quarter: Result<Chart, String>,
    quarter_rate: Binary64,
)
    ensures
        Progress::start(ticker).after_horizon(five, five_rate).after_horizon(ten, ten_rate).after_horizon(
            quarter,
            quarter_rate,
        ).verdict() == Some(
            first_failure_wins(
                horizon_outcome(5, five, five_rate),
                horizon_outcome(10, ten, ten_rate),
                horizon_outcome(25, quarter, quarter_rate),
            ),
        ),
        first_failure_wins(
            horizon_outcome(5, five, five_rate),
            horizon_outcome(10, ten, ten_rate),
            horizon_outcome(25, quarter, quarter_rate),
        ) is Ok <==> (five matches Ok(chart) && chart.boundary_prices() is Ok) && (ten matches Ok(
            chart,
        ) && chart.boundary_prices() is Ok) && (quarter matches Ok(chart)
            && chart.boundary_prices() is Ok),
{
    let first = Progress::start(ticker).after_horizon(five, five_rate);
    let second = first.after_horizon(ten, ten_rate);
    let third = second.after_horizon(quarter, quarter_rate);
    assert(Progress::start(ticker).rates.len() == 0);
    if horizon_outcome(5, five, five_rate) is Ok {
        assert(first.rates =~= seq![five_rate]);
        if horizon_outcome(10, ten, ten_rate) is Ok {
            assert(second.rates =~= seq![five_rate, ten_rate]);
            if horizon_outcome(25, quarter, quarter_rate) is Ok {
                assert(third.rates =~= seq![five_rate, ten_rate, quarter_rate]);
            }
        }
    }
}

/// An error that the price source reports for a horizon ends the scoring of
/// the ticker with that error: nothing more is due, and there is no score.
pub proof fn upstream_error_fails_the_ticker(progress: Progress, chart: Chart)
    requires
        progress.task() is Chart,
        chart.error is Some,
    ensures
        progress.after_chart(Ok(chart)).verdict() == Some(
            Err::<HorizonRates, ScoreError>(
                ScoreError::Upstream {
                    code: chart.error->0.code,
                    description: chart.error->0.description,
                },
            ),
        ),
        progress.after_chart(Ok(chart)).task() is Nothing,
{
}

/// A scoring that has ended stays as it is: what comes in after three rates
/// or after a failure changes neither the verdict nor anything else.
pub proof fn ended_scoring_is_final(progress: Progress, reply: Result<Chart, String>, rate: Binary64)
    requires
        progress.verdict() is Some,
    ensures
        progress.after_chart(reply) == progress,
        progress.after_rate(rate) == progress,
{
}

} // verus!
