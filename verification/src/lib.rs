//! Return scores for stock tickers, and the ranking of a list of tickers by
//! score.
//!
//! The score of a ticker is the mean of its rates of return over three
//! horizons. For each horizon the price source sends a chart; the rate is
//! that between the first valid and the last present price of the chart's
//! series of adjusted closing prices. A ranking run scores the tickers of a
//! list, leaves out those that failed, and ranks the others by score.
//!
//! The library decides and looks up; it neither fetches nor computes with
//! fractions. Its caller fetches the charts, reads and writes the files, and
//! does the arithmetic on prices, rates and scores. These are
//! double-precision numbers, which the library holds by their bit pattern
//! ([`binary64::Binary64`]) and of which it reads sign and order only.
//!
//! - [`binary64`]: double-precision numbers by their bits.
//! - [`series`]: the boundary prices and the record highs of a price series.
//! - [`chart`]: the address of a chart, and what the price source answers.
//! - [`scorer`]: the scoring of one ticker, horizon by horizon.
//! - [`ranking`]: the score board of a run and its ranking.
//! - [`text`]: decimal numbers and lines of input.
//! - [`command`]: the commands of the menu.
//! - [`error`]: why a ticker has no score.

pub mod binary64;
pub mod chart;
pub mod command;
pub mod error;
pub mod ranking;
pub mod scorer;
pub mod series;
pub mod text;
