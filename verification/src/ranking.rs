//! The score board of a ranking run, and the ranking that it yields.
//!
//! A run takes the tickers of a list in turn. A ticker that was scored goes
//! on the board; one that failed is reported and left out. A ticker that the
//! list holds twice is scored twice: the board keeps it once, at the place
//! where it was first met, with the score that came last.
//!
//! The ranking puts the board in descending order of score and numbers the
//! lines from 1. Tickers of equal score keep the order of the board. A score
//! that stands for no number ranks below every number.

use vstd::prelude::*;
use vstd::relations::injective_on;
use vstd::set_lib::*;
use vstd::string::*;

use crate::binary64::{order_key_orders_as_value, Binary64};
use crate::error::ScoreError;
use crate::text::{decimal, decimal_string};

verus! {

/// A ticker with its score.
#[derive(Debug)]
pub struct TickerScore {
    pub ticker: String,
    pub score: Binary64,
}

/// What a [`TickerScore`] stands for.
pub ghost struct Scored {
    pub ticker: Seq<char>,
    pub score: Binary64,
}

impl View for TickerScore {
    type V = Scored;

    open spec fn view(&self) -> Scored {
        Scored { ticker: self.ticker@, score: self.score }
    }
}

/// One line of a ranking: the rank, counted from 1, the ticker and its score.
#[derive(Debug)]
pub struct RankedEntry {
    pub rank: usize,
    pub ticker: String,
    pub score: Binary64,
}

/// What a [`RankedEntry`] stands for.
pub ghost struct Ranked {
    pub rank: int,
    pub ticker: Seq<char>,
    pub score: Binary64,
}

impl View for RankedEntry {
    type V = Ranked;

    open spec fn view(&self) -> Ranked {
        Ranked { rank: self.rank as int, ticker: self.ticker@, score: self.score }
    }
}

/// Whether the entry at `j` stands before the entry at `i` in the ranking:
/// its score is higher, or the scores are equal and it was met first. A score
/// that stands for no number counts as lower than every number, and as equal
/// to any other such score.
pub open spec fn outranks(scores: Seq<Scored>, j: int, i: int) -> bool {
    let a = scores[j].score.sort_key();
    let b = scores[i].score.sort_key();
    a > b || (a == b && j < i)
}

/// How many of the first `n` entries stand before the entry at `i`.
pub open spec fn outranking(scores: Seq<Scored>, i: int, n: int) -> int
    decreases n,
{
    if n <= 0 {
        0
    } else {
        outranking(scores, i, n - 1) + if outranks(scores, n - 1, i) {
            1int
        } else {
            0int
        }
    }
}

/// The place of the entry at `i` in the ranking, counted from 0: the number
/// of entries that stand before it.
pub open spec fn place(scores: Seq<Scored>, i: int) -> int {
    outranking(scores, i, scores.len() as int)
}

/// The entry that takes place `k` of the ranking.
pub open spec fn source(scores: Seq<Scored>, k: int) -> int {
    choose|i: int| 0 <= i < scores.len() && place(scores, i) == k
}

/// The ranking of `scores`: each entry at its place, with the rank that the
/// place gives it.
pub open spec fn ranking_of(scores: Seq<Scored>) -> Seq<Ranked> {
    Seq::new(
        scores.len(),
        |k: int|
            Ranked {
                rank: k + 1,
                ticker: scores[source(scores, k)].ticker,
                score: scores[source(scores, k)].score,
            },
    )
}

proof fn lemma_outranking_bounds(scores: Seq<Scored>, i: int, n: int)
    requires
        0 <= n,
    ensures
        0 <= outranking(scores, i, n) <= n,
        0 <= i < n ==> outranking(scores, i, n) < n,
    decreases n,
{
    if n > 0 {
        lemma_outranking_bounds(scores, i, n - 1);
    }
}

proof fn lemma_outranking_monotone(scores: Seq<Scored>, a: int, b: int, n: int)
    requires
        0 <= n,
        0 <= a,
        outranks(scores, a, b),
    ensures
        outranking(scores, a, n) <= outranking(scores, b, n),
        a < n ==> outranking(scores, a, n) < outranking(scores, b, n),
    decreases n,
{
    if n > 0 {
        lemma_outranking_monotone(scores, a, b, n - 1);
    }
}

/// Every entry has a place in the ranking, and no two entries share one.
pub proof fn places_are_distinct(scores: Seq<Scored>, i: int, j: int)
    requires
        0 <= i < scores.len(),
        0 <= j < scores.len(),
        i != j,
    ensures
        0 <= place(scores, i) < scores.len(),
        place(scores, i) != place(scores, j),
{
    let n = scores.len() as int;
    lemma_outranking_bounds(scores, i, n);
    if outranks(scores, i, j) {
        lemma_outranking_monotone(scores, i, j, n);
    } else {
        lemma_outranking_monotone(scores, j, i, n);
    }
}

/// Every place of the ranking is taken: for each `k` below the number of
/// entries there is an entry whose place is `k`. The ranking has as many
/// lines as there are entries, and its ranks count from 1.
pub proof fn every_place_is_taken(scores: Seq<Scored>, k: int)
    requires
        0 <= k < scores.len(),
    ensures
        0 <= source(scores, k) < scores.len(),
        place(scores, source(scores, k)) == k,
        ranking_of(scores).len() == scores.len(),
        ranking_of(scores)[k].rank == k + 1,
        ranking_of(scores)[k].ticker == scores[source(scores, k)].ticker,
        ranking_of(scores)[k].score == scores[source(scores, k)].score,
{
    let n = scores.len() as int;
    let indices = set_int_range(0, n);
    let f = |i: int| place(scores, i);
    let places = indices.map(f);
    lemma_int_range(0, n);
    assert(injective_on(f, indices)) by {
        assert forall|i: int, j: int|
            indices.contains(i) && indices.contains(j) && #[trigger] f(i) == #[trigger] f(j) implies i
            == j by {
            if i != j {
                places_are_distinct(scores, i, j);
            }
        }
    }
    lemma_map_size(indices, places, f);
    assert(places.subset_of(indices)) by {
        assert forall|p: int| places.contains(p) implies indices.contains(p) by {
            let i = choose|i: int| indices.contains(i) && p == f(i);
            lemma_outranking_bounds(scores, i, n);
        }
    }
    lemma_subset_equality(places, indices);
    assert(indices.contains(k));
    assert(places.contains(k));
    let i = choose|i: int| indices.contains(i) && k == f(i);
    assert(0 <= i < scores.len() && place(scores, i) == k);
}

/// The ranking holds each entry at its place.
pub proof fn ranking_holds_every_entry(scores: Seq<Scored>, i: int)
    requires
        0 <= i < scores.len(),
    ensures
        0 <= place(scores, i) < scores.len(),
        ranking_of(scores)[place(scores, i)] == (Ranked {
            rank: place(scores, i) + 1,
            ticker: scores[i].ticker,
            score: scores[i].score,
        }),
{
    let n = scores.len() as int;
    let k = place(scores, i);
    lemma_outranking_bounds(scores, i, n);
    every_place_is_taken(scores, k);
    if source(scores, k) != i {
        places_are_distinct(scores, source(scores, k), i);
    }
}

/// The ranking is in descending order of score, and entries of equal score
/// stand in the order in which they were met: no entry is less than one that
/// stands after it, a score that is no number stands after every number, and
/// of two entries with the same sort key the one met first stands first.
pub proof fn ranking_is_stable_descending(scores: Seq<Scored>, a: int, b: int)
    requires
        0 <= a < b < scores.len(),
    ensures
        ranking_of(scores)[a].score.sort_key() >= ranking_of(scores)[b].score.sort_key(),
        !ranking_of(scores)[a].score.less_than(ranking_of(scores)[b].score),
        ranking_of(scores)[a].score.is_nan() ==> ranking_of(scores)[b].score.is_nan(),
        ranking_of(scores)[a].score.sort_key() == ranking_of(scores)[b].score.sort_key()
            ==> source(scores, a) < source(scores, b),
{
    let n = scores.len() as int;
    let i = source(scores, a);
    let j = source(scores, b);
    every_place_is_taken(scores, a);
    every_place_is_taken(scores, b);
    if outranks(scores, j, i) {
        lemma_outranking_monotone(scores, j, i, n);
    }
    order_key_orders_as_value(scores[i].score, scores[j].score);
}

/// What the entries of a score board stand for.
pub open spec fn scored_views(entries: Seq<TickerScore>) -> Seq<Scored> {
    entries.map_values(|e: TickerScore| e@)
}

/// What the lines of a ranking stand for.
pub open spec fn ranked_views(lines: Seq<RankedEntry>) -> Seq<Ranked> {
    lines.map_values(|e: RankedEntry| e@)
}

/// Whether no ticker occurs twice in `scores`.
pub open spec fn distinct_tickers(scores: Seq<Scored>) -> bool {
    forall|i: int, j: int|
        0 <= i < j < scores.len() ==> (#[trigger] scores[i]).ticker != (#[trigger] scores[j]).ticker
}

/// Whether `scores` holds an entry for `ticker`.
pub open spec fn holds_ticker(scores: Seq<Scored>, ticker: Seq<char>) -> bool {
    exists|k: int| 0 <= k < scores.len() && (#[trigger] scores[k]).ticker == ticker
}

/// Where `scores` holds the entry for `ticker`.
pub open spec fn index_of_ticker(scores: Seq<Scored>, ticker: Seq<char>) -> int {
    choose|k: int| 0 <= k < scores.len() && (#[trigger] scores[k]).ticker == ticker
}

/// The scores after `ticker` was scored with `score`: a ticker met for the
/// first time goes to the end; one met before keeps its place and takes the
/// new score.
pub open spec fn recorded(scores: Seq<Scored>, ticker: Seq<char>, score: Binary64) -> Seq<Scored> {
    if holds_ticker(scores, ticker) {
        scores.update(index_of_ticker(scores, ticker), Scored { ticker, score })
    } else {
        scores.push(Scored { ticker, score })
    }
}

/// The scores after a result came in: a score is recorded, a failure
/// changes nothing.
pub open spec fn collected(scores: Seq<Scored>, ticker: Seq<char>, outcome: Result<Binary64, ScoreError>) -> Seq<Scored> {
    match outcome {
        Ok(score) => recorded(scores, ticker, score),
        Err(_) => scores,
    }
}

/// Recording a score keeps the tickers distinct.
pub proof fn recorded_keeps_tickers_distinct(scores: Seq<Scored>, ticker: Seq<char>, score: Binary64)
    requires
        distinct_tickers(scores),
    ensures
        distinct_tickers(recorded(scores, ticker, score)),
{
    let after = recorded(scores, ticker, score);
    if holds_ticker(scores, ticker) {
        assert forall|i: int, j: int| 0 <= i < j < after.len() implies (#[trigger] after[i]).ticker
            != (#[trigger] after[j]).ticker by {
            assert(after[i].ticker == scores[i].ticker);
            assert(after[j].ticker == scores[j].ticker);
        }
    } else {
        assert forall|i: int, j: int| 0 <= i < j < after.len() implies (#[trigger] after[i]).ticker
            != (#[trigger] after[j]).ticker by {
            if j < scores.len() {
                assert(after[i].ticker == scores[i].ticker);
                assert(after[j].ticker == scores[j].ticker);
            } else {
                assert(after[i] == scores[i]);
            }
        }
    }
}

/// The result of scoring one ticker of the list.
pub ghost struct TickerResult {
    pub ticker: Seq<char>,
    pub outcome: Result<Binary64, ScoreError>,
}

/// The scores that a run collects from `results`, taken in the order of the
/// list.
pub open spec fn tally(results: Seq<TickerResult>) -> Seq<Scored>
    decreases results.len(),
{
    if results.len() == 0 {
        Seq::empty()
    } else {
        collected(tally(results.drop_last()), results.last().ticker, results.last().outcome)
    }
}

/// Whether two runs met the same tickers in the same order, and each ticker
/// failed in both or got the same score in both.
pub open spec fn same_scores(a: Seq<TickerResult>, b: Seq<TickerResult>) -> bool {
    &&& a.len() == b.len()
    &&& forall|i: int|
        0 <= i < a.len() ==> {
            &&& (#[trigger] a[i]).ticker == b[i].ticker
            &&& a[i].outcome is Ok <==> b[i].outcome is Ok
            &&& a[i].outcome is Ok ==> a[i].outcome->Ok_0 == b[i].outcome->Ok_0
        }
}

/// Two runs over the same list of tickers that got the same scores yield the
/// same ranking, line for line: the ranking depends on nothing but the
/// tickers, their order in the list, and their scores.
pub proof fn same_scores_give_same_ranking(a: Seq<TickerResult>, b: Seq<TickerResult>)
    requires
        same_scores(a, b),
    ensures
        tally(a) == tally(b),
        ranking_of(tally(a)) == ranking_of(tally(b)),
    decreases a.len(),
{
    if a.len() > 0 {
        assert(a.last().ticker == b.last().ticker);
        assert forall|i: int| 0 <= i < a.drop_last().len() implies {
            &&& (#[trigger] a.drop_last()[i]).ticker == b.drop_last()[i].ticker
            &&& a.drop_last()[i].outcome is Ok <==> b.drop_last()[i].outcome is Ok
            &&& a.drop_last()[i].outcome is Ok ==> a.drop_last()[i].outcome->Ok_0
                == b.drop_last()[i].outcome->Ok_0
        } by {
            assert(a.drop_last()[i] == a[i]);
            assert(b.drop_last()[i] == b[i]);
        }
        same_scores_give_same_ranking(a.drop_last(), b.drop_last());
    }
}

/// A run keeps its tickers distinct, whatever the list held.
pub proof fn tally_keeps_tickers_distinct(results: Seq<TickerResult>)
    ensures
        distinct_tickers(tally(results)),
    decreases results.len(),
{
    if results.len() > 0 {
        tally_keeps_tickers_distinct(results.drop_last());
        if results.last().outcome is Ok {
            recorded_keeps_tickers_distinct(
                tally(results.drop_last()),
                results.last().ticker,
                results.last().outcome->Ok_0,
            );
        }
    }
}

/// Whether some result of `results` gave `ticker` a score.
pub open spec fn scored_in(results: Seq<TickerResult>, ticker: Seq<char>) -> bool {
    exists|i: int|
        0 <= i < results.len() && (#[trigger] results[i]).ticker == ticker && results[i].outcome is Ok
}

proof fn lemma_recorded_holds(scores: Seq<Scored>, ticker: Seq<char>, score: Binary64, other: Seq<char>)
    ensures
        holds_ticker(recorded(scores, ticker, score), other) <==> holds_ticker(scores, other) || other
            == ticker,
{
    let after = recorded(scores, ticker, score);
    if holds_ticker(scores, ticker) {
        let w = index_of_ticker(scores, ticker);
        assert(after[w].ticker == ticker);
        if holds_ticker(scores, other) {
            let k = choose|k: int| 0 <= k < scores.len() && (#[trigger] scores[k]).ticker == other;
            assert(after[k].ticker == other);
        }
        if holds_ticker(after, other) {
            let k = choose|k: int| 0 <= k < after.len() && (#[trigger] after[k]).ticker == other;
            assert(scores[k].ticker == other);
        }
    } else {
        assert(after[scores.len() as int].ticker == ticker);
        if holds_ticker(scores, other) {
            let k = choose|k: int| 0 <= k < scores.len() && (#[trigger] scores[k]).ticker == other;
            assert(after[k].ticker == other);
        }
        if holds_ticker(after, other) && other != ticker {
            let k = choose|k: int| 0 <= k < after.len() && (#[trigger] after[k]).ticker == other;
            assert(scores[k].ticker == other);
        }
    }
}

/// A run holds a score for exactly the tickers that some result gave one: a
/// ticker of which every scoring failed is not on the board, and so in no
/// line of the ranking.
pub proof fn tally_holds_the_scored_tickers(results: Seq<TickerResult>, ticker: Seq<char>)
    ensures
        holds_ticker(tally(results), ticker) <==> scored_in(results, ticker),
    decreases results.len(),
{
    if results.len() > 0 {
        let earlier = results.drop_last();
        let last = results.last();
        tally_holds_the_scored_tickers(earlier, ticker);
        if last.outcome is Ok {
            lemma_recorded_holds(tally(earlier), last.ticker, last.outcome->Ok_0, ticker);
        }
        if scored_in(earlier, ticker) {
            let i = choose|i: int|
                0 <= i < earlier.len() && (#[trigger] earlier[i]).ticker == ticker
                    && earlier[i].outcome is Ok;
            assert(results[i] == earlier[i]);
        }
        if last.outcome is Ok && last.ticker == ticker {
            assert(results[results.len() - 1] == last);
        }
        if scored_in(results, ticker) {
            let i = choose|i: int|
                0 <= i < results.len() && (#[trigger] results[i]).ticker == ticker
                    && results[i].outcome is Ok;
            if i < earlier.len() {
                assert(earlier[i] == results[i]);
            }
        }
    }
}

/// The line of a scored ticker in the list of collected scores: the ticker,
/// a comma, and the score as the caller writes it.
pub open spec fn score_line_text(ticker: Seq<char>, score: Seq<char>) -> Seq<char> {
    ticker + ","@ + score
}

/// The line of a ranked ticker in the ranking: the rank in decimal notation,
/// the ticker, and the score as the caller writes it, with commas between
/// them.
pub open spec fn ranked_line_text(rank: nat, ticker: Seq<char>, score: Seq<char>) -> Seq<char> {
    decimal(rank) + ","@ + ticker + ","@ + score
}

/// Writes the line of a scored ticker.
pub fn score_line(ticker: &str, score: &str) -> (line: String)
    ensures
        line@ == score_line_text(ticker@, score@),
{
    let mut line = String::from_str(ticker);
    line.append(",");
    line.append(score);
    line
}

/// Writes the line of a ranked ticker.
pub fn ranked_line(rank: usize, ticker: &str, score: &str) -> (line: String)
    ensures
        line@ == ranked_line_text(rank as nat, ticker@, score@),
{
    let mut line = decimal_string(rank as u64);
    line.append(",");
    line.append(ticker);
    line.append(",");
    line.append(score);
    line
}

/// What is to be reported of a ticker once its result is in.
#[derive(Debug)]
pub enum Report {
    /// The ticker has a score: a line of the list of collected scores is
    /// owed.
    Scored { score: Binary64 },
    /// The ticker has no score, for the reason that the message gives.
    Failed { message: String },
}

/// The scores collected in a ranking run, in the order in which their tickers
/// were first met. No ticker occurs twice.
pub struct ScoreBoard {
    entries: Vec<TickerScore>,
}

impl View for ScoreBoard {
    type V = Seq<Scored>;

    closed spec fn view(&self) -> Seq<Scored> {
        scored_views(self.entries@)
    }
}

impl ScoreBoard {
    #[verifier::type_invariant]
    spec fn tickers_are_distinct(self) -> bool {
        distinct_tickers(scored_views(self.entries@))
    }

    /// A board without scores.
    pub fn new() -> (board: ScoreBoard)
        ensures
            board@ == Seq::<Scored>::empty(),
    {
        let board = ScoreBoard { entries: Vec::new() };
        assert(board@ =~= Seq::<Scored>::empty());
        board
    }

    /// The number of tickers that have a score.
    pub fn len(&self) -> (n: usize)
        ensures
            n == self@.len(),
    {
        self.entries.len()
    }

    /// The entries, in the order in which their tickers were first met.
    pub fn entries(&self) -> (entries: &Vec<TickerScore>)
        ensures
            entries@.len() == self@.len(),
            scored_views(entries@) == self@,
            distinct_tickers(self@),
    {
        proof {
            use_type_invariant(self);
        }
        &self.entries
    }

    fn find(entries: &Vec<TickerScore>, ticker: &String) -> (found: Option<usize>)
        ensures
            match found {
                Some(k) => k < entries.len() && entries[k as int].ticker@ == ticker@,
                None => !holds_ticker(scored_views(entries@), ticker@),
            },
    {
        let mut k: usize = 0;
        while k < entries.len()
            invariant
                k <= entries.len(),
                forall|j: int| 0 <= j < k ==> (#[trigger] entries[j]).ticker@ != ticker@,
            decreases entries.len() - k,
        {
            if entries[k].ticker == *ticker {
                return Some(k);
            }
            k += 1;
        }
        assert forall|j: int| 0 <= j < entries.len() implies (#[trigger] scored_views(
            entries@,
        )[j]).ticker != ticker@ by {
            assert(entries[j].ticker@ != ticker@);
        }
        None
    }

    /// Takes in the result of scoring `ticker`, and says what is to be
    /// reported of it. A score is recorded; a failure leaves the board as it
    /// is.
    pub fn record(&mut self, ticker: String, outcome: &Result<Binary64, ScoreError>) -> (report: Report)
        ensures
            final(self)@ == collected(old(self)@, ticker@, *outcome),
            distinct_tickers(final(self)@),
            match *outcome {
                Ok(score) => report == Report::Scored { score },
                Err(error) => report matches Report::Failed { message } && message@
                    == error.message_text(),
            },
    {
        proof {
            use_type_invariant(&*self);
        }
        match outcome {
            Ok(score) => {
                let ghost before = self@;
                let mut entries: Vec<TickerScore> = Vec::new();
                std::mem::swap(&mut entries, &mut self.entries);
                assert(scored_views(entries@) == before);
                let found = Self::find(&entries, &ticker);
                let ghost shown = ticker@;
                proof {
                    recorded_keeps_tickers_distinct(before, shown, *score);
                }
                match found {
                    Some(k) => {
                        proof {
                            let w = index_of_ticker(before, shown);
                            assert(before[k as int].ticker == shown);
                            assert(holds_ticker(before, shown));
                            assert(w == k);
                        }
                        entries.set(k, TickerScore { ticker, score: *score });
                        assert(scored_views(entries@) =~= recorded(before, shown, *score));
                    },
                    None => {
                        entries.push(TickerScore { ticker, score: *score });
                        assert(scored_views(entries@) =~= recorded(before, shown, *score));
                    },
                }
                self.entries = entries;
                Report::Scored { score: *score }
            },
            Err(error) => Report::Failed { message: error.message() },
        }
    }

    /// The place in the ranking of the entry at `i`.
    fn place_of(&self, i: usize) -> (p: usize)
        requires
            i < self@.len(),
        ensures
            p == place(self@, i as int),
            p < self@.len(),
    {
        let n = self.entries.len();
        let key = self.entries[i].score.sorting_key();
        let mut p: usize = 0;
        let mut j: usize = 0;
        while j < n
            invariant
                n == self.entries.len(),
                i < n,
                j <= n,
                key == self@[i as int].score.sort_key(),
                p == outranking(self@, i as int, j as int),
                p <= j,
            decreases n - j,
        {
            let other = self.entries[j].score.sorting_key();
            if other > key || (other == key && j < i) {
                p += 1;
            }
            j += 1;
        }
        proof {
            lemma_outranking_bounds(self@, i as int, n as int);
        }
        p
    }

    /// The ranking of the scores on the board: in descending order of score,
    /// tickers of equal score in the order in which they were first met, with
    /// ranks from 1.
    pub fn ranking(&self) -> (ranked: Vec<RankedEntry>)
        ensures
            ranked@.len() == self@.len(),
            ranked_views(ranked@) == ranking_of(self@),
    {
        let n = self.entries.len();
        let mut ranked: Vec<RankedEntry> = Vec::new();
        let mut k: usize = 0;
        while k < n
            invariant
                k <= n,
                ranked.len() == k,
                forall|a: int| 0 <= a < k ==> (#[trigger] ranked[a]).rank == a + 1,
            decreases n - k,
        {
            ranked.push(RankedEntry { rank: k + 1, ticker: String::new(), score: Binary64 { bits: 0 } });
            k += 1;
        }
        let mut i: usize = 0;
        while i < n
            invariant
                n == self.entries.len(),
                i <= n,
                ranked.len() == n,
                forall|a: int| 0 <= a < n ==> (#[trigger] ranked[a]).rank == a + 1,
                forall|b: int|
                    0 <= b < i ==> {
                        let at = #[trigger] place(self@, b);
                        &&& 0 <= at < n
                        &&& ranked[at].ticker@ == self@[b].ticker
                        &&& ranked[at].score == self@[b].score
                    },
            decreases n - i,
        {
            let p = self.place_of(i);
            proof {
                assert forall|b: int| 0 <= b < i implies place(self@, b) != p by {
                    places_are_distinct(self@, b, i as int);
                }
            }
            let entry = &self.entries[i];
            ranked.set(p, RankedEntry { rank: p + 1, ticker: entry.ticker.clone(), score: entry.score });
            i += 1;
        }
        proof {
            let scores = self@;
            let lines = ranked_views(ranked@);
            assert forall|a: int| 0 <= a < n implies lines[a] == ranking_of(scores)[a] by {
                every_place_is_taken(scores, a);
                let b = source(scores, a);
                assert(place(scores, b) == a);
            }
            assert(lines =~= ranking_of(scores));
        }
        ranked
    }
}

} // verus!
