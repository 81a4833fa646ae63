//! The rounds of a search.
//!
//! A search runs a fixed number of rounds one after the other. Each round
//! dispatches the kernel over the whole grid, waits for the scores, and
//! reduces them into the best result. The dispatch itself is the caller's
//! work: `begin` and `advance` decide what happens next from what the
//! backend reported, and `search` runs every worker in sequence instead.

use vstd::prelude::*;
use crate::error::SearchError;
use crate::grid::Grid;
use crate::kernel::{hash_kernel, kernel_score, prefix_of_round, round_prefix, score};
use crate::reducer::{first_max, is_first_max, lemma_first_max, reduce, reduced, BestResult};

verus! {

/// The number of rounds of a search.
pub const ROUNDS: u32 = 10;

/// What one round dispatches: the prefix that all workers share and the grid
/// of workers to run.
pub struct RoundInputs {
    pub round: u32,
    pub prefix: Vec<u8>,
    pub grid: Grid,
}

/// A search with a round in flight.
pub struct Search {
    input: Vec<u8>,
    grid: Grid,
    rounds: u32,
    round: u32,
    best: BestResult,
}

/// What the backend reported when the search asked for it.
pub enum Backend {
    /// A device is ready; it runs grids up to `max_width` columns wide.
    Ready { max_width: u32 },
    /// No compatible device was found.
    Unavailable,
}

/// How the round in flight ended.
pub enum Outcome {
    /// The round completed; slot `n` holds the score of the worker with
    /// nonce `n`.
    Scores(Vec<u8>),
    /// The dispatch or the read-back of the scores failed.
    Failed,
}

/// What a search does next.
pub enum Step {
    /// Dispatch a round and come back with its outcome.
    Dispatch { search: Search, inputs: RoundInputs },
    /// All rounds are done.
    Finished { best: BestResult },
    /// The run failed. No partial result is reported.
    Aborted { error: SearchError },
}

/// The scores of a full grid: slot `n` holds the kernel's score for nonce `n`.
pub open spec fn kernel_scores(prefix: Seq<u8>, workers: nat) -> Seq<u8> {
    Seq::new(workers, |n: int| kernel_score(prefix, n as nat))
}

/// The best result of reducing the score buffers of consecutive rounds,
/// buffer `i` being that of round `i`.
pub open spec fn best_of(buffers: Seq<Seq<u8>>) -> BestResult
    decreases buffers.len(),
{
    if buffers.len() == 0 {
        BestResult::Nothing
    } else {
        reduced(best_of(buffers.drop_last()), (buffers.len() - 1) as nat, buffers.last())
    }
}

/// The score buffers of the first `rounds` rounds of a search.
pub open spec fn all_scores(input: Seq<u8>, workers: nat, rounds: nat) -> Seq<Seq<u8>> {
    Seq::new(rounds, |i: int| kernel_scores(round_prefix(input, i as nat), workers))
}

/// The best result of a search after `rounds` rounds.
pub open spec fn best_after(input: Seq<u8>, workers: nat, rounds: nat) -> BestResult {
    best_of(all_scores(input, workers, rounds))
}

/// Whether slot `n1` of round `i1` comes before slot `n2` of round `i2` in
/// the order in which a search reads scores.
pub open spec fn reads_before(i1: int, n1: int, i2: int, n2: int) -> bool {
    i1 < i2 || (i1 == i2 && n1 < n2)
}

/// Whether `best` is the maximum of `buffers`: no score is larger, and the
/// recorded candidate is the first that reaches the recorded score. Nothing
/// is recorded exactly when every score is zero.
pub open spec fn is_maximum_of(best: BestResult, buffers: Seq<Seq<u8>>) -> bool {
    &&& forall|i: int, n: int|
        0 <= i < buffers.len() && 0 <= n < buffers[i].len() ==> #[trigger] buffers[i][n]
            <= best.score_of()
    &&& match best {
        BestResult::Nothing => true,
        BestResult::Found { round, nonce, score } => {
            &&& score > 0
            &&& round < buffers.len()
            &&& nonce < buffers[round as int].len()
            &&& buffers[round as int][nonce as int] == score
            &&& forall|i: int, n: int|
                0 <= i < buffers.len() && 0 <= n < buffers[i].len() && reads_before(
                    i,
                    n,
                    round as int,
                    nonce as int,
                ) ==> #[trigger] buffers[i][n] < score
        },
    }
}

/// Whether the buffers are those of a search: at most `u32::MAX` rounds, each
/// with at least one score and at most `u64::MAX`.
pub open spec fn buffers_fit(buffers: Seq<Seq<u8>>) -> bool {
    &&& buffers.len() <= u32::MAX
    &&& forall|i: int| 0 <= i < buffers.len() ==> 0 < (#[trigger] buffers[i]).len() <= u64::MAX
}

/// The recorded best result is the true maximum of all scores read, and it
/// names the first candidate that reaches it.
pub proof fn lemma_best_is_maximum(buffers: Seq<Seq<u8>>)
    requires
        buffers_fit(buffers),
    ensures
        is_maximum_of(best_of(buffers), buffers),
    decreases buffers.len(),
{
    if buffers.len() > 0 {
        let before = buffers.drop_last();
        let last = buffers.last();
        let round = buffers.len() - 1;
        assert(buffers_fit(before)) by {
            assert forall|i: int| 0 <= i < before.len() implies 0 < (#[trigger] before[i]).len()
                <= u64::MAX by {
                assert(before[i] == buffers[i]);
            }
        }
        lemma_best_is_maximum(before);
        lemma_first_max(last);
        let old_best = best_of(before);
        let best = best_of(buffers);
        let index = first_max(last);
        assert(is_first_max(last, index));
        assert forall|i: int, n: int|
            0 <= i < buffers.len() && 0 <= n < buffers[i].len() implies #[trigger] buffers[i][n]
            <= best.score_of() by {
            if i < round {
                assert(before[i] == buffers[i]);
                assert(before[i][n] <= old_best.score_of());
            } else {
                assert(last[n] <= last[index]);
            }
        }
        match best {
            BestResult::Nothing => {},
            BestResult::Found { round: r, nonce, score } => {
                if last[index] > old_best.score_of() {
                    assert(r == round && nonce == index && score == last[index]);
                    assert forall|i: int, n: int|
                        0 <= i < buffers.len() && 0 <= n < buffers[i].len() && reads_before(
                            i,
                            n,
                            r as int,
                            nonce as int,
                        ) implies #[trigger] buffers[i][n] < score by {
                        if i < round {
                            assert(before[i] == buffers[i]);
                            assert(before[i][n] <= old_best.score_of());
                        } else {
                            assert(last[n] < last[index]);
                        }
                    }
                } else {
                    assert(best == old_best);
                    assert(before[r as int] == buffers[r as int]);
                    assert forall|i: int, n: int|
                        0 <= i < buffers.len() && 0 <= n < buffers[i].len() && reads_before(
                            i,
                            n,
                            r as int,
                            nonce as int,
                        ) implies #[trigger] buffers[i][n] < score by {
                        assert(before[i] == buffers[i]);
                        assert(before[i][n] < score);
                    }
                }
            },
        }
    }
}

/// The recorded best score never decreases as rounds are reduced.
pub proof fn lemma_best_is_monotonic(buffers: Seq<Seq<u8>>, earlier: int, later: int)
    requires
        0 <= earlier <= later <= buffers.len(),
    ensures
        best_of(buffers.take(earlier)).score_of() <= best_of(buffers.take(later)).score_of(),
    decreases later - earlier,
{
    if earlier < later {
        lemma_best_is_monotonic(buffers, earlier, later - 1);
        assert(buffers.take(later).drop_last() =~= buffers.take(later - 1));
    }
}

/// The search finds the true maximum: after `rounds` rounds over `workers`
/// workers no candidate scores above the recorded score, and the recorded
/// candidate is the first that reaches it.
pub proof fn lemma_search_finds_maximum(input: Seq<u8>, workers: nat, rounds: nat)
    requires
        0 < workers <= u64::MAX,
        rounds <= u32::MAX,
    ensures
        is_maximum_of(best_after(input, workers, rounds), all_scores(input, workers, rounds)),
        forall|i: nat, n: nat|
            i < rounds && n < workers ==> #[trigger] score(input, i, n) <= best_after(
                input,
                workers,
                rounds,
            ).score_of(),
        best_after(input, workers, rounds) matches BestResult::Found { round, nonce, score: found }
            ==> round < rounds && nonce < workers && found == score(
            input,
            round as nat,
            nonce as nat,
        ),
{
    let buffers = all_scores(input, workers, rounds);
    lemma_best_is_maximum(buffers);
    let best = best_after(input, workers, rounds);
    assert forall|i: nat, n: nat| i < rounds && n < workers implies #[trigger] score(input, i, n)
        <= best.score_of() by {
        assert(buffers[i as int][n as int] == score(input, i, n));
    }
}

/// Round monotonicity: the recorded best score of a search never decreases
/// from one round to a later one.
pub proof fn lemma_search_is_monotonic(input: Seq<u8>, workers: nat, earlier: nat, later: nat)
    requires
        earlier <= later,
    ensures
        best_after(input, workers, earlier).score_of() <= best_after(input, workers, later).score_of(),
{
    let buffers = all_scores(input, workers, later);
    lemma_best_is_monotonic(buffers, earlier as int, later as int);
    assert(buffers.take(later as int) =~= buffers);
    assert(buffers.take(earlier as int) =~= all_scores(input, workers, earlier));
}

/// One more round reduces the scores of that round into the best result of
/// the rounds before.
pub proof fn lemma_best_after_step(input: Seq<u8>, workers: nat, rounds: nat)
    ensures
        best_after(input, workers, rounds + 1) == reduced(
            best_after(input, workers, rounds),
            rounds,
            kernel_scores(round_prefix(input, rounds), workers),
        ),
{
    let buffers = all_scores(input, workers, rounds + 1);
    assert(buffers.drop_last() =~= all_scores(input, workers, rounds));
}

impl Search {
    /// The input that every candidate starts with.
    pub closed spec fn input(self) -> Seq<u8> {
        self.input@
    }

    /// The grid that every round dispatches.
    pub closed spec fn grid(self) -> Grid {
        self.grid
    }

    /// The number of rounds of the search.
    pub closed spec fn rounds(self) -> nat {
        self.rounds as nat
    }

    /// The round in flight.
    pub closed spec fn round(self) -> nat {
        self.round as nat
    }

    /// The best result of the rounds before the one in flight.
    pub closed spec fn best(self) -> BestResult {
        self.best
    }

    /// The round in flight is one of the search's rounds, and the grid has
    /// workers.
    pub open spec fn wf(self) -> bool {
        &&& self.round() < self.rounds() <= u32::MAX
        &&& self.grid().wf()
    }

    #[verifier::type_invariant]
    spec fn inv(self) -> bool {
        self.wf()
    }

    /// The best result of the rounds before the one in flight.
    pub fn best_so_far(&self) -> (best: BestResult)
        ensures
            best == self.best(),
    {
        self.best
    }
}

impl Step {
    /// Whether this step dispatches round `round` of a search of `rounds`
    /// rounds over a grid of `columns` by `rows` workers, with `best` the
    /// best result of the rounds before.
    pub open spec fn dispatches(
        self,
        input: Seq<u8>,
        columns: nat,
        rows: nat,
        rounds: nat,
        round: nat,
        best: BestResult,
    ) -> bool {
        self matches Step::Dispatch { search, inputs } && {
            &&& search.wf()
            &&& search.input() == input
            &&& search.grid().columns() == columns
            &&& search.grid().rows() == rows
            &&& search.rounds() == rounds
            &&& search.round() == round
            &&& search.best() == best
            &&& inputs.round == round
            &&& inputs.prefix@ == round_prefix(input, round)
            &&& inputs.grid == search.grid()
        }
    }
}

/// What `begin` decides.
pub open spec fn begins(input: Seq<u8>, rounds: u32, height: u32, backend: Backend, step: Step) -> bool {
    match backend {
        Backend::Unavailable => step == (Step::Aborted { error: SearchError::BackendUnavailable }),
        Backend::Ready { max_width } => {
            if max_width == 0 || height == 0 {
                step == (Step::Aborted { error: SearchError::EmptyGrid })
            } else if rounds == 0 {
                step == (Step::Finished { best: BestResult::Nothing })
            } else {
                step.dispatches(
                    input,
                    max_width as nat,
                    height as nat,
                    rounds as nat,
                    0,
                    BestResult::Nothing,
                )
            }
        },
    }
}

/// What `advance` decides.
pub open spec fn advances(search: Search, outcome: Outcome, step: Step) -> bool {
    match outcome {
        Outcome::Failed => step == (Step::Aborted { error: SearchError::RoundFailed }),
        Outcome::Scores(scores) => {
            if scores@.len() != search.grid().workers() {
                step == (Step::Aborted { error: SearchError::RoundFailed })
            } else {
                let best = reduced(search.best(), search.round(), scores@);
                if search.round() + 1 < search.rounds() {
                    step.dispatches(
                        search.input(),
                        search.grid().columns(),
                        search.grid().rows(),
                        search.rounds(),
                        search.round() + 1,
                        best,
                    )
                } else {
                    step == (Step::Finished { best })
                }
            }
        },
    }
}

/// A search keeps the best result of the buffers that it has reduced: if it
/// carries the best of the buffers of the rounds before the one in flight,
/// then after the scores of that round it carries on or finishes with the
/// best of those buffers and the new one.
pub proof fn lemma_advance_keeps_best(search: Search, buffers: Seq<Seq<u8>>, scores: Vec<u8>, step: Step)
    requires
        buffers.len() == search.round(),
        search.best() == best_of(buffers),
        scores@.len() == search.grid().workers(),
        advances(search, Outcome::Scores(scores), step),
    ensures
        step matches Step::Dispatch { search: next, .. } ==> next.round() == buffers.len() + 1
            && next.best() == best_of(buffers.push(scores@)),
        step matches Step::Finished { best } ==> best == best_of(buffers.push(scores@)),
        !(step is Aborted),
{
    assert(buffers.push(scores@).drop_last() =~= buffers);
}

/// Round monotonicity: whatever the round in flight reports, the best result
/// that a search carries on or finishes with scores no lower than the best
/// result that it had.
pub proof fn lemma_advance_is_monotonic(search: Search, outcome: Outcome, step: Step)
    requires
        advances(search, outcome, step),
    ensures
        step matches Step::Dispatch { search: next, .. } ==> next.best().score_of()
            >= search.best().score_of(),
        step matches Step::Finished { best } ==> best.score_of() >= search.best().score_of(),
{
}

/// Starts a search of `rounds` rounds over a grid as wide as the backend
/// allows and `height` rows high.
///
/// The run is aborted when there is no backend or the grid has no worker.
/// Otherwise the first round is dispatched, or the search is finished at
/// once when it has no rounds.
pub fn begin(input: &[u8], rounds: u32, height: u32, backend: Backend) -> (step: Step)
    ensures
        begins(input@, rounds, height, backend, step),
{
    match backend {
        Backend::Unavailable => Step::Aborted { error: SearchError::BackendUnavailable },
        Backend::Ready { max_width } => {
            match Grid::new(max_width, height) {
                Err(error) => Step::Aborted { error },
                Ok(grid) => {
                    if rounds == 0 {
                        Step::Finished { best: BestResult::Nothing }
                    } else {
                        let mut owned: Vec<u8> = Vec::new();
                        owned.extend_from_slice(input);
                        assert(owned@ =~= input@);
                        let prefix: Vec<u8> = prefix_of_round(input, 0);
                        let search = Search { input: owned, grid, rounds, round: 0, best: BestResult::Nothing };
                        Step::Dispatch { search, inputs: RoundInputs { round: 0, prefix, grid } }
                    }
                },
            }
        },
    }
}

/// Takes the outcome of the round in flight and decides what comes next.
///
/// A failed round aborts the run, and so does a score buffer that does not
/// hold one score for each worker. Otherwise the scores are reduced into the
/// best result; then the next round is dispatched, or the search is finished
/// after its last round. The recorded score never decreases.
pub fn advance(search: Search, outcome: Outcome) -> (step: Step)
    ensures
        advances(search, outcome, step),
{
    proof {
        use_type_invariant(&search);
    }
    match outcome {
        Outcome::Failed => Step::Aborted { error: SearchError::RoundFailed },
        Outcome::Scores(scores) => {
            let workers: u64 = search.grid.worker_count();
            if scores.len() as u64 != workers {
                Step::Aborted { error: SearchError::RoundFailed }
            } else {
                let best: BestResult = reduce(search.best, search.round, scores.as_slice());
                if search.round + 1 < search.rounds {
                    let round: u32 = search.round + 1;
                    let prefix: Vec<u8> = prefix_of_round(search.input.as_slice(), round);
                    let grid: Grid = search.grid;
                    let next = Search { input: search.input, grid, rounds: search.rounds, round, best };
                    Step::Dispatch { search: next, inputs: RoundInputs { round, prefix, grid } }
                } else {
                    Step::Finished { best }
                }
            }
        },
    }
}

/// Runs the kernel of the worker at column `x`, row `y`: the worker derives
/// its nonce from its own position, and its score belongs in the slot of that
/// nonce. There is no such worker outside the grid.
pub fn run_worker(inputs: &RoundInputs, x: u32, y: u32) -> (out: Option<(u64, u8)>)
    ensures
        inputs.grid.has_worker(x as nat, y as nat) ==> out == Some(
            (
                inputs.grid.nonce_of(x as nat, y as nat) as u64,
                kernel_score(inputs.prefix@, inputs.grid.nonce_of(x as nat, y as nat)),
            ),
        ),
        !inputs.grid.has_worker(x as nat, y as nat) ==> out.is_none(),
{
    match inputs.grid.nonce(x, y) {
        Some(nonce) => Some((nonce, hash_kernel(inputs.prefix.as_slice(), nonce))),
        None => None,
    }
}

/// Runs every worker of a round in sequence, row by row. Each worker writes
/// its score to its own slot: slot `n` holds the score of the worker with
/// nonce `n`.
pub fn evaluate_round(inputs: &RoundInputs) -> (scores: Vec<u8>)
    requires
        inputs.grid.workers() <= usize::MAX,
    ensures
        scores@ == kernel_scores(inputs.prefix@, inputs.grid.workers()),
{
    let width: u32 = inputs.grid.width();
    let height: u32 = inputs.grid.height();
    let count: u64 = inputs.grid.worker_count();
    let mut scores: Vec<u8> = vec![0u8; count as usize];
    let mut y: u32 = 0;
    while y < height
        invariant
            y <= height,
            inputs.grid.wf(),
            width == inputs.grid.columns(),
            height == inputs.grid.rows(),
            scores.len() == inputs.grid.workers(),
            forall|n: int|
                0 <= n < inputs.grid.nonce_of(0, y as nat) ==> #[trigger] scores[n] == kernel_score(
                    inputs.prefix@,
                    n as nat,
                ),
        decreases height - y,
    {
        let mut x: u32 = 0;
        while x < width
            invariant
                x <= width,
                y < height,
                inputs.grid.wf(),
                width == inputs.grid.columns(),
                height == inputs.grid.rows(),
                scores.len() == inputs.grid.workers(),
                forall|n: int|
                    0 <= n < inputs.grid.nonce_of(x as nat, y as nat) ==> #[trigger] scores[n]
                        == kernel_score(inputs.prefix@, n as nat),
            decreases width - x,
        {
            proof {
                inputs.grid.lemma_nonce_in_range(x as nat, y as nat);
            }
            match run_worker(inputs, x, y) {
                Some((nonce, score)) => {
                    scores[nonce as usize] = score;
                },
                None => {},
            }
            x = x + 1;
        }
        assert(inputs.grid.nonce_of(width as nat, y as nat) == inputs.grid.nonce_of(0, (y + 1) as nat))
            by (nonlinear_arith)
            requires
                width == inputs.grid.columns(),
        ;
        y = y + 1;
    }
    assert(inputs.grid.nonce_of(0, height as nat) == inputs.grid.workers()) by (nonlinear_arith)
        requires
            height == inputs.grid.rows(),
    ;
    assert(scores@ =~= kernel_scores(inputs.prefix@, inputs.grid.workers()));
    scores
}

/// Runs a whole search in sequence: `rounds` rounds over a grid of `width`
/// columns and `height` rows.
///
/// The result is the candidate with the highest score among all rounds and
/// all workers, the first such in reading order; a grid without workers is
/// rejected.
pub fn search(input: &[u8], rounds: u32, width: u32, height: u32) -> (result: Result<BestResult, SearchError>)
    requires
        width * height <= usize::MAX,
    ensures
        width == 0 || height == 0 ==> result == Err::<BestResult, SearchError>(SearchError::EmptyGrid),
        width > 0 && height > 0 ==> result == Ok::<BestResult, SearchError>(
            best_after(input@, (width * height) as nat, rounds as nat),
        ),
{
    let ghost workers: nat = (width * height) as nat;
    let first: Step = begin(input, rounds, height, Backend::Ready { max_width: width });
    let (mut current, mut inputs): (Search, RoundInputs) = match first {
        Step::Dispatch { search, inputs } => (search, inputs),
        Step::Finished { best } => {
            return Ok(best);
        },
        Step::Aborted { error } => {
            return Err(error);
        },
    };
    loop
        invariant
            width > 0 && height > 0,
            workers == width * height,
            workers <= usize::MAX,
            (Step::Dispatch { search: current, inputs }).dispatches(
                input@,
                width as nat,
                height as nat,
                rounds as nat,
                current.round(),
                best_after(input@, workers, current.round()),
            ),
        decreases rounds - current.round(),
    {
        let scores: Vec<u8> = evaluate_round(&inputs);
        proof {
            lemma_best_after_step(input@, workers, current.round());
        }
        match advance(current, Outcome::Scores(scores)) {
            Step::Dispatch { search, inputs: next } => {
                current = search;
                inputs = next;
            },
            Step::Finished { best } => {
                return Ok(best);
            },
            Step::Aborted { error } => {
                return Err(error);
            },
        }
    }
}

} // verus!
