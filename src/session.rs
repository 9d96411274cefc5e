//! One game attempt as a state machine: the caller submits each guess to the
//! game and hands back the row's tile states; the session decides what follows.
use vstd::prelude::*;
use rand::Rng;
use crate::feedback::{Tag, SolveError, all_correct, interpret_row, is_all_correct, row_is_known, row_tags};
use crate::solver::{apply, filtered, words_of, true_feedback, lemma_secret_survives, lemma_all_correct_is_secret};

verus! {

/// Where an attempt stands.
#[derive(Clone, Copy, Debug, PartialEq, Eq, Structural)]
pub enum Phase {
    /// Waiting for the next guess.
    Guessing,
    /// A guess got an all-correct row.
    Solved,
    /// Every row was used without a solution.
    Exhausted,
}

/// The state of a session, in mathematical terms.
pub struct SessionView {
    pub candidates: Seq<Seq<char>>,
    pub rows: nat,
    pub used: nat,
    pub phase: Phase,
    pub answer: Option<Seq<char>>,
}

/// The state after the row for guess `g` came back with feedback `f`.
pub open spec fn step(s: SessionView, g: Seq<char>, f: Seq<Tag>) -> SessionView {
    if s.phase != Phase::Guessing {
        s
    } else if all_correct(f) {
        SessionView { used: s.used + 1, phase: Phase::Solved, answer: Some(g), ..s }
    } else {
        SessionView {
            candidates: filtered(s.candidates, g, f),
            used: s.used + 1,
            phase: if s.used + 1 >= s.rows {
                Phase::Exhausted
            } else {
                Phase::Guessing
            },
            ..s
        }
    }
}

/// The state after a sequence of rows, guess `gs[i]` with feedback `fs[i]`.
pub open spec fn run(s: SessionView, gs: Seq<Seq<char>>, fs: Seq<Seq<Tag>>) -> SessionView
    decreases gs.len(),
{
    if gs.len() == 0 || fs.len() == 0 {
        s
    } else {
        run(step(s, gs[0], fs[0]), gs.drop_first(), fs.drop_first())
    }
}

/// An all-correct row solves the game with the guessed word, whatever the
/// candidates are.
pub proof fn lemma_all_correct_solves(s: SessionView, g: Seq<char>, f: Seq<Tag>)
    requires
        s.phase == Phase::Guessing,
        all_correct(f),
    ensures
        step(s, g, f).phase == Phase::Solved,
        step(s, g, f).answer == Some(g),
        step(s, g, f).candidates == s.candidates,
{
}

/// Over a whole game in which every row is the truthful feedback for the
/// secret, the secret is never filtered out, and a solved game has the secret
/// as its answer.
pub proof fn lemma_secret_kept_over_game(
    s: SessionView,
    gs: Seq<Seq<char>>,
    fs: Seq<Seq<Tag>>,
    secret: Seq<char>,
)
    requires
        s.candidates.contains(secret),
        s.answer is None || s.answer == Some(secret),
        gs.len() == fs.len(),
        forall|k: int| 0 <= k < gs.len() ==> (#[trigger] gs[k]).len() == secret.len(),
        forall|k: int| 0 <= k < fs.len() ==> #[trigger] fs[k] == true_feedback(gs[k], secret),
    ensures
        run(s, gs, fs).candidates.contains(secret),
        run(s, gs, fs).candidates.len() > 0,
        run(s, gs, fs).answer is None || run(s, gs, fs).answer == Some(secret),
    decreases gs.len(),
{
    if gs.len() > 0 {
        let g = gs[0];
        let f = fs[0];
        assert(g.len() == secret.len());
        assert(f == true_feedback(g, secret));
        let t = step(s, g, f);
        if s.phase == Phase::Guessing {
            if all_correct(f) {
                lemma_all_correct_is_secret(g, secret);
            } else {
                lemma_secret_survives(s.candidates, g, secret);
            }
        }
        assert forall|k: int| 0 <= k < gs.drop_first().len() implies (
        #[trigger] gs.drop_first()[k]).len() == secret.len() by {
            assert(gs.drop_first()[k] == gs[k + 1]);
        }
        assert forall|k: int| 0 <= k < fs.drop_first().len() implies #[trigger] fs.drop_first()[k]
            == true_feedback(gs.drop_first()[k], secret) by {
            assert(fs.drop_first()[k] == fs[k + 1]);
            assert(gs.drop_first()[k] == gs[k + 1]);
        }
        lemma_secret_kept_over_game(t, gs.drop_first(), fs.drop_first(), secret);
    }
    assert(run(s, gs, fs).candidates.contains(secret));
    let c = run(s, gs, fs).candidates;
    let k = choose|k: int| 0 <= k < c.len() && c[k] == secret;
}

/// Using up the remaining rows with no all-correct row ends the attempt as
/// exhausted, never solved.
pub proof fn lemma_rows_exhausted(s: SessionView, gs: Seq<Seq<char>>, fs: Seq<Seq<Tag>>)
    requires
        s.phase == Phase::Guessing,
        gs.len() > 0,
        gs.len() == fs.len(),
        s.used + gs.len() == s.rows,
        forall|i: int| 0 <= i < fs.len() ==> !all_correct(#[trigger] fs[i]),
    ensures
        run(s, gs, fs).phase == Phase::Exhausted,
    decreases gs.len(),
{
    assert(!all_correct(fs[0]));
    let t = step(s, gs[0], fs[0]);
    if gs.len() > 1 {
        assert forall|i: int| 0 <= i < fs.drop_first().len() implies !all_correct(
            #[trigger] fs.drop_first()[i],
        ) by {
            assert(fs.drop_first()[i] == fs[i + 1]);
        }
        lemma_rows_exhausted(t, gs.drop_first(), fs.drop_first());
    } else {
        assert(gs.drop_first().len() == 0);
        assert(run(t, gs.drop_first(), fs.drop_first()) == t);
        assert(t.phase == Phase::Exhausted);
    }
    assert(run(s, gs, fs) == run(t, gs.drop_first(), fs.drop_first()));
}

/// One attempt at a game: the candidates still possible, the row budget and
/// the rows used so far.
pub struct Session {
    candidates: Vec<String>,
    rows: usize,
    used: usize,
    phase: Phase,
    answer: Option<String>,
}

impl View for Session {
    type V = SessionView;

    closed spec fn view(&self) -> SessionView {
        SessionView {
            candidates: words_of(self.candidates@),
            rows: self.rows as nat,
            used: self.used as nat,
            phase: self.phase,
            answer: match self.answer {
                Some(w) => Some(w@),
                None => None,
            },
        }
    }
}

/// Relies on rand's `Rng::gen_range` over the thread-local generator, which
/// returns a value in the half-open range and panics only on an empty one.
#[verifier::external_body]
fn random_below(n: usize) -> (r: usize)
    requires
        n > 0,
    ensures
        r < n,
{
    rand::thread_rng().gen_range(0..n)
}

impl Session {
    /// The rows used never pass the budget, and an attempt still guessing has
    /// a row left.
    pub open spec fn wf(&self) -> bool {
        &&& self@.used <= self@.rows
        &&& self@.phase == Phase::Guessing ==> self@.used < self@.rows
    }

    /// Starts an attempt with the whole dictionary as candidates.
    pub fn new(dictionary: Vec<String>, rows: usize) -> (r: Session)
        ensures
            r.wf(),
            r@.candidates == words_of(dictionary@),
            r@.rows == rows,
            r@.used == 0,
            r@.phase == (if rows == 0 {
                Phase::Exhausted
            } else {
                Phase::Guessing
            }),
            r@.answer == None::<Seq<char>>,
    {
        let phase = if rows == 0 {
            Phase::Exhausted
        } else {
            Phase::Guessing
        };
        Session { candidates: dictionary, rows, used: 0, phase, answer: None }
    }

    /// The candidate at `index`, or `EmptyCandidateSet` when none is left.
    pub fn pick(&self, index: usize) -> (r: Result<String, SolveError>)
        requires
            self@.candidates.len() == 0 || index < self@.candidates.len(),
        ensures
            self@.candidates.len() == 0 ==> r == Err::<String, SolveError>(
                SolveError::EmptyCandidateSet,
            ),
            self@.candidates.len() > 0 ==> r is Ok && r->Ok_0@ == self@.candidates[index as int],
    {
        if self.candidates.len() == 0 {
            return Err(SolveError::EmptyCandidateSet);
        }
        Ok(self.candidates[index].clone())
    }

    /// A candidate drawn at random, or `EmptyCandidateSet` when none is left.
    pub fn next_guess(&self) -> (r: Result<String, SolveError>)
        ensures
            self@.candidates.len() == 0 <==> r == Err::<String, SolveError>(
                SolveError::EmptyCandidateSet,
            ),
            self@.candidates.len() > 0 ==> r is Ok,
            r is Ok ==> self@.candidates.contains(r->Ok_0@),
    {
        if self.candidates.len() == 0 {
            return Err(SolveError::EmptyCandidateSet);
        }
        let i = random_below(self.candidates.len());
        let r = self.pick(i);
        assert(self@.candidates[i as int] == self.candidates@[i as int]@);
        r
    }

    /// Takes in the feedback for `guess`: an all-correct row solves the game;
    /// any other row filters the candidates and uses up a row.
    pub fn record(&mut self, guess: &String, feedback: &Vec<Tag>) -> (r: Phase)
        requires
            old(self).wf(),
            guess@.len() == feedback@.len(),
        ensures
            final(self).wf(),
            final(self)@ == step(old(self)@, guess@, feedback@),
            r == final(self)@.phase,
    {
        if self.phase != Phase::Guessing {
            return self.phase;
        }
        if is_all_correct(feedback) {
            self.used = self.used + 1;
            self.phase = Phase::Solved;
            self.answer = Some(guess.clone());
            return Phase::Solved;
        }
        self.candidates = apply(&self.candidates, guess.as_str(), feedback);
        self.used = self.used + 1;
        self.phase = if self.used >= self.rows {
            Phase::Exhausted
        } else {
            Phase::Guessing
        };
        self.phase
    }

    /// Interprets the raw tile states of the row for `guess` and records them;
    /// an unknown state leaves the session as it was.
    pub fn observe(&mut self, guess: &String, states: &Vec<String>) -> (r: Result<
        Phase,
        SolveError,
    >)
        requires
            old(self).wf(),
            guess@.len() == states@.len(),
        ensures
            final(self).wf(),
            row_is_known(states@) ==> r == Ok::<Phase, SolveError>(final(self)@.phase)
                && final(self)@ == step(old(self)@, guess@, row_tags(states@)),
            !row_is_known(states@) ==> r == Err::<Phase, SolveError>(
                SolveError::MalformedFeedback,
            ) && final(self)@ == old(self)@,
    {
        match interpret_row(states) {
            Ok(tags) => Ok(self.record(guess, &tags)),
            Err(e) => Err(e),
        }
    }

    /// Where the attempt stands.
    pub fn phase(&self) -> (r: Phase)
        ensures
            r == self@.phase,
    {
        self.phase
    }

    /// The solved word, once there is one.
    pub fn answer(&self) -> (r: Option<String>)
        ensures
            r is Some <==> self@.answer is Some,
            r is Some ==> r->Some_0@ == self@.answer->Some_0,
    {
        match &self.answer {
            Some(w) => Some(w.clone()),
            None => None,
        }
    }

    /// The candidates still possible.
    pub fn candidates(&self) -> (r: &Vec<String>)
        ensures
            words_of(r@) == self@.candidates,
    {
        &self.candidates
    }

    /// The number of rows used so far.
    pub fn rows_used(&self) -> (r: usize)
        ensures
            r == self@.used,
    {
        self.used
    }
}

} // verus!
