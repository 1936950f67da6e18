use vstd::prelude::*;
use vstd::set_lib::{lemma_int_range, lemma_len_subset, set_int_range};

use crate::error::SetupError;
use crate::member::{resolve_member, resolves_to, view_name, MemberEntry};

verus! {

/// What one verification attempt reports for one candidate.
pub enum Verdict {
    /// The candidate decrypts the member and plaintext could be read.
    Match,
    /// The candidate was rejected as a wrong password.
    NoMatch,
    /// The check could not be completed; the reason is attached.
    Error(String),
}

/// A per-candidate verification failure, kept as a diagnostic.
pub struct Diagnostic {
    pub candidate: String,
    pub reason: String,
}

impl View for Diagnostic {
    type V = (Seq<char>, Seq<char>);

    open spec fn view(&self) -> (Seq<char>, Seq<char>) {
        (self.candidate@, self.reason@)
    }
}

/// The single result of a completed search. `attempts` is the size of the
/// whole candidate list, skipped candidates included.
pub enum SearchOutcome {
    Found { password: String, attempts: usize },
    Exhausted { attempts: usize },
}

/// The mathematical value of a `SearchOutcome`.
pub ghost enum OutcomeView {
    Found(Seq<char>, nat),
    Exhausted(nat),
}

impl View for SearchOutcome {
    type V = OutcomeView;

    open spec fn view(&self) -> OutcomeView {
        match self {
            SearchOutcome::Found { password, attempts } => OutcomeView::Found(
                password@,
                *attempts as nat,
            ),
            SearchOutcome::Exhausted { attempts } => OutcomeView::Exhausted(*attempts as nat),
        }
    }
}

/// The outcome together with the diagnostics collected on the way.
pub struct SearchReport {
    pub outcome: SearchOutcome,
    pub errors: Vec<Diagnostic>,
}

/// The mathematical value of the shared search state.
pub ghost struct StateView {
    pub stopped: bool,
    pub winner: Option<Seq<char>>,
    pub errors: Seq<(Seq<char>, Seq<char>)>,
}

/// The state shared by all workers of one search: the stop signal, the
/// single winner slot, and the diagnostics of failed attempts.
pub struct SearchState {
    stopped: bool,
    winner: Option<String>,
    errors: Vec<Diagnostic>,
}

pub open spec fn view_winner(w: Option<String>) -> Option<Seq<char>> {
    match w {
        Some(s) => Some(s@),
        None => None,
    }
}

pub open spec fn view_errors(e: Seq<Diagnostic>) -> Seq<(Seq<char>, Seq<char>)> {
    e.map_values(|d: Diagnostic| d@)
}

impl View for SearchState {
    type V = StateView;

    closed spec fn view(&self) -> StateView {
        StateView {
            stopped: self.stopped,
            winner: view_winner(self.winner),
            errors: view_errors(self.errors@),
        }
    }
}

impl View for SearchReport {
    type V = (OutcomeView, Seq<(Seq<char>, Seq<char>)>);

    open spec fn view(&self) -> (OutcomeView, Seq<(Seq<char>, Seq<char>)>) {
        (self.outcome@, view_errors(self.errors@))
    }
}

/// The state at the start of a search: not stopped, no winner, no errors.
pub open spec fn initial_state() -> StateView {
    StateView { stopped: false, winner: None, errors: Seq::empty() }
}

/// The effect of recording `verdict` for candidate `c`. A match sets the
/// stop signal and fills the winner slot only if it is still empty; an
/// error is logged; a non-match changes nothing.
pub open spec fn step(s: StateView, c: Seq<char>, verdict: Verdict) -> StateView {
    match verdict {
        Verdict::Match => StateView {
            stopped: true,
            winner: if s.winner is Some {
                s.winner
            } else {
                Some(c)
            },
            ..s
        },
        Verdict::NoMatch => s,
        Verdict::Error(reason) => StateView { errors: s.errors.push((c, reason@)), ..s },
    }
}

/// The state after recording `events` in the order in which they were
/// observed, starting from `s`.
pub open spec fn run(s: StateView, events: Seq<(Seq<char>, Verdict)>) -> StateView
    decreases events.len(),
{
    if events.len() == 0 {
        s
    } else {
        step(run(s, events.drop_last()), events.last().0, events.last().1)
    }
}

/// The number of errors among `events`.
pub open spec fn error_count(events: Seq<(Seq<char>, Verdict)>) -> nat
    decreases events.len(),
{
    if events.len() == 0 {
        0
    } else {
        error_count(events.drop_last()) + if events.last().1 is Error {
            1nat
        } else {
            0nat
        }
    }
}

/// The outcome that a final state gives for a list of `total` candidates.
pub open spec fn outcome_of(s: StateView, total: nat) -> OutcomeView {
    match s.winner {
        Some(w) => OutcomeView::Found(w, total),
        None => OutcomeView::Exhausted(total),
    }
}

impl SearchState {
    /// A fresh state: not stopped, winner slot empty, no diagnostics.
    pub fn new() -> (r: SearchState)
        ensures
            r@ == initial_state(),
    {
        let r = SearchState { stopped: false, winner: None, errors: Vec::new() };
        proof {
            assert(r@.errors =~= Seq::<(Seq<char>, Seq<char>)>::empty());
        }
        r
    }

    /// Whether the stop signal is set.
    pub fn is_stopped(&self) -> (r: bool)
        ensures
            r == self@.stopped,
    {
        self.stopped
    }

    /// Whether a worker may still start a verification attempt.
    pub fn should_attempt(&self) -> (r: bool)
        ensures
            r == !self@.stopped,
    {
        !self.stopped
    }

    /// The password held in the winner slot, if any.
    pub fn winner(&self) -> (r: Option<String>)
        ensures
            view_winner(r) == self@.winner,
    {
        match &self.winner {
            Some(w) => Some(w.clone()),
            None => None,
        }
    }

    /// The number of diagnostics recorded so far.
    pub fn error_len(&self) -> (r: usize)
        ensures
            r == self@.errors.len(),
    {
        self.errors.len()
    }

    /// Records the verdict of one attempt on `candidate`.
    pub fn record(&mut self, candidate: &String, verdict: Verdict)
        ensures
            final(self)@ == step(old(self)@, candidate@, verdict),
    {
        match verdict {
            Verdict::Match => {
                self.stopped = true;
                if self.winner.is_none() {
                    self.winner = Some(candidate.clone());
                }
            },
            Verdict::NoMatch => {},
            Verdict::Error(reason) => {
                self.errors.push(Diagnostic { candidate: candidate.clone(), reason });
                proof {
                    assert(view_errors(self.errors@) =~= view_errors(old(self).errors@).push(
                        (candidate@, reason@),
                    ));
                }
            },
        }
    }

    /// Ends the search over `total` candidates and hands out its report.
    pub fn into_report(self, total: usize) -> (r: SearchReport)
        ensures
            r@.0 == outcome_of(self@, total as nat),
            r@.1 == self@.errors,
    {
        let outcome = match self.winner {
            Some(password) => SearchOutcome::Found { password, attempts: total },
            None => SearchOutcome::Exhausted { attempts: total },
        };
        SearchReport { outcome, errors: self.errors }
    }
}

/// Checks the setup of a search over `candidate_count` candidates with
/// `pool_size` workers and, when it is valid, creates the shared state.
pub fn begin_search(candidate_count: usize, pool_size: usize) -> (r: Result<
    SearchState,
    SetupError,
>)
    ensures
        pool_size == 0 ==> r == Err::<SearchState, SetupError>(SetupError::InvalidConcurrency),
        pool_size > 0 && candidate_count == 0 ==> r == Err::<SearchState, SetupError>(
            SetupError::EmptyWordlist,
        ),
        pool_size > 0 && candidate_count > 0 ==> r is Ok && r.unwrap()@ == initial_state(),
{
    if pool_size == 0 {
        Err(SetupError::InvalidConcurrency)
    } else if candidate_count == 0 {
        Err(SetupError::EmptyWordlist)
    } else {
        Ok(SearchState::new())
    }
}


/// Performs the whole setup of a run, before any candidate is tried: the
/// pool size is checked, then the target member is resolved in `listing`,
/// then the wordlist must be non-empty. The first failure is returned.
pub fn prepare_search(
    listing: &Vec<MemberEntry>,
    explicit: Option<&str>,
    candidate_count: usize,
    pool_size: usize,
) -> (r: Result<(usize, SearchState), SetupError>)
    ensures
        pool_size == 0 ==> r matches Err(SetupError::InvalidConcurrency),
        pool_size > 0 ==> match r {
            Ok((i, s)) => {
                &&& resolves_to(listing@, view_name(explicit), Ok(i))
                &&& candidate_count > 0
                &&& s@ == initial_state()
            },
            Err(e) => {
                ||| resolves_to(listing@, view_name(explicit), Err(e))
                ||| (e == SetupError::EmptyWordlist && candidate_count == 0 && exists|i: usize|
                    resolves_to(listing@, view_name(explicit), Ok(i)))
            },
        },
{
    if pool_size == 0 {
        return Err(SetupError::InvalidConcurrency);
    }
    let index = match resolve_member(listing, explicit) {
        Ok(i) => i,
        Err(e) => {
            return Err(e);
        },
    };
    match begin_search(candidate_count, pool_size) {
        Ok(s) => Ok((index, s)),
        Err(e) => Err(e),
    }
}

/// The events that a one-worker search observes: candidate `i` paired with
/// the verdict `log[i]`.
pub open spec fn events_of(cands: Seq<String>, log: Seq<Verdict>) -> Seq<(Seq<char>, Verdict)> {
    Seq::new(log.len(), |i: int| (cands[i]@, log[i]))
}

/// `log` is what a one-worker search over `cands` observes: the verdicts
/// that `verify` gave on the candidates in list order, up to and including
/// the first match, or on all of them when none matched.
pub open spec fn sequential_log<F: Fn(&String) -> Verdict>(
    verify: F,
    cands: Seq<String>,
    log: Seq<Verdict>,
) -> bool {
    &&& log.len() <= cands.len()
    &&& forall|i: int| 0 <= i < log.len() ==> verify.ensures((&cands[i],), #[trigger] log[i])
    &&& forall|i: int| 0 <= i < log.len() - 1 ==> !(#[trigger] log[i] is Match)
    &&& log.len() == cands.len() || (log.len() > 0 && log.last() is Match)
}

/// What `search` owes on a non-empty list: the report is the one that the
/// observed verdicts give.
pub open spec fn search_reports<F: Fn(&String) -> Verdict>(
    verify: F,
    cands: Seq<String>,
    report: SearchReport,
) -> bool {
    exists|log: Seq<Verdict>|
        {
            &&& #[trigger] sequential_log(verify, cands, log)
            &&& report@.0 == outcome_of(
                run(initial_state(), events_of(cands, log)),
                cands.len(),
            )
            &&& report@.1 == run(initial_state(), events_of(cands, log)).errors
        }
}

/// Runs `verify` on the candidates with a single worker, in list order,
/// and stops dispatching at the first match.
pub fn search<F: Fn(&String) -> Verdict>(candidates: &Vec<String>, verify: F) -> (r: Result<
    SearchReport,
    SetupError,
>)
    requires
        forall|c: &String| #[trigger] verify.requires((c,)),
    ensures
        candidates@.len() == 0 ==> r == Err::<SearchReport, SetupError>(SetupError::EmptyWordlist),
        candidates@.len() > 0 ==> r is Ok && search_reports(verify, candidates@, r.unwrap()),
{
    let mut state = match begin_search(candidates.len(), 1) {
        Ok(s) => s,
        Err(e) => {
            return Err(e);
        },
    };
    let n = candidates.len();
    let ghost mut log: Seq<Verdict> = Seq::empty();
    let mut i: usize = 0;
    while i < n
        invariant
            n == candidates@.len(),
            i <= n,
            log.len() <= i,
            forall|c: &String| #[trigger] verify.requires((c,)),
            forall|k: int| 0 <= k < log.len() ==> verify.ensures((&candidates@[k],), #[trigger] log[k]),
            forall|k: int| 0 <= k < log.len() - 1 ==> !(#[trigger] log[k] is Match),
            state@ == run(initial_state(), events_of(candidates@, log)),
            state@.stopped ==> log.len() > 0 && log.last() is Match,
            !state@.stopped ==> log.len() == i && forall|k: int| 0 <= k < log.len() ==> !(#[trigger] log[k] is Match),
        decreases n - i,
    {
        if state.should_attempt() {
            let c = &candidates[i];
            let v = verify(c);
            let ghost old_log = log;
            proof {
                log = log.push(v);
                assert(events_of(candidates@, log).drop_last() =~= events_of(candidates@, old_log));
            }
            state.record(c, v);
        }
        i = i + 1;
    }
    let report = state.into_report(n);
    proof {
        assert(sequential_log(verify, candidates@, log));
    }
    Ok(report)
}

/// Once the winner slot is filled, no later event changes it, and the stop
/// signal stays set.
pub proof fn lemma_winner_written_once(s: StateView, events: Seq<(Seq<char>, Verdict)>)
    requires
        s.winner is Some,
    ensures
        run(s, events).winner == s.winner,
        s.stopped ==> run(s, events).stopped,
    decreases events.len(),
{
    if events.len() > 0 {
        lemma_winner_written_once(s, events.drop_last());
    }
}

/// Without a match among the events, the winner slot stays empty and the
/// stop signal unset.
pub proof fn lemma_no_match_no_winner(events: Seq<(Seq<char>, Verdict)>)
    requires
        forall|j: int| 0 <= j < events.len() ==> !(#[trigger] events[j].1 is Match),
    ensures
        run(initial_state(), events).winner is None,
        !run(initial_state(), events).stopped,
    decreases events.len(),
{
    if events.len() > 0 {
        assert(!(events[events.len() - 1].1 is Match));
        lemma_no_match_no_winner(events.drop_last());
    }
}

/// Whatever the number of matches, the search records exactly one winner:
/// the candidate of the first match observed.
pub proof fn lemma_first_match_wins(events: Seq<(Seq<char>, Verdict)>, k: int)
    requires
        0 <= k < events.len(),
        events[k].1 is Match,
        forall|j: int| 0 <= j < k ==> !(#[trigger] events[j].1 is Match),
    ensures
        run(initial_state(), events).winner == Some(events[k].0),
        run(initial_state(), events).stopped,
    decreases events.len(),
{
    if k == events.len() - 1 {
        let pre = events.drop_last();
        assert forall|j: int| 0 <= j < pre.len() implies !(#[trigger] pre[j].1 is Match) by {
            assert(pre[j] == events[j]);
        }
        lemma_no_match_no_winner(pre);
    } else {
        let pre = events.drop_last();
        assert forall|j: int| 0 <= j < k implies !(#[trigger] pre[j].1 is Match) by {
            assert(pre[j] == events[j]);
        }
        assert(pre[k] == events[k]);
        lemma_first_match_wins(pre, k);
    }
}

/// When every match carries the same password `p`, the result does not
/// depend on the order in which the events were observed, and so not on
/// how many workers produced them: the winner is `p` exactly when some
/// event matched, and the slot stays empty otherwise.
pub proof fn lemma_unique_password_any_order(events: Seq<(Seq<char>, Verdict)>, p: Seq<char>)
    requires
        forall|j: int| 0 <= j < events.len() && (#[trigger] events[j].1 is Match) ==> events[j].0 == p,
    ensures
        (exists|j: int| 0 <= j < events.len() && #[trigger] events[j].1 is Match) ==> run(
            initial_state(),
            events,
        ).winner == Some(p),
        (forall|j: int| 0 <= j < events.len() ==> !(#[trigger] events[j].1 is Match)) ==> run(
            initial_state(),
            events,
        ).winner is None,
    decreases events.len(),
{
    if events.len() > 0 {
        let pre = events.drop_last();
        assert forall|j: int| 0 <= j < pre.len() && (#[trigger] pre[j].1 is Match) implies pre[j].0 == p by {
            assert(pre[j] == events[j]);
        }
        lemma_unique_password_any_order(pre, p);
        if exists|j: int| 0 <= j < pre.len() && #[trigger] pre[j].1 is Match {
            let j = choose|j: int| 0 <= j < pre.len() && #[trigger] pre[j].1 is Match;
            assert(events[j] == pre[j]);
        } else {
            assert forall|j: int| 0 <= j < pre.len() implies !(#[trigger] pre[j].1 is Match) by {}
            if !(events.last().1 is Match) {
                assert forall|j: int| 0 <= j < events.len() implies !(#[trigger] events[j].1 is Match) by {
                    if j < pre.len() {
                        assert(pre[j] == events[j]);
                    }
                }
            } else {
                assert(events[events.len() - 1].1 is Match);
            }
        }
    }
}

/// Every error event leaves one diagnostic, and nothing else does.
pub proof fn lemma_errors_counted(s: StateView, events: Seq<(Seq<char>, Verdict)>)
    ensures
        run(s, events).errors.len() == s.errors.len() + error_count(events),
    decreases events.len(),
{
    if events.len() > 0 {
        lemma_errors_counted(s, events.drop_last());
    }
}

/// `verify` reports a match exactly for the password `p`.
pub open spec fn accepts_only<F: Fn(&String) -> Verdict>(verify: F, p: Seq<char>) -> bool {
    forall|c: &String, v: Verdict| #[trigger]
        verify.ensures((c,), v) ==> ((v is Match) <==> c@ == p)
}

/// `verify` rejects `q` as a wrong password and fails with an error on
/// every other candidate.
pub open spec fn errors_except<F: Fn(&String) -> Verdict>(verify: F, q: Seq<char>) -> bool {
    forall|c: &String, v: Verdict| #[trigger]
        verify.ensures((c,), v) ==> if c@ == q {
            v is NoMatch
        } else {
            v is Error
        }
}

/// The log that witnesses `search_reports`.
spec fn witness_log<F: Fn(&String) -> Verdict>(
    verify: F,
    cands: Seq<String>,
    report: SearchReport,
) -> Seq<Verdict> {
    choose|log: Seq<Verdict>|
        {
            &&& #[trigger] sequential_log(verify, cands, log)
            &&& report@.0 == outcome_of(
                run(initial_state(), events_of(cands, log)),
                cands.len(),
            )
            &&& report@.1 == run(initial_state(), events_of(cands, log)).errors
        }
}

/// When the list holds the true password, the search finds that password
/// and reports the size of the whole list.
pub proof fn lemma_search_finds_password<F: Fn(&String) -> Verdict>(
    verify: F,
    cands: Seq<String>,
    p: Seq<char>,
    report: SearchReport,
)
    requires
        accepts_only(verify, p),
        exists|i: int| 0 <= i < cands.len() && #[trigger] cands[i]@ == p,
        search_reports(verify, cands, report),
    ensures
        report@.0 == OutcomeView::Found(p, cands.len()),
{
    let log = witness_log(verify, cands, report);
    let ev = events_of(cands, log);
    assert forall|j: int| 0 <= j < ev.len() && (#[trigger] ev[j].1 is Match) implies ev[j].0 == p by {
        assert(verify.ensures((&cands[j],), log[j]));
    }
    lemma_unique_password_any_order(ev, p);
    if log.len() == cands.len() {
        let i = choose|i: int| 0 <= i < cands.len() && #[trigger] cands[i]@ == p;
        assert(verify.ensures((&cands[i],), log[i]));
        assert(ev[i].1 is Match);
    } else {
        assert(ev[log.len() - 1].1 is Match);
    }
}

/// When the list lacks the true password, the search is exhausted and
/// reports the size of the whole list.
pub proof fn lemma_search_exhausts<F: Fn(&String) -> Verdict>(
    verify: F,
    cands: Seq<String>,
    p: Seq<char>,
    report: SearchReport,
)
    requires
        accepts_only(verify, p),
        forall|i: int| 0 <= i < cands.len() ==> #[trigger] cands[i]@ != p,
        search_reports(verify, cands, report),
    ensures
        report@.0 == OutcomeView::Exhausted(cands.len()),
{
    let log = witness_log(verify, cands, report);
    let ev = events_of(cands, log);
    assert forall|j: int| 0 <= j < ev.len() implies !(#[trigger] ev[j].1 is Match) by {
        assert(verify.ensures((&cands[j],), log[j]));
        assert(cands[j]@ != p);
    }
    lemma_no_match_no_winner(ev);
}

proof fn lemma_error_count_all(events: Seq<(Seq<char>, Verdict)>)
    requires
        forall|j: int| 0 <= j < events.len() ==> #[trigger] events[j].1 is Error,
    ensures
        error_count(events) == events.len(),
    decreases events.len(),
{
    if events.len() > 0 {
        let pre = events.drop_last();
        assert forall|j: int| 0 <= j < pre.len() implies #[trigger] pre[j].1 is Error by {
            assert(pre[j] == events[j]);
        }
        assert(events[events.len() - 1].1 is Error);
        lemma_error_count_all(pre);
    }
}

proof fn lemma_error_count_all_but_one(events: Seq<(Seq<char>, Verdict)>, k: int)
    requires
        0 <= k < events.len(),
        !(events[k].1 is Error),
        forall|j: int| 0 <= j < events.len() && j != k ==> #[trigger] events[j].1 is Error,
    ensures
        error_count(events) == events.len() - 1,
    decreases events.len(),
{
    let pre = events.drop_last();
    if k == events.len() - 1 {
        assert forall|j: int| 0 <= j < pre.len() implies #[trigger] pre[j].1 is Error by {
            assert(pre[j] == events[j]);
        }
        lemma_error_count_all(pre);
    } else {
        assert forall|j: int| 0 <= j < pre.len() && j != k implies #[trigger] pre[j].1 is Error by {
            assert(pre[j] == events[j]);
        }
        assert(pre[k] == events[k]);
        assert(events[events.len() - 1].1 is Error);
        lemma_error_count_all_but_one(pre, k);
    }
}

/// Errors are not matches: when every candidate but one fails with an
/// error and that one is rejected as a wrong password, the search is still
/// exhausted over the whole list and reports one diagnostic per error.
pub proof fn lemma_errors_do_not_abort<F: Fn(&String) -> Verdict>(
    verify: F,
    cands: Seq<String>,
    q: Seq<char>,
    k: int,
    report: SearchReport,
)
    requires
        errors_except(verify, q),
        0 <= k < cands.len(),
        cands[k]@ == q,
        forall|j: int| 0 <= j < cands.len() && j != k ==> #[trigger] cands[j]@ != q,
        search_reports(verify, cands, report),
    ensures
        report@.0 == OutcomeView::Exhausted(cands.len()),
        report@.1.len() == cands.len() - 1,
{
    let log = witness_log(verify, cands, report);
    let ev = events_of(cands, log);
    assert forall|j: int| 0 <= j < ev.len() implies !(#[trigger] ev[j].1 is Match) by {
        assert(verify.ensures((&cands[j],), log[j]));
    }
    lemma_no_match_no_winner(ev);
    if log.len() < cands.len() {
        assert(ev[log.len() - 1].1 is Match);
    }
    assert forall|j: int| 0 <= j < ev.len() && j != k implies #[trigger] ev[j].1 is Error by {
        assert(verify.ensures((&cands[j],), log[j]));
        assert(cands[j]@ != q);
    }
    assert(verify.ensures((&cands[k],), log[k]));
    lemma_error_count_all_but_one(ev, k);
    lemma_errors_counted(initial_state(), ev);
}

/// `verify` reports a match exactly on the candidates that `accepted`
/// holds of, whichever and however many they are.
pub open spec fn decides<F: Fn(&String) -> Verdict>(
    verify: F,
    accepted: spec_fn(Seq<char>) -> bool,
) -> bool {
    forall|c: &String, v: Verdict| #[trigger]
        verify.ensures((c,), v) ==> ((v is Match) <==> accepted(c@))
}

/// When several candidates are accepted, the search reports exactly one
/// winner: the first accepted candidate in list order, the first match
/// that its single worker observes.
pub proof fn lemma_search_first_accepted_wins<F: Fn(&String) -> Verdict>(
    verify: F,
    cands: Seq<String>,
    accepted: spec_fn(Seq<char>) -> bool,
    k: int,
    report: SearchReport,
)
    requires
        decides(verify, accepted),
        0 <= k < cands.len(),
        accepted(cands[k]@),
        forall|j: int| 0 <= j < k ==> !accepted(#[trigger] cands[j]@),
        search_reports(verify, cands, report),
    ensures
        report@.0 == OutcomeView::Found(cands[k]@, cands.len()),
{
    let log = witness_log(verify, cands, report);
    let ev = events_of(cands, log);
    if log.len() <= k {
        let last = log.len() - 1;
        assert(verify.ensures((&cands[last],), log[last]));
        assert(!accepted(cands[last]@));
    }
    assert forall|j: int| 0 <= j < k implies !(#[trigger] ev[j].1 is Match) by {
        assert(verify.ensures((&cands[j],), log[j]));
        assert(!accepted(cands[j]@));
    }
    assert(verify.ensures((&cands[k],), log[k]));
    lemma_first_match_wins(ev, k);
}

/// The events of a run with any number of workers: the verdicts of the
/// candidates at the positions in `order`, in the order in which the
/// shared state recorded them.
pub open spec fn observed_events(
    cands: Seq<Seq<char>>,
    verdicts: Seq<Verdict>,
    order: Seq<int>,
) -> Seq<(Seq<char>, Verdict)> {
    Seq::new(order.len(), |k: int| (cands[order[k]], verdicts[order[k]]))
}

/// `order` is a possible run of a pool of workers over `cands`, where
/// candidate `j` gets the verdict `verdicts[j]`: each candidate is tried at
/// most once, and one that is never tried was skipped, so the stop signal
/// is set at the end.
pub open spec fn valid_run(cands: Seq<Seq<char>>, verdicts: Seq<Verdict>, order: Seq<int>) -> bool {
    &&& verdicts.len() == cands.len()
    &&& forall|k: int| 0 <= k < order.len() ==> 0 <= #[trigger] order[k] < cands.len()
    &&& forall|k1: int, k2: int|
        0 <= k1 < order.len() && 0 <= k2 < order.len() && k1 != k2 ==> order[k1] != order[k2]
    &&& (exists|j: int| 0 <= j < cands.len() && !order.contains(j)) ==> run(
        initial_state(),
        observed_events(cands, verdicts, order),
    ).stopped
}

/// The stop signal is only ever set by a match, and then the winner slot
/// is filled.
pub proof fn lemma_stopped_after_match(events: Seq<(Seq<char>, Verdict)>)
    requires
        run(initial_state(), events).stopped,
    ensures
        run(initial_state(), events).winner is Some,
        exists|j: int| 0 <= j < events.len() && #[trigger] events[j].1 is Match,
    decreases events.len(),
{
    let pre = events.drop_last();
    if events.last().1 is Match {
        assert(events[events.len() - 1].1 is Match);
    } else {
        lemma_stopped_after_match(pre);
        let j = choose|j: int| 0 <= j < pre.len() && #[trigger] pre[j].1 is Match;
        assert(events[j] == pre[j]);
    }
}

/// In a run with any pool of workers, when every match is for `p`, the
/// winner is `p` exactly when some candidate's verdict is a match, and the
/// slot stays empty otherwise.
pub proof fn lemma_run_winner(
    cands: Seq<Seq<char>>,
    verdicts: Seq<Verdict>,
    order: Seq<int>,
    p: Seq<char>,
)
    requires
        valid_run(cands, verdicts, order),
        forall|j: int| 0 <= j < cands.len() && (#[trigger] verdicts[j] is Match) ==> cands[j] == p,
    ensures
        (exists|j: int| 0 <= j < cands.len() && #[trigger] verdicts[j] is Match) ==> run(
            initial_state(),
            observed_events(cands, verdicts, order),
        ).winner == Some(p),
        (forall|j: int| 0 <= j < cands.len() ==> !(#[trigger] verdicts[j] is Match)) ==> run(
            initial_state(),
            observed_events(cands, verdicts, order),
        ).winner is None,
{
    let ev = observed_events(cands, verdicts, order);
    assert forall|k: int| 0 <= k < ev.len() && (#[trigger] ev[k].1 is Match) implies ev[k].0 == p by {
        assert(0 <= order[k] < cands.len());
    }
    lemma_unique_password_any_order(ev, p);
    if exists|j: int| 0 <= j < cands.len() && #[trigger] verdicts[j] is Match {
        let j = choose|j: int| 0 <= j < cands.len() && #[trigger] verdicts[j] is Match;
        if order.contains(j) {
            let k = choose|k: int| 0 <= k < order.len() && order[k] == j;
            assert(ev[k].1 is Match);
        } else {
            lemma_stopped_after_match(ev);
        }
    } else {
        assert forall|k: int| 0 <= k < ev.len() implies !(#[trigger] ev[k].1 is Match) by {
            assert(0 <= order[k] < cands.len());
            assert(!(verdicts[order[k]] is Match));
        }
    }
}

/// With any pool of workers, a list that holds the true password `p`
/// (the only candidate whose verdict is a match) yields `p`.
pub proof fn lemma_any_pool_finds_password(
    cands: Seq<Seq<char>>,
    verdicts: Seq<Verdict>,
    order: Seq<int>,
    p: Seq<char>,
)
    requires
        valid_run(cands, verdicts, order),
        forall|j: int| 0 <= j < cands.len() ==> ((#[trigger] verdicts[j] is Match) <==> cands[j] == p),
        exists|j: int| 0 <= j < cands.len() && #[trigger] cands[j] == p,
    ensures
        outcome_of(run(initial_state(), observed_events(cands, verdicts, order)), cands.len())
            == OutcomeView::Found(p, cands.len()),
{
    let j = choose|j: int| 0 <= j < cands.len() && #[trigger] cands[j] == p;
    assert(verdicts[j] is Match);
    lemma_run_winner(cands, verdicts, order, p);
}

/// With any pool of workers, a list without the true password `p` is
/// exhausted over its whole length.
pub proof fn lemma_any_pool_exhausts(
    cands: Seq<Seq<char>>,
    verdicts: Seq<Verdict>,
    order: Seq<int>,
    p: Seq<char>,
)
    requires
        valid_run(cands, verdicts, order),
        forall|j: int| 0 <= j < cands.len() ==> ((#[trigger] verdicts[j] is Match) <==> cands[j] == p),
        forall|j: int| 0 <= j < cands.len() ==> #[trigger] cands[j] != p,
    ensures
        outcome_of(run(initial_state(), observed_events(cands, verdicts, order)), cands.len())
            == OutcomeView::Exhausted(cands.len()),
{
    assert forall|j: int| 0 <= j < cands.len() implies !(#[trigger] verdicts[j] is Match) by {
        assert(cands[j] != p);
    }
    lemma_run_winner(cands, verdicts, order, p);
}

/// The outcome does not depend on the pool size: when at most one password
/// matches, two runs over the same candidates and verdicts, whatever their
/// numbers of workers and orders of observation, give the same outcome.
pub proof fn lemma_pool_size_invariant(
    cands: Seq<Seq<char>>,
    verdicts: Seq<Verdict>,
    order1: Seq<int>,
    order2: Seq<int>,
    p: Seq<char>,
)
    requires
        valid_run(cands, verdicts, order1),
        valid_run(cands, verdicts, order2),
        forall|j: int| 0 <= j < cands.len() && (#[trigger] verdicts[j] is Match) ==> cands[j] == p,
    ensures
        outcome_of(run(initial_state(), observed_events(cands, verdicts, order1)), cands.len())
            == outcome_of(
            run(initial_state(), observed_events(cands, verdicts, order2)),
            cands.len(),
        ),
{
    lemma_run_winner(cands, verdicts, order1, p);
    lemma_run_winner(cands, verdicts, order2, p);
    if !(exists|j: int| 0 <= j < cands.len() && #[trigger] verdicts[j] is Match) {
        assert forall|j: int| 0 <= j < cands.len() implies !(#[trigger] verdicts[j] is Match) by {}
    }
}

/// In a run in which nothing was skipped, every candidate was tried once.
proof fn lemma_full_run_length(cands: Seq<Seq<char>>, verdicts: Seq<Verdict>, order: Seq<int>)
    requires
        valid_run(cands, verdicts, order),
        forall|j: int| 0 <= j < cands.len() ==> order.contains(j),
    ensures
        order.len() == cands.len(),
{
    let n = cands.len() as int;
    let range = set_int_range(0, n);
    lemma_int_range(0, n);
    assert(order.no_duplicates());
    order.unique_seq_to_set();
    assert forall|x: int| order.to_set().contains(x) implies range.contains(x) by {
        let k = choose|k: int| 0 <= k < order.len() && order[k] == x;
        assert(0 <= order[k] < cands.len());
    }
    lemma_len_subset(order.to_set(), range);
    assert forall|x: int| range.contains(x) implies order.to_set().contains(x) by {
        assert(order.contains(x));
    }
    lemma_len_subset(range, order.to_set());
}

/// Errors are not matches, with any pool of workers: when every candidate
/// but one fails with an error and that one is rejected as a wrong
/// password, the run is exhausted over the whole list and leaves one
/// diagnostic per error.
pub proof fn lemma_any_pool_errors_reported(
    cands: Seq<Seq<char>>,
    verdicts: Seq<Verdict>,
    order: Seq<int>,
    q: int,
)
    requires
        valid_run(cands, verdicts, order),
        0 <= q < cands.len(),
        verdicts[q] is NoMatch,
        forall|j: int| 0 <= j < cands.len() && j != q ==> #[trigger] verdicts[j] is Error,
    ensures
        outcome_of(run(initial_state(), observed_events(cands, verdicts, order)), cands.len())
            == OutcomeView::Exhausted(cands.len()),
        run(initial_state(), observed_events(cands, verdicts, order)).errors.len() == cands.len()
            - 1,
{
    let ev = observed_events(cands, verdicts, order);
    assert forall|j: int| 0 <= j < cands.len() implies !(#[trigger] verdicts[j] is Match) by {
        if j != q {
            assert(verdicts[j] is Error);
        }
    }
    lemma_run_winner(cands, verdicts, order, cands[q]);
    if run(initial_state(), ev).stopped {
        lemma_stopped_after_match(ev);
        let k = choose|k: int| 0 <= k < ev.len() && #[trigger] ev[k].1 is Match;
        assert(0 <= order[k] < cands.len());
        assert(!(verdicts[order[k]] is Match));
    }
    assert forall|j: int| 0 <= j < cands.len() implies order.contains(j) by {
        if !order.contains(j) {
            assert(exists|j: int| 0 <= j < cands.len() && !order.contains(j));
        }
    }
    lemma_full_run_length(cands, verdicts, order);
    assert(order.contains(q));
    let kq = choose|k: int| 0 <= k < order.len() && order[k] == q;
    assert forall|k: int| 0 <= k < ev.len() && k != kq implies #[trigger] ev[k].1 is Error by {
        assert(0 <= order[k] < cands.len());
        assert(order[k] != order[kq]);
        assert(verdicts[order[k]] is Error);
    }
    lemma_error_count_all_but_one(ev, kq);
    lemma_errors_counted(initial_state(), ev);
}

} // verus!
