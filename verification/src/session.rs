//! The session's decision logic for one execute: which request to
//! send next, and when to give up, as a pure state machine. The
//! caller performs the sends and feeds the responses back in.
//!
//! An execute answered with an unprepared error (the node evicted
//! the id) triggers exactly one re-prepare and one retried execute;
//! a second unprepared error, or a failed re-preparation, surfaces
//! as the execute's own error. Retryable server errors are decided
//! separately, under a bounded attempt count.

use vstd::prelude::*;

verus! {

/// The server-reported failure kinds an execute can come back with.
#[derive(Debug, Clone, Copy, PartialEq, Eq, Structural)]
pub enum ServerErrorKind {
    Unprepared,
    Timeout,
    Unavailable,
    Overloaded,
    Syntax,
    Invalid,
    Unauthorized,
}

/// Which server errors a policy may retry: transient conditions
/// only; syntax, invalid and unauthorized are terminal.
pub open spec fn retryable(k: ServerErrorKind) -> bool {
    match k {
        ServerErrorKind::Timeout => true,
        ServerErrorKind::Unavailable => true,
        ServerErrorKind::Overloaded => true,
        _ => false,
    }
}

/// Whether one more attempt is made: the error must be retryable
/// and the bounded attempt budget not yet spent.
pub fn should_retry(k: ServerErrorKind, attempts_made: u32, max_attempts: u32) -> (r: bool)
    ensures
        r == (retryable(k) && attempts_made < max_attempts),
{
    let is_transient = match k {
        ServerErrorKind::Timeout => true,
        ServerErrorKind::Unavailable => true,
        ServerErrorKind::Overloaded => true,
        _ => false,
    };
    is_transient && attempts_made < max_attempts
}

/// Where one execute stands. `reprepared` records whether the one
/// allowed re-preparation has already been spent.
#[derive(Debug, Clone, Copy, PartialEq, Eq, Structural)]
pub enum ExecState {
    AwaitingExecute { reprepared: bool },
    AwaitingPrepare,
    Done,
}

/// A response handed back by the caller.
#[derive(Debug, Clone, Copy, PartialEq, Eq, Structural)]
pub enum ExecEvent {
    ExecuteOk,
    ExecuteFailed(ServerErrorKind),
    PrepareOk,
    PrepareFailed(ServerErrorKind),
}

/// What the caller does next.
#[derive(Debug, Clone, Copy, PartialEq, Eq, Structural)]
pub enum ExecAction {
    SendExecute,
    SendPrepare,
    Succeed,
    Fail(ServerErrorKind),
}

/// The state an execute starts in: the first attempt is in flight
/// and no re-preparation has been spent.
pub open spec fn initial_exec_state() -> ExecState {
    ExecState::AwaitingExecute { reprepared: false }
}

/// Whether an event can answer the outstanding request of a state.
pub open spec fn event_fits(s: ExecState, e: ExecEvent) -> bool {
    match s {
        ExecState::AwaitingExecute { .. } => e is ExecuteOk || e is ExecuteFailed,
        ExecState::AwaitingPrepare => e is PrepareOk || e is PrepareFailed,
        ExecState::Done => false,
    }
}

/// The transition relation of the execute machine.
pub open spec fn spec_exec_step(s: ExecState, e: ExecEvent) -> (ExecState, ExecAction) {
    match (s, e) {
        (ExecState::AwaitingExecute { .. }, ExecEvent::ExecuteOk) => (
            ExecState::Done,
            ExecAction::Succeed,
        ),
        (
            ExecState::AwaitingExecute { reprepared: false },
            ExecEvent::ExecuteFailed(ServerErrorKind::Unprepared),
        ) => (ExecState::AwaitingPrepare, ExecAction::SendPrepare),
        (ExecState::AwaitingExecute { .. }, ExecEvent::ExecuteFailed(k)) => (
            ExecState::Done,
            ExecAction::Fail(k),
        ),
        (ExecState::AwaitingPrepare, ExecEvent::PrepareOk) => (
            ExecState::AwaitingExecute { reprepared: true },
            ExecAction::SendExecute,
        ),
        (ExecState::AwaitingPrepare, ExecEvent::PrepareFailed(k)) => (
            ExecState::Done,
            ExecAction::Fail(k),
        ),
        _ => (s, ExecAction::Fail(ServerErrorKind::Invalid)),
    }
}

/// Advances the execute machine by one response.
///
/// A first unprepared answer sends exactly one re-prepare; after a
/// successful re-preparation the execute is retried once; a second
/// unprepared answer, and a failed re-preparation, fail with that
/// very error, so nothing is hidden from the caller.
pub fn exec_step(s: ExecState, e: ExecEvent) -> (r: (ExecState, ExecAction))
    requires
        event_fits(s, e),
    ensures
        r == spec_exec_step(s, e),
        r.1 is SendPrepare <==> s == (ExecState::AwaitingExecute { reprepared: false })
            && e == ExecEvent::ExecuteFailed(ServerErrorKind::Unprepared),
        (s == (ExecState::AwaitingExecute { reprepared: true }) && e == ExecEvent::ExecuteFailed(
            ServerErrorKind::Unprepared,
        )) ==> r == (ExecState::Done, ExecAction::Fail(ServerErrorKind::Unprepared)),
        e matches ExecEvent::PrepareFailed(k) ==> r == (ExecState::Done, ExecAction::Fail(k)),
{
    match (s, e) {
        (ExecState::AwaitingExecute { .. }, ExecEvent::ExecuteOk) => (
            ExecState::Done,
            ExecAction::Succeed,
        ),
        (
            ExecState::AwaitingExecute { reprepared: false },
            ExecEvent::ExecuteFailed(ServerErrorKind::Unprepared),
        ) => (ExecState::AwaitingPrepare, ExecAction::SendPrepare),
        (ExecState::AwaitingExecute { .. }, ExecEvent::ExecuteFailed(k)) => (
            ExecState::Done,
            ExecAction::Fail(k),
        ),
        (ExecState::AwaitingPrepare, ExecEvent::PrepareOk) => (
            ExecState::AwaitingExecute { reprepared: true },
            ExecAction::SendExecute,
        ),
        (ExecState::AwaitingPrepare, ExecEvent::PrepareFailed(k)) => (
            ExecState::Done,
            ExecAction::Fail(k),
        ),
        _ => (s, ExecAction::Fail(ServerErrorKind::Invalid)),
    }
}

/// The actions a run of the machine emits for a sequence of events.
pub open spec fn run_actions(s: ExecState, evs: Seq<ExecEvent>) -> Seq<ExecAction>
    decreases evs.len(),
{
    if evs.len() == 0 {
        Seq::empty()
    } else {
        let (s2, a) = spec_exec_step(s, evs[0]);
        seq![a] + run_actions(s2, evs.drop_first())
    }
}

/// How many re-prepares a run emits.
pub open spec fn prepares_sent(actions: Seq<ExecAction>) -> int
    decreases actions.len(),
{
    if actions.len() == 0 {
        0
    } else {
        (if actions[0] is SendPrepare {
            1int
        } else {
            0int
        }) + prepares_sent(actions.drop_first())
    }
}

/// How many re-prepares a state may still emit.
pub open spec fn prepare_budget(s: ExecState) -> int {
    match s {
        ExecState::AwaitingExecute { reprepared: false } => 1,
        _ => 0,
    }
}

proof fn lemma_run_budget(s: ExecState, evs: Seq<ExecEvent>)
    ensures
        prepares_sent(run_actions(s, evs)) <= prepare_budget(s),
    decreases evs.len(),
{
    if evs.len() > 0 {
        let (s2, a) = spec_exec_step(s, evs[0]);
        lemma_run_budget(s2, evs.drop_first());
        assert(run_actions(s, evs) == seq![a] + run_actions(s2, evs.drop_first()));
        assert(run_actions(s, evs).drop_first() =~= run_actions(s2, evs.drop_first()));
        assert(run_actions(s, evs)[0] == a);
    }
}

/// An execute triggers at most one re-prepare, whatever responses
/// arrive: over any event sequence, a run from the initial state
/// emits the re-prepare request at most once.
pub proof fn lemma_reprepare_at_most_once(evs: Seq<ExecEvent>)
    ensures
        prepares_sent(run_actions(initial_exec_state(), evs)) <= 1,
{
    lemma_run_budget(initial_exec_state(), evs);
}

/// How many replica acknowledgments a request must gather.
#[derive(Debug, Clone, Copy, PartialEq, Eq, Structural)]
pub enum Consistency {
    Any,
    One,
    Two,
    Quorum,
    All,
    LocalQuorum,
    LocalOne,
}

/// Per-session configuration: the default consistency level and the
/// bound on attempts for retryable errors.
#[derive(Debug, Clone, Copy, PartialEq, Eq, Structural)]
pub struct SessionConfig {
    pub consistency: Consistency,
    pub max_attempts: u32,
}

impl Default for SessionConfig {
    /// One acknowledgment suffices by default, and a failed request
    /// is attempted at most three times.
    fn default() -> (r: Self)
        ensures
            r.consistency == Consistency::One,
            r.max_attempts == 3,
    {
        SessionConfig { consistency: Consistency::One, max_attempts: 3 }
    }
}

/// A prepared statement as the session owns it: the canonical text,
/// the column layouts the node described, and an optional
/// per-statement consistency override. Prepared ids live in each
/// connection's own cache, never here.
#[derive(Debug)]
pub struct PreparedStatement {
    pub text: Vec<u8>,
    pub bound_specs: Vec<crate::types::ColumnSpec>,
    pub result_specs: Vec<crate::types::ColumnSpec>,
    pub consistency: Option<Consistency>,
}

/// The consistency level a statement runs under: its own override
/// when it carries one, the session's default otherwise.
pub fn effective_consistency(default: Consistency, stmt_override: Option<Consistency>) -> (r:
    Consistency)
    ensures
        stmt_override matches Some(c) ==> r == c,
        stmt_override is None ==> r == default,
{
    match stmt_override {
        Some(c) => c,
        None => default,
    }
}

/// The counters the core updates and never renders: queries issued,
/// errors surfaced, retries spent. They saturate rather than wrap.
#[derive(Debug, Clone, Copy, PartialEq, Eq, Structural)]
pub struct Metrics {
    pub queries: u64,
    pub errors: u64,
    pub retries: u64,
}

impl Metrics {
    /// All counters start at zero.
    pub fn new() -> (r: Metrics)
        ensures
            r.queries == 0 && r.errors == 0 && r.retries == 0,
    {
        Metrics { queries: 0, errors: 0, retries: 0 }
    }

    /// Counts one issued query.
    pub fn record_query(&mut self)
        ensures
            final(self).queries == if old(self).queries < u64::MAX {
                old(self).queries + 1
            } else {
                u64::MAX as int
            },
            final(self).errors == old(self).errors,
            final(self).retries == old(self).retries,
    {
        if self.queries < u64::MAX {
            self.queries = self.queries + 1;
        }
    }

    /// Counts one error surfaced to a caller.
    pub fn record_error(&mut self)
        ensures
            final(self).errors == if old(self).errors < u64::MAX {
                old(self).errors + 1
            } else {
                u64::MAX as int
            },
            final(self).queries == old(self).queries,
            final(self).retries == old(self).retries,
    {
        if self.errors < u64::MAX {
            self.errors = self.errors + 1;
        }
    }

    /// Counts one retried attempt.
    pub fn record_retry(&mut self)
        ensures
            final(self).retries == if old(self).retries < u64::MAX {
                old(self).retries + 1
            } else {
                u64::MAX as int
            },
            final(self).queries == old(self).queries,
            final(self).errors == old(self).errors,
    {
        if self.retries < u64::MAX {
            self.retries = self.retries + 1;
        }
    }
}

} // verus!
