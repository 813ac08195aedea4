//! The transport's state machine: one pending handshake, one live session, or
//! one stored failure, never two at once. The caller holds the exclusive guard
//! around the state, polls the handshake and runs the queries; the decisions
//! are taken here.
use vstd::prelude::*;
use crate::errors::Error;

verus! {

/// The transport's state: exactly one of its cases is live.
pub enum ConnState<P, S> {
    /// The handshake operation is still running.
    Connecting(P),
    /// The session is authenticated and idle.
    Ready(S),
    /// A failure ended the transport; every later readiness check reports it.
    Error(Error),
}

/// What a readiness check reports.
#[derive(Debug)]
pub enum Readiness {
    /// Not ready yet: the handshake is running or another caller holds the guard.
    Pending,
    /// A request may be sent.
    Ready,
    /// The transport has failed.
    Failed(Error),
}

/// What advancing the handshake one step gave.
pub enum Progress<P, S> {
    /// Still running.
    Pending(P),
    /// The session is ready.
    Done(S),
    /// The handshake failed.
    Failed(Error),
}

/// What the caller does after a readiness check.
pub enum Step<P> {
    /// Report this readiness.
    Report(Readiness),
    /// Advance this handshake operation one step and hand back its progress.
    Advance(P),
}

/// A readiness check on the state held under the guard.
pub fn on_poll_ready<P, S>(state: Option<ConnState<P, S>>) -> (r: (
    Option<ConnState<P, S>>,
    Step<P>,
))
    ensures
        on_poll_ready_post(state, r),
{
    match state {
        Some(ConnState::Connecting(p)) => (None, Step::Advance(p)),
        Some(ConnState::Ready(s)) => (Some(ConnState::Ready(s)), Step::Report(Readiness::Ready)),
        Some(ConnState::Error(e)) => {
            let reported = e.copied();
            (Some(ConnState::Error(e)), Step::Report(Readiness::Failed(reported)))
        },
        None => (
            None,
            Step::Report(Readiness::Failed(Error::Null(String::from_str("Null state")))),
        ),
    }
}

/// The state and report after the handshake was advanced one step.
pub fn on_progress<P, S>(progress: Progress<P, S>) -> (r: (Option<ConnState<P, S>>, Readiness))
    ensures
        match progress {
            Progress::Pending(p) => r.0 == Some(ConnState::<P, S>::Connecting(p)) && r.1
                is Pending,
            Progress::Done(s) => r.0 == Some(ConnState::<P, S>::Ready(s)) && r.1 is Ready,
            Progress::Failed(e) => r.0 == Some(ConnState::<P, S>::Error(e)) && r.1
                == Readiness::Failed(e),
        },
{
    match progress {
        Progress::Pending(p) => (Some(ConnState::Connecting(p)), Readiness::Pending),
        Progress::Done(s) => (Some(ConnState::Ready(s)), Readiness::Ready),
        Progress::Failed(e) => {
            let reported = e.copied();
            (Some(ConnState::Error(e)), Readiness::Failed(reported))
        },
    }
}

/// Takes the session out of the state to run one query; fails, leaving the
/// state as it was, when the transport is not ready.
pub fn on_call<P, S>(state: Option<ConnState<P, S>>) -> (r: (Option<ConnState<P, S>>, Result<S, Error>))
    ensures
        on_call_post(state, r),
{
    match state {
        Some(ConnState::Ready(s)) => (None, Ok(s)),
        other => (other, Err(Error::Null(String::from_str("the transport is not ready")))),
    }
}

/// The state after a query: the session back when it succeeded, the query's
/// failure otherwise.
pub fn on_query_done<P, S, R>(session: S, result: &Result<R, Error>) -> (r: Option<ConnState<P, S>>)
    ensures
        match result {
            Ok(_) => r == Some(ConnState::<P, S>::Ready(session)),
            Err(e) => r == Some(ConnState::<P, S>::Error(*e)),
        },
{
    match result {
        Ok(_) => Some(ConnState::Ready(session)),
        Err(e) => Some(ConnState::Error(e.copied())),
    }
}

/// A failed transport stays failed: every readiness check keeps the state
/// and reports the same failure again, and no call can take a session out.
pub proof fn lemma_failure_is_sticky<P, S>(e: Error)
    ensures
        ({
            let st = Some(ConnState::<P, S>::Error(e));
            &&& forall|r: (Option<ConnState<P, S>>, Step<P>)|
                on_poll_ready_post(st, r) ==> r.0 == st && r.1 == Step::<P>::Report(
                    Readiness::Failed(e),
                )
            &&& forall|r: (Option<ConnState<P, S>>, Result<S, Error>)|
                on_call_post(st, r) ==> r.0 == st && r.1 is Err
        }),
{
}

/// What `on_poll_ready` promises.
pub open spec fn on_poll_ready_post<P, S>(state: Option<ConnState<P, S>>, r: (
    Option<ConnState<P, S>>,
    Step<P>,
)) -> bool {
    match state {
        Some(ConnState::Connecting(p)) => r.0 is None && r.1 == Step::<P>::Advance(p),
        Some(ConnState::Ready(s)) => r.0 == Some(ConnState::<P, S>::Ready(s)) && r.1 is Report
            && r.1->Report_0 is Ready,
        Some(ConnState::Error(e)) => r.0 == Some(ConnState::<P, S>::Error(e)) && r.1 is Report
            && r.1->Report_0 == Readiness::Failed(e),
        None => r.0 is None && r.1 is Report && r.1->Report_0 is Failed && r.1->Report_0->Failed_0@ is Null,
    }
}

/// What `on_call` promises.
pub open spec fn on_call_post<P, S>(state: Option<ConnState<P, S>>, r: (
    Option<ConnState<P, S>>,
    Result<S, Error>,
)) -> bool {
    match state {
        Some(ConnState::Ready(s)) => r.0 is None && r.1 == Ok::<S, Error>(s),
        _ => r.0 == state && r.1 is Err && r.1->Err_0@ is Null,
    }
}

} // verus!
