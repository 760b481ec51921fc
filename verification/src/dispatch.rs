//! The dispatcher: one query, end to end.
//!
//! A query runs as a state machine: acquire a connection, write the
//! framed `START` envelope, await the response delivered for its token,
//! classify it, and either finish, send a `CONTINUE` for the next cursor
//! page, re-send the write after a transient write-unavailability, or
//! fail.  The transport work between the states — connecting, writing,
//! reading — happens outside; every decision is taken here.  Connect,
//! write and decode failures cost one unit of the retry budget and re-run
//! the whole write; all other errors are terminal the moment they are
//! classified.

use vstd::prelude::*;
use crate::err::{Availability, Error, Runtime, is_write_retryable};
use crate::pool::fail_step;
use crate::query::QueryKind;
use crate::response::{Classified, RItem};

verus! {

/// Which envelope the next write carries: the full original query, or the
/// one-element `CONTINUE` envelope reusing the same token.
#[derive(Debug, Clone, Copy, PartialEq, Eq, Structural)]
pub enum WriteKind {
    Start,
    Continue,
}

/// The query kind a write travels as.
pub fn query_kind_of(w: WriteKind) -> (r: QueryKind)
    ensures
        w is Start ==> r is Start,
        w is Continue ==> r is Continue,
{
    match w {
        WriteKind::Start => QueryKind::Start,
        WriteKind::Continue => QueryKind::Continue,
    }
}

/// Where one query stands.
#[derive(Debug, Clone, PartialEq, Eq)]
pub enum DispatchState {
    /// A connection is being acquired.
    Connecting,
    /// An envelope of the given kind must be written.
    Writing(WriteKind),
    /// The response for this query's token is awaited.
    AwaitingResponse,
    /// Terminal success: everything has been emitted.
    Done,
    /// Terminal failure, carrying the error owed to the caller.
    Failed(Error),
}

/// What the driver of the machine must do next.
#[derive(Debug, Clone, Copy, PartialEq, Eq, Structural)]
pub enum DispatchAction {
    Connect,
    Write(WriteKind),
    Read,
    Stop,
}

/// One query's dispatcher.  `continues_sent` counts the `CONTINUE`
/// envelopes asked for, one per partial page.
pub struct Dispatcher {
    pub state: DispatchState,
    pub attempts_left: u32,
    pub continues_sent: u64,
}

// ------------------------------------------------------------------
// The transitions, as functions of the machine
// ------------------------------------------------------------------

/// A connection is at hand: write the full query.
pub open spec fn step_connect_ok(d: Dispatcher) -> (Dispatcher, DispatchAction) {
    (
        Dispatcher { state: DispatchState::Writing(WriteKind::Start), ..d },
        DispatchAction::Write(WriteKind::Start),
    )
}

/// Connecting failed: one attempt spent; reconnect while budget remains,
/// else surface this very error.
pub open spec fn step_connect_failed(d: Dispatcher, err: Error) -> (Dispatcher, DispatchAction) {
    let (rem, out) = fail_step(d.attempts_left, err);
    match out {
        Some(e) => (
            Dispatcher { state: DispatchState::Failed(e), attempts_left: rem, ..d },
            DispatchAction::Stop,
        ),
        None => (
            Dispatcher { state: DispatchState::Connecting, attempts_left: rem, ..d },
            DispatchAction::Connect,
        ),
    }
}

/// The write went out whole: await the response.
pub open spec fn step_write_ok(d: Dispatcher) -> (Dispatcher, DispatchAction) {
    (Dispatcher { state: DispatchState::AwaitingResponse, ..d }, DispatchAction::Read)
}

/// The write failed: the connection is gone; one attempt spent, and the
/// next attempt re-sends the full query on a fresh connection.
pub open spec fn step_write_failed(d: Dispatcher, err: Error) -> (Dispatcher, DispatchAction) {
    step_connect_failed(d, err)
}

/// The response could not be read or decoded: retryable, like a failed
/// write — reconnect and re-send while budget remains.
pub open spec fn step_decode_failed(d: Dispatcher, err: Error) -> (Dispatcher, DispatchAction) {
    step_connect_failed(d, err)
}

/// A classified response.  Success finishes or, when partial, asks for
/// one `CONTINUE`.  The one retryable failure re-enters writing on the
/// same connection; every other failure is terminal at once.  The third
/// component says whether the response's values are emitted to the caller.
pub open spec fn step_response(d: Dispatcher, c: Classified) -> (
    Dispatcher,
    DispatchAction,
    bool,
) {
    match c {
        Classified::Done => (Dispatcher { state: DispatchState::Done, ..d }, DispatchAction::Stop, true),
        Classified::Partial => (
            Dispatcher {
                state: DispatchState::Writing(WriteKind::Continue),
                continues_sent: (d.continues_sent + 1) as u64,
                ..d
            },
            DispatchAction::Write(WriteKind::Continue),
            true,
        ),
        Classified::Fail(err) => if is_write_retryable(err) {
            let (rem, out) = fail_step(d.attempts_left, err);
            match out {
                Some(e) => (
                    Dispatcher { state: DispatchState::Failed(e), attempts_left: rem, ..d },
                    DispatchAction::Stop,
                    false,
                ),
                None => (
                    Dispatcher {
                        state: DispatchState::Writing(WriteKind::Start),
                        attempts_left: rem,
                        ..d
                    },
                    DispatchAction::Write(WriteKind::Start),
                    false,
                ),
            }
        } else {
            (
                Dispatcher { state: DispatchState::Failed(err), ..d },
                DispatchAction::Stop,
                false,
            )
        },
    }
}

impl Dispatcher {
    /// A query with a budget of `retries` attempts; the first action is
    /// to connect.
    pub fn new(retries: u32) -> (r: Dispatcher)
        ensures
            r.state is Connecting,
            r.attempts_left == retries,
            r.continues_sent == 0,
    {
        Dispatcher {
            state: DispatchState::Connecting,
            attempts_left: retries,
            continues_sent: 0,
        }
    }

    pub fn on_connect_ok(&mut self) -> (r: DispatchAction)
        requires
            old(self).state is Connecting,
        ensures
            *final(self) == step_connect_ok(*old(self)).0,
            r == step_connect_ok(*old(self)).1,
    {
        self.state = DispatchState::Writing(WriteKind::Start);
        DispatchAction::Write(WriteKind::Start)
    }

    pub fn on_connect_failed(&mut self, err: Error) -> (r: DispatchAction)
        requires
            old(self).state is Connecting,
        ensures
            *final(self) == step_connect_failed(*old(self), err).0,
            r == step_connect_failed(*old(self), err).1,
    {
        if self.attempts_left <= 1 {
            self.attempts_left = 0;
            self.state = DispatchState::Failed(err);
            DispatchAction::Stop
        } else {
            self.attempts_left = self.attempts_left - 1;
            self.state = DispatchState::Connecting;
            DispatchAction::Connect
        }
    }

    pub fn on_write_ok(&mut self) -> (r: DispatchAction)
        requires
            old(self).state is Writing,
        ensures
            *final(self) == step_write_ok(*old(self)).0,
            r == step_write_ok(*old(self)).1,
    {
        self.state = DispatchState::AwaitingResponse;
        DispatchAction::Read
    }

    pub fn on_write_failed(&mut self, err: Error) -> (r: DispatchAction)
        requires
            old(self).state is Writing,
        ensures
            *final(self) == step_write_failed(*old(self), err).0,
            r == step_write_failed(*old(self), err).1,
    {
        if self.attempts_left <= 1 {
            self.attempts_left = 0;
            self.state = DispatchState::Failed(err);
            DispatchAction::Stop
        } else {
            self.attempts_left = self.attempts_left - 1;
            self.state = DispatchState::Connecting;
            DispatchAction::Connect
        }
    }

    pub fn on_decode_failed(&mut self, err: Error) -> (r: DispatchAction)
        requires
            old(self).state is AwaitingResponse,
        ensures
            *final(self) == step_decode_failed(*old(self), err).0,
            r == step_decode_failed(*old(self), err).1,
    {
        if self.attempts_left <= 1 {
            self.attempts_left = 0;
            self.state = DispatchState::Failed(err);
            DispatchAction::Stop
        } else {
            self.attempts_left = self.attempts_left - 1;
            self.state = DispatchState::Connecting;
            DispatchAction::Connect
        }
    }

    /// Hands the machine a classified response together with its decoded
    /// values; returns what is emitted to the caller — the values, in
    /// their order, when the response was a success — and the next action.
    pub fn on_response(&mut self, c: Classified, items: Vec<RItem>) -> (r: (
        Vec<RItem>,
        DispatchAction,
    ))
        requires
            old(self).state is AwaitingResponse,
            old(self).continues_sent < u64::MAX,
        ensures
            *final(self) == step_response(*old(self), c).0,
            r.1 == step_response(*old(self), c).1,
            r.0@ == if step_response(*old(self), c).2 {
                items@
            } else {
                Seq::<RItem>::empty()
            },
    {
        match c {
            Classified::Done => {
                self.state = DispatchState::Done;
                (items, DispatchAction::Stop)
            },
            Classified::Partial => {
                self.state = DispatchState::Writing(WriteKind::Continue);
                self.continues_sent = self.continues_sent + 1;
                (items, DispatchAction::Write(WriteKind::Continue))
            },
            Classified::Fail(err) => {
                let retryable = crate::err::write_retryable(&err);
                if retryable {
                    if self.attempts_left <= 1 {
                        self.attempts_left = 0;
                        self.state = DispatchState::Failed(err);
                        (Vec::new(), DispatchAction::Stop)
                    } else {
                        self.attempts_left = self.attempts_left - 1;
                        self.state = DispatchState::Writing(WriteKind::Start);
                        (Vec::new(), DispatchAction::Write(WriteKind::Start))
                    }
                } else {
                    self.state = DispatchState::Failed(err);
                    (Vec::new(), DispatchAction::Stop)
                }
            },
        }
    }
}

// ------------------------------------------------------------------
// Laws
// ------------------------------------------------------------------

/// Cursor continuation: from awaiting, a partial response emits its
/// values and sends exactly one `CONTINUE`; the terminal page then emits
/// its values and finishes.  Values are emitted page by page, in order,
/// and over the whole exchange exactly one `CONTINUE` went out between
/// the two reads.
pub proof fn lemma_cursor_continuation(d: Dispatcher)
    requires
        d.state is AwaitingResponse,
        d.continues_sent < u64::MAX,
    ensures
        ({
            let (d1, a1, e1) = step_response(d, Classified::Partial);
            let (d2, a2) = step_write_ok(d1);
            let (d3, a3, e3) = step_response(d2, Classified::Done);
            &&& a1 == DispatchAction::Write(WriteKind::Continue)
            &&& e1
            &&& d1.continues_sent == d.continues_sent + 1
            &&& a2 == DispatchAction::Read
            &&& a3 == DispatchAction::Stop
            &&& e3
            &&& d3.state is Done
            &&& d3.continues_sent == d.continues_sent + 1
            &&& d3.attempts_left == d.attempts_left
        }),
{
}

/// Write-unavailability retry: an `OpFailed` availability error — the
/// primary replica for a shard is not available — is not surfaced while
/// budget remains.  It causes exactly one re-send of the original write,
/// on the same connection, at the cost of one attempt; with the budget
/// spent it is surfaced as it came.
pub proof fn lemma_write_unavailability_retry(d: Dispatcher, m: Vec<u8>)
    requires
        d.state is AwaitingResponse,
    ensures
        ({
            let err = Error::Runtime(Runtime::Availability(Availability::OpFailed(m)));
            let (d1, a1, e1) = step_response(d, Classified::Fail(err));
            &&& d.attempts_left > 1 ==> {
                &&& a1 == DispatchAction::Write(WriteKind::Start)
                &&& d1.state == DispatchState::Writing(WriteKind::Start)
                &&& d1.attempts_left == d.attempts_left - 1
                &&& !(d1.state is Failed)
            }
            &&& d.attempts_left <= 1 ==> {
                &&& d1.state == DispatchState::Failed(err)
                &&& a1 == DispatchAction::Stop
            }
            &&& !e1
        }),
{
}

/// Every other classified error is terminal at once: surfaced verbatim,
/// never retried, whatever budget remains.
pub proof fn lemma_terminal_error(d: Dispatcher, err: Error)
    requires
        d.state is AwaitingResponse,
        !is_write_retryable(err),
    ensures
        ({
            let (d1, a1, e1) = step_response(d, Classified::Fail(err));
            &&& d1.state == DispatchState::Failed(err)
            &&& a1 == DispatchAction::Stop
            &&& d1.attempts_left == d.attempts_left
            &&& !e1
        }),
{
}

/// The machine after a run of connect failures, one per attempt.
pub open spec fn connect_fail_run(d: Dispatcher, errs: Seq<Error>) -> Dispatcher
    decreases errs.len(),
{
    if errs.len() == 0 {
        d
    } else {
        connect_fail_run(step_connect_failed(d, errs.first()).0, errs.drop_first())
    }
}

/// Retry exhaustion: with a budget of `n` attempts and a transport that
/// fails to connect every time, the query fails after exactly `n`
/// attempts, surfacing the final attempt's error.
pub proof fn lemma_connect_retry_exhaustion(d: Dispatcher, errs: Seq<Error>)
    requires
        d.state is Connecting,
        errs.len() == d.attempts_left,
        d.attempts_left >= 1,
    ensures
        connect_fail_run(d, errs).state == DispatchState::Failed(errs.last()),
        connect_fail_run(d, errs).attempts_left == 0,
    decreases errs.len(),
{
    if errs.len() > 1 {
        lemma_connect_retry_exhaustion(step_connect_failed(d, errs.first()).0, errs.drop_first());
        assert(errs.drop_first().last() == errs.last());
    } else {
        assert(connect_fail_run(step_connect_failed(d, errs.first()).0, errs.drop_first())
            == step_connect_failed(d, errs.first()).0);
    }
}

} // verus!
