//! The state machine of the background worker that keeps a presence
//! broadcast alive until it is told to stop.
//!
//! The worker never performs an outside action itself: it names the next
//! action (connect, send, reconnect, check for a stop signal, sleep), the
//! surrounding program performs it and feeds the outcome back as an event,
//! and `step` moves the machine. Connection and send failures are absorbed:
//! a failed connect is retried, a failed send is answered with one reconnect
//! attempt, and a reconnect success repeats the send at once, without a stop
//! check or a sleep in between. Only a stop signal, observed at the
//! per-iteration check, ends the worker.

use vstd::prelude::*;

use crate::config::PresenceConfig;
use crate::payload::{build_payload, payload_matches, ActivityPayload};

verus! {

/// Seconds slept between two update iterations.
pub const SLEEP_SECS: u64 = 15;

/// The fine-grained position of the worker inside its loop.
#[derive(Clone, Copy, Debug, PartialEq, Eq, Structural)]
pub enum WorkerPhase {
    /// Trying to reach the chat client; retried without pause until it
    /// succeeds.
    Connecting,
    /// About to send the payload.
    Sending,
    /// The last send failed; about to try one reconnect.
    Reconnecting,
    /// About to check, without blocking, for a stop signal.
    Polling,
    /// About to sleep for `SLEEP_SECS` before the next iteration.
    Sleeping,
    /// Terminal: the worker has observed its stop signal.
    Stopped,
}

/// The coarse worker state: connecting, in the update loop, or stopped.
#[derive(Clone, Copy, Debug, PartialEq, Eq, Structural)]
pub enum WorkerState {
    Connecting,
    Updating,
    Stopped,
}

/// The outside action the worker asks for next.
#[derive(Clone, Copy, Debug, PartialEq, Eq, Structural)]
pub enum WorkerAction {
    /// Attempt to connect to the chat client.
    Connect,
    /// Send the activity payload.
    Send,
    /// Attempt to re-establish the connection.
    Reconnect,
    /// Check, without blocking, whether a stop signal is pending.
    PollStop,
    /// Sleep for `SLEEP_SECS`.
    Sleep,
}

/// The outcome of one performed action, fed back into the machine.
#[derive(Clone, Copy, Debug, PartialEq, Eq, Structural)]
pub enum WorkerEvent {
    /// Whether the connect attempt succeeded.
    ConnectDone(bool),
    /// Whether the send was accepted.
    SendDone(bool),
    /// Whether the reconnect attempt succeeded.
    ReconnectDone(bool),
    /// Whether a stop signal was pending at the check.
    PollDone(bool),
    /// The sleep interval elapsed.
    SleepDone,
}

/// The action each phase asks for; the terminal phase asks for none.
pub open spec fn action_of(phase: WorkerPhase) -> Option<WorkerAction> {
    match phase {
        WorkerPhase::Connecting => Some(WorkerAction::Connect),
        WorkerPhase::Sending => Some(WorkerAction::Send),
        WorkerPhase::Reconnecting => Some(WorkerAction::Reconnect),
        WorkerPhase::Polling => Some(WorkerAction::PollStop),
        WorkerPhase::Sleeping => Some(WorkerAction::Sleep),
        WorkerPhase::Stopped => None,
    }
}

/// The coarse state a phase belongs to.
pub open spec fn coarse_state(phase: WorkerPhase) -> WorkerState {
    match phase {
        WorkerPhase::Connecting => WorkerState::Connecting,
        WorkerPhase::Stopped => WorkerState::Stopped,
        _ => WorkerState::Updating,
    }
}

/// One move of the machine. An event that does not answer the phase's own
/// action leaves the phase unchanged.
pub open spec fn spec_step(phase: WorkerPhase, ev: WorkerEvent) -> WorkerPhase {
    match (phase, ev) {
        (WorkerPhase::Connecting, WorkerEvent::ConnectDone(ok)) => if ok {
            WorkerPhase::Sending
        } else {
            WorkerPhase::Connecting
        },
        (WorkerPhase::Sending, WorkerEvent::SendDone(ok)) => if ok {
            WorkerPhase::Polling
        } else {
            WorkerPhase::Reconnecting
        },
        (WorkerPhase::Reconnecting, WorkerEvent::ReconnectDone(ok)) => if ok {
            WorkerPhase::Sending
        } else {
            WorkerPhase::Polling
        },
        (WorkerPhase::Polling, WorkerEvent::PollDone(stop)) => if stop {
            WorkerPhase::Stopped
        } else {
            WorkerPhase::Sleeping
        },
        (WorkerPhase::Sleeping, WorkerEvent::SleepDone) => WorkerPhase::Sending,
        _ => phase,
    }
}

/// The phase reached after feeding a whole sequence of events, in order.
pub open spec fn run_steps(phase: WorkerPhase, evs: Seq<WorkerEvent>) -> WorkerPhase
    decreases evs.len(),
{
    if evs.len() == 0 {
        phase
    } else {
        run_steps(spec_step(phase, evs[0]), evs.skip(1))
    }
}

/// The worker: an immutable configuration snapshot and the current phase.
pub struct PresenceWorker {
    /// The configuration snapshot given at start, kept for the whole life.
    pub config: PresenceConfig,
    /// Where the worker stands in its loop.
    pub phase: WorkerPhase,
}

impl PresenceWorker {
    /// A fresh worker starts by connecting.
    pub fn new(config: PresenceConfig) -> (r: Self)
        ensures
            r.phase == WorkerPhase::Connecting,
            r.config == config,
    {
        PresenceWorker { config, phase: WorkerPhase::Connecting }
    }

    /// The outside action to perform next, or `None` once stopped.
    pub fn current_action(&self) -> (r: Option<WorkerAction>)
        ensures
            r == action_of(self.phase),
    {
        match self.phase {
            WorkerPhase::Connecting => Some(WorkerAction::Connect),
            WorkerPhase::Sending => Some(WorkerAction::Send),
            WorkerPhase::Reconnecting => Some(WorkerAction::Reconnect),
            WorkerPhase::Polling => Some(WorkerAction::PollStop),
            WorkerPhase::Sleeping => Some(WorkerAction::Sleep),
            WorkerPhase::Stopped => None,
        }
    }

    /// The coarse state the worker is in.
    pub fn state(&self) -> (r: WorkerState)
        ensures
            r == coarse_state(self.phase),
    {
        match self.phase {
            WorkerPhase::Connecting => WorkerState::Connecting,
            WorkerPhase::Stopped => WorkerState::Stopped,
            _ => WorkerState::Updating,
        }
    }

    /// Whether the worker has reached its terminal state.
    pub fn is_stopped(&self) -> (r: bool)
        ensures
            r == (self.phase == WorkerPhase::Stopped),
    {
        matches!(self.phase, WorkerPhase::Stopped)
    }

    /// Feeds one event back; the phase moves as `spec_step` says and the
    /// configuration never changes.
    pub fn step(&mut self, ev: WorkerEvent)
        ensures
            final(self).phase == spec_step(old(self).phase, ev),
            final(self).config == old(self).config,
    {
        let next = match (self.phase, ev) {
            (WorkerPhase::Connecting, WorkerEvent::ConnectDone(ok)) => if ok {
                WorkerPhase::Sending
            } else {
                WorkerPhase::Connecting
            },
            (WorkerPhase::Sending, WorkerEvent::SendDone(ok)) => if ok {
                WorkerPhase::Polling
            } else {
                WorkerPhase::Reconnecting
            },
            (WorkerPhase::Reconnecting, WorkerEvent::ReconnectDone(ok)) => if ok {
                WorkerPhase::Sending
            } else {
                WorkerPhase::Polling
            },
            (WorkerPhase::Polling, WorkerEvent::PollDone(stop)) => if stop {
                WorkerPhase::Stopped
            } else {
                WorkerPhase::Sleeping
            },
            (WorkerPhase::Sleeping, WorkerEvent::SleepDone) => WorkerPhase::Sending,
            (phase, _) => phase,
        };
        self.phase = next;
    }

    /// The payload every update iteration of this worker sends, built from
    /// the snapshot exactly as `payload_matches` describes.
    pub fn payload(&self) -> (r: ActivityPayload)
        ensures
            payload_matches(self.config, r),
    {
        build_payload(&self.config)
    }
}

/// Running a concatenation of two event sequences is running the first and
/// then the second.
pub proof fn lemma_run_steps_concat(phase: WorkerPhase, a: Seq<WorkerEvent>, b: Seq<WorkerEvent>)
    ensures
        run_steps(phase, a + b) == run_steps(run_steps(phase, a), b),
    decreases a.len(),
{
    if a.len() == 0 {
        assert(a + b =~= b);
    } else {
        assert((a + b)[0] == a[0]);
        assert((a + b).skip(1) =~= a.skip(1) + b);
        lemma_run_steps_concat(spec_step(phase, a[0]), a.skip(1), b);
    }
}

/// Running a single event is one move of the machine.
pub proof fn lemma_run_steps_one(phase: WorkerPhase, ev: WorkerEvent)
    ensures
        run_steps(phase, seq![ev]) == spec_step(phase, ev),
{
    assert(seq![ev].skip(1) =~= Seq::<WorkerEvent>::empty());
    assert(seq![ev][0] == ev);
    assert(run_steps(spec_step(phase, ev), Seq::<WorkerEvent>::empty()) == spec_step(phase, ev));
}

/// `Stopped` is terminal: no event, and no sequence of events, leaves it.
pub proof fn lemma_stopped_terminal(evs: Seq<WorkerEvent>)
    ensures
        forall|ev: WorkerEvent| spec_step(WorkerPhase::Stopped, ev) == WorkerPhase::Stopped,
        run_steps(WorkerPhase::Stopped, evs) == WorkerPhase::Stopped,
    decreases evs.len(),
{
    if evs.len() > 0 {
        lemma_stopped_terminal(evs.skip(1));
    }
}

/// As long as every connect attempt fails, the worker stays in
/// `Connecting`.
pub proof fn lemma_failed_connects(evs: Seq<WorkerEvent>)
    requires
        forall|i: int| 0 <= i < evs.len() ==> evs[i] == WorkerEvent::ConnectDone(false),
    ensures
        run_steps(WorkerPhase::Connecting, evs) == WorkerPhase::Connecting,
    decreases evs.len(),
{
    if evs.len() > 0 {
        lemma_failed_connects(evs.skip(1));
    }
}

/// N failed connect attempts followed by one success keep the worker in the
/// coarse `Connecting` state through every failure, and the successful
/// attempt — the (N+1)-th — moves it into the update loop.
pub proof fn lemma_connect_retries(evs: Seq<WorkerEvent>, n: int)
    requires
        0 <= n,
        evs.len() == n + 1,
        forall|i: int| 0 <= i < n ==> evs[i] == WorkerEvent::ConnectDone(false),
        evs[n] == WorkerEvent::ConnectDone(true),
    ensures
        forall|i: int|
            0 <= i <= n ==> coarse_state(#[trigger] run_steps(WorkerPhase::Connecting, evs.take(i)))
                == WorkerState::Connecting,
        coarse_state(run_steps(WorkerPhase::Connecting, evs)) == WorkerState::Updating,
{
    assert forall|i: int| 0 <= i <= n implies coarse_state(
        #[trigger] run_steps(WorkerPhase::Connecting, evs.take(i)),
    ) == WorkerState::Connecting by {
        lemma_failed_connects(evs.take(i));
    }
    assert(evs =~= evs.take(n) + seq![evs[n]]);
    lemma_run_steps_concat(WorkerPhase::Connecting, evs.take(n), seq![evs[n]]);
    lemma_failed_connects(evs.take(n));
    assert(run_steps(WorkerPhase::Connecting, evs) == run_steps(
        WorkerPhase::Sending,
        seq![evs[n]].skip(1),
    ));
    assert(seq![evs[n]].skip(1) =~= Seq::<WorkerEvent>::empty());
}

/// A failed send is answered by one reconnect, and a successful reconnect
/// repeats the send at once: the phase standing between the failed and the
/// repeated send asks for the reconnect and for nothing else — neither the
/// stop check nor the sleep happens in between. A failed reconnect absorbs
/// the failure and falls through to the stop check.
pub proof fn lemma_reconnect_skips_pause()
    ensures
        spec_step(WorkerPhase::Sending, WorkerEvent::SendDone(false)) == WorkerPhase::Reconnecting,
        spec_step(WorkerPhase::Reconnecting, WorkerEvent::ReconnectDone(true))
            == WorkerPhase::Sending,
        action_of(WorkerPhase::Reconnecting) == Some(WorkerAction::Reconnect),
        action_of(WorkerPhase::Reconnecting) != Some(WorkerAction::PollStop),
        action_of(WorkerPhase::Reconnecting) != Some(WorkerAction::Sleep),
        spec_step(WorkerPhase::Reconnecting, WorkerEvent::ReconnectDone(false))
            == WorkerPhase::Polling,
{
}

/// Once a stop signal is pending, every stop check reports it, and the
/// first check reached ends the worker. Within one update iteration — send,
/// at most one reconnect and one repeated send, then the check — the worker
/// therefore reaches `Stopped`, on each of the iteration's paths; a signal
/// sent while connecting takes effect at the first check after the first
/// successful connect.
pub proof fn lemma_stop_signal(fails: Seq<WorkerEvent>, n: int)
    requires
        fails.len() == n,
        forall|i: int| 0 <= i < n ==> fails[i] == WorkerEvent::ConnectDone(false),
    ensures
        spec_step(WorkerPhase::Polling, WorkerEvent::PollDone(true)) == WorkerPhase::Stopped,
        run_steps(
            WorkerPhase::Sending,
            seq![WorkerEvent::SendDone(true), WorkerEvent::PollDone(true)],
        ) == WorkerPhase::Stopped,
        run_steps(
            WorkerPhase::Sending,
            seq![
                WorkerEvent::SendDone(false),
                WorkerEvent::ReconnectDone(false),
                WorkerEvent::PollDone(true),
            ],
        ) == WorkerPhase::Stopped,
        run_steps(
            WorkerPhase::Sending,
            seq![
                WorkerEvent::SendDone(false),
                WorkerEvent::ReconnectDone(true),
                WorkerEvent::SendDone(true),
                WorkerEvent::PollDone(true),
            ],
        ) == WorkerPhase::Stopped,
        run_steps(
            WorkerPhase::Connecting,
            fails + seq![
                WorkerEvent::ConnectDone(true),
                WorkerEvent::SendDone(true),
                WorkerEvent::PollDone(true),
            ],
        ) == WorkerPhase::Stopped,
{
    let e_conn_ok = WorkerEvent::ConnectDone(true);
    let e_send_ok = WorkerEvent::SendDone(true);
    let e_send_fail = WorkerEvent::SendDone(false);
    let e_rec_ok = WorkerEvent::ReconnectDone(true);
    let e_rec_fail = WorkerEvent::ReconnectDone(false);
    let e_stop = WorkerEvent::PollDone(true);

    lemma_run_steps_one(WorkerPhase::Polling, e_stop);

    let s2 = seq![e_send_ok, e_stop];
    assert(s2.skip(1) =~= seq![e_stop]);
    assert(run_steps(WorkerPhase::Sending, s2) == WorkerPhase::Stopped);

    let s3 = seq![e_send_fail, e_rec_fail, e_stop];
    assert(s3.skip(1) =~= seq![e_rec_fail, e_stop]);
    assert(seq![e_rec_fail, e_stop].skip(1) =~= seq![e_stop]);
    assert(run_steps(WorkerPhase::Reconnecting, seq![e_rec_fail, e_stop]) == WorkerPhase::Stopped);
    assert(run_steps(WorkerPhase::Sending, s3) == WorkerPhase::Stopped);

    let s4 = seq![e_send_fail, e_rec_ok, e_send_ok, e_stop];
    assert(s4.skip(1) =~= seq![e_rec_ok, e_send_ok, e_stop]);
    assert(seq![e_rec_ok, e_send_ok, e_stop].skip(1) =~= s2);
    assert(run_steps(WorkerPhase::Reconnecting, seq![e_rec_ok, e_send_ok, e_stop])
        == WorkerPhase::Stopped);
    assert(run_steps(WorkerPhase::Sending, s4) == WorkerPhase::Stopped);

    let tail = seq![e_conn_ok, e_send_ok, e_stop];
    assert(tail.skip(1) =~= s2);
    assert(run_steps(WorkerPhase::Connecting, tail) == WorkerPhase::Stopped);
    lemma_run_steps_concat(WorkerPhase::Connecting, fails, tail);
    lemma_failed_connects(fails);
}

/// The stop signal is one-shot: the holder of a running worker's handle may
/// request a stop at most once, and doing so is what marks the worker as no
/// longer running on the holder's side.
pub struct HandleState {
    /// The holder still considers the worker alive.
    pub running: bool,
    /// A stop was already requested.
    pub stop_requested: bool,
}

impl HandleState {
    /// The holder's bookkeeping for a freshly spawned worker.
    pub fn new_running() -> (r: Self)
        ensures
            r.running,
            !r.stop_requested,
    {
        HandleState { running: true, stop_requested: false }
    }

    /// Records the one permitted stop request: only a running worker that
    /// was never asked before may be asked to stop, and afterwards the
    /// holder no longer counts it as running.
    pub fn request_stop(&mut self)
        requires
            old(self).running,
            !old(self).stop_requested,
        ensures
            !final(self).running,
            final(self).stop_requested,
    {
        self.running = false;
        self.stop_requested = true;
    }
}

} // verus!
