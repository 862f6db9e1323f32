//! A timer that emits events: once, a number of times, or until told to stop.
//! The decisions of the timer thread, as a state machine; the thread that
//! sleeps, sends and receives runs it.
use vstd::prelude::*;
use core::time::Duration;
use std::sync::mpsc::{Sender, Receiver};
use crate::channel::new_channel;

verus! {

/// Requests to the timer.
#[derive(Debug, Clone, Copy)]
pub enum TimerMsgs {
    EmitOnce(Duration),
    EmitFinite(Duration, u64),
    EmitForever(Duration),
    Exit,
}

/// What the timer sends.
#[derive(Debug, Clone, Copy, PartialEq, Eq, Structural)]
pub enum TimerEvents {
    Emit,
}

/// What happened since the last action of the timer.
#[derive(Debug, Clone, Copy)]
pub enum TimerInput {
    /// A request arrived.
    Message(TimerMsgs),
    /// The request channel is closed.
    Closed,
    /// The sleep is over.
    Slept,
    /// The event was sent.
    Emitted,
    /// A look at the request channel: whether a request was there (it is dropped).
    Polled(bool),
}

/// What the timer thread does next.
#[derive(Debug, Clone, Copy)]
pub enum TimerAction {
    /// Wait for a request.
    Receive,
    /// Sleep for the duration.
    Sleep(Duration),
    /// Send `TimerEvents::Emit`.
    Emit,
    /// Look at the request channel without waiting.
    Poll,
    /// Stop the thread.
    Exit,
}

/// Where the timer is. `remaining` counts the emissions still to come, `None`
/// meaning without end; `poll` says whether the timer looks for a stop request
/// after each emission.
#[derive(Debug, Clone, Copy)]
pub enum TimerPhase {
    Waiting,
    Sleeping { duration: Duration, remaining: Option<u64>, poll: bool },
    Emitting { duration: Duration, remaining: Option<u64>, poll: bool },
    Polling { duration: Duration, remaining: Option<u64> },
    Stopped,
}

/// Where a run of `remaining` emissions every `duration` goes after one emission
/// is done: on to the next sleep, or back to waiting once none is left.
pub open spec fn after_emission(duration: Duration, remaining: Option<u64>, poll: bool) -> (TimerPhase, TimerAction) {
    match remaining {
        Some(n) => if n <= 1 {
            (TimerPhase::Waiting, TimerAction::Receive)
        } else {
            (
                TimerPhase::Sleeping { duration, remaining: Some((n - 1) as u64), poll },
                TimerAction::Sleep(duration),
            )
        },
        None => (TimerPhase::Sleeping { duration, remaining: None, poll }, TimerAction::Sleep(duration)),
    }
}

/// The next phase and action of the timer. A request starts a run: `EmitOnce`
/// emits once, `EmitFinite(d, n)` emits `n` times, `EmitForever` emits without
/// end, each emission after a sleep of `d`; in the last two, a request seen after
/// an emission ends the run, and is dropped. `Exit`, or a closed channel, stops
/// the timer. Inputs that do not fit the phase change nothing.
pub open spec fn timer_next(phase: TimerPhase, input: TimerInput) -> (TimerPhase, TimerAction) {
    match (phase, input) {
        (TimerPhase::Waiting, TimerInput::Closed) => (TimerPhase::Stopped, TimerAction::Exit),
        (TimerPhase::Waiting, TimerInput::Message(m)) => match m {
            TimerMsgs::Exit => (TimerPhase::Stopped, TimerAction::Exit),
            TimerMsgs::EmitOnce(d) => (
                TimerPhase::Sleeping { duration: d, remaining: Some(1), poll: false },
                TimerAction::Sleep(d),
            ),
            TimerMsgs::EmitFinite(d, n) => if n == 0 {
                (TimerPhase::Waiting, TimerAction::Receive)
            } else {
                (TimerPhase::Sleeping { duration: d, remaining: Some(n), poll: true }, TimerAction::Sleep(d))
            },
            TimerMsgs::EmitForever(d) => (
                TimerPhase::Sleeping { duration: d, remaining: None, poll: true },
                TimerAction::Sleep(d),
            ),
        },
        (TimerPhase::Sleeping { duration, remaining, poll }, TimerInput::Slept) => (
            TimerPhase::Emitting { duration, remaining, poll },
            TimerAction::Emit,
        ),
        (TimerPhase::Emitting { duration, remaining, poll }, TimerInput::Emitted) => if poll {
            (TimerPhase::Polling { duration, remaining }, TimerAction::Poll)
        } else {
            after_emission(duration, remaining, poll)
        },
        (TimerPhase::Polling { duration, remaining }, TimerInput::Polled(found)) => if found {
            (TimerPhase::Waiting, TimerAction::Receive)
        } else {
            after_emission(duration, remaining, true)
        },
        (p, _) => (p, action_of(p)),
    }
}

/// The action that a phase waits on.
pub open spec fn action_of(p: TimerPhase) -> TimerAction {
    match p {
        TimerPhase::Waiting => TimerAction::Receive,
        TimerPhase::Sleeping { duration, .. } => TimerAction::Sleep(duration),
        TimerPhase::Emitting { .. } => TimerAction::Emit,
        TimerPhase::Polling { .. } => TimerAction::Poll,
        TimerPhase::Stopped => TimerAction::Exit,
    }
}


/// The ends of the two channels that the timer thread works with: where it
/// sends its events, and where its requests arrive.
pub struct TimerEnds {
    pub events: Sender<TimerEvents>,
    pub requests: Receiver<TimerMsgs>,
}

/// The receiving side of a timer: where its events arrive. Until the timer
/// thread is started, it also keeps the ends that thread works with.
pub struct Timer {
    erx: Receiver<TimerEvents>,
    ends: Option<TimerEnds>,
}

/// The controlling side of a timer: where requests to it are sent.
pub struct TimerController {
    ctx: Sender<TimerMsgs>,
}

impl Timer {
    /// Whether the ends of the timer thread are still kept here.
    pub closed spec fn holds_ends(&self) -> bool {
        self.ends is Some
    }

    /// A timer and its controller, joined by two new channels; the ends for
    /// the timer thread are kept in the timer until `take_ends`.
    pub fn new() -> (r: (Self, TimerController))
        ensures
            r.0.holds_ends(),
    {
        let (ctx, crx) = new_channel();
        let (etx, erx) = new_channel();
        (Timer { erx: erx, ends: Some(TimerEnds { events: etx, requests: crx }) }, TimerController { ctx: ctx })
    }

    /// Hands out the ends for the timer thread, once.
    pub fn take_ends(&mut self) -> (r: Option<TimerEnds>)
        ensures
            r is Some <==> old(self).holds_ends(),
            !final(self).holds_ends(),
    {
        self.ends.take()
    }

    /// The receiving end of the events.
    pub closed spec fn event_end(&self) -> Receiver<TimerEvents> {
        self.erx
    }

    /// Where the events of the timer arrive.
    pub fn events(&self) -> (r: &Receiver<TimerEvents>)
        ensures
            *r == self.event_end(),
    {
        &self.erx
    }
}

impl TimerController {
    /// The sending end of the requests.
    pub closed spec fn request_end(&self) -> Sender<TimerMsgs> {
        self.ctx
    }

    /// Where requests to the timer are sent.
    pub fn requests(&self) -> (r: &Sender<TimerMsgs>)
        ensures
            *r == self.request_end(),
    {
        &self.ctx
    }
}

/// The decisions of the timer thread.
pub struct TimerManager {
    phase: TimerPhase,
}

impl TimerManager {
    pub closed spec fn phase(&self) -> TimerPhase {
        self.phase
    }

    /// A timer waiting for its first request.
    pub fn new() -> (r: TimerManager)
        ensures
            r.phase() == TimerPhase::Waiting,
    {
        TimerManager { phase: TimerPhase::Waiting }
    }

    /// The action the timer waits on now.
    pub fn action(&self) -> (r: TimerAction)
        ensures
            r == action_of(self.phase()),
    {
        match self.phase {
            TimerPhase::Waiting => TimerAction::Receive,
            TimerPhase::Sleeping { duration, .. } => TimerAction::Sleep(duration),
            TimerPhase::Emitting { .. } => TimerAction::Emit,
            TimerPhase::Polling { .. } => TimerAction::Poll,
            TimerPhase::Stopped => TimerAction::Exit,
        }
    }

    /// Takes in what happened; returns what to do next.
    pub fn handle(&mut self, input: TimerInput) -> (r: TimerAction)
        ensures
            (final(self).phase(), r) == timer_next(old(self).phase(), input),
    {
        let (p, a) = match (self.phase, input) {
            (TimerPhase::Waiting, TimerInput::Closed) => (TimerPhase::Stopped, TimerAction::Exit),
            (TimerPhase::Waiting, TimerInput::Message(m)) => match m {
                TimerMsgs::Exit => (TimerPhase::Stopped, TimerAction::Exit),
                TimerMsgs::EmitOnce(d) => (
                    TimerPhase::Sleeping { duration: d, remaining: Some(1), poll: false },
                    TimerAction::Sleep(d),
                ),
                TimerMsgs::EmitFinite(d, n) => if n == 0 {
                    (TimerPhase::Waiting, TimerAction::Receive)
                } else {
                    (TimerPhase::Sleeping { duration: d, remaining: Some(n), poll: true }, TimerAction::Sleep(d))
                },
                TimerMsgs::EmitForever(d) => (
                    TimerPhase::Sleeping { duration: d, remaining: None, poll: true },
                    TimerAction::Sleep(d),
                ),
            },
            (TimerPhase::Sleeping { duration, remaining, poll }, TimerInput::Slept) => (
                TimerPhase::Emitting { duration, remaining, poll },
                TimerAction::Emit,
            ),
            (TimerPhase::Emitting { duration, remaining, poll }, TimerInput::Emitted) => if poll {
                (TimerPhase::Polling { duration, remaining }, TimerAction::Poll)
            } else {
                Self::after_emission(duration, remaining, poll)
            },
            (TimerPhase::Polling { duration, remaining }, TimerInput::Polled(found)) => if found {
                (TimerPhase::Waiting, TimerAction::Receive)
            } else {
                Self::after_emission(duration, remaining, true)
            },
            (p, _) => (p, self.action()),
        };
        self.phase = p;
        a
    }

    fn after_emission(duration: Duration, remaining: Option<u64>, poll: bool) -> (r: (TimerPhase, TimerAction))
        ensures
            r == after_emission(duration, remaining, poll),
    {
        match remaining {
            Some(n) => if n <= 1 {
                (TimerPhase::Waiting, TimerAction::Receive)
            } else {
                (TimerPhase::Sleeping { duration, remaining: Some(n - 1), poll }, TimerAction::Sleep(duration))
            },
            None => (TimerPhase::Sleeping { duration, remaining: None, poll }, TimerAction::Sleep(duration)),
        }
    }
}


/// The phases and actions of the timer over a run of inputs, from phase `p`.
pub open spec fn timer_run(p: TimerPhase, inputs: Seq<TimerInput>) -> (TimerPhase, Seq<TimerAction>)
    decreases inputs.len(),
{
    if inputs.len() == 0 {
        (p, Seq::empty())
    } else {
        let (q, a) = timer_next(p, inputs[0]);
        let (r, rest) = timer_run(q, inputs.drop_first());
        (r, seq![a] + rest)
    }
}

/// How many of `actions` send an event.
pub open spec fn count_emits(actions: Seq<TimerAction>) -> nat
    decreases actions.len(),
{
    if actions.len() == 0 {
        0
    } else {
        (if actions[0] is Emit { 1nat } else { 0nat }) + count_emits(actions.drop_first())
    }
}

/// `k` emissions with nobody asking the timer to stop: each sleep ends, the event
/// is sent, and the request channel is found empty.
pub open spec fn quiet_cycles(k: nat) -> Seq<TimerInput>
    decreases k,
{
    if k == 0 {
        Seq::empty()
    } else {
        seq![TimerInput::Slept, TimerInput::Emitted, TimerInput::Polled(false)] + quiet_cycles((k - 1) as nat)
    }
}

/// Running two stretches of input one after the other.
pub proof fn lemma_timer_run_concat(p: TimerPhase, a: Seq<TimerInput>, b: Seq<TimerInput>)
    ensures
        timer_run(p, a + b) == ({
            let (q, x) = timer_run(p, a);
            let (r, y) = timer_run(q, b);
            (r, x + y)
        }),
    decreases a.len(),
{
    if a.len() == 0 {
        assert(a + b =~= b);
        assert(Seq::<TimerAction>::empty() + timer_run(p, b).1 =~= timer_run(p, b).1);
    } else {
        let (q, act) = timer_next(p, a[0]);
        assert((a + b).drop_first() =~= a.drop_first() + b);
        lemma_timer_run_concat(q, a.drop_first(), b);
        let (q1, x1) = timer_run(q, a.drop_first());
        let (r, y) = timer_run(q1, b);
        assert(seq![act] + (x1 + y) =~= (seq![act] + x1) + y);
    }
}

/// Emissions of two stretches of actions add up.
pub proof fn lemma_count_emits_concat(x: Seq<TimerAction>, y: Seq<TimerAction>)
    ensures
        count_emits(x + y) == count_emits(x) + count_emits(y),
    decreases x.len(),
{
    if x.len() == 0 {
        assert(x + y =~= y);
    } else {
        assert((x + y).drop_first() =~= x.drop_first() + y);
        lemma_count_emits_concat(x.drop_first(), y);
    }
}

/// A run with `m` emissions left and nobody asking to stop emits `m` times and
/// then waits for the next request.
proof fn lemma_quiet_finite_run(d: Duration, m: nat)
    requires
        1 <= m <= u64::MAX,
    ensures
        ({
            let (r, acts) = timer_run(
                TimerPhase::Sleeping { duration: d, remaining: Some(m as u64), poll: true },
                quiet_cycles(m),
            );
            &&& r == TimerPhase::Waiting
            &&& count_emits(acts) == m
            &&& acts.len() == 3 * m
            &&& acts.last() == TimerAction::Receive
        }),
    decreases m,
{
    let start = TimerPhase::Sleeping { duration: d, remaining: Some(m as u64), poll: true };
    let cycle = seq![TimerInput::Slept, TimerInput::Emitted, TimerInput::Polled(false)];
    assert(quiet_cycles(m) == cycle + quiet_cycles((m - 1) as nat));
    lemma_timer_run_concat(start, cycle, quiet_cycles((m - 1) as nat));
    let (q, x) = timer_run(start, cycle);
    reveal_with_fuel(timer_run, 4);
    reveal_with_fuel(count_emits, 4);
    assert(cycle.drop_first().drop_first().drop_first() =~= Seq::<TimerInput>::empty());
    assert(cycle.drop_first() =~= seq![TimerInput::Emitted, TimerInput::Polled(false)]);
    assert(cycle.drop_first().drop_first() =~= seq![TimerInput::Polled(false)]);
    if m == 1 {
        assert(q == TimerPhase::Waiting);
        assert(x =~= seq![TimerAction::Emit, TimerAction::Poll, TimerAction::Receive]);
        assert(quiet_cycles(0) =~= Seq::<TimerInput>::empty());
        assert(x + Seq::<TimerAction>::empty() =~= x);
        assert(x.drop_first().drop_first() =~= seq![TimerAction::Receive]);
        assert(x.drop_first() =~= seq![TimerAction::Poll, TimerAction::Receive]);
        assert(count_emits(seq![TimerAction::Receive]) == 0) by {
            assert(seq![TimerAction::Receive].drop_first() =~= Seq::<TimerAction>::empty());
        }
    } else {
        let next = TimerPhase::Sleeping { duration: d, remaining: Some((m - 1) as u64), poll: true };
        assert(q == next);
        assert(x =~= seq![TimerAction::Emit, TimerAction::Poll, TimerAction::Sleep(d)]);
        lemma_quiet_finite_run(d, (m - 1) as nat);
        let (r, y) = timer_run(next, quiet_cycles((m - 1) as nat));
        lemma_count_emits_concat(x, y);
        assert(x.drop_first().drop_first() =~= seq![TimerAction::Sleep(d)]);
        assert(x.drop_first() =~= seq![TimerAction::Poll, TimerAction::Sleep(d)]);
        assert(count_emits(seq![TimerAction::Sleep(d)]) == 0) by {
            assert(seq![TimerAction::Sleep(d)].drop_first() =~= Seq::<TimerAction>::empty());
        }
        assert((x + y).last() == y.last());
    }
}

/// A request to emit `n` times every `d`, with nobody asking the timer to stop,
/// sends exactly `n` events and leaves the timer waiting for the next request.
pub proof fn lemma_emit_finite_sends_n(d: Duration, n: u64)
    requires
        n >= 1,
    ensures
        ({
            let (r, acts) = timer_run(
                TimerPhase::Waiting,
                seq![TimerInput::Message(TimerMsgs::EmitFinite(d, n))] + quiet_cycles(n as nat),
            );
            &&& r == TimerPhase::Waiting
            &&& count_emits(acts) == n
            &&& acts.last() == TimerAction::Receive
        }),
{
    let msg = seq![TimerInput::Message(TimerMsgs::EmitFinite(d, n))];
    lemma_timer_run_concat(TimerPhase::Waiting, msg, quiet_cycles(n as nat));
    reveal_with_fuel(timer_run, 2);
    reveal_with_fuel(count_emits, 2);
    assert(msg.drop_first() =~= Seq::<TimerInput>::empty());
    let start = TimerPhase::Sleeping { duration: d, remaining: Some(n), poll: true };
    let (q, x) = timer_run(TimerPhase::Waiting, msg);
    assert(q == start);
    assert(x =~= seq![TimerAction::Sleep(d)]);
    lemma_quiet_finite_run(d, n as nat);
    let (r, y) = timer_run(start, quiet_cycles(n as nat));
    lemma_count_emits_concat(x, y);
    assert(x.drop_first() =~= Seq::<TimerAction>::empty());
    assert((x + y).last() == y.last());
}

/// A request to emit without end keeps emitting, once per quiet cycle, and is
/// still running after any number of them.
pub proof fn lemma_emit_forever_keeps_running(d: Duration, k: nat)
    ensures
        ({
            let (r, acts) = timer_run(
                TimerPhase::Sleeping { duration: d, remaining: None, poll: true },
                quiet_cycles(k),
            );
            &&& r == TimerPhase::Sleeping { duration: d, remaining: None, poll: true }
            &&& count_emits(acts) == k
        }),
    decreases k,
{
    let start = TimerPhase::Sleeping { duration: d, remaining: None, poll: true };
    if k == 0 {
        assert(quiet_cycles(0) =~= Seq::<TimerInput>::empty());
    } else {
        let cycle = seq![TimerInput::Slept, TimerInput::Emitted, TimerInput::Polled(false)];
        lemma_timer_run_concat(start, cycle, quiet_cycles((k - 1) as nat));
        reveal_with_fuel(timer_run, 4);
        reveal_with_fuel(count_emits, 4);
        assert(cycle.drop_first() =~= seq![TimerInput::Emitted, TimerInput::Polled(false)]);
        assert(cycle.drop_first().drop_first() =~= seq![TimerInput::Polled(false)]);
        assert(cycle.drop_first().drop_first().drop_first() =~= Seq::<TimerInput>::empty());
        let (q, x) = timer_run(start, cycle);
        assert(q == start);
        assert(x =~= seq![TimerAction::Emit, TimerAction::Poll, TimerAction::Sleep(d)]);
        lemma_emit_forever_keeps_running(d, (k - 1) as nat);
        let (r, y) = timer_run(start, quiet_cycles((k - 1) as nat));
        lemma_count_emits_concat(x, y);
        assert(x.drop_first() =~= seq![TimerAction::Poll, TimerAction::Sleep(d)]);
        assert(x.drop_first().drop_first() =~= seq![TimerAction::Sleep(d)]);
        assert(count_emits(seq![TimerAction::Sleep(d)]) == 0) by {
            assert(seq![TimerAction::Sleep(d)].drop_first() =~= Seq::<TimerAction>::empty());
        }
    }
}

} // verus!
