//! The tick clock of the simulation: a handle that other threads use to talk
//! to the tick thread, and the decisions of the tick thread itself.
use vstd::prelude::*;
use std::sync::mpsc::{Sender, Receiver};
use crate::structs::ChanError;
use crate::channel::{new_channel, send_on, recv_on, send_outcome, reply_outcome};

verus! {

/// Requests to the tick thread.
pub enum TickThreadMsg {
    /// Sends every tick to the given channel from now on.
    Register(Sender<TickThreadEvent>),
    /// After each tick, waits for a value on the given channel before the next one.
    Constrain(Receiver<()>),
    /// Asks for the length of a tick, in milliseconds.
    GetTickLength(Sender<u32>),
    /// Sets the length of a tick, in milliseconds.
    SetSpeed(u32),
    Exit,
}

/// What the tick thread sends to its clients.
#[derive(Debug, Clone, Copy, PartialEq, Eq, Structural)]
pub enum TickThreadEvent {
    Tick,
    Exit,
}

/// Errors of the tick component.
#[derive(Debug, Clone, Copy)]
pub enum Error {
    Unimplemented(&'static str),
    SendError(&'static str),
    RecvError(&'static str),
}

impl From<ChanError> for Error {
    fn from(err: ChanError) -> (r: Error) {
        match err {
            ChanError::SendError(e) => Error::SendError(e),
            ChanError::RecvError(e) => Error::RecvError(e),
        }
    }
}

impl vstd::std_specs::convert::FromSpecImpl<ChanError> for Error {
    open spec fn obeys_from_spec() -> bool {
        true
    }

    open spec fn from_spec(err: ChanError) -> Error {
        match err {
            ChanError::SendError(e) => Error::SendError(e),
            ChanError::RecvError(e) => Error::RecvError(e),
        }
    }
}

/// The error of a channel operation, as an error of the tick component.
fn tick_error(err: ChanError) -> (r: Error)
    ensures
        r == (match err {
            ChanError::SendError(e) => Error::SendError(e),
            ChanError::RecvError(e) => Error::RecvError(e),
        }),
{
    Error::from(err)
}

/// A handle on the tick thread, with the record of the requests it handed to
/// the thread's channel.
#[derive(Clone)]
pub struct Tick {
    thread: Sender<TickThreadMsg>,
    log: Ghost<Seq<(TickThreadMsg, bool)>>,
}

impl Tick {
    /// The channel of requests to the tick thread.
    pub closed spec fn thread(&self) -> Sender<TickThreadMsg> {
        self.thread
    }

    /// The requests sent so far, in order, each with whether the channel took
    /// it (`false` when the tick thread was gone).
    pub closed spec fn log(&self) -> Seq<(TickThreadMsg, bool)> {
        self.log@
    }

    /// A handle that sends its requests on `thread`; nothing sent yet.
    pub fn new(thread: Sender<TickThreadMsg>) -> (r: Self)
        ensures
            r.thread() == thread,
            r.log() == Seq::<(TickThreadMsg, bool)>::empty(),
    {
        Tick { thread: thread, log: Ghost(Seq::empty()) }
    }

    /// Sends `msg` on the channel and records it; `true` when the channel took it.
    fn send(&mut self, msg: TickThreadMsg) -> (sent: bool)
        ensures
            final(self).thread() == old(self).thread(),
            final(self).log() == old(self).log().push((msg, sent)),
    {
        let ghost m = msg;
        let sent = send_on(&self.thread, msg);
        proof {
            self.log@ = self.log@.push((m, sent));
        }
        sent
    }

    /// Registers for ticks: sends a `Register` request with the sending end of
    /// a new channel, and returns its receiving end, on which the ticks arrive;
    /// a send error naming `Register` when the channel did not take the request.
    pub fn register(&mut self) -> (r: Result<Receiver<TickThreadEvent>, Error>)
        ensures
            final(self).thread() == old(self).thread(),
            final(self).log().len() == old(self).log().len() + 1,
            final(self).log().drop_last() == old(self).log(),
            final(self).log().last().0 is Register,
            final(self).log().last().1 <==> r is Ok,
            r is Err ==> r == Err::<Receiver<TickThreadEvent>, Error>(Error::SendError("TickThreadMsg::Register")),
    {
        let (tx, rx) = new_channel();
        let sent = self.send(TickThreadMsg::Register(tx));
        proof {
            assert(self.log().drop_last() =~= old(self).log());
        }
        match send_outcome(sent, "TickThreadMsg::Register") {
            Ok(()) => Ok(rx),
            Err(e) => Err(tick_error(e)),
        }
    }

    /// Sends a `SetSpeed(ms)` request: a tick is to last `ms` milliseconds; a
    /// send error naming `SetSpeed` when the channel did not take it.
    pub fn set_speed(&mut self, ms: u32) -> (r: Result<(), Error>)
        ensures
            final(self).thread() == old(self).thread(),
            final(self).log() == old(self).log().push((TickThreadMsg::SetSpeed(ms), r is Ok)),
            r is Err ==> r == Err::<(), Error>(Error::SendError("TickThreadMsg::SetSpeed")),
    {
        let sent = self.send(TickThreadMsg::SetSpeed(ms));
        match send_outcome(sent, "TickThreadMsg::SetSpeed") {
            Ok(()) => Ok(()),
            Err(e) => Err(tick_error(e)),
        }
    }

    /// Sends a `Constrain` request with the receiving end of a new channel, and
    /// returns its sending end: after each tick the tick thread waits for a
    /// value on it. A send error naming `Constrain` when the channel did not
    /// take the request.
    pub fn init_constraint(&mut self) -> (r: Result<Sender<()>, Error>)
        ensures
            final(self).thread() == old(self).thread(),
            final(self).log().len() == old(self).log().len() + 1,
            final(self).log().drop_last() == old(self).log(),
            final(self).log().last().0 is Constrain,
            final(self).log().last().1 <==> r is Ok,
            r is Err ==> r == Err::<Sender<()>, Error>(Error::SendError("TickThreadMsg::Constrain")),
    {
        let (tx, rx) = new_channel();
        let sent = self.send(TickThreadMsg::Constrain(rx));
        proof {
            assert(self.log().drop_last() =~= old(self).log());
        }
        match send_outcome(sent, "TickThreadMsg::Constrain") {
            Ok(()) => Ok(tx),
            Err(e) => Err(tick_error(e)),
        }
    }

    /// Asks the length of a tick: sends a `GetTickLength` request with the
    /// sending end of a new channel and waits for the reply on its receiving
    /// end. A send error naming `GetTickLength` when the channel did not take
    /// the request (then nothing is awaited); a receive error naming it when
    /// the reply channel closed without a reply.
    pub fn get_tick_length(&mut self) -> (r: Result<u32, Error>)
        ensures
            final(self).thread() == old(self).thread(),
            final(self).log().len() == old(self).log().len() + 1,
            final(self).log().drop_last() == old(self).log(),
            final(self).log().last().0 is GetTickLength,
            !final(self).log().last().1 ==> r == Err::<u32, Error>(Error::SendError("TickThreadMsg::GetTickLength")),
            final(self).log().last().1 ==> r is Ok || r == Err::<u32, Error>(
                Error::RecvError("TickThreadMsg::GetTickLength"),
            ),
    {
        let (tx, rx) = new_channel();
        let sent = self.send(TickThreadMsg::GetTickLength(tx));
        proof {
            assert(self.log().drop_last() =~= old(self).log());
        }
        let reply = if sent {
            recv_on(&rx)
        } else {
            None
        };
        match reply_outcome(sent, reply, "TickThreadMsg::GetTickLength") {
            Ok(v) => Ok(v),
            Err(e) => Err(tick_error(e)),
        }
    }
}

/// The state of the tick thread: the tick length, the registered clients, and
/// the channel that holds back the next tick, if any.
pub struct TickManager {
    tick_avg: u32,
    clients: Vec<Sender<TickThreadEvent>>,
    constraint: Option<Receiver<()>>,
    events_sent: Ghost<Seq<(Sender<TickThreadEvent>, TickThreadEvent)>>,
    lengths_sent: Ghost<Seq<(Sender<u32>, u32)>>,
    waits: Ghost<Seq<(Receiver<()>, bool)>>,
}

/// The events of one emission: `msg` to each client, in order.
pub open spec fn emission(clients: Seq<Sender<TickThreadEvent>>, msg: TickThreadEvent) -> Seq<
    (Sender<TickThreadEvent>, TickThreadEvent),
> {
    clients.map_values(|c: Sender<TickThreadEvent>| (c, msg))
}

impl TickManager {
    pub closed spec fn tick_length(&self) -> u32 {
        self.tick_avg
    }

    pub closed spec fn clients(&self) -> Seq<Sender<TickThreadEvent>> {
        self.clients@
    }

    pub closed spec fn constraint(&self) -> Option<Receiver<()>> {
        self.constraint
    }

    /// The events sent so far, each with the client it was sent to.
    pub closed spec fn event_log(&self) -> Seq<(Sender<TickThreadEvent>, TickThreadEvent)> {
        self.events_sent@
    }

    /// The waits for a constraint's signal so far: the channel waited on, and
    /// whether a signal came (`false` when its sender was gone).
    pub closed spec fn wait_log(&self) -> Seq<(Receiver<()>, bool)> {
        self.waits@
    }

    /// The replies to length requests sent so far, each with its reply channel.
    pub closed spec fn length_log(&self) -> Seq<(Sender<u32>, u32)> {
        self.lengths_sent@
    }

    /// A tick thread with ticks of 500 ms, no client and no constraint.
    pub fn new() -> (r: Self)
        ensures
            r.tick_length() == 500,
            r.clients() == Seq::<Sender<TickThreadEvent>>::empty(),
            r.constraint() is None,
            r.event_log() == Seq::<(Sender<TickThreadEvent>, TickThreadEvent)>::empty(),
            r.length_log() == Seq::<(Sender<u32>, u32)>::empty(),
            r.wait_log() == Seq::<(Receiver<()>, bool)>::empty(),
    {
        TickManager {
            tick_avg: 500,
            clients: Vec::new(),
            constraint: None,
            events_sent: Ghost(Seq::empty()),
            lengths_sent: Ghost(Seq::empty()),
            waits: Ghost(Seq::empty()),
        }
    }

    /// The tick length, in milliseconds.
    pub fn tick_avg(&self) -> (r: u32)
        ensures
            r == self.tick_length(),
    {
        self.tick_avg
    }

    /// Handles a request; `None` stands for a closed request channel. Returns
    /// whether the thread should stop: on `Exit` or a closed channel. A
    /// constraint replaces the one before; a client is added after the others;
    /// a length request is answered with the tick length.
    pub fn handle_msg(&mut self, msg: Option<TickThreadMsg>) -> (r: bool)
        ensures
            final(self).tick_length() == old(self).tick_length(),
            final(self).event_log() == old(self).event_log(),
            final(self).wait_log() == old(self).wait_log(),
            msg matches Some(TickThreadMsg::GetTickLength(tx)) ==> final(self).length_log() == old(
                self,
            ).length_log().push((tx, old(self).tick_length())),
            !(msg matches Some(TickThreadMsg::GetTickLength(_))) ==> final(self).length_log() == old(
                self,
            ).length_log(),
            r == (msg is None || msg matches Some(TickThreadMsg::Exit)),
            msg matches Some(TickThreadMsg::Constrain(rx)) ==> final(self).constraint() == Some(rx),
            !(msg matches Some(TickThreadMsg::Constrain(_))) ==> final(self).constraint() == old(self).constraint(),
            msg matches Some(TickThreadMsg::Register(tx)) ==> final(self).clients() == old(self).clients().push(tx),
            !(msg matches Some(TickThreadMsg::Register(_))) ==> final(self).clients() == old(self).clients(),
    {
        match msg {
            None => true,
            Some(TickThreadMsg::Constrain(rx)) => {
                self.constraint = Some(rx);
                false
            },
            Some(TickThreadMsg::Register(tx)) => {
                self.register(tx);
                false
            },
            Some(TickThreadMsg::GetTickLength(tx)) => {
                let ghost t = tx;
                let _ = send_on(&tx, self.tick_avg);
                proof {
                    self.lengths_sent@ = self.lengths_sent@.push((t, self.tick_avg));
                }
                false
            },
            Some(TickThreadMsg::SetSpeed(_)) => false,
            Some(TickThreadMsg::Exit) => true,
        }
    }

    /// Sends `msg` to every client, then, under a constraint, waits for its
    /// signal; a constraint whose sender is gone is dropped.
    pub fn emit(&mut self, msg: TickThreadEvent)
        ensures
            final(self).tick_length() == old(self).tick_length(),
            final(self).clients() == old(self).clients(),
            final(self).event_log() == old(self).event_log() + emission(old(self).clients(), msg),
            final(self).length_log() == old(self).length_log(),
            old(self).constraint() is None ==> final(self).wait_log() == old(self).wait_log()
                && final(self).constraint() is None,
            old(self).constraint() matches Some(rx) ==> {
                &&& final(self).wait_log().len() == old(self).wait_log().len() + 1
                &&& final(self).wait_log().drop_last() == old(self).wait_log()
                &&& final(self).wait_log().last().0 == rx
                &&& final(self).constraint() == (if final(self).wait_log().last().1 {
                    Some(rx)
                } else {
                    None::<Receiver<()>>
                })
            },
            final(self).constraint() is None || final(self).constraint() == old(self).constraint(),
    {
        let mut i: usize = 0;
        while i < self.clients.len()
            invariant
                i <= self.clients@.len(),
                self.clients@ == old(self).clients@,
                self.tick_avg == old(self).tick_avg,
                self.constraint == old(self).constraint,
                self.lengths_sent@ == old(self).lengths_sent@,
                self.waits@ == old(self).waits@,
                self.events_sent@ == old(self).events_sent@ + emission(self.clients@.take(i as int), msg),
            decreases self.clients@.len() - i,
        {
            let _ = send_on(&self.clients[i], msg);
            proof {
                let c = self.clients@[i as int];
                assert(emission(self.clients@.take(i + 1), msg) =~= emission(self.clients@.take(i as int), msg).push(
                    (c, msg),
                ));
                self.events_sent@ = self.events_sent@.push((c, msg));
                assert(self.events_sent@ =~= old(self).events_sent@ + emission(self.clients@.take(i + 1), msg));
            }
            i = i + 1;
        }
        assert(self.clients@.take(i as int) =~= self.clients@);
        let is_err = match &self.constraint {
            Some(rx) => {
                let signalled = recv_on(rx).is_some();
                proof {
                    self.waits@ = self.waits@.push((*rx, signalled));
                }
                !signalled
            },
            None => false,
        };
        proof {
            if old(self).constraint is Some {
                assert(self.waits@.drop_last() =~= old(self).waits@);
            }
        }
        self.settle_constraint(!is_err);
    }

    /// After the wait for the constraint's signal: a constraint whose sender is
    /// gone (no signal came) is dropped, one that signalled stays.
    pub fn settle_constraint(&mut self, signalled: bool)
        ensures
            final(self).tick_length() == old(self).tick_length(),
            final(self).clients() == old(self).clients(),
            final(self).constraint() == (if signalled {
                old(self).constraint()
            } else {
                None::<Receiver<()>>
            }),
            final(self).event_log() == old(self).event_log(),
            final(self).length_log() == old(self).length_log(),
            final(self).wait_log() == old(self).wait_log(),
    {
        if !signalled {
            self.constraint = None;
        }
    }

    /// Adds a client after the others.
    fn register(&mut self, tx: Sender<TickThreadEvent>)
        ensures
            final(self).tick_length() == old(self).tick_length(),
            final(self).constraint() == old(self).constraint(),
            final(self).clients() == old(self).clients().push(tx),
            final(self).event_log() == old(self).event_log(),
            final(self).length_log() == old(self).length_log(),
            final(self).wait_log() == old(self).wait_log(),
    {
        self.clients.push(tx);
    }
}

} // verus!
