//! What a TLS listener does next. It accepts connections and hands on streams
//! that have completed their handshake. Each handshake runs on its own, so one
//! slow or hostile peer does not hold up the connections behind it.

use vstd::prelude::*;

verus! {

/// How many streams may wait to be handed on.
pub const ACCEPT_QUEUE: usize = 64;

/// A peer that connects and then stalls must not keep a task and a place in
/// the queue: after this many seconds its handshake is given up.
pub const HANDSHAKE_TIMEOUT_SECONDS: u64 = 10;

/// The wait after a connection could not be accepted, in seconds.
pub const ACCEPT_RETRY_SECONDS: u64 = 1;

/// What comes first while the listener waits for a connection.
#[derive(Debug)]
pub enum AcceptEvent<C> {
    /// A connection was accepted.
    Accepted(C),
    /// Accepting failed.
    Failed,
    /// Nobody takes the streams any more.
    QueueClosed,
}

/// What the listener does then.
#[derive(Debug)]
pub enum AcceptStep<C> {
    /// Start a handshake on its own, with a time limit, and accept the next
    /// connection.
    Handshake { connection: C, timeout_seconds: u64 },
    /// Wait, so as not to spin on a broken listener, and try again.
    Retry { wait_seconds: u64 },
    /// Accept no more connections.
    Stop,
}

/// What the listener does after an event.
pub open spec fn step_after<C>(event: AcceptEvent<C>) -> AcceptStep<C> {
    match event {
        AcceptEvent::Accepted(connection) => AcceptStep::Handshake {
            connection,
            timeout_seconds: HANDSHAKE_TIMEOUT_SECONDS,
        },
        AcceptEvent::Failed => AcceptStep::Retry { wait_seconds: ACCEPT_RETRY_SECONDS },
        AcceptEvent::QueueClosed => AcceptStep::Stop,
    }
}

/// What the listener does: a failure to accept is never fatal.
pub fn after_accept<C>(event: AcceptEvent<C>) -> (step: AcceptStep<C>)
    ensures
        step == step_after(event),
{
    match event {
        AcceptEvent::Accepted(connection) => AcceptStep::Handshake {
            connection,
            timeout_seconds: HANDSHAKE_TIMEOUT_SECONDS,
        },
        AcceptEvent::Failed => AcceptStep::Retry { wait_seconds: ACCEPT_RETRY_SECONDS },
        AcceptEvent::QueueClosed => AcceptStep::Stop,
    }
}

/// A listener that has started, with the address that it listens on.
#[derive(Debug, Clone, PartialEq, Eq)]
pub struct TlsListener<A> {
    local_addr: A,
}

impl<A> TlsListener<A> {
    /// The address that the listener listens on.
    pub closed spec fn addr(self) -> A {
        self.local_addr
    }

    /// A listener that starts, given the address of its socket. Without an
    /// address it does not start.
    pub fn new<E>(local_addr: Result<A, E>) -> (r: Result<Self, E>)
        ensures
            match local_addr {
                Ok(addr) => r matches Ok(listener) && listener.addr() == addr,
                Err(error) => r == Err::<Self, E>(error),
            },
    {
        match local_addr {
            Ok(local_addr) => Ok(TlsListener { local_addr }),
            Err(error) => Err(error),
        }
    }

    /// The address that the listener listens on: the one it was started with.
    pub fn local_addr(&self) -> (addr: &A)
        ensures
            *addr == self.addr(),
    {
        &self.local_addr
    }
}

/// What the listener does after these events, one after the other: it goes on
/// until it stops.
pub open spec fn steps_after<C>(events: Seq<AcceptEvent<C>>) -> Seq<AcceptStep<C>>
    decreases events.len(),
{
    if events.len() == 0 {
        seq![]
    } else if step_after(events.first()) is Stop {
        seq![step_after(events.first())]
    } else {
        seq![step_after(events.first())] + steps_after(events.drop_first())
    }
}

/// What comes of a listener whose socket gives this address, with these events:
/// the address that it reports and the steps that it takes, or the error of the
/// socket, and no step then.
pub open spec fn listener_run<A, E, C>(
    local_addr: Result<A, E>,
    events: Seq<AcceptEvent<C>>,
) -> Result<(A, Seq<AcceptStep<C>>), E> {
    match local_addr {
        Ok(addr) => Ok((addr, steps_after(events))),
        Err(error) => Err(error),
    }
}

/// The listener answers every event in its turn until the queue is closed.
pub proof fn listener_goes_on_until_the_queue_is_closed<C>(events: Seq<AcceptEvent<C>>)
    ensures
        steps_after(events).len() <= events.len(),
        forall|i: int|
            0 <= i < steps_after(events).len() ==> #[trigger] steps_after(events)[i] == step_after(
                events[i],
            ),
        forall|i: int|
            0 <= i < steps_after(events).len() - 1 ==> !(#[trigger] events[i] is QueueClosed),
        steps_after(events).len() < events.len() ==> steps_after(events).len() > 0
            && events[steps_after(events).len() - 1] is QueueClosed,
    decreases events.len(),
{
    if events.len() > 0 {
        let rest = events.drop_first();
        listener_goes_on_until_the_queue_is_closed(rest);
        let steps = steps_after(events);
        if !(step_after(events.first()) is Stop) {
            assert forall|i: int| 0 <= i < steps.len() implies #[trigger] steps[i] == step_after(
                events[i],
            ) by {
                if i > 0 {
                    assert(steps[i] == steps_after(rest)[i - 1]);
                    assert(events[i] == rest[i - 1]);
                }
            }
            assert forall|i: int| 0 <= i < steps.len() - 1 implies !(
            #[trigger] events[i] is QueueClosed) by {
                if i > 0 {
                    assert(events[i] == rest[i - 1]);
                }
            }
        }
    }
}

/// A listener whose socket has no address reports the error and takes no
/// connection. Any other reports its address, and no failure to accept is fatal:
/// while the queue is open, each event is answered, a failure with one more try
/// after a second, and a connection with a handshake of its own.
pub proof fn started_listener_survives_failures<A, E, C>(
    local_addr: Result<A, E>,
    events: Seq<AcceptEvent<C>>,
)
    requires
        forall|i: int| 0 <= i < events.len() ==> !(#[trigger] events[i] is QueueClosed),
    ensures
        local_addr matches Err(error) ==> listener_run(local_addr, events) == Err::<
            (A, Seq<AcceptStep<C>>),
            E,
        >(error),
        local_addr matches Ok(addr) ==> listener_run(local_addr, events) == Ok::<
            (A, Seq<AcceptStep<C>>),
            E,
        >((addr, steps_after(events))),
        steps_after(events).len() == events.len(),
        forall|i: int|
            0 <= i < events.len() && events[i] is Failed ==> #[trigger] steps_after(events)[i] == (
            AcceptStep::<C>::Retry { wait_seconds: 1 }),
        forall|i: int|
            0 <= i < events.len() && events[i] is Accepted ==> #[trigger] steps_after(events)[i]
                == (AcceptStep::Handshake {
                connection: events[i]->Accepted_0,
                timeout_seconds: 10,
            }),
{
    listener_goes_on_until_the_queue_is_closed(events);
}

/// How a handshake ended.
#[derive(Debug)]
pub enum HandshakeEvent<S> {
    /// It was completed in time.
    Completed(S),
    /// It failed.
    Failed,
    /// It was not over when its time was.
    TimedOut,
}

/// The stream to hand on after a handshake: the one whose handshake was
/// completed in time, and no other.
pub fn after_handshake<S>(event: HandshakeEvent<S>) -> (r: Option<S>)
    ensures
        r == match event {
            HandshakeEvent::Completed(stream) => Some(stream),
            _ => None,
        },
{
    match event {
        HandshakeEvent::Completed(stream) => Some(stream),
        HandshakeEvent::Failed => None,
        HandshakeEvent::TimedOut => None,
    }
}

/// What a call that waits for the next stream does.
#[derive(Debug)]
pub enum ReceiveStep<S> {
    /// Return this stream.
    Return(S),
    /// Wait without end: the caller takes no error, and nothing comes any more.
    Park,
}

/// What a call that waits for the next stream does with what the queue gave;
/// a queue that is closed and empty gives `None`.
pub fn after_receive<S>(received: Option<S>) -> (step: ReceiveStep<S>)
    ensures
        step == match received {
            Some(stream) => ReceiveStep::Return(stream),
            None => ReceiveStep::Park,
        },
{
    match received {
        Some(stream) => ReceiveStep::Return(stream),
        None => ReceiveStep::Park,
    }
}

} // verus!
