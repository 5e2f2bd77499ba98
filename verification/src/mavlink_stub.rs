//! The connection multiplexer: one dispatch loop owns the subscription
//! registry and the liveness record, fans every inbound message out to the
//! subscribers registered for its type tag, and retires one-shot requests
//! after their first delivery.
//!
//! The loop itself — reading the transport, pumping events, writing
//! deliveries into consumers' channels — is I/O and lives with the caller.
//! This module holds the state and the decisions: what one loop iteration
//! does to the registry, to the liveness record, and which deliveries it
//! emits, as a function of the event it processes.

use vstd::prelude::*;

verus! {

/// One decoded unit from the telemetry link. A parameter value travels as
/// its decimal text; the fixed-width wire name is already unpadded.
#[derive(Debug, Clone, PartialEq)]
pub enum Message {
    /// The periodic liveness message.
    Heartbeat,
    /// One parameter's current value, its index, and the declared total.
    ParamValue { name: String, value: String, index: u16, count: u16 },
    /// Ask the vehicle to stream every parameter it holds.
    ParamRequestList,
    /// Set one parameter.
    ParamSet { name: String, value: String },
    /// Any other message, by its wire id.
    Other { id: u32 },
}

/// The type tag of a `Message`: stable, comparable, independent of the
/// payload fields.
#[derive(Debug, Clone, Copy, PartialEq, Eq, Structural, Hash)]
pub enum MavMessageType {
    Heartbeat,
    ParamValue,
    ParamRequestList,
    ParamSet,
    Other { id: u32 },
}

/// The type tag of a message.
pub open spec fn spec_message_type(m: Message) -> MavMessageType {
    match m {
        Message::Heartbeat => MavMessageType::Heartbeat,
        Message::ParamValue { .. } => MavMessageType::ParamValue,
        Message::ParamRequestList => MavMessageType::ParamRequestList,
        Message::ParamSet { .. } => MavMessageType::ParamSet,
        Message::Other { id } => MavMessageType::Other { id },
    }
}

/// Returns the `MavMessageType` of a `Message`.
pub fn message_type(message: &Message) -> (t: MavMessageType)
    ensures
        t == spec_message_type(*message),
{
    match message {
        Message::Heartbeat => MavMessageType::Heartbeat,
        Message::ParamValue { .. } => MavMessageType::ParamValue,
        Message::ParamRequestList => MavMessageType::ParamRequestList,
        Message::ParamSet { .. } => MavMessageType::ParamSet,
        Message::Other { id } => MavMessageType::Other { id: *id },
    }
}

/// Two messages of the same kind carry the same tag, whatever their
/// payload fields hold.
pub proof fn lemma_tag_ignores_payload(m1: Message, m2: Message)
    ensures
        m1 is ParamValue && m2 is ParamValue ==> spec_message_type(m1) == spec_message_type(m2),
        m1 is ParamSet && m2 is ParamSet ==> spec_message_type(m1) == spec_message_type(m2),
        m1 is Heartbeat && m2 is Heartbeat ==> spec_message_type(m1) == spec_message_type(m2),
        m1 is ParamRequestList && m2 is ParamRequestList ==> spec_message_type(m1)
            == spec_message_type(m2),
{
}

impl Message {
    /// An equal copy of the message.
    pub fn duplicate(&self) -> (r: Message)
        ensures
            r == *self,
    {
        match self {
            Message::Heartbeat => Message::Heartbeat,
            Message::ParamValue { name, value, index, count } => Message::ParamValue {
                name: name.clone(),
                value: value.clone(),
                index: *index,
                count: *count,
            },
            Message::ParamRequestList => Message::ParamRequestList,
            Message::ParamSet { name, value } => Message::ParamSet {
                name: name.clone(),
                value: value.clone(),
            },
            Message::Other { id } => Message::Other { id: *id },
        }
    }
}

/// A registered interest in future messages of one type tag. Deliveries go
/// to the consumer-owned channel with this id; a non-recurring subscription
/// (a request) is retired after its first delivery.
#[derive(Debug, Clone, Copy, PartialEq, Eq, Structural)]
pub struct Subscription {
    pub tag: MavMessageType,
    pub channel: u64,
    pub recurring: bool,
}

/// One message handed to one consumer channel.
#[derive(Debug, Clone, PartialEq)]
pub struct Delivery {
    pub channel: u64,
    pub message: Message,
}

/// Why an operation against the multiplexer failed.
#[derive(Debug, Clone, Copy, PartialEq, Eq, Structural)]
pub enum MuxError {
    /// The dispatch loop saw a fatal transport failure; every later
    /// operation fails fast instead of hanging.
    Closed,
    /// No matching reply arrived within the bounded wait.
    TimedOut,
}

impl MuxError {
    /// A short description of the failure.
    pub fn text(&self) -> (r: &'static str)
        ensures
            r@.len() > 0,
            *self is Closed ==> r@ == "connection closed"@,
            *self is TimedOut ==> r@ == "timed out"@,
    {
        let r = match self {
            MuxError::Closed => "connection closed",
            MuxError::TimedOut => "timed out",
        };
        proof {
            reveal_strlit("connection closed");
            reveal_strlit("timed out");
        }
        r
    }
}

/// Whether a subscription stays registered after a message with tag `t` is
/// dispatched while the channels in `closed` are closed: untouched when the
/// tag differs, dropped when its channel is closed or it was one-shot.
pub open spec fn survives(s: Subscription, t: MavMessageType, closed: Seq<u64>) -> bool {
    s.tag != t || (!closed.contains(s.channel) && s.recurring)
}

/// The subscriptions that a message with tag `t` is delivered to, in
/// registration order: those registered for `t` whose channel is open.
pub open spec fn delivered_subs(reg: Seq<Subscription>, t: MavMessageType, closed: Seq<u64>) -> Seq<
    Subscription,
> {
    reg.filter(|s: Subscription| s.tag == t && !closed.contains(s.channel))
}

/// The registry after a message with tag `t` is dispatched.
pub open spec fn registry_after(reg: Seq<Subscription>, t: MavMessageType, closed: Seq<u64>) -> Seq<
    Subscription,
> {
    reg.filter(|s: Subscription| survives(s, t, closed))
}

/// The deliveries that dispatching `m` emits: one copy of `m` per
/// subscription registered for its tag with an open channel, in
/// registration order.
pub open spec fn deliveries_of(reg: Seq<Subscription>, m: Message, closed: Seq<u64>) -> Seq<
    Delivery,
> {
    delivered_subs(reg, spec_message_type(m), closed).map_values(
        |s: Subscription| Delivery { channel: s.channel, message: m },
    )
}

/// Some subscription in `s` delivers to channel `ch`.
pub open spec fn has_channel(s: Seq<Subscription>, ch: u64) -> bool {
    exists|i: int| 0 <= i < s.len() && s[i].channel == ch
}

/// Whether the channel id is in the list of closed channels.
fn contains_channel(closed: &Vec<u64>, ch: u64) -> (r: bool)
    ensures
        r == closed@.contains(ch),
{
    let n = closed.len();
    let mut i: usize = 0;
    while i < n
        invariant
            i <= n == closed@.len(),
            forall|j: int| 0 <= j < i ==> closed@[j] != ch,
        decreases n - i,
    {
        if closed[i] == ch {
            return true;
        }
        i = i + 1;
    }
    false
}

/// One event that the dispatch loop processes: the two merged sources are
/// pending registrations and inbound transport reads.
pub enum Event {
    /// Take the oldest pending registration into the registry.
    Registration,
    /// An inbound message arrived at clock value `now`; the channels in
    /// `closed` have been dropped by their consumers.
    Inbound { message: Message, now: u64, closed: Vec<u64> },
    /// The transport had nothing yet; poll again.
    ReadWouldBlock,
    /// Inbound data that did not decode; discarded silently.
    Garbage,
    /// A fatal transport read failure; the loop ends and every later
    /// operation fails fast.
    ReadError,
}

/// The session layer over one exclusively owned telemetry connection.
///
/// Callers register interest through `subscribe` and `request`, which post
/// control operations; only the dispatch loop moves them into the registry
/// and mutates it, one event per iteration.
pub struct MavlinkConnectionHandler {
    /// Control operations posted by callers, oldest first, not yet
    /// processed by the dispatch loop.
    pub pending: Vec<Subscription>,
    /// The registry: live subscriptions in registration order.
    pub subscriptions: Vec<Subscription>,
    /// Clock value of the most recent heartbeat, if any arrived.
    pub last_heartbeat: Option<u64>,
    /// The next channel id to hand out; ids are never reused.
    pub next_channel: u64,
    /// Set once the dispatch loop hit a fatal transport failure.
    pub failed: bool,
}

impl MavlinkConnectionHandler {
    /// Channel ids are handed out by `next_channel` and never reused, so
    /// every registered or pending channel is below it and no two collide.
    pub open spec fn wf(&self) -> bool {
        &&& forall|i: int|
            0 <= i < self.subscriptions@.len() ==> (#[trigger] self.subscriptions@[i]).channel
                < self.next_channel
        &&& forall|i: int|
            0 <= i < self.pending@.len() ==> (#[trigger] self.pending@[i]).channel
                < self.next_channel
        &&& forall|i: int, j: int|
            0 <= i < j < self.subscriptions@.len() ==> (#[trigger] self.subscriptions@[i]).channel
                != (#[trigger] self.subscriptions@[j]).channel
        &&& forall|i: int, j: int|
            0 <= i < j < self.pending@.len() ==> (#[trigger] self.pending@[i]).channel
                != (#[trigger] self.pending@[j]).channel
        &&& forall|i: int, j: int|
            0 <= i < self.subscriptions@.len() && 0 <= j < self.pending@.len() ==> (
            #[trigger] self.subscriptions@[i]).channel != (#[trigger] self.pending@[j]).channel
    }

    /// A fresh handler: nothing registered, nothing pending, no heartbeat
    /// seen. The transport itself is owned by the caller.
    pub fn new() -> (r: Self)
        ensures
            r.wf(),
            r.pending@ == Seq::<Subscription>::empty(),
            r.subscriptions@ == Seq::<Subscription>::empty(),
            r.last_heartbeat is None,
            r.next_channel == 0,
            !r.failed,
    {
        MavlinkConnectionHandler {
            pending: Vec::new(),
            subscriptions: Vec::new(),
            last_heartbeat: None,
            next_channel: 0,
            failed: false,
        }
    }

    /// Post a recurring subscription for the given type tag and return the
    /// consumer's channel id. The registry itself is only touched by the
    /// dispatch loop when it processes the registration. Fails fast once
    /// the loop has ended.
    pub fn subscribe(&mut self, message_type: MavMessageType) -> (r: Result<u64, MuxError>)
        requires
            old(self).wf(),
            old(self).next_channel < u64::MAX,
        ensures
            final(self).wf(),
            old(self).failed ==> r == Err::<u64, MuxError>(MuxError::Closed)
                && *final(self) == *old(self),
            !old(self).failed ==> {
                &&& r == Ok::<u64, MuxError>(old(self).next_channel)
                &&& final(self).pending@ == old(self).pending@.push(
                    Subscription {
                        tag: message_type,
                        channel: old(self).next_channel,
                        recurring: true,
                    },
                )
                &&& final(self).next_channel == old(self).next_channel + 1
                &&& final(self).subscriptions == old(self).subscriptions
                &&& final(self).last_heartbeat == old(self).last_heartbeat
                &&& !final(self).failed
            },
    {
        self.register(message_type, true)
    }

    /// Post a one-shot request for the given type tag and return the
    /// consumer's channel id; the dispatch loop retires it after its first
    /// delivery. Fails fast once the loop has ended.
    pub fn request(&mut self, message_type: MavMessageType) -> (r: Result<u64, MuxError>)
        requires
            old(self).wf(),
            old(self).next_channel < u64::MAX,
        ensures
            final(self).wf(),
            old(self).failed ==> r == Err::<u64, MuxError>(MuxError::Closed)
                && *final(self) == *old(self),
            !old(self).failed ==> {
                &&& r == Ok::<u64, MuxError>(old(self).next_channel)
                &&& final(self).pending@ == old(self).pending@.push(
                    Subscription {
                        tag: message_type,
                        channel: old(self).next_channel,
                        recurring: false,
                    },
                )
                &&& final(self).next_channel == old(self).next_channel + 1
                &&& final(self).subscriptions == old(self).subscriptions
                &&& final(self).last_heartbeat == old(self).last_heartbeat
                &&& !final(self).failed
            },
    {
        self.register(message_type, false)
    }

    /// Post a registration with a fresh channel id.
    fn register(&mut self, message_type: MavMessageType, recurring: bool) -> (r: Result<
        u64,
        MuxError,
    >)
        requires
            old(self).wf(),
            old(self).next_channel < u64::MAX,
        ensures
            final(self).wf(),
            old(self).failed ==> r == Err::<u64, MuxError>(MuxError::Closed)
                && *final(self) == *old(self),
            !old(self).failed ==> {
                &&& r == Ok::<u64, MuxError>(old(self).next_channel)
                &&& final(self).pending@ == old(self).pending@.push(
                    Subscription {
                        tag: message_type,
                        channel: old(self).next_channel,
                        recurring: recurring,
                    },
                )
                &&& final(self).next_channel == old(self).next_channel + 1
                &&& final(self).subscriptions == old(self).subscriptions
                &&& final(self).last_heartbeat == old(self).last_heartbeat
                &&& !final(self).failed
            },
    {
        if self.failed {
            return Err(MuxError::Closed);
        }
        let channel = self.next_channel;
        self.pending.push(Subscription { tag: message_type, channel, recurring });
        self.next_channel = self.next_channel + 1;
        Ok(channel)
    }

    /// Dispatch-loop rule for a registration event: move the oldest
    /// pending registration into the registry.
    pub fn on_registration(&mut self)
        requires
            old(self).wf(),
            old(self).pending@.len() > 0,
        ensures
            final(self).wf(),
            final(self).subscriptions@ == old(self).subscriptions@.push(old(self).pending@[0]),
            final(self).pending@ == old(self).pending@.drop_first(),
            final(self).last_heartbeat == old(self).last_heartbeat,
            final(self).next_channel == old(self).next_channel,
            final(self).failed == old(self).failed,
    {
        let sub = self.pending.remove(0);
        self.subscriptions.push(sub);
        proof {
            assert(final(self).pending@ =~= old(self).pending@.drop_first());
        }
    }

    /// Dispatch-loop rule for an inbound message: a heartbeat updates the
    /// liveness record and is also fanned out like any other message; every
    /// subscription under the message's tag either gets a delivery (channel
    /// open) or is dropped (channel closed), and a one-shot subscription is
    /// dropped right after its single delivery.
    pub fn on_message(&mut self, message: &Message, now: u64, closed: &Vec<u64>) -> (deliveries:
        Vec<Delivery>)
        requires
            old(self).wf(),
        ensures
            final(self).wf(),
            final(self).subscriptions@ == registry_after(
                old(self).subscriptions@,
                spec_message_type(*message),
                closed@,
            ),
            deliveries@ == deliveries_of(old(self).subscriptions@, *message, closed@),
            final(self).last_heartbeat == if *message is Heartbeat {
                Some(now)
            } else {
                old(self).last_heartbeat
            },
            final(self).pending == old(self).pending,
            final(self).next_channel == old(self).next_channel,
            final(self).failed == old(self).failed,
    {
        let tag = message_type(message);
        let ghost orig = self.subscriptions@;
        let ghost keep_pred = |s: Subscription| survives(s, spec_message_type(*message), closed@);
        let ghost del_pred = |s: Subscription|
            s.tag == spec_message_type(*message) && !closed@.contains(s.channel);
        let mut kept: Vec<Subscription> = Vec::new();
        let mut deliveries: Vec<Delivery> = Vec::new();
        let n = self.subscriptions.len();
        let mut i: usize = 0;
        while i < n
            invariant
                i <= n == orig.len(),
                orig == self.subscriptions@,
                old(self).wf(),
                self.subscriptions == old(self).subscriptions,
                kept@ == orig.take(i as int).filter(keep_pred),
                deliveries@ == orig.take(i as int).filter(del_pred).map_values(
                    |s: Subscription| Delivery { channel: s.channel, message: *message },
                ),
                keep_pred == (|s: Subscription|
                    survives(s, spec_message_type(*message), closed@)),
                del_pred == (|s: Subscription|
                    s.tag == spec_message_type(*message) && !closed@.contains(s.channel)),
                tag == spec_message_type(*message),
            decreases n - i,
        {
            let s = self.subscriptions[i];
            proof {
                assert(orig.take(i + 1) =~= orig.take(i as int) + seq![s]);
                Seq::filter_distributes_over_add(orig.take(i as int), seq![s], keep_pred);
                Seq::filter_distributes_over_add(orig.take(i as int), seq![s], del_pred);
                reveal_with_fuel(Seq::filter, 2);
                assert(seq![s].drop_last() =~= Seq::<Subscription>::empty());
            }
            if s.tag == tag {
                if !contains_channel(closed, s.channel) {
                    deliveries.push(Delivery { channel: s.channel, message: message.duplicate() });
                    proof {
                        assert(deliveries@ =~= orig.take(i + 1).filter(del_pred).map_values(
                            |s2: Subscription| Delivery { channel: s2.channel, message: *message },
                        ));
                    }
                    if s.recurring {
                        kept.push(s);
                    }
                }
            } else {
                kept.push(s);
            }
            i = i + 1;
        }
        proof {
            assert(orig.take(n as int) =~= orig);
        }
        self.subscriptions = kept;
        if message_type(message) == MavMessageType::Heartbeat {
            self.last_heartbeat = Some(now);
        }
        proof {
            lemma_filter_keeps_channels(orig, keep_pred);
            let subs = self.subscriptions@;
            assert forall|i2: int, j2: int| 0 <= i2 < j2 < subs.len() implies (
            #[trigger] subs[i2]).channel != (#[trigger] subs[j2]).channel by {
                lemma_filter_distinct_channels(orig, keep_pred, i2, j2);
            }
            assert forall|i2: int| 0 <= i2 < subs.len() implies (#[trigger] subs[i2]).channel
                < self.next_channel by {
                assert(has_channel(orig, subs[i2].channel));
            }
            assert forall|i2: int, j2: int|
                0 <= i2 < subs.len() && 0 <= j2 < self.pending@.len() implies (
            #[trigger] subs[i2]).channel != (#[trigger] self.pending@[j2]).channel by {
                assert(has_channel(orig, subs[i2].channel));
            }
        }
        deliveries
    }

    /// Dispatch-loop rule for a fatal transport read failure: the loop
    /// ends; pending and future operations fail fast rather than hang.
    pub fn on_transport_error(&mut self)
        requires
            old(self).wf(),
        ensures
            final(self).wf(),
            final(self).failed,
            final(self).subscriptions == old(self).subscriptions,
            final(self).pending == old(self).pending,
            final(self).last_heartbeat == old(self).last_heartbeat,
            final(self).next_channel == old(self).next_channel,
    {
        self.failed = true;
    }

    /// One iteration of the dispatch loop: process exactly one event from
    /// the merged sources, in arrival order, and emit its deliveries.
    pub fn main_loop_step(&mut self, event: Event) -> (deliveries: Vec<Delivery>)
        requires
            old(self).wf(),
        ensures
            final(self).wf(),
            match event {
                Event::Registration => {
                    &&& deliveries@.len() == 0
                    &&& if old(self).pending@.len() > 0 {
                        &&& final(self).subscriptions@ == old(self).subscriptions@.push(
                            old(self).pending@[0],
                        )
                        &&& final(self).pending@ == old(self).pending@.drop_first()
                        &&& final(self).last_heartbeat == old(self).last_heartbeat
                        &&& final(self).failed == old(self).failed
                        &&& final(self).next_channel == old(self).next_channel
                    } else {
                        *final(self) == *old(self)
                    }
                },
                Event::Inbound { message, now, closed } => {
                    &&& final(self).subscriptions@ == registry_after(
                        old(self).subscriptions@,
                        spec_message_type(message),
                        closed@,
                    )
                    &&& deliveries@ == deliveries_of(old(self).subscriptions@, message, closed@)
                    &&& final(self).last_heartbeat == if message is Heartbeat {
                        Some(now)
                    } else {
                        old(self).last_heartbeat
                    }
                    &&& final(self).pending == old(self).pending
                    &&& final(self).next_channel == old(self).next_channel
                    &&& final(self).failed == old(self).failed
                },
                Event::ReadWouldBlock => *final(self) == *old(self) && deliveries@.len() == 0,
                Event::Garbage => *final(self) == *old(self) && deliveries@.len() == 0,
                Event::ReadError => {
                    &&& deliveries@.len() == 0
                    &&& final(self).failed
                    &&& final(self).subscriptions == old(self).subscriptions
                    &&& final(self).pending == old(self).pending
                    &&& final(self).last_heartbeat == old(self).last_heartbeat
                    &&& final(self).next_channel == old(self).next_channel
                },
            },
    {
        match event {
            Event::Registration => {
                if self.pending.len() > 0 {
                    self.on_registration();
                }
                Vec::new()
            },
            Event::Inbound { message, now, closed } => self.on_message(&message, now, &closed),
            Event::ReadWouldBlock => Vec::new(),
            Event::Garbage => Vec::new(),
            Event::ReadError => {
                self.on_transport_error();
                Vec::new()
            },
        }
    }

    /// Hand a message to the transport: the returned message is the exact
    /// value for the caller's transport write. Fails fast once the
    /// dispatch loop has ended.
    pub fn send(&self, message: &Message) -> (r: Result<Message, MuxError>)
        ensures
            self.failed ==> r == Err::<Message, MuxError>(MuxError::Closed),
            !self.failed ==> r == Ok::<Message, MuxError>(*message),
    {
        if self.failed {
            Err(MuxError::Closed)
        } else {
            Ok(message.duplicate())
        }
    }

    /// Like `send`, for callers that use the default addressing header;
    /// the header is the codec's concern, so the message is the same.
    pub fn send_default(&self, message: &Message) -> (r: Result<Message, MuxError>)
        ensures
            self.failed ==> r == Err::<Message, MuxError>(MuxError::Closed),
            !self.failed ==> r == Ok::<Message, MuxError>(*message),
    {
        self.send(message)
    }

    /// The clock value of the most recent heartbeat, if any arrived.
    pub fn last_heartbeat(&self) -> (r: Option<u64>)
        ensures
            r == self.last_heartbeat,
    {
        self.last_heartbeat
    }

    /// Start a liveness check: register a one-shot request for the
    /// heartbeat tag and race it against a timer of `ttl`, starting at
    /// clock value `now`. The caller feeds deliveries and clock readings
    /// to the returned probe; this is a passive check and does not provoke
    /// the vehicle to send anything.
    pub fn is_alive(&mut self, now: u64, ttl: u64) -> (r: Result<LivenessProbe, MuxError>)
        requires
            old(self).wf(),
            old(self).next_channel < u64::MAX,
            now + ttl <= u64::MAX,
        ensures
            final(self).wf(),
            old(self).failed ==> r == Err::<LivenessProbe, MuxError>(MuxError::Closed)
                && *final(self) == *old(self),
            !old(self).failed ==> {
                &&& r matches Ok(p) && p.channel == old(self).next_channel && p.deadline == now
                    + ttl
                &&& final(self).pending@ == old(self).pending@.push(
                    Subscription {
                        tag: MavMessageType::Heartbeat,
                        channel: old(self).next_channel,
                        recurring: false,
                    },
                )
                &&& final(self).next_channel == old(self).next_channel + 1
                &&& final(self).subscriptions == old(self).subscriptions
                &&& final(self).last_heartbeat == old(self).last_heartbeat
                &&& !final(self).failed
            },
    {
        match self.request(MavMessageType::Heartbeat) {
            Ok(channel) => Ok(LivenessProbe { channel, deadline: now + ttl }),
            Err(e) => Err(e),
        }
    }
}

/// A pending liveness check: a one-shot heartbeat request racing a timer.
#[derive(Debug, Clone, Copy, PartialEq, Eq, Structural)]
pub struct LivenessProbe {
    /// The channel of the registered one-shot heartbeat request.
    pub channel: u64,
    /// The clock value at which the timer wins.
    pub deadline: u64,
}

impl LivenessProbe {
    /// The verdict of the race, polled at clock value `now` with the
    /// delivery just received, if any: a delivery on the probe's channel
    /// wins (alive); otherwise a clock at or past the deadline loses (not
    /// alive); otherwise the race is still open.
    pub fn poll(&self, now: u64, delivery: Option<&Delivery>) -> (r: Option<bool>)
        ensures
            match delivery {
                Some(d) if d.channel == self.channel => r == Some(true),
                _ => r == if now >= self.deadline {
                    Some(false)
                } else {
                    None::<bool>
                },
            },
    {
        match delivery {
            Some(d) if d.channel == self.channel => Some(true),
            _ => {
                if now >= self.deadline {
                    Some(false)
                } else {
                    None
                }
            },
        }
    }
}

/// One inbound step of a run: the message that arrived and which channels
/// its consumers had dropped by then.
pub struct InboundEvent {
    pub message: Message,
    pub closed: Seq<u64>,
}

/// The registry after a run of inbound events, processed in order.
pub open spec fn run_registry(reg: Seq<Subscription>, events: Seq<InboundEvent>) -> Seq<
    Subscription,
>
    decreases events.len(),
{
    if events.len() == 0 {
        reg
    } else {
        run_registry(
            registry_after(reg, spec_message_type(events[0].message), events[0].closed),
            events.drop_first(),
        )
    }
}

/// Every delivery that a run of inbound events emits, in order.
pub open spec fn run_deliveries(reg: Seq<Subscription>, events: Seq<InboundEvent>) -> Seq<Delivery>
    decreases events.len(),
{
    if events.len() == 0 {
        Seq::empty()
    } else {
        deliveries_of(reg, events[0].message, events[0].closed) + run_deliveries(
            registry_after(reg, spec_message_type(events[0].message), events[0].closed),
            events.drop_first(),
        )
    }
}

/// The messages delivered to one channel, in order.
pub open spec fn to_channel(ds: Seq<Delivery>, ch: u64) -> Seq<Message> {
    ds.filter(|d: Delivery| d.channel == ch).map_values(|d: Delivery| d.message)
}

/// The messages of a run that carry the given tag, in arrival order.
pub open spec fn matching(events: Seq<InboundEvent>, t: MavMessageType) -> Seq<Message> {
    events.map_values(|e: InboundEvent| e.message).filter(
        |m: Message| spec_message_type(m) == t,
    )
}

/// No two subscriptions share a delivery channel (the handler's
/// well-formedness gives this for its registry).
pub open spec fn distinct_channels(reg: Seq<Subscription>) -> bool {
    forall|i: int, j: int|
        0 <= i < j < reg.len() ==> (#[trigger] reg[i]).channel != (#[trigger] reg[j]).channel
}

/// Dispatching a message with tag `t` delivers to channel `ch` exactly
/// when some subscription under `t` owns that channel and it is open.
pub open spec fn would_deliver(
    reg: Seq<Subscription>,
    t: MavMessageType,
    closed: Seq<u64>,
    ch: u64,
) -> bool {
    exists|i: int|
        0 <= i < reg.len() && (#[trigger] reg[i]).channel == ch && reg[i].tag == t
            && !closed.contains(ch)
}

/// Every element of a filtered sequence is an element of the original.
proof fn lemma_filter_is_subset<A>(s: Seq<A>, pred: spec_fn(A) -> bool)
    ensures
        forall|i: int| 0 <= i < s.filter(pred).len() ==> s.contains(#[trigger] s.filter(pred)[i]),
    decreases s.len(),
{
    reveal(Seq::filter);
    if s.len() > 0 {
        lemma_filter_is_subset(s.drop_last(), pred);
        assert forall|i: int| 0 <= i < s.filter(pred).len() implies s.contains(
            #[trigger] s.filter(pred)[i],
        ) by {
            let f = s.filter(pred);
            let fd = s.drop_last().filter(pred);
            if pred(s.last()) && i == f.len() - 1 {
                assert(s[s.len() - 1] == f[i]);
            } else {
                assert(f[i] == fd[i]);
                assert(s.drop_last().contains(fd[i]));
                let j = choose|j: int| 0 <= j < s.drop_last().len() && s.drop_last()[j] == fd[i];
                assert(s[j] == fd[i]);
            }
        }
    }
}

/// Filtering by a predicate that no element meets gives nothing.
proof fn lemma_filter_of_none<A>(s: Seq<A>, pred: spec_fn(A) -> bool)
    requires
        forall|i: int| 0 <= i < s.len() ==> !pred(#[trigger] s[i]),
    ensures
        s.filter(pred) == Seq::<A>::empty(),
{
    broadcast use vstd::seq_lib::group_filter_ensures;

    lemma_filter_is_subset(s, pred);
    if s.filter(pred).len() > 0 {
        let x = s.filter(pred)[0];
        assert(pred(x));
        assert(s.contains(x));
        let j = choose|j: int| 0 <= j < s.len() && s[j] == x;
        assert(false);
    }
    assert(s.filter(pred) =~= Seq::<A>::empty());
}

/// Delivery to one channel splits over concatenation.
proof fn lemma_to_channel_add(a: Seq<Delivery>, b: Seq<Delivery>, ch: u64)
    ensures
        to_channel(a + b, ch) == to_channel(a, ch) + to_channel(b, ch),
{
    let pred = |d: Delivery| d.channel == ch;
    let f = |d: Delivery| d.message;
    Seq::filter_distributes_over_add(a, b, pred);
    assert((a.filter(pred) + b.filter(pred)).map_values(f) =~= a.filter(pred).map_values(f)
        + b.filter(pred).map_values(f));
}

/// What one dispatch delivers to one channel: the message exactly once if
/// an open subscription under the message's tag owns the channel, nothing
/// otherwise.
proof fn lemma_dispatch_to_channel(reg: Seq<Subscription>, m: Message, closed: Seq<u64>, ch: u64)
    requires
        distinct_channels(reg),
    ensures
        to_channel(deliveries_of(reg, m, closed), ch) == (if would_deliver(
            reg,
            spec_message_type(m),
            closed,
            ch,
        ) {
            seq![m]
        } else {
            Seq::<Message>::empty()
        }),
    decreases reg.len(),
{
    reveal(Seq::filter);
    let t = spec_message_type(m);
    let delpred = |s: Subscription| s.tag == t && !closed.contains(s.channel);
    let mk = |s: Subscription| Delivery { channel: s.channel, message: m };
    let chpred = |d: Delivery| d.channel == ch;
    let f = |d: Delivery| d.message;
    if reg.len() == 0 {
        assert(reg.filter(delpred) =~= Seq::<Subscription>::empty());
        assert(to_channel(deliveries_of(reg, m, closed), ch) =~= Seq::<Message>::empty());
    } else {
        let front = reg.drop_last();
        let last = reg.last();
        lemma_dispatch_to_channel(front, m, closed, ch);
        assert(reg.filter(delpred) == if delpred(last) {
            front.filter(delpred).push(last)
        } else {
            front.filter(delpred)
        });
        if delpred(last) {
            assert(reg.filter(delpred).map_values(mk) =~= front.filter(delpred).map_values(
                mk,
            ).push(mk(last)));
            lemma_to_channel_add_push(front.filter(delpred).map_values(mk), mk(last), ch);
            if last.channel == ch {
                // nothing in front owns this channel
                assert(!would_deliver(front, t, closed, ch)) by {
                    if would_deliver(front, t, closed, ch) {
                        let i = choose|i: int|
                            0 <= i < front.len() && (#[trigger] front[i]).channel == ch
                                && front[i].tag == t && !closed.contains(ch);
                        assert(reg[i].channel == reg[reg.len() - 1].channel);
                    }
                }
                assert(would_deliver(reg, t, closed, ch)) by {
                    assert(reg[reg.len() - 1].channel == ch && reg[reg.len() - 1].tag == t);
                }
                assert(to_channel(deliveries_of(reg, m, closed), ch) =~= seq![m]);
            } else {
                assert(to_channel(deliveries_of(reg, m, closed), ch) == to_channel(
                    deliveries_of(front, m, closed),
                    ch,
                ));
                assert(would_deliver(reg, t, closed, ch) == would_deliver(front, t, closed, ch))
                    by {
                    if would_deliver(reg, t, closed, ch) {
                        let i = choose|i: int|
                            0 <= i < reg.len() && (#[trigger] reg[i]).channel == ch && reg[i].tag
                                == t && !closed.contains(ch);
                        assert(i < front.len() && front[i] == reg[i]);
                    }
                    if would_deliver(front, t, closed, ch) {
                        let i = choose|i: int|
                            0 <= i < front.len() && (#[trigger] front[i]).channel == ch
                                && front[i].tag == t && !closed.contains(ch);
                        assert(reg[i] == front[i]);
                    }
                }
            }
        } else {
            assert(reg.filter(delpred).map_values(mk) =~= front.filter(delpred).map_values(mk));
            assert(would_deliver(reg, t, closed, ch) == would_deliver(front, t, closed, ch)) by {
                if would_deliver(reg, t, closed, ch) {
                    let i = choose|i: int|
                        0 <= i < reg.len() && (#[trigger] reg[i]).channel == ch && reg[i].tag == t
                            && !closed.contains(ch);
                    assert(i != reg.len() - 1);
                    assert(i < front.len() && front[i] == reg[i]);
                }
                if would_deliver(front, t, closed, ch) {
                    let i = choose|i: int|
                        0 <= i < front.len() && (#[trigger] front[i]).channel == ch && front[i].tag
                            == t && !closed.contains(ch);
                    assert(reg[i] == front[i]);
                }
            }
        }
    }
}

/// Delivery to one channel, one delivery appended.
proof fn lemma_to_channel_add_push(ds: Seq<Delivery>, d: Delivery, ch: u64)
    ensures
        to_channel(ds.push(d), ch) == (if d.channel == ch {
            to_channel(ds, ch).push(d.message)
        } else {
            to_channel(ds, ch)
        }),
{
    reveal(Seq::filter);
    let chpred = |d2: Delivery| d2.channel == ch;
    let f = |d2: Delivery| d2.message;
    assert(ds.push(d).drop_last() =~= ds);
    assert(ds.push(d).last() == d);
    if d.channel == ch {
        assert(ds.push(d).filter(chpred) == ds.filter(chpred).push(d));
        assert(ds.filter(chpred).push(d).map_values(f) =~= ds.filter(chpred).map_values(f).push(
            d.message,
        ));
    }
}

/// Which channels the registry still serves after one dispatch.
proof fn lemma_registry_after_channel(
    reg: Seq<Subscription>,
    t: MavMessageType,
    closed: Seq<u64>,
    ch: u64,
)
    ensures
        has_channel(registry_after(reg, t, closed), ch) == exists|i: int|
            0 <= i < reg.len() && (#[trigger] reg[i]).channel == ch && survives(
                reg[i],
                t,
                closed,
            ),
{
    broadcast use vstd::seq_lib::group_filter_ensures;

    let keep = |s: Subscription| survives(s, t, closed);
    let ra = reg.filter(keep);
    lemma_filter_is_subset(reg, keep);
    if has_channel(ra, ch) {
        let i = choose|i: int| 0 <= i < ra.len() && ra[i].channel == ch;
        assert(reg.contains(ra[i]));
        assert(keep(ra[i]));
        let j = choose|j: int| 0 <= j < reg.len() && reg[j] == ra[i];
        assert(reg[j].channel == ch && survives(reg[j], t, closed));
    }
    if exists|i: int|
        0 <= i < reg.len() && (#[trigger] reg[i]).channel == ch && survives(reg[i], t, closed) {
        let i = choose|i: int|
            0 <= i < reg.len() && (#[trigger] reg[i]).channel == ch && survives(reg[i], t, closed);
        assert(ra.contains(reg[i]));
        let j = choose|j: int| 0 <= j < ra.len() && ra[j] == reg[i];
        assert(ra[j].channel == ch);
    }
}

/// A channel the registry does not serve gets nothing from a whole run,
/// and is not served afterwards either.
proof fn lemma_run_silent(reg: Seq<Subscription>, events: Seq<InboundEvent>, ch: u64)
    requires
        !has_channel(reg, ch),
    ensures
        to_channel(run_deliveries(reg, events), ch) == Seq::<Message>::empty(),
        !has_channel(run_registry(reg, events), ch),
    decreases events.len(),
{
    broadcast use vstd::seq_lib::group_filter_ensures;

    if events.len() == 0 {
        assert(to_channel(run_deliveries(reg, events), ch) =~= Seq::<Message>::empty());
    } else {
        let e0 = events[0];
        let t = spec_message_type(e0.message);
        let reg1 = registry_after(reg, t, e0.closed);
        // no delivery in the first step
        let delpred = |s: Subscription| s.tag == t && !e0.closed.contains(s.channel);
        let mk = |s: Subscription| Delivery { channel: s.channel, message: e0.message };
        let mapped = reg.filter(delpred).map_values(mk);
        lemma_filter_is_subset(reg, delpred);
        assert forall|i: int| 0 <= i < mapped.len() implies !(#[trigger] mapped[i].channel
            == ch) by {
            assert(reg.contains(reg.filter(delpred)[i]));
            let j = choose|j: int| 0 <= j < reg.len() && reg[j] == reg.filter(delpred)[i];
            assert(reg[j].channel == mapped[i].channel);
        }
        lemma_filter_of_none(mapped, |d: Delivery| d.channel == ch);
        assert(to_channel(deliveries_of(reg, e0.message, e0.closed), ch) =~= Seq::<
            Message,
        >::empty());
        // the channel stays unserved
        lemma_registry_after_channel(reg, t, e0.closed, ch);
        lemma_run_silent(reg1, events.drop_first(), ch);
        lemma_to_channel_add(
            deliveries_of(reg, e0.message, e0.closed),
            run_deliveries(reg1, events.drop_first()),
            ch,
        );
        assert(to_channel(run_deliveries(reg, events), ch) =~= Seq::<Message>::empty());
    }
}

/// The matching messages of a run, one event peeled off the front.
proof fn lemma_matching_unfold(events: Seq<InboundEvent>, t: MavMessageType)
    requires
        events.len() > 0,
    ensures
        matching(events, t) == (if spec_message_type(events[0].message) == t {
            seq![events[0].message]
        } else {
            Seq::<Message>::empty()
        }) + matching(events.drop_first(), t),
{
    reveal_with_fuel(Seq::filter, 2);
    let f = |e: InboundEvent| e.message;
    let pred = |m: Message| spec_message_type(m) == t;
    assert(events.map_values(f) =~= seq![events[0].message] + events.drop_first().map_values(f));
    Seq::filter_distributes_over_add(
        seq![events[0].message],
        events.drop_first().map_values(f),
        pred,
    );
    assert(seq![events[0].message].drop_last() =~= Seq::<Message>::empty());
    if pred(events[0].message) {
        assert(seq![events[0].message].filter(pred) =~= seq![events[0].message]);
    } else {
        assert(seq![events[0].message].filter(pred) =~= Seq::<Message>::empty());
    }
}

/// One dispatch keeps distinct channels distinct.
proof fn lemma_registry_after_distinct(reg: Seq<Subscription>, t: MavMessageType, closed: Seq<u64>)
    requires
        distinct_channels(reg),
    ensures
        distinct_channels(registry_after(reg, t, closed)),
{
    let ra = registry_after(reg, t, closed);
    assert forall|i: int, j: int| 0 <= i < j < ra.len() implies (#[trigger] ra[i]).channel != (
    #[trigger] ra[j]).channel by {
        lemma_filter_distinct_channels(reg, |s: Subscription| survives(s, t, closed), i, j);
    }
}

/// A well-formed handler's registry satisfies the laws' hypothesis: no
/// two of its subscriptions share a channel.
pub proof fn lemma_wf_registry_distinct(h: MavlinkConnectionHandler)
    requires
        h.wf(),
    ensures
        distinct_channels(h.subscriptions@),
{
}

/// Law: a recurring subscriber receives every message of its tag that
/// arrives after its registration, in arrival order, for as long as its
/// channel stays open — and it stays registered the whole run.
pub proof fn lemma_recurring_receives_all(
    reg: Seq<Subscription>,
    events: Seq<InboundEvent>,
    sub: Subscription,
)
    requires
        distinct_channels(reg),
        reg.contains(sub),
        sub.recurring,
        forall|k: int|
            0 <= k < events.len() ==> !(#[trigger] events[k]).closed.contains(sub.channel),
    ensures
        to_channel(run_deliveries(reg, events), sub.channel) == matching(events, sub.tag),
        run_registry(reg, events).contains(sub),
        distinct_channels(run_registry(reg, events)),
    decreases events.len(),
{
    broadcast use vstd::seq_lib::group_filter_ensures;

    reveal(Seq::filter);
    if events.len() == 0 {
        assert(to_channel(run_deliveries(reg, events), sub.channel) =~= Seq::<Message>::empty());
        assert(matching(events, sub.tag) =~= Seq::<Message>::empty()) by {
            assert(events.map_values(|e: InboundEvent| e.message) =~= Seq::<Message>::empty());
        }
    } else {
        let e0 = events[0];
        let t0 = spec_message_type(e0.message);
        let ch = sub.channel;
        let reg1 = registry_after(reg, t0, e0.closed);
        let rest = events.drop_first();
        let j = choose|j: int| 0 <= j < reg.len() && reg[j] == sub;
        assert(!e0.closed.contains(ch));
        assert(survives(sub, t0, e0.closed));
        assert(reg1.contains(reg[j]));
        lemma_registry_after_distinct(reg, t0, e0.closed);
        assert forall|k: int| 0 <= k < rest.len() implies !(#[trigger] rest[k]).closed.contains(
            ch,
        ) by {
            assert(rest[k] == events[k + 1]);
        }
        lemma_recurring_receives_all(reg1, rest, sub);
        lemma_dispatch_to_channel(reg, e0.message, e0.closed, ch);
        assert(would_deliver(reg, t0, e0.closed, ch) == (sub.tag == t0)) by {
            if sub.tag == t0 {
                assert(reg[j].channel == ch && reg[j].tag == t0);
            }
            if would_deliver(reg, t0, e0.closed, ch) {
                let i = choose|i: int|
                    0 <= i < reg.len() && (#[trigger] reg[i]).channel == ch && reg[i].tag == t0
                        && !e0.closed.contains(ch);
                assert(i == j);
            }
        }
        lemma_to_channel_add(
            deliveries_of(reg, e0.message, e0.closed),
            run_deliveries(reg1, rest),
            ch,
        );
        lemma_matching_unfold(events, sub.tag);
    }
}

/// Law: a one-shot request resolves with the first matching message, and
/// that single delivery retires it — nothing reaches its channel again.
/// With no matching message in the run it stays registered and receives
/// nothing.
pub proof fn lemma_request_delivered_once(
    reg: Seq<Subscription>,
    events: Seq<InboundEvent>,
    sub: Subscription,
)
    requires
        distinct_channels(reg),
        reg.contains(sub),
        !sub.recurring,
        forall|k: int|
            0 <= k < events.len() ==> !(#[trigger] events[k]).closed.contains(sub.channel),
    ensures
        matching(events, sub.tag).len() == 0 ==> to_channel(run_deliveries(reg, events), sub.channel)
            == Seq::<Message>::empty() && run_registry(reg, events).contains(sub),
        matching(events, sub.tag).len() > 0 ==> to_channel(run_deliveries(reg, events), sub.channel)
            == seq![matching(events, sub.tag)[0]] && !has_channel(
            run_registry(reg, events),
            sub.channel,
        ),
    decreases events.len(),
{
    broadcast use vstd::seq_lib::group_filter_ensures;

    reveal(Seq::filter);
    if events.len() == 0 {
        assert(to_channel(run_deliveries(reg, events), sub.channel) =~= Seq::<Message>::empty());
        assert(matching(events, sub.tag) =~= Seq::<Message>::empty()) by {
            assert(events.map_values(|e: InboundEvent| e.message) =~= Seq::<Message>::empty());
        }
    } else {
        let e0 = events[0];
        let t0 = spec_message_type(e0.message);
        let ch = sub.channel;
        let reg1 = registry_after(reg, t0, e0.closed);
        let rest = events.drop_first();
        let j = choose|j: int| 0 <= j < reg.len() && reg[j] == sub;
        lemma_dispatch_to_channel(reg, e0.message, e0.closed, ch);
        lemma_to_channel_add(
            deliveries_of(reg, e0.message, e0.closed),
            run_deliveries(reg1, rest),
            ch,
        );
        lemma_matching_unfold(events, sub.tag);
        if sub.tag == t0 {
            // the first matching message: delivered once, and the
            // subscription is dropped right after
            assert(would_deliver(reg, t0, e0.closed, ch)) by {
                assert(reg[j].channel == ch && reg[j].tag == t0);
            }
            assert(!has_channel(reg1, ch)) by {
                lemma_registry_after_channel(reg, t0, e0.closed, ch);
                if exists|i: int|
                    0 <= i < reg.len() && (#[trigger] reg[i]).channel == ch && survives(
                        reg[i],
                        t0,
                        e0.closed,
                    ) {
                    let i = choose|i: int|
                        0 <= i < reg.len() && (#[trigger] reg[i]).channel == ch && survives(
                            reg[i],
                            t0,
                            e0.closed,
                        );
                    assert(i == j);
                }
            }
            lemma_run_silent(reg1, rest, ch);
            assert(to_channel(run_deliveries(reg, events), ch) =~= seq![e0.message]);
            assert(matching(events, sub.tag)[0] == e0.message);
        } else {
            // not for this subscription: it survives untouched
            assert(!would_deliver(reg, t0, e0.closed, ch)) by {
                if would_deliver(reg, t0, e0.closed, ch) {
                    let i = choose|i: int|
                        0 <= i < reg.len() && (#[trigger] reg[i]).channel == ch && reg[i].tag == t0
                            && !e0.closed.contains(ch);
                    assert(i == j);
                }
            }
            assert(survives(sub, t0, e0.closed));
            assert(reg1.contains(reg[j]));
            lemma_registry_after_distinct(reg, t0, e0.closed);
            assert forall|k: int| 0 <= k < rest.len() implies !(
            #[trigger] rest[k]).closed.contains(ch) by {
                assert(rest[k] == events[k + 1]);
            }
            lemma_request_delivered_once(reg1, rest, sub);
            assert(matching(events, sub.tag) =~= matching(rest, sub.tag));
            assert(to_channel(run_deliveries(reg, events), ch) =~= to_channel(
                run_deliveries(reg1, rest),
                ch,
            ));
        }
    }
}

/// Law: a channel whose consumer has dropped it receives nothing — from
/// the step its closure is seen onward, no message is delivered to it.
pub proof fn lemma_closed_receives_nothing(
    reg: Seq<Subscription>,
    events: Seq<InboundEvent>,
    ch: u64,
)
    requires
        forall|k: int| 0 <= k < events.len() ==> (#[trigger] events[k]).closed.contains(ch),
    ensures
        to_channel(run_deliveries(reg, events), ch) == Seq::<Message>::empty(),
    decreases events.len(),
{
    broadcast use vstd::seq_lib::group_filter_ensures;

    reveal(Seq::filter);
    if events.len() == 0 {
        assert(to_channel(run_deliveries(reg, events), ch) =~= Seq::<Message>::empty());
    } else {
        let e0 = events[0];
        let t0 = spec_message_type(e0.message);
        let reg1 = registry_after(reg, t0, e0.closed);
        let rest = events.drop_first();
        // no delivery in the first step: its closed set holds the channel
        let delpred = |s: Subscription| s.tag == t0 && !e0.closed.contains(s.channel);
        let mk = |s: Subscription| Delivery { channel: s.channel, message: e0.message };
        let mapped = reg.filter(delpred).map_values(mk);
        assert forall|i: int| 0 <= i < mapped.len() implies !(#[trigger] mapped[i].channel
            == ch) by {
            assert(delpred(reg.filter(delpred)[i]));
        }
        lemma_filter_of_none(mapped, |d: Delivery| d.channel == ch);
        assert(to_channel(deliveries_of(reg, e0.message, e0.closed), ch) =~= Seq::<
            Message,
        >::empty());
        assert forall|k: int| 0 <= k < rest.len() implies (#[trigger] rest[k]).closed.contains(
            ch,
        ) by {
            assert(rest[k] == events[k + 1]);
        }
        lemma_closed_receives_nothing(reg1, rest, ch);
        lemma_to_channel_add(
            deliveries_of(reg, e0.message, e0.closed),
            run_deliveries(reg1, rest),
            ch,
        );
        assert(to_channel(run_deliveries(reg, events), ch) =~= Seq::<Message>::empty());
    }
}

/// Every channel in a filtered registry was a channel of the registry.
proof fn lemma_filter_keeps_channels(reg: Seq<Subscription>, pred: spec_fn(Subscription) -> bool)
    ensures
        forall|i: int|
            0 <= i < reg.filter(pred).len() ==> has_channel(
                reg,
                (#[trigger] reg.filter(pred)[i]).channel,
            ),
    decreases reg.len(),
{
    reveal(Seq::filter);
    if reg.len() > 0 {
        lemma_filter_keeps_channels(reg.drop_last(), pred);
        assert forall|i: int| 0 <= i < reg.filter(pred).len() implies has_channel(
            reg,
            (#[trigger] reg.filter(pred)[i]).channel,
        ) by {
            let f = reg.filter(pred);
            let fd = reg.drop_last().filter(pred);
            if pred(reg.last()) && i == f.len() - 1 {
                assert(reg[reg.len() - 1].channel == f[i].channel);
            } else {
                assert(f[i] == fd[i]);
                assert(has_channel(reg.drop_last(), fd[i].channel));
                let j = choose|j: int|
                    0 <= j < reg.drop_last().len() && reg.drop_last()[j].channel == fd[i].channel;
                assert(reg[j].channel == fd[i].channel);
            }
        }
    }
}

/// A filtered registry keeps pairwise-distinct channels distinct.
proof fn lemma_filter_distinct_channels(
    reg: Seq<Subscription>,
    pred: spec_fn(Subscription) -> bool,
    i: int,
    j: int,
)
    requires
        forall|a: int, b: int|
            0 <= a < b < reg.len() ==> (#[trigger] reg[a]).channel != (#[trigger] reg[b]).channel,
        0 <= i < j < reg.filter(pred).len(),
    ensures
        reg.filter(pred)[i].channel != reg.filter(pred)[j].channel,
    decreases reg.len(),
{
    reveal(Seq::filter);
    if reg.len() > 0 {
        let f = reg.filter(pred);
        let fd = reg.drop_last().filter(pred);
        if pred(reg.last()) && j == f.len() - 1 {
            // f[j] is reg.last(); f[i] comes from the front of reg
            lemma_filter_keeps_channels(reg.drop_last(), pred);
            assert(f[i] == fd[i]);
            let k = choose|k: int|
                0 <= k < reg.drop_last().len() && reg.drop_last()[k].channel == fd[i].channel;
            assert(reg[k].channel == fd[i].channel);
            assert(reg[k].channel != reg[reg.len() - 1].channel);
        } else {
            assert(f[i] == fd[i] && f[j] == fd[j]);
            lemma_filter_distinct_channels(reg.drop_last(), pred, i, j);
        }
    }
}

} // verus!
