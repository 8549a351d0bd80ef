//! The bus that the components talk over: whatever one of them sends reaches all of them.

use crate::formats::event_views;
use crate::formats::Event;
use crate::formats::EventView;
use crossbeam::channel::unbounded;
use crossbeam::channel::Receiver;
use crossbeam::channel::Sender;
use vstd::prelude::*;

verus! {

/// `crossbeam::channel::Sender`, the sending end of a channel.
#[verifier::external_type_specification]
#[verifier::external_body]
#[verifier::reject_recursive_types(T)]
pub struct ExSender<T>(crossbeam::channel::Sender<T>);

/// `crossbeam::channel::Receiver`, the receiving end of a channel.
#[verifier::external_type_specification]
#[verifier::external_body]
#[verifier::reject_recursive_types(T)]
pub struct ExReceiver<T>(crossbeam::channel::Receiver<T>);

/// The channel that a sender feeds.
pub uninterp spec fn sender_channel(sender: Sender<Event>) -> nat;

/// The channel that a receiver drains.
pub uninterp spec fn receiver_channel(receiver: Receiver<Event>) -> nat;

/// The events that were put into the channel through this sender, in order. A clone starts
/// with those of the sender that it was made from.
pub uninterp spec fn put_through(sender: Sender<Event>) -> Seq<EventView>;

/// The events that were taken out of the channel through this receiver, in order. A clone
/// starts with those of the receiver that it was made from.
pub uninterp spec fn taken_through(receiver: Receiver<Event>) -> Seq<EventView>;

/// Some call of `Sender::send` on this channel handed this event back. Whether one does
/// depends on whether a receiver is left at that moment, so an event that was refused once may
/// have been delivered before.
pub uninterp spec fn send_refused(channel: nat, ev: EventView) -> bool;

/// Some call of `Sender::send` on this channel put this event into it.
pub uninterp spec fn was_put(channel: nat, ev: EventView) -> bool;

/// Some call of `Receiver::recv` on this channel came back with this event.
pub uninterp spec fn recv_gave(channel: nat, ev: EventView) -> bool;

/// Some call of `Receiver::recv` on this channel came back without an event.
pub uninterp spec fn recv_ended(channel: nat) -> bool;

/// Some walk over `Receiver::try_iter` on this channel gave these events, and then no more.
pub uninterp spec fn drained(channel: nat, evs: Seq<EventView>) -> bool;

/// This event came out of the channel, and had been put into it.
pub open spec fn received(channel: nat, ev: EventView) -> bool {
    recv_gave(channel, ev) && was_put(channel, ev)
}

/// These events are what was found in the channel, all at once, and had been put into it.
pub open spec fn came_in(channel: nat, evs: Seq<EventView>) -> bool {
    &&& drained(channel, evs)
    &&& forall|i: int| 0 <= i < evs.len() ==> was_put(channel, #[trigger] evs[i])
}

/// The mathematical value of a sender.
#[verifier::ext_equal]
pub struct OutboxView {
    /// The channel that is fed.
    pub channel: nat,
    /// What was put into it, in order.
    pub put: Seq<EventView>,
}

/// The mathematical value of a receiver.
#[verifier::ext_equal]
pub struct InboxView {
    /// The channel that is drained.
    pub channel: nat,
    /// What was taken out of it, in order.
    pub taken: Seq<EventView>,
}

impl OutboxView {
    /// The same sender after these events were put through it, in order.
    pub open spec fn with_put(self, evs: Seq<EventView>) -> OutboxView {
        OutboxView { put: self.put + evs, ..self }
    }
}

impl InboxView {
    /// The same receiver after these events were taken through it, in order.
    pub open spec fn with_taken(self, evs: Seq<EventView>) -> InboxView {
        InboxView { taken: self.taken + evs, ..self }
    }
}

/// The value of a sender.
pub open spec fn outbox_view(sender: Sender<Event>) -> OutboxView {
    OutboxView { channel: sender_channel(sender), put: put_through(sender) }
}

/// The value of a receiver.
pub open spec fn inbox_view(receiver: Receiver<Event>) -> InboxView {
    InboxView { channel: receiver_channel(receiver), taken: taken_through(receiver) }
}

/// `crossbeam::channel::unbounded` makes a channel and returns its two ends, through which
/// nothing has gone yet. The channel is a new one: none of those that the bus given, if any,
/// has an end of. That it differs from all other channels is not stated.
#[verifier::external_body]
fn open_channel(_beside: Option<&Bus>) -> (ends: (Sender<Event>, Receiver<Event>))
    ensures
        _beside matches Some(bus) ==> is_new_to(bus@, sender_channel(ends.0)),
        sender_channel(ends.0) == receiver_channel(ends.1),
        put_through(ends.0) == Seq::<EventView>::empty(),
        taken_through(ends.1) == Seq::<EventView>::empty(),
{
    unbounded()
}

/// `Sender::clone` makes another sender for the same channel. It starts with what was put
/// through the first one.
#[verifier::external_body]
fn clone_sender(sender: &Sender<Event>) -> (copy: Sender<Event>)
    ensures
        outbox_view(copy) == outbox_view(*sender),
{
    sender.clone()
}

/// `Receiver::clone` makes another receiver for the same channel. It starts with what was
/// taken through the first one.
#[verifier::external_body]
fn clone_receiver(receiver: &Receiver<Event>) -> (copy: Receiver<Event>)
    ensures
        inbox_view(copy) == inbox_view(*receiver),
{
    receiver.clone()
}

/// `Sender::send` puts a message into the channel, once, or puts nothing and hands the message
/// back where no receiver is left. Which of the two happens is not stated: it depends on the
/// other threads.
#[verifier::external_body]
fn send(sender: &mut Sender<Event>, ev: Event) -> (res: Result<(), Event>)
    ensures
        match res {
            Ok(_) => {
                &&& outbox_view(*final(sender)) == outbox_view(*old(sender)).with_put(seq![ev@])
                &&& was_put(sender_channel(*old(sender)), ev@)
            },
            Err(back) => {
                &&& back == ev
                &&& outbox_view(*final(sender)) == outbox_view(*old(sender))
                &&& send_refused(sender_channel(*old(sender)), ev@)
            },
        },
{
    match sender.send(ev) {
        Ok(()) => Ok(()),
        Err(err) => Err(err.0),
    }
}

/// `Receiver::recv` blocks until a message is there and takes that one out, or takes nothing
/// and returns an error where the channel is empty and no sender is left. A message that comes
/// was put into the channel before. Which one it is is not stated: it depends on the other
/// threads.
#[verifier::external_body]
fn receive(receiver: &mut Receiver<Event>) -> (ev: Option<Event>)
    ensures
        match ev {
            Some(e) => {
                &&& inbox_view(*final(receiver)) == inbox_view(*old(receiver)).with_taken(
                    seq![e@],
                )
                &&& recv_gave(receiver_channel(*old(receiver)), e@)
                &&& was_put(receiver_channel(*old(receiver)), e@)
            },
            None => {
                &&& inbox_view(*final(receiver)) == inbox_view(*old(receiver))
                &&& recv_ended(receiver_channel(*old(receiver)))
            },
        },
{
    receiver.recv().ok()
}

/// `Receiver::try_iter` takes out, in order, the messages that are there, without blocking,
/// and returns all that it takes. They were put into the channel before. Which ones they are is
/// not stated: it depends on the other threads.
#[verifier::external_body]
fn drain(receiver: &mut Receiver<Event>) -> (evs: Vec<Event>)
    ensures
        inbox_view(*final(receiver)) == inbox_view(*old(receiver)).with_taken(event_views(evs@)),
        drained(receiver_channel(*old(receiver)), event_views(evs@)),
        forall|i: int|
            0 <= i < evs@.len() ==> was_put(
                receiver_channel(*old(receiver)),
                #[trigger] event_views(evs@)[i],
            ),
{
    receiver.try_iter().collect()
}

/// Those of the outboxes to which a delivery succeeded, in their order.
pub open spec fn retained(outboxes: Seq<OutboxView>, delivered: Seq<bool>) -> Seq<OutboxView>
    decreases outboxes.len(),
{
    if outboxes.len() == 0 {
        Seq::empty()
    } else {
        let before = retained(outboxes.drop_last(), delivered.drop_last());
        if delivered.last() {
            before.push(outboxes.last())
        } else {
            before
        }
    }
}

/// The outboxes after an event was put into those to which it could be delivered.
pub open spec fn put_where(
    outboxes: Seq<OutboxView>,
    ev: EventView,
    delivered: Seq<bool>,
) -> Seq<OutboxView> {
    Seq::new(
        outboxes.len(),
        |i: int|
            if delivered[i] {
                outboxes[i].with_put(seq![ev])
            } else {
                outboxes[i]
            },
    )
}

/// Putting the event into each of the outboxes had these outcomes: where it was delivered, it
/// is in the channel, and where it was not, it was refused.
pub open spec fn broadcast_outcome(
    outboxes: Seq<OutboxView>,
    ev: EventView,
    delivered: Seq<bool>,
) -> bool {
    &&& delivered.len() == outboxes.len()
    &&& forall|i: int|
        0 <= i < outboxes.len() ==> if #[trigger] delivered[i] {
            was_put(outboxes[i].channel, ev)
        } else {
            send_refused(outboxes[i].channel, ev)
        }
}

/// One turn of the dispatching loop: the event that was taken, and to which of the outboxes
/// that were left it could be delivered.
pub struct Round {
    pub ev: EventView,
    pub delivered: Seq<bool>,
}

/// The events that were taken in some turns of the dispatching loop, in order.
pub open spec fn round_events(rounds: Seq<Round>) -> Seq<EventView> {
    Seq::new(rounds.len(), |i: int| rounds[i].ev)
}

/// The outboxes after a turn of the dispatching loop: the event is put into each of them, and
/// those to which it could not be delivered are dropped.
pub open spec fn after_round(outboxes: Seq<OutboxView>, round: Round) -> Seq<OutboxView> {
    retained(put_where(outboxes, round.ev, round.delivered), round.delivered)
}

/// The outboxes after some turns of the dispatching loop.
pub open spec fn after_rounds(outboxes: Seq<OutboxView>, rounds: Seq<Round>) -> Seq<OutboxView>
    decreases rounds.len(),
{
    if rounds.len() == 0 {
        outboxes
    } else {
        after_round(after_rounds(outboxes, rounds.drop_last()), rounds.last())
    }
}

/// The dispatching loop took these turns: none once no outbox was left, and in each an event
/// came in and was put into every outbox that was left.
pub open spec fn dispatching(bus: BusView, rounds: Seq<Round>) -> bool
    decreases rounds.len(),
{
    rounds.len() == 0 || {
        let left = after_rounds(bus.outboxes, rounds.drop_last());
        &&& dispatching(bus, rounds.drop_last())
        &&& left.len() > 0
        &&& received(bus.inbox.channel, rounds.last().ev)
        &&& broadcast_outcome(left, rounds.last().ev, rounds.last().delivered)
    }
}

/// The bus after some turns of the dispatching loop: it has taken the events of these turns and
/// no others, and has put them, and no others, into its outboxes.
pub open spec fn dispatched(bus: BusView, rounds: Seq<Round>) -> BusView {
    BusView {
        inbox: bus.inbox.with_taken(round_events(rounds)),
        outboxes: after_rounds(bus.outboxes, rounds),
        ..bus
    }
}

/// Why the dispatching loop ends: no outbox is left, or no sender was left for the bus to
/// receive from, or the turns can no longer be counted.
pub open spec fn dispatching_ends(bus: BusView, rounds: Seq<Round>) -> bool {
    ||| after_rounds(bus.outboxes, rounds).len() == 0
    ||| recv_ended(bus.inbox.channel)
    ||| rounds.len() == u64::MAX
}

/// The events were put into the outbox one after the other, each once, up to the first one that
/// was refused, and nothing else was.
pub open spec fn published(
    before: OutboxView,
    evs: Seq<EventView>,
    refused: Option<EventView>,
    after: OutboxView,
) -> bool {
    match refused {
        None => after == before.with_put(evs),
        Some(ev) => exists|n: int|
            {
                &&& 0 <= n < evs.len()
                &&& #[trigger] evs[n] == ev
                &&& send_refused(before.channel, ev)
                &&& after == before.with_put(evs.take(n))
            },
    }
}

/// The outcome of sending some events, by its value: the one that was refused.
pub open spec fn refused(res: Result<(), Event>) -> Option<EventView> {
    match res {
        Ok(_) => None,
        Err(ev) => Some(ev@),
    }
}

/// A simple bus: distributes the messages among the queues.
#[derive(Debug)]
pub struct Bus {
    public_sender: Sender<Event>,
    receiver: Receiver<Event>,
    senders: Vec<Sender<Event>>,
}

/// The mathematical value of a [`Bus`].
#[verifier::ext_equal]
pub struct BusView {
    /// What the connectors get a clone of, to send to the bus.
    pub public: OutboxView,
    /// What the bus receives from.
    pub inbox: InboxView,
    /// What the bus sends to, one for each connector that has joined.
    pub outboxes: Seq<OutboxView>,
}

impl View for Bus {
    type V = BusView;

    closed spec fn view(&self) -> BusView {
        BusView {
            public: outbox_view(self.public_sender),
            inbox: inbox_view(self.receiver),
            outboxes: Seq::new(self.senders@.len(), |i: int| outbox_view(self.senders@[i])),
        }
    }
}

/// No end that the bus has is of this channel.
pub open spec fn is_new_to(bus: BusView, channel: nat) -> bool {
    &&& channel != bus.public.channel
    &&& channel != bus.inbox.channel
    &&& forall|i: int|
        0 <= i < bus.outboxes.len() ==> (#[trigger] bus.outboxes[i]).channel != channel
}

/// No two of the outboxes feed the same channel.
pub open spec fn separate(outboxes: Seq<OutboxView>) -> bool {
    forall|i: int, j: int|
        0 <= i < j < outboxes.len() ==> (#[trigger] outboxes[i]).channel != (
        #[trigger] outboxes[j]).channel
}

impl Bus {
    /// What is sent to the bus is what the bus receives, and each connector has a channel of
    /// its own.
    pub open spec fn wf(self) -> bool {
        &&& self@.public.channel == self@.inbox.channel
        &&& separate(self@.outboxes)
        &&& forall|i: int|
            0 <= i < self@.outboxes.len() ==> (#[trigger] self@.outboxes[i]).channel
                != self@.inbox.channel
    }

    /// A bus that nobody has joined.
    pub fn new() -> (bus: Self)
        ensures
            bus.wf(),
            bus@.public.put == Seq::<EventView>::empty(),
            bus@.inbox.taken == Seq::<EventView>::empty(),
            bus@.outboxes == Seq::<OutboxView>::empty(),
    {
        let (pub_sx, rx) = open_channel(None);
        Bus { public_sender: pub_sx, receiver: rx, senders: Vec::new() }
    }

    /// Dispatches until the bus has no one left to send to, or to receive from. Blocking. The
    /// bus is gone afterwards: what it has taken and put is stated by [`Bus::dispatch`].
    pub fn run(self)
        ensures
            exists|rounds: Seq<Round>| #[trigger]
                dispatching(self@, rounds) && dispatching_ends(self@, rounds),
    {
        let mut bus = self;
        bus.dispatch();
    }

    /// Add another connection to the bus, with a channel of its own.
    pub fn join_bus(&mut self) -> (connector: BusConnector)
        ensures
            old(self).wf() ==> final(self).wf(),
            is_new_to(old(self)@, connector@.inbox.channel),
            connector@.outbox == old(self)@.public,
            connector@.inbox.taken == Seq::<EventView>::empty(),
            final(self)@ == (BusView {
                outboxes: old(self)@.outboxes.push(
                    OutboxView { channel: connector@.inbox.channel, put: Seq::empty() },
                ),
                ..old(self)@
            }),
    {
        let ghost before = self@;
        let (mysx, rx) = open_channel(Some(self));
        self.senders.push(mysx);
        proof {
            let joined = before.outboxes.push(
                OutboxView { channel: receiver_channel(rx), put: Seq::empty() },
            );
            assert(self@.outboxes =~= joined);
            assert forall|i: int| 0 <= i < before.outboxes.len() implies #[trigger] joined[i]
                == before.outboxes[i] by {}
        }
        BusConnector::new(clone_sender(&self.public_sender), rx)
    }

    /// Puts an event into every outbox of the bus, once, and tells to which it was delivered.
    pub fn broadcast(&mut self, ev: &Event) -> (delivered: Vec<bool>)
        ensures
            old(self).wf() ==> final(self).wf(),
            broadcast_outcome(old(self)@.outboxes, ev@, delivered@),
            final(self)@ == (BusView {
                outboxes: put_where(old(self)@.outboxes, ev@, delivered@),
                ..old(self)@
            }),
    {
        let ghost before = self@;
        let mut delivered: Vec<bool> = Vec::new();
        let n = self.senders.len();
        for i in 0..n
            invariant
                n == before.outboxes.len(),
                self@.outboxes.len() == n,
                self@.public == before.public,
                self@.inbox == before.inbox,
                delivered@.len() == i,
                forall|j: int|
                    0 <= j < i ==> if #[trigger] delivered@[j] {
                        was_put(before.outboxes[j].channel, ev@)
                    } else {
                        send_refused(before.outboxes[j].channel, ev@)
                    },
                forall|j: int|
                    #![trigger self@.outboxes[j]]
                    0 <= j < i ==> self@.outboxes[j] == (if delivered@[j] {
                        before.outboxes[j].with_put(seq![ev@])
                    } else {
                        before.outboxes[j]
                    }),
                forall|j: int| i <= j < n ==> #[trigger] self@.outboxes[j] == before.outboxes[j],
        {
            let ghost prior = self@.outboxes;
            assert(prior[i as int] == before.outboxes[i as int]);
            let res = send(&mut self.senders[i], ev.clone());
            delivered.push(res.is_ok());
            assert(forall|j: int|
                0 <= j < n && j != i ==> #[trigger] self@.outboxes[j] == prior[j]);
        }
        assert(self@.outboxes =~= put_where(before.outboxes, ev@, delivered@));
        delivered
    }

    /// Drops the outboxes to which nothing could be delivered.
    pub fn retain_delivered(&mut self, delivered: &Vec<bool>)
        requires
            delivered@.len() == old(self)@.outboxes.len(),
        ensures
            old(self).wf() ==> final(self).wf(),
            final(self)@ == (BusView {
                outboxes: retained(old(self)@.outboxes, delivered@),
                ..old(self)@
            }),
    {
        let ghost before = self@;
        let mut kept: usize = 0;
        for i in 0..delivered.len()
            invariant
                delivered@.len() == before.outboxes.len(),
                kept <= i,
                kept == retained(before.outboxes.take(i as int), delivered@.take(i as int)).len(),
                self@.outboxes == retained(
                    before.outboxes.take(i as int),
                    delivered@.take(i as int),
                ) + before.outboxes.skip(i as int),
                self@.public == before.public,
                self@.inbox == before.inbox,
        {
            proof {
                let next = i as int + 1;
                assert(before.outboxes.take(next).drop_last() =~= before.outboxes.take(i as int));
                assert(delivered@.take(next).drop_last() =~= delivered@.take(i as int));
                assert(before.outboxes.skip(i as int)[0] == before.outboxes[i as int]);
                assert(self@.outboxes.len() == self.senders@.len());
            }
            let ghost prior = self@.outboxes;
            if delivered[i] {
                kept += 1;
            } else {
                self.senders.remove(kept);
                assert(self@.outboxes =~= prior.remove(kept as int));
            }
        }
        proof {
            assert(before.outboxes.take(before.outboxes.len() as int) =~= before.outboxes);
            assert(delivered@.take(delivered@.len() as int) =~= delivered@);
            if old(self).wf() {
                lemma_retained_stay_separate(before.outboxes, delivered@, before.inbox.channel);
            }
        }
    }

    /// Dispatching loop. As soon as we don't have anymore senders it will exit. It counts its
    /// turns, and also exits after `u64::MAX` of them.
    pub fn dispatch(&mut self)
        ensures
            old(self).wf() ==> final(self).wf(),
            exists|rounds: Seq<Round>|
                {
                    &&& #[trigger] dispatching(old(self)@, rounds)
                    &&& dispatching_ends(old(self)@, rounds)
                    &&& final(self)@ == dispatched(old(self)@, rounds)
                },
    {
        let ghost bus = self@;
        let ghost mut rounds: Seq<Round> = Seq::empty();
        let mut turns_left: u64 = u64::MAX;
        assert(self@ =~= dispatched(bus, rounds));
        while turns_left > 0 && self.senders.len() > 0
            invariant
                bus == old(self)@,
                old(self).wf() ==> self.wf(),
                self@ == dispatched(bus, rounds),
                rounds.len() == u64::MAX - turns_left,
                dispatching(bus, rounds),
            decreases turns_left,
        {
            assert(self@.outboxes.len() == self.senders@.len());
            match receive(&mut self.receiver) {
                Some(ev) => {
                    let delivered = self.broadcast(&ev);
                    self.retain_delivered(&delivered);
                    turns_left = turns_left - 1;
                    proof {
                        let longer = rounds.push(Round { ev: ev@, delivered: delivered@ });
                        assert(longer.drop_last() =~= rounds);
                        assert(round_events(longer) =~= round_events(rounds) + seq![ev@]);
                        rounds = longer;
                        assert(self@ =~= dispatched(bus, rounds));
                    }
                },
                None => {
                    assert(self@ =~= dispatched(bus, rounds));
                    return ;
                },
            }
        }
        assert(self@.outboxes.len() == self.senders@.len());
    }
}

/// A connector to the shared bus.
#[derive(Debug)]
pub struct BusConnector {
    sender: Sender<Event>,
    receiver: Receiver<Event>,
}

/// The mathematical value of a [`BusConnector`].
#[verifier::ext_equal]
pub struct BusConnectorView {
    /// What the connector sends to.
    pub outbox: OutboxView,
    /// What the connector receives from.
    pub inbox: InboxView,
}

impl BusConnectorView {
    /// The same connector after these events were sent, in order.
    pub open spec fn with_put(self, evs: Seq<EventView>) -> BusConnectorView {
        BusConnectorView { outbox: self.outbox.with_put(evs), ..self }
    }

    /// The same connector after these events were received, in order.
    pub open spec fn with_taken(self, evs: Seq<EventView>) -> BusConnectorView {
        BusConnectorView { inbox: self.inbox.with_taken(evs), ..self }
    }
}

impl View for BusConnector {
    type V = BusConnectorView;

    closed spec fn view(&self) -> BusConnectorView {
        BusConnectorView { outbox: outbox_view(self.sender), inbox: inbox_view(self.receiver) }
    }
}

impl Clone for BusConnector {
    fn clone(&self) -> (copy: BusConnector)
        ensures
            copy@ == self@,
    {
        BusConnector {
            sender: clone_sender(&self.sender),
            receiver: clone_receiver(&self.receiver),
        }
    }
}

impl BusConnector {
    pub fn new(sender: Sender<Event>, receiver: Receiver<Event>) -> (connector: Self)
        ensures
            connector@.outbox == outbox_view(sender),
            connector@.inbox == inbox_view(receiver),
    {
        BusConnector { sender, receiver }
    }

    /// The next event, or `None` where the bus is gone. Blocking.
    pub fn get_events_blocking(&mut self) -> (ev: Option<Event>)
        ensures
            match ev {
                Some(e) => {
                    &&& final(self)@ == old(self)@.with_taken(seq![e@])
                    &&& received(old(self)@.inbox.channel, e@)
                },
                None => final(self)@ == old(self)@ && recv_ended(old(self)@.inbox.channel),
            },
    {
        receive(&mut self.receiver)
    }

    /// The events that have come in. Non blocking.
    pub fn try_get_events(&mut self) -> (evs: Vec<Event>)
        ensures
            final(self)@ == old(self)@.with_taken(event_views(evs@)),
            came_in(old(self)@.inbox.channel, event_views(evs@)),
    {
        drain(&mut self.receiver)
    }

    /// Sends an event to the bus. The event comes back where the bus is gone.
    pub fn send_event(&mut self, ev: Event) -> (res: Result<(), Event>)
        ensures
            match res {
                Ok(_) => {
                    &&& final(self)@ == old(self)@.with_put(seq![ev@])
                    &&& was_put(old(self)@.outbox.channel, ev@)
                },
                Err(back) => {
                    &&& back == ev
                    &&& final(self)@ == old(self)@
                    &&& send_refused(old(self)@.outbox.channel, ev@)
                },
            },
    {
        send(&mut self.sender, ev)
    }

    /// Sends some events to the bus, in order. The first one that could not be sent comes
    /// back, and those after it are not sent.
    pub fn send_events(&mut self, evs: &Vec<Event>) -> (res: Result<(), Event>)
        ensures
            final(self)@.inbox == old(self)@.inbox,
            published(
                old(self)@.outbox,
                event_views(evs@),
                refused(res),
                final(self)@.outbox,
            ),
    {
        let ghost before = self@;
        let ghost all = event_views(evs@);
        assert(self@.outbox =~= before.outbox.with_put(all.take(0)));
        for i in 0..evs.len()
            invariant
                before == old(self)@,
                all == event_views(evs@),
                self@.inbox == before.inbox,
                self@.outbox == before.outbox.with_put(all.take(i as int)),
        {
            assert(all[i as int] == evs@[i as int]@);
            match self.send_event(evs[i].clone()) {
                Ok(()) => {
                    assert(all.take(i + 1) =~= all.take(i as int) + seq![all[i as int]]);
                    assert(self@.outbox =~= before.outbox.with_put(all.take(i + 1)));
                },
                Err(ev) => {
                    return Err(ev);
                },
            }
        }
        assert(all.take(all.len() as int) =~= all);
        Ok(())
    }
}

/// What the bus can reach it keeps: after a broadcast exactly those outboxes are left to which
/// the event was delivered.
pub proof fn law_retained_are_the_delivered(
    outboxes: Seq<OutboxView>,
    delivered: Seq<bool>,
    outbox: OutboxView,
)
    requires
        delivered.len() == outboxes.len(),
    ensures
        retained(outboxes, delivered).contains(outbox) <==> exists|i: int|
            0 <= i < outboxes.len() && #[trigger] outboxes[i] == outbox && delivered[i],
        retained(outboxes, delivered).len() <= outboxes.len(),
        (forall|i: int| 0 <= i < delivered.len() ==> #[trigger] delivered[i]) ==> retained(
            outboxes,
            delivered,
        ) == outboxes,
    decreases outboxes.len(),
{
    if outboxes.len() > 0 {
        let n = outboxes.len() - 1;
        let before = retained(outboxes.drop_last(), delivered.drop_last());
        law_retained_are_the_delivered(outboxes.drop_last(), delivered.drop_last(), outbox);
        if forall|i: int| 0 <= i < delivered.len() ==> #[trigger] delivered[i] {
            assert forall|i: int| 0 <= i < delivered.drop_last().len() implies #[trigger]
                delivered.drop_last()[i] by {
                assert(delivered[i]);
            }
            assert(delivered[n]);
            assert(outboxes.drop_last().push(outboxes.last()) =~= outboxes);
        }
        if retained(outboxes, delivered).contains(outbox) {
            if before.contains(outbox) {
                let i = choose|i: int|
                    0 <= i < n && #[trigger] outboxes.drop_last()[i] == outbox
                        && delivered.drop_last()[i];
                assert(outboxes[i] == outbox && delivered[i]);
            } else {
                assert(outboxes[n] == outbox && delivered[n]);
            }
        }
        if exists|i: int|
            0 <= i < outboxes.len() && #[trigger] outboxes[i] == outbox && delivered[i] {
            let i = choose|i: int|
                0 <= i < outboxes.len() && #[trigger] outboxes[i] == outbox && delivered[i];
            if i < n {
                assert(outboxes.drop_last()[i] == outbox && delivered.drop_last()[i]);
                let k = choose|k: int| 0 <= k < before.len() && before[k] == outbox;
                assert(retained(outboxes, delivered)[k] == outbox);
            } else {
                assert(retained(outboxes, delivered).last() == outbox);
            }
        }
    }
}

/// Where no two outboxes feed the same channel, and none feeds this one, dropping some of them
/// keeps that.
proof fn lemma_retained_stay_separate(
    outboxes: Seq<OutboxView>,
    delivered: Seq<bool>,
    channel: nat,
)
    requires
        delivered.len() == outboxes.len(),
        separate(outboxes),
        forall|i: int| 0 <= i < outboxes.len() ==> (#[trigger] outboxes[i]).channel != channel,
    ensures
        separate(retained(outboxes, delivered)),
        forall|i: int|
            0 <= i < retained(outboxes, delivered).len() ==> (#[trigger] retained(
                outboxes,
                delivered,
            )[i]).channel != channel,
    decreases outboxes.len(),
{
    if outboxes.len() > 0 {
        let shorter = outboxes.drop_last();
        assert forall|i: int| 0 <= i < shorter.len() implies (#[trigger] shorter[i]).channel
            != channel && shorter[i].channel != outboxes.last().channel by {
            assert(shorter[i] == outboxes[i]);
            assert(outboxes[i].channel != outboxes[outboxes.len() - 1].channel);
        }
        assert(separate(shorter)) by {
            assert forall|i: int, j: int| 0 <= i < j < shorter.len() implies (
            #[trigger] shorter[i]).channel != (#[trigger] shorter[j]).channel by {
                assert(outboxes[i].channel != outboxes[j].channel);
            }
        }
        lemma_retained_stay_separate(shorter, delivered.drop_last(), channel);
        lemma_retained_stay_separate(shorter, delivered.drop_last(), outboxes.last().channel);
        assert(outboxes[outboxes.len() - 1].channel != channel);
    }
}

/// Putting some events and then another one is putting all of them.
proof fn lemma_put_one_more(outbox: OutboxView, rounds: Seq<Round>)
    requires
        rounds.len() > 0,
    ensures
        outbox.with_put(round_events(rounds.drop_last())).with_put(seq![rounds.last().ev])
            == outbox.with_put(round_events(rounds)),
{
    let evs = round_events(rounds);
    assert(evs =~= round_events(rounds.drop_last()) + seq![rounds.last().ev]);
    assert(outbox.put + round_events(rounds.drop_last()) + seq![rounds.last().ev] =~= outbox.put
        + evs);
}

/// A connector that is left has got what the bus has taken: exactly these events, each once and
/// in the order in which the bus took them.
pub proof fn law_left_got_everything(
    bus: BusView,
    rounds: Seq<Round>,
    left: OutboxView,
)
    requires
        dispatching(bus, rounds),
        after_rounds(bus.outboxes, rounds).contains(left),
    ensures
        exists|i: int|
            0 <= i < bus.outboxes.len() && left == (#[trigger] bus.outboxes[i]).with_put(
                round_events(rounds),
            ),
    decreases rounds.len(),
{
    if rounds.len() == 0 {
        let i = choose|i: int| 0 <= i < bus.outboxes.len() && bus.outboxes[i] == left;
        assert(left =~= bus.outboxes[i].with_put(round_events(rounds)));
    } else {
        let shorter = rounds.drop_last();
        let round = rounds.last();
        let before = after_rounds(bus.outboxes, shorter);
        let put = put_where(before, round.ev, round.delivered);
        law_retained_are_the_delivered(put, round.delivered, left);
        let k = choose|k: int|
            0 <= k < put.len() && #[trigger] put[k] == left && round.delivered[k];
        assert(left == before[k].with_put(seq![round.ev]));
        law_left_got_everything(bus, shorter, before[k]);
        let i = choose|i: int|
            0 <= i < bus.outboxes.len() && before[k] == (#[trigger] bus.outboxes[i]).with_put(
                round_events(shorter),
            );
        lemma_put_one_more(bus.outboxes[i], rounds);
    }
}

/// What is sent to the bus reaches every connector: it is still there and has got exactly what
/// the bus has taken, each event once and in order, unless its channel refused one of them. No
/// other connector keeps an event from it.
pub proof fn law_events_reach_every_connector(
    bus: BusView,
    rounds: Seq<Round>,
    i: int,
)
    requires
        dispatching(bus, rounds),
        0 <= i < bus.outboxes.len(),
    ensures
        after_rounds(bus.outboxes, rounds).contains(bus.outboxes[i].with_put(round_events(rounds)))
            || exists|n: int|
            0 <= n < rounds.len() && send_refused(
                bus.outboxes[i].channel,
                (#[trigger] rounds[n]).ev,
            ),
    decreases rounds.len(),
{
    let goal = bus.outboxes[i].with_put(round_events(rounds));
    if rounds.len() == 0 {
        assert(goal =~= bus.outboxes[i]);
    } else {
        let shorter = rounds.drop_last();
        let round = rounds.last();
        let before = after_rounds(bus.outboxes, shorter);
        let there = bus.outboxes[i].with_put(round_events(shorter));
        law_events_reach_every_connector(bus, shorter, i);
        if before.contains(there) {
            let k = choose|k: int| 0 <= k < before.len() && before[k] == there;
            if round.delivered[k] {
                let put = put_where(before, round.ev, round.delivered);
                lemma_put_one_more(bus.outboxes[i], rounds);
                assert(put[k] == goal);
                law_retained_are_the_delivered(put, round.delivered, goal);
            } else {
                assert(send_refused(before[k].channel, rounds[rounds.len() - 1].ev));
            }
        } else {
            let n = choose|n: int|
                0 <= n < shorter.len() && send_refused(
                    bus.outboxes[i].channel,
                    (#[trigger] shorter[n]).ev,
                );
            assert(rounds[n] == shorter[n]);
        }
    }
}

/// The bus makes nothing up: whatever it dispatches had been put into the channel that it
/// receives from.
pub proof fn law_dispatched_was_sent(bus: BusView, rounds: Seq<Round>)
    requires
        dispatching(bus, rounds),
    ensures
        forall|i: int|
            0 <= i < round_events(rounds).len() ==> was_put(
                bus.inbox.channel,
                #[trigger] round_events(rounds)[i],
            ),
    decreases rounds.len(),
{
    if rounds.len() > 0 {
        let shorter = rounds.drop_last();
        law_dispatched_was_sent(bus, shorter);
        assert forall|i: int| 0 <= i < round_events(rounds).len() implies was_put(
            bus.inbox.channel,
            #[trigger] round_events(rounds)[i],
        ) by {
            if i < shorter.len() {
                assert(round_events(shorter)[i] == round_events(rounds)[i]);
            }
        }
    }
}

/// The bus goes on: as long as its turns can be counted, dispatching ends only where no connector
/// is left to send to, or no one is left to receive from.
pub proof fn law_dispatching_goes_on(bus: BusView, rounds: Seq<Round>)
    requires
        dispatching_ends(bus, rounds),
        rounds.len() < 0xffff_ffff_ffff_ffff,
    ensures
        dispatched(bus, rounds).outboxes.len() == 0 || recv_ended(bus.inbox.channel),
{
}

/// In each turn an event came in, while a connector was left, and was put to each connector that
/// was left: it is in its channel, or was refused.
pub proof fn law_every_turn_serves_everyone(bus: BusView, rounds: Seq<Round>, k: int, i: int)
    requires
        dispatching(bus, rounds),
        0 <= k < rounds.len(),
        0 <= i < after_rounds(bus.outboxes, rounds.take(k)).len(),
    ensures
        recv_gave(bus.inbox.channel, rounds[k].ev),
        rounds[k].delivered.len() == after_rounds(bus.outboxes, rounds.take(k)).len(),
        rounds[k].delivered[i] ==> was_put(
            after_rounds(bus.outboxes, rounds.take(k))[i].channel,
            rounds[k].ev,
        ),
        !rounds[k].delivered[i] ==> send_refused(
            after_rounds(bus.outboxes, rounds.take(k))[i].channel,
            rounds[k].ev,
        ),
    decreases rounds.len(),
{
    let shorter = rounds.drop_last();
    if k == rounds.len() - 1 {
        assert(rounds.take(k) =~= shorter);
        let left = after_rounds(bus.outboxes, shorter);
        assert(broadcast_outcome(left, rounds[k].ev, rounds[k].delivered));
        if rounds[k].delivered[i] {
            assert(was_put(left[i].channel, rounds[k].ev));
        }
    } else {
        assert(shorter.take(k) =~= rounds.take(k));
        assert(shorter[k] == rounds[k]);
        law_every_turn_serves_everyone(bus, shorter, k, i);
    }
}

/// No turn is taken once no connector is left.
pub proof fn law_no_turn_without_connectors(bus: BusView, rounds: Seq<Round>, k: int)
    requires
        dispatching(bus, rounds),
        0 <= k < rounds.len(),
    ensures
        after_rounds(bus.outboxes, rounds.take(k)).len() > 0,
    decreases rounds.len(),
{
    let shorter = rounds.drop_last();
    if k == rounds.len() - 1 {
        assert(rounds.take(k) =~= shorter);
    } else {
        assert(shorter.take(k) =~= rounds.take(k));
        law_no_turn_without_connectors(bus, shorter, k);
    }
}

/// What the bus has taken are the events of its turns, each once and in order, after what it had
/// taken before.
pub proof fn law_turns_are_what_was_taken(bus: BusView, rounds: Seq<Round>)
    ensures
        ({
            let after = dispatched(bus, rounds);
            let had = bus.inbox.taken.len();
            &&& after.inbox.channel == bus.inbox.channel
            &&& after.inbox.taken.len() == had + rounds.len()
            &&& forall|k: int|
                0 <= k < had ==> #[trigger] after.inbox.taken[k] == bus.inbox.taken[k]
            &&& forall|k: int|
                0 <= k < rounds.len() ==> after.inbox.taken[had + k] == (#[trigger] rounds[k]).ev
            &&& after.public == bus.public
        }),
{
}

/// A connector that is left has been sent the events of the turns, each once and in order, after
/// what it had been sent before.
pub proof fn law_turns_are_what_was_put(bus: BusView, rounds: Seq<Round>, j: int)
    requires
        dispatching(bus, rounds),
        0 <= j < dispatched(bus, rounds).outboxes.len(),
    ensures
        exists|i: int|
            {
                let left = dispatched(bus, rounds).outboxes[j];
                let had = (#[trigger] bus.outboxes[i]).put.len();
                &&& 0 <= i < bus.outboxes.len()
                &&& left.channel == bus.outboxes[i].channel
                &&& left.put.len() == had + rounds.len()
                &&& forall|k: int|
                    0 <= k < had ==> #[trigger] left.put[k] == bus.outboxes[i].put[k]
                &&& forall|k: int|
                    0 <= k < rounds.len() ==> left.put[had + k] == (#[trigger] rounds[k]).ev
            },
{
    let left = dispatched(bus, rounds).outboxes[j];
    assert(after_rounds(bus.outboxes, rounds).contains(left));
    law_left_got_everything(bus, rounds, left);
    let i = choose|i: int|
        0 <= i < bus.outboxes.len() && left == (#[trigger] bus.outboxes[i]).with_put(
            round_events(rounds),
        );
    assert(left.put == bus.outboxes[i].put + round_events(rounds));
}

/// Putting an event into the outboxes adds it once at the end of each to which it was delivered,
/// and leaves the others as they are.
pub proof fn law_broadcast_puts_once(
    outboxes: Seq<OutboxView>,
    ev: EventView,
    delivered: Seq<bool>,
    i: int,
)
    requires
        0 <= i < outboxes.len(),
    ensures
        put_where(outboxes, ev, delivered).len() == outboxes.len(),
        put_where(outboxes, ev, delivered)[i].channel == outboxes[i].channel,
        put_where(outboxes, ev, delivered)[i].put == if delivered[i] {
            outboxes[i].put.push(ev)
        } else {
            outboxes[i].put
        },
{
    assert(outboxes[i].put + seq![ev] =~= outboxes[i].put.push(ev));
}

/// Outboxes are dropped and nothing else: those to which the event was delivered stay, each once
/// and in their order.
pub proof fn law_retained_keep_their_order(outboxes: Seq<OutboxView>, delivered: Seq<bool>)
    requires
        delivered.len() == outboxes.len(),
    ensures
        exists|at: Seq<int>|
            {
                &&& #[trigger] at.len() == retained(outboxes, delivered).len()
                &&& forall|j: int|
                    0 <= j < at.len() ==> {
                        &&& 0 <= #[trigger] at[j] < outboxes.len()
                        &&& delivered[at[j]]
                        &&& retained(outboxes, delivered)[j] == outboxes[at[j]]
                    }
                &&& forall|j: int, k: int|
                    0 <= j < k < at.len() ==> #[trigger] at[j] < #[trigger] at[k]
                &&& forall|i: int|
                    0 <= i < delivered.len() && #[trigger] delivered[i] ==> at.contains(i)
            },
    decreases outboxes.len(),
{
    let all = retained(outboxes, delivered);
    if outboxes.len() == 0 {
        let at = Seq::<int>::empty();
        assert(at.len() == all.len());
    } else {
        let n = outboxes.len() - 1;
        let fewer = outboxes.drop_last();
        let before = delivered.drop_last();
        law_retained_keep_their_order(fewer, before);
        let old_at = choose|at: Seq<int>|
            {
                &&& #[trigger] at.len() == retained(fewer, before).len()
                &&& forall|j: int|
                    0 <= j < at.len() ==> {
                        &&& 0 <= #[trigger] at[j] < fewer.len()
                        &&& before[at[j]]
                        &&& retained(fewer, before)[j] == fewer[at[j]]
                    }
                &&& forall|j: int, k: int|
                    0 <= j < k < at.len() ==> #[trigger] at[j] < #[trigger] at[k]
                &&& forall|i: int|
                    0 <= i < before.len() && #[trigger] before[i] ==> at.contains(i)
            };
        let at = if delivered[n] {
            old_at.push(n)
        } else {
            old_at
        };
        assert(at.len() == all.len());
        assert forall|j: int| 0 <= j < at.len() implies {
            &&& 0 <= #[trigger] at[j] < outboxes.len()
            &&& delivered[at[j]]
            &&& all[j] == outboxes[at[j]]
        } by {
            if j < old_at.len() {
                assert(at[j] == old_at[j]);
            }
        }
        assert forall|j: int, k: int| 0 <= j < k < at.len() implies #[trigger] at[j]
            < #[trigger] at[k] by {
            assert(at[j] == old_at[j]);
            if k < old_at.len() {
                assert(at[k] == old_at[k]);
            }
        }
        assert forall|i: int| 0 <= i < delivered.len() && #[trigger] delivered[i] implies
            at.contains(i) by {
            if i < n {
                assert(before[i]);
                let k = choose|k: int| 0 <= k < old_at.len() && old_at[k] == i;
                assert(at[k] == i);
            } else {
                assert(at[old_at.len() as int] == n);
            }
        }
    }
}

/// Sending some events puts a first part of them, each once and in order, after what was put
/// before: all of them, or those before the one that was refused.
pub proof fn law_published_in_order(
    before: OutboxView,
    evs: Seq<EventView>,
    refused: Option<EventView>,
    after: OutboxView,
)
    requires
        published(before, evs, refused, after),
    ensures
        after.channel == before.channel,
        before.put.len() <= after.put.len() <= before.put.len() + evs.len(),
        forall|k: int| 0 <= k < before.put.len() ==> #[trigger] after.put[k] == before.put[k],
        forall|k: int|
            before.put.len() <= k < after.put.len() ==> #[trigger] after.put[k] == evs[k
                - before.put.len()],
        refused is None <==> after.put.len() == before.put.len() + evs.len(),
        refused matches Some(ev) ==> ev == evs[after.put.len() - before.put.len()] && send_refused(
            before.channel,
            ev,
        ),
{
    if let Some(ev) = refused {
        let n = choose|n: int|
            {
                &&& 0 <= n < evs.len()
                &&& #[trigger] evs[n] == ev
                &&& send_refused(before.channel, ev)
                &&& after == before.with_put(evs.take(n))
            };
        assert(after.put == before.put + evs.take(n));
    }
}

/// What was sent over a connector comes after what was sent before, and what was received after
/// what was received before. Nothing else of the connector changes.
pub proof fn law_connector_logs(connector: BusConnectorView, evs: Seq<EventView>)
    ensures
        connector.with_put(evs).outbox.put == connector.outbox.put + evs,
        connector.with_put(evs).outbox.channel == connector.outbox.channel,
        connector.with_put(evs).inbox == connector.inbox,
        connector.with_taken(evs).inbox.taken == connector.inbox.taken + evs,
        connector.with_taken(evs).inbox.channel == connector.inbox.channel,
        connector.with_taken(evs).outbox == connector.outbox,
{
}

/// What comes in was found in the channel, and had been put into it.
pub proof fn law_what_comes_in_was_sent(channel: nat, evs: Seq<EventView>, i: int)
    requires
        came_in(channel, evs),
    ensures
        drained(channel, evs),
        0 <= i < evs.len() ==> was_put(channel, evs[i]),
{
}

/// What is received came out of the channel, and had been put into it.
pub proof fn law_what_is_received_was_sent(channel: nat, ev: EventView)
    requires
        received(channel, ev),
    ensures
        recv_gave(channel, ev),
        was_put(channel, ev),
{
}

/// Each connector of a bus has a channel of its own, and none of them is the one that the bus
/// receives from, which is the one that the connectors send to.
pub proof fn law_connectors_are_apart(bus: Bus, i: int, j: int)
    requires
        bus.wf(),
        0 <= i < bus@.outboxes.len(),
        0 <= j < bus@.outboxes.len(),
        i != j,
    ensures
        bus@.outboxes[i].channel != bus@.outboxes[j].channel,
        bus@.outboxes[i].channel != bus@.inbox.channel,
        bus@.public.channel == bus@.inbox.channel,
{
    if i < j {
        assert(bus@.outboxes[i].channel != bus@.outboxes[j].channel);
    } else {
        assert(bus@.outboxes[j].channel != bus@.outboxes[i].channel);
    }
}

/// A channel that is new to a bus is none that the bus sends to or receives from.
pub proof fn law_new_channels_are_new(bus: BusView, channel: nat, i: int)
    requires
        is_new_to(bus, channel),
    ensures
        channel != bus.public.channel,
        channel != bus.inbox.channel,
        0 <= i < bus.outboxes.len() ==> bus.outboxes[i].channel != channel,
{
}

} // verus!
