//! The client's connection multiplexer: one connection to the relay, shared
//! by the consumers that are attached to it. Events that arrive go to every
//! attached consumer; requests of the consumers go into one bounded queue
//! and leave it in the order in which they came.

use std::collections::VecDeque;
use std::marker::PhantomData;
use vstd::pervasive::cloned;
use vstd::prelude::*;

verus! {

/// The status code of an orderly close.
pub const NOMINAL_CLOSURE_CODE: u16 = 1000;

/// How many requests the outbound queue holds at most.
pub const QUEUE_CAPACITY: usize = 1000;

/// Names a consumer that is or was attached to the multiplexer.
#[derive(Debug, Clone, Copy, PartialEq, Eq, Hash, Structural)]
pub struct HandlerId(pub usize);

/// What the multiplexer is told from inside: an event has arrived, or the
/// connection is to be given up.
#[derive(Debug)]
pub enum InternalMessage<BM> {
    /// This event has arrived from the relay.
    Backend(BM),
    /// Give the connection up, with this status code if any.
    Disconnect(Option<u16>),
}

/// What stands in the outbound queue.
#[derive(Debug, PartialEq, Eq)]
pub enum Outbound<FM> {
    /// Write this request to the relay.
    Request(FM),
    /// Close the connection, with this status code if any.
    Close(Option<u16>),
}

/// Why a request was not taken into the outbound queue.
#[derive(Debug, Clone, Copy, PartialEq, Eq, Structural)]
pub enum SendError {
    /// Backpressure: the queue holds as many requests as it may.
    Full,
    /// The connection has been given up.
    Closed,
}

/// The mathematical value of a multiplexer.
pub struct WorkerView<FM> {
    /// The attached consumers, in the order in which they were attached.
    pub subscribers: Seq<HandlerId>,
    /// What waits to be written, oldest first.
    pub queue: Seq<Outbound<FM>>,
    /// How many requests may wait at most.
    pub capacity: nat,
    /// The connection has not been given up.
    pub open: bool,
}

impl<FM> WorkerView<FM> {
    /// No consumer is attached twice; the queue holds requests only,
    /// except that a close may stand at its end once the connection has
    /// been given up; and no more requests wait than may.
    pub open spec fn wf(self) -> bool {
        &&& self.subscribers.no_duplicates()
        &&& forall|i: int| 0 <= i < self.queue.len() - 1 ==> (#[trigger] self.queue[i]) is Request
        &&& self.open ==> self.queue.len() <= self.capacity && (self.queue.len() > 0
            ==> self.queue.last() is Request)
        &&& !self.open ==> self.queue.len() <= self.capacity + 1
    }

    /// A multiplexer to which nobody is attached and in which nothing
    /// waits.
    pub open spec fn initial(capacity: nat) -> Self {
        WorkerView { subscribers: Seq::empty(), queue: Seq::empty(), capacity, open: true }
    }

    /// The consumer is attached.
    pub open spec fn attached(self, id: HandlerId) -> bool {
        self.subscribers.contains(id)
    }

    /// The multiplexer after `id` was attached: as before where it was
    /// attached already.
    pub open spec fn attach(self, id: HandlerId) -> Self {
        if self.attached(id) {
            self
        } else {
            WorkerView { subscribers: self.subscribers.push(id), ..self }
        }
    }

    /// The multiplexer after `id` was detached: the other consumers stay
    /// attached, in their order.
    pub open spec fn detach(self, id: HandlerId) -> Self {
        WorkerView { subscribers: self.subscribers.filter(other_than(id)), ..self }
    }

    /// The outcome of offering a request: it is taken while the connection
    /// is held and fewer requests wait than may.
    pub open spec fn send_result(self) -> Result<(), SendError> {
        if !self.open {
            Err(SendError::Closed)
        } else if self.queue.len() >= self.capacity {
            Err(SendError::Full)
        } else {
            Ok(())
        }
    }

    /// The multiplexer after a request was offered: the request waits
    /// behind all that waited before, if it was taken; otherwise nothing
    /// has changed.
    pub open spec fn send(self, request: FM) -> Self {
        if self.send_result() is Ok {
            WorkerView { queue: self.queue.push(Outbound::Request(request)), ..self }
        } else {
            self
        }
    }

    /// The multiplexer after the connection was given up: a close waits
    /// behind all requests, and no further request is taken.
    pub open spec fn disconnect(self, code: Option<u16>) -> Self {
        if self.open {
            WorkerView { queue: self.queue.push(Outbound::Close(code)), open: false, ..self }
        } else {
            self
        }
    }

    /// What is written next: the oldest of what waits.
    pub open spec fn next(self) -> Option<Outbound<FM>> {
        if self.queue.len() > 0 {
            Some(self.queue[0])
        } else {
            None
        }
    }

    /// The multiplexer after the oldest of what waits was taken out.
    pub open spec fn advance(self) -> Self {
        if self.queue.len() > 0 {
            WorkerView { queue: self.queue.drop_first(), ..self }
        } else {
            self
        }
    }
}

/// The test that a consumer is another one than `id`.
pub open spec fn other_than(id: HandlerId) -> spec_fn(HandlerId) -> bool {
    |other: HandlerId| other != id
}

/// The consumers that an event goes to, each with the event: every
/// attached consumer once, in the order of attachment.
pub open spec fn fan_out<BM>(subscribers: Seq<HandlerId>, event: BM) -> Seq<(HandlerId, BM)> {
    subscribers.map_values(|id: HandlerId| (id, event))
}

/// Each response goes to the consumer that was expected, and holds a copy
/// of the event that was expected for it.
pub open spec fn copies_of<BM: Clone>(
    responses: Seq<(HandlerId, BM)>,
    expected: Seq<(HandlerId, BM)>,
) -> bool {
    &&& responses.len() == expected.len()
    &&& forall|i: int|
        0 <= i < responses.len() ==> (#[trigger] responses[i]).0 == expected[i].0 && cloned::<BM>(
            expected[i].1,
            responses[i].1,
        )
}

/// The outcome of offering each of the requests in turn.
pub open spec fn send_all<FM>(s: WorkerView<FM>, requests: Seq<FM>) -> WorkerView<FM>
    decreases requests.len(),
{
    if requests.len() == 0 {
        s
    } else {
        send_all(s, requests.drop_last()).send(requests.last())
    }
}

/// What a run of events makes the consumers see: the fan-out of the first
/// event, then that of the second, and so on.
pub open spec fn deliveries<BM>(subscribers: Seq<HandlerId>, events: Seq<BM>) -> Seq<
    (HandlerId, BM),
>
    decreases events.len(),
{
    if events.len() == 0 {
        Seq::empty()
    } else {
        deliveries(subscribers, events.drop_last()) + fan_out(subscribers, events.last())
    }
}

/// What one consumer sees of a run of deliveries, in order.
pub open spec fn seen_by<BM>(log: Seq<(HandlerId, BM)>, id: HandlerId) -> Seq<BM>
    decreases log.len(),
{
    if log.len() == 0 {
        Seq::empty()
    } else if log.last().0 == id {
        seen_by(log.drop_last(), id).push(log.last().1)
    } else {
        seen_by(log.drop_last(), id)
    }
}

/// The multiplexer.
pub struct WebsocketWorker<FM, BM> {
    subscribers: Vec<HandlerId>,
    sender: VecDeque<Outbound<FM>>,
    capacity: usize,
    open: bool,
    _phantom: PhantomData<BM>,
}

impl<FM, BM> View for WebsocketWorker<FM, BM> {
    type V = WorkerView<FM>;

    closed spec fn view(&self) -> WorkerView<FM> {
        WorkerView {
            subscribers: self.subscribers@,
            queue: self.sender@,
            capacity: self.capacity as nat,
            open: self.open,
        }
    }
}

impl<FM, BM> WebsocketWorker<FM, BM> {
    /// A multiplexer whose queue holds up to a thousand requests.
    pub fn create() -> (r: Self)
        ensures
            r@ == WorkerView::<FM>::initial(QUEUE_CAPACITY as nat),
            r@.wf(),
    {
        Self::with_capacity(QUEUE_CAPACITY)
    }

    /// A multiplexer whose queue holds up to `capacity` requests.
    pub fn with_capacity(capacity: usize) -> (r: Self)
        ensures
            r@ == WorkerView::<FM>::initial(capacity as nat),
            r@.wf(),
    {
        WebsocketWorker {
            subscribers: Vec::new(),
            sender: VecDeque::new(),
            capacity,
            open: true,
            _phantom: PhantomData,
        }
    }

    /// Whether the consumer is attached.
    pub fn is_connected(&self, id: HandlerId) -> (r: bool)
        ensures
            r == self@.attached(id),
    {
        self.position(id).is_some()
    }

    fn position(&self, id: HandlerId) -> (r: Option<usize>)
        ensures
            match r {
                Some(i) => i < self.subscribers@.len() && self.subscribers@[i as int] == id,
                None => !self.subscribers@.contains(id),
            },
    {
        let mut i: usize = 0;
        while i < self.subscribers.len()
            invariant
                i <= self.subscribers.len(),
                forall|j: int| 0 <= j < i ==> self.subscribers@[j] != id,
            decreases self.subscribers.len() - i,
        {
            if self.subscribers[i].0 == id.0 {
                return Some(i);
            }
            i += 1;
        }
        None
    }

    /// The attached consumers, in the order in which they were attached.
    pub fn subscribers(&self) -> (r: Vec<HandlerId>)
        ensures
            r@ == self@.subscribers,
    {
        self.subscribers.clone()
    }

    /// How many items wait to be written.
    pub fn pending(&self) -> (r: usize)
        ensures
            r == self@.queue.len(),
    {
        self.sender.len()
    }

    /// Attaches a consumer. Attaching one that is attached already changes
    /// nothing.
    pub fn connected(&mut self, id: HandlerId)
        ensures
            final(self)@ == old(self)@.attach(id),
            old(self)@.wf() ==> final(self)@.wf(),
    {
        if self.position(id).is_none() {
            self.subscribers.push(id);
        }
        proof {
            if old(self)@.wf() {
                lemma_attach_wf(old(self)@, id);
            }
        }
    }

    /// Detaches a consumer. Detaching one that is not attached changes
    /// nothing.
    pub fn disconnected(&mut self, id: HandlerId)
        ensures
            final(self)@ == old(self)@.detach(id),
            old(self)@.wf() ==> final(self)@.wf(),
    {
        let mut kept: Vec<HandlerId> = Vec::new();
        let mut i: usize = 0;
        while i < self.subscribers.len()
            invariant
                i <= self.subscribers.len(),
                self.subscribers@ == old(self).subscribers@,
                self.sender@ == old(self).sender@,
                self.capacity == old(self).capacity,
                self.open == old(self).open,
                kept@ == self.subscribers@.take(i as int).filter(other_than(id)),
            decreases self.subscribers.len() - i,
        {
            let consumer = self.subscribers[i];
            proof {
                let done = self.subscribers@.take(i as int);
                assert(self.subscribers@.take(i + 1) =~= done.push(consumer));
                done.lemma_filter_push(consumer, other_than(id));
            }
            if consumer.0 != id.0 {
                kept.push(consumer);
            }
            i += 1;
        }
        assert(self.subscribers@.take(i as int) =~= self.subscribers@);
        proof {
            if old(self)@.wf() {
                lemma_detach_wf(old(self)@, id);
            }
        }
        self.subscribers = kept;
    }

    /// Offers a request of a consumer to the outbound queue. The request is
    /// taken unless the queue is full or the connection has been given up;
    /// the caller learns which.
    pub fn received(&mut self, frontend_message: FM, id: HandlerId) -> (r: Result<(), SendError>)
        ensures
            r == old(self)@.send_result(),
            final(self)@ == old(self)@.send(frontend_message),
            old(self)@.wf() ==> final(self)@.wf(),
    {
        if !self.open {
            Err(SendError::Closed)
        } else if self.sender.len() >= self.capacity {
            Err(SendError::Full)
        } else {
            self.sender.push_back(Outbound::Request(frontend_message));
            Ok(())
        }
    }

    /// Takes up what the multiplexer is told from inside. An event goes to
    /// every attached consumer, each getting a copy of its own. Giving the
    /// connection up puts a close behind the requests that wait, and goes
    /// to nobody.
    pub fn update(&mut self, internal_message: InternalMessage<BM>) -> (responses: Vec<
        (HandlerId, BM),
    >) where BM: Clone
        ensures
            old(self)@.wf() ==> final(self)@.wf(),
            match internal_message {
                InternalMessage::Backend(event) => {
                    &&& final(self)@ == old(self)@
                    &&& copies_of(responses@, fan_out(old(self)@.subscribers, event))
                },
                InternalMessage::Disconnect(code) => {
                    &&& final(self)@ == old(self)@.disconnect(code)
                    &&& responses@.len() == 0
                },
            },
    {
        let mut responses: Vec<(HandlerId, BM)> = Vec::new();
        match internal_message {
            InternalMessage::Backend(backend_message) => {
                let mut i: usize = 0;
                while i < self.subscribers.len()
                    invariant
                        i <= self.subscribers.len(),
                        responses@.len() == i,
                        forall|j: int|
                            0 <= j < i ==> (#[trigger] responses@[j]).0 == self.subscribers@[j]
                                && cloned::<BM>(backend_message, responses@[j].1),
                    decreases self.subscribers.len() - i,
                {
                    responses.push((self.subscribers[i], backend_message.clone()));
                    i += 1;
                }
            },
            InternalMessage::Disconnect(closure_code) => {
                if self.open {
                    self.sender.push_back(Outbound::Close(closure_code));
                    self.open = false;
                }
            },
        }
        responses
    }

    /// What the multiplexer tells itself when it is destroyed: to give the
    /// connection up in good order.
    pub fn destroy(&self) -> (r: InternalMessage<BM>)
        ensures
            r == InternalMessage::<BM>::Disconnect(Some(NOMINAL_CLOSURE_CODE)),
    {
        InternalMessage::Disconnect(Some(NOMINAL_CLOSURE_CODE))
    }

    /// Takes the oldest of what waits out of the queue, to be written to
    /// the connection.
    pub fn next_outbound(&mut self) -> (r: Option<Outbound<FM>>)
        ensures
            r == old(self)@.next(),
            final(self)@ == old(self)@.advance(),
            old(self)@.wf() ==> final(self)@.wf(),
    {
        let r = self.sender.pop_front();
        proof {
            assert(old(self)@.queue.len() > 0 ==> self.sender@ =~= old(self)@.queue.drop_first());
            if old(self)@.wf() {
                lemma_advance_wf(old(self)@);
            }
        }
        r
    }
}

/// Attaching twice is attaching once, and detaching twice is detaching
/// once; detaching what is not attached changes nothing.
pub proof fn lemma_attach_idempotent<FM>(s: WorkerView<FM>, id: HandlerId)
    requires
        s.wf(),
    ensures
        s.attach(id).wf(),
        s.attach(id).attached(id),
        s.attach(id).attach(id) == s.attach(id),
        s.detach(id).wf(),
        !s.detach(id).attached(id),
        s.detach(id).detach(id) == s.detach(id),
        !s.attached(id) ==> s.detach(id) == s,
{
    let keep = other_than(id);
    lemma_attach_wf(s, id);
    lemma_detach_wf(s, id);
    if !s.attached(id) {
        assert(s.subscribers.push(id)[s.subscribers.len() as int] == id);
    }
    lemma_filter_unchanged(s.detach(id).subscribers, keep);
    if !s.attached(id) {
        lemma_filter_unchanged(s.subscribers, keep);
    }
}

proof fn lemma_filter_unchanged(s: Seq<HandlerId>, keep: spec_fn(HandlerId) -> bool)
    requires
        forall|i: int| 0 <= i < s.len() ==> keep(#[trigger] s[i]),
    ensures
        s.filter(keep) == s,
    decreases s.len(),
{
    reveal(Seq::filter);
    if s.len() > 0 {
        lemma_filter_unchanged(s.drop_last(), keep);
        assert(s.drop_last().push(s.last()) =~= s);
    }
}

/// Attaching or detaching one consumer leaves every other consumer as it
/// was, attached or not.
pub proof fn lemma_attach_leaves_others<FM>(s: WorkerView<FM>, id: HandlerId, other: HandlerId)
    requires
        s.wf(),
        other != id,
    ensures
        s.attach(id).attached(other) <==> s.attached(other),
        s.detach(id).attached(other) <==> s.attached(other),
{
    lemma_detach_wf(s, id);
    if !s.attached(id) {
        let after = s.subscribers.push(id);
        if s.attached(other) {
            let j = choose|j: int| 0 <= j < s.subscribers.len() && s.subscribers[j] == other;
            assert(after[j] == other);
        }
        if after.contains(other) {
            let j = choose|j: int| 0 <= j < after.len() && after[j] == other;
            assert(s.subscribers[j] == other);
        }
    }
}

/// An event goes to each attached consumer exactly once and to nobody
/// else: what a consumer sees of the fan-out is the event alone if the
/// consumer is attached, and nothing if it is not.
pub proof fn lemma_fan_out_once<BM>(subscribers: Seq<HandlerId>, event: BM, id: HandlerId)
    requires
        subscribers.no_duplicates(),
    ensures
        seen_by(fan_out(subscribers, event), id) == if subscribers.contains(id) {
            seq![event]
        } else {
            Seq::<BM>::empty()
        },
    decreases subscribers.len(),
{
    let log = fan_out(subscribers, event);
    if subscribers.len() > 0 {
        let front = subscribers.drop_last();
        assert(log.drop_last() =~= fan_out(front, event));
        lemma_fan_out_once(front, event, id);
        if subscribers.last() == id {
            if front.contains(id) {
                let j = choose|j: int| 0 <= j < front.len() && front[j] == id;
                assert(subscribers[j] == id);
            }
            assert(subscribers.contains(id));
            assert(seen_by(log, id) =~= seq![event]);
        } else {
            if subscribers.contains(id) {
                let j = choose|j: int| 0 <= j < subscribers.len() && subscribers[j] == id;
                assert(front[j] == id);
            }
            if front.contains(id) {
                let j = choose|j: int| 0 <= j < front.len() && front[j] == id;
                assert(subscribers[j] == id);
            }
        }
    }
}

proof fn lemma_seen_by_concat<BM>(a: Seq<(HandlerId, BM)>, b: Seq<(HandlerId, BM)>, id: HandlerId)
    ensures
        seen_by(a + b, id) == seen_by(a, id) + seen_by(b, id),
    decreases b.len(),
{
    if b.len() == 0 {
        assert(a + b =~= a);
        assert(seen_by(a, id) + seen_by(b, id) =~= seen_by(a, id));
    } else {
        assert((a + b).drop_last() =~= a + b.drop_last());
        lemma_seen_by_concat(a, b.drop_last(), id);
        assert(seen_by(a + b, id) =~= seen_by(a, id) + seen_by(b, id));
    }
}

/// A consumer that stays attached sees the events that arrive, each once
/// and in the order of arrival; one that is not attached sees none.
pub proof fn lemma_deliveries_in_order<BM>(
    subscribers: Seq<HandlerId>,
    events: Seq<BM>,
    id: HandlerId,
)
    requires
        subscribers.no_duplicates(),
    ensures
        seen_by(deliveries(subscribers, events), id) == if subscribers.contains(id) {
            events
        } else {
            Seq::<BM>::empty()
        },
    decreases events.len(),
{
    if events.len() > 0 {
        let before = deliveries(subscribers, events.drop_last());
        let now = fan_out(subscribers, events.last());
        lemma_deliveries_in_order(subscribers, events.drop_last(), id);
        lemma_fan_out_once(subscribers, events.last(), id);
        lemma_seen_by_concat(before, now, id);
        if subscribers.contains(id) {
            assert(events.drop_last() + seq![events.last()] =~= events);
        } else {
            assert(Seq::<BM>::empty() + Seq::<BM>::empty() =~= Seq::<BM>::empty());
        }
    }
}

/// With two consumers attached, an event reaches both, each once. Once
/// the first of them is detached, a later event reaches the second alone.
pub proof fn lemma_attach_then_detach<FM, BM>(
    s: WorkerView<FM>,
    a: HandlerId,
    b: HandlerId,
    first: BM,
    second: BM,
)
    requires
        s.wf(),
        a != b,
    ensures
        s.attach(a).attach(b).wf(),
        seen_by(fan_out(s.attach(a).attach(b).subscribers, first), a) == seq![first],
        seen_by(fan_out(s.attach(a).attach(b).subscribers, first), b) == seq![first],
        s.attach(a).attach(b).detach(a).wf(),
        seen_by(fan_out(s.attach(a).attach(b).detach(a).subscribers, second), a) == Seq::<
            BM,
        >::empty(),
        seen_by(fan_out(s.attach(a).attach(b).detach(a).subscribers, second), b) == seq![second],
{
    let one = s.attach(a);
    lemma_attach_idempotent(s, a);
    let two = one.attach(b);
    lemma_attach_idempotent(one, b);
    lemma_attach_leaves_others(one, b, a);
    let three = two.detach(a);
    lemma_attach_idempotent(two, a);
    lemma_attach_leaves_others(two, a, b);
    lemma_fan_out_once(two.subscribers, first, a);
    lemma_fan_out_once(two.subscribers, first, b);
    lemma_fan_out_once(three.subscribers, second, a);
    lemma_fan_out_once(three.subscribers, second, b);
}

/// Offering a request never disturbs what waits: what waited before is
/// written first, in its old order, and a request that is taken waits
/// behind it.
pub proof fn lemma_send_keeps_order<FM>(s: WorkerView<FM>, request: FM)
    requires
        s.wf(),
    ensures
        s.send(request).wf(),
        s.queue.is_prefix_of(s.send(request).queue),
        s.queue.len() > 0 ==> s.send(request).next() == s.next(),
        s.send_result() is Ok ==> s.send(request).queue == s.queue.push(
            Outbound::Request(request),
        ),
        !(s.send_result() is Ok) ==> s.send(request) == s,
{
}

/// Backpressure: a queue that holds as many requests as it may refuses
/// the next one, and is left exactly as it was.
pub proof fn lemma_full_queue_refuses<FM>(s: WorkerView<FM>, request: FM)
    requires
        s.wf(),
        s.open,
        s.queue.len() == s.capacity,
    ensures
        s.send_result() == Err::<(), SendError>(SendError::Full),
        s.send(request) == s,
{
}

proof fn lemma_send_all<FM>(capacity: nat, requests: Seq<FM>)
    requires
        requests.len() <= capacity,
    ensures
        send_all(WorkerView::initial(capacity), requests).wf(),
        send_all(WorkerView::initial(capacity), requests).open,
        send_all(WorkerView::initial(capacity), requests).capacity == capacity,
        send_all(WorkerView::initial(capacity), requests).queue == requests.map_values(
            |r: FM| Outbound::Request(r),
        ),
    decreases requests.len(),
{
    let wrap = |r: FM| Outbound::Request(r);
    if requests.len() == 0 {
        assert(Seq::<Outbound<FM>>::empty() =~= requests.map_values(wrap));
    } else {
        lemma_send_all(capacity, requests.drop_last());
        let before = send_all(WorkerView::initial(capacity), requests.drop_last());
        assert(before.queue.push(wrap(requests.last())) =~= requests.map_values(wrap));
    }
}

/// Filling an empty queue to its capacity takes every request, in order;
/// one request more is refused for backpressure and changes nothing; and
/// what is then written first is the request that was offered first.
pub proof fn lemma_fill_then_refuse<FM>(capacity: nat, requests: Seq<FM>, extra: FM)
    requires
        requests.len() == capacity,
    ensures
        send_all(WorkerView::initial(capacity), requests).queue == requests.map_values(
            |r: FM| Outbound::Request(r),
        ),
        send_all(WorkerView::initial(capacity), requests).send_result() == Err::<(), SendError>(
            SendError::Full,
        ),
        send_all(WorkerView::initial(capacity), requests).send(extra) == send_all(
            WorkerView::initial(capacity),
            requests,
        ),
        capacity > 0 ==> send_all(WorkerView::initial(capacity), requests).send(extra).next()
            == Some(Outbound::Request(requests[0])),
{
    lemma_send_all(capacity, requests);
}

/// Giving the connection up puts a close behind every request that
/// waits, so that the requests are written first; after that no request is
/// taken, and giving up again changes nothing.
pub proof fn lemma_disconnect_drains_then_closes<FM>(
    s: WorkerView<FM>,
    code: Option<u16>,
    request: FM,
)
    requires
        s.wf(),
        s.open,
    ensures
        s.disconnect(code).wf(),
        s.disconnect(code).queue == s.queue.push(Outbound::Close(code)),
        s.disconnect(code).send_result() == Err::<(), SendError>(SendError::Closed),
        s.disconnect(code).send(request) == s.disconnect(code),
        s.disconnect(code).disconnect(code) == s.disconnect(code),
{
}

/// Taking the oldest item out leaves the rest waiting in their order.
pub proof fn lemma_advance_keeps_order<FM>(s: WorkerView<FM>)
    requires
        s.wf(),
        s.queue.len() > 0,
    ensures
        s.advance().wf(),
        s.next() == Some(s.queue[0]),
        s.queue == seq![s.queue[0]] + s.advance().queue,
{
    lemma_advance_wf(s);
    assert(s.queue =~= seq![s.queue[0]] + s.advance().queue);
}

proof fn lemma_attach_wf<FM>(s: WorkerView<FM>, id: HandlerId)
    requires
        s.wf(),
    ensures
        s.attach(id).wf(),
{
    if !s.attached(id) {
        let after = s.subscribers.push(id);
        assert forall|i: int, j: int| 0 <= i < after.len() && 0 <= j < after.len() && i
            != j implies after[i] != after[j] by {
            if i < s.subscribers.len() {
                assert(s.subscribers.contains(s.subscribers[i]));
            }
            if j < s.subscribers.len() {
                assert(s.subscribers.contains(s.subscribers[j]));
            }
        }
    }
}

proof fn lemma_filter_members(s: Seq<HandlerId>, keep: spec_fn(HandlerId) -> bool)
    ensures
        forall|x: HandlerId| #[trigger] s.filter(keep).contains(x) <==> s.contains(x) && keep(x),
{
    assert forall|x: HandlerId| #[trigger] s.filter(keep).contains(x) <==> s.contains(x) && keep(
        x,
    ) by {
        if s.filter(keep).contains(x) {
            s.lemma_filter_contains_rev(keep, x);
            let j = choose|j: int| 0 <= j < s.filter(keep).len() && s.filter(keep)[j] == x;
            s.lemma_filter_pred(keep, j);
        }
        if s.contains(x) && keep(x) {
            let i = choose|i: int| 0 <= i < s.len() && s[i] == x;
            s.lemma_filter_contains(keep, i);
        }
    }
}

proof fn lemma_filter_no_duplicates(s: Seq<HandlerId>, keep: spec_fn(HandlerId) -> bool)
    requires
        s.no_duplicates(),
    ensures
        s.filter(keep).no_duplicates(),
    decreases s.len(),
{
    if s.len() > 0 {
        let front = s.drop_last();
        let last = s.last();
        assert(s =~= front.push(last));
        lemma_filter_no_duplicates(front, keep);
        front.lemma_filter_push(last, keep);
        if keep(last) {
            let kept = front.filter(keep);
            let after = kept.push(last);
            lemma_filter_members(front, keep);
            assert(!front.contains(last)) by {
                if front.contains(last) {
                    let j = choose|j: int| 0 <= j < front.len() && front[j] == last;
                    assert(s[j] == s[s.len() - 1]);
                }
            }
            assert forall|i: int, j: int| 0 <= i < after.len() && 0 <= j < after.len() && i
                != j implies after[i] != after[j] by {
                if i < kept.len() {
                    assert(kept.contains(after[i]));
                }
                if j < kept.len() {
                    assert(kept.contains(after[j]));
                }
            }
        }
    }
}

proof fn lemma_detach_wf<FM>(s: WorkerView<FM>, id: HandlerId)
    requires
        s.wf(),
    ensures
        s.detach(id).wf(),
        !s.detach(id).attached(id),
        forall|other: HandlerId|
            other != id ==> (s.detach(id).attached(other) <==> s.attached(other)),
{
    lemma_filter_no_duplicates(s.subscribers, other_than(id));
    lemma_filter_members(s.subscribers, other_than(id));
}

proof fn lemma_advance_wf<FM>(s: WorkerView<FM>)
    requires
        s.wf(),
    ensures
        s.advance().wf(),
{
    if s.queue.len() > 0 {
        let after = s.queue.drop_first();
        assert forall|i: int| 0 <= i < after.len() - 1 implies (#[trigger] after[i]) is Request by {
            assert(after[i] == s.queue[i + 1]);
        }
        if after.len() > 0 {
            assert(after.last() == s.queue.last());
        }
    }
}

} // verus!
