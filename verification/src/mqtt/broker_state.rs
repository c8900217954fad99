use vstd::prelude::*;

verus! {

/// Nanoseconds in one second; timestamps are Unix time in nanoseconds.
pub const NANOS_PER_SECOND: i128 = 1_000_000_000i128;

/// Where a delivered message stands in its QoS handshake.
#[derive(Debug, Clone, Copy, PartialEq, Eq, Structural)]
pub enum MessageState {
    Queued,
    PublishSent,
    PublishAcknowledged,
    PublishReleased,
    MessageReceived,
    MessageCompleted,
    MessageAcknowledged,
    MessageUnsuccessful,
    SubscriptionReceived,
    Released,
}

/// A message waiting in a subscription to be delivered to its subscriber.
#[derive(Debug)]
pub struct SubscriptionMessage {
    pub message: String,
    pub message_sent: bool,
    pub packet_identifier: u16,
    pub message_state: MessageState,
    pub pub_qos: u8,
    pub retry_count: u8,
    pub last_updated: i128,
}

/// A client's subscription to one topic, with the messages queued on it.
#[derive(Debug)]
pub struct Subscription {
    pub topic_title: String,
    pub messages: Vec<SubscriptionMessage>,
    pub sub_qos: u8,
}

/// A connected client as the broker keeps it.
#[derive(Debug)]
pub struct Client {
    pub thread_id: u64,
    pub cancellation_requested: bool,
    pub subscriptions: Vec<Subscription>,
    pub last_connection: i128,
    pub client_id: String,
    pub will_topic: String,
    pub will_text: String,
    pub will_retain: bool,
    pub will_qos: u8,
    pub clean_session: bool,
    pub keep_alive_seconds: usize,
}

/// Everything the broker knows: its connected clients.
#[derive(Debug)]
pub struct BrokerState {
    pub clients: Vec<Client>,
}

/// A subscription as a value: its queue is a sequence.
pub struct SubscriptionView {
    pub topic_title: String,
    pub messages: Seq<SubscriptionMessage>,
    pub sub_qos: u8,
}

/// A client as a value: its subscriptions are a sequence of values.
pub struct ClientView {
    pub thread_id: u64,
    pub cancellation_requested: bool,
    pub subscriptions: Seq<SubscriptionView>,
    pub last_connection: i128,
    pub client_id: String,
    pub will_topic: String,
    pub will_text: String,
    pub will_retain: bool,
    pub will_qos: u8,
    pub clean_session: bool,
    pub keep_alive_seconds: usize,
}

impl View for Subscription {
    type V = SubscriptionView;

    open spec fn view(&self) -> SubscriptionView {
        SubscriptionView {
            topic_title: self.topic_title,
            messages: self.messages@,
            sub_qos: self.sub_qos,
        }
    }
}

impl View for Client {
    type V = ClientView;

    open spec fn view(&self) -> ClientView {
        ClientView {
            thread_id: self.thread_id,
            cancellation_requested: self.cancellation_requested,
            subscriptions: self.subscriptions@.map_values(|s: Subscription| s@),
            last_connection: self.last_connection,
            client_id: self.client_id,
            will_topic: self.will_topic,
            will_text: self.will_text,
            will_retain: self.will_retain,
            will_qos: self.will_qos,
            clean_session: self.clean_session,
            keep_alive_seconds: self.keep_alive_seconds,
        }
    }
}

impl View for BrokerState {
    type V = Seq<ClientView>;

    open spec fn view(&self) -> Seq<ClientView> {
        self.clients@.map_values(|c: Client| c@)
    }
}

/// `m` moved to state `s` at time `now`.
pub open spec fn with_state(m: SubscriptionMessage, s: MessageState, now: i128) -> SubscriptionMessage {
    SubscriptionMessage { message_state: s, last_updated: now, ..m }
}

/// `m` with one more retry counted (never past the counter's maximum).
pub open spec fn with_retry(m: SubscriptionMessage) -> SubscriptionMessage {
    SubscriptionMessage {
        retry_count: if m.retry_count < 255 { (m.retry_count + 1) as u8 } else { 255 },
        ..m
    }
}

/// `m` moved to state `s`, stamped with the time when one is given.
pub open spec fn mark(m: SubscriptionMessage, s: MessageState, stamp: Option<i128>) -> SubscriptionMessage {
    match stamp {
        Some(now) => with_state(m, s, now),
        None => SubscriptionMessage { message_state: s, ..m },
    }
}

/// Every message with identifier `id` marked with state `s`; the others as they were.
pub open spec fn mark_messages(
    ms: Seq<SubscriptionMessage>,
    id: u16,
    s: MessageState,
    stamp: Option<i128>,
) -> Seq<SubscriptionMessage> {
    ms.map_values(
        |m: SubscriptionMessage|
            if m.packet_identifier == id {
                mark(m, s, stamp)
            } else {
                m
            },
    )
}

/// `mark_messages` applied to the queue of every subscription.
pub open spec fn mark_subscriptions(
    subs: Seq<SubscriptionView>,
    id: u16,
    s: MessageState,
    stamp: Option<i128>,
) -> Seq<SubscriptionView> {
    subs.map_values(
        |sub: SubscriptionView|
            SubscriptionView { messages: mark_messages(sub.messages, id, s, stamp), ..sub },
    )
}

/// Whether `since + period` lies strictly before `now`.
pub open spec fn expired(since: i128, period: int, now: i128) -> bool {
    since + period < now
}

/// Decides `expired` without overflow.
pub fn is_expired(since: i128, period: i128, now: i128) -> (res: bool)
    requires
        period >= 0,
    ensures
        res == expired(since, period as int, now),
{
    if since > i128::MAX - period {
        false
    } else {
        since + period < now
    }
}

/// `time::OffsetDateTime::now_utc`, read as Unix nanoseconds with
/// `unix_timestamp_nanos`. Nothing is promised of it: it is the clock.
#[verifier::external_body]
pub(crate) fn now_unix_nanos() -> i128 {
    time::OffsetDateTime::now_utc().unix_timestamp_nanos()
}

impl SubscriptionMessage {
    /// A fresh message with no handshake state: identifier 0, QoS 0, no retries.
    pub fn new(message: String) -> (res: Self)
        ensures
            res.message == message,
            !res.message_sent,
            res.packet_identifier == 0,
            res.message_state == MessageState::Queued,
            res.pub_qos == 0,
            res.retry_count == 0,
            res.last_updated == 0,
    {
        SubscriptionMessage {
            message: message,
            message_sent: false,
            packet_identifier: 0,
            message_state: MessageState::Queued,
            pub_qos: 0,
            retry_count: 0,
            last_updated: 0,
        }
    }

    /// A message published with QoS `pub_qos` under `packet_identifier`, in state `state` as of `now`.
    pub fn with_delivery(
        message: String,
        pub_qos: u8,
        state: MessageState,
        packet_identifier: u16,
        now: i128,
    ) -> (res: Self)
        ensures
            res == (SubscriptionMessage {
                message,
                message_sent: false,
                packet_identifier,
                message_state: state,
                pub_qos,
                retry_count: 0,
                last_updated: now,
            }),
    {
        SubscriptionMessage {
            message: message,
            message_sent: false,
            packet_identifier: packet_identifier,
            message_state: state,
            pub_qos: pub_qos,
            retry_count: 0,
            last_updated: now,
        }
    }

    /// Moves the message to `state`, stamping the change with `now`.
    pub fn update_state(&mut self, state: MessageState, now: i128)
        ensures
            *final(self) == with_state(*old(self), state, now),
    {
        self.message_state = state;
        self.last_updated = now;
    }

    /// Counts one more delivery attempt.
    pub fn add_retry(&mut self)
        ensures
            *final(self) == with_retry(*old(self)),
    {
        if self.retry_count < 255 {
            self.retry_count = self.retry_count + 1;
        }
    }
}

impl Subscription {
    /// A subscription to `topic` with an empty queue, at the highest QoS (2).
    pub fn new(topic: String) -> (res: Self)
        ensures
            res.topic_title == topic,
            res.messages@ == Seq::<SubscriptionMessage>::empty(),
            res.sub_qos == 2,
    {
        Subscription { topic_title: topic, messages: Vec::new(), sub_qos: 2 }
    }

    /// Marks every queued message with identifier `id` with `state`, stamped with `stamp` when given.
    pub fn mark_message_state(&mut self, id: u16, state: MessageState, stamp: Option<i128>)
        ensures
            final(self)@ == (SubscriptionView {
                messages: mark_messages(old(self)@.messages, id, state, stamp),
                ..old(self)@
            }),
    {
        let mut queue: Vec<SubscriptionMessage> = Vec::new();
        std::mem::swap(&mut queue, &mut self.messages);
        let ghost q0 = queue@;
        let mut updated: Vec<SubscriptionMessage> = Vec::new();
        for m in it: queue.into_iter()
            invariant
                it.seq() == q0,
                updated@ == mark_messages(q0.take(it.index() as int), id, state, stamp),
        {
            let mut m = m;
            if m.packet_identifier == id {
                match stamp {
                    Some(now) => m.update_state(state, now),
                    None => {
                        m.message_state = state;
                    },
                }
            }
            updated.push(m);
            proof {
                assert(q0.take(it.index() + 1) == q0.take(it.index() as int).push(q0[it.index() as int]));
            }
        }
        assert(q0.take(q0.len() as int) == q0);
        self.messages = updated;
    }
}

impl Client {
    /// A client record, its last contact stamped with `now`.
    pub fn new(
        thread_id: u64,
        client_id: String,
        will_topic: String,
        will_text: String,
        will_retain: bool,
        will_qos: u8,
        clean_session: bool,
        keep_alive_seconds: usize,
        subscriptions: Vec<Subscription>,
        cancellation_requested: bool,
        now: i128,
    ) -> (res: Self)
        ensures
            res.thread_id == thread_id,
            res.client_id == client_id,
            res.will_topic == will_topic,
            res.will_text == will_text,
            res.will_retain == will_retain,
            res.will_qos == will_qos,
            res.clean_session == clean_session,
            res.keep_alive_seconds == keep_alive_seconds,
            res.subscriptions == subscriptions,
            res.cancellation_requested == cancellation_requested,
            res.last_connection == now,
    {
        Client {
            thread_id: thread_id,
            client_id: client_id,
            will_topic: will_topic,
            will_text: will_text,
            will_retain: will_retain,
            will_qos: will_qos,
            clean_session: clean_session,
            keep_alive_seconds: keep_alive_seconds,
            last_connection: now,
            subscriptions: subscriptions,
            cancellation_requested: cancellation_requested,
        }
    }

    /// Marks every message with identifier `id`, in every subscription, with
    /// `state`, stamped with `stamp` when given.
    pub fn mark_message_state(&mut self, id: u16, state: MessageState, stamp: Option<i128>)
        ensures
            final(self)@ == (ClientView {
                subscriptions: mark_subscriptions(old(self)@.subscriptions, id, state, stamp),
                ..old(self)@
            }),
    {
        let mut subs: Vec<Subscription> = Vec::new();
        std::mem::swap(&mut subs, &mut self.subscriptions);
        let ghost s0 = subs@;
        let mut updated: Vec<Subscription> = Vec::new();
        for s in it: subs.into_iter()
            invariant
                it.seq() == s0,
                updated@.map_values(|s: Subscription| s@) == mark_subscriptions(
                    s0.take(it.index() as int).map_values(|s: Subscription| s@),
                    id,
                    state,
                    stamp,
                ),
        {
            let mut s = s;
            s.mark_message_state(id, state, stamp);
            let ghost before = updated@;
            updated.push(s);
            proof {
                let i = it.index() as int;
                assert(s0.take(i + 1) == s0.take(i).push(s0[i]));
                assert(updated@.map_values(|s: Subscription| s@) =~= before.map_values(
                    |s: Subscription| s@,
                ).push(s@));
                assert(s0.take(i + 1).map_values(|s: Subscription| s@) =~= s0.take(i).map_values(
                    |s: Subscription| s@,
                ).push(s0[i]@));
            }
        }
        assert(s0.take(s0.len() as int) == s0);
        self.subscriptions = updated;
        assert(self@.subscriptions =~= mark_subscriptions(old(self)@.subscriptions, id, state, stamp));
    }

    /// Moves every message with identifier `id`, in every subscription, to `state` at `now`.
    pub fn update_message_state(&mut self, id: u16, state: MessageState, now: i128)
        ensures
            final(self)@ == (ClientView {
                subscriptions: mark_subscriptions(old(self)@.subscriptions, id, state, Some(now)),
                ..old(self)@
            }),
    {
        self.mark_message_state(id, state, Some(now));
    }
}

/// The index of the first client with `thread_id`, or the number of clients.
pub open spec fn client_position(cs: Seq<ClientView>, thread_id: u64) -> int
    decreases cs.len(),
{
    if cs.len() == 0 {
        0
    } else if cs[0].thread_id == thread_id {
        0
    } else {
        1 + client_position(cs.drop_first(), thread_id)
    }
}

/// Some client has `thread_id`.
pub open spec fn has_client(cs: Seq<ClientView>, thread_id: u64) -> bool {
    client_position(cs, thread_id) < cs.len()
}

/// `client_position` is the first client with that identifier.
pub proof fn lemma_client_position(cs: Seq<ClientView>, thread_id: u64)
    ensures
        0 <= client_position(cs, thread_id) <= cs.len(),
        forall|j: int| 0 <= j < client_position(cs, thread_id) ==> (#[trigger] cs[j]).thread_id != thread_id,
        client_position(cs, thread_id) < cs.len() ==> cs[client_position(cs, thread_id)].thread_id == thread_id,
    decreases cs.len(),
{
    if cs.len() > 0 && cs[0].thread_id != thread_id {
        let rest = cs.drop_first();
        lemma_client_position(rest, thread_id);
        assert forall|j: int| 0 <= j < client_position(cs, thread_id) implies (#[trigger] cs[j]).thread_id != thread_id by {
            if j > 0 {
                assert(cs[j] == rest[j - 1]);
            }
        }
        assert(client_position(cs, thread_id) < cs.len() ==> cs[client_position(cs, thread_id)]
            == rest[client_position(rest, thread_id)]);
    }
}

/// Two sequences of clients with the same identifiers, in the same order,
/// place a given identifier at the same position.
pub proof fn lemma_client_position_same_ids(a: Seq<ClientView>, b: Seq<ClientView>, thread_id: u64)
    requires
        a.len() == b.len(),
        forall|i: int| 0 <= i < a.len() ==> (#[trigger] a[i]).thread_id == b[i].thread_id,
    ensures
        client_position(a, thread_id) == client_position(b, thread_id),
    decreases a.len(),
{
    if a.len() > 0 && a[0].thread_id != thread_id {
        let (ra, rb) = (a.drop_first(), b.drop_first());
        assert forall|i: int| 0 <= i < ra.len() implies (#[trigger] ra[i]).thread_id == rb[i].thread_id by {
            assert(ra[i] == a[i + 1]);
            assert(rb[i] == b[i + 1]);
        }
        lemma_client_position_same_ids(ra, rb, thread_id);
    }
}

/// Every subscription to `topic` gets `m` appended to its queue.
pub open spec fn deliver_subscriptions(
    subs: Seq<SubscriptionView>,
    topic: Seq<char>,
    m: SubscriptionMessage,
) -> Seq<SubscriptionView> {
    subs.map_values(
        |s: SubscriptionView|
            if s.topic_title@ == topic {
                SubscriptionView { messages: s.messages.push(m), ..s }
            } else {
                s
            },
    )
}

/// Every subscription to `topic`, of every client, gets `m` appended to its queue.
pub open spec fn deliver(cs: Seq<ClientView>, topic: Seq<char>, m: SubscriptionMessage) -> Seq<ClientView> {
    cs.map_values(
        |c: ClientView| ClientView { subscriptions: deliver_subscriptions(c.subscriptions, topic, m), ..c },
    )
}

/// A message published to a topic no client subscribes to goes nowhere.
pub proof fn lemma_deliver_unsubscribed(cs: Seq<ClientView>, topic: Seq<char>, m: SubscriptionMessage)
    requires
        forall|i: int, j: int|
            0 <= i < cs.len() && 0 <= j < cs[i].subscriptions.len()
                ==> (#[trigger] cs[i].subscriptions[j]).topic_title@ != topic,
    ensures
        deliver(cs, topic, m) == cs,
{
    assert forall|i: int| 0 <= i < cs.len() implies #[trigger] deliver(cs, topic, m)[i] == cs[i] by {
        assert(deliver_subscriptions(cs[i].subscriptions, topic, m) =~= cs[i].subscriptions);
    }
    assert(deliver(cs, topic, m) =~= cs);
}

/// Delivery appends `m` to each queue of a subscription to `topic`, and
/// leaves every other queue as it was.
pub proof fn lemma_deliver_queues(cs: Seq<ClientView>, topic: Seq<char>, m: SubscriptionMessage, i: int, j: int)
    requires
        0 <= i < cs.len(),
        0 <= j < cs[i].subscriptions.len(),
    ensures
        deliver(cs, topic, m).len() == cs.len(),
        deliver(cs, topic, m)[i].subscriptions.len() == cs[i].subscriptions.len(),
        deliver(cs, topic, m)[i].subscriptions[j].messages == if cs[i].subscriptions[j].topic_title@ == topic {
            cs[i].subscriptions[j].messages.push(m)
        } else {
            cs[i].subscriptions[j].messages
        },
{
}

impl SubscriptionMessage {
    /// A copy of the message.
    pub fn duplicate(&self) -> (res: Self)
        ensures
            res == *self,
    {
        SubscriptionMessage {
            message: self.message.clone(),
            message_sent: self.message_sent,
            packet_identifier: self.packet_identifier,
            message_state: self.message_state,
            pub_qos: self.pub_qos,
            retry_count: self.retry_count,
            last_updated: self.last_updated,
        }
    }
}

impl Client {
    /// Appends a copy of `m` to every subscription to `topic`.
    pub fn deliver(&mut self, topic: &String, m: &SubscriptionMessage)
        ensures
            final(self)@ == (ClientView {
                subscriptions: deliver_subscriptions(old(self)@.subscriptions, topic@, *m),
                ..old(self)@
            }),
    {
        let mut subs: Vec<Subscription> = Vec::new();
        std::mem::swap(&mut subs, &mut self.subscriptions);
        let ghost s0 = subs@;
        let ghost v0 = s0.map_values(|s: Subscription| s@);
        let mut out: Vec<Subscription> = Vec::new();
        for s in it: subs.into_iter()
            invariant
                it.seq() == s0,
                v0 == s0.map_values(|s: Subscription| s@),
                out@.map_values(|s: Subscription| s@) == deliver_subscriptions(v0.take(it.index() as int), topic@, *m),
        {
            let ghost i = it.index() as int;
            let ghost sg = s;
            assert(sg == s0[i]);
            let mut s = s;
            if s.topic_title == *topic {
                s.messages.push(m.duplicate());
            }
            let ghost before = out@;
            out.push(s);
            proof {
                let f = |s: SubscriptionView|
                    if s.topic_title@ == topic@ {
                        SubscriptionView { messages: s.messages.push(*m), ..s }
                    } else {
                        s
                    };
                assert(s@ == f(sg@)) by {
                    if sg.topic_title@ == topic@ {
                        assert(s@.messages =~= sg@.messages.push(*m));
                    }
                }
                assert(out@.map_values(|s: Subscription| s@) =~= before.map_values(|s: Subscription| s@).push(f(sg@)));
                assert(v0.take(i + 1).map_values(f) =~= v0.take(i).map_values(f).push(f(v0[i])));
            }
        }
        assert(v0.take(v0.len() as int) == v0);
        self.subscriptions = out;
        assert(self@.subscriptions =~= deliver_subscriptions(old(self)@.subscriptions, topic@, *m));
    }
}

impl BrokerState {
    /// A broker with no clients.
    pub fn new() -> (res: Self)
        ensures
            res@ == Seq::<ClientView>::empty(),
    {
        BrokerState { clients: Vec::new() }
    }

    /// The index of the first client with `thread_id`, if there is one.
    pub fn find_client(&self, thread_id: u64) -> (res: Option<usize>)
        ensures
            match res {
                Some(i) => i == client_position(self@, thread_id) && i < self@.len(),
                None => !has_client(self@, thread_id),
            },
    {
        proof {
            lemma_client_position(self@, thread_id);
        }
        let mut i: usize = 0;
        while i < self.clients.len()
            invariant
                0 <= i <= self.clients@.len(),
                i <= client_position(self@, thread_id),
                0 <= client_position(self@, thread_id) <= self@.len(),
                forall|j: int| 0 <= j < client_position(self@, thread_id) ==> (#[trigger] self@[j]).thread_id != thread_id,
                client_position(self@, thread_id) < self@.len() ==> self@[client_position(self@, thread_id)].thread_id == thread_id,
            decreases self.clients@.len() - i,
        {
            assert(self@[i as int] == self.clients@[i as int]@);
            if self.clients[i].thread_id == thread_id {
                return Some(i);
            }
            i = i + 1;
        }
        None
    }

    /// Takes the client at `i` out of the broker.
    pub(crate) fn take_client(&mut self, i: usize) -> (c: Client)
        requires
            i < old(self)@.len(),
        ensures
            c@ == old(self)@[i as int],
            final(self)@ == old(self)@.remove(i as int),
    {
        let c = self.clients.remove(i);
        assert(self@ =~= old(self)@.remove(i as int));
        c
    }

    /// Puts client `c` back at `i`.
    pub(crate) fn put_client(&mut self, i: usize, c: Client)
        requires
            i <= old(self)@.len(),
        ensures
            final(self)@ == old(self)@.insert(i as int, c@),
    {
        self.clients.insert(i, c);
        assert(self@ =~= old(self)@.insert(i as int, c@));
    }

    /// Appends a copy of `m` to every subscription to `topic`, of every client.
    pub fn deliver(&mut self, topic: &String, m: &SubscriptionMessage)
        ensures
            final(self)@ == deliver(old(self)@, topic@, *m),
    {
        let mut clients: Vec<Client> = Vec::new();
        std::mem::swap(&mut clients, &mut self.clients);
        let ghost c0 = clients@;
        let ghost v0 = c0.map_values(|c: Client| c@);
        let mut out: Vec<Client> = Vec::new();
        for c in it: clients.into_iter()
            invariant
                it.seq() == c0,
                v0 == c0.map_values(|c: Client| c@),
                out@.map_values(|c: Client| c@) == deliver(v0.take(it.index() as int), topic@, *m),
        {
            let ghost i = it.index() as int;
            let ghost cg = c;
            assert(cg == c0[i]);
            let mut c = c;
            c.deliver(topic, m);
            let ghost before = out@;
            out.push(c);
            proof {
                let f = |c: ClientView| ClientView { subscriptions: deliver_subscriptions(c.subscriptions, topic@, *m), ..c };
                assert(out@.map_values(|c: Client| c@) =~= before.map_values(|c: Client| c@).push(f(cg@)));
                assert(v0.take(i + 1).map_values(f) =~= v0.take(i).map_values(f).push(f(v0[i])));
            }
        }
        assert(v0.take(v0.len() as int) == v0);
        self.clients = out;
    }
}

} // verus!
