use vstd::prelude::*;
use crate::mqtt::broker_state::{
    expired, is_expired, with_state, BrokerState, Client, ClientView, MessageState, Subscription,
    SubscriptionMessage, SubscriptionView,
};
use crate::mqtt::client_handler::{
    all_finished_ids, drop_finished, drop_finished_subscriptions, lemma_all_finished_ids_contains, finished, finished_ids, is_retry_due,
    lemma_drop_finished_clean, make_order, order_for, ready_to_send, retry_due, stream_retry_step,
    KEEP_ALIVE_NANOS, MAX_RETRY_COUNT,
};
use crate::mqtt::message_sender::PublishOrder;

verus! {

/// `rand::random::<u64>()`: a value drawn from `rand`'s thread-local
/// generator. Nothing is promised of it; it is chance.
#[verifier::external_body]
fn random_u64() -> u64 {
    rand::random::<u64>()
}

/// A fresh identifier for a connection's client, drawn at random.
pub fn create_thread_id() -> u64 {
    random_u64()
}

/// The QoS a subscription delivers at after `m` passes: lowered to the
/// publisher's QoS when a ready message was published at a lower one.
pub open spec fn keeper_send_qos(m: SubscriptionMessage, qos: u8) -> u8 {
    if ready_to_send(m.message_state) && m.pub_qos < qos {
        m.pub_qos
    } else {
        qos
    }
}

/// The broker-wide pass, first half: a ready message is sent; when it needs an
/// acknowledgement it is marked sent, or completed at once when the
/// subscription delivers at QoS 0.
pub open spec fn keeper_send_step(m: SubscriptionMessage, qos: u8, now: i128) -> SubscriptionMessage {
    if ready_to_send(m.message_state) && m.pub_qos > 0 {
        with_state(
            m,
            if keeper_send_qos(m, qos) == 0 {
                MessageState::MessageCompleted
            } else {
                MessageState::PublishSent
            },
            now,
        )
    } else {
        m
    }
}

/// What the broker-wide pass does to one message, the subscription at QoS `qos`.
pub open spec fn keeper_step(m: SubscriptionMessage, qos: u8, now: i128) -> SubscriptionMessage {
    stream_retry_step(keeper_send_step(m, qos, now), now)
}

/// The packets the broker-wide pass sends for one message: a send when it is
/// ready, then a resend (DUP set) when its retry is due.
pub open spec fn keeper_step_orders(m: SubscriptionMessage, topic: String, qos: u8, now: i128) -> Seq<PublishOrder> {
    let q = keeper_send_qos(m, qos);
    (if ready_to_send(m.message_state) {
        seq![order_for(m, topic, q, false)]
    } else {
        Seq::empty()
    }) + (if retry_due(keeper_send_step(m, qos, now), now) {
        seq![order_for(m, topic, q, true)]
    } else {
        Seq::empty()
    })
}

/// The subscription's QoS after the broker-wide pass went through `ms`.
pub open spec fn keeper_queue_qos(ms: Seq<SubscriptionMessage>, qos: u8) -> u8
    decreases ms.len(),
{
    if ms.len() == 0 {
        qos
    } else {
        keeper_send_qos(ms.last(), keeper_queue_qos(ms.drop_last(), qos))
    }
}

/// The queue after the broker-wide pass, each message stepped at the QoS the
/// subscription had reached when its turn came.
pub open spec fn keeper_queue_messages(ms: Seq<SubscriptionMessage>, qos: u8, now: i128) -> Seq<SubscriptionMessage>
    decreases ms.len(),
{
    if ms.len() == 0 {
        Seq::empty()
    } else {
        keeper_queue_messages(ms.drop_last(), qos, now).push(
            keeper_step(ms.last(), keeper_queue_qos(ms.drop_last(), qos), now),
        )
    }
}

/// The packets the broker-wide pass sends for a queue, in order.
pub open spec fn keeper_queue_orders(ms: Seq<SubscriptionMessage>, topic: String, qos: u8, now: i128) -> Seq<PublishOrder>
    decreases ms.len(),
{
    if ms.len() == 0 {
        Seq::empty()
    } else {
        keeper_queue_orders(ms.drop_last(), topic, qos, now) + keeper_step_orders(
            ms.last(),
            topic,
            keeper_queue_qos(ms.drop_last(), qos),
            now,
        )
    }
}

/// A subscription after the broker-wide pass stepped its queue.
pub open spec fn keeper_sub_step(s: SubscriptionView, now: i128) -> SubscriptionView {
    SubscriptionView {
        topic_title: s.topic_title,
        messages: keeper_queue_messages(s.messages, s.sub_qos, now),
        sub_qos: keeper_queue_qos(s.messages, s.sub_qos),
    }
}

/// The packets the broker-wide pass sends for all of a client's subscriptions.
pub open spec fn keeper_orders(subs: Seq<SubscriptionView>, now: i128) -> Seq<PublishOrder>
    decreases subs.len(),
{
    if subs.len() == 0 {
        Seq::empty()
    } else {
        keeper_orders(subs.drop_last(), now) + keeper_queue_orders(
            subs.last().messages,
            subs.last().topic_title,
            subs.last().sub_qos,
            now,
        )
    }
}

/// A client after the broker-wide pass handled it: queues stepped and cleaned
/// of finished messages, and cancellation requested once it went silent.
pub open spec fn keeper_client(c: ClientView, now: i128) -> ClientView {
    let stepped = c.subscriptions.map_values(|s: SubscriptionView| keeper_sub_step(s, now));
    ClientView {
        subscriptions: drop_finished(stepped, all_finished_ids(stepped)),
        cancellation_requested: c.cancellation_requested || expired(
            c.last_connection,
            KEEP_ALIVE_NANOS as int,
            now,
        ),
        ..c
    }
}

/// The broker-wide pass stops at a client that asked to be cancelled or has gone silent.
pub open spec fn keeper_stops_at(c: ClientView, now: i128) -> bool {
    c.cancellation_requested || expired(c.last_connection, KEEP_ALIVE_NANOS as int, now)
}

/// The index of the first client the pass stops at, or the number of clients.
pub open spec fn first_stop(cs: Seq<ClientView>, now: i128) -> int
    decreases cs.len(),
{
    if cs.len() == 0 {
        0
    } else if keeper_stops_at(cs[0], now) {
        0
    } else {
        1 + first_stop(cs.drop_first(), now)
    }
}

/// How many clients (a prefix) the pass handles: those before the stop, and
/// the stopping client too unless it had asked to be cancelled.
pub open spec fn handled_count(cs: Seq<ClientView>, now: i128) -> int {
    let k = first_stop(cs, now);
    if k < cs.len() && !cs[k].cancellation_requested {
        k + 1
    } else {
        k
    }
}

/// The packets of a sequence of handled clients, each tagged with its client.
pub open spec fn clients_orders(cs: Seq<ClientView>, now: i128) -> Seq<(u64, PublishOrder)>
    decreases cs.len(),
{
    if cs.len() == 0 {
        Seq::empty()
    } else {
        clients_orders(cs.drop_last(), now) + keeper_orders(cs.last().subscriptions, now).map_values(
            |o: PublishOrder| (cs.last().thread_id, o),
        )
    }
}

/// The clients after one broker-wide pass.
pub open spec fn keeper_round_clients(cs: Seq<ClientView>, now: i128) -> Seq<ClientView> {
    let p = handled_count(cs, now);
    cs.take(p).map_values(|c: ClientView| keeper_client(c, now)) + cs.skip(p)
}

/// What one broker-wide pass asks of the connections.
pub struct KeeperRound {
    /// The PUBLISH packets to send, each with the client whose connection carries it.
    pub orders: Vec<(u64, PublishOrder)>,
    /// A client that asked to be cancelled: its connection is shut down.
    pub shutdown: Option<u64>,
    /// A client went silent: the broker-wide loop ends.
    pub keeper_done: bool,
}

/// Steps one queue in the broker-wide pass, threading the subscription's QoS.
fn keeper_step_queue(
    queue: Vec<SubscriptionMessage>,
    topic: &String,
    qos: u8,
    now: i128,
    orders: &mut Vec<PublishOrder>,
    done: &mut Vec<u16>,
) -> (res: (Vec<SubscriptionMessage>, u8))
    ensures
        res.0@ == keeper_queue_messages(queue@, qos, now),
        res.1 == keeper_queue_qos(queue@, qos),
        final(orders)@ == old(orders)@ + keeper_queue_orders(queue@, *topic, qos, now),
        final(done)@ == old(done)@ + finished_ids(res.0@),
{
    let ghost q0 = queue@;
    let ghost orders0 = orders@;
    let ghost done0 = done@;
    let mut stepped: Vec<SubscriptionMessage> = Vec::new();
    let mut q = qos;
    for m in it: queue.into_iter()
        invariant
            it.seq() == q0,
            stepped@ == keeper_queue_messages(q0.take(it.index() as int), qos, now),
            q == keeper_queue_qos(q0.take(it.index() as int), qos),
            orders@ == orders0 + keeper_queue_orders(q0.take(it.index() as int), *topic, qos, now),
            done@ == done0 + finished_ids(stepped@),
    {
        let ghost i = it.index() as int;
        let ghost m0 = m;
        let ghost q_in = q;
        let mut m = m;
        if m.message_state == MessageState::PublishAcknowledged
            || m.message_state == MessageState::PublishReleased
            || m.message_state == MessageState::Queued {
            if m.pub_qos < q {
                q = m.pub_qos;
            }
            orders.push(make_order(&m, topic, q, false));
            if m.pub_qos > 0 {
                if q == 0 {
                    m.update_state(MessageState::MessageCompleted, now);
                } else {
                    m.update_state(MessageState::PublishSent, now);
                }
            }
        }
        assert(m == keeper_send_step(m0, q_in, now));
        assert(q == keeper_send_qos(m0, q_in));
        if is_retry_due(&m, now) {
            orders.push(make_order(&m, topic, q, true));
            m.add_retry();
            if m.retry_count >= MAX_RETRY_COUNT {
                m.update_state(MessageState::MessageUnsuccessful, now);
            }
        }
        if m.message_state == MessageState::MessageCompleted
            || m.message_state == MessageState::MessageAcknowledged
            || m.message_state == MessageState::Queued
            || m.message_state == MessageState::MessageUnsuccessful {
            done.push(m.packet_identifier);
        }
        let ghost before = stepped@;
        stepped.push(m);
        proof {
            let t = q0.take(i + 1);
            assert(t.drop_last() == q0.take(i));
            assert(t.last() == m0);
            assert(stepped@ =~= keeper_queue_messages(t, qos, now));
            assert(stepped@.drop_last() == before);
            assert(orders@ =~= orders0 + keeper_queue_orders(t, *topic, qos, now));
            assert(done@ =~= done0 + finished_ids(stepped@));
        }
    }
    assert(q0.take(q0.len() as int) == q0);
    (stepped, q)
}

impl Client {
    /// The broker-wide pass over one client that has not asked to be cancelled.
    pub fn keeper_client_pass(&mut self, now: i128) -> (res: Vec<PublishOrder>)
        ensures
            final(self)@ == keeper_client(old(self)@, now),
            res@ == keeper_orders(old(self)@.subscriptions, now),
    {
        let ghost c0 = self@;
        let mut subs: Vec<Subscription> = Vec::new();
        std::mem::swap(&mut subs, &mut self.subscriptions);
        let ghost s0 = subs@;
        let ghost v0 = s0.map_values(|s: Subscription| s@);
        assert(v0 == c0.subscriptions);
        let mut orders: Vec<PublishOrder> = Vec::new();
        let mut done: Vec<u16> = Vec::new();
        let mut stepped: Vec<Subscription> = Vec::new();
        for s in it: subs.into_iter()
            invariant
                it.seq() == s0,
                v0 == s0.map_values(|s: Subscription| s@),
                stepped@.map_values(|s: Subscription| s@) == v0.take(it.index() as int).map_values(
                    |s: SubscriptionView| keeper_sub_step(s, now),
                ),
                orders@ == keeper_orders(v0.take(it.index() as int), now),
                done@ == all_finished_ids(stepped@.map_values(|s: Subscription| s@)),
        {
            let ghost i = it.index() as int;
            let ghost sg = s;
            assert(sg == s0[i]);
            let Subscription { topic_title, messages, sub_qos } = s;
            let (new_messages, new_qos) = keeper_step_queue(
                messages,
                &topic_title,
                sub_qos,
                now,
                &mut orders,
                &mut done,
            );
            let ghost before = stepped@;
            stepped.push(Subscription { topic_title, messages: new_messages, sub_qos: new_qos });
            proof {
                let t = v0.take(i + 1);
                assert(t.drop_last() == v0.take(i));
                assert(t.last() == s0[i]@);
                let sv = stepped@.map_values(|s: Subscription| s@);
                assert(sv.drop_last() =~= before.map_values(|s: Subscription| s@));
                assert(sv.last() == keeper_sub_step(sg@, now));
                assert(sv =~= before.map_values(|s: Subscription| s@).push(keeper_sub_step(sg@, now)));
                assert(t.map_values(|s: SubscriptionView| keeper_sub_step(s, now)) =~= v0.take(i).map_values(
                    |s: SubscriptionView| keeper_sub_step(s, now),
                ).push(keeper_sub_step(sg@, now)));
                assert(sv =~= t.map_values(|s: SubscriptionView| keeper_sub_step(s, now)));
            }
        }
        assert(v0.take(v0.len() as int) == v0);
        let cleaned = drop_finished_subscriptions(stepped, &done);
        self.subscriptions = cleaned;
        if is_expired(self.last_connection, KEEP_ALIVE_NANOS, now) {
            self.cancellation_requested = true;
        }
        assert(self@.subscriptions =~= keeper_client(c0, now).subscriptions);
        orders
    }
}


/// `first_stop` lies within the clients; no client before it stops, the one at it does.
proof fn lemma_first_stop_props(cs: Seq<ClientView>, now: i128)
    ensures
        0 <= first_stop(cs, now) <= cs.len(),
        forall|j: int| 0 <= j < first_stop(cs, now) ==> !keeper_stops_at(#[trigger] cs[j], now),
        first_stop(cs, now) < cs.len() ==> keeper_stops_at(cs[first_stop(cs, now)], now),
    decreases cs.len(),
{
    if cs.len() > 0 && !keeper_stops_at(cs[0], now) {
        let rest = cs.drop_first();
        lemma_first_stop_props(rest, now);
        assert forall|j: int| 0 <= j < first_stop(cs, now) implies !keeper_stops_at(#[trigger] cs[j], now) by {
            if j > 0 {
                assert(cs[j] == rest[j - 1]);
            }
        }
        assert(first_stop(cs, now) < cs.len() ==> cs[first_stop(cs, now)] == rest[first_stop(rest, now)]);
    }
}

/// Tags each order with the client it goes to.
fn tag_orders(thread_id: u64, orders: Vec<PublishOrder>, out: &mut Vec<(u64, PublishOrder)>)
    ensures
        final(out)@ == old(out)@ + orders@.map_values(|o: PublishOrder| (thread_id, o)),
{
    let ghost o0 = orders@;
    let ghost out0 = out@;
    for o in it: orders.into_iter()
        invariant
            it.seq() == o0,
            out@ == out0 + o0.take(it.index() as int).map_values(|o: PublishOrder| (thread_id, o)),
    {
        let ghost i = it.index() as int;
        out.push((thread_id, o));
        proof {
            assert(o0.take(i + 1).map_values(|o: PublishOrder| (thread_id, o)) =~= o0.take(i).map_values(
                |o: PublishOrder| (thread_id, o),
            ).push((thread_id, o0[i])));
            assert(out@ =~= out0 + o0.take(i + 1).map_values(|o: PublishOrder| (thread_id, o)));
        }
    }
    assert(o0.take(o0.len() as int) == o0);
}

/// The QoS a subscription reaches in the broker-wide pass never exceeds the one it started at.
proof fn lemma_keeper_queue_qos_bound(ms: Seq<SubscriptionMessage>, qos: u8)
    ensures
        keeper_queue_qos(ms, qos) <= qos,
    decreases ms.len(),
{
    if ms.len() > 0 {
        lemma_keeper_queue_qos_bound(ms.drop_last(), qos);
    }
}

/// The broker-wide pass never raises a subscription's QoS, and after it no
/// handled client keeps a finished message in any queue.
pub proof fn lemma_keeper_client_pass(c: ClientView, now: i128)
    ensures
        keeper_client(c, now).subscriptions.len() == c.subscriptions.len(),
        forall|i: int| 0 <= i < c.subscriptions.len()
            ==> #[trigger] keeper_client(c, now).subscriptions[i].sub_qos <= c.subscriptions[i].sub_qos,
        forall|i: int, j: int|
            0 <= i < keeper_client(c, now).subscriptions.len()
                && 0 <= j < keeper_client(c, now).subscriptions[i].messages.len()
                ==> !finished(#[trigger] keeper_client(c, now).subscriptions[i].messages[j].message_state),
{
    let stepped = c.subscriptions.map_values(|s: SubscriptionView| keeper_sub_step(s, now));
    assert forall|i: int| 0 <= i < c.subscriptions.len()
        implies #[trigger] keeper_client(c, now).subscriptions[i].sub_qos <= c.subscriptions[i].sub_qos by {
        lemma_keeper_queue_qos_bound(c.subscriptions[i].messages, c.subscriptions[i].sub_qos);
    }
    lemma_drop_finished_clean(stepped);
}

impl BrokerState {
    /// One pass of the broker-wide delivery loop. Clients are handled in
    /// order until one asked to be cancelled (its connection is to be shut
    /// down, and it is left as it is) or has gone silent (it is handled, marked
    /// cancelled, and the loop ends); the clients after that one are untouched.
    pub fn keeper_round(&mut self, now: i128) -> (res: KeeperRound)
        ensures
            final(self)@ == keeper_round_clients(old(self)@, now),
            res.orders@ == clients_orders(old(self)@.take(handled_count(old(self)@, now)), now),
            res.shutdown == (if first_stop(old(self)@, now) < old(self)@.len()
                && old(self)@[first_stop(old(self)@, now)].cancellation_requested {
                Some(old(self)@[first_stop(old(self)@, now)].thread_id)
            } else {
                None
            }),
            res.keeper_done == (first_stop(old(self)@, now) < old(self)@.len()
                && !old(self)@[first_stop(old(self)@, now)].cancellation_requested),
    {
        let ghost cs = self@;
        let ghost k = first_stop(cs, now);
        let ghost p = handled_count(cs, now);
        proof {
            lemma_first_stop_props(cs, now);
            assert(p == (if k < cs.len() && !cs[k].cancellation_requested { k + 1 } else { k }));
        }
        let mut clients: Vec<Client> = Vec::new();
        std::mem::swap(&mut clients, &mut self.clients);
        let ghost c0 = clients@;
        assert(cs == c0.map_values(|c: Client| c@));
        let mut out: Vec<Client> = Vec::new();
        let mut orders: Vec<(u64, PublishOrder)> = Vec::new();
        let mut shutdown: Option<u64> = None;
        let mut keeper_done = false;
        let mut stopped = false;
        for c in it: clients.into_iter()
            invariant
                it.seq() == c0,
                cs == c0.map_values(|c: Client| c@),
                0 <= k <= cs.len(),
                forall|j: int| 0 <= j < k ==> !keeper_stops_at(#[trigger] cs[j], now),
                k < cs.len() ==> keeper_stops_at(cs[k], now),
                p == (if k < cs.len() && !cs[k].cancellation_requested { k + 1 } else { k }),
                0 <= p <= cs.len(),
                stopped == (it.index() > k),
                !stopped ==> forall|j: int| 0 <= j < it.index() ==> !keeper_stops_at(#[trigger] cs[j], now),
                stopped ==> k < cs.len() && keeper_stops_at(cs[k], now)
                    && forall|j: int| 0 <= j < k ==> !keeper_stops_at(#[trigger] cs[j], now),
                out@.map_values(|c: Client| c@) == cs.take(if it.index() < p { it.index() as int } else { p }).map_values(
                    |c: ClientView| keeper_client(c, now),
                ) + cs.subrange(if it.index() < p { it.index() as int } else { p }, it.index() as int),
                orders@ == clients_orders(cs.take(if it.index() < p { it.index() as int } else { p }), now),
                shutdown == (if stopped && cs[k].cancellation_requested {
                    Some(cs[k].thread_id)
                } else {
                    None
                }),
                keeper_done == (stopped && !cs[k].cancellation_requested),
        {
            let ghost i = it.index() as int;
            let ghost cg = c;
            assert(cg == c0[i]);
            assert(cs[i] == cg@);
            let ghost before = out@;
            let ghost n = if i < p { i } else { p };
            let mut c = c;
            if stopped {
                out.push(c);
                proof {
                    assert(p <= k + 1);
                    assert(n == p);
                    let ov = out@.map_values(|c: Client| c@);
                    assert(ov =~= before.map_values(|c: Client| c@).push(cs[i]));
                    assert(ov =~= cs.take(p).map_values(|c: ClientView| keeper_client(c, now)) + cs.subrange(p, i + 1));
                }
            } else {
                assert(i <= k);
                let silent = is_expired(c.last_connection, KEEP_ALIVE_NANOS, now);
                if c.cancellation_requested {
                    shutdown = Some(c.thread_id);
                    stopped = true;
                    out.push(c);
                    proof {
                        assert(keeper_stops_at(cs[i], now));
                        assert(k == i) by {
                            if k < i {
                                assert(!keeper_stops_at(cs[k], now));
                            }
                        }
                        assert(p == i);
                        let ov = out@.map_values(|c: Client| c@);
                        assert(ov =~= before.map_values(|c: Client| c@).push(cs[i]));
                        assert(ov =~= cs.take(p).map_values(|c: ClientView| keeper_client(c, now)) + cs.subrange(p, i + 1));
                    }
                } else {
                    let thread_id = c.thread_id;
                    let client_orders = c.keeper_client_pass(now);
                    tag_orders(thread_id, client_orders, &mut orders);
                    out.push(c);
                    if silent {
                        keeper_done = true;
                        stopped = true;
                    }
                    proof {
                        if silent {
                            assert(keeper_stops_at(cs[i], now));
                            assert(k == i) by {
                                if k < i {
                                    assert(!keeper_stops_at(cs[k], now));
                                }
                            }
                            assert(p == i + 1);
                        } else {
                            assert(!keeper_stops_at(cs[i], now));
                            assert(k != i);
                            assert(i + 1 <= p);
                        }
                        assert(n == i);
                        let ov = out@.map_values(|c: Client| c@);
                        assert(ov =~= before.map_values(|c: Client| c@).push(keeper_client(cs[i], now)));
                        assert(cs.take(i + 1).map_values(|c: ClientView| keeper_client(c, now)) =~= cs.take(i).map_values(
                            |c: ClientView| keeper_client(c, now),
                        ).push(keeper_client(cs[i], now)));
                        assert(cs.take(i + 1).drop_last() == cs.take(i));
                        assert(clients_orders(cs.take(i + 1), now) == clients_orders(cs.take(i), now)
                            + keeper_orders(cs[i].subscriptions, now).map_values(|o: PublishOrder| (cs[i].thread_id, o)));
                        assert(ov =~= cs.take(i + 1).map_values(|c: ClientView| keeper_client(c, now)) + cs.subrange(i + 1, i + 1));
                    }
                }
            }
        }
        proof {
            assert(cs.subrange(p, cs.len() as int) == cs.skip(p));
        }
        self.clients = out;
        KeeperRound { orders, shutdown, keeper_done }
    }
}

/// The QoS a subscription is at after the broker-wide pass went through `ms`
/// is at most the one it started at and at most the publish QoS of every
/// ready message of `ms`.
proof fn lemma_keeper_queue_qos_min(ms: Seq<SubscriptionMessage>, qos: u8)
    ensures
        keeper_queue_qos(ms, qos) <= qos,
        forall|k: int| 0 <= k < ms.len() && ready_to_send(#[trigger] ms[k].message_state)
            ==> keeper_queue_qos(ms, qos) <= ms[k].pub_qos,
    decreases ms.len(),
{
    if ms.len() > 0 {
        let rest = ms.drop_last();
        lemma_keeper_queue_qos_min(rest, qos);
        assert forall|k: int| 0 <= k < ms.len() && ready_to_send(#[trigger] ms[k].message_state)
            implies keeper_queue_qos(ms, qos) <= ms[k].pub_qos by {
            if k < ms.len() - 1 {
                assert(ms[k] == rest[k]);
            }
        }
    }
}

/// The message at `j` of the queue after the broker-wide pass is the one at
/// `j` stepped at the QoS the messages before it left the subscription at.
proof fn lemma_keeper_queue_messages_index(ms: Seq<SubscriptionMessage>, qos: u8, now: i128, j: int)
    requires
        0 <= j < ms.len(),
    ensures
        keeper_queue_messages(ms, qos, now).len() == ms.len(),
        keeper_queue_messages(ms, qos, now)[j] == keeper_step(ms[j], keeper_queue_qos(ms.take(j), qos), now),
    decreases ms.len(),
{
    if j == ms.len() - 1 {
        assert(ms.take(j) == ms.drop_last());
        if j > 0 {
            lemma_keeper_queue_messages_index(ms.drop_last(), qos, now, j - 1);
        }
    } else {
        lemma_keeper_queue_messages_index(ms.drop_last(), qos, now, j);
        assert(ms.drop_last().take(j) == ms.take(j));
    }
}

/// A message waiting to be sent (queued, acknowledged or released) with a
/// publish QoS above 0, on a subscription that delivers at QoS 0 when its turn
/// comes (the subscription started at 0, or a ready message at or before it
/// was published at QoS 0), is completed at `now` by the broker-wide pass:
/// sent at QoS 0, it never waits for an acknowledgement.
pub proof fn lemma_keeper_qos0_completes(ms: Seq<SubscriptionMessage>, qos: u8, now: i128, j: int)
    requires
        0 <= j < ms.len(),
        ms[j].message_state == MessageState::Queued || ms[j].message_state == MessageState::PublishAcknowledged
            || ms[j].message_state == MessageState::PublishReleased,
        ms[j].pub_qos > 0,
        qos == 0 || exists|k: int|
            0 <= k < j && (ms[k].message_state == MessageState::Queued || ms[k].message_state
                == MessageState::PublishAcknowledged || ms[k].message_state == MessageState::PublishReleased)
                && #[trigger] ms[k].pub_qos == 0,
    ensures
        keeper_queue_messages(ms, qos, now)[j] == (SubscriptionMessage {
            message_state: MessageState::MessageCompleted,
            last_updated: now,
            ..ms[j]
        }),
{
    lemma_keeper_queue_messages_index(ms, qos, now, j);
    let before = ms.take(j);
    lemma_keeper_queue_qos_min(before, qos);
    if qos != 0 {
        let k = choose|k: int|
            0 <= k < j && (ms[k].message_state == MessageState::Queued || ms[k].message_state
                == MessageState::PublishAcknowledged || ms[k].message_state == MessageState::PublishReleased)
                && #[trigger] ms[k].pub_qos == 0;
        assert(before[k] == ms[k]);
        assert(ready_to_send(before[k].message_state));
    }
    assert(keeper_queue_qos(before, qos) == 0);
}

/// The broker-wide pass leaves no message of a client carrying the identifier
/// of a message it sent at QoS 0 with a publish QoS above 0 (see
/// `lemma_keeper_qos0_completes`): that message completed and left its queue.
pub proof fn lemma_keeper_qos0_leaves_queue(c: ClientView, now: i128, i: int, j: int)
    requires
        0 <= i < c.subscriptions.len(),
        0 <= j < c.subscriptions[i].messages.len(),
        c.subscriptions[i].messages[j].message_state == MessageState::Queued
            || c.subscriptions[i].messages[j].message_state == MessageState::PublishAcknowledged
            || c.subscriptions[i].messages[j].message_state == MessageState::PublishReleased,
        c.subscriptions[i].messages[j].pub_qos > 0,
        c.subscriptions[i].sub_qos == 0 || exists|k: int|
            0 <= k < j && (c.subscriptions[i].messages[k].message_state == MessageState::Queued
                || c.subscriptions[i].messages[k].message_state == MessageState::PublishAcknowledged
                || c.subscriptions[i].messages[k].message_state == MessageState::PublishReleased)
                && #[trigger] c.subscriptions[i].messages[k].pub_qos == 0,
    ensures
        forall|a: int, b: int|
            0 <= a < keeper_client(c, now).subscriptions.len()
                && 0 <= b < keeper_client(c, now).subscriptions[a].messages.len()
                ==> (#[trigger] keeper_client(c, now).subscriptions[a].messages[b]).packet_identifier
                    != c.subscriptions[i].messages[j].packet_identifier,
{
    let ms = c.subscriptions[i].messages;
    let id = ms[j].packet_identifier;
    lemma_keeper_qos0_completes(ms, c.subscriptions[i].sub_qos, now, j);
    lemma_keeper_queue_messages_index(ms, c.subscriptions[i].sub_qos, now, j);
    let stepped = c.subscriptions.map_values(|s: SubscriptionView| keeper_sub_step(s, now));
    assert(stepped[i].messages[j].message_state == MessageState::MessageCompleted);
    lemma_all_finished_ids_contains(stepped, i, j);
    let done = all_finished_ids(stepped);
    let after = keeper_client(c, now).subscriptions;
    assert forall|a: int, b: int| 0 <= a < after.len() && 0 <= b < after[a].messages.len()
        implies (#[trigger] after[a].messages[b]).packet_identifier != id by {
        let keep = |m: SubscriptionMessage| !done.contains(m.packet_identifier);
        assert(after[a].messages == stepped[a].messages.filter(keep));
        stepped[a].messages.lemma_filter_pred(keep, b);
    }
}

} // verus!
